pub mod commands;
pub mod kill;
pub mod last_session;
pub mod last_window;
pub mod move_window;
pub mod new;
pub mod record;
pub mod rename;
pub mod swap;
pub mod switch;
pub mod switch_windows;
