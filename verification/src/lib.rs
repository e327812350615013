pub mod cli;
pub mod commands;
pub mod error;
pub mod fzf;
pub mod history;
pub mod nav;
pub mod order;
pub mod text;
pub mod tmux;

use vstd::prelude::*;

verus! {

} // verus!
