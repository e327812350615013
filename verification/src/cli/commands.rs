//! The command-line surface, as plain data.
//!
//! The argument parser lives outside the library; what it produces is
//! converted into these values.

use vstd::prelude::*;

verus! {

/// A parsed invocation.
pub struct Cli {
    pub command: Option<Commands>,
    pub name: Option<String>,
    pub description: Option<String>,
}

/// The commands a user can ask for.
pub enum Commands {
    /// Create a session, optionally picking a directory first.
    New { name: Option<String>, path: Option<String>, preview: bool },
    /// Kill a session.
    Kill { session: Option<String> },
    /// Rename a session.
    Rename { current_name: Option<String>, new_name: String },
    /// Switch to a session.
    Switch { name: Option<String> },
    /// Switch to a window picked interactively.
    SwitchWindow,
}

} // verus!
