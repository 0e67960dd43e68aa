//! The command-line surface, as data.
//!
//! Argument parsing happens outside; these types carry the parsed
//! command into the library's logic, most of all the lifecycle hook
//! events whose recorded status the hook logic decides.

use vstd::prelude::*;

verus! {

/// The parsed invocation.
pub struct Cli {
    pub command: Command,
}

/// One subcommand.
pub enum Command {
    /// Start or add a session tab.
    Start { name: String, dir: Option<String> },
    /// List active sessions.
    List,
    /// Kill a single session tab.
    Kill { name: String },
    /// Kill all sessions.
    AllKill,
    /// Reattach to an existing session.
    Resume,
    /// The interactive session navigator.
    Sidebar,
    /// Handle a lifecycle hook event.
    Hook { event: HookEvent },
    /// Install the lifecycle hooks.
    Init,
}

/// One lifecycle hook event of the host application.
#[derive(Clone, Copy, Debug, PartialEq, Eq, Structural)]
pub enum HookEvent {
    /// The assistant received a user prompt.
    UserPrompt,
    /// The assistant finished responding.
    Stop,
    /// The assistant is about to show a question.
    Ask,
    /// The user answered a question.
    AskDone,
}

} // verus!
