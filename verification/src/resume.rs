//! The resume decision: how to reattach to an existing session.

use vstd::prelude::*;

verus! {

/// What the resume command should do.
#[derive(Clone, Copy, Debug, PartialEq, Eq, Structural)]
pub enum ResumeAction {
    /// No session exists; report it and fail.
    NoSession,
    /// Already inside the multiplexer: switch the client over.
    SwitchClient,
    /// Outside the multiplexer: attach.
    Attach,
}

/// Decide how to reattach: without a live session there is nothing to
/// resume; from inside the multiplexer the client switches, from outside
/// it attaches.
pub fn run(has_session: bool, inside_tmux: bool) -> (r: ResumeAction)
    ensures
        r == (if !has_session {
            ResumeAction::NoSession
        } else if inside_tmux {
            ResumeAction::SwitchClient
        } else {
            ResumeAction::Attach
        }),
{
    if !has_session {
        ResumeAction::NoSession
    } else if inside_tmux {
        ResumeAction::SwitchClient
    } else {
        ResumeAction::Attach
    }
}

} // verus!
