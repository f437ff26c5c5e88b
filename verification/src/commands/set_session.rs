//! itack set-session command.

use crate::domain::issue::Issue;
use crate::text::{decimal, numbered};
use vstd::prelude::*;
use vstd::string::StringExecFns;

verus! {

/// Arguments for the set-session command.
pub struct SetSessionArgs {
    pub id: u32,
    pub session: String,
}

/// The commit message of a change of session.
pub open spec fn session_message(id: u32, session: Seq<char>) -> Seq<char> {
    "Set session for issue #"@ + decimal(id as nat) + " to "@ + session
}

/// Set the session for an issue. Returns the commit message.
pub fn run(args: &SetSessionArgs, issue: &mut Issue) -> (message: String)
    ensures
        message@ == session_message(args.id, args.session@),
        final(issue)@ == old(issue)@.in_session(args.session@),
{
    issue.set_session(args.session.clone());
    let mut message = numbered("Set session for issue #", args.id, " to ");
    message.append(args.session.as_str());
    message
}

} // verus!
