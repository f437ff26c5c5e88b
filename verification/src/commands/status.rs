//! itack status command.

use crate::domain::issue::Issue;
use crate::domain::status::Status;
use crate::text::{decimal, numbered};
use vstd::prelude::*;
use vstd::string::StringExecFns;

verus! {

/// Arguments for the status command.
pub struct StatusArgs {
    pub id: u32,
    pub status: Status,
}

/// The commit message of a change of status.
pub open spec fn status_message(id: u32, status: Status) -> Seq<char> {
    "Set issue #"@ + decimal(id as nat) + " status to "@ + status.name()
}

/// Update an issue's status. Returns the commit message and the status that the issue had.
pub fn run(args: &StatusArgs, issue: &mut Issue) -> (r: (String, Status))
    ensures
        r.0@ == status_message(args.id, args.status),
        r.1 == old(issue).status,
        final(issue)@ == old(issue)@.with_status(args.status),
{
    let before = issue.set_status(args.status);
    let mut message = numbered("Set issue #", args.id, " status to ");
    let name = args.status.to_string();
    message.append(name.as_str());
    (message, before)
}

} // verus!
