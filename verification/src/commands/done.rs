//! itack done command.

use crate::domain::issue::Issue;
use crate::domain::status::Status;
use crate::error::ItackError;
use crate::text::{decimal, numbered};
use vstd::prelude::*;

verus! {

/// Arguments for the done command.
pub struct DoneArgs {
    pub id: u32,
}

/// The commit message of a completion.
pub open spec fn done_message(id: u32) -> Seq<char> {
    "Mark issue #"@ + decimal(id as nat) + " as done"@
}

/// Mark an issue as done. Returns the commit message and the status that the issue had.
/// An issue that is done already is reported and left as it is.
pub fn run(args: &DoneArgs, issue: &mut Issue) -> (r: Result<(String, Status), ItackError>)
    ensures
        old(issue).status == Status::Done ==> (r == Err::<(String, Status), ItackError>(
            ItackError::AlreadyDone(args.id),
        ) && *final(issue) == *old(issue)),
        old(issue).status != Status::Done ==> (r matches Ok((message, before)) && message@
            == done_message(args.id) && before == old(issue).status && final(issue)@
            == old(issue)@.with_status(Status::Done)),
{
    if issue.status == Status::Done {
        return Err(ItackError::AlreadyDone(args.id));
    }
    let before = issue.set_status(Status::Done);
    Ok((numbered("Mark issue #", args.id, " as done"), before))
}

} // verus!
