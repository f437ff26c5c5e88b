//! itack release command.

use crate::domain::issue::{text_of, Issue};
use crate::error::ItackError;
use crate::storage::db::Database;
use crate::text::{decimal, numbered};
use vstd::prelude::*;

verus! {

/// Arguments for the release command.
pub struct ReleaseArgs {
    pub id: u32,
}

/// The commit message of a release.
pub open spec fn release_message(id: u32) -> Seq<char> {
    "Release issue #"@ + decimal(id as nat)
}

/// Release a claim on an issue.
///
/// The ledger decides: where it holds no claim on the issue, the command fails and
/// neither ledger nor record changes. Otherwise the claim leaves the ledger and the record
/// loses assignee, branch and session. Returns the commit message and who held the issue
/// according to the record.
pub fn run(args: &ReleaseArgs, db: &mut Database, issue: &mut Issue) -> (r: Result<
    (String, Option<String>),
    ItackError,
>)
    requires
        old(db).wf(),
    ensures
        final(db).wf(),
        match old(db)@.release(args.id) {
            Some(after) => r matches Ok((message, holder)) && message@ == release_message(
                args.id,
            ) && text_of(holder) == old(issue)@.assignee && final(db)@ == after && final(issue)@
                == old(issue)@.released(),
            None => r == Err::<(String, Option<String>), ItackError>(
                ItackError::NotClaimed(args.id),
            ) && final(db)@ == old(db)@ && *final(issue) == *old(issue),
        },
{
    match db.release(args.id) {
        Err(e) => Err(e),
        Ok(()) => {
            let holder = issue.release();
            proof {
                reveal_strlit("");
            }
            let message = numbered("Release issue #", args.id, "");
            assert(message@ =~= release_message(args.id));
            Ok((message, holder))
        },
    }
}

} // verus!
