//! itack claim command.

use crate::domain::issue::{copy_text, now, text_of, Issue, Timestamp};
use crate::error::ItackError;
use crate::storage::db::Database;
use crate::text::{decimal, numbered};
use vstd::prelude::*;
use vstd::string::StringExecFns;

verus! {

/// Arguments for the claim command.
pub struct ClaimArgs {
    pub id: u32,
    pub assignee: String,
    pub session: Option<String>,
}

/// The commit message of a claim.
pub open spec fn claim_message(id: u32, assignee: Seq<char>) -> Seq<char> {
    "Claim issue #"@ + decimal(id as nat) + " for "@ + assignee
}

/// Claim an issue, at the moment `at`.
///
/// The ledger decides: where it holds a claim on the issue, the command fails with the
/// holder's name and neither ledger nor record changes. Otherwise the ledger takes the
/// claim and the record is updated: assignee, branch and session are set, and an open
/// issue moves to in-progress. Returns the commit message.
pub fn run_at(
    args: &ClaimArgs,
    db: &mut Database,
    issue: &mut Issue,
    branch: Option<String>,
    at: Timestamp,
) -> (r: Result<String, ItackError>)
    requires
        old(db).wf(),
    ensures
        final(db).wf(),
        match old(db)@.claim(args.id, args.assignee@, at) {
            Ok(after) => r matches Ok(message) && message@ == claim_message(
                args.id,
                args.assignee@,
            ) && final(db)@ == after && final(issue)@ == old(issue)@.claimed(
                args.assignee@,
                text_of(branch),
                text_of(args.session),
            ),
            Err(holder) => r matches Err(ItackError::AlreadyClaimed(id, who)) && id == args.id
                && who@ == holder && final(db)@ == old(db)@ && *final(issue) == *old(issue),
        },
{
    match db.claim_at(args.id, args.assignee.as_str(), at) {
        Err(e) => Err(e),
        Ok(()) => {
            issue.claim(args.assignee.clone(), branch, copy_text(&args.session));
            let mut message = numbered("Claim issue #", args.id, " for ");
            message.append(args.assignee.as_str());
            Ok(message)
        },
    }
}

/// Claim an issue now: as `run_at`, at the moment of the call.
pub fn run(args: &ClaimArgs, db: &mut Database, issue: &mut Issue, branch: Option<String>) -> (r:
    Result<String, ItackError>)
    requires
        old(db).wf(),
    ensures
        final(db).wf(),
        r is Ok <==> !old(db)@.claims.dom().contains(args.id),
        match r {
            Ok(message) => message@ == claim_message(args.id, args.assignee@) && final(issue)@
                == old(issue)@.claimed(args.assignee@, text_of(branch), text_of(args.session))
                && final(db)@.claims.dom().contains(args.id)
                && final(db)@.claims[args.id].assignee == args.assignee@,
            Err(e) => e matches ItackError::AlreadyClaimed(id, who) && id == args.id && who@
                == old(db)@.claims[args.id].assignee && final(db)@ == old(db)@ && *final(issue)
                == *old(issue),
        },
{
    let at = now();
    run_at(args, db, issue, branch, at)
}

} // verus!
