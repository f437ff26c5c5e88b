//! itack list command.

use crate::domain::status::Status;
use crate::output::OutputFormat;
use crate::storage::records::{keep_flagged, lemma_flagged_is_filter, IssueInfo};
use vstd::prelude::*;

verus! {

/// Arguments for the list command.
pub struct ListArgs {
    pub status: Option<Status>,
    pub epic: Option<String>,
    pub assignee: Option<String>,
    pub format: OutputFormat,
}

/// An optional text passes a filter that is switched off, or that names the very text.
pub open spec fn text_passes(filter: Option<String>, held: Option<String>) -> bool {
    filter matches Some(wanted) ==> (held matches Some(text) && text@ == wanted@)
}

/// An issue passes the filters of a listing: each filter that is set names what the
/// issue holds.
pub open spec fn passes(args: ListArgs, info: IssueInfo) -> bool {
    &&& args.status matches Some(wanted) ==> info.issue.status == wanted
    &&& text_passes(args.epic, info.issue.epic)
    &&& text_passes(args.assignee, info.issue.assignee)
}

/// Whether an optional text passes a filter.
fn text_filter(filter: &Option<String>, held: &Option<String>) -> (r: bool)
    ensures
        r == text_passes(*filter, *held),
{
    match filter {
        None => true,
        Some(wanted) => match held {
            None => false,
            Some(text) => *text == *wanted,
        },
    }
}

/// List issues with optional filters: the issues that pass every filter, in their order.
pub fn run(args: &ListArgs, issues: Vec<IssueInfo>) -> (listed: Vec<IssueInfo>)
    ensures
        listed@ == issues@.filter(|info: IssueInfo| passes(*args, info)),
{
    let mut flags: Vec<bool> = Vec::new();
    let mut i: usize = 0;
    while i < issues.len()
        invariant
            i <= issues.len(),
            flags.len() == i,
            forall|k: int| 0 <= k < i ==> flags@[k] == passes(*args, issues@[k]),
        decreases issues.len() - i,
    {
        let info = &issues[i];
        let status_ok = match args.status {
            None => true,
            Some(wanted) => info.issue.status == wanted,
        };
        let ok = status_ok && text_filter(&args.epic, &info.issue.epic) && text_filter(
            &args.assignee,
            &info.issue.assignee,
        );
        flags.push(ok);
        i += 1;
    }
    proof {
        lemma_flagged_is_filter(issues@, flags@, |info: IssueInfo| passes(*args, info));
    }
    keep_flagged(issues, &flags)
}

} // verus!
