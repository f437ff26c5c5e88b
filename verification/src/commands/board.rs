//! itack board command.

use crate::domain::status::Status;
use crate::output::OutputFormat;
use crate::storage::records::IssueInfo;
use vstd::prelude::*;

verus! {

/// Arguments for the board command.
pub struct BoardArgs {
    pub format: OutputFormat,
}

/// Board summary data.
#[derive(Debug, PartialEq, Eq)]
pub struct BoardSummary {
    pub project_id: String,
    pub open_count: usize,
    pub in_progress_count: usize,
    pub done_count: usize,
    pub wontfix_count: usize,
    pub total_count: usize,
}

/// How many issues a table shows below the counts.
pub const RECENT_ISSUES: usize = 10;

/// How many of the issues have the status.
pub open spec fn count_with(issues: Seq<IssueInfo>, status: Status) -> nat
    decreases issues.len(),
{
    if issues.len() == 0 {
        0
    } else {
        count_with(issues.drop_last(), status) + if issues.last().issue.status == status {
            1nat
        } else {
            0nat
        }
    }
}

/// How many issues the board shows: the first ten in a table, all of them as JSON.
pub open spec fn shown(format: OutputFormat, total: nat) -> nat {
    match format {
        OutputFormat::Table => if total < RECENT_ISSUES {
            total
        } else {
            RECENT_ISSUES as nat
        },
        OutputFormat::Json => total,
    }
}

/// An issue has one status, so the four counts add up to the number of issues.
pub proof fn lemma_counts_add_up(issues: Seq<IssueInfo>)
    ensures
        count_with(issues, Status::Open) + count_with(issues, Status::InProgress) + count_with(
            issues,
            Status::Done,
        ) + count_with(issues, Status::WontFix) == issues.len(),
    decreases issues.len(),
{
    if issues.len() > 0 {
        lemma_counts_add_up(issues.drop_last());
    }
}

/// No count is above the number of issues.
proof fn lemma_count_is_bounded(issues: Seq<IssueInfo>, status: Status)
    ensures
        count_with(issues, status) <= issues.len(),
    decreases issues.len(),
{
    if issues.len() > 0 {
        lemma_count_is_bounded(issues.drop_last(), status);
    }
}

/// Show project board overview: the counts by status, and how many of the issues, from
/// the first on, are to be shown with them.
pub fn run(args: &BoardArgs, project_id: &str, issues: &Vec<IssueInfo>) -> (r: (
    BoardSummary,
    usize,
))
    ensures
        r.0.project_id@ == project_id@,
        r.0.open_count == count_with(issues@, Status::Open),
        r.0.in_progress_count == count_with(issues@, Status::InProgress),
        r.0.done_count == count_with(issues@, Status::Done),
        r.0.wontfix_count == count_with(issues@, Status::WontFix),
        r.0.total_count == issues.len(),
        r.1 == shown(args.format, issues.len() as nat),
{
    let mut open: usize = 0;
    let mut in_progress: usize = 0;
    let mut done: usize = 0;
    let mut wontfix: usize = 0;
    let mut i: usize = 0;
    assert(issues@.take(0) =~= Seq::<IssueInfo>::empty());
    while i < issues.len()
        invariant
            i <= issues.len(),
            open == count_with(issues@.take(i as int), Status::Open),
            in_progress == count_with(issues@.take(i as int), Status::InProgress),
            done == count_with(issues@.take(i as int), Status::Done),
            wontfix == count_with(issues@.take(i as int), Status::WontFix),
        decreases issues.len() - i,
    {
        proof {
            let next = issues@.take(i + 1);
            assert(next.drop_last() =~= issues@.take(i as int));
            assert(next.last() == issues@[i as int]);
            lemma_count_is_bounded(next, Status::Open);
            lemma_count_is_bounded(next, Status::InProgress);
            lemma_count_is_bounded(next, Status::Done);
            lemma_count_is_bounded(next, Status::WontFix);
        }
        match issues[i].issue.status {
            Status::Open => {
                open += 1;
            },
            Status::InProgress => {
                in_progress += 1;
            },
            Status::Done => {
                done += 1;
            },
            Status::WontFix => {
                wontfix += 1;
            },
        }
        i += 1;
    }
    assert(issues@.take(i as int) =~= issues@);
    let shown = match args.format {
        OutputFormat::Table => if issues.len() < RECENT_ISSUES {
            issues.len()
        } else {
            RECENT_ISSUES
        },
        OutputFormat::Json => issues.len(),
    };
    (
        BoardSummary {
            project_id: project_id.to_owned(),
            open_count: open,
            in_progress_count: in_progress,
            done_count: done,
            wontfix_count: wontfix,
            total_count: issues.len(),
        },
        shown,
    )
}

} // verus!
