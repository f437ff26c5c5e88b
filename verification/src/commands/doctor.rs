//! itack doctor command - diagnose ledger and record drift.

use crate::domain::issue::{ascending_order, sort_ids};
use crate::domain::status::Status;
use crate::error::ItackError;
use crate::storage::db::{lists, Database, SCHEMA_VERSION};
use crate::storage::records::IssueInfo;
use crate::text::{decimal, numbered, push_decimal};
use vstd::prelude::*;
use vstd::string::StringExecFns;

verus! {

/// Expected schema version.
pub const EXPECTED_SCHEMA_VERSION: i32 = SCHEMA_VERSION;

/// Result of checking issue synchronization.
#[derive(Debug, PartialEq, Eq)]
pub struct SyncCheckResult {
    pub issue_count: usize,
    pub missing_claims: Vec<u32>,
    pub orphan_claims: Vec<u32>,
    pub next_id_issue: Option<String>,
}

impl SyncCheckResult {
    /// Whether the check found the ledger in step with the records.
    pub fn is_ok(&self) -> (r: bool)
        ensures
            r == (self.missing_claims@.len() == 0 && self.orphan_claims@.len() == 0
                && self.next_id_issue is None),
    {
        self.missing_claims.is_empty() && self.orphan_claims.is_empty()
            && self.next_id_issue.is_none()
    }
}

/// Whether some issue has the identifier.
pub open spec fn has_issue(issues: Seq<IssueInfo>, id: u32) -> bool {
    exists|i: int| 0 <= i < issues.len() && (#[trigger] issues[i]).issue.id == id
}

/// The largest identifier among the issues, 0 where there is none.
pub open spec fn largest_issue_id(issues: Seq<IssueInfo>) -> u32
    decreases issues.len(),
{
    if issues.len() == 0 {
        0
    } else {
        let before = largest_issue_id(issues.drop_last());
        if issues.last().issue.id > before {
            issues.last().issue.id
        } else {
            before
        }
    }
}

/// The identifiers of the issues that are in progress without a claim in the ledger, in
/// the order of the issues.
pub open spec fn unclaimed_in_progress(issues: Seq<IssueInfo>, claimed: Set<u32>) -> Seq<u32>
    decreases issues.len(),
{
    if issues.len() == 0 {
        Seq::empty()
    } else {
        let before = unclaimed_in_progress(issues.drop_last(), claimed);
        let issue = issues.last().issue;
        if issue.status == Status::InProgress && !claimed.contains(issue.id) {
            before.push(issue.id)
        } else {
            before
        }
    }
}

/// What the check says of a counter that is not above the largest identifier in use.
pub open spec fn counter_complaint(next_id: u32, largest: u32) -> Seq<char> {
    "next_issue_id ("@ + decimal(next_id as nat) + ") is not greater than max issue ID ("@
        + decimal(largest as nat) + ")"@
}

/// Check the ledger's schema version.
pub fn check_schema_version(db: &Database) -> (r: Result<i32, ItackError>)
    ensures
        r == Ok::<i32, ItackError>(db@.version),
{
    db.get_schema_version()
}

/// One of the first `upto` rows is about the issue.
spec fn listed_before(rows: Seq<(u32, String, crate::domain::issue::Timestamp)>, upto: int, id: u32)
    -> bool {
    exists|j: int| 0 <= j < upto && (#[trigger] rows[j]).0 == id
}

/// Whether some issue has the identifier.
fn issue_exists(issues: &Vec<IssueInfo>, id: u32) -> (r: bool)
    ensures
        r == has_issue(issues@, id),
{
    let mut i: usize = 0;
    while i < issues.len()
        invariant
            i <= issues.len(),
            forall|k: int| 0 <= k < i ==> (#[trigger] issues@[k]).issue.id != id,
        decreases issues.len() - i,
    {
        if issues[i].issue.id == id {
            return true;
        }
        i += 1;
    }
    false
}

/// Check if issues in data branch match what the ledger knows about.
///
/// Reports, in ascending order, the issues in progress that the ledger has no claim
/// for, and the issues that the ledger has a claim for and the branch has no record of;
/// and a counter that is not above the largest identifier in use.
pub fn check_issue_sync(issues: &Vec<IssueInfo>, db: &Database) -> (r: Result<
    SyncCheckResult,
    ItackError,
>)
    requires
        db.wf(),
    ensures
        r matches Ok(found) && {
            &&& found.issue_count == issues.len()
            &&& found.missing_claims@ == ascending_order(
                unclaimed_in_progress(issues@, db@.claims.dom()),
            )
            &&& forall|i: int, j: int|
                0 <= i < j < found.orphan_claims.len() ==> found.orphan_claims[i]
                    < found.orphan_claims[j]
            &&& forall|id: u32|
                found.orphan_claims@.contains(id) <==> db@.claims.dom().contains(id)
                    && !has_issue(issues@, id)
            &&& match found.next_id_issue {
                Some(text) => issues.len() > 0 && db@.next_issue_id <= largest_issue_id(issues@)
                    && text@ == counter_complaint(db@.next_issue_id, largest_issue_id(issues@)),
                None => issues.len() == 0 || db@.next_issue_id > largest_issue_id(issues@),
            }
        },
{
    let mut missing: Vec<u32> = Vec::new();
    let mut largest: u32 = 0;
    let mut i: usize = 0;
    assert(issues@.take(0) =~= Seq::<IssueInfo>::empty());
    while i < issues.len()
        invariant
            i <= issues.len(),
            db.wf(),
            missing@ == unclaimed_in_progress(issues@.take(i as int), db@.claims.dom()),
            largest == largest_issue_id(issues@.take(i as int)),
        decreases issues.len() - i,
    {
        proof {
            let next = issues@.take(i + 1);
            assert(next.drop_last() =~= issues@.take(i as int));
            assert(next.last() == issues@[i as int]);
        }
        let issue = &issues[i].issue;
        if issue.id > largest {
            largest = issue.id;
        }
        if issue.status == Status::InProgress {
            let claimed = match db.get_claim(issue.id) {
                Ok(found) => found.is_some(),
                Err(_) => false,
            };
            if !claimed {
                missing.push(issue.id);
            }
        }
        i += 1;
    }
    assert(issues@.take(i as int) =~= issues@);
    let missing = sort_ids(missing);
    let rows = match db.list_claims() {
        Ok(rows) => rows,
        Err(e) => {
            return Err(e);
        },
    };
    let mut orphans: Vec<u32> = Vec::new();
    let mut k: usize = 0;
    while k < rows.len()
        invariant
            k <= rows.len(),
            lists(rows@, db@.claims),
            forall|a: int, b: int| 0 <= a < b < orphans.len() ==> orphans@[a] < orphans@[b],
            forall|a: int|
                0 <= a < orphans.len() ==> #[trigger] listed_before(rows@, k as int, orphans@[a])
                    && !has_issue(issues@, orphans@[a]),
            forall|j: int|
                0 <= j < k && !has_issue(issues@, (#[trigger] rows@[j]).0) ==> orphans@.contains(
                    rows@[j].0,
                ),
        decreases rows.len() - k,
    {
        let id = rows[k].0;
        let ghost held = orphans@;
        if !issue_exists(issues, id) {
            orphans.push(id);
            proof {
                assert forall|a: int, b: int| 0 <= a < b < orphans.len() implies orphans@[a]
                    < orphans@[b] by {
                    if b == held.len() {
                        assert(listed_before(rows@, k as int, held[a]));
                        let j = choose|j: int| 0 <= j < k && (#[trigger] rows@[j]).0 == held[a];
                        assert(rows@[j].0 < rows@[k as int].0);
                    }
                }
            }
        }
        proof {
            assert forall|a: int| 0 <= a < orphans.len() implies #[trigger] listed_before(
                rows@,
                k + 1,
                orphans@[a],
            ) && !has_issue(issues@, orphans@[a]) by {
                if a == held.len() {
                    assert(rows@[k as int].0 == orphans@[a]);
                } else {
                    assert(listed_before(rows@, k as int, held[a]));
                    let j = choose|j: int| 0 <= j < k && (#[trigger] rows@[j]).0 == held[a];
                    assert(rows@[j].0 == orphans@[a]);
                }
            }
            assert forall|j: int|
                0 <= j < k + 1 && !has_issue(
                    issues@,
                    (#[trigger] rows@[j]).0,
                ) implies orphans@.contains(rows@[j].0) by {
                if j == k {
                    assert(orphans@[held.len() as int] == rows@[j].0);
                } else {
                    assert(held.contains(rows@[j].0));
                    let a = choose|a: int| 0 <= a < held.len() && held[a] == rows@[j].0;
                    assert(orphans@[a] == rows@[j].0);
                }
            }
        }
        k += 1;
    }
    proof {
        assert forall|id: u32|
            orphans@.contains(id) <==> db@.claims.dom().contains(id) && !has_issue(
                issues@,
                id,
            ) by {
            if orphans@.contains(id) {
                let a = choose|a: int| 0 <= a < orphans.len() && orphans@[a] == id;
                assert(listed_before(rows@, k as int, orphans@[a]));
                let j = choose|j: int| 0 <= j < k && (#[trigger] rows@[j]).0 == orphans@[a];
                assert(db@.claims.dom().contains(rows@[j].0));
            }
            if db@.claims.dom().contains(id) && !has_issue(issues@, id) {
                let j = choose|j: int| 0 <= j < rows.len() && (#[trigger] rows@[j]).0 == id;
                assert(orphans@.contains(rows@[j].0));
            }
        }
    }
    let next_id = match db.peek_next_issue_id() {
        Ok(next_id) => next_id,
        Err(e) => {
            return Err(e);
        },
    };
    let next_id_issue = if issues.len() > 0 && next_id <= largest {
        let mut text = numbered("next_issue_id (", next_id, ") is not greater than max issue ID (");
        push_decimal(&mut text, largest);
        text.append(")");
        Some(text)
    } else {
        None
    };
    Ok(
        SyncCheckResult {
            issue_count: issues.len(),
            missing_claims: missing,
            orphan_claims: orphans,
            next_id_issue,
        },
    )
}

/// Run diagnostics: whether the three checks found anything to repair. A check that
/// could not be made counts as a finding.
pub fn run(
    schema: &Result<i32, ItackError>,
    sync: &Result<SyncCheckResult, ItackError>,
    stray_files: &Result<Vec<String>, ItackError>,
) -> (has_issues: bool)
    ensures
        has_issues == !({
            &&& *schema == Ok::<i32, ItackError>(EXPECTED_SCHEMA_VERSION)
            &&& sync matches Ok(found) && found.missing_claims@.len() == 0
                && found.orphan_claims@.len() == 0 && found.next_id_issue is None
            &&& stray_files matches Ok(files) && files@.len() == 0
        }),
{
    let schema_fault = match schema {
        Ok(version) => *version != EXPECTED_SCHEMA_VERSION,
        Err(_) => true,
    };
    let sync_fault = match sync {
        Ok(found) => !found.is_ok(),
        Err(_) => true,
    };
    let stray_fault = match stray_files {
        Ok(files) => !files.is_empty(),
        Err(_) => true,
    };
    schema_fault || sync_fault || stray_fault
}

} // verus!
