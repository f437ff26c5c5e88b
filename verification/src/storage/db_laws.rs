//! What holds of the ledger's operations taken together.

use crate::domain::issue::{IssueView, Timestamp};
use crate::storage::db::{claims_from, counter_from, largest_id, ClaimView, DatabaseView};
use vstd::prelude::*;

verus! {

/// The identifiers that `n` allocations in a row hand out, as far as the counter goes.
pub open spec fn allocations(db: DatabaseView, n: nat) -> Seq<u32>
    decreases n,
{
    if n == 0 {
        Seq::empty()
    } else {
        match db.allocate() {
            Some((id, after)) => seq![id] + allocations(after, (n - 1) as nat),
            None => Seq::empty(),
        }
    }
}

/// No two records have the same identifier.
pub open spec fn distinct_ids(records: Seq<IssueView>) -> bool {
    forall|i: int, j: int|
        0 <= i < j < records.len() ==> (#[trigger] records[i]).id != (#[trigger] records[j]).id
}

/// Claims exclude each other: once an assignee has claimed a free issue, a claim by
/// anyone else fails and names that assignee; once the claim is released, the ledger is
/// as it was before, and the next claim succeeds.
pub proof fn lemma_claim_is_exclusive(
    db: DatabaseView,
    id: u32,
    winner: Seq<char>,
    loser: Seq<char>,
    next: Seq<char>,
    t1: Timestamp,
    t2: Timestamp,
    t3: Timestamp,
)
    requires
        !db.claims.dom().contains(id),
    ensures
        match db.claim(id, winner, t1) {
            Ok(held) => {
                &&& held.claim(id, loser, t2) == Err::<DatabaseView, Seq<char>>(winner)
                &&& held.release(id) == Some(db)
                &&& db.claim(id, next, t3) is Ok
            },
            Err(_) => false,
        },
{
    let held = db.claim(id, winner, t1)->Ok_0;
    assert(held.claims.remove(id) =~= db.claims);
}

/// Of two claimants for a free issue exactly one wins, whichever order the store serves
/// them in: the first served holds the issue, and the second is told who holds it.
pub proof fn lemma_one_of_two_claimants_wins(
    db: DatabaseView,
    id: u32,
    a: Seq<char>,
    b: Seq<char>,
    at_a: Timestamp,
    at_b: Timestamp,
    a_first: bool,
)
    requires
        !db.claims.dom().contains(id),
    ensures
        ({
            let (first, at_first, second, at_second) = if a_first {
                (a, at_a, b, at_b)
            } else {
                (b, at_b, a, at_a)
            };
            match db.claim(id, first, at_first) {
                Ok(held) => held.claims[id].assignee == first && held.claim(id, second, at_second)
                    == Err::<DatabaseView, Seq<char>>(first),
                Err(_) => false,
            }
        }),
{
}

/// Two creators get two identifiers, whichever order the store serves them in: the
/// second allocation never returns what the first returned.
pub proof fn lemma_two_allocations_differ(db: DatabaseView)
    ensures
        match db.allocate() {
            Some((first, after)) => match after.allocate() {
                Some((second, _)) => first != second && second == first + 1,
                None => true,
            },
            None => true,
        },
{
}

/// A release of an issue that nobody holds fails and changes nothing; a release of a held
/// issue frees exactly that issue.
pub proof fn lemma_release_frees_one(db: DatabaseView, id: u32, other: u32)
    requires
        other != id,
    ensures
        db.release(id) is Some <==> db.claims.dom().contains(id),
        db.release(id) matches Some(after) ==> !after.claims.dom().contains(id)
            && after.claims.dom().contains(other) == db.claims.dom().contains(other) && (
        db.claims.dom().contains(other) ==> after.claims[other] == db.claims[other]),
{
}

/// Identifiers are handed out in order and without gaps: the allocations that follow one
/// another return the counter, the counter plus one, and so on.
pub proof fn lemma_ids_are_consecutive(db: DatabaseView, n: nat)
    requires
        db.next_issue_id + n <= u32::MAX,
    ensures
        allocations(db, n).len() == n,
        forall|k: int| 0 <= k < n ==> #[trigger] allocations(db, n)[k] == db.next_issue_id + k,
    decreases n,
{
    if n > 0 {
        let after = match db.allocate() {
            Some((_, after)) => after,
            None => db,
        };
        lemma_ids_are_consecutive(after, (n - 1) as nat);
        assert forall|k: int| 0 <= k < n implies #[trigger] allocations(db, n)[k]
            == db.next_issue_id + k by {
            if k > 0 {
                assert(allocations(db, n)[k] == allocations(after, (n - 1) as nat)[k - 1]);
            }
        }
    }
}

/// So the identifiers of any allocations are distinct and strictly increasing.
pub proof fn lemma_ids_increase(db: DatabaseView, n: nat, i: int, j: int)
    requires
        db.next_issue_id + n <= u32::MAX,
        0 <= i < j < n,
    ensures
        allocations(db, n)[i] < allocations(db, n)[j],
{
    lemma_ids_are_consecutive(db, n);
}

/// No record has a larger identifier than the largest, and where there are records, one
/// of them has it.
pub proof fn lemma_largest_id(records: Seq<IssueView>)
    ensures
        forall|i: int| 0 <= i < records.len() ==> (#[trigger] records[i]).id <= largest_id(records),
        records.len() == 0 ==> largest_id(records) == 0,
        records.len() > 0 ==> exists|i: int|
            0 <= i < records.len() && (#[trigger] records[i]).id == largest_id(records),
    decreases records.len(),
{
    if records.len() > 0 {
        let before = records.drop_last();
        lemma_largest_id(before);
        assert forall|i: int| 0 <= i < records.len() implies (#[trigger] records[i]).id
            <= largest_id(records) by {
            if i < before.len() {
                assert(before[i] == records[i]);
            }
        }
        if records.last().id > largest_id(before) || before.len() == 0 {
            assert(records[records.len() - 1].id == largest_id(records));
        } else {
            let i = choose|i: int|
                0 <= i < before.len() && (#[trigger] before[i]).id == largest_id(before);
            assert(records[i].id == largest_id(records));
        }
    }
}

/// After a rebuild no identifier is handed out that a record has: the counter stands
/// above every record's identifier, and every allocation is at or above the counter.
pub proof fn lemma_rebuilt_ids_are_new(records: Seq<IssueView>, n: nat, k: int, i: int)
    requires
        0 <= i < records.len(),
        0 <= k < allocations(DatabaseView::rebuilt(records), n).len(),
    ensures
        records[i].id < allocations(DatabaseView::rebuilt(records), n)[k],
        counter_from(records) == largest_id(records) + 1 || (largest_id(records) == u32::MAX
            && counter_from(records) == u32::MAX),
{
    lemma_largest_id(records);
    lemma_allocations_start_at_counter(DatabaseView::rebuilt(records), n, k);
}

/// Every allocation is at or above the counter, and none is made once the counter has
/// reached the largest identifier.
pub proof fn lemma_allocations_start_at_counter(db: DatabaseView, n: nat, k: int)
    requires
        0 <= k < allocations(db, n).len(),
    ensures
        db.next_issue_id <= allocations(db, n)[k],
        db.next_issue_id < u32::MAX,
    decreases n,
{
    if n > 0 && k > 0 {
        let after = match db.allocate() {
            Some((_, after)) => after,
            None => db,
        };
        lemma_allocations_start_at_counter(after, (n - 1) as nat, k - 1);
    }
}

/// Among records with distinct identifiers, an issue is claimed after a scan exactly when
/// its record has an assignee, and the claim says what that record says.
pub proof fn lemma_claims_follow_records(records: Seq<IssueView>)
    requires
        distinct_ids(records),
    ensures
        forall|id: u32|
            claims_from(records).dom().contains(id) <==> exists|i: int|
                0 <= i < records.len() && (#[trigger] records[i]).id == id
                    && records[i].assignee is Some,
        forall|i: int|
            0 <= i < records.len() && (#[trigger] records[i]).assignee is Some ==> claims_from(
                records,
            )[records[i].id] == (ClaimView {
                assignee: records[i].assignee->0,
                claimed_at: records[i].created,
            }),
    decreases records.len(),
{
    if records.len() > 0 {
        let before = records.drop_last();
        let last = records.last();
        assert(distinct_ids(before)) by {
            assert forall|i: int, j: int| 0 <= i < j < before.len() implies (
            #[trigger] before[i]).id != (#[trigger] before[j]).id by {
                assert(before[i] == records[i]);
                assert(before[j] == records[j]);
            }
        }
        lemma_claims_follow_records(before);
        assert forall|id: u32|
            claims_from(records).dom().contains(id) <==> exists|i: int|
                0 <= i < records.len() && (#[trigger] records[i]).id == id
                    && records[i].assignee is Some by {
            if claims_from(records).dom().contains(id) {
                if claims_from(before).dom().contains(id) {
                    let i = choose|i: int|
                        0 <= i < before.len() && (#[trigger] before[i]).id == id
                            && before[i].assignee is Some;
                    assert(records[i].id == id && records[i].assignee is Some);
                } else {
                    assert(records[records.len() - 1].id == id && records[records.len()
                        - 1].assignee is Some);
                }
            }
            if exists|i: int|
                0 <= i < records.len() && (#[trigger] records[i]).id == id
                    && records[i].assignee is Some {
                let i = choose|i: int|
                    0 <= i < records.len() && (#[trigger] records[i]).id == id
                        && records[i].assignee is Some;
                if i < before.len() {
                    assert(before[i].id == id && before[i].assignee is Some);
                }
            }
        }
        assert forall|i: int|
            0 <= i < records.len() && (#[trigger] records[i]).assignee is Some implies claims_from(
            records,
        )[records[i].id] == (ClaimView {
            assignee: records[i].assignee->0,
            claimed_at: records[i].created,
        }) by {
            if i < before.len() {
                assert(before[i] == records[i]);
                assert(records[i].id != records[records.len() - 1].id);
            }
        }
    }
}

/// A rebuild does not depend on the order of the scan: two scans that meet the same
/// records, each with an identifier of its own, give the same claims and the same counter.
pub proof fn lemma_rebuild_ignores_scan_order(a: Seq<IssueView>, b: Seq<IssueView>)
    requires
        forall|r: IssueView| a.contains(r) <==> b.contains(r),
        distinct_ids(a),
        distinct_ids(b),
    ensures
        DatabaseView::rebuilt(a) == DatabaseView::rebuilt(b),
{
    lemma_claims_follow_records(a);
    lemma_claims_follow_records(b);
    lemma_largest_id(a);
    lemma_largest_id(b);
    assert(largest_id(a) == largest_id(b)) by {
        lemma_largest_is_shared(a, b);
        lemma_largest_is_shared(b, a);
    }
    assert forall|id: u32| claims_from(a).dom().contains(id) implies claims_from(
        b,
    ).dom().contains(id) && claims_from(b)[id] == claims_from(a)[id] by {
        lemma_claim_is_shared(a, b, id);
    }
    assert forall|id: u32| claims_from(b).dom().contains(id) implies claims_from(
        a,
    ).dom().contains(id) by {
        lemma_claim_is_shared(b, a, id);
    }
    assert(claims_from(a) =~= claims_from(b));
}

/// Where every record of `a` is among `b`, the largest identifier of `a` is not above
/// that of `b`.
proof fn lemma_largest_is_shared(a: Seq<IssueView>, b: Seq<IssueView>)
    requires
        forall|r: IssueView| a.contains(r) ==> b.contains(r),
    ensures
        largest_id(a) <= largest_id(b),
{
    lemma_largest_id(a);
    lemma_largest_id(b);
    if a.len() > 0 {
        let i = choose|i: int| 0 <= i < a.len() && (#[trigger] a[i]).id == largest_id(a);
        assert(a.contains(a[i]));
        let j = choose|j: int| 0 <= j < b.len() && b[j] == a[i];
        assert(b[j].id <= largest_id(b));
    }
}

/// Where every record of `a` is among `b`, a claim that a scan of `a` gives is given by a
/// scan of `b` too.
proof fn lemma_claim_is_shared(a: Seq<IssueView>, b: Seq<IssueView>, id: u32)
    requires
        forall|r: IssueView| a.contains(r) ==> b.contains(r),
        distinct_ids(a),
        distinct_ids(b),
        claims_from(a).dom().contains(id),
    ensures
        claims_from(b).dom().contains(id),
        claims_from(b)[id] == claims_from(a)[id],
{
    lemma_claims_follow_records(a);
    lemma_claims_follow_records(b);
    let i = choose|i: int|
        0 <= i < a.len() && (#[trigger] a[i]).id == id && a[i].assignee is Some;
    assert(a.contains(a[i]));
    let j = choose|j: int| 0 <= j < b.len() && b[j] == a[i];
    assert(b[j].id == id && b[j].assignee is Some);
}

} // verus!
