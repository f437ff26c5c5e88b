//! The issue record and the changes that the tracker makes to it.

use crate::domain::status::Status;
use vstd::prelude::*;

verus! {

/// A moment in UTC: the seconds since 1970-01-01T00:00:00Z and the nanoseconds into that
/// second.
#[derive(Debug, Clone, Copy, PartialEq, Eq, Structural)]
pub struct Timestamp {
    pub secs: i64,
    pub nanos: u32,
}

/// An issue in the tracker.
/// The title is not part of it: a record document holds the title as its heading.
#[derive(Debug, PartialEq, Eq)]
pub struct Issue {
    /// Assignee (who has claimed the issue).
    pub assignee: Option<String>,
    /// Branch name where this issue is being worked on.
    pub branch: Option<String>,
    /// Creation timestamp.
    pub created: Timestamp,
    /// Issue IDs that this issue depends on (must be completed first).
    pub depends_on: Vec<u32>,
    /// Epic/category for grouping issues.
    pub epic: Option<String>,
    /// Unique issue ID.
    pub id: u32,
    /// Session working on this issue.
    pub session: Option<String>,
    /// Current status.
    pub status: Status,
}

/// What an issue holds, as mathematical values.
pub struct IssueView {
    pub assignee: Option<Seq<char>>,
    pub branch: Option<Seq<char>>,
    pub created: Timestamp,
    pub depends_on: Seq<u32>,
    pub epic: Option<Seq<char>>,
    pub id: u32,
    pub session: Option<Seq<char>>,
    pub status: Status,
}

/// The text of an optional string.
pub open spec fn text_of(o: Option<String>) -> Option<Seq<char>> {
    match o {
        Some(s) => Some(s@),
        None => None,
    }
}

/// A copy of an optional string.
pub fn copy_text(o: &Option<String>) -> (r: Option<String>)
    ensures
        text_of(r) == text_of(*o),
{
    match o {
        Some(s) => Some(s.clone()),
        None => None,
    }
}

/// `chrono::Utc::now`: the moment of the call by the system clock, as seconds and
/// nanoseconds of UTC. Nothing is promised of it: no two calls need agree. `chrono` stops
/// the program where the clock stands before 1970.
#[verifier::external_body]
pub(crate) fn now() -> Timestamp {
    let t = chrono::Utc::now();
    Timestamp { secs: t.timestamp(), nanos: t.timestamp_subsec_nanos() }
}

impl View for Issue {
    type V = IssueView;

    open spec fn view(&self) -> IssueView {
        IssueView {
            assignee: text_of(self.assignee),
            branch: text_of(self.branch),
            created: self.created,
            depends_on: self.depends_on@,
            epic: text_of(self.epic),
            id: self.id,
            session: text_of(self.session),
            status: self.status,
        }
    }
}

impl Clone for Issue {
    fn clone(&self) -> (r: Issue)
        ensures
            r@ == self@,
    {
        Issue {
            assignee: copy_text(&self.assignee),
            branch: copy_text(&self.branch),
            created: self.created,
            depends_on: self.depends_on.clone(),
            epic: copy_text(&self.epic),
            id: self.id,
            session: copy_text(&self.session),
            status: self.status,
        }
    }
}

impl IssueView {
    /// A fresh issue: open, unassigned, without dependencies.
    pub open spec fn fresh(id: u32, epic: Option<Seq<char>>, created: Timestamp) -> IssueView {
        IssueView {
            assignee: None,
            branch: None,
            created,
            depends_on: Seq::empty(),
            epic,
            id,
            session: None,
            status: Status::Open,
        }
    }

    /// The issue once `assignee` has claimed it: an open issue moves to in-progress, any
    /// other status stays.
    pub open spec fn claimed(
        self,
        assignee: Seq<char>,
        branch: Option<Seq<char>>,
        session: Option<Seq<char>>,
    ) -> IssueView {
        IssueView {
            assignee: Some(assignee),
            branch,
            session,
            status: if self.status == Status::Open {
                Status::InProgress
            } else {
                self.status
            },
            ..self
        }
    }

    /// The issue once its claim is released: nobody holds it, on no branch, in no session.
    pub open spec fn released(self) -> IssueView {
        IssueView { assignee: None, branch: None, session: None, ..self }
    }

    /// The issue with another status.
    pub open spec fn with_status(self, status: Status) -> IssueView {
        IssueView { status, ..self }
    }

    /// The issue with its session set.
    pub open spec fn in_session(self, session: Seq<char>) -> IssueView {
        IssueView { session: Some(session), ..self }
    }
}

impl Issue {
    /// Create a new issue with the given ID, created at the given moment.
    pub fn at(id: u32, created: Timestamp) -> (issue: Issue)
        ensures
            issue@ == IssueView::fresh(id, None, created),
    {
        Issue {
            assignee: None,
            branch: None,
            created,
            depends_on: Vec::new(),
            epic: None,
            id,
            session: None,
            status: Status::Open,
        }
    }

    /// Create a new issue with the given ID, created now.
    pub fn new(id: u32) -> (issue: Issue)
        ensures
            issue@ == IssueView::fresh(id, None, issue.created),
    {
        Issue::at(id, now())
    }

    /// Create a new issue with optional epic.
    pub fn with_epic(id: u32, epic: Option<String>) -> (issue: Issue)
        ensures
            issue@ == IssueView::fresh(id, text_of(epic), issue.created),
    {
        let mut issue = Issue::new(id);
        issue.epic = epic;
        issue
    }

    /// Records that `assignee` has claimed the issue, on `branch` and in `session`.
    pub fn claim(&mut self, assignee: String, branch: Option<String>, session: Option<String>)
        ensures
            final(self)@ == old(self)@.claimed(assignee@, text_of(branch), text_of(session)),
    {
        self.assignee = Some(assignee);
        self.branch = branch;
        self.session = session;
        if self.status == Status::Open {
            self.status = Status::InProgress;
        }
    }

    /// Records that the claim on the issue is released. Returns who held it.
    pub fn release(&mut self) -> (holder: Option<String>)
        ensures
            final(self)@ == old(self)@.released(),
            text_of(holder) == old(self)@.assignee,
    {
        let holder = self.assignee.take();
        self.branch = None;
        self.session = None;
        holder
    }

    /// Sets the status and returns the one it replaces.
    pub fn set_status(&mut self, status: Status) -> (before: Status)
        ensures
            before == old(self).status,
            final(self)@ == old(self)@.with_status(status),
    {
        let before = self.status;
        self.status = status;
        before
    }

    /// Sets the session that works on the issue.
    pub fn set_session(&mut self, session: String)
        ensures
            final(self)@ == old(self)@.in_session(session@),
    {
        self.session = Some(session);
    }
}

/// Where `id` goes among identifiers in ascending order: before the first larger one,
/// searching from `from`.
pub open spec fn id_place(ids: Seq<u32>, id: u32, from: int) -> int
    decreases ids.len() - from,
{
    if from < 0 || from >= ids.len() {
        ids.len() as int
    } else if ids[from] > id {
        from
    } else {
        id_place(ids, id, from + 1)
    }
}

/// The identifiers in ascending order.
pub open spec fn ascending_order(ids: Seq<u32>) -> Seq<u32>
    decreases ids.len(),
{
    if ids.len() == 0 {
        Seq::empty()
    } else {
        let before = ascending_order(ids.drop_last());
        before.insert(id_place(before, ids.last(), 0), ids.last())
    }
}

/// The dependencies of issue `id` once `added` are appended to `held`: each in turn,
/// unless it is the issue itself or is there already.
pub open spec fn appended_dependencies(held: Seq<u32>, id: u32, added: Seq<u32>) -> Seq<u32>
    decreases added.len(),
{
    if added.len() == 0 {
        held
    } else {
        let before = appended_dependencies(held, id, added.drop_last());
        if added.last() != id && !before.contains(added.last()) {
            before.push(added.last())
        } else {
            before
        }
    }
}

/// The dependencies that stay once those in `dropped` are taken out.
pub open spec fn remaining_dependencies(held: Seq<u32>, dropped: Seq<u32>) -> Seq<u32> {
    held.filter(|d: u32| !dropped.contains(d))
}

/// The place of an identifier lies among the identifiers; what stands before it is not
/// larger, and what stands at it is.
pub proof fn lemma_id_place(ids: Seq<u32>, id: u32, from: int)
    requires
        0 <= from <= ids.len(),
    ensures
        from <= id_place(ids, id, from) <= ids.len(),
        forall|j: int| from <= j < id_place(ids, id, from) ==> ids[j] <= id,
        id_place(ids, id, from) < ids.len() ==> ids[id_place(ids, id, from)] > id,
    decreases ids.len() - from,
{
    if from < ids.len() && ids[from] <= id {
        lemma_id_place(ids, id, from + 1);
    }
}

/// The ascending order is ascending, and holds the identifiers that it was given, each as
/// often as it was given.
pub proof fn lemma_ascending_order(ids: Seq<u32>)
    ensures
        forall|i: int, j: int|
            0 <= i < j < ids.len() ==> ascending_order(ids)[i] <= ascending_order(ids)[j],
        ascending_order(ids).len() == ids.len(),
        ascending_order(ids).to_multiset() == ids.to_multiset(),
    decreases ids.len(),
{
    if ids.len() == 0 {
        assert(ascending_order(ids) =~= ids);
    } else {
        let given = ids.drop_last();
        let before = ascending_order(given);
        let id = ids.last();
        lemma_ascending_order(given);
        lemma_id_place(before, id, 0);
        let at = id_place(before, id, 0);
        let after = before.insert(at, id);
        assert forall|i: int, j: int| 0 <= i < j < ids.len() implies after[i] <= after[j] by {
            let oi = if i < at {
                i
            } else {
                i - 1
            };
            let oj = if j < at {
                j
            } else {
                j - 1
            };
            if i == at {
                assert(after[j] == before[oj]);
                assert(before[at] <= before[oj] || oj == at);
            } else if j == at {
                assert(after[i] == before[oi]);
            } else {
                assert(after[i] == before[oi]);
                assert(after[j] == before[oj]);
                assert(before[oi] <= before[oj]);
            }
        }
        assert(ids =~= given.push(id));
        assert(after.remove(at) =~= before);
        vstd::seq_lib::to_multiset_remove(after, at);
        assert(after[at] == id);
        assert(after.contains(id));
        broadcast use vstd::seq_lib::group_to_multiset_ensures;

        assert(after.to_multiset().count(id) > 0);
        assert(after.to_multiset() =~= before.to_multiset().insert(id));
        vstd::seq_lib::to_multiset_build(given, id);
    }
}

/// Appending dependencies to a list that names no identifier twice and not the issue
/// itself gives such a list again.
pub proof fn lemma_appended_dependencies(held: Seq<u32>, id: u32, added: Seq<u32>)
    requires
        held.no_duplicates(),
        !held.contains(id),
    ensures
        appended_dependencies(held, id, added).no_duplicates(),
        !appended_dependencies(held, id, added).contains(id),
        forall|d: u32|
            appended_dependencies(held, id, added).contains(d) <==> held.contains(d) || (
            added.contains(d) && d != id),
    decreases added.len(),
{
    if added.len() > 0 {
        let given = added.drop_last();
        let before = appended_dependencies(held, id, given);
        let last = added.last();
        lemma_appended_dependencies(held, id, given);
        let after = appended_dependencies(held, id, added);
        assert forall|d: u32| after.contains(d) <==> held.contains(d) || (added.contains(d) && d
            != id) by {
            if after.contains(d) {
                let k = choose|k: int| 0 <= k < after.len() && after[k] == d;
                if k < before.len() {
                    assert(before[k] == d);
                    assert(before.contains(d));
                    if given.contains(d) {
                        let g = choose|g: int| 0 <= g < given.len() && given[g] == d;
                        assert(added[g] == d);
                    }
                } else {
                    assert(d == last);
                    assert(added[added.len() - 1] == d);
                }
            }
            if held.contains(d) || (added.contains(d) && d != id) {
                if before.contains(d) {
                    let k = choose|k: int| 0 <= k < before.len() && before[k] == d;
                    assert(after[k] == d);
                } else {
                    assert(!held.contains(d));
                    let g = choose|g: int| 0 <= g < added.len() && added[g] == d;
                    if g < given.len() {
                        assert(given[g] == d);
                        assert(given.contains(d));
                    }
                    assert(d == last);
                    assert(after[after.len() - 1] == d);
                }
            }
        }
        if last != id && !before.contains(last) {
            assert forall|i: int, j: int| 0 <= i < after.len() && 0 <= j < after.len() && i
                != j implies after[i] != after[j] by {
                if i < before.len() && j < before.len() {
                    assert(before[i] != before[j]);
                } else if i < before.len() {
                    assert(before.contains(before[i]));
                } else {
                    assert(before.contains(before[j]));
                }
            }
            assert(!after.contains(id)) by {
                if after.contains(id) {
                    let k = choose|k: int| 0 <= k < after.len() && after[k] == id;
                    if k < before.len() {
                        assert(before.contains(id));
                    }
                }
            }
        }
    }
}

/// Dependencies stay what the record promises: where an issue names no dependency twice
/// and not itself, it does so after dependencies were added, and names them in strictly
/// ascending order.
pub proof fn lemma_dependencies_stay_a_set(held: Seq<u32>, id: u32, added: Seq<u32>)
    requires
        held.no_duplicates(),
        !held.contains(id),
    ensures
        ascending_order(appended_dependencies(held, id, added)).no_duplicates(),
        !ascending_order(appended_dependencies(held, id, added)).contains(id),
        forall|i: int, j: int|
            0 <= i < j < ascending_order(appended_dependencies(held, id, added)).len()
                ==> ascending_order(appended_dependencies(held, id, added))[i] < ascending_order(
                appended_dependencies(held, id, added),
            )[j],
        forall|d: u32|
            ascending_order(appended_dependencies(held, id, added)).contains(d) <==> held.contains(
                d,
            ) || (added.contains(d) && d != id),
{
    broadcast use vstd::seq_lib::group_to_multiset_ensures;

    let appended = appended_dependencies(held, id, added);
    let sorted = ascending_order(appended);
    lemma_appended_dependencies(held, id, added);
    lemma_ascending_order(appended);
    appended.lemma_multiset_has_no_duplicates();
    sorted.lemma_multiset_has_no_duplicates_conv();
    assert forall|d: u32| sorted.contains(d) <==> appended.contains(d) by {
        assert(sorted.contains(d) <==> sorted.to_multiset().count(d) > 0);
        assert(appended.contains(d) <==> appended.to_multiset().count(d) > 0);
    }
    assert forall|i: int, j: int| 0 <= i < j < sorted.len() implies sorted[i] < sorted[j] by {
        assert(sorted[i] <= sorted[j]);
        assert(sorted[i] != sorted[j]);
    }
}

/// Puts identifiers in ascending order.
pub fn sort_ids(ids: Vec<u32>) -> (sorted: Vec<u32>)
    ensures
        sorted@ == ascending_order(ids@),
{
    let ghost given = ids@;
    let mut v = ids;
    let mut i: usize = 0;
    assert(given.take(0) =~= Seq::<u32>::empty());
    assert(v@ =~= ascending_order(given.take(0)) + given.skip(0));
    while i < v.len()
        invariant
            i <= v.len(),
            v.len() == given.len(),
            v@ == ascending_order(given.take(i as int)) + given.skip(i as int),
            ascending_order(given.take(i as int)).len() == i,
        decreases v.len() - i,
    {
        let ghost before = ascending_order(given.take(i as int));
        let ghost next = given.take(i + 1);
        assert(next.drop_last() =~= given.take(i as int));
        assert(next.last() == given[i as int]);
        let id = v.remove(i);
        assert(id == given[i as int]);
        assert(v@ =~= before + given.skip(i + 1));
        let mut at: usize = 0;
        while at < i && v[at] <= id
            invariant
                at <= i <= v.len(),
                v@ == before + given.skip(i + 1),
                before.len() == i,
                id_place(before, id, 0) == id_place(before, id, at as int),
            decreases i - at,
        {
            assert(v@[at as int] == before[at as int]);
            at += 1;
        }
        proof {
            if at < i {
                assert(v@[at as int] == before[at as int]);
            }
            assert(id_place(before, id, 0) == at);
        }
        v.insert(at, id);
        assert(v@ =~= before.insert(at as int, id) + given.skip(i + 1));
        i += 1;
    }
    assert(given.take(i as int) =~= given);
    assert(v@ =~= ascending_order(given));
    v
}

/// Whether `id` is among `ids`.
pub fn has_id(ids: &Vec<u32>, id: u32) -> (r: bool)
    ensures
        r == ids@.contains(id),
{
    let mut i: usize = 0;
    while i < ids.len()
        invariant
            i <= ids.len(),
            forall|j: int| 0 <= j < i ==> ids@[j] != id,
        decreases ids.len() - i,
    {
        if ids[i] == id {
            return true;
        }
        i += 1;
    }
    false
}

impl Issue {
    /// Adds dependencies: each of `added` in turn, unless it is the issue itself or is a
    /// dependency already; the dependencies then stand in ascending order.
    pub fn add_dependencies(&mut self, added: &Vec<u32>)
        ensures
            final(self)@ == (IssueView {
                depends_on: ascending_order(
                    appended_dependencies(old(self)@.depends_on, old(self).id, added@),
                ),
                ..old(self)@
            }),
    {
        let mut held: Vec<u32> = Vec::new();
        std::mem::swap(&mut held, &mut self.depends_on);
        let ghost start = held@;
        let id = self.id;
        let mut i: usize = 0;
        assert(added@.take(0) =~= Seq::<u32>::empty());
        while i < added.len()
            invariant
                i <= added.len(),
                held@ == appended_dependencies(start, id, added@.take(i as int)),
            decreases added.len() - i,
        {
            let ghost next = added@.take(i + 1);
            assert(next.drop_last() =~= added@.take(i as int));
            assert(next.last() == added@[i as int]);
            let dep = added[i];
            if dep != id && !has_id(&held, dep) {
                held.push(dep);
            }
            i += 1;
        }
        assert(added@.take(i as int) =~= added@);
        self.depends_on = sort_ids(held);
    }

    /// Removes the dependencies that are among `dropped`; the others stay in their order.
    pub fn remove_dependencies(&mut self, dropped: &Vec<u32>)
        ensures
            final(self)@ == (IssueView {
                depends_on: remaining_dependencies(old(self)@.depends_on, dropped@),
                ..old(self)@
            }),
    {
        let ghost held = self.depends_on@;
        let ghost keep = |d: u32| !dropped@.contains(d);
        let mut kept: Vec<u32> = Vec::new();
        let mut i: usize = 0;
        assert(held.take(0) =~= Seq::<u32>::empty());
        assert(held.take(0).filter(keep) =~= Seq::<u32>::empty()) by {
            reveal(Seq::filter);
        }
        while i < self.depends_on.len()
            invariant
                i <= self.depends_on.len(),
                held == self.depends_on@,
                keep == |d: u32| !dropped@.contains(d),
                kept@ == held.take(i as int).filter(keep),
            decreases self.depends_on.len() - i,
        {
            let ghost next = held.take(i + 1);
            assert(next.drop_last() =~= held.take(i as int));
            assert(next.last() == held[i as int]);
            proof {
                reveal(Seq::filter);
            }
            let dep = self.depends_on[i];
            if !has_id(dropped, dep) {
                kept.push(dep);
            }
            i += 1;
        }
        assert(held.take(i as int) =~= held);
        self.depends_on = kept;
    }
}

} // verus!
