//! The claim ledger: the identifier counter and the claims, with their schema version.
//!
//! The ledger is a cache over the records of the data branch. Whatever it holds can be
//! derived again from the records, except the moment of a claim, for which a rebuild takes
//! the record's creation time.

use crate::domain::issue::{now, Issue, IssueView, Timestamp};
use crate::error::ItackError;
use vstd::prelude::*;
use vstd::string::StringExecFns;

verus! {

/// Current schema version.
pub const SCHEMA_VERSION: i32 = 1;

/// A row of the claims table: who holds an issue, and since when.
#[derive(Debug, PartialEq, Eq)]
pub struct Claim {
    pub issue_id: u32,
    pub assignee: String,
    pub claimed_at: Timestamp,
}

/// A claim as mathematical values.
pub struct ClaimView {
    pub assignee: Seq<char>,
    pub claimed_at: Timestamp,
}

impl View for Claim {
    type V = ClaimView;

    open spec fn view(&self) -> ClaimView {
        ClaimView { assignee: self.assignee@, claimed_at: self.claimed_at }
    }
}

/// The text that `chrono` writes for a moment in RFC 3339, or nothing where `chrono` cannot
/// hold the moment.
pub uninterp spec fn rfc3339_text(secs: i64, nanos: u32) -> Option<Seq<char>>;

/// The moment that `chrono` reads from a text in RFC 3339, or what it says of a text that
/// it cannot read.
pub uninterp spec fn rfc3339_moment(text: Seq<char>) -> Result<Timestamp, Seq<char>>;

/// `chrono::DateTime::from_timestamp` followed by `to_rfc3339`: the moment in UTC as date,
/// time and offset, or `None` where the seconds or the nanoseconds are outside of what
/// `chrono` can hold. The same moment always gives the same text.
#[verifier::external_body]
fn write_rfc3339(at: &Timestamp) -> (r: Option<String>)
    ensures
        (match r {
            Some(text) => Some(text@),
            None => None,
        }) == rfc3339_text(at.secs, at.nanos),
{
    match chrono::DateTime::from_timestamp(at.secs, at.nanos) {
        Some(moment) => Some(moment.to_rfc3339()),
        None => None,
    }
}

/// `chrono::DateTime::parse_from_rfc3339`: the moment that the text states, as seconds and
/// nanoseconds of UTC, or the text of `chrono`'s error. The same text always gives the
/// same result.
#[verifier::external_body]
fn read_rfc3339(text: &str) -> (r: Result<Timestamp, String>)
    ensures
        (match r {
            Ok(at) => Ok(at),
            Err(why) => Err(why@),
        }) == rfc3339_moment(text@),
{
    match chrono::DateTime::parse_from_rfc3339(text) {
        Ok(moment) => Ok(
            Timestamp { secs: moment.timestamp(), nanos: moment.timestamp_subsec_nanos() },
        ),
        Err(e) => Err(e.to_string()),
    }
}

impl Claim {
    /// The claim of a stored row, given what its moment was read as: an unreadable moment
    /// is an error that says why.
    pub fn with_moment(issue_id: u32, assignee: String, read: Result<Timestamp, String>) -> (r:
        Result<Claim, ItackError>)
        ensures
            match read {
                Ok(at) => r == Ok::<Claim, ItackError>(
                    Claim { issue_id, assignee, claimed_at: at },
                ),
                Err(why) => r matches Err(ItackError::Other(text)) && text@
                    == "Invalid claimed_at timestamp: "@ + why@,
            },
    {
        match read {
            Ok(at) => Ok(Claim { issue_id, assignee, claimed_at: at }),
            Err(why) => {
                let mut text = "Invalid claimed_at timestamp: ".to_owned();
                text.append(why.as_str());
                Err(ItackError::Other(text))
            },
        }
    }

    /// The claim of a stored row, whose moment is text in RFC 3339.
    pub fn from_row(issue_id: u32, assignee: String, claimed_at: &str) -> (r: Result<
        Claim,
        ItackError,
    >)
        ensures
            match rfc3339_moment(claimed_at@) {
                Ok(at) => r == Ok::<Claim, ItackError>(
                    Claim { issue_id, assignee, claimed_at: at },
                ),
                Err(why) => r matches Err(ItackError::Other(text)) && text@
                    == "Invalid claimed_at timestamp: "@ + why,
            },
    {
        Claim::with_moment(issue_id, assignee, read_rfc3339(claimed_at))
    }

    /// The moment of the claim as a stored row holds it: text in RFC 3339. A moment that
    /// `chrono` cannot hold has no text.
    pub fn claimed_at_text(&self) -> (r: Option<String>)
        ensures
            (match r {
                Some(text) => Some(text@),
                None => None,
            }) == rfc3339_text(self.claimed_at.secs, self.claimed_at.nanos),
    {
        write_rfc3339(&self.claimed_at)
    }
}

/// The ledger of a project.
pub struct Database {
    version: i32,
    next_issue_id: u32,
    claims: Vec<Claim>,
}

/// What a ledger holds: its schema version, the next identifier to hand out, and the
/// claims by issue.
pub struct DatabaseView {
    pub version: i32,
    pub next_issue_id: u32,
    pub claims: Map<u32, ClaimView>,
}

/// The rows are in ascending order of their issues, so no issue has two rows.
spec fn ascending(rows: Seq<Claim>) -> bool {
    forall|i: int, j: int| 0 <= i < j < rows.len() ==> rows[i].issue_id < rows[j].issue_id
}

/// Some row is about the issue `id`.
spec fn holds_row(rows: Seq<Claim>, id: u32) -> bool {
    exists|i: int| 0 <= i < rows.len() && #[trigger] rows[i].issue_id == id
}

/// The index of a row about the issue `id`.
spec fn row_of(rows: Seq<Claim>, id: u32) -> int {
    choose|i: int| 0 <= i < rows.len() && #[trigger] rows[i].issue_id == id
}

/// The claims that the rows state, by issue.
spec fn claims_of(rows: Seq<Claim>) -> Map<u32, ClaimView> {
    Map::new(|id: u32| holds_row(rows, id), |id: u32| rows[row_of(rows, id)]@)
}

/// In ascending rows, the claim on an issue is what its one row says.
proof fn lemma_row_is_claim(rows: Seq<Claim>, i: int)
    requires
        ascending(rows),
        0 <= i < rows.len(),
    ensures
        claims_of(rows).dom().contains(rows[i].issue_id),
        claims_of(rows)[rows[i].issue_id] == rows[i]@,
{
    let id = rows[i].issue_id;
    assert(holds_row(rows, id));
    let k = row_of(rows, id);
    assert(k == i) by {
        if k < i {
            assert(rows[k].issue_id < rows[i].issue_id);
        } else if i < k {
            assert(rows[i].issue_id < rows[k].issue_id);
        }
    }
}

/// Putting a row where its issue belongs adds its claim, or replaces the claim that the
/// issue had.
proof fn lemma_put(rows: Seq<Claim>, at: int, row: Claim, replace: bool)
    requires
        ascending(rows),
        0 <= at <= rows.len(),
        forall|j: int| 0 <= j < at ==> rows[j].issue_id < row.issue_id,
        replace ==> at < rows.len() && rows[at].issue_id == row.issue_id,
        !replace ==> forall|j: int| at <= j < rows.len() ==> row.issue_id < rows[j].issue_id,
    ensures
        ascending(if replace {
            rows.update(at, row)
        } else {
            rows.insert(at, row)
        }),
        claims_of(
            if replace {
                rows.update(at, row)
            } else {
                rows.insert(at, row)
            },
        ) == claims_of(rows).insert(row.issue_id, row@),
{
    let after = if replace {
        rows.update(at, row)
    } else {
        rows.insert(at, row)
    };
    assert(ascending(after)) by {
        assert forall|i: int, j: int| 0 <= i < j < after.len() implies after[i].issue_id
            < after[j].issue_id by {
            if replace {
                if i == at {
                    assert(rows[at].issue_id < rows[j].issue_id);
                } else if j == at {
                    assert(rows[i].issue_id < rows[at].issue_id);
                } else {
                    assert(rows[i].issue_id < rows[j].issue_id);
                }
            } else {
                let oi = if i < at {
                    i
                } else {
                    i - 1
                };
                let oj = if j < at {
                    j
                } else {
                    j - 1
                };
                if i != at && j != at {
                    assert(rows[oi].issue_id < rows[oj].issue_id);
                }
            }
        }
    }
    let want = claims_of(rows).insert(row.issue_id, row@);
    assert forall|id: u32| claims_of(after).dom().contains(id) == want.dom().contains(id) by {
        if claims_of(after).dom().contains(id) {
            let k = row_of(after, id);
            if k != at {
                let ok = if replace || k < at {
                    k
                } else {
                    k - 1
                };
                assert(rows[ok].issue_id == id);
            }
        }
        if want.dom().contains(id) {
            if id == row.issue_id {
                assert(after[at].issue_id == id);
            } else {
                let ok = row_of(rows, id);
                let k = if replace || ok < at {
                    ok
                } else {
                    ok + 1
                };
                assert(after[k].issue_id == id);
            }
        }
    }
    assert forall|id: u32| claims_of(after).dom().contains(id) implies claims_of(after)[id]
        == want[id] by {
        let k = row_of(after, id);
        lemma_row_is_claim(after, k);
        if k != at {
            let ok = if replace || k < at {
                k
            } else {
                k - 1
            };
            assert(rows[ok] == after[k]);
            lemma_row_is_claim(rows, ok);
        }
    }
    assert(claims_of(after) =~= want);
}

/// Taking a row out takes the claim of its issue out.
proof fn lemma_take_out(rows: Seq<Claim>, at: int)
    requires
        ascending(rows),
        0 <= at < rows.len(),
    ensures
        ascending(rows.remove(at)),
        claims_of(rows.remove(at)) == claims_of(rows).remove(rows[at].issue_id),
{
    let after = rows.remove(at);
    let gone = rows[at].issue_id;
    assert(ascending(after)) by {
        assert forall|i: int, j: int| 0 <= i < j < after.len() implies after[i].issue_id
            < after[j].issue_id by {
            let oi = if i < at {
                i
            } else {
                i + 1
            };
            let oj = if j < at {
                j
            } else {
                j + 1
            };
            assert(rows[oi].issue_id < rows[oj].issue_id);
        }
    }
    let want = claims_of(rows).remove(gone);
    assert forall|id: u32| claims_of(after).dom().contains(id) == want.dom().contains(id) by {
        if claims_of(after).dom().contains(id) {
            let k = row_of(after, id);
            let ok = if k < at {
                k
            } else {
                k + 1
            };
            assert(rows[ok].issue_id == id);
            if ok < at {
                assert(rows[ok].issue_id < rows[at].issue_id);
            } else {
                assert(rows[at].issue_id < rows[ok].issue_id);
            }
        }
        if want.dom().contains(id) {
            let ok = row_of(rows, id);
            let k = if ok < at {
                ok
            } else {
                ok - 1
            };
            assert(after[k].issue_id == id);
        }
    }
    assert forall|id: u32| claims_of(after).dom().contains(id) implies claims_of(after)[id]
        == want[id] by {
        let k = row_of(after, id);
        lemma_row_is_claim(after, k);
        let ok = if k < at {
            k
        } else {
            k + 1
        };
        assert(rows[ok] == after[k]);
        lemma_row_is_claim(rows, ok);
    }
    assert(claims_of(after) =~= want);
}

/// Where the row of issue `id` stands among ascending rows, or where it would go.
fn locate(rows: &Vec<Claim>, id: u32) -> (r: (usize, bool))
    requires
        ascending(rows@),
    ensures
        r.0 <= rows.len(),
        forall|j: int| 0 <= j < r.0 ==> rows@[j].issue_id < id,
        r.1 ==> r.0 < rows.len() && rows@[r.0 as int].issue_id == id,
        !r.1 ==> forall|j: int| r.0 <= j < rows.len() ==> id < rows@[j].issue_id,
        r.1 == claims_of(rows@).dom().contains(id),
{
    let mut i: usize = 0;
    while i < rows.len() && rows[i].issue_id < id
        invariant
            i <= rows.len(),
            forall|j: int| 0 <= j < i ==> rows@[j].issue_id < id,
        decreases rows.len() - i,
    {
        i += 1;
    }
    let found = i < rows.len() && rows[i].issue_id == id;
    proof {
        if found {
            lemma_row_is_claim(rows@, i as int);
        } else {
            assert forall|j: int| i <= j < rows.len() implies id < rows@[j].issue_id by {
                if i < j {
                    assert(rows@[i as int].issue_id < rows@[j].issue_id);
                }
            }
            if holds_row(rows@, id) {
                let k = row_of(rows@, id);
                assert(false);
            }
        }
    }
    (i, found)
}

/// Puts a row where its issue belongs, in place of the row that the issue had, if any.
fn put(rows: &mut Vec<Claim>, row: Claim)
    requires
        ascending(old(rows)@),
    ensures
        ascending(final(rows)@),
        claims_of(final(rows)@) == claims_of(old(rows)@).insert(row.issue_id, row@),
{
    let (at, found) = locate(rows, row.issue_id);
    proof {
        lemma_put(rows@, at as int, row, found);
    }
    if found {
        rows.set(at, row);
    } else {
        rows.insert(at, row);
    }
}

impl DatabaseView {
    /// What a claim of issue `id` by `assignee` at the moment `at` gives: the ledger with
    /// the claim, or the present holder where the issue is claimed already.
    pub open spec fn claim(self, id: u32, assignee: Seq<char>, at: Timestamp) -> Result<
        DatabaseView,
        Seq<char>,
    > {
        if self.claims.dom().contains(id) {
            Err(self.claims[id].assignee)
        } else {
            Ok(
                DatabaseView {
                    claims: self.claims.insert(id, ClaimView { assignee, claimed_at: at }),
                    ..self
                },
            )
        }
    }

    /// What a release of issue `id` gives: the ledger without the claim, or nothing where
    /// the issue is not claimed.
    pub open spec fn release(self, id: u32) -> Option<DatabaseView> {
        if self.claims.dom().contains(id) {
            Some(DatabaseView { claims: self.claims.remove(id), ..self })
        } else {
            None
        }
    }

    /// What handing out an identifier gives: the identifier and the ledger after it, or
    /// nothing where the counter has reached the largest identifier.
    pub open spec fn allocate(self) -> Option<(u32, DatabaseView)> {
        if self.next_issue_id < u32::MAX {
            Some(
                (
                    self.next_issue_id,
                    DatabaseView { next_issue_id: (self.next_issue_id + 1) as u32, ..self },
                ),
            )
        } else {
            None
        }
    }

    /// The ledger that a scan of `records` gives: see `claims_from` and `counter_from`. The
    /// schema version becomes the current one.
    pub open spec fn rebuilt(records: Seq<IssueView>) -> DatabaseView {
        DatabaseView {
            version: SCHEMA_VERSION,
            next_issue_id: counter_from(records),
            claims: claims_from(records),
        }
    }

    /// The ledger with its claims and its counter derived again from `records`.
    pub open spec fn repaired(self, records: Seq<IssueView>) -> DatabaseView {
        DatabaseView {
            version: self.version,
            next_issue_id: counter_from(records),
            claims: claims_from(records),
        }
    }

    /// The ledger after its schema was checked: as it is where the version is current,
    /// rebuilt from `records` where it is not.
    pub open spec fn ensured(self, records: Seq<IssueView>) -> DatabaseView {
        if self.version == SCHEMA_VERSION {
            self
        } else {
            DatabaseView::rebuilt(records)
        }
    }
}

/// The claims that rows state, by issue: of two rows for one issue the later one counts.
pub open spec fn claims_in(rows: Seq<Claim>) -> Map<u32, ClaimView>
    decreases rows.len(),
{
    if rows.len() == 0 {
        Map::empty()
    } else {
        claims_in(rows.drop_last()).insert(rows.last().issue_id, rows.last()@)
    }
}

/// The claims that a scan of records gives: each record with an assignee claims its issue
/// for that assignee since its creation; of two records for one issue the later one in
/// the scan counts.
pub open spec fn claims_from(records: Seq<IssueView>) -> Map<u32, ClaimView>
    decreases records.len(),
{
    if records.len() == 0 {
        Map::empty()
    } else {
        let before = claims_from(records.drop_last());
        let record = records.last();
        match record.assignee {
            Some(assignee) => before.insert(
                record.id,
                ClaimView { assignee, claimed_at: record.created },
            ),
            None => before,
        }
    }
}

/// The largest identifier among the records, 0 where there is none.
pub open spec fn largest_id(records: Seq<IssueView>) -> u32
    decreases records.len(),
{
    if records.len() == 0 {
        0
    } else {
        let before = largest_id(records.drop_last());
        if records.last().id > before {
            records.last().id
        } else {
            before
        }
    }
}

/// The counter that a scan of records gives: one more than the largest identifier in
/// use. Where that is the largest identifier there is, the counter stays on it, and no
/// identifier is handed out any more.
pub open spec fn counter_from(records: Seq<IssueView>) -> u32 {
    if largest_id(records) < u32::MAX {
        (largest_id(records) + 1) as u32
    } else {
        u32::MAX
    }
}

/// The records as mathematical values.
pub open spec fn views(records: Seq<Issue>) -> Seq<IssueView> {
    Seq::new(records.len(), |i: int| records[i]@)
}

/// The text of the error for a ledger whose identifiers are used up.
pub open spec fn exhausted_text() -> Seq<char> {
    "No issue identifier is left"@
}

impl View for Database {
    type V = DatabaseView;

    closed spec fn view(&self) -> DatabaseView {
        DatabaseView {
            version: self.version,
            next_issue_id: self.next_issue_id,
            claims: claims_of(self.claims@),
        }
    }
}

impl Database {
    /// The ledger is well formed: no issue has two claims. Every ledger that this module
    /// hands out is well formed, and every operation keeps it so.
    pub closed spec fn wf(&self) -> bool {
        ascending(self.claims@)
    }

    /// The ledger that a store holds: its schema version, its counter and its claim rows.
    /// Of two rows for one issue the later one counts.
    pub fn stored(version: i32, next_issue_id: u32, rows: Vec<Claim>) -> (db: Database)
        ensures
            db.wf(),
            db@ == (DatabaseView { version, next_issue_id, claims: claims_in(rows@) }),
    {
        let mut claims: Vec<Claim> = Vec::new();
        let mut i: usize = 0;
        assert(rows@.take(0) =~= Seq::<Claim>::empty());
        assert(claims_of(claims@) =~= Map::<u32, ClaimView>::empty());
        while i < rows.len()
            invariant
                i <= rows.len(),
                ascending(claims@),
                claims_of(claims@) == claims_in(rows@.take(i as int)),
            decreases rows.len() - i,
        {
            let ghost next = rows@.take(i + 1);
            assert(next.drop_last() =~= rows@.take(i as int));
            assert(next.last() == rows@[i as int]);
            let row = &rows[i];
            put(
                &mut claims,
                Claim {
                    issue_id: row.issue_id,
                    assignee: row.assignee.clone(),
                    claimed_at: row.claimed_at,
                },
            );
            i += 1;
        }
        assert(rows@.take(i as int) =~= rows@);
        Database { version, next_issue_id, claims }
    }

    /// The ledger that a scan of `records` gives.
    fn from_records(version: i32, records: &Vec<Issue>) -> (db: Database)
        ensures
            db.wf(),
            db@ == (DatabaseView {
                version,
                next_issue_id: counter_from(views(records@)),
                claims: claims_from(views(records@)),
            }),
    {
        let mut claims: Vec<Claim> = Vec::new();
        let mut largest: u32 = 0;
        let mut i: usize = 0;
        assert(views(records@).take(0) =~= Seq::<IssueView>::empty());
        assert(claims_of(claims@) =~= Map::<u32, ClaimView>::empty());
        while i < records.len()
            invariant
                i <= records.len(),
                ascending(claims@),
                claims_of(claims@) == claims_from(views(records@).take(i as int)),
                largest == largest_id(views(records@).take(i as int)),
            decreases records.len() - i,
        {
            let ghost seen = views(records@).take(i as int);
            let ghost next = views(records@).take(i + 1);
            assert(next.drop_last() =~= seen);
            assert(next.last() == records@[i as int]@);
            let record = &records[i];
            if record.id > largest {
                largest = record.id;
            }
            match &record.assignee {
                Some(assignee) => {
                    put(
                        &mut claims,
                        Claim {
                            issue_id: record.id,
                            assignee: assignee.clone(),
                            claimed_at: record.created,
                        },
                    );
                },
                None => {},
            }
            i += 1;
        }
        assert(views(records@).take(i as int) =~= views(records@));
        let next_issue_id = if largest < u32::MAX {
            largest + 1
        } else {
            u32::MAX
        };
        Database { version, next_issue_id, claims }
    }

    /// Open the ledger.
    ///
    /// `stored` is what the ledger's store holds, `None` where it holds no schema, and
    /// `records` are the records of the data branch. The directory of the store must
    /// exist: where it does not, the ledger was never set up, and this is an error. A
    /// ledger without a schema, or with another version than the current one, is rebuilt
    /// from the records.
    pub fn open(
        db_path: &str,
        parent_exists: bool,
        stored: Option<Database>,
        records: &Vec<Issue>,
    ) -> (r: Result<Database, ItackError>)
        requires
            stored matches Some(held) ==> held.wf(),
        ensures
            r matches Ok(db) ==> db.wf(),
            !parent_exists ==> (r matches Err(ItackError::DatabaseNotFound(p)) && p@
                == db_path@),
            parent_exists ==> (r matches Ok(db) && db@ == (match stored {
                Some(held) => held@.ensured(views(records@)),
                None => DatabaseView::rebuilt(views(records@)),
            })),
    {
        if !parent_exists {
            return Err(ItackError::DatabaseNotFound(db_path.to_owned()));
        }
        Database::open_or_create(stored, records)
    }

    /// Open the ledger where its directory is there or was just made: as `open`, without
    /// the error.
    pub fn open_or_create(stored: Option<Database>, records: &Vec<Issue>) -> (r: Result<
        Database,
        ItackError,
    >)
        requires
            stored matches Some(held) ==> held.wf(),
        ensures
            r matches Ok(db) && db.wf() && db@ == (match stored {
                Some(held) => held@.ensured(views(records@)),
                None => DatabaseView::rebuilt(views(records@)),
            }),
    {
        match stored {
            Some(held) => {
                let mut db = held;
                let _ = db.create_or_rebuild(records);
                Ok(db)
            },
            None => Ok(Database::from_records(SCHEMA_VERSION, records)),
        }
    }

    /// Create the schema or rebuild it from the records: nothing happens where the
    /// version is the current one.
    pub fn create_or_rebuild(&mut self, records: &Vec<Issue>) -> (r: Result<(), ItackError>)
        requires
            old(self).wf(),
        ensures
            final(self).wf(),
            r is Ok,
            final(self)@ == old(self)@.ensured(views(records@)),
    {
        if self.version != SCHEMA_VERSION {
            *self = Database::from_records(SCHEMA_VERSION, records);
        }
        Ok(())
    }

    /// Repair claims and counter by rescanning the records.
    /// Unlike create_or_rebuild, this always runs regardless of schema version.
    pub fn repair_state(&mut self, records: &Vec<Issue>) -> (r: Result<(), ItackError>)
        requires
            old(self).wf(),
        ensures
            final(self).wf(),
            r is Ok,
            final(self)@ == old(self)@.repaired(views(records@)),
    {
        *self = Database::from_records(self.version, records);
        Ok(())
    }

    /// Get and increment the next issue ID in one step.
    pub fn next_issue_id(&mut self) -> (r: Result<u32, ItackError>)
        requires
            old(self).wf(),
        ensures
            final(self).wf(),
            match old(self)@.allocate() {
                Some((id, after)) => r == Ok::<u32, ItackError>(id) && final(self)@ == after,
                None => r matches Err(ItackError::Other(text)) && text@ == exhausted_text()
                    && final(self)@ == old(self)@,
            },
    {
        if self.next_issue_id < u32::MAX {
            let id = self.next_issue_id;
            self.next_issue_id = id + 1;
            Ok(id)
        } else {
            Err(ItackError::Other("No issue identifier is left".to_owned()))
        }
    }

    /// Get the current next_issue_id without incrementing.
    pub fn peek_next_issue_id(&self) -> (r: Result<u32, ItackError>)
        ensures
            r == Ok::<u32, ItackError>(self@.next_issue_id),
    {
        Ok(self.next_issue_id)
    }

    /// Attempt to claim an issue at the moment `at`. Returns error if already claimed.
    pub fn claim_at(&mut self, issue_id: u32, assignee: &str, at: Timestamp) -> (r: Result<
        (),
        ItackError,
    >)
        requires
            old(self).wf(),
        ensures
            final(self).wf(),
            match old(self)@.claim(issue_id, assignee@, at) {
                Ok(after) => r is Ok && final(self)@ == after,
                Err(holder) => r matches Err(ItackError::AlreadyClaimed(id, who)) && id
                    == issue_id && who@ == holder && final(self)@ == old(self)@,
            },
    {
        let (at_row, found) = locate(&self.claims, issue_id);
        if found {
            proof {
                lemma_row_is_claim(self.claims@, at_row as int);
            }
            return Err(ItackError::AlreadyClaimed(issue_id, self.claims[at_row].assignee.clone()));
        }
        let row = Claim { issue_id, assignee: assignee.to_owned(), claimed_at: at };
        proof {
            lemma_put(self.claims@, at_row as int, row, false);
        }
        self.claims.insert(at_row, row);
        Ok(())
    }

    /// Attempt to claim an issue now. Returns error if already claimed.
    pub fn claim(&mut self, issue_id: u32, assignee: &str) -> (r: Result<(), ItackError>)
        requires
            old(self).wf(),
        ensures
            final(self).wf(),
            match r {
                Ok(_) => exists|at: Timestamp|
                    old(self)@.claim(issue_id, assignee@, at) == Ok::<DatabaseView, Seq<char>>(
                        final(self)@,
                    ),
                Err(e) => e matches ItackError::AlreadyClaimed(id, who) && id == issue_id
                    && old(self)@.claims.dom().contains(issue_id) && who@
                    == old(self)@.claims[issue_id].assignee && final(self)@ == old(self)@,
            },
            r is Ok <==> !old(self)@.claims.dom().contains(issue_id),
    {
        let at = now();
        self.claim_at(issue_id, assignee, at)
    }

    /// Release a claim on an issue. An issue that is not claimed is reported.
    pub fn release(&mut self, issue_id: u32) -> (r: Result<(), ItackError>)
        requires
            old(self).wf(),
        ensures
            final(self).wf(),
            match old(self)@.release(issue_id) {
                Some(after) => r is Ok && final(self)@ == after,
                None => r == Err::<(), ItackError>(ItackError::NotClaimed(issue_id))
                    && final(self)@ == old(self)@,
            },
    {
        let (at_row, found) = locate(&self.claims, issue_id);
        if !found {
            return Err(ItackError::NotClaimed(issue_id));
        }
        proof {
            lemma_take_out(self.claims@, at_row as int);
        }
        self.claims.remove(at_row);
        Ok(())
    }

    /// Check if an issue is claimed and by whom.
    pub fn get_claim(&self, issue_id: u32) -> (r: Result<Option<(String, Timestamp)>, ItackError>)
        requires
            self.wf(),
        ensures
            r matches Ok(found) && match found {
                Some((who, since)) => self@.claims.dom().contains(issue_id) && who@
                    == self@.claims[issue_id].assignee && since
                    == self@.claims[issue_id].claimed_at,
                None => !self@.claims.dom().contains(issue_id),
            },
    {
        let (at_row, found) = locate(&self.claims, issue_id);
        if found {
            proof {
                lemma_row_is_claim(self.claims@, at_row as int);
            }
            let row = &self.claims[at_row];
            Ok(Some((row.assignee.clone(), row.claimed_at)))
        } else {
            Ok(None)
        }
    }

    /// Get the schema version of the ledger.
    pub fn get_schema_version(&self) -> (r: Result<i32, ItackError>)
        ensures
            r == Ok::<i32, ItackError>(self@.version),
    {
        Ok(self.version)
    }

    /// Get all claims, in ascending order of their issues.
    pub fn list_claims(&self) -> (r: Result<Vec<(u32, String, Timestamp)>, ItackError>)
        requires
            self.wf(),
        ensures
            r matches Ok(rows) && lists(rows@, self@.claims),
    {
        let mut rows: Vec<(u32, String, Timestamp)> = Vec::new();
        let mut i: usize = 0;
        while i < self.claims.len()
            invariant
                i <= self.claims.len(),
                rows.len() == i,
                ascending(self.claims@),
                forall|k: int|
                    0 <= k < i ==> (#[trigger] rows@[k]).0 == self.claims@[k].issue_id
                        && rows@[k].1@ == self.claims@[k].assignee@ && rows@[k].2
                        == self.claims@[k].claimed_at,
            decreases self.claims.len() - i,
        {
            let row = &self.claims[i];
            rows.push((row.issue_id, row.assignee.clone(), row.claimed_at));
            i += 1;
        }
        proof {
            let listed = rows@;
            assert forall|a: int, b: int| 0 <= a < b < listed.len() implies (#[trigger] listed[a]).0
                < (#[trigger] listed[b]).0 by {
                assert(self.claims@[a].issue_id < self.claims@[b].issue_id);
            }
            assert forall|k: int| 0 <= k < listed.len() implies self@.claims.dom().contains(
                (#[trigger] listed[k]).0,
            ) && self@.claims[listed[k].0] == (ClaimView {
                assignee: listed[k].1@,
                claimed_at: listed[k].2,
            }) by {
                lemma_row_is_claim(self.claims@, k);
            }
            assert forall|id: u32| self@.claims.dom().contains(id) implies exists|k: int|
                0 <= k < listed.len() && (#[trigger] listed[k]).0 == id by {
                let k = row_of(self.claims@, id);
                assert(listed[k].0 == id);
            }
        }
        Ok(rows)
    }
}

/// The rows list the claims: one row for each claim, saying what the claim says, in
/// ascending order of the issues.
pub open spec fn lists(rows: Seq<(u32, String, Timestamp)>, claims: Map<u32, ClaimView>) -> bool {
    &&& forall|i: int, j: int|
        0 <= i < j < rows.len() ==> (#[trigger] rows[i]).0 < (#[trigger] rows[j]).0
    &&& forall|i: int|
        0 <= i < rows.len() ==> claims.dom().contains((#[trigger] rows[i]).0) && claims[rows[i].0]
            == (ClaimView { assignee: rows[i].1@, claimed_at: rows[i].2 })
    &&& forall|id: u32|
        claims.dom().contains(id) ==> exists|i: int|
            0 <= i < rows.len() && (#[trigger] rows[i]).0 == id
}

} // verus!
