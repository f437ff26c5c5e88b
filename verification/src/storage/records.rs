//! Loaded records: which files of a branch are records, and the order of a listing.

use crate::domain::git::{
    ends_with, find_issue_file_in_branch, in_records_dir, issue_suffix, issues_dir_name,
    legacy_name, record_entries, record_path, records_dir,
};
use crate::domain::tree::{segments, Entry, Leaf, LeafView, Node, Tree};
use crate::domain::issue::Issue;
use crate::error::ItackError;
use crate::text::{chars_of, has_at, push_decimal, push_decimal_pad3};
use vstd::prelude::*;
use vstd::string::StringExecFns;

verus! {

/// Information about a loaded issue.
#[derive(Debug, PartialEq, Eq)]
pub struct IssueInfo {
    pub issue: Issue,
    pub title: String,
    pub body: String,
    pub path: String,
}

impl Clone for IssueInfo {
    fn clone(&self) -> (r: IssueInfo)
        ensures
            r.issue@ == self.issue@,
            r.title@ == self.title@,
            r.body@ == self.body@,
            r.path@ == self.path@,
    {
        IssueInfo {
            issue: self.issue.clone(),
            title: self.title.clone(),
            body: self.body.clone(),
            path: self.path.clone(),
        }
    }
}

/// What a listing orders by: the status priority first, then the identifier.
pub open spec fn listing_key(info: IssueInfo) -> int {
    info.issue.status.priority() * 0x1_0000_0000 + info.issue.id
}

/// Where `info` goes in a listing that is in order: behind every record that does not
/// come after it, searching from `from`.
pub open spec fn listing_place(listed: Seq<IssueInfo>, info: IssueInfo, from: int) -> int
    decreases listed.len() - from,
{
    if from < 0 || from >= listed.len() {
        listed.len() as int
    } else if listing_key(listed[from]) > listing_key(info) {
        from
    } else {
        listing_place(listed, info, from + 1)
    }
}

/// The records in the order of a listing: by status priority, then by identifier;
/// records that agree in both keep the order in which they were found.
pub open spec fn listing_order(found: Seq<IssueInfo>) -> Seq<IssueInfo>
    decreases found.len(),
{
    if found.len() == 0 {
        Seq::empty()
    } else {
        let listed = listing_order(found.drop_last());
        listed.insert(listing_place(listed, found.last(), 0), found.last())
    }
}

/// The place of a record lies in the listing; what stands before it does not come after
/// the record, and what stands at it and behind it does, provided the listing is in order.
proof fn lemma_listing_place(listed: Seq<IssueInfo>, info: IssueInfo, from: int)
    requires
        0 <= from <= listed.len(),
    ensures
        from <= listing_place(listed, info, from) <= listed.len(),
        forall|j: int|
            from <= j < listing_place(listed, info, from) ==> listing_key(#[trigger] listed[j])
                <= listing_key(info),
        listing_place(listed, info, from) < listed.len() ==> listing_key(
            listed[listing_place(listed, info, from)],
        ) > listing_key(info),
    decreases listed.len() - from,
{
    if from < listed.len() && listing_key(listed[from]) <= listing_key(info) {
        lemma_listing_place(listed, info, from + 1);
    }
}

/// A listing is in order: no record comes before one that it comes after.
pub open spec fn in_listing_order(listed: Seq<IssueInfo>) -> bool {
    forall|i: int, j: int|
        0 <= i < j < listed.len() ==> listing_key(#[trigger] listed[i]) <= listing_key(
            #[trigger] listed[j],
        )
}

/// The listing order is in order and holds the records that were found, each as often as
/// it was found.
pub proof fn lemma_listing_order(found: Seq<IssueInfo>)
    ensures
        in_listing_order(listing_order(found)),
        listing_order(found).to_multiset() == found.to_multiset(),
        listing_order(found).len() == found.len(),
    decreases found.len(),
{
    broadcast use vstd::seq_lib::group_to_multiset_ensures;

    if found.len() == 0 {
        assert(listing_order(found) =~= found);
    } else {
        let before = found.drop_last();
        let listed = listing_order(before);
        let info = found.last();
        lemma_listing_order(before);
        lemma_listing_place(listed, info, 0);
        let at = listing_place(listed, info, 0);
        let after = listed.insert(at, info);
        assert forall|i: int, j: int| 0 <= i < j < after.len() implies listing_key(
            #[trigger] after[i],
        ) <= listing_key(#[trigger] after[j]) by {
            let oi = if i < at {
                i
            } else {
                i - 1
            };
            let oj = if j < at {
                j
            } else {
                j - 1
            };
            if i == at {
                assert(after[j] == listed[oj]);
                assert(listing_key(listed[at]) <= listing_key(listed[oj]) || oj == at);
            } else if j == at {
                assert(after[i] == listed[oi]);
            } else {
                assert(after[i] == listed[oi]);
                assert(after[j] == listed[oj]);
            }
        }
        assert(found =~= before.push(info));
        assert(after.remove(at) =~= listed);
        vstd::seq_lib::to_multiset_remove(after, at);
        assert(after[at] == info);
        assert(after.contains(info));
        assert(after.to_multiset().count(info) > 0);
        assert(after.to_multiset() =~= listed.to_multiset().insert(info));
        vstd::seq_lib::to_multiset_build(before, info);
    }
}

/// A status has one of four priorities, so a key tells status and identifier apart.
pub proof fn lemma_listing_key(a: IssueInfo, b: IssueInfo)
    ensures
        listing_key(a) <= listing_key(b) <==> a.issue.status.priority()
            < b.issue.status.priority() || (a.issue.status.priority()
            == b.issue.status.priority() && a.issue.id <= b.issue.id),
{
}

/// Whether `a` comes after `b` in a listing.
fn comes_after(a: &IssueInfo, b: &IssueInfo) -> (r: bool)
    ensures
        r == (listing_key(*a) > listing_key(*b)),
{
    let pa = a.issue.status.sort_priority();
    let pb = b.issue.status.sort_priority();
    pa > pb || (pa == pb && a.issue.id > b.issue.id)
}

/// Load all issues from the data branch: the records that were read from it, in the
/// order of a listing.
pub fn load_all_issues_from_data_branch(found: Vec<IssueInfo>) -> (listed: Vec<IssueInfo>)
    ensures
        listed@ == listing_order(found@),
{
    let ghost given = found@;
    let mut v = found;
    let mut i: usize = 0;
    assert(given.take(0) =~= Seq::<IssueInfo>::empty());
    assert(v@ =~= listing_order(given.take(0)) + given.skip(0));
    while i < v.len()
        invariant
            i <= v.len(),
            v.len() == given.len(),
            v@ == listing_order(given.take(i as int)) + given.skip(i as int),
            listing_order(given.take(i as int)).len() == i,
        decreases v.len() - i,
    {
        let ghost listed = listing_order(given.take(i as int));
        let ghost next = given.take(i + 1);
        assert(next.drop_last() =~= given.take(i as int));
        assert(next.last() == given[i as int]);
        let info = v.remove(i);
        assert(info == given[i as int]);
        assert(v@ =~= listed + given.skip(i + 1));
        let mut at: usize = 0;
        while at < i && !comes_after(&v[at], &info)
            invariant
                at <= i < v.len() + 1,
                i <= v.len(),
                v@ == listed + given.skip(i + 1),
                listed.len() == i,
                listing_place(listed, info, 0) == listing_place(listed, info, at as int),
            decreases i - at,
        {
            assert(v@[at as int] == listed[at as int]);
            at += 1;
        }
        proof {
            if at < i {
                assert(v@[at as int] == listed[at as int]);
            }
            assert(listing_place(listed, info, 0) == at);
        }
        v.insert(at, info);
        assert(v@ =~= listed.insert(at as int, info) + given.skip(i + 1));
        i += 1;
    }
    assert(given.take(i as int) =~= given);
    assert(v@ =~= listing_order(given));
    v
}

/// A file of the records directory counts as a record file when its name ends with
/// `.md` and does not start with a dot.
pub open spec fn is_record_name(name: Seq<char>) -> bool {
    ends_with(name, seq!['.', 'm', 'd']) && !(name.len() > 0 && name[0] == '.')
}

/// Whether a file of the records directory is a record file, by its name.
pub fn is_record_file(name: &str) -> (r: bool)
    ensures
        r == is_record_name(name@),
{
    let text = chars_of(name);
    let mut ending: Vec<char> = Vec::new();
    ending.push('.');
    ending.push('m');
    ending.push('d');
    assert(ending@ =~= seq!['.', 'm', 'd']);
    if text.len() < 3 {
        return false;
    }
    has_at(&text, text.len() - 3, &ending) && text[0] != '.'
}

/// The record files among the entries of the records directory, from `from` on: for each
/// its path and where it points, in the order of the entries.
pub open spec fn record_files_from(entries: Seq<Entry>, from: int) -> Seq<(Seq<char>, LeafView)>
    decreases entries.len() - from,
{
    if from < 0 || from >= entries.len() {
        Seq::empty()
    } else {
        let rest = record_files_from(entries, from + 1);
        match entries[from].node {
            Node::File(leaf) => if is_record_name(entries[from].name@) {
                seq![(issues_dir_name() + seq!['/'] + entries[from].name@, leaf@)] + rest
            } else {
                rest
            },
            Node::Dir(_) => rest,
        }
    }
}

/// The record files of a branch: those of its records directory, none where the branch
/// does not exist or has no such directory.
pub open spec fn record_files_of(tip: Option<&Tree>) -> Seq<(Seq<char>, LeafView)> {
    match tip {
        Some(tree) => match record_entries(tree.entries@) {
            Some(entries) => record_files_from(entries, 0),
            None => Seq::empty(),
        },
        None => Seq::empty(),
    }
}

/// Files as mathematical values: for each its path and where it points.
pub open spec fn file_views(files: Seq<(String, Leaf)>) -> Seq<(Seq<char>, LeafView)> {
    Seq::new(files.len(), |k: int| (files[k].0@, files[k].1@))
}

/// The files of a branch to read records from: each with its path and where it points.
/// A branch that does not exist, or has no records directory, has none.
pub fn record_files(tip: Option<&Tree>) -> (files: Vec<(String, Leaf)>)
    ensures
        file_views(files@) == record_files_of(tip),
{
    let mut files: Vec<(String, Leaf)> = Vec::new();
    assert(file_views(files@) =~= Seq::empty());
    let tree = match tip {
        None => {
            return files;
        },
        Some(tree) => tree,
    };
    let dir = match records_dir(tree) {
        None => {
            return files;
        },
        Some(dir) => dir,
    };
    let ghost entries = dir.entries@;
    let mut i: usize = 0;
    while i < dir.entries.len()
        invariant
            i <= dir.entries.len(),
            entries == dir.entries@,
            file_views(files@) + record_files_from(entries, i as int) == record_files_from(
                entries,
                0,
            ),
        decreases dir.entries.len() - i,
    {
        let ghost before = file_views(files@);
        match &dir.entries[i].node {
            Node::File(leaf) => {
                if is_record_file(dir.entries[i].name.as_str()) {
                    files.push((in_records_dir(dir.entries[i].name.as_str()), leaf.clone()));
                    assert(file_views(files@) =~= before.push(
                        (issues_dir_name() + seq!['/'] + entries[i as int].name@, leaf@),
                    ));
                    assert(file_views(files@) + record_files_from(entries, i + 1) =~= before
                        + record_files_from(entries, i as int));
                }
            },
            Node::Dir(_) => {},
        }
        i += 1;
    }
    assert(file_views(files@) + Seq::empty() =~= file_views(files@));
    files
}

/// The name of the record file of issue `id` among the names of a directory: the first
/// name that ends with the issue's suffix; failing that, the legacy name where the
/// directory has it.
pub open spec fn record_among(names: Seq<String>, id: u32) -> Option<Seq<char>> {
    match name_ending(names, issue_suffix(id), 0) {
        Some(i) => Some(names[i]@),
        None => if exists|i: int|
            0 <= i < names.len() && (#[trigger] names[i])@ == legacy_name(id) {
            Some(legacy_name(id))
        } else {
            None
        },
    }
}

/// The index of the first name at or after `from` that ends with `suffix`.
pub open spec fn name_ending(names: Seq<String>, suffix: Seq<char>, from: int) -> Option<int>
    decreases names.len() - from,
{
    if from < 0 || from >= names.len() {
        None
    } else if ends_with(names[from]@, suffix) {
        Some(from)
    } else {
        name_ending(names, suffix, from + 1)
    }
}

/// Find the record file of an issue among the file names of a working directory.
/// Checks the dated name (`YYYY-MM-DD-issue-NNN.md`) first, then the legacy name (`N.md`).
#[verifier::loop_isolation(false)]
pub fn load_issue(file_names: &Vec<String>, id: u32) -> (r: Result<String, ItackError>)
    ensures
        match record_among(file_names@, id) {
            Some(name) => r matches Ok(found) && found@ == name,
            None => r == Err::<String, ItackError>(ItackError::IssueNotFound(id)),
        },
{
    let mut suffix_text = "-issue-".to_owned();
    push_decimal_pad3(&mut suffix_text, id);
    suffix_text.append(".md");
    let suffix = chars_of(suffix_text.as_str());
    let mut legacy = String::new();
    push_decimal(&mut legacy, id);
    legacy.append(".md");
    assert(legacy@ =~= legacy_name(id));
    let mut i: usize = 0;
    while i < file_names.len()
        invariant
            i <= file_names.len(),
            name_ending(file_names@, suffix@, 0) == name_ending(file_names@, suffix@, i as int),
        decreases file_names.len() - i,
    {
        let text = chars_of(file_names[i].as_str());
        if suffix.len() <= text.len() && has_at(&text, text.len() - suffix.len(), &suffix) {
            return Ok(file_names[i].clone());
        }
        i += 1;
    }
    let mut j: usize = 0;
    while j < file_names.len()
        invariant
            j <= file_names.len(),
            forall|k: int| 0 <= k < j ==> (#[trigger] file_names@[k])@ != legacy@,
        decreases file_names.len() - j,
    {
        if file_names[j] == legacy {
            return Ok(legacy);
        }
        j += 1;
    }
    Err(ItackError::IssueNotFound(id))
}

/// Where the record file of issue `id` is on a branch: its path and where it points, if
/// the branch exists and holds the file.
pub open spec fn record_on_branch(tip: Option<&Tree>, id: u32) -> Option<(Seq<char>, LeafView)> {
    match tip {
        None => None,
        Some(tree) => match record_path(tree.entries@, id) {
            Some(path) if tree@.dom().contains(segments(path)) => Some(
                (path, tree@[segments(path)]),
            ),
            _ => None,
        },
    }
}

/// Find the record file of an issue on the data branch: its path and where it points.
/// Where the branch does not exist or holds no such file, the issue is not found.
pub fn load_issue_from_data_branch(tip: Option<&Tree>, id: u32) -> (r: Result<
    (String, Leaf),
    ItackError,
>)
    ensures
        match record_on_branch(tip, id) {
            Some((path, leaf)) => r matches Ok((p, l)) && p@ == path && l@ == leaf,
            None => r == Err::<(String, Leaf), ItackError>(ItackError::IssueNotFound(id)),
        },
{
    let tree = match tip {
        None => {
            return Err(ItackError::IssueNotFound(id));
        },
        Some(tree) => tree,
    };
    let path = match find_issue_file_in_branch(tip, id) {
        None => {
            return Err(ItackError::IssueNotFound(id));
        },
        Some(path) => path,
    };
    match tree.read(path.as_str()) {
        None => Err(ItackError::IssueNotFound(id)),
        Some(leaf) => Ok((path, leaf)),
    }
}

/// The records whose flag is set, in their order.
pub(crate) open spec fn flagged(issues: Seq<IssueInfo>, flags: Seq<bool>) -> Seq<IssueInfo>
    decreases issues.len(),
{
    if issues.len() == 0 || flags.len() == 0 {
        Seq::empty()
    } else {
        let before = flagged(issues.drop_last(), flags.drop_last());
        if flags.last() {
            before.push(issues.last())
        } else {
            before
        }
    }
}

/// Where the flags say of each record whether `keep` holds of it, the flagged records are
/// the records of which `keep` holds.
pub(crate) proof fn lemma_flagged_is_filter(
    issues: Seq<IssueInfo>,
    flags: Seq<bool>,
    keep: spec_fn(IssueInfo) -> bool,
)
    requires
        flags.len() == issues.len(),
        forall|i: int| 0 <= i < issues.len() ==> flags[i] == keep(issues[i]),
    ensures
        flagged(issues, flags) == issues.filter(keep),
    decreases issues.len(),
{
    reveal(Seq::filter);
    if issues.len() > 0 {
        lemma_flagged_is_filter(issues.drop_last(), flags.drop_last(), keep);
    }
}

/// Keeps the records whose flag is set.
pub(crate) fn keep_flagged(issues: Vec<IssueInfo>, flags: &Vec<bool>) -> (kept: Vec<IssueInfo>)
    requires
        flags.len() == issues.len(),
    ensures
        kept@ == flagged(issues@, flags@),
{
    let ghost given = issues@;
    let mut v = issues;
    let mut seen: usize = 0;
    let mut at: usize = 0;
    assert(given.take(0) =~= Seq::<IssueInfo>::empty());
    assert(v@ =~= flagged(given.take(0), flags@.take(0)) + given.skip(0));
    while seen < flags.len()
        invariant
            seen <= flags.len(),
            flags.len() == given.len(),
            at <= seen,
            at == flagged(given.take(seen as int), flags@.take(seen as int)).len(),
            v@ == flagged(given.take(seen as int), flags@.take(seen as int)) + given.skip(
                seen as int,
            ),
        decreases flags.len() - seen,
    {
        let ghost kept = flagged(given.take(seen as int), flags@.take(seen as int));
        assert(given.take(seen + 1).drop_last() =~= given.take(seen as int));
        assert(flags@.take(seen + 1).drop_last() =~= flags@.take(seen as int));
        assert(v@[at as int] == given[seen as int]);
        if flags[seen] {
            at += 1;
            assert(v@ =~= kept.push(given[seen as int]) + given.skip(seen + 1));
        } else {
            v.remove(at);
            assert(v@ =~= kept + given.skip(seen + 1));
        }
        seen += 1;
    }
    assert(given.take(seen as int) =~= given);
    assert(flags@.take(seen as int) =~= flags@);
    assert(v@ =~= flagged(given, flags@));
    v
}

} // verus!
