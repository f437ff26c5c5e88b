//! The tree of a branch tip, and how a write, a read or a removal changes it.
//!
//! A tree is a snapshot: directories hold named entries, and a file entry points at an
//! object of the store by its identifier. Nothing here touches a checkout. A write builds
//! the new tree level by level along the path and keeps every sibling as it was.

use crate::text::chars_of;
use vstd::prelude::*;

verus! {

/// The mode under which the store lists an ordinary file.
pub const BLOB_MODE: i32 = 0o100644;

/// Where a file entry points: an object of the store, and the mode it is listed with.
#[derive(Debug, PartialEq, Eq)]
pub struct Leaf {
    pub id: String,
    pub mode: i32,
}

/// What a directory entry is.
#[derive(Debug, PartialEq, Eq)]
pub enum Node {
    File(Leaf),
    Dir(Tree),
}

/// A named entry of a directory.
#[derive(Debug, PartialEq, Eq)]
pub struct Entry {
    pub name: String,
    pub node: Node,
}

/// A directory: its entries, in the order in which they are listed.
#[derive(Debug, PartialEq, Eq)]
pub struct Tree {
    pub entries: Vec<Entry>,
}

/// A file entry as mathematical values.
pub struct LeafView {
    pub id: Seq<char>,
    pub mode: i32,
}

impl View for Leaf {
    type V = LeafView;

    open spec fn view(&self) -> LeafView {
        LeafView { id: self.id@, mode: self.mode }
    }
}

impl Clone for Leaf {
    fn clone(&self) -> (r: Leaf)
        ensures
            r@ == self@,
    {
        Leaf { id: self.id.clone(), mode: self.mode }
    }
}

/// A path: the names from the root down, one per level.
pub type PathView = Seq<Seq<char>>;

/// The names of a path given as strings.
pub open spec fn names(path: Seq<String>) -> PathView {
    Seq::new(path.len(), |i: int| path[i]@)
}

/// The index of the first entry at or after `from` that is called `name`.
pub open spec fn entry_named(entries: Seq<Entry>, name: Seq<char>, from: int) -> Option<int>
    decreases entries.len() - from,
{
    if from < 0 || from >= entries.len() {
        None
    } else if entries[from].name@ == name {
        Some(from)
    } else {
        entry_named(entries, name, from + 1)
    }
}

/// The file that a directory holds at `path`, if it holds one there. A path that runs
/// through a file, ends on a directory or names a missing entry holds none.
pub open spec fn file_at(entries: Seq<Entry>, path: PathView) -> Option<LeafView>
    decreases path.len(),
{
    if path.len() == 0 {
        None
    } else {
        match entry_named(entries, path[0], 0) {
            None => None,
            Some(i) => match entries[i].node {
                Node::File(leaf) => if path.len() == 1 {
                    Some(leaf@)
                } else {
                    None
                },
                Node::Dir(sub) => if path.len() == 1 {
                    None
                } else {
                    file_at(sub.entries@, path.drop_first())
                },
            },
        }
    }
}

/// Whether a directory holds an entry, file or directory, at `path`.
pub open spec fn entry_at(entries: Seq<Entry>, path: PathView) -> bool
    decreases path.len(),
{
    if path.len() == 0 {
        false
    } else {
        match entry_named(entries, path[0], 0) {
            None => false,
            Some(i) => path.len() == 1 || match entries[i].node {
                Node::File(_) => false,
                Node::Dir(sub) => entry_at(sub.entries@, path.drop_first()),
            },
        }
    }
}

/// One path lies on the other: they are equal, or one continues the other.
pub open spec fn on_one_line(p: PathView, q: PathView) -> bool {
    p.is_prefix_of(q) || q.is_prefix_of(p)
}

/// The files of a tree after `leaf` was written at `path`, given the files before: the
/// new file at `path`; nothing above or below it; everything else as before.
pub open spec fn files_after_write(
    before: Map<PathView, LeafView>,
    path: PathView,
    leaf: LeafView,
) -> Map<PathView, LeafView> {
    Map::new(
        |q: PathView| q == path || (before.dom().contains(q) && !on_one_line(path, q)),
        |q: PathView|
            if q == path {
                leaf
            } else {
                before[q]
            },
    )
}

/// The files of a tree after the entry at `path` was removed, given the files before:
/// nothing at `path` or below it; everything else as before.
pub open spec fn files_after_remove(before: Map<PathView, LeafView>, path: PathView) -> Map<
    PathView,
    LeafView,
> {
    Map::new(
        |q: PathView| before.dom().contains(q) && !path.is_prefix_of(q),
        |q: PathView| before[q],
    )
}

impl View for Tree {
    type V = Map<PathView, LeafView>;

    /// A tree is what it holds: the files, by their paths.
    open spec fn view(&self) -> Map<PathView, LeafView> {
        Map::new(
            |q: PathView| file_at(self.entries@, q) is Some,
            |q: PathView| file_at(self.entries@, q)->0,
        )
    }
}

/// The file at `path` after a write of `leaf` at `target`, given the file there before.
pub open spec fn file_after_write(
    before: Option<LeafView>,
    target: PathView,
    leaf: LeafView,
    path: PathView,
) -> Option<LeafView> {
    if path == target {
        Some(leaf)
    } else if on_one_line(target, path) {
        None
    } else {
        before
    }
}

/// The index of the first entry called `name`.
pub(crate) fn find_child(entries: &Vec<Entry>, name: &String) -> (r: Option<usize>)
    ensures
        match r {
            Some(i) => entry_named(entries@, name@, 0) == Some(i as int) && i < entries.len(),
            None => entry_named(entries@, name@, 0) is None,
        },
{
    let mut i: usize = 0;
    while i < entries.len()
        invariant
            i <= entries.len(),
            entry_named(entries@, name@, 0) == entry_named(entries@, name@, i as int),
        decreases entries.len() - i,
    {
        if entries[i].name == *name {
            return Some(i);
        }
        i += 1;
    }
    None
}

/// Where the first entry called `name` is, entries before it have other names.
proof fn lemma_entry_named(entries: Seq<Entry>, name: Seq<char>, from: int)
    requires
        0 <= from,
    ensures
        match entry_named(entries, name, from) {
            Some(i) => from <= i < entries.len() && entries[i].name@ == name && forall|j: int|
                from <= j < i ==> entries[j].name@ != name,
            None => forall|j: int| from <= j < entries.len() ==> entries[j].name@ != name,
        },
    decreases entries.len() - from,
{
    if from < entries.len() && entries[from].name@ != name {
        lemma_entry_named(entries, name, from + 1);
    }
}

/// An entry with the name, and none before it with that name, is the first so called.
proof fn lemma_entry_named_is(entries: Seq<Entry>, name: Seq<char>, from: int, at: int)
    requires
        0 <= from <= at < entries.len(),
        entries[at].name@ == name,
        forall|j: int| from <= j < at ==> entries[j].name@ != name,
    ensures
        entry_named(entries, name, from) == Some(at),
    decreases at - from,
{
    if from < at {
        lemma_entry_named_is(entries, name, from + 1, at);
    }
}

/// No entry has the name: none is the first so called.
proof fn lemma_entry_named_none(entries: Seq<Entry>, name: Seq<char>, from: int)
    requires
        0 <= from,
        forall|j: int| from <= j < entries.len() ==> entries[j].name@ != name,
    ensures
        entry_named(entries, name, from) is None,
    decreases entries.len() - from,
{
    if from < entries.len() {
        lemma_entry_named_none(entries, name, from + 1);
    }
}

/// Replacing the first entry called `name` by another of that name, or adding one where
/// none had it, leaves the entries of other names where they were.
proof fn lemma_other_names_stay(
    before: Seq<Entry>,
    after: Seq<Entry>,
    name: Seq<char>,
    other: Seq<char>,
)
    requires
        other != name,
        match entry_named(before, name, 0) {
            Some(i) => after.len() == before.len() && after[i].name@ == name && forall|j: int|
                0 <= j < before.len() && j != i ==> after[j] == before[j],
            None => after.len() == before.len() + 1 && after[before.len() as int].name@ == name
                && forall|j: int| 0 <= j < before.len() ==> after[j] == before[j],
        },
    ensures
        entry_named(after, other, 0) == entry_named(before, other, 0),
        entry_named(before, other, 0) matches Some(k) ==> after[k] == before[k],
{
    lemma_entry_named(before, name, 0);
    lemma_entry_named(before, other, 0);
    match entry_named(before, other, 0) {
        Some(k) => {
            lemma_entry_named_is(after, other, 0, k);
        },
        None => {
            lemma_entry_named_none(after, other, 0);
        },
    }
}

/// Writes `leaf` at `path[depth..]` below a directory. Returns the directory's new
/// entries, and whether they hold anything that the old ones did not.
fn write_in(entries: Vec<Entry>, path: &Vec<String>, depth: usize, leaf: &Leaf) -> (r: (
    Vec<Entry>,
    bool,
))
    requires
        depth < path.len(),
    ensures
        forall|q: PathView| #[trigger]
            file_at(r.0@, q) == file_after_write(
                file_at(entries@, q),
                names(path@).subrange(depth as int, path.len() as int),
                leaf@,
                q,
            ),
        r.1 == (file_at(entries@, names(path@).subrange(depth as int, path.len() as int))
            != Some(leaf@)),
    decreases path.len() - depth,
{
    let ghost target = names(path@).subrange(depth as int, path.len() as int);
    let ghost name = path@[depth as int]@;
    let ghost before = entries@;
    assert(target[0] == name);
    let mut entries = entries;
    let found = find_child(&entries, &path[depth]);
    proof {
        lemma_entry_named(before, name, 0);
    }
    if depth + 1 == path.len() {
        assert(target =~= seq![name]);
        let changed = match found {
            Some(i) => {
                let same = match &entries[i].node {
                    Node::File(old) => old.id == leaf.id && old.mode == leaf.mode,
                    Node::Dir(_) => false,
                };
                if !same {
                    entries.set(
                        i,
                        Entry { name: path[depth].clone(), node: Node::File(leaf.clone()) },
                    );
                }
                !same
            },
            None => {
                entries.push(Entry { name: path[depth].clone(), node: Node::File(leaf.clone()) });
                true
            },
        };
        proof {
            let after = entries@;
            assert forall|q: PathView| #[trigger]
                file_at(after, q) == file_after_write(file_at(before, q), target, leaf@, q) by {
                if q.len() > 0 {
                    if q[0] == name {
                        if changed {
                            match found {
                                Some(i) => {
                                    lemma_entry_named_is(after, name, 0, i as int);
                                },
                                None => {
                                    lemma_entry_named_is(after, name, 0, before.len() as int);
                                },
                            }
                        }
                        if q.len() == 1 {
                            assert(q =~= target);
                        } else {
                            assert(target.is_prefix_of(q));
                        }
                    } else {
                        if changed {
                            lemma_other_names_stay(before, after, name, q[0]);
                        }
                        assert(!on_one_line(target, q)) by {
                            assert(target[0] != q[0]);
                        }
                    }
                } else {
                    assert(q.is_prefix_of(target));
                }
            }
        }
        (entries, changed)
    } else {
        let ghost rest = names(path@).subrange(depth + 1, path.len() as int);
        assert(target.drop_first() =~= rest);
        let (below, existed): (Vec<Entry>, bool) = match found {
            Some(i) => {
                let entry = entries.remove(i);
                match entry.node {
                    Node::Dir(sub) => (sub.entries, true),
                    Node::File(_) => (Vec::new(), false),
                }
            },
            None => (Vec::new(), false),
        };
        let ghost below_before = below@;
        let (written, changed_below) = write_in(below, path, depth + 1, leaf);
        let entry = Entry { name: path[depth].clone(), node: Node::Dir(Tree { entries: written }) };
        match found {
            Some(i) => {
                entries.insert(i, entry);
            },
            None => {
                entries.push(entry);
            },
        }
        proof {
            let after = entries@;
            let at = match found {
                Some(i) => i as int,
                None => before.len() as int,
            };
            lemma_entry_named_is(after, name, 0, at);
            assert(!existed ==> below_before =~= Seq::<Entry>::empty());
            assert forall|q: PathView| #[trigger]
                file_at(after, q) == file_after_write(file_at(before, q), target, leaf@, q) by {
                if q.len() > 0 {
                    if q[0] == name {
                        if q.len() == 1 {
                            assert(q.is_prefix_of(target));
                            assert(q != target);
                        } else {
                            let tail = q.drop_first();
                            assert(file_at(written@, tail) == file_after_write(
                                file_at(below_before, tail),
                                rest,
                                leaf@,
                                tail,
                            ));
                            assert((q == target) == (tail == rest)) by {
                                if tail == rest {
                                    assert forall|i: int| 0 <= i < q.len() implies q[i]
                                        == target[i] by {
                                        if i > 0 {
                                            assert(q[i] == tail[i - 1]);
                                            assert(target[i] == rest[i - 1]);
                                        }
                                    }
                                    assert(q =~= target);
                                }
                            }
                            assert(on_one_line(target, q) == on_one_line(rest, tail)) by {
                                lemma_line_below(target, q);
                            }
                        }
                    } else {
                        lemma_other_names_stay(before, after, name, q[0]);
                        assert(!on_one_line(target, q)) by {
                            assert(target[0] != q[0]);
                        }
                    }
                } else {
                    assert(q.is_prefix_of(target));
                }
            }
        }
        (entries, changed_below)
    }
}

/// Two paths that start with the same name lie on one line exactly when their
/// continuations do.
proof fn lemma_line_below(p: PathView, q: PathView)
    requires
        p.len() > 0,
        q.len() > 0,
        p[0] == q[0],
    ensures
        on_one_line(p, q) == on_one_line(p.drop_first(), q.drop_first()),
        p.is_prefix_of(q) == p.drop_first().is_prefix_of(q.drop_first()),
{
    let pt = p.drop_first();
    let qt = q.drop_first();
    if p.is_prefix_of(q) {
        assert(pt =~= qt.subrange(0, pt.len() as int)) by {
            assert(p == q.subrange(0, p.len() as int));
            assert forall|i: int| 0 <= i < pt.len() implies pt[i] == qt[i] by {
                assert(p[i + 1] == q.subrange(0, p.len() as int)[i + 1]);
            }
        }
    }
    if pt.is_prefix_of(qt) {
        assert(p =~= q.subrange(0, p.len() as int)) by {
            assert(pt == qt.subrange(0, pt.len() as int));
            assert forall|i: int| 0 <= i < p.len() implies p[i] == q[i] by {
                if i > 0 {
                    assert(pt[i - 1] == qt.subrange(0, pt.len() as int)[i - 1]);
                }
            }
        }
    }
    if q.is_prefix_of(p) {
        assert(qt =~= pt.subrange(0, qt.len() as int)) by {
            assert(q == p.subrange(0, q.len() as int));
            assert forall|i: int| 0 <= i < qt.len() implies qt[i] == pt[i] by {
                assert(q[i + 1] == p.subrange(0, q.len() as int)[i + 1]);
            }
        }
    }
    if qt.is_prefix_of(pt) {
        assert(q =~= p.subrange(0, q.len() as int)) by {
            assert(qt == pt.subrange(0, qt.len() as int));
            assert forall|i: int| 0 <= i < q.len() implies q[i] == p[i] by {
                if i > 0 {
                    assert(qt[i - 1] == pt.subrange(0, qt.len() as int)[i - 1]);
                }
            }
        }
    }
}

/// Removing an entry leaves the first entry of any other name what it was.
proof fn lemma_removal_keeps_others(before: Seq<Entry>, at: int, other: Seq<char>)
    requires
        0 <= at < before.len(),
        before[at].name@ != other,
    ensures
        match entry_named(before, other, 0) {
            Some(k) => entry_named(before.remove(at), other, 0) matches Some(k2)
                && before.remove(at)[k2] == before[k],
            None => entry_named(before.remove(at), other, 0) is None,
        },
{
    let after = before.remove(at);
    lemma_entry_named(before, other, 0);
    match entry_named(before, other, 0) {
        Some(k) => {
            let k2 = if k < at {
                k
            } else {
                k - 1
            };
            lemma_entry_named_is(after, other, 0, k2);
        },
        None => {
            lemma_entry_named_none(after, other, 0);
        },
    }
}

/// Removes every entry called `name`.
fn drop_named(entries: Vec<Entry>, name: &String) -> (r: Vec<Entry>)
    ensures
        entry_named(r@, name@, 0) is None,
        forall|other: Seq<char>|
            other != name@ ==> match #[trigger] entry_named(entries@, other, 0) {
                Some(k) => entry_named(r@, other, 0) matches Some(k2) && r@[k2] == entries@[k],
                None => entry_named(r@, other, 0) is None,
            },
{
    let ghost before = entries@;
    let mut entries = entries;
    let mut i: usize = entries.len();
    while i > 0
        invariant
            i <= entries.len(),
            forall|j: int| i <= j < entries.len() ==> entries@[j].name@ != name@,
            forall|other: Seq<char>|
                other != name@ ==> match #[trigger] entry_named(before, other, 0) {
                    Some(k) => entry_named(entries@, other, 0) matches Some(k2) && entries@[k2]
                        == before[k],
                    None => entry_named(entries@, other, 0) is None,
                },
        decreases i,
    {
        i -= 1;
        if entries[i].name == *name {
            let ghost held = entries@;
            entries.remove(i);
            proof {
                assert forall|other: Seq<char>| other != name@ implies match #[trigger] entry_named(
                    before,
                    other,
                    0,
                ) {
                    Some(k) => entry_named(entries@, other, 0) matches Some(k2) && entries@[k2]
                        == before[k],
                    None => entry_named(entries@, other, 0) is None,
                } by {
                    lemma_removal_keeps_others(held, i as int, other);
                }
            }
        }
    }
    proof {
        lemma_entry_named_none(entries@, name@, 0);
    }
    entries
}

/// Removes what stands at `path[depth..]` below a directory. Returns the directory's new
/// entries, and whether the old ones held an entry there.
fn remove_in(entries: Vec<Entry>, path: &Vec<String>, depth: usize) -> (r: (Vec<Entry>, bool))
    requires
        depth < path.len(),
    ensures
        forall|q: PathView| #[trigger]
            file_at(r.0@, q) == (if names(path@).subrange(
                depth as int,
                path.len() as int,
            ).is_prefix_of(q) {
                None
            } else {
                file_at(entries@, q)
            }),
        r.1 == entry_at(entries@, names(path@).subrange(depth as int, path.len() as int)),
    decreases path.len() - depth,
{
    let ghost target = names(path@).subrange(depth as int, path.len() as int);
    let ghost name = path@[depth as int]@;
    let ghost before = entries@;
    assert(target[0] == name);
    let found = find_child(&entries, &path[depth]);
    proof {
        lemma_entry_named(before, name, 0);
    }
    match found {
        None => {
            proof {
                assert forall|q: PathView| target.is_prefix_of(q) implies file_at(before, q)
                    is None by {
                    assert(q[0] == q.subrange(0, target.len() as int)[0]);
                }
            }
            (entries, false)
        },
        Some(i) => {
            if depth + 1 == path.len() {
                assert(target =~= seq![name]);
                let kept = drop_named(entries, &path[depth]);
                proof {
                    assert forall|q: PathView| #[trigger]
                        file_at(kept@, q) == (if target.is_prefix_of(q) {
                            None
                        } else {
                            file_at(before, q)
                        }) by {
                        if q.len() > 0 {
                            if q[0] == name {
                                assert(target =~= q.subrange(0, 1));
                            } else {
                                assert(!target.is_prefix_of(q)) by {
                                    if target.is_prefix_of(q) {
                                        assert(q[0] == q.subrange(0, target.len() as int)[0]);
                                    }
                                }
                                // Entries of other names stand as they stood.
                                match entry_named(before, q[0], 0) {
                                    Some(_) => {
                                        assert(entry_named(kept@, q[0], 0) is Some);
                                    },
                                    None => {
                                        assert(entry_named(kept@, q[0], 0) is None);
                                    },
                                }
                            }
                        }
                    }
                }
                (kept, true)
            } else {
                let ghost rest = names(path@).subrange(depth + 1, path.len() as int);
                assert(target.drop_first() =~= rest);
                let is_dir = match &entries[i].node {
                    Node::Dir(_) => true,
                    Node::File(_) => false,
                };
                if !is_dir {
                    proof {
                        assert forall|q: PathView| target.is_prefix_of(q) implies file_at(
                            before,
                            q,
                        ) is None by {
                            assert(q[0] == q.subrange(0, target.len() as int)[0]);
                            assert(q.len() >= 2);
                        }
                    }
                    return (entries, false);
                }
                let mut entries = entries;
                let entry = entries.remove(i);
                let below = match entry.node {
                    Node::Dir(sub) => sub.entries,
                    Node::File(_) => Vec::new(),
                };
                let ghost below_before = below@;
                let (kept, removed) = remove_in(below, path, depth + 1);
                let entry = Entry { name: entry.name, node: Node::Dir(Tree { entries: kept }) };
                entries.insert(i, entry);
                proof {
                    let after = entries@;
                    lemma_entry_named_is(after, name, 0, i as int);
                    assert forall|q: PathView| #[trigger]
                        file_at(after, q) == (if target.is_prefix_of(q) {
                            None
                        } else {
                            file_at(before, q)
                        }) by {
                        if q.len() > 0 {
                            if q[0] == name {
                                if q.len() == 1 {
                                    assert(!target.is_prefix_of(q));
                                } else {
                                    let tail = q.drop_first();
                                    assert(file_at(kept@, tail) == (if rest.is_prefix_of(tail) {
                                        None
                                    } else {
                                        file_at(below_before, tail)
                                    }));
                                    lemma_line_below(target, q);
                                }
                            } else {
                                lemma_other_names_stay(before, after, name, q[0]);
                                assert(!target.is_prefix_of(q)) by {
                                    if target.is_prefix_of(q) {
                                        assert(q[0] == q.subrange(0, target.len() as int)[0]);
                                    }
                                }
                            }
                        }
                    }
                }
                (entries, removed)
            }
        },
    }
}

/// The file at `path[depth..]` below a directory.
fn read_in(entries: &Vec<Entry>, path: &Vec<String>, depth: usize) -> (r: Option<Leaf>)
    requires
        depth < path.len(),
    ensures
        match r {
            Some(leaf) => file_at(
                entries@,
                names(path@).subrange(depth as int, path.len() as int),
            ) == Some(leaf@),
            None => file_at(entries@, names(path@).subrange(depth as int, path.len() as int))
                is None,
        },
    decreases path.len() - depth,
{
    let ghost target = names(path@).subrange(depth as int, path.len() as int);
    assert(target[0] == path@[depth as int]@);
    assert(target.drop_first() =~= names(path@).subrange(depth + 1, path.len() as int));
    match find_child(entries, &path[depth]) {
        None => None,
        Some(i) => match &entries[i].node {
            Node::File(leaf) => if depth + 1 == path.len() {
                Some(leaf.clone())
            } else {
                None
            },
            Node::Dir(sub) => if depth + 1 == path.len() {
                None
            } else {
                read_in(&sub.entries, path, depth + 1)
            },
        },
    }
}

/// The names that a path spells: a slash ends one name and starts the next, so a path
/// without a slash is one name, and an empty path is one empty name.
pub open spec fn segments(path: Seq<char>) -> PathView
    decreases path.len(),
{
    if path.len() == 0 {
        seq![Seq::<char>::empty()]
    } else {
        let before = segments(path.drop_last());
        if path.last() == '/' {
            before.push(Seq::<char>::empty())
        } else {
            before.drop_last().push(before.last().push(path.last()))
        }
    }
}

/// Splits a path at its slashes.
pub fn split_path(path: &str) -> (r: Vec<String>)
    ensures
        names(r@) == segments(path@),
        r.len() >= 1,
{
    let text = chars_of(path);
    let mut done: Vec<String> = Vec::new();
    let mut current = String::new();
    let mut i: usize = 0;
    while i < text.len()
        invariant
            i <= text.len(),
            names(done@).push(current@) == segments(text@.take(i as int)),
        decreases text.len() - i,
    {
        let ghost so_far = text@.take(i as int);
        let ghost next = text@.take(i + 1);
        assert(next.drop_last() =~= so_far);
        assert(next.last() == text@[i as int]);
        let ghost held = names(done@).push(current@);
        if text[i] == '/' {
            done.push(current);
            current = String::new();
            assert(names(done@).push(current@) =~= held.push(Seq::<char>::empty()));
        } else {
            current.push(text[i]);
            assert(names(done@).push(current@) =~= held.drop_last().push(
                held.last().push(text@[i as int]),
            ));
        }
        i += 1;
    }
    assert(text@.take(i as int) =~= text@);
    let ghost held = names(done@).push(current@);
    done.push(current);
    assert(names(done@) =~= held);
    done
}

impl Tree {
    /// The empty tree: it has no entry, neither file nor directory, and so holds no file.
    pub fn new() -> (t: Tree)
        ensures
            t.entries@ == Seq::<Entry>::empty(),
            t@ == Map::<PathView, LeafView>::empty(),
    {
        let t = Tree { entries: Vec::new() };
        assert(t@ =~= Map::<PathView, LeafView>::empty());
        t
    }

    /// The file at `path`, if the tree holds one there.
    pub fn read(&self, path: &str) -> (r: Option<Leaf>)
        ensures
            match r {
                Some(leaf) => self@.dom().contains(segments(path@)) && self@[segments(path@)]
                    == leaf@,
                None => !self@.dom().contains(segments(path@)),
            },
    {
        let parts = split_path(path);
        assert(names(parts@).subrange(0, parts.len() as int) =~= names(parts@));
        read_in(&self.entries, &parts, 0)
    }

    /// The tree with `leaf` at `path`, and whether that differs from this tree. Directories
    /// on the way are made where they are missing; a file that stands in the way of one
    /// gives way to it; whatever stood at `path` is replaced.
    pub fn write(self, path: &str, leaf: &Leaf) -> (r: (Tree, bool))
        ensures
            r.0@ == files_after_write(self@, segments(path@), leaf@),
            r.1 == !(self@.dom().contains(segments(path@)) && self@[segments(path@)] == leaf@),
            !r.1 ==> r.0@ == self@,
    {
        let parts = split_path(path);
        let ghost target = segments(path@);
        assert(names(parts@).subrange(0, parts.len() as int) =~= target);
        let (entries, changed) = write_in(self.entries, &parts, 0, leaf);
        let tree = Tree { entries };
        proof {
            assert forall|q: PathView|
                tree@.dom().contains(q) == files_after_write(self@, target, leaf@).dom().contains(
                    q,
                ) by {
                assert(file_at(tree.entries@, q) == file_after_write(
                    file_at(self.entries@, q),
                    target,
                    leaf@,
                    q,
                ));
            }
            assert forall|q: PathView| tree@.dom().contains(q) implies tree@[q]
                == files_after_write(self@, target, leaf@)[q] by {
                assert(file_at(tree.entries@, q) == file_after_write(
                    file_at(self.entries@, q),
                    target,
                    leaf@,
                    q,
                ));
            }
            assert(tree@ =~= files_after_write(self@, target, leaf@));
            if !changed {
                lemma_file_stands_alone(self.entries@, target);
                assert(tree@ =~= self@);
            }
        }
        (tree, changed)
    }

    /// The tree without what stands at `path`, file or directory, and whether this tree
    /// held an entry there. Where the entry or a directory on the way is missing, nothing
    /// changes.
    pub fn remove(self, path: &str) -> (r: (Tree, bool))
        ensures
            r.0@ == files_after_remove(self@, segments(path@)),
            r.1 == entry_at(self.entries@, segments(path@)),
            !r.1 ==> r.0@ == self@,
    {
        let parts = split_path(path);
        let ghost target = segments(path@);
        assert(names(parts@).subrange(0, parts.len() as int) =~= target);
        let (entries, removed) = remove_in(self.entries, &parts, 0);
        let tree = Tree { entries };
        proof {
            assert forall|q: PathView|
                tree@.dom().contains(q) == files_after_remove(self@, target).dom().contains(
                    q,
                ) by {
                assert(file_at(tree.entries@, q) == (if target.is_prefix_of(q) {
                    None
                } else {
                    file_at(self.entries@, q)
                }));
            }
            assert forall|q: PathView| tree@.dom().contains(q) implies tree@[q]
                == files_after_remove(self@, target)[q] by {
                assert(file_at(tree.entries@, q) == (if target.is_prefix_of(q) {
                    None
                } else {
                    file_at(self.entries@, q)
                }));
            }
            assert(tree@ =~= files_after_remove(self@, target));
            if !removed {
                lemma_no_entry_no_files(self.entries@, target);
                assert(tree@ =~= self@);
            }
        }
        (tree, removed)
    }
}

/// Where a tree holds no entry, it holds no file there or below.
pub proof fn lemma_no_entry_no_files(entries: Seq<Entry>, path: PathView)
    requires
        path.len() > 0,
        !entry_at(entries, path),
    ensures
        forall|q: PathView| path.is_prefix_of(q) ==> file_at(entries, q) is None,
    decreases path.len(),
{
    assert forall|q: PathView| path.is_prefix_of(q) implies file_at(entries, q) is None by {
        assert(q[0] == q.subrange(0, path.len() as int)[0]);
        match entry_named(entries, path[0], 0) {
            None => {},
            Some(i) => {
                match entries[i].node {
                    Node::File(_) => {},
                    Node::Dir(sub) => {
                        lemma_no_entry_no_files(sub.entries@, path.drop_first());
                        lemma_line_below(path, q);
                    },
                }
            },
        }
    }
}

/// Where a tree holds a file, it holds no file above it or below it.
pub proof fn lemma_file_stands_alone(entries: Seq<Entry>, path: PathView)
    requires
        file_at(entries, path) is Some,
    ensures
        forall|q: PathView| on_one_line(path, q) && q != path ==> file_at(entries, q) is None,
    decreases path.len(),
{
    assert forall|q: PathView| on_one_line(path, q) && q != path implies file_at(entries, q)
        is None by {
        if q.len() > 0 {
            assert(q[0] == path[0]) by {
                if path.is_prefix_of(q) {
                    assert(path[0] == q.subrange(0, path.len() as int)[0]);
                } else {
                    assert(q[0] == path.subrange(0, q.len() as int)[0]);
                }
            }
            lemma_line_below(path, q);
            let i = entry_named(entries, path[0], 0)->0;
            match entries[i].node {
                Node::File(_) => {
                    assert(path.len() == 1);
                    if q.len() == 1 {
                        assert(q =~= path);
                    }
                },
                Node::Dir(sub) => {
                    if q.len() > 1 {
                        lemma_file_stands_alone(sub.entries@, path.drop_first());
                        assert(on_one_line(path.drop_first(), q.drop_first()));
                        if q.drop_first() == path.drop_first() {
                            assert forall|k: int| 0 <= k < q.len() implies q[k] == path[k] by {
                                if k > 0 {
                                    assert(q[k] == q.drop_first()[k - 1]);
                                    assert(path[k] == path.drop_first()[k - 1]);
                                }
                            }
                            assert(q =~= path);
                        }
                    }
                },
            }
        }
    }
}

} // verus!
