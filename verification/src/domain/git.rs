//! Operations on a branch without a checkout: commit a file, remove one, read one, and
//! find the record file of an issue.

use crate::domain::tree::{
    entry_at, entry_named, files_after_remove, files_after_write, find_child,
    lemma_file_stands_alone, segments, Entry, Leaf, LeafView, Node, PathView, Tree, BLOB_MODE,
};
use crate::error::ItackError;
use crate::text::{
    chars_of, decimal, decimal_pad3, has_at, occurs_at, push_decimal, push_decimal_pad3,
};
use vstd::prelude::*;
use vstd::string::StringExecFns;

verus! {

/// The tip of a branch: its commit and that commit's tree.
#[derive(Debug, PartialEq, Eq)]
pub struct Tip {
    pub commit: String,
    pub tree: Tree,
}

/// The commit that a write asks for: its tree, and its parent where the branch exists.
#[derive(Debug, PartialEq, Eq)]
pub struct CommitPlan {
    pub parent: Option<String>,
    pub tree: Tree,
}

/// The file entry that a write of the blob `id` stores.
pub open spec fn blob_leaf(id: Seq<char>) -> LeafView {
    LeafView { id, mode: BLOB_MODE }
}

/// A write is a no-op on a tree that holds the same file at the path already.
pub open spec fn write_is_noop(files: Map<PathView, LeafView>, path: PathView, leaf: LeafView)
    -> bool {
    files.dom().contains(path) && files[path] == leaf
}

/// Commit a file to a branch without checking it out.
///
/// `tip` is the branch as it stands, `None` where it does not exist yet; `blob_id` names
/// the content, which the caller has stored. Returns the commit to make: the tip's tree
/// with the file at `file_path`, parented on the tip, or parentless where the branch is
/// new. Returns `None` where the tree would be the tip's own tree.
pub fn commit_to_branch(tip: Option<Tip>, file_path: &str, blob_id: &str) -> (r: Option<
    CommitPlan,
>)
    ensures
        match tip {
            None => r matches Some(plan) && plan.parent is None && plan.tree@
                == files_after_write(
                Map::<PathView, LeafView>::empty(),
                segments(file_path@),
                blob_leaf(blob_id@),
            ),
            Some(t) => if write_is_noop(t.tree@, segments(file_path@), blob_leaf(blob_id@)) {
                r is None
            } else {
                r matches Some(plan) && plan.parent matches Some(p) && p@ == t.commit@
                    && plan.tree@ == files_after_write(
                    t.tree@,
                    segments(file_path@),
                    blob_leaf(blob_id@),
                )
            },
        },
{
    let leaf = Leaf { id: blob_id.to_owned(), mode: BLOB_MODE };
    match tip {
        None => {
            let (tree, _) = Tree::new().write(file_path, &leaf);
            Some(CommitPlan { parent: None, tree })
        },
        Some(t) => {
            let (tree, changed) = t.tree.write(file_path, &leaf);
            if changed {
                Some(CommitPlan { parent: Some(t.commit), tree })
            } else {
                None
            }
        },
    }
}

/// Remove what stands at a path of a branch without checking it out.
///
/// Returns the commit to make: the tip's tree without the entry at `file_path`, parented
/// on the tip. Returns `None`, a no-op, where the branch does not exist or holds no entry
/// at the path.
pub fn remove_from_branch(tip: Option<Tip>, file_path: &str) -> (r: Option<CommitPlan>)
    ensures
        match tip {
            None => r is None,
            Some(t) => if entry_at(t.tree.entries@, segments(file_path@)) {
                r matches Some(plan) && plan.parent matches Some(p) && p@ == t.commit@
                    && plan.tree@ == files_after_remove(t.tree@, segments(file_path@))
            } else {
                r is None
            },
        },
{
    match tip {
        None => None,
        Some(t) => {
            let (tree, removed) = t.tree.remove(file_path);
            if removed {
                Some(CommitPlan { parent: Some(t.commit), tree })
            } else {
                None
            }
        },
    }
}

/// Read a file from a branch without checkout.
///
/// A branch that does not exist is an error; a branch that holds no file at the path
/// gives `None`.
pub fn read_file_from_branch(tip: Option<&Tree>, branch_name: &str, file_path: &str) -> (r:
    Result<Option<Leaf>, ItackError>)
    ensures
        match tip {
            None => r matches Err(ItackError::BranchNotFound(b)) && b@ == branch_name@,
            Some(tree) => r matches Ok(found) && match found {
                Some(leaf) => tree@.dom().contains(segments(file_path@)) && tree@[segments(
                    file_path@,
                )] == leaf@,
                None => !tree@.dom().contains(segments(file_path@)),
            },
        },
{
    match tip {
        None => Err(ItackError::BranchNotFound(branch_name.to_owned())),
        Some(tree) => Ok(tree.read(file_path)),
    }
}

/// The directory that holds the record files.
pub open spec fn issues_dir_name() -> Seq<char> {
    ".itack"@
}

/// `s` ends with `suffix`.
pub open spec fn ends_with(s: Seq<char>, suffix: Seq<char>) -> bool {
    occurs_at(s, s.len() - suffix.len(), suffix)
}

/// How the name of the record file of issue `id` ends.
pub open spec fn issue_suffix(id: u32) -> Seq<char> {
    "-issue-"@ + decimal_pad3(id as nat) + ".md"@
}

/// The name that the record file of issue `id` had before names carried a date.
pub open spec fn legacy_name(id: u32) -> Seq<char> {
    decimal(id as nat) + ".md"@
}

/// The index of the first file entry at or after `from` whose name ends with `suffix`.
pub open spec fn file_ending(entries: Seq<Entry>, suffix: Seq<char>, from: int) -> Option<int>
    decreases entries.len() - from,
{
    if from < 0 || from >= entries.len() {
        None
    } else if entries[from].node is File && ends_with(entries[from].name@, suffix) {
        Some(from)
    } else {
        file_ending(entries, suffix, from + 1)
    }
}

/// The index of the first file entry at or after `from` that is called `name`.
pub open spec fn file_named(entries: Seq<Entry>, name: Seq<char>, from: int) -> Option<int>
    decreases entries.len() - from,
{
    if from < 0 || from >= entries.len() {
        None
    } else if entries[from].node is File && entries[from].name@ == name {
        Some(from)
    } else {
        file_named(entries, name, from + 1)
    }
}

/// The entries of the records directory of a tree, where it has one.
pub open spec fn record_entries(root: Seq<Entry>) -> Option<Seq<Entry>> {
    match entry_named(root, issues_dir_name(), 0) {
        Some(i) => match root[i].node {
            Node::Dir(sub) => Some(sub.entries@),
            Node::File(_) => None,
        },
        None => None,
    }
}

/// The name of the record file of issue `id` among the entries of the records directory:
/// the first file whose name ends with the issue's suffix; failing that, the first file
/// with the issue's legacy name.
pub open spec fn record_name(entries: Seq<Entry>, id: u32) -> Option<Seq<char>> {
    match file_ending(entries, issue_suffix(id), 0) {
        Some(i) => Some(entries[i].name@),
        None => match file_named(entries, legacy_name(id), 0) {
            Some(i) => Some(entries[i].name@),
            None => None,
        },
    }
}

/// The path of the record file of issue `id` in a tree.
pub open spec fn record_path(root: Seq<Entry>, id: u32) -> Option<Seq<char>> {
    match record_entries(root) {
        None => None,
        Some(entries) => match record_name(entries, id) {
            None => None,
            Some(name) => Some(issues_dir_name() + seq!['/'] + name),
        },
    }
}

/// Whether `name` ends with `suffix`.
fn name_ends_with(name: &str, suffix: &Vec<char>) -> (r: bool)
    ensures
        r == ends_with(name@, suffix@),
{
    let text = chars_of(name);
    if suffix.len() > text.len() {
        return false;
    }
    has_at(&text, text.len() - suffix.len(), suffix)
}

/// The tree of the records directory.
pub fn records_dir(root: &Tree) -> (r: Option<&Tree>)
    ensures
        match r {
            Some(dir) => record_entries(root.entries@) == Some(dir.entries@),
            None => record_entries(root.entries@) is None,
        },
{
    let name = ".itack".to_owned();
    match find_child(&root.entries, &name) {
        None => None,
        Some(i) => match &root.entries[i].node {
            Node::Dir(sub) => Some(sub),
            Node::File(_) => None,
        },
    }
}

/// Find the record file of an issue in a branch.
///
/// Looks in the records directory for a file whose name ends with the issue's suffix, such
/// as `-issue-007.md`, then for one with the legacy name, such as `7.md`. Returns the path
/// of the first match, or `None` where the branch does not exist or holds no such file.
#[verifier::loop_isolation(false)]
pub fn find_issue_file_in_branch(tip: Option<&Tree>, issue_id: u32) -> (r: Option<String>)
    ensures
        match r {
            Some(path) => tip matches Some(tree) && record_path(tree.entries@, issue_id) == Some(
                path@,
            ),
            None => tip matches Some(tree) ==> record_path(tree.entries@, issue_id) is None,
        },
{
    let tree = match tip {
        None => {
            return None;
        },
        Some(tree) => tree,
    };
    let dir = match records_dir(tree) {
        None => {
            return None;
        },
        Some(dir) => dir,
    };
    let mut suffix_text = "-issue-".to_owned();
    push_decimal_pad3(&mut suffix_text, issue_id);
    suffix_text.append(".md");
    let suffix = chars_of(suffix_text.as_str());
    let mut legacy = String::new();
    push_decimal(&mut legacy, issue_id);
    legacy.append(".md");
    assert(legacy@ =~= legacy_name(issue_id));
    let mut i: usize = 0;
    while i < dir.entries.len()
        invariant
            i <= dir.entries.len(),
            suffix@ == issue_suffix(issue_id),
            file_ending(dir.entries@, suffix@, 0) == file_ending(dir.entries@, suffix@, i as int),
        decreases dir.entries.len() - i,
    {
        let is_file = match &dir.entries[i].node {
            Node::File(_) => true,
            Node::Dir(_) => false,
        };
        if is_file && name_ends_with(dir.entries[i].name.as_str(), &suffix) {
            return Some(in_records_dir(dir.entries[i].name.as_str()));
        }
        i += 1;
    }
    let mut j: usize = 0;
    while j < dir.entries.len()
        invariant
            j <= dir.entries.len(),
            legacy@ == legacy_name(issue_id),
            file_ending(dir.entries@, issue_suffix(issue_id), 0) is None,
            file_named(dir.entries@, legacy@, 0) == file_named(dir.entries@, legacy@, j as int),
        decreases dir.entries.len() - j,
    {
        let is_file = match &dir.entries[j].node {
            Node::File(_) => true,
            Node::Dir(_) => false,
        };
        if is_file && dir.entries[j].name == legacy {
            return Some(in_records_dir(dir.entries[j].name.as_str()));
        }
        j += 1;
    }
    None
}

/// The path of the file called `name` in the records directory.
pub fn in_records_dir(name: &str) -> (path: String)
    ensures
        path@ == issues_dir_name() + seq!['/'] + name@,
{
    let mut path = ".itack".to_owned();
    path.push('/');
    path.append(name);
    assert(path@ =~= issues_dir_name() + seq!['/'] + name@);
    path
}

/// Writing what a write has just stored changes nothing: the second write is a no-op.
pub proof fn lemma_write_twice_is_noop(
    files: Map<PathView, LeafView>,
    path: PathView,
    leaf: LeafView,
)
    ensures
        write_is_noop(files_after_write(files, path, leaf), path, leaf),
{
}

/// A write that is a no-op leaves the files of a tree as they are.
pub proof fn lemma_noop_write_keeps_tree(tree: Tree, path: PathView, leaf: LeafView)
    requires
        write_is_noop(tree@, path, leaf),
    ensures
        files_after_write(tree@, path, leaf) == tree@,
{
    lemma_file_stands_alone(tree.entries@, path);
    assert(files_after_write(tree@, path, leaf) =~= tree@);
}

} // verus!
