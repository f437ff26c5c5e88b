//! Bringing the checkout in step with a commit or with the tip it is on.
//!
//! The working directory is a view that can be thrown away: after a change that went to
//! the data branch alone, a path in it is put back to what the checked-out tip holds.

use crate::domain::tree::{segments, Leaf, Tree};
use crate::error::ItackError;
use vstd::prelude::*;

verus! {

/// What to do next when a commit is picked onto the checkout.
#[derive(Debug, PartialEq, Eq)]
pub enum PickStep {
    /// The checkout has no commit yet: check out the tree of the picked commit and make
    /// a first commit without parents from it.
    BecomeCommit,
    /// Apply the changes of the picked commit to the index and the working directory,
    /// and report whether they conflict.
    Apply,
    /// The changes applied cleanly: commit them on the checked-out branch.
    Commit,
    /// The changes conflict: discard what was applied, so that the working directory is
    /// clean again, and fail.
    Abort(ItackError),
}

/// What to do with a path of the working directory.
#[derive(Debug, PartialEq, Eq)]
pub enum WorkingFileAction {
    /// Write the content that the checked-out tip holds at the path.
    Restore(Leaf),
    /// Delete the file: the checked-out tip holds none at the path.
    Delete,
}

/// The next step of picking `commit` onto the checkout. `head` is the commit that is
/// checked out, if there is one; `conflicts` is what applying the changes gave, once they
/// were applied.
pub fn cherry_pick(commit: &str, head: Option<&str>, conflicts: Option<bool>) -> (step: PickStep)
    ensures
        head is None ==> step == PickStep::BecomeCommit,
        head is Some && conflicts is None ==> step == PickStep::Apply,
        head is Some && conflicts == Some(false) ==> step == PickStep::Commit,
        head is Some && conflicts == Some(true) ==> (step matches PickStep::Abort(
            ItackError::CherryPickConflict(c),
        ) && c@ == commit@),
{
    match head {
        None => PickStep::BecomeCommit,
        Some(_) => match conflicts {
            None => PickStep::Apply,
            Some(false) => PickStep::Commit,
            Some(true) => PickStep::Abort(ItackError::CherryPickConflict(commit.to_owned())),
        },
    }
}

/// What to do with `path` in the working directory after a change that went to the data
/// branch alone: restore what the checked-out tip holds there, or delete the file where
/// the tip holds none or nothing is checked out.
pub fn cleanup_working_file(head: Option<&Tree>, path: &str) -> (action: WorkingFileAction)
    ensures
        match action {
            WorkingFileAction::Restore(leaf) => head matches Some(tree) && tree@.dom().contains(
                segments(path@),
            ) && tree@[segments(path@)] == leaf@,
            WorkingFileAction::Delete => head matches Some(tree) ==> !tree@.dom().contains(
                segments(path@),
            ),
        },
{
    match head {
        None => WorkingFileAction::Delete,
        Some(tree) => match tree.read(path) {
            Some(leaf) => WorkingFileAction::Restore(leaf),
            None => WorkingFileAction::Delete,
        },
    }
}

} // verus!
