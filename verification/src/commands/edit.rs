//! itack edit command.

use crate::text::{decimal, numbered};
use vstd::prelude::*;

verus! {

/// Arguments for the edit command.
pub struct EditArgs {
    pub id: u32,
    pub message: Option<String>,
}

/// The commit message of an edit: the one given, or else one that names the issue.
pub open spec fn edit_message(id: u32, given: Option<String>) -> Seq<char> {
    match given {
        Some(message) => message@,
        None => "Edit issue #"@ + decimal(id as nat),
    }
}

/// Where an edit takes place.
#[derive(Debug, Clone, Copy, PartialEq, Eq, Structural)]
pub enum EditPlace {
    /// Data-only mode: the record is read from the data branch into a temporary file.
    TemporaryFile,
    /// Merged mode: the record is edited where it lies in the working directory.
    WorkingCopy,
}

/// Open an issue in the editor: the commit message for what the editor leaves, and where
/// the editor works, which depends on whether a merge branch is configured.
pub fn run(args: EditArgs, merge_branch_set: bool) -> (r: (String, EditPlace))
    ensures
        r.0@ == edit_message(args.id, args.message),
        r.1 == (if merge_branch_set {
            EditPlace::WorkingCopy
        } else {
            EditPlace::TemporaryFile
        }),
{
    let message = match args.message {
        Some(message) => message,
        None => {
            proof {
                reveal_strlit("");
            }
            let message = numbered("Edit issue #", args.id, "");
            assert(message@ =~= "Edit issue #"@ + decimal(args.id as nat));
            message
        },
    };
    let place = if merge_branch_set {
        EditPlace::WorkingCopy
    } else {
        EditPlace::TemporaryFile
    };
    (message, place)
}

} // verus!
