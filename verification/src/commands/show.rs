//! itack show command.

use crate::domain::tree::{Leaf, Tree};
use crate::error::ItackError;
use crate::output::OutputFormat;
use crate::storage::records::{load_issue_from_data_branch, record_on_branch};
use vstd::prelude::*;

verus! {

/// Arguments for the show command.
pub struct ShowArgs {
    pub id: u32,
    pub format: OutputFormat,
}

/// Show an issue: where its record is on the data branch, which is the source of truth.
pub fn run(args: &ShowArgs, tip: Option<&Tree>) -> (r: Result<(String, Leaf), ItackError>)
    ensures
        match record_on_branch(tip, args.id) {
            Some((path, leaf)) => r matches Ok((p, l)) && p@ == path && l@ == leaf,
            None => r == Err::<(String, Leaf), ItackError>(ItackError::IssueNotFound(args.id)),
        },
{
    load_issue_from_data_branch(tip, args.id)
}

} // verus!
