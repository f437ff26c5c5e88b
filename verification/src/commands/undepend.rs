//! itack undepend command.

use crate::commands::depend::{id_list, push_id_list};
use crate::domain::issue::{remaining_dependencies, Issue, IssueView};
use crate::text::{decimal, push_decimal};
use vstd::prelude::*;
use vstd::string::StringExecFns;

verus! {

/// Arguments for the undepend command.
pub struct UndependArgs {
    pub id: u32,
    pub deps: Vec<u32>,
}

/// The commit message of removed dependencies.
pub open spec fn undepend_message(id: u32, deps: Seq<u32>) -> Seq<char> {
    "Remove dependencies "@ + id_list(deps) + " from issue #"@ + decimal(id as nat)
}

/// Remove dependencies from an issue: those among `args.deps`; the others stay in their
/// order. Returns the commit message.
pub fn run(args: &UndependArgs, issue: &mut Issue) -> (message: String)
    ensures
        message@ == undepend_message(args.id, args.deps@),
        final(issue)@ == (IssueView {
            depends_on: remaining_dependencies(old(issue)@.depends_on, args.deps@),
            ..old(issue)@
        }),
{
    issue.remove_dependencies(&args.deps);
    let mut message = "Remove dependencies ".to_owned();
    push_id_list(&mut message, &args.deps);
    message.append(" from issue #");
    push_decimal(&mut message, args.id);
    message
}

} // verus!
