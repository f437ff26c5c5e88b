//! itack depend command.

use crate::domain::issue::{appended_dependencies, ascending_order, Issue, IssueView};
use crate::text::{decimal, push_decimal};
use vstd::prelude::*;
use vstd::string::StringExecFns;

verus! {

/// Arguments for the depend command.
pub struct DependArgs {
    pub id: u32,
    pub deps: Vec<u32>,
}

/// The identifiers as a commit message names them: each behind a `#`, with a comma and a
/// space between two.
pub open spec fn id_list(ids: Seq<u32>) -> Seq<char>
    decreases ids.len(),
{
    if ids.len() == 0 {
        Seq::empty()
    } else if ids.len() == 1 {
        seq!['#'] + decimal(ids[0] as nat)
    } else {
        id_list(ids.drop_last()) + seq![',', ' ', '#'] + decimal(ids.last() as nat)
    }
}

/// The commit message of added dependencies.
pub open spec fn depend_message(id: u32, deps: Seq<u32>) -> Seq<char> {
    "Add dependencies "@ + id_list(deps) + " to issue #"@ + decimal(id as nat)
}

/// Appends the identifiers to `out` as a commit message names them.
pub fn push_id_list(out: &mut String, ids: &Vec<u32>)
    ensures
        final(out)@ == old(out)@ + id_list(ids@),
{
    let ghost start = out@;
    let mut i: usize = 0;
    assert(ids@.take(0) =~= Seq::<u32>::empty());
    assert(out@ =~= start + id_list(ids@.take(0)));
    while i < ids.len()
        invariant
            i <= ids.len(),
            out@ == start + id_list(ids@.take(i as int)),
        decreases ids.len() - i,
    {
        let ghost so_far = ids@.take(i as int);
        let ghost next = ids@.take(i + 1);
        assert(next.drop_last() =~= so_far);
        assert(next.last() == ids@[i as int]);
        if i > 0 {
            out.push(',');
            out.push(' ');
        }
        out.push('#');
        push_decimal(out, ids[i]);
        proof {
            if i == 0 {
                assert(next[0] == ids@[0]);
                assert(id_list(so_far) =~= Seq::<char>::empty());
                assert(out@ =~= start + id_list(next));
            } else {
                assert(out@ =~= start + id_list(next));
            }
        }
        i += 1;
    }
    assert(ids@.take(i as int) =~= ids@);
}

/// Add dependencies to an issue: each of `args.deps` in turn, unless it is the issue
/// itself or is a dependency already; the dependencies then stand in ascending order.
/// Returns the commit message.
pub fn run(args: &DependArgs, issue: &mut Issue) -> (message: String)
    ensures
        message@ == depend_message(args.id, args.deps@),
        final(issue)@ == (IssueView {
            depends_on: ascending_order(
                appended_dependencies(old(issue)@.depends_on, old(issue).id, args.deps@),
            ),
            ..old(issue)@
        }),
{
    issue.add_dependencies(&args.deps);
    let mut message = "Add dependencies ".to_owned();
    push_id_list(&mut message, &args.deps);
    message.append(" to issue #");
    push_decimal(&mut message, args.id);
    message
}

} // verus!
