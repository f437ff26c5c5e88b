//! itack search command.

use crate::output::OutputFormat;
use crate::storage::records::{keep_flagged, lemma_flagged_is_filter, IssueInfo};
use crate::text::{first_occurrence, lowercase, lowercase_text, text_contains};
use vstd::prelude::*;

verus! {

/// Arguments for the search command.
pub struct SearchArgs {
    pub query: String,
    pub all_branches: bool,
    pub format: OutputFormat,
}

/// An issue matches a query when its title or its body holds the query, both taken in
/// lower case.
pub open spec fn matches_query(info: IssueInfo, query: Seq<char>) -> bool {
    first_occurrence(lowercase_text(info.title@), 0, lowercase_text(query)) is Some
        || first_occurrence(lowercase_text(info.body@), 0, lowercase_text(query)) is Some
}

/// Whether a title or a body holds a query, all three in lower case already.
pub fn holds_query(title: &str, body: &str, query: &str) -> (r: bool)
    ensures
        r == (first_occurrence(title@, 0, query@) is Some || first_occurrence(body@, 0, query@)
            is Some),
{
    text_contains(title, query) || text_contains(body, query)
}

/// Search for issues by query: the issues that match it, in their order. A search across
/// all branches is not a search among the issues, and gives `None`.
pub fn run(args: &SearchArgs, issues: Vec<IssueInfo>) -> (found: Option<Vec<IssueInfo>>)
    ensures
        args.all_branches ==> found is None,
        !args.all_branches ==> (found matches Some(matching) && matching@ == issues@.filter(
            |info: IssueInfo| matches_query(info, args.query@),
        )),
{
    if args.all_branches {
        return None;
    }
    let query = lowercase(args.query.as_str());
    let mut flags: Vec<bool> = Vec::new();
    let mut i: usize = 0;
    while i < issues.len()
        invariant
            i <= issues.len(),
            flags.len() == i,
            query@ == lowercase_text(args.query@),
            forall|k: int| 0 <= k < i ==> flags@[k] == matches_query(issues@[k], args.query@),
        decreases issues.len() - i,
    {
        let title = lowercase(issues[i].title.as_str());
        let body = lowercase(issues[i].body.as_str());
        flags.push(holds_query(title.as_str(), body.as_str(), query.as_str()));
        i += 1;
    }
    proof {
        lemma_flagged_is_filter(
            issues@,
            flags@,
            |info: IssueInfo| matches_query(info, args.query@),
        );
    }
    Some(keep_flagged(issues, &flags))
}

} // verus!
