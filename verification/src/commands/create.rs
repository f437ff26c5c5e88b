//! itack create command.

use crate::domain::git::issues_dir_name;
use crate::domain::issue::{
    appended_dependencies, ascending_order, now, text_of, Issue, IssueView, Timestamp,
};
use crate::domain::project::{calendar_date, issue_file_name, Project};
use crate::error::ItackError;
use crate::storage::db::{exhausted_text, Database};
use crate::text::{decimal, numbered};
use vstd::prelude::*;
use vstd::string::StringExecFns;

verus! {

/// Arguments for the create command.
pub struct CreateArgs {
    pub title: String,
    pub epic: Option<String>,
    pub body: Option<String>,
    pub message: Option<String>,
    pub depends_on: Vec<u32>,
}

/// What a create command made: the record, its title and body, the path of its file on
/// the data branch, and the commit message.
#[derive(Debug, PartialEq, Eq)]
pub struct Created {
    pub issue: Issue,
    pub title: String,
    pub body: String,
    pub path: String,
    pub message: String,
}

/// The commit message of a creation: the one given, or else one that names the issue and
/// its title.
pub open spec fn create_message(id: u32, title: Seq<char>, given: Option<String>) -> Seq<char> {
    match given {
        Some(message) => message@,
        None => "Create issue #"@ + decimal(id as nat) + ": "@ + title,
    }
}

/// The text of the error for a creation time that has no calendar date.
pub open spec fn undated_text() -> Seq<char> {
    "Creation time has no calendar date"@
}

/// The record that a create command makes for the identifier `id` at the moment `at`.
pub open spec fn created_issue(args: CreateArgs, id: u32, at: Timestamp) -> IssueView {
    IssueView {
        depends_on: ascending_order(appended_dependencies(Seq::empty(), id, args.depends_on@)),
        ..IssueView::fresh(id, text_of(args.epic), at)
    }
}

/// Create a new issue at the moment `at`.
///
/// The ledger hands out the identifier. The record is open and unassigned, in the epic
/// given, with the dependencies given, less the issue itself and repetitions, in ascending
/// order. The body is the one given, or empty.
pub fn run_at(args: CreateArgs, db: &mut Database, at: Timestamp) -> (r: Result<
    Created,
    ItackError,
>)
    requires
        old(db).wf(),
    ensures
        final(db).wf(),
        match old(db)@.allocate() {
            None => r matches Err(ItackError::Other(text)) && text@ == exhausted_text()
                && final(db)@ == old(db)@,
            Some((id, after)) => final(db)@ == after && match calendar_date(at.secs, at.nanos) {
                None => r matches Err(ItackError::Other(text)) && text@ == undated_text(),
                Some(date) => r matches Ok(made) && {
                    &&& made.issue@ == created_issue(args, id, at)
                    &&& made.title@ == args.title@
                    &&& made.body@ == (match args.body {
                        Some(body) => body@,
                        None => Seq::<char>::empty(),
                    })
                    &&& made.path@ == issues_dir_name() + seq!['/'] + issue_file_name(date, id)
                    &&& made.message@ == create_message(id, args.title@, args.message)
                },
            },
        },
{
    let id = match db.next_issue_id() {
        Err(e) => {
            return Err(e);
        },
        Ok(id) => id,
    };
    let mut issue = Issue::at(id, at);
    issue.epic = args.epic;
    issue.add_dependencies(&args.depends_on);
    let path = match Project::issue_relative_path(id, &at) {
        None => {
            return Err(ItackError::Other("Creation time has no calendar date".to_owned()));
        },
        Some(path) => path,
    };
    let body = match args.body {
        Some(body) => body,
        None => String::new(),
    };
    let message = match args.message {
        Some(message) => message,
        None => {
            let mut message = numbered("Create issue #", id, ": ");
            message.append(args.title.as_str());
            message
        },
    };
    Ok(Created { issue, title: args.title, body, path, message })
}

/// Create a new issue now: as `run_at`, at the moment of the call.
pub fn run(args: CreateArgs, db: &mut Database) -> (r: Result<Created, ItackError>)
    requires
        old(db).wf(),
    ensures
        final(db).wf(),
        match old(db)@.allocate() {
            None => r matches Err(ItackError::Other(text)) && text@ == exhausted_text()
                && final(db)@ == old(db)@,
            Some((id, after)) => final(db)@ == after && match r {
                Ok(made) => {
                    &&& made.issue@ == created_issue(args, id, made.issue.created)
                    &&& made.title@ == args.title@
                    &&& made.body@ == (match args.body {
                        Some(body) => body@,
                        None => Seq::<char>::empty(),
                    })
                    &&& calendar_date(made.issue.created.secs, made.issue.created.nanos)
                        matches Some(date) && made.path@ == issues_dir_name() + seq!['/']
                        + issue_file_name(date, id)
                    &&& made.message@ == create_message(id, args.title@, args.message)
                },
                Err(e) => e matches ItackError::Other(text) && text@ == undated_text(),
            },
        },
{
    let at = now();
    run_at(args, db, at)
}

} // verus!
