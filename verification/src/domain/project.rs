//! Project context (paths, project id).

use crate::domain::config::{join_path, joined, Config};
use crate::domain::git::{in_records_dir, issues_dir_name};
use crate::domain::issue::{Issue, Timestamp};
use crate::error::ItackError;
use crate::storage::db::{views, Database, DatabaseView};
use crate::storage::metadata::Metadata;
use crate::text::{decimal_pad3, push_decimal_pad3};
use vstd::prelude::*;
use vstd::string::StringExecFns;

verus! {

/// The calendar date of a moment, as `chrono` writes it for the format `%Y-%m-%d`, or
/// nothing where `chrono` has no date for the moment.
pub uninterp spec fn calendar_date(secs: i64, nanos: u32) -> Option<Seq<char>>;

/// `chrono::DateTime::from_timestamp` followed by `format("%Y-%m-%d")`: the UTC date of
/// the moment, year, month and day, or `None` where the seconds or the nanoseconds are
/// outside of what `chrono` can hold. The same moment always gives the same date.
#[verifier::external_body]
fn date_text(at: &Timestamp) -> (r: Option<String>)
    ensures
        (match r {
            Some(date) => Some(date@),
            None => None,
        }) == calendar_date(at.secs, at.nanos),
{
    match chrono::DateTime::from_timestamp(at.secs, at.nanos) {
        Some(moment) => Some(moment.format("%Y-%m-%d").to_string()),
        None => None,
    }
}

/// The name of the record file of issue `id`, created on `date`.
pub open spec fn issue_file_name(date: Seq<char>, id: u32) -> Seq<char> {
    date + "-issue-"@ + decimal_pad3(id as nat) + ".md"@
}

/// The name of the ledger file of a project.
pub open spec fn db_file_name(project_id: Seq<char>) -> Seq<char> {
    project_id + ".db"@
}

/// Project context for itack operations.
#[derive(Debug, PartialEq, Eq)]
pub struct Project {
    /// Root directory of the git repository.
    pub repo_root: String,
    /// Path to .itack directory.
    pub itack_dir: String,
    /// Path to the ledger (in global config dir).
    pub db_path: String,
    /// Project metadata.
    pub metadata: Metadata,
    /// Global config.
    pub config: Config,
}

impl Project {
    /// Load the project context for the repository at `repo_root`.
    ///
    /// `itack_dir_exists` says whether the repository has a `.itack` directory, and
    /// `metadata` is what its `metadata.toml` holds, `None` where there is no such file:
    /// without either the project is not initialized. `global_dir` is the global
    /// configuration directory, without which the ledger has no place.
    pub fn discover(
        repo_root: &str,
        itack_dir_exists: bool,
        metadata: Option<Metadata>,
        config: Config,
        global_dir: Option<String>,
    ) -> (r: Result<Project, ItackError>)
        ensures
            !itack_dir_exists || metadata is None ==> r == Err::<Project, ItackError>(
                ItackError::NotInitialized,
            ),
            itack_dir_exists && metadata is Some && global_dir is None ==> (r matches Err(
                ItackError::Other(text),
            ) && text@ == "Could not determine home directory"@),
            itack_dir_exists && metadata is Some && global_dir is Some ==> (r matches Ok(p) && {
                &&& p.repo_root@ == repo_root@
                &&& p.itack_dir@ == joined(repo_root@, issues_dir_name())
                &&& p.db_path@ == joined(
                    global_dir->0@,
                    db_file_name(metadata->0.project_id@),
                )
                &&& p.metadata == metadata->0
                &&& p.config == config
            }),
    {
        if !itack_dir_exists {
            return Err(ItackError::NotInitialized);
        }
        let metadata = match metadata {
            None => {
                return Err(ItackError::NotInitialized);
            },
            Some(m) => m,
        };
        let db_path = match Project::db_path_for_project(global_dir, metadata.project_id.as_str()) {
            Err(e) => {
                return Err(e);
            },
            Ok(path) => path,
        };
        Ok(
            Project {
                repo_root: repo_root.to_owned(),
                itack_dir: join_path(repo_root, ".itack"),
                db_path,
                metadata,
                config,
            },
        )
    }

    /// Get the ledger path for a project ID: `<project id>.db` in the global
    /// configuration directory.
    pub fn db_path_for_project(global_dir: Option<String>, project_id: &str) -> (r: Result<
        String,
        ItackError,
    >)
        ensures
            match global_dir {
                Some(dir) => r matches Ok(path) && path@ == joined(dir@, db_file_name(project_id@)),
                None => r matches Err(ItackError::Other(text)) && text@
                    == "Could not determine home directory"@,
            },
    {
        match global_dir {
            None => Err(ItackError::Other("Could not determine home directory".to_owned())),
            Some(dir) => {
                let mut name = project_id.to_owned();
                name.append(".db");
                Ok(join_path(dir.as_str(), name.as_str()))
            },
        }
    }

    /// Check if a project is initialized: it has its `.itack` directory and, in it, its
    /// `metadata.toml`.
    pub fn is_initialized(itack_dir_exists: bool, metadata_exists: bool) -> (r: bool)
        ensures
            r == (itack_dir_exists && metadata_exists),
    {
        itack_dir_exists && metadata_exists
    }

    /// Open the ledger for this project.
    pub fn open_db(
        &self,
        parent_exists: bool,
        stored: Option<Database>,
        records: &Vec<Issue>,
    ) -> (r: Result<Database, ItackError>)
        requires
            stored matches Some(held) ==> held.wf(),
        ensures
            r matches Ok(db) ==> db.wf(),
            !parent_exists ==> (r matches Err(ItackError::DatabaseNotFound(p)) && p@
                == self.db_path@),
            parent_exists ==> (r matches Ok(db) && db@ == (match stored {
                Some(held) => held@.ensured(views(records@)),
                None => DatabaseView::rebuilt(views(records@)),
            })),
    {
        Database::open(self.db_path.as_str(), parent_exists, stored, records)
    }

    /// The name of the record file of issue `id`, created on `date`: for issue 1 of
    /// 2026-01-25, `2026-01-25-issue-001.md`.
    pub fn issue_file_name(date: &str, id: u32) -> (name: String)
        ensures
            name@ == issue_file_name(date@, id),
    {
        let mut name = date.to_owned();
        name.append("-issue-");
        push_decimal_pad3(&mut name, id);
        name.append(".md");
        name
    }

    /// Get the relative path to an issue file (e.g. `.itack/2026-01-25-issue-001.md`).
    /// Requires the creation date to generate the filename; a moment without a date has
    /// no path.
    pub fn issue_relative_path(id: u32, created: &Timestamp) -> (r: Option<String>)
        ensures
            match calendar_date(created.secs, created.nanos) {
                Some(date) => r matches Some(path) && path@ == issues_dir_name() + seq!['/']
                    + issue_file_name(date, id),
                None => r is None,
            },
    {
        match date_text(created) {
            None => None,
            Some(date) => {
                let name = Project::issue_file_name(date.as_str(), id);
                Some(in_records_dir(name.as_str()))
            },
        }
    }
}

} // verus!
