//! Error type and exit codes.

pub mod exit_codes;

use crate::error::exit_codes::{CONFLICT, ERROR};
use crate::text::{decimal, push_decimal};
use vstd::prelude::*;
use vstd::string::StringExecFns;

verus! {

/// What can go wrong in an operation of the tracker.
#[derive(Debug, Clone, PartialEq, Eq)]
pub enum ItackError {
    NotInGitRepo,
    NotInitialized,
    IssueNotFound(u32),
    AlreadyClaimed(u32, String),
    NotClaimed(u32),
    AlreadyDone(u32),
    BranchNotFound(String),
    DataBranchNotFound(String),
    DataBranchEmpty(String),
    DatabaseNotFound(String),
    /// The ledger's store failed; the text is the store's own.
    Database(String),
    /// A file could not be read or written.
    Io(String),
    /// A record header could not be read or written.
    Yaml(String),
    /// A configuration file could not be read.
    TomlDe(String),
    /// A configuration file could not be written.
    TomlSer(String),
    /// A report could not be rendered.
    Json(String),
    /// The repository failed; the text is the repository's own.
    Git(String),
    MergeConflict(String, String),
    /// Picking the commit onto the checkout met conflicting changes.
    CherryPickConflict(String),
    InvalidStatus(String),
    EditorFailed(String),
    InvalidMarkdown(String),
    Other(String),
}

/// Result type of the tracker's operations.
pub type Result<T> = std::result::Result<T, ItackError>;

impl ItackError {
    /// The text shown to the user for this error.
    pub open spec fn message(self) -> Seq<char> {
        match self {
            ItackError::NotInGitRepo => "Not in a git repository"@,
            ItackError::NotInitialized => "Project not initialized. Run 'itack init' first."@,
            ItackError::IssueNotFound(id) => "Issue "@ + decimal(id as nat) + " not found"@,
            ItackError::AlreadyClaimed(id, who) => "Issue "@ + decimal(id as nat)
                + " is already claimed by "@ + who@,
            ItackError::NotClaimed(id) => "Issue "@ + decimal(id as nat) + " is not claimed"@,
            ItackError::AlreadyDone(id) => "Issue "@ + decimal(id as nat) + " is already done"@,
            ItackError::BranchNotFound(b) => "Branch '"@ + b@ + "' not found"@,
            ItackError::DataBranchNotFound(b) => "Data branch '"@ + b@
                + "' not found. Run 'itack init' to create it."@,
            ItackError::DataBranchEmpty(b) => "No .itack directory found on data branch '"@ + b@
                + "'. Run 'itack init' to repair."@,
            ItackError::DatabaseNotFound(p) => "Database not found at "@ + p@
                + ". Run 'itack init' to fix."@,
            ItackError::Database(s) => "Database error: "@ + s@,
            ItackError::Io(s) => "IO error: "@ + s@,
            ItackError::Yaml(s) => "YAML error: "@ + s@,
            ItackError::TomlDe(s) => "TOML deserialization error: "@ + s@,
            ItackError::TomlSer(s) => "TOML serialization error: "@ + s@,
            ItackError::Json(s) => "JSON error: "@ + s@,
            ItackError::Git(s) => "Git error: "@ + s@,
            ItackError::MergeConflict(source, target) => "Merge conflict merging '"@ + source@
                + "' into '"@ + target@ + "'"@,
            ItackError::CherryPickConflict(c) => "Cherry-pick of "@ + c@ + " has conflicts"@,
            ItackError::InvalidStatus(s) => "Invalid status: "@ + s@,
            ItackError::EditorFailed(s) => "Editor failed: "@ + s@,
            ItackError::InvalidMarkdown(s) => "Invalid markdown format: "@ + s@,
            ItackError::Other(s) => s@,
        }
    }

    /// The process exit code for this error: `CONFLICT` for a lost claim, `ERROR` otherwise.
    pub fn exit_code(&self) -> (code: u8)
        ensures
            code == (if self is AlreadyClaimed { CONFLICT } else { ERROR }),
    {
        match self {
            ItackError::AlreadyClaimed(_, _) => CONFLICT,
            _ => ERROR,
        }
    }

    /// Renders the error as the text shown to the user.
    pub fn to_string(&self) -> (s: String)
        ensures
            s@ == self.message(),
    {
        match self {
            ItackError::NotInGitRepo => "Not in a git repository".to_owned(),
            ItackError::NotInitialized => {
                "Project not initialized. Run 'itack init' first.".to_owned()
            },
            ItackError::IssueNotFound(id) => about_issue(*id, " not found"),
            ItackError::AlreadyClaimed(id, who) => {
                let mut s = about_issue(*id, " is already claimed by ");
                s.append(who.as_str());
                s
            },
            ItackError::NotClaimed(id) => about_issue(*id, " is not claimed"),
            ItackError::AlreadyDone(id) => about_issue(*id, " is already done"),
            ItackError::BranchNotFound(b) => around("Branch '", b.as_str(), "' not found"),
            ItackError::DataBranchNotFound(b) => around(
                "Data branch '",
                b.as_str(),
                "' not found. Run 'itack init' to create it.",
            ),
            ItackError::DataBranchEmpty(b) => around(
                "No .itack directory found on data branch '",
                b.as_str(),
                "'. Run 'itack init' to repair.",
            ),
            ItackError::DatabaseNotFound(p) => around(
                "Database not found at ",
                p.as_str(),
                ". Run 'itack init' to fix.",
            ),
            ItackError::Database(t) => prefixed("Database error: ", t.as_str()),
            ItackError::Io(t) => prefixed("IO error: ", t.as_str()),
            ItackError::Yaml(t) => prefixed("YAML error: ", t.as_str()),
            ItackError::TomlDe(t) => prefixed("TOML deserialization error: ", t.as_str()),
            ItackError::TomlSer(t) => prefixed("TOML serialization error: ", t.as_str()),
            ItackError::Json(t) => prefixed("JSON error: ", t.as_str()),
            ItackError::Git(t) => prefixed("Git error: ", t.as_str()),
            ItackError::MergeConflict(source, target) => {
                let mut s = around("Merge conflict merging '", source.as_str(), "' into '");
                s.append(target.as_str());
                s.append("'");
                s
            },
            ItackError::CherryPickConflict(c) => around(
                "Cherry-pick of ",
                c.as_str(),
                " has conflicts",
            ),
            ItackError::InvalidStatus(t) => prefixed("Invalid status: ", t.as_str()),
            ItackError::EditorFailed(t) => prefixed("Editor failed: ", t.as_str()),
            ItackError::InvalidMarkdown(t) => prefixed("Invalid markdown format: ", t.as_str()),
            ItackError::Other(t) => t.clone(),
        }
    }
}

/// `before`, then `rest`.
fn prefixed(before: &str, rest: &str) -> (s: String)
    ensures
        s@ == before@ + rest@,
{
    let mut s = before.to_owned();
    s.append(rest);
    s
}

/// `before`, then `middle`, then `after`.
fn around(before: &str, middle: &str, after: &str) -> (s: String)
    ensures
        s@ == before@ + middle@ + after@,
{
    let mut s = before.to_owned();
    s.append(middle);
    s.append(after);
    s
}

/// "Issue ", the identifier in decimal, then `rest`.
fn about_issue(id: u32, rest: &str) -> (s: String)
    ensures
        s@ == "Issue "@ + decimal(id as nat) + rest@,
{
    let mut s = "Issue ".to_owned();
    push_decimal(&mut s, id);
    s.append(rest);
    s
}

} // verus!
