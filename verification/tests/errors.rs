use itack::error::exit_codes::{CONFLICT, ERROR, SUCCESS};
use itack::ItackError;

#[test]
fn error_messages() {
    assert_eq!(ItackError::NotInGitRepo.to_string(), "Not in a git repository");
    assert_eq!(
        ItackError::NotInitialized.to_string(),
        "Project not initialized. Run 'itack init' first."
    );
    assert_eq!(ItackError::IssueNotFound(999).to_string(), "Issue 999 not found");
    assert_eq!(
        ItackError::AlreadyClaimed(1, "agent-1".to_string()).to_string(),
        "Issue 1 is already claimed by agent-1"
    );
    assert_eq!(ItackError::NotClaimed(12).to_string(), "Issue 12 is not claimed");
    assert_eq!(ItackError::AlreadyDone(0).to_string(), "Issue 0 is already done");
    assert_eq!(
        ItackError::DataBranchNotFound("data/itack".to_string()).to_string(),
        "Data branch 'data/itack' not found. Run 'itack init' to create it."
    );
    assert_eq!(
        ItackError::DataBranchEmpty("data/itack".to_string()).to_string(),
        "No .itack directory found on data branch 'data/itack'. Run 'itack init' to repair."
    );
    assert_eq!(
        ItackError::DatabaseNotFound("/tmp/x.db".to_string()).to_string(),
        "Database not found at /tmp/x.db. Run 'itack init' to fix."
    );
    assert_eq!(
        ItackError::InvalidMarkdown("Missing YAML front matter".to_string()).to_string(),
        "Invalid markdown format: Missing YAML front matter"
    );
    assert_eq!(ItackError::EditorFailed("boom".to_string()).to_string(), "Editor failed: boom");
    assert_eq!(ItackError::Other("plain".to_string()).to_string(), "plain");
    assert_eq!(ItackError::Database("locked".to_string()).to_string(), "Database error: locked");
    assert_eq!(ItackError::Git("bad ref".to_string()).to_string(), "Git error: bad ref");
    assert_eq!(ItackError::Io("gone".to_string()).to_string(), "IO error: gone");
    assert_eq!(ItackError::Yaml("tab".to_string()).to_string(), "YAML error: tab");
    assert_eq!(ItackError::Json("eof".to_string()).to_string(), "JSON error: eof");
    assert_eq!(
        ItackError::TomlDe("key".to_string()).to_string(),
        "TOML deserialization error: key"
    );
    assert_eq!(
        ItackError::TomlSer("map".to_string()).to_string(),
        "TOML serialization error: map"
    );
    assert_eq!(
        ItackError::BranchNotFound("topic".to_string()).to_string(),
        "Branch 'topic' not found"
    );
    assert_eq!(
        ItackError::MergeConflict("a".to_string(), "b".to_string()).to_string(),
        "Merge conflict merging 'a' into 'b'"
    );
    assert_eq!(ItackError::InvalidStatus("x".to_string()).to_string(), "Invalid status: x");
}

#[test]
fn only_a_lost_claim_is_a_conflict() {
    assert_eq!(SUCCESS, 0);
    assert_eq!(ItackError::AlreadyClaimed(1, "a".to_string()).exit_code(), CONFLICT);
    assert_eq!(CONFLICT, 2);
    assert_eq!(ItackError::NotClaimed(1).exit_code(), ERROR);
    assert_eq!(ItackError::IssueNotFound(1).exit_code(), ERROR);
    assert_eq!(ItackError::MergeConflict("a".to_string(), "b".to_string()).exit_code(), 1);
}

#[test]
fn error_message_numbers_are_decimal() {
    assert_eq!(ItackError::IssueNotFound(0).to_string(), "Issue 0 not found");
    assert_eq!(ItackError::IssueNotFound(10).to_string(), "Issue 10 not found");
    assert_eq!(
        ItackError::IssueNotFound(4294967295).to_string(),
        "Issue 4294967295 not found"
    );
}
