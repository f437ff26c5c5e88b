use itack::domain::config::{default_data_branch, default_merge_branch, join_path};
use itack::output::{board_rows, dash_cell, depends_on_cell, issue_row, OutputFormat};
use itack::storage::db::Database;
use itack::storage::metadata::Metadata;
use itack::storage::records::IssueInfo;
use itack::{Config, Issue, ItackError, Project, Status, Timestamp};

fn some(s: &str) -> Option<String> {
    Some(s.to_string())
}

#[test]
fn test_is_initialized() {
    assert!(!Project::is_initialized(false, false));
    assert!(!Project::is_initialized(true, false));
    assert!(!Project::is_initialized(false, true));
    assert!(Project::is_initialized(true, true));
}

#[test]
fn test_metadata_new() {
    let metadata = Metadata::new();
    assert!(!metadata.project_id.is_empty());
    // Petname format: word-word-word
    assert!(metadata.project_id.contains('-'));
}

#[test]
fn metadata_default_is_a_new_name() {
    let metadata = Metadata::default();
    assert_eq!(metadata.project_id.split('-').count(), 3);
    assert_eq!(metadata.clone(), metadata);
}

#[test]
fn metadata_falls_back_to_a_fixed_name() {
    assert_eq!(Metadata::named(None).project_id, "unnamed-project");
    assert_eq!(Metadata::named(some("calm-red-fox")).project_id, "calm-red-fox");
}

#[test]
fn config_defaults() {
    let config = Config::default();
    assert_eq!(
        config,
        Config {
            default_assignee: None,
            editor: None,
            data_branch: some("data/itack"),
            merge_branch: some("main"),
        }
    );
    assert_eq!(default_data_branch(), some("data/itack"));
    assert_eq!(default_merge_branch(), some("main"));
    assert_eq!(config.clone(), config);
}

#[test]
fn global_paths() {
    assert_eq!(Config::global_dir(some("/tmp/h"), some("/home/u")), some("/tmp/h"));
    assert_eq!(Config::global_dir(None, some("/home/u")), some("/home/u/.itack"));
    assert_eq!(Config::global_dir(None, None), None);
    assert_eq!(Config::global_path(some("/tmp/h"), None), some("/tmp/h/config.toml"));
    assert_eq!(Config::global_path(None, some("/home/u")), some("/home/u/.itack/config.toml"));
    assert_eq!(Config::global_path(None, None), None);
    assert_eq!(join_path("a", "b"), "a/b");
}

#[test]
fn editor_sources_in_order() {
    let mut config = Config::default();
    assert_eq!(config.get_editor(None, None), "vi");
    assert_eq!(config.get_editor(None, some("code")), "code");
    assert_eq!(config.get_editor(some("nano"), some("code")), "nano");
    config.editor = some("hx");
    assert_eq!(config.get_editor(some("nano"), some("code")), "hx");
}

#[test]
fn branches_to_use() {
    let mut config = Config::default();
    assert_eq!(config.data_branch_name(), "data/itack");
    assert_eq!(config.merge_target(), some("main"));
    config.data_branch = None;
    config.merge_branch = None;
    assert_eq!(config.data_branch_name(), "data/itack");
    assert_eq!(config.merge_target(), None);
    config.data_branch = some("notes");
    config.merge_branch = some("");
    assert_eq!(config.data_branch_name(), "notes");
    assert_eq!(config.merge_target(), None);
}

#[test]
fn discover_builds_the_context() {
    let metadata = Metadata { project_id: "calm-red-fox".to_string() };
    let project =
        Project::discover("/repo", true, Some(metadata.clone()), Config::default(), some("/home/u/.itack"))
            .unwrap();
    assert_eq!(
        project,
        Project {
            repo_root: "/repo".to_string(),
            itack_dir: "/repo/.itack".to_string(),
            db_path: "/home/u/.itack/calm-red-fox.db".to_string(),
            metadata,
            config: Config::default(),
        }
    );
}

#[test]
fn discover_needs_an_initialized_project() {
    let metadata = || Some(Metadata { project_id: "p".to_string() });
    assert_eq!(
        Project::discover("/repo", false, metadata(), Config::default(), some("/g")),
        Err(ItackError::NotInitialized)
    );
    assert_eq!(
        Project::discover("/repo", true, None, Config::default(), some("/g")),
        Err(ItackError::NotInitialized)
    );
    assert_eq!(
        Project::discover("/repo", true, metadata(), Config::default(), None),
        Err(ItackError::Other("Could not determine home directory".to_string()))
    );
    assert_eq!(
        Project::db_path_for_project(None, "p"),
        Err(ItackError::Other("Could not determine home directory".to_string()))
    );
    assert_eq!(Project::db_path_for_project(some("/g"), "p"), Ok("/g/p.db".to_string()));
}

#[test]
fn open_db_reports_the_path() {
    let metadata = Metadata { project_id: "p".to_string() };
    let project =
        Project::discover("/repo", true, Some(metadata), Config::default(), some("/g")).unwrap();
    assert_eq!(
        project.open_db(false, None, &vec![]).err(),
        Some(ItackError::DatabaseNotFound("/g/p.db".to_string()))
    );
    let db: Database = project.open_db(true, None, &vec![]).unwrap();
    assert_eq!(db.peek_next_issue_id(), Ok(1));
}

#[test]
fn record_file_names() {
    assert_eq!(Project::issue_file_name("2026-01-25", 1), "2026-01-25-issue-001.md");
    assert_eq!(Project::issue_file_name("2026-01-25", 42), "2026-01-25-issue-042.md");
    assert_eq!(Project::issue_file_name("2026-01-25", 999), "2026-01-25-issue-999.md");
    assert_eq!(Project::issue_file_name("2026-01-25", 1000), "2026-01-25-issue-1000.md");
    assert_eq!(Project::issue_file_name("2026-01-25", 0), "2026-01-25-issue-000.md");
}

#[test]
fn record_paths_carry_the_creation_date() {
    // 2026-01-25T00:00:00Z
    let created = Timestamp { secs: 1769299200, nanos: 0 };
    assert_eq!(
        Project::issue_relative_path(1, &created),
        some(".itack/2026-01-25-issue-001.md")
    );
    // One nanosecond before midnight is the day before.
    let before = Timestamp { secs: 1769299199, nanos: 999_999_999 };
    assert_eq!(
        Project::issue_relative_path(1, &before),
        some(".itack/2026-01-24-issue-001.md")
    );
    let epoch = Timestamp { secs: 0, nanos: 0 };
    assert_eq!(Project::issue_relative_path(12, &epoch), some(".itack/1970-01-01-issue-012.md"));
    let early = Timestamp { secs: -1, nanos: 0 };
    assert_eq!(Project::issue_relative_path(12, &early), some(".itack/1969-12-31-issue-012.md"));
}

#[test]
fn moments_without_a_date_have_no_path() {
    assert_eq!(Project::issue_relative_path(1, &Timestamp { secs: i64::MAX, nanos: 0 }), None);
    assert_eq!(
        Project::issue_relative_path(1, &Timestamp { secs: 0, nanos: 2_000_000_000 }),
        None
    );
}

#[test]
fn json_flag_selects_the_format() {
    assert_eq!(OutputFormat::from_flag(true), OutputFormat::Json);
    assert_eq!(OutputFormat::from_flag(false), OutputFormat::Table);
}

#[test]
fn table_cells() {
    assert_eq!(dash_cell(&None), "-");
    assert_eq!(dash_cell(&some("MVP")), "MVP");
    assert_eq!(dash_cell(&some("")), "");
    assert_eq!(depends_on_cell(&vec![]), "-");
    assert_eq!(depends_on_cell(&vec![7]), "7");
    assert_eq!(depends_on_cell(&vec![1, 20, 300]), "1, 20, 300");
    let mut issue = Issue::at(12, Timestamp { secs: 0, nanos: 0 });
    issue.status = Status::InProgress;
    issue.assignee = some("agent-1");
    issue.depends_on = vec![3, 4];
    let info = IssueInfo {
        issue,
        title: "Title".to_string(),
        body: "Body".to_string(),
        path: ".itack/x.md".to_string(),
    };
    assert_eq!(issue_row(&info), vec!["12", "in-progress", "Title", "-", "agent-1", "3, 4", "-"]);
    let summary = itack::commands::board::BoardSummary {
        project_id: "p".to_string(),
        open_count: 1,
        in_progress_count: 2,
        done_count: 3,
        wontfix_count: 4,
        total_count: 10,
    };
    assert_eq!(
        board_rows(&summary),
        vec![
            ("Open".to_string(), 1),
            ("In Progress".to_string(), 2),
            ("Done".to_string(), 3),
            ("Total".to_string(), 10),
        ]
    );
}
