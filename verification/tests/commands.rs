use itack::commands::board::{self, BoardArgs, BoardSummary};
use itack::commands::claim::{self, ClaimArgs};
use itack::commands::create::{self, CreateArgs};
use itack::commands::depend::{self, DependArgs};
use itack::commands::doctor::{self, SyncCheckResult};
use itack::commands::done::{self, DoneArgs};
use itack::commands::edit::{self, EditArgs, EditPlace};
use itack::commands::init::{self, InitPlan};
use itack::commands::list::{self, ListArgs};
use itack::commands::release::{self, ReleaseArgs};
use itack::commands::search::{self, SearchArgs};
use itack::commands::set_session::{self, SetSessionArgs};
use itack::commands::show::{self, ShowArgs};
use itack::commands::status::{self, StatusArgs};
use itack::commands::undepend::{self, UndependArgs};
use itack::domain::tree::{Entry, Leaf, Node, Tree, BLOB_MODE};
use itack::output::OutputFormat;
use itack::storage::db::{Claim, Database};
use itack::storage::records::IssueInfo;
use itack::{Issue, ItackError, Status, Timestamp};

fn at(secs: i64) -> Timestamp {
    Timestamp { secs, nanos: 0 }
}

fn info(id: u32, status: Status, title: &str, body: &str) -> IssueInfo {
    let mut issue = Issue::at(id, at(1705314600));
    issue.status = status;
    IssueInfo {
        issue,
        title: title.to_string(),
        body: body.to_string(),
        path: format!("/repo/.itack/{}.md", id),
    }
}

fn ids(issues: &[IssueInfo]) -> Vec<u32> {
    issues.iter().map(|i| i.issue.id).collect()
}

fn ledger() -> Database {
    Database::open_or_create(None, &vec![]).unwrap()
}

#[test]
fn board_counts_by_status() {
    let issues = vec![
        info(1, Status::Open, "a", ""),
        info(2, Status::Done, "b", ""),
        info(3, Status::InProgress, "c", ""),
        info(4, Status::Open, "d", ""),
        info(5, Status::WontFix, "e", ""),
    ];
    let (summary, shown) = board::run(&BoardArgs { format: OutputFormat::Table }, "calm-red-fox", &issues);
    assert_eq!(
        summary,
        BoardSummary {
            project_id: "calm-red-fox".to_string(),
            open_count: 2,
            in_progress_count: 1,
            done_count: 1,
            wontfix_count: 1,
            total_count: 5,
        }
    );
    assert_eq!(shown, 5);
}

#[test]
fn board_table_shows_ten_issues() {
    let issues: Vec<IssueInfo> = (1..=12).map(|i| info(i, Status::Open, "t", "")).collect();
    let (summary, shown) = board::run(&BoardArgs { format: OutputFormat::Table }, "p", &issues);
    assert_eq!(summary.total_count, 12);
    assert_eq!(summary.open_count, 12);
    assert_eq!(shown, 10);
    let (_, shown) = board::run(&BoardArgs { format: OutputFormat::Json }, "p", &issues);
    assert_eq!(shown, 12);
    let (summary, shown) = board::run(&BoardArgs { format: OutputFormat::Table }, "p", &vec![]);
    assert_eq!((summary.total_count, shown), (0, 0));
}

#[test]
fn list_filters_by_what_is_set() {
    let mut a = info(1, Status::Open, "a", "");
    a.issue.epic = Some("MVP".to_string());
    let mut b = info(2, Status::Done, "b", "");
    b.issue.epic = Some("MVP".to_string());
    b.issue.assignee = Some("agent-1".to_string());
    let mut c = info(3, Status::Open, "c", "");
    c.issue.assignee = Some("agent-1".to_string());
    let all = || vec![a.clone(), b.clone(), c.clone()];
    let args = |status, epic: Option<&str>, assignee: Option<&str>| ListArgs {
        status,
        epic: epic.map(|e| e.to_string()),
        assignee: assignee.map(|e| e.to_string()),
        format: OutputFormat::Table,
    };
    assert_eq!(ids(&list::run(&args(None, None, None), all())), vec![1, 2, 3]);
    assert_eq!(ids(&list::run(&args(Some(Status::Open), None, None), all())), vec![1, 3]);
    assert_eq!(ids(&list::run(&args(None, Some("MVP"), None), all())), vec![1, 2]);
    assert_eq!(ids(&list::run(&args(None, None, Some("agent-1")), all())), vec![2, 3]);
    assert_eq!(ids(&list::run(&args(Some(Status::Done), Some("MVP"), Some("agent-1")), all())), vec![2]);
    assert_eq!(ids(&list::run(&args(Some(Status::WontFix), None, None), all())), Vec::<u32>::new());
    assert_eq!(ids(&list::run(&args(None, Some("mvp"), None), all())), Vec::<u32>::new());
}

#[test]
fn search_ignores_case() {
    let issues = vec![
        info(1, Status::Open, "Fix the Parser", "It crashes."),
        info(2, Status::Open, "Docs", "Describe the PARSER options"),
        info(3, Status::Open, "Other", "nothing"),
    ];
    let args = |q: &str| SearchArgs { query: q.to_string(), all_branches: false, format: OutputFormat::Table };
    assert_eq!(ids(&search::run(&args("parser"), issues.clone()).unwrap()), vec![1, 2]);
    assert_eq!(ids(&search::run(&args("PARSER"), issues.clone()).unwrap()), vec![1, 2]);
    assert_eq!(ids(&search::run(&args("crash"), issues.clone()).unwrap()), vec![1]);
    assert_eq!(ids(&search::run(&args("zzz"), issues.clone()).unwrap()), Vec::<u32>::new());
    assert_eq!(ids(&search::run(&args(""), issues.clone()).unwrap()), vec![1, 2, 3]);
}

#[test]
fn search_across_branches_is_not_a_search_among_issues() {
    let args = SearchArgs { query: "x".to_string(), all_branches: true, format: OutputFormat::Json };
    assert_eq!(search::run(&args, vec![info(1, Status::Open, "x", "x")]), None);
}

#[test]
fn holds_query_looks_at_title_and_body() {
    assert!(search::holds_query("abc", "", "bc"));
    assert!(search::holds_query("", "abc", "a"));
    assert!(!search::holds_query("abc", "abd", "bd "));
    assert!(search::holds_query("", "", ""));
}

#[test]
fn show_finds_the_record_on_the_data_branch() {
    let tree = Tree {
        entries: vec![Entry {
            name: ".itack".to_string(),
            node: Node::Dir(Tree {
                entries: vec![Entry {
                    name: "2024-01-28-issue-001.md".to_string(),
                    node: Node::File(Leaf { id: "b1".to_string(), mode: BLOB_MODE }),
                }],
            }),
        }],
    };
    let args = ShowArgs { id: 1, format: OutputFormat::Table };
    assert_eq!(
        show::run(&args, Some(&tree)),
        Ok((
            ".itack/2024-01-28-issue-001.md".to_string(),
            Leaf { id: "b1".to_string(), mode: BLOB_MODE }
        ))
    );
}

#[test]
fn test_show_nonexistent_issue() {
    let args = ShowArgs { id: 999, format: OutputFormat::Table };
    let err = show::run(&args, Some(&Tree::new())).unwrap_err();
    assert_eq!(err, ItackError::IssueNotFound(999));
    assert_eq!(err.to_string(), "Issue 999 not found");
    // A data branch that does not exist yet holds no issue either.
    assert_eq!(show::run(&args, None), Err(ItackError::IssueNotFound(999)));
}

#[test]
fn claim_updates_ledger_and_record() {
    let mut db = ledger();
    let mut issue = Issue::at(1, at(5));
    let args = ClaimArgs { id: 1, assignee: "agent-1".to_string(), session: Some("s9".to_string()) };
    let message = claim::run_at(&args, &mut db, &mut issue, Some("topic".to_string()), at(100));
    assert_eq!(message, Ok("Claim issue #1 for agent-1".to_string()));
    assert_eq!(issue.assignee.as_deref(), Some("agent-1"));
    assert_eq!(issue.branch.as_deref(), Some("topic"));
    assert_eq!(issue.session.as_deref(), Some("s9"));
    assert_eq!(issue.status, Status::InProgress);
    assert_eq!(db.get_claim(1), Ok(Some(("agent-1".to_string(), at(100)))));
}

#[test]
fn test_claim_conflict_returns_exit_code_2() {
    let mut db = ledger();
    let mut issue = Issue::at(1, at(5));
    let first = ClaimArgs { id: 1, assignee: "agent-1".to_string(), session: None };
    claim::run(&first, &mut db, &mut issue, None).unwrap();
    let held = issue.clone();
    let second = ClaimArgs { id: 1, assignee: "agent-2".to_string(), session: None };
    let err = claim::run(&second, &mut db, &mut issue, None).unwrap_err();
    assert_eq!(err.exit_code(), 2);
    assert!(err.to_string().contains("already claimed by agent-1"));
    assert_eq!(issue, held);
    assert_eq!(db.get_claim(1).unwrap().map(|(a, _)| a), Some("agent-1".to_string()));
}

#[test]
fn test_release_unclaimed_issue() {
    let mut db = ledger();
    let mut issue = Issue::at(1, at(5));
    let err = release::run(&ReleaseArgs { id: 1 }, &mut db, &mut issue).unwrap_err();
    assert_eq!(err, ItackError::NotClaimed(1));
    assert!(err.to_string().contains("not claimed"));
    assert_eq!(err.exit_code(), 1);
    assert_eq!(issue, Issue::at(1, at(5)));
}

#[test]
fn release_clears_ledger_and_record() {
    let mut db = ledger();
    let mut issue = Issue::at(4, at(5));
    let args = ClaimArgs { id: 4, assignee: "agent-1".to_string(), session: Some("s".to_string()) };
    claim::run(&args, &mut db, &mut issue, Some("b".to_string())).unwrap();
    let (message, holder) = release::run(&ReleaseArgs { id: 4 }, &mut db, &mut issue).unwrap();
    assert_eq!(message, "Release issue #4");
    assert_eq!(holder.as_deref(), Some("agent-1"));
    assert_eq!(issue.assignee, None);
    assert_eq!(issue.branch, None);
    assert_eq!(issue.session, None);
    assert_eq!(db.get_claim(4), Ok(None));
}

#[test]
fn test_done_command() {
    let mut issue = Issue::at(1, at(5));
    let (message, before) = done::run(&DoneArgs { id: 1 }, &mut issue).unwrap();
    assert_eq!(message, "Mark issue #1 as done");
    assert_eq!(format!("{} -> {}", before.to_string(), issue.status.to_string()), "open -> done");
    assert_eq!(issue.status, Status::Done);
    assert_eq!(done::run(&DoneArgs { id: 1 }, &mut issue), Err(ItackError::AlreadyDone(1)));
    assert_eq!(issue.status, Status::Done);
}

#[test]
fn status_is_set() {
    let mut issue = Issue::at(1, at(5));
    assert_eq!(
        status::run(&StatusArgs { id: 1, status: Status::WontFix }, &mut issue),
        ("Set issue #1 status to wontfix".to_string(), Status::Open)
    );
    assert_eq!(issue.status, Status::WontFix);
}

#[test]
fn session_is_set() {
    let mut issue = Issue::at(12, at(5));
    let message = set_session::run(&SetSessionArgs { id: 12, session: "ccx-7".to_string() }, &mut issue);
    assert_eq!(message, "Set session for issue #12 to ccx-7");
    assert_eq!(issue.session.as_deref(), Some("ccx-7"));
}

#[test]
fn edit_message_and_place() {
    assert_eq!(
        edit::run(EditArgs { id: 3, message: None }, false),
        ("Edit issue #3".to_string(), EditPlace::TemporaryFile)
    );
    assert_eq!(
        edit::run(EditArgs { id: 3, message: Some("reword".to_string()) }, true),
        ("reword".to_string(), EditPlace::WorkingCopy)
    );
}

#[test]
fn depend_and_undepend() {
    let mut issue = Issue::at(5, at(5));
    let message = depend::run(&DependArgs { id: 5, deps: vec![9, 5, 2, 9] }, &mut issue);
    assert_eq!(message, "Add dependencies #9, #5, #2, #9 to issue #5");
    assert_eq!(issue.depends_on, vec![2, 9]);
    let message = undepend::run(&UndependArgs { id: 5, deps: vec![9] }, &mut issue);
    assert_eq!(message, "Remove dependencies #9 from issue #5");
    assert_eq!(issue.depends_on, vec![2]);
    assert_eq!(
        depend::run(&DependArgs { id: 5, deps: vec![] }, &mut issue),
        "Add dependencies  to issue #5"
    );
}

#[test]
fn create_makes_an_open_record() {
    let mut db = ledger();
    let args = CreateArgs {
        title: "Test issue".to_string(),
        epic: Some("MVP".to_string()),
        body: None,
        message: None,
        depends_on: vec![3, 1, 3],
    };
    // 2024-01-25T12:00:00Z
    let made = create::run_at(args, &mut db, at(1706184000)).unwrap();
    assert_eq!(made.issue.id, 1);
    assert_eq!(made.issue.status, Status::Open);
    assert_eq!(made.issue.assignee, None);
    assert_eq!(made.issue.epic.as_deref(), Some("MVP"));
    assert_eq!(made.issue.depends_on, vec![3]);
    assert_eq!(made.issue.created, at(1706184000));
    assert_eq!(made.title, "Test issue");
    assert_eq!(made.body, "");
    assert_eq!(made.path, ".itack/2024-01-25-issue-001.md");
    assert_eq!(made.message, "Create issue #1: Test issue");
    assert_eq!(db.peek_next_issue_id(), Ok(2));
}

#[test]
fn create_takes_body_and_message_as_given() {
    let mut db = Database::stored(1, 1234, vec![]);
    let args = CreateArgs {
        title: "T".to_string(),
        epic: None,
        body: Some("B".to_string()),
        message: Some("custom".to_string()),
        depends_on: vec![],
    };
    let made = create::run_at(args, &mut db, at(0)).unwrap();
    assert_eq!(made.issue.id, 1234);
    assert_eq!(made.body, "B");
    assert_eq!(made.message, "custom");
    assert_eq!(made.path, ".itack/1970-01-01-issue-1234.md");
}

#[test]
fn create_fails_without_identifier_or_date() {
    let args = || CreateArgs {
        title: "T".to_string(),
        epic: None,
        body: None,
        message: None,
        depends_on: vec![],
    };
    let mut full = Database::stored(1, u32::MAX, vec![]);
    assert_eq!(
        create::run_at(args(), &mut full, at(0)),
        Err(ItackError::Other("No issue identifier is left".to_string()))
    );
    let mut db = ledger();
    assert_eq!(
        create::run_at(args(), &mut db, Timestamp { secs: i64::MAX, nanos: 0 }),
        Err(ItackError::Other("Creation time has no calendar date".to_string()))
    );
    assert_eq!(db.peek_next_issue_id(), Ok(2));
}

#[test]
fn test_issue_ids_increment() {
    let mut db = ledger();
    let mut made = Vec::new();
    for title in ["First", "Second", "Third"] {
        let args = CreateArgs {
            title: title.to_string(),
            epic: None,
            body: None,
            message: None,
            depends_on: vec![],
        };
        made.push(create::run(args, &mut db).unwrap());
    }
    assert_eq!(made.iter().map(|m| m.issue.id).collect::<Vec<u32>>(), vec![1, 2, 3]);
    assert_eq!(made[2].message, "Create issue #3: Third");
    assert!(made[0].path.ends_with("-issue-001.md"));
    assert!(made[0].path.starts_with(".itack/"));
}

#[test]
fn doctor_finds_a_ledger_in_step() {
    let mut claimed = info(2, Status::InProgress, "b", "");
    claimed.issue.assignee = Some("agent".to_string());
    let issues = vec![info(1, Status::Open, "a", ""), claimed];
    let records: Vec<Issue> = issues.iter().map(|i| i.issue.clone()).collect();
    let db = Database::open_or_create(None, &records).unwrap();
    let found = doctor::check_issue_sync(&issues, &db).unwrap();
    assert_eq!(
        found,
        SyncCheckResult {
            issue_count: 2,
            missing_claims: vec![],
            orphan_claims: vec![],
            next_id_issue: None,
        }
    );
    assert!(found.is_ok());
    assert_eq!(doctor::check_schema_version(&db), Ok(1));
    assert!(!doctor::run(&Ok(1), &Ok(found), &Ok(vec![])));
}

#[test]
fn doctor_reports_drift() {
    let issues = vec![
        info(7, Status::InProgress, "a", ""),
        info(3, Status::InProgress, "b", ""),
        info(5, Status::Open, "c", ""),
        info(4, Status::InProgress, "d", ""),
    ];
    let rows = vec![
        Claim { issue_id: 4, assignee: "x".to_string(), claimed_at: at(1) },
        Claim { issue_id: 90, assignee: "y".to_string(), claimed_at: at(2) },
        Claim { issue_id: 80, assignee: "z".to_string(), claimed_at: at(3) },
    ];
    let db = Database::stored(1, 7, rows);
    let found = doctor::check_issue_sync(&issues, &db).unwrap();
    assert_eq!(found.issue_count, 4);
    assert_eq!(found.missing_claims, vec![3, 7]);
    assert_eq!(found.orphan_claims, vec![80, 90]);
    assert_eq!(
        found.next_id_issue.as_deref(),
        Some("next_issue_id (7) is not greater than max issue ID (7)")
    );
    assert!(!found.is_ok());
    assert!(doctor::run(&Ok(1), &Ok(found), &Ok(vec![])));
}

#[test]
fn doctor_accepts_any_counter_without_issues() {
    let db = Database::stored(1, 0, vec![]);
    let found = doctor::check_issue_sync(&vec![], &db).unwrap();
    assert!(found.is_ok());
}

#[test]
fn doctor_counts_every_failed_check() {
    let fine = || SyncCheckResult {
        issue_count: 0,
        missing_claims: vec![],
        orphan_claims: vec![],
        next_id_issue: None,
    };
    assert!(!doctor::run(&Ok(1), &Ok(fine()), &Ok(vec![])));
    assert!(doctor::run(&Ok(0), &Ok(fine()), &Ok(vec![])));
    assert!(doctor::run(&Err(ItackError::Database("x".to_string())), &Ok(fine()), &Ok(vec![])));
    assert!(doctor::run(&Ok(1), &Err(ItackError::NotInGitRepo), &Ok(vec![])));
    assert!(doctor::run(&Ok(1), &Ok(fine()), &Ok(vec!["1.md".to_string()])));
    assert!(doctor::run(&Ok(1), &Ok(fine()), &Err(ItackError::Io("x".to_string()))));
    let mut drift = fine();
    drift.orphan_claims = vec![1];
    assert!(doctor::run(&Ok(1), &Ok(drift), &Ok(vec![])));
}

#[test]
fn init_plans() {
    assert_eq!(init::run(false), InitPlan::Create);
    assert_eq!(init::run(true), InitPlan::Repair);
    assert_eq!(init::gitignore_content(), "# itack ignores\n*.db\n*.db-wal\n*.db-shm\n");
}

#[test]
fn legacy_names_are_numbers() {
    for name in ["1.md", "007.md", "+7.md", "4294967295.md", "00000000004294967295.md"] {
        assert!(init::has_legacy_name(name), "{}", name);
    }
    for name in [
        ".md", "+.md", "a.md", "1a.md", "-1.md", "1.txt", "1", "1.md ", " 1.md", "4294967296.md",
        "2024-01-28-issue-001.md", "1.5.md", "\u{661}.md", "",
    ] {
        assert!(!init::has_legacy_name(name), "{}", name);
    }
}

#[test]
fn title_migration_is_needed_for_old_records() {
    assert!(!init::needs_title_migration("---\nid: 1\n---\n\n# T\n"));
    assert!(init::needs_title_migration("---\nid: 1\ntitle: T\n---\n\n# T\n"));
    assert!(init::needs_title_migration("---\nid: 1\n---\n\nBody only\n"));
    assert!(init::needs_title_migration("no front matter"));
    assert!(init::has_title_heading("---\n---\n# T"));
    assert!(!init::has_title_heading("---\n---\nT"));
}

#[test]
fn old_bodies_lose_the_repeated_heading() {
    assert_eq!(init::old_format_body("# Title\n\nBody\n", "Title"), "Body\n");
    assert_eq!(init::old_format_body("# Title", "Title"), "");
    assert_eq!(init::old_format_body("# Other\n\nBody\n", "Title"), "# Other\n\nBody\n");
    assert_eq!(init::old_format_body("Body\n", "Title"), "Body\n");
    assert_eq!(init::old_format_body("# Titles\nBody", "Title"), "s\nBody");
}
