use itack::commands::board::{self, BoardArgs};
use itack::commands::claim::{self, ClaimArgs};
use itack::commands::create::{self, CreateArgs, Created};
use itack::commands::done::{self, DoneArgs};
use itack::commands::list::{self, ListArgs};
use itack::commands::release::{self, ReleaseArgs};
use itack::domain::git::{commit_to_branch, find_issue_file_in_branch, Tip};
use itack::domain::merge::{merge_branches, MergeFacts, MergeStep};
use itack::domain::tree::Tree;
use itack::output::OutputFormat;
use itack::storage::db::Database;
use itack::storage::markdown::{format_issue, parse_issue};
use itack::storage::records::{load_all_issues_from_data_branch, record_files, IssueInfo};
use itack::{Issue, ItackError, Status, Timestamp};
use serde_yaml::{Mapping, Value};

// A stand-in for the object store: a blob is named by its content, so that equal content
// has the same name, as in a content-addressed store.
struct Repo {
    data: Option<Tip>,
    commits: u32,
    ledger: Database,
}

fn text(s: &str) -> Value {
    Value::String(s.to_string())
}

fn status_token(status: Status) -> &'static str {
    match status {
        Status::Open => "open",
        Status::InProgress => "in-progress",
        Status::Done => "done",
        Status::WontFix => "wont-fix",
    }
}

fn header_of(issue: &Issue) -> String {
    let mut fields = Mapping::new();
    if let Some(assignee) = &issue.assignee {
        fields.insert(text("assignee"), text(assignee));
    }
    if let Some(branch) = &issue.branch {
        fields.insert(text("branch"), text(branch));
    }
    let created =
        chrono::DateTime::from_timestamp(issue.created.secs, issue.created.nanos).unwrap();
    fields.insert(
        text("created"),
        text(&created.to_rfc3339_opts(chrono::SecondsFormat::AutoSi, true)),
    );
    if !issue.depends_on.is_empty() {
        let ids = issue.depends_on.iter().map(|d| Value::Number((*d).into())).collect();
        fields.insert(text("depends_on"), Value::Sequence(ids));
    }
    if let Some(epic) = &issue.epic {
        fields.insert(text("epic"), text(epic));
    }
    fields.insert(text("id"), Value::Number(issue.id.into()));
    if let Some(session) = &issue.session {
        fields.insert(text("session"), text(session));
    }
    fields.insert(text("status"), text(status_token(issue.status)));
    serde_yaml::to_string(&fields).unwrap()
}

fn issue_of(header: &str) -> Issue {
    let fields: Value = serde_yaml::from_str(header).unwrap();
    let optional = |key: &str| fields.get(key).and_then(|v| v.as_str()).map(|s| s.to_string());
    let created = chrono::DateTime::parse_from_rfc3339(fields["created"].as_str().unwrap()).unwrap();
    Issue {
        assignee: optional("assignee"),
        branch: optional("branch"),
        created: Timestamp { secs: created.timestamp(), nanos: created.timestamp_subsec_nanos() },
        depends_on: match fields.get("depends_on").and_then(|v| v.as_sequence()) {
            Some(ids) => ids.iter().map(|v| v.as_u64().unwrap() as u32).collect(),
            None => vec![],
        },
        epic: optional("epic"),
        id: fields["id"].as_u64().unwrap() as u32,
        session: optional("session"),
        status: Status::from_str(fields["status"].as_str().unwrap()).unwrap(),
    }
}

impl Repo {
    fn new() -> Repo {
        Repo { data: None, commits: 0, ledger: Database::open_or_create(None, &vec![]).unwrap() }
    }

    // Writes a record to the data branch; returns whether a commit was made.
    fn store(&mut self, path: &str, issue: &Issue, title: &str, body: &str) -> bool {
        let document = format_issue(&header_of(issue), title, body);
        match commit_to_branch(self.data.take(), path, &document) {
            Some(plan) => {
                self.commits += 1;
                self.data = Some(Tip { commit: format!("c{}", self.commits), tree: plan.tree });
                true
            }
            None => {
                // A no-op hands nothing back: the tip stays what it was.
                false
            }
        }
    }

    fn tree(&self) -> Option<&Tree> {
        self.data.as_ref().map(|tip| &tip.tree)
    }

    fn load(&self, id: u32) -> Result<IssueInfo, ItackError> {
        let path =
            find_issue_file_in_branch(self.tree(), id).ok_or(ItackError::IssueNotFound(id))?;
        let document = self.tree().unwrap().read(&path).unwrap().id;
        let (header, title, body) = parse_issue(&document)?;
        Ok(IssueInfo { issue: issue_of(&header), title, body, path })
    }

    fn all(&self) -> Vec<IssueInfo> {
        let found = record_files(self.tree())
            .into_iter()
            .filter_map(|(path, leaf)| {
                let (header, title, body) = parse_issue(&leaf.id).ok()?;
                Some(IssueInfo { issue: issue_of(&header), title, body, path })
            })
            .collect();
        load_all_issues_from_data_branch(found)
    }

    fn create(&mut self, title: &str, epic: Option<&str>) -> Created {
        let args = CreateArgs {
            title: title.to_string(),
            epic: epic.map(|e| e.to_string()),
            body: None,
            message: None,
            depends_on: vec![],
        };
        // 2024-01-15T10:30:00Z
        let made =
            create::run_at(args, &mut self.ledger, Timestamp { secs: 1705314600, nanos: 0 }).unwrap();
        assert!(self.store(&made.path, &made.issue, &made.title, &made.body));
        made
    }

    fn claim(&mut self, id: u32, assignee: &str) -> Result<String, ItackError> {
        let mut info = self.load(id)?;
        let args = ClaimArgs { id, assignee: assignee.to_string(), session: None };
        let message = claim::run(&args, &mut self.ledger, &mut info.issue, Some("main".to_string()))?;
        self.store(&info.path, &info.issue, &info.title, &info.body);
        Ok(message)
    }

    fn release(&mut self, id: u32) -> Result<String, ItackError> {
        let mut info = self.load(id)?;
        let (message, _) = release::run(&ReleaseArgs { id }, &mut self.ledger, &mut info.issue)?;
        self.store(&info.path, &info.issue, &info.title, &info.body);
        Ok(message)
    }

    fn done(&mut self, id: u32) -> Result<String, ItackError> {
        let mut info = self.load(id)?;
        let (message, _) = done::run(&DoneArgs { id }, &mut info.issue)?;
        self.store(&info.path, &info.issue, &info.title, &info.body);
        Ok(message)
    }
}

#[test]
fn test_create_and_show_issue() {
    let mut repo = Repo::new();
    let made = repo.create("Test issue", Some("MVP"));
    assert_eq!(made.message, "Create issue #1: Test issue");
    assert!(
        find_issue_file_in_branch(repo.tree(), 1).is_some(),
        "Issue file should exist in data branch"
    );
    let shown = repo.load(1).unwrap();
    assert_eq!(shown.title, "Test issue");
    assert_eq!(shown.issue, made.issue);
}

#[test]
fn test_markdown_file_format() {
    let mut repo = Repo::new();
    repo.create("Test issue", Some("MVP"));
    let path = find_issue_file_in_branch(repo.tree(), 1)
        .expect("Issue file should exist in data branch");
    let content = repo.tree().unwrap().read(&path).unwrap().id;
    assert!(content.starts_with("---\n"));
    assert!(content.contains("id: 1"));
    assert!(!content.contains("title:"), "Title should not be in YAML front matter");
    assert!(content.contains("epic: MVP"));
    assert!(content.contains("status: open"));
    assert!(content.contains("# Test issue"));
    assert_eq!(
        content,
        "---\ncreated: 2024-01-15T10:30:00Z\nepic: MVP\nid: 1\nstatus: open\n---\n\n# Test issue\n"
    );
}

#[test]
fn integration_test_claim_and_release() {
    let mut repo = Repo::new();
    repo.create("Test issue", None);
    let stored = repo.load(1).unwrap();
    assert_eq!(stored.issue.status, Status::Open);
    assert_eq!(stored.issue.assignee, None);

    assert_eq!(repo.claim(1, "agent-1"), Ok("Claim issue #1 for agent-1".to_string()));
    let shown = repo.load(1).unwrap();
    assert_eq!(shown.issue.status.to_string(), "in-progress");
    assert_eq!(shown.issue.assignee.as_deref(), Some("agent-1"));
    assert_eq!(repo.ledger.list_claims().unwrap().len(), 1);

    let before = repo.commits;
    assert_eq!(
        repo.claim(1, "agent-2"),
        Err(ItackError::AlreadyClaimed(1, "agent-1".to_string()))
    );
    assert_eq!(repo.commits, before);
    assert_eq!(repo.load(1).unwrap().issue.assignee.as_deref(), Some("agent-1"));
    assert_eq!(
        repo.ledger.get_claim(1).unwrap().map(|(who, _)| who),
        Some("agent-1".to_string())
    );

    assert_eq!(repo.release(1), Ok("Release issue #1".to_string()));
    assert_eq!(repo.ledger.list_claims().unwrap().len(), 0);
    assert_eq!(repo.load(1).unwrap().issue.assignee, None);

    assert!(repo.claim(1, "agent-2").is_ok());
    assert_eq!(repo.load(1).unwrap().issue.assignee.as_deref(), Some("agent-2"));
}

#[test]
fn test_board_command() {
    let mut repo = Repo::new();
    repo.create("Issue 1", None);
    repo.create("Issue 2", None);
    assert_eq!(repo.done(2), Ok("Mark issue #2 as done".to_string()));
    let issues = repo.all();
    let (summary, _) = board::run(&BoardArgs { format: OutputFormat::Json }, "p", &issues);
    assert_eq!(summary.open_count, 1);
    assert_eq!(summary.done_count, 1);
    assert_eq!(summary.total_count, 2);
    let done = list::run(
        &ListArgs { status: Some(Status::Done), epic: None, assignee: None, format: OutputFormat::Table },
        repo.all(),
    );
    assert_eq!(done.iter().map(|i| i.issue.id).collect::<Vec<u32>>(), vec![2]);
}

#[test]
fn rewriting_a_record_unchanged_makes_no_commit() {
    let mut repo = Repo::new();
    let made = repo.create("Same", None);
    let commits = repo.commits;
    let loaded = repo.load(1).unwrap();
    assert!(!repo.store(&loaded.path, &loaded.issue, &loaded.title, &loaded.body));
    assert_eq!(repo.commits, commits);
    // The tip was handed to the write and a no-op hands none back; put the record again.
    assert!(repo.data.is_none());
    assert!(repo.store(&made.path, &made.issue, &made.title, &made.body));
}

#[test]
fn the_ledger_can_be_rebuilt_from_the_branch() {
    let mut repo = Repo::new();
    repo.create("a", None);
    repo.create("b", None);
    repo.create("c", None);
    repo.claim(2, "agent-1").unwrap();
    let records: Vec<Issue> = repo.all().into_iter().map(|i| i.issue).collect();
    let rebuilt = Database::open_or_create(None, &records).unwrap();
    assert_eq!(rebuilt.peek_next_issue_id(), Ok(4));
    let claims = rebuilt.list_claims().unwrap();
    assert_eq!(claims.len(), 1);
    assert_eq!((claims[0].0, claims[0].1.as_str()), (2, "agent-1"));
    // The moment of the claim is lost: the record's creation stands for it.
    assert_eq!(claims[0].2, Timestamp { secs: 1705314600, nanos: 0 });
}

#[test]
fn a_merge_runs_until_it_ends() {
    // The data branch is ahead of main by one commit: a fast-forward.
    let mut facts = MergeFacts {
        source: Some("d2".to_string()),
        target: Some("m1".to_string()),
        target_descends: None,
        source_descends: None,
        merged: None,
    };
    let mut asked = 0;
    let end = loop {
        match merge_branches("data/itack", "main", &facts) {
            MergeStep::AskTargetDescends => facts.target_descends = Some(false),
            MergeStep::AskSourceDescends => facts.source_descends = Some(true),
            other => break other,
        }
        asked += 1;
    };
    assert_eq!(asked, 2);
    assert_eq!(end, MergeStep::FastForward { to: "d2".to_string() });
}
