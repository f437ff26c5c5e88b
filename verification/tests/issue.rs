use itack::{Issue, Status, Timestamp};

fn moment() -> Timestamp {
    Timestamp { secs: 1705314600, nanos: 0 }
}

#[test]
fn test_new_issue() {
    let issue = Issue::new(1);
    assert_eq!(issue.id, 1);
    assert_eq!(issue.status, Status::Open);
    assert!(issue.assignee.is_none());
    assert!(issue.epic.is_none());
}

#[test]
fn test_issue_with_epic() {
    let issue = Issue::with_epic(2, Some("MVP".to_string()));
    assert_eq!(issue.epic, Some("MVP".to_string()));
}

#[test]
fn new_issue_is_created_now() {
    let issue = Issue::new(7);
    // Later than 2020-09-13, and the nanoseconds are those of a second.
    assert!(issue.created.secs > 1_600_000_000);
    assert!(issue.created.nanos < 2_000_000_000);
    assert!(issue.depends_on.is_empty());
    assert!(issue.branch.is_none());
    assert!(issue.session.is_none());
}

#[test]
fn issue_at_a_moment() {
    let issue = Issue::at(3, moment());
    assert_eq!(
        issue,
        Issue {
            assignee: None,
            branch: None,
            created: moment(),
            depends_on: vec![],
            epic: None,
            id: 3,
            session: None,
            status: Status::Open,
        }
    );
}

#[test]
fn claim_moves_an_open_issue_to_in_progress() {
    let mut issue = Issue::at(1, moment());
    issue.claim("agent-1".to_string(), Some("main".to_string()), Some("s1".to_string()));
    assert_eq!(issue.assignee.as_deref(), Some("agent-1"));
    assert_eq!(issue.branch.as_deref(), Some("main"));
    assert_eq!(issue.session.as_deref(), Some("s1"));
    assert_eq!(issue.status, Status::InProgress);
}

#[test]
fn claim_keeps_any_other_status() {
    for status in [Status::InProgress, Status::Done, Status::WontFix] {
        let mut issue = Issue::at(1, moment());
        issue.status = status;
        issue.claim("a".to_string(), None, None);
        assert_eq!(issue.status, status);
        assert_eq!(issue.branch, None);
        assert_eq!(issue.session, None);
    }
}

#[test]
fn release_clears_who_where_and_session() {
    let mut issue = Issue::at(1, moment());
    issue.claim("agent-1".to_string(), Some("main".to_string()), Some("s1".to_string()));
    let holder = issue.release();
    assert_eq!(holder.as_deref(), Some("agent-1"));
    assert_eq!(issue.assignee, None);
    assert_eq!(issue.branch, None);
    assert_eq!(issue.session, None);
    assert_eq!(issue.status, Status::InProgress);
    assert_eq!(issue.release(), None);
}

#[test]
fn set_status_returns_the_old_one() {
    let mut issue = Issue::at(9, moment());
    assert_eq!(issue.set_status(Status::WontFix), Status::Open);
    assert_eq!(issue.set_status(Status::Open), Status::WontFix);
    assert_eq!(issue.status, Status::Open);
}

#[test]
fn dependencies_are_deduplicated_and_sorted() {
    let mut issue = Issue::at(5, moment());
    issue.add_dependencies(&vec![9, 3, 5, 3, 1]);
    assert_eq!(issue.depends_on, vec![1, 3, 9]);
    issue.add_dependencies(&vec![2, 9, 10]);
    assert_eq!(issue.depends_on, vec![1, 2, 3, 9, 10]);
    issue.add_dependencies(&vec![]);
    assert_eq!(issue.depends_on, vec![1, 2, 3, 9, 10]);
}

#[test]
fn dependencies_can_be_removed() {
    let mut issue = Issue::at(5, moment());
    issue.add_dependencies(&vec![1, 2, 3, 4]);
    issue.remove_dependencies(&vec![2, 4, 7]);
    assert_eq!(issue.depends_on, vec![1, 3]);
    issue.remove_dependencies(&vec![]);
    assert_eq!(issue.depends_on, vec![1, 3]);
    issue.remove_dependencies(&vec![3, 1]);
    assert!(issue.depends_on.is_empty());
}

#[test]
fn sorting_keeps_repeated_identifiers() {
    assert_eq!(itack::domain::issue::sort_ids(vec![3, 1, 3, 0, 2]), vec![0, 1, 2, 3, 3]);
    assert_eq!(itack::domain::issue::sort_ids(vec![]), Vec::<u32>::new());
    assert_eq!(itack::domain::issue::sort_ids(vec![4294967295, 0]), vec![0, 4294967295]);
}

#[test]
fn clone_is_equal() {
    let mut issue = Issue::with_epic(2, Some("MVP".to_string()));
    issue.claim("a".to_string(), Some("b".to_string()), None);
    issue.add_dependencies(&vec![1]);
    assert_eq!(issue.clone(), issue);
}
