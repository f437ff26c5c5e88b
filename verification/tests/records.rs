use itack::domain::tree::{Entry, Leaf, Node, Tree, BLOB_MODE};
use itack::storage::records::{
    is_record_file, load_all_issues_from_data_branch, load_issue,
    load_issue_from_data_branch, record_files, IssueInfo,
};
use itack::text::{chars_of, find_from, numbered, string_of, text_contains};
use itack::{Issue, ItackError, Status, Timestamp};

fn info(id: u32, status: Status) -> IssueInfo {
    let mut issue = Issue::at(id, Timestamp { secs: 0, nanos: 0 });
    issue.status = status;
    IssueInfo { issue, title: format!("t{}", id), body: String::new(), path: String::new() }
}

fn file(name: &str, id: &str) -> Entry {
    Entry { name: name.to_string(), node: Node::File(Leaf { id: id.to_string(), mode: BLOB_MODE }) }
}

fn data_tree() -> Tree {
    Tree {
        entries: vec![
            file("README.md", "r"),
            Entry {
                name: ".itack".to_string(),
                node: Node::Dir(Tree {
                    entries: vec![
                        file("metadata.toml", "m"),
                        file(".hidden.md", "h"),
                        file("2024-01-28-issue-001.md", "i1"),
                        Entry { name: "dir.md".to_string(), node: Node::Dir(Tree { entries: vec![] }) },
                        file("2.md", "i2"),
                        file(".gitignore", "g"),
                    ],
                }),
            },
        ],
    }
}

#[test]
fn test_list_issues() {
    let found = vec![info(1, Status::Open), info(2, Status::Open)];
    let listed = load_all_issues_from_data_branch(found);
    assert_eq!(listed.iter().map(|i| i.issue.id).collect::<Vec<u32>>(), vec![1, 2]);
}

#[test]
fn listings_go_by_status_then_identifier() {
    let found = vec![
        info(5, Status::Done),
        info(9, Status::WontFix),
        info(7, Status::Open),
        info(2, Status::Open),
        info(8, Status::InProgress),
        info(1, Status::Done),
        info(3, Status::InProgress),
    ];
    let listed = load_all_issues_from_data_branch(found);
    assert_eq!(
        listed.iter().map(|i| (i.issue.status, i.issue.id)).collect::<Vec<_>>(),
        vec![
            (Status::InProgress, 3),
            (Status::InProgress, 8),
            (Status::Open, 2),
            (Status::Open, 7),
            (Status::Done, 1),
            (Status::Done, 5),
            (Status::WontFix, 9),
        ]
    );
}

#[test]
fn listings_keep_the_order_of_equal_records() {
    let mut a = info(4, Status::Open);
    a.title = "first".to_string();
    let mut b = info(4, Status::Open);
    b.title = "second".to_string();
    let listed = load_all_issues_from_data_branch(vec![info(9, Status::Open), a, info(1, Status::Done), b]);
    assert_eq!(
        listed.iter().map(|i| i.title.as_str()).collect::<Vec<_>>(),
        vec!["first", "second", "t9", "t1"]
    );
    assert!(load_all_issues_from_data_branch(vec![]).is_empty());
}

#[test]
fn large_identifiers_do_not_cross_statuses() {
    let listed = load_all_issues_from_data_branch(vec![info(0, Status::Open), info(u32::MAX, Status::InProgress)]);
    assert_eq!(listed.iter().map(|i| i.issue.id).collect::<Vec<u32>>(), vec![u32::MAX, 0]);
}

#[test]
fn record_file_names_end_with_md() {
    assert!(is_record_file("1.md"));
    assert!(is_record_file("2024-01-28-issue-001.md"));
    assert!(!is_record_file(".hidden.md"));
    assert!(!is_record_file(".md"));
    assert!(!is_record_file("metadata.toml"));
    assert!(!is_record_file("md"));
    assert!(!is_record_file(""));
    assert!(!is_record_file("a.MD"));
}

#[test]
fn record_files_of_a_branch() {
    let tree = data_tree();
    assert_eq!(
        record_files(Some(&tree)),
        vec![
            (
                ".itack/2024-01-28-issue-001.md".to_string(),
                Leaf { id: "i1".to_string(), mode: BLOB_MODE }
            ),
            (".itack/2.md".to_string(), Leaf { id: "i2".to_string(), mode: BLOB_MODE }),
        ]
    );
    assert_eq!(record_files(None), vec![]);
    assert_eq!(record_files(Some(&Tree::new())), vec![]);
}

#[test]
fn records_in_a_working_directory() {
    let names: Vec<String> = ["metadata.toml", "7.md", "2024-01-28-issue-007.md", "2024-01-01-issue-008.md"]
        .iter()
        .map(|s| s.to_string())
        .collect();
    assert_eq!(load_issue(&names, 7), Ok("2024-01-28-issue-007.md".to_string()));
    assert_eq!(load_issue(&names, 8), Ok("2024-01-01-issue-008.md".to_string()));
    assert_eq!(load_issue(&names, 9), Err(ItackError::IssueNotFound(9)));
    let legacy = vec!["7.md".to_string()];
    assert_eq!(load_issue(&legacy, 7), Ok("7.md".to_string()));
    assert_eq!(load_issue(&legacy, 70), Err(ItackError::IssueNotFound(70)));
    assert_eq!(load_issue(&vec![], 1), Err(ItackError::IssueNotFound(1)));
}

#[test]
fn test_done_nonexistent_issue() {
    let tree = data_tree();
    let err = load_issue_from_data_branch(Some(&tree), 999).unwrap_err();
    assert_eq!(err.to_string(), "Issue 999 not found");
}

#[test]
fn a_record_is_loaded_from_the_data_branch() {
    let tree = data_tree();
    assert_eq!(
        load_issue_from_data_branch(Some(&tree), 2),
        Ok((".itack/2.md".to_string(), Leaf { id: "i2".to_string(), mode: BLOB_MODE }))
    );
    assert_eq!(load_issue_from_data_branch(None, 2), Err(ItackError::IssueNotFound(2)));
}

#[test]
fn text_helpers() {
    let text = chars_of("a--b---c");
    let pat = chars_of("---");
    assert_eq!(find_from(&text, 0, &pat), Some(4));
    assert_eq!(find_from(&text, 5, &pat), None);
    assert_eq!(find_from(&text, 0, &chars_of("")), Some(0));
    assert_eq!(find_from(&text, 8, &chars_of("")), Some(8));
    assert_eq!(find_from(&text, 9, &chars_of("")), None);
    assert_eq!(string_of(&text, 1, 4), "--b");
    assert_eq!(chars_of("\u{e9}\u{4e16}"), vec!['\u{e9}', '\u{4e16}']);
    assert!(text_contains("needle in hay", "in"));
    assert!(!text_contains("hay", "needle"));
    assert_eq!(numbered("#", 0, "!"), "#0!");
    assert_eq!(numbered("", 4294967295, ""), "4294967295");
    assert_eq!(numbered("", 1000, ""), "1000");
}
