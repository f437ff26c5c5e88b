use itack::storage::db::{Claim, Database, SCHEMA_VERSION};
use itack::{Issue, ItackError, Status, Timestamp};

fn at(secs: i64) -> Timestamp {
    Timestamp { secs, nanos: 0 }
}

fn setup_test_db() -> Database {
    Database::open("/tmp/itack.db", true, None, &vec![]).unwrap()
}

fn record(id: u32, assignee: Option<&str>, created: i64) -> Issue {
    let mut issue = Issue::at(id, at(created));
    issue.assignee = assignee.map(|a| a.to_string());
    issue
}

#[test]
fn test_next_issue_id() {
    let mut db = setup_test_db();

    assert_eq!(db.next_issue_id().unwrap(), 1);
    assert_eq!(db.next_issue_id().unwrap(), 2);
    assert_eq!(db.next_issue_id().unwrap(), 3);
    assert_eq!(db.peek_next_issue_id().unwrap(), 4);
}

#[test]
fn db_test_claim_and_release() {
    let mut db = setup_test_db();

    // Claim should succeed
    db.claim(1, "agent-1").unwrap();
    assert_eq!(
        db.get_claim(1).unwrap().map(|(a, _)| a),
        Some("agent-1".to_string())
    );

    // Second claim should fail
    let err = db.claim(1, "agent-2").unwrap_err();
    assert!(matches!(err, ItackError::AlreadyClaimed(1, _)));

    // Release should succeed
    db.release(1).unwrap();
    assert!(db.get_claim(1).unwrap().is_none());

    // Now agent-2 can claim
    db.claim(1, "agent-2").unwrap();
    assert_eq!(
        db.get_claim(1).unwrap().map(|(a, _)| a),
        Some("agent-2".to_string())
    );
}

#[test]
fn test_release_unclaimed() {
    let mut db = setup_test_db();

    let err = db.release(1).unwrap_err();
    assert!(matches!(err, ItackError::NotClaimed(1)));
}

#[test]
fn open_needs_the_directory() {
    assert_eq!(
        Database::open("/home/u/.itack/p.db", false, None, &vec![]).err(),
        Some(ItackError::DatabaseNotFound("/home/u/.itack/p.db".to_string()))
    );
    assert!(Database::open_or_create(None, &vec![]).is_ok());
}

#[test]
fn a_fresh_ledger_is_current_and_empty() {
    let db = setup_test_db();
    assert_eq!(db.get_schema_version(), Ok(SCHEMA_VERSION));
    assert_eq!(db.get_schema_version(), Ok(1));
    assert_eq!(db.peek_next_issue_id(), Ok(1));
    assert_eq!(db.list_claims(), Ok(vec![]));
}

#[test]
fn a_claim_conflict_names_the_holder() {
    let mut db = setup_test_db();
    assert_eq!(db.claim_at(7, "agent-1", at(10)), Ok(()));
    assert_eq!(
        db.claim_at(7, "agent-2", at(20)),
        Err(ItackError::AlreadyClaimed(7, "agent-1".to_string()))
    );
    assert_eq!(db.get_claim(7), Ok(Some(("agent-1".to_string(), at(10)))));
    // The same assignee cannot claim twice either.
    assert_eq!(
        db.claim_at(7, "agent-1", at(30)),
        Err(ItackError::AlreadyClaimed(7, "agent-1".to_string()))
    );
    assert_eq!(db.release(7), Ok(()));
    assert_eq!(db.claim_at(7, "agent-2", at(40)), Ok(()));
    assert_eq!(db.get_claim(7), Ok(Some(("agent-2".to_string(), at(40)))));
}

#[test]
fn either_of_two_claimants_can_win() {
    for (first, second) in [("a", "b"), ("b", "a")] {
        let mut db = setup_test_db();
        assert_eq!(db.claim_at(1, first, at(1)), Ok(()));
        assert_eq!(
            db.claim_at(1, second, at(1)),
            Err(ItackError::AlreadyClaimed(1, first.to_string()))
        );
        assert_eq!(db.list_claims().unwrap().len(), 1);
    }
}

#[test]
fn claims_on_other_issues_do_not_interfere() {
    let mut db = setup_test_db();
    for id in [5u32, 1, 9, 3] {
        assert_eq!(db.claim_at(id, "agent", at(id as i64)), Ok(()));
    }
    assert_eq!(
        db.list_claims().unwrap(),
        vec![
            (1, "agent".to_string(), at(1)),
            (3, "agent".to_string(), at(3)),
            (5, "agent".to_string(), at(5)),
            (9, "agent".to_string(), at(9)),
        ]
    );
    assert_eq!(db.release(5), Ok(()));
    assert_eq!(db.release(5), Err(ItackError::NotClaimed(5)));
    assert_eq!(
        db.list_claims().unwrap().iter().map(|c| c.0).collect::<Vec<u32>>(),
        vec![1, 3, 9]
    );
    assert_eq!(db.get_claim(4), Ok(None));
}

#[test]
fn claim_now_stamps_the_claim() {
    let mut db = setup_test_db();
    db.claim(3, "agent").unwrap();
    let (who, since) = db.get_claim(3).unwrap().unwrap();
    assert_eq!(who, "agent");
    assert!(since.secs > 1_600_000_000);
}

#[test]
fn identifiers_are_consecutive() {
    let mut db = Database::stored(SCHEMA_VERSION, 41, vec![]);
    let mut handed = Vec::new();
    for _ in 0..5 {
        handed.push(db.next_issue_id().unwrap());
    }
    assert_eq!(handed, vec![41, 42, 43, 44, 45]);
    assert_eq!(db.peek_next_issue_id(), Ok(46));
}

#[test]
fn the_counter_stops_at_the_largest_identifier() {
    let mut db = Database::stored(SCHEMA_VERSION, u32::MAX - 1, vec![]);
    assert_eq!(db.next_issue_id(), Ok(u32::MAX - 1));
    assert_eq!(
        db.next_issue_id(),
        Err(ItackError::Other("No issue identifier is left".to_string()))
    );
    assert_eq!(db.peek_next_issue_id(), Ok(u32::MAX));
}

#[test]
fn rebuild_counts_from_the_largest_identifier() {
    let records = vec![record(3, None, 1), record(12, Some("a"), 2), record(7, Some("b"), 3)];
    let mut db = Database::open("/x/p.db", true, None, &records).unwrap();
    assert_eq!(db.peek_next_issue_id(), Ok(13));
    assert_eq!(db.next_issue_id(), Ok(13));
    assert_eq!(
        db.list_claims().unwrap(),
        vec![(7, "b".to_string(), at(3)), (12, "a".to_string(), at(2))]
    );
    assert_eq!(db.get_schema_version(), Ok(1));
}

#[test]
fn rebuild_of_the_largest_identifier_hands_out_none() {
    let records = vec![record(u32::MAX, None, 1)];
    let mut db = Database::open_or_create(None, &records).unwrap();
    assert_eq!(db.peek_next_issue_id(), Ok(u32::MAX));
    assert!(db.next_issue_id().is_err());
}

#[test]
fn a_stale_ledger_is_rebuilt_on_open() {
    let rows = vec![Claim { issue_id: 99, assignee: "ghost".to_string(), claimed_at: at(0) }];
    let stale = Database::stored(0, 500, rows);
    let records = vec![record(2, Some("agent"), 77)];
    let db = Database::open("/x/p.db", true, Some(stale), &records).unwrap();
    assert_eq!(db.get_schema_version(), Ok(1));
    assert_eq!(db.peek_next_issue_id(), Ok(3));
    assert_eq!(db.list_claims().unwrap(), vec![(2, "agent".to_string(), at(77))]);
}

#[test]
fn a_current_ledger_is_kept_on_open() {
    let rows = vec![Claim { issue_id: 99, assignee: "ghost".to_string(), claimed_at: at(5) }];
    let held = Database::stored(SCHEMA_VERSION, 500, rows);
    let records = vec![record(2, Some("agent"), 77)];
    let mut db = Database::open("/x/p.db", true, Some(held), &records).unwrap();
    assert_eq!(db.peek_next_issue_id(), Ok(500));
    assert_eq!(db.list_claims().unwrap(), vec![(99, "ghost".to_string(), at(5))]);
    // create_or_rebuild finds the version current and leaves the ledger alone.
    assert_eq!(db.create_or_rebuild(&records), Ok(()));
    assert_eq!(db.peek_next_issue_id(), Ok(500));
    // repair_state runs whatever the version is.
    assert_eq!(db.repair_state(&records), Ok(()));
    assert_eq!(db.peek_next_issue_id(), Ok(3));
    assert_eq!(db.list_claims().unwrap(), vec![(2, "agent".to_string(), at(77))]);
}

#[test]
fn repair_keeps_the_version() {
    let mut db = Database::stored(0, 9, vec![]);
    assert_eq!(db.repair_state(&vec![]), Ok(()));
    assert_eq!(db.get_schema_version(), Ok(0));
    assert_eq!(db.peek_next_issue_id(), Ok(1));
}

#[test]
fn rebuild_does_not_depend_on_scan_order() {
    let a = vec![record(1, Some("x"), 10), record(2, None, 20), record(3, Some("y"), 30)];
    let b = vec![record(3, Some("y"), 30), record(1, Some("x"), 10), record(2, None, 20)];
    let da = Database::open_or_create(None, &a).unwrap();
    let db = Database::open_or_create(None, &b).unwrap();
    assert_eq!(da.list_claims(), db.list_claims());
    assert_eq!(da.peek_next_issue_id(), db.peek_next_issue_id());
    assert_eq!(da.peek_next_issue_id(), Ok(4));
    // Rebuilding twice from the same records gives the same ledger.
    let mut again = Database::open_or_create(None, &a).unwrap();
    again.repair_state(&a).unwrap();
    assert_eq!(again.list_claims(), da.list_claims());
    assert_eq!(again.peek_next_issue_id(), da.peek_next_issue_id());
}

#[test]
fn of_two_records_for_one_issue_the_later_counts() {
    let records = vec![record(1, Some("first"), 10), record(1, Some("second"), 20)];
    let db = Database::open_or_create(None, &records).unwrap();
    assert_eq!(db.list_claims().unwrap(), vec![(1, "second".to_string(), at(20))]);
}

#[test]
fn stored_rows_are_listed_by_issue() {
    let rows = vec![
        Claim { issue_id: 8, assignee: "c".to_string(), claimed_at: at(3) },
        Claim { issue_id: 2, assignee: "a".to_string(), claimed_at: at(1) },
        Claim { issue_id: 8, assignee: "d".to_string(), claimed_at: at(4) },
    ];
    let db = Database::stored(1, 9, rows);
    assert_eq!(
        db.list_claims().unwrap(),
        vec![(2, "a".to_string(), at(1)), (8, "d".to_string(), at(4))]
    );
}

#[test]
fn two_creators_get_distinct_identifiers() {
    // Two processes allocate against the one ledger; the ledger serves them one by one.
    let mut db = setup_test_db();
    let first = db.next_issue_id().unwrap();
    let second = db.next_issue_id().unwrap();
    assert_ne!(first, second);
    assert_eq!((first, second), (1, 2));
}

#[test]
fn status_does_not_matter_to_a_rebuild() {
    let mut done = record(4, Some("a"), 1);
    done.status = Status::Done;
    let db = Database::open_or_create(None, &vec![done]).unwrap();
    assert_eq!(db.list_claims().unwrap(), vec![(4, "a".to_string(), at(1))]);
}

#[test]
fn stored_rows_hold_their_moment_as_text() {
    assert_eq!(
        Claim::from_row(3, "agent".to_string(), "2024-01-15T10:30:00Z"),
        Ok(Claim { issue_id: 3, assignee: "agent".to_string(), claimed_at: at(1705314600) })
    );
    assert_eq!(
        Claim::from_row(3, "agent".to_string(), "2024-01-15T12:30:00.5+02:00"),
        Ok(Claim {
            issue_id: 3,
            assignee: "agent".to_string(),
            claimed_at: Timestamp { secs: 1705314600, nanos: 500_000_000 },
        })
    );
    let row = Claim { issue_id: 3, assignee: "agent".to_string(), claimed_at: at(1705314600) };
    assert_eq!(row.claimed_at_text(), Some("2024-01-15T10:30:00+00:00".to_string()));
    let never = Claim { issue_id: 3, assignee: "agent".to_string(), claimed_at: at(i64::MAX) };
    assert_eq!(never.claimed_at_text(), None);
}

#[test]
fn an_unreadable_moment_is_reported() {
    let err = Claim::from_row(3, "agent".to_string(), "yesterday").unwrap_err();
    match err {
        ItackError::Other(text) => {
            assert!(text.starts_with("Invalid claimed_at timestamp: "));
            assert!(text.len() > "Invalid claimed_at timestamp: ".len());
        }
        other => panic!("{:?}", other),
    }
    assert_eq!(
        Claim::with_moment(1, "a".to_string(), Err("why".to_string())),
        Err(ItackError::Other("Invalid claimed_at timestamp: why".to_string()))
    );
    assert_eq!(
        Claim::with_moment(1, "a".to_string(), Ok(at(5))),
        Ok(Claim { issue_id: 1, assignee: "a".to_string(), claimed_at: at(5) })
    );
}
