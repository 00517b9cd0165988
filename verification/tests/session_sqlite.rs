use pi_core::error::Error;
use pi_core::json::JsonValue;
use pi_core::session_sqlite::{
    append_entries, compute_message_count_and_name, read_meta, require_session, save_session,
    session_error, session_meta, BranchSummaryEntry, CompactionEntry, CustomEntry, EntryBase,
    LabelEntry, MessageEntry, ModelChangeEntry, SessionEntry, SessionHeader, SessionInfoEntry,
    SessionMessage, SessionOp, SqliteSessionMeta, StoredMeta, ThinkingLevelChangeEntry,
    UserContent, INIT_SQL, SELECT_ENTRIES_SQL, SELECT_HEADER_SQL, SELECT_META_SQL, WAL_SQL,
};

fn dummy_base() -> EntryBase {
    EntryBase {
        id: Some("test-id".to_string()),
        parent_id: None,
        timestamp: "2026-01-01T00:00:00.000Z".to_string(),
    }
}

fn message_entry() -> SessionEntry {
    SessionEntry::Message(MessageEntry {
        base: dummy_base(),
        message: SessionMessage::User {
            content: UserContent::Text("hello".to_string()),
            timestamp: None,
        },
    })
}

fn session_info_entry(name: Option<String>) -> SessionEntry {
    SessionEntry::SessionInfo(SessionInfoEntry {
        base: dummy_base(),
        name,
    })
}

#[test]
fn compute_counts_empty() {
    let (count, name) = compute_message_count_and_name(&[]);
    assert_eq!(count, 0);
    assert!(name.is_none());
}

#[test]
fn compute_counts_messages_only() {
    let entries = vec![message_entry(), message_entry(), message_entry()];
    let (count, name) = compute_message_count_and_name(&entries);
    assert_eq!(count, 3);
    assert!(name.is_none());
}

#[test]
fn compute_counts_session_info_with_name() {
    let entries = vec![
        message_entry(),
        session_info_entry(Some("My Session".to_string())),
        message_entry(),
    ];
    let (count, name) = compute_message_count_and_name(&entries);
    assert_eq!(count, 2);
    assert_eq!(name, Some("My Session".to_string()));
}

#[test]
fn compute_counts_session_info_none_name_ignored() {
    let entries = vec![
        session_info_entry(Some("First".to_string())),
        session_info_entry(None),
        message_entry(),
    ];
    let (count, name) = compute_message_count_and_name(&entries);
    assert_eq!(count, 1);
    // The second SessionInfo has name=None, so it doesn't overwrite.
    assert_eq!(name, Some("First".to_string()));
}

#[test]
fn compute_counts_latest_name_wins() {
    let entries = vec![
        session_info_entry(Some("First".to_string())),
        session_info_entry(Some("Second".to_string())),
    ];
    let (_, name) = compute_message_count_and_name(&entries);
    assert_eq!(name, Some("Second".to_string()));
}

#[test]
fn compute_counts_ignores_model_change_entries() {
    let entries = vec![
        message_entry(),
        SessionEntry::ModelChange(ModelChangeEntry {
            base: dummy_base(),
            provider: "anthropic".to_string(),
            model_id: "sonnet-4-5".to_string(),
        }),
        message_entry(),
    ];
    let (count, name) = compute_message_count_and_name(&entries);
    assert_eq!(count, 2);
    assert!(name.is_none());
}

#[test]
fn compute_counts_ignores_label_entries() {
    let entries = vec![
        message_entry(),
        SessionEntry::Label(LabelEntry {
            base: dummy_base(),
            target_id: "some-id".to_string(),
            label: Some("important".to_string()),
        }),
    ];
    let (count, name) = compute_message_count_and_name(&entries);
    assert_eq!(count, 1);
    assert!(name.is_none());
}

#[test]
fn compute_counts_ignores_custom_entries() {
    let entries = vec![
        SessionEntry::Custom(CustomEntry {
            base: dummy_base(),
            custom_type: "my_custom".to_string(),
            data: Some(JsonValue::from_text("{\"key\":\"value\"}")),
        }),
        message_entry(),
    ];
    let (count, name) = compute_message_count_and_name(&entries);
    assert_eq!(count, 1);
    assert!(name.is_none());
}

#[test]
fn compute_counts_ignores_compaction_entries() {
    let entries = vec![
        message_entry(),
        SessionEntry::Compaction(CompactionEntry {
            base: dummy_base(),
            summary: "summary text".to_string(),
            first_kept_entry_id: "e1".to_string(),
            tokens_before: 500,
            details: None,
            from_hook: None,
        }),
        message_entry(),
        message_entry(),
    ];
    let (count, name) = compute_message_count_and_name(&entries);
    assert_eq!(count, 3);
    assert!(name.is_none());
}

#[test]
fn compute_counts_mixed_entry_types() {
    let entries = vec![
        message_entry(),
        SessionEntry::ModelChange(ModelChangeEntry {
            base: dummy_base(),
            provider: "openai".to_string(),
            model_id: "gpt-4".to_string(),
        }),
        session_info_entry(Some("Named".to_string())),
        SessionEntry::Label(LabelEntry {
            base: dummy_base(),
            target_id: "t1".to_string(),
            label: None,
        }),
        message_entry(),
        SessionEntry::Compaction(CompactionEntry {
            base: dummy_base(),
            summary: "s".to_string(),
            first_kept_entry_id: "e1".to_string(),
            tokens_before: 100,
            details: None,
            from_hook: None,
        }),
        SessionEntry::Custom(CustomEntry {
            base: dummy_base(),
            custom_type: "ct".to_string(),
            data: None,
        }),
        message_entry(),
    ];
    let (count, name) = compute_message_count_and_name(&entries);
    assert_eq!(count, 3);
    assert_eq!(name, Some("Named".to_string()));
}

#[test]
fn sqlite_session_meta_fields() {
    let meta = SqliteSessionMeta {
        header: SessionHeader {
            id: "test-session".to_string(),
            ..SessionHeader::default()
        },
        message_count: 42,
        name: Some("My Session".to_string()),
    };
    assert_eq!(meta.header.id, "test-session");
    assert_eq!(meta.message_count, 42);
    assert_eq!(meta.name.as_deref(), Some("My Session"));
}

#[test]
fn sqlite_session_meta_no_name() {
    let meta = SqliteSessionMeta {
        header: SessionHeader::default(),
        message_count: 0,
        name: None,
    };
    assert_eq!(meta.message_count, 0);
    assert!(meta.name.is_none());
}

#[test]
fn compute_counts_large_message_set() {
    let entries: Vec<SessionEntry> = (0..1000).map(|_| message_entry()).collect();
    let (count, name) = compute_message_count_and_name(&entries);
    assert_eq!(count, 1000);
    assert!(name.is_none());
}

#[test]
fn compute_counts_name_set_early_persists() {
    let entries = vec![
        session_info_entry(Some("Early Name".to_string())),
        message_entry(),
        message_entry(),
        message_entry(),
    ];
    let (count, name) = compute_message_count_and_name(&entries);
    assert_eq!(count, 3);
    assert_eq!(name, Some("Early Name".to_string()));
}

#[test]
fn compute_counts_ignores_branch_summary() {
    let entries = vec![
        message_entry(),
        SessionEntry::BranchSummary(BranchSummaryEntry {
            base: dummy_base(),
            from_id: "parent-id".to_string(),
            summary: "branch summary".to_string(),
            details: None,
            from_hook: None,
        }),
    ];
    let (count, name) = compute_message_count_and_name(&entries);
    assert_eq!(count, 1);
    assert!(name.is_none());
}

#[test]
fn compute_counts_ignores_thinking_level_change() {
    let entries = vec![
        SessionEntry::ThinkingLevelChange(ThinkingLevelChangeEntry {
            base: dummy_base(),
            thinking_level: "high".to_string(),
        }),
        message_entry(),
    ];
    let (count, name) = compute_message_count_and_name(&entries);
    assert_eq!(count, 1);
    assert!(name.is_none());
}

fn header(id: &str) -> SessionHeader {
    SessionHeader { id: id.to_string(), ..SessionHeader::default() }
}

fn strings(items: &[&str]) -> Vec<String> {
    items.iter().map(|s| s.to_string()).collect()
}

#[test]
fn saving_clears_and_inserts() {
    let entries = vec![message_entry(), session_info_entry(Some("N".to_string()))];
    let ops = save_session(&header("s1"), "{\"id\":\"s1\"}", &entries, &strings(&["e1", "e2"]));
    assert_eq!(
        ops,
        vec![
            SessionOp::DeleteEntries,
            SessionOp::DeleteHeader,
            SessionOp::DeleteMeta,
            SessionOp::InsertHeader { id: "s1".to_string(), json: "{\"id\":\"s1\"}".to_string() },
            SessionOp::InsertEntry { seq: 1, json: "e1".to_string() },
            SessionOp::InsertEntry { seq: 2, json: "e2".to_string() },
            SessionOp::InsertMeta { key: "message_count".to_string(), value: "1".to_string() },
            SessionOp::InsertMeta { key: "name".to_string(), value: "N".to_string() },
        ]
    );
}

#[test]
fn appending_starts_at_the_given_number() {
    let ops = append_entries(&strings(&["e3", "e4"]), 3, 12, None);
    assert_eq!(
        ops,
        vec![
            SessionOp::InsertEntry { seq: 3, json: "e3".to_string() },
            SessionOp::InsertEntry { seq: 4, json: "e4".to_string() },
            SessionOp::UpsertMeta { key: "message_count".to_string(), value: "12".to_string() },
        ]
    );
    let ops = append_entries(&strings(&["e"]), usize::MAX, 0, Some("N"));
    assert_eq!(ops[0], SessionOp::InsertEntry { seq: i64::MAX, json: "e".to_string() });
    assert_eq!(
        ops[2],
        SessionOp::UpsertMeta { key: "name".to_string(), value: "N".to_string() }
    );
}

#[test]
fn metadata_is_read_from_rows() {
    let row = |k: &str, v: &str| (k.to_string(), v.to_string());
    let meta = read_meta(&vec![row("name", "A"), row("message_count", "7"), row("other", "x")]);
    assert_eq!(meta.message_count, Some(7));
    assert_eq!(meta.name.as_deref(), Some("A"));
    let meta = read_meta(&vec![row("message_count", "7"), row("message_count", "many")]);
    assert_eq!(meta.message_count, None);
    assert!(meta.name.is_none());
    let meta = read_meta(&Vec::new());
    assert_eq!(meta.message_count, None);
}

#[test]
fn missing_counts_are_computed() {
    let entries = vec![message_entry(), session_info_entry(Some("N".to_string()))];
    let stored = |count: Option<u64>, name: Option<&str>| StoredMeta {
        message_count: count,
        name: name.map(str::to_string),
    };
    let meta = session_meta(header("h"), stored(None, None), &entries);
    assert_eq!((meta.message_count, meta.name.as_deref()), (1, Some("N")));
    let meta = session_meta(header("h"), stored(None, Some("S")), &entries);
    assert_eq!((meta.message_count, meta.name.as_deref()), (1, Some("S")));
    let meta = session_meta(header("h"), stored(Some(9), None), &entries);
    assert_eq!((meta.message_count, meta.name.as_deref()), (9, None));
    assert_eq!(meta.header.id, "h");
}

#[test]
fn failures_name_the_step() {
    assert_eq!(
        session_error("Failed to open SQLite session", "locked"),
        Error::Session("Failed to open SQLite session: locked".to_string())
    );
    let errors = [
        (SessionOp::DeleteEntries, "Failed to delete entries: x"),
        (SessionOp::DeleteHeader, "Failed to delete header: x"),
        (SessionOp::DeleteMeta, "Failed to delete meta: x"),
        (
            SessionOp::InsertHeader { id: String::new(), json: String::new() },
            "Failed to insert header: x",
        ),
        (SessionOp::InsertEntry { seq: 1, json: String::new() }, "Failed to insert entry: x"),
        (
            SessionOp::InsertMeta { key: "message_count".to_string(), value: String::new() },
            "Failed to insert message_count: x",
        ),
        (
            SessionOp::UpsertMeta { key: "name".to_string(), value: String::new() },
            "Failed to upsert name: x",
        ),
    ];
    for (op, message) in errors {
        assert_eq!(op.error("x"), Error::Session(message.to_string()));
    }
    assert_eq!(require_session("/s", true), Ok(()));
    assert_eq!(
        require_session("/s", false),
        Err(Error::SessionNotFound { path: "/s".to_string() })
    );
}

fn open() -> rusqlite::Connection {
    let conn = rusqlite::Connection::open_in_memory().unwrap();
    conn.execute_batch(INIT_SQL).unwrap();
    conn.execute_batch(WAL_SQL).unwrap();
    conn
}

fn run(conn: &rusqlite::Connection, ops: &[SessionOp]) -> Result<(), rusqlite::Error> {
    for op in ops {
        match op {
            SessionOp::DeleteEntries | SessionOp::DeleteHeader | SessionOp::DeleteMeta => {
                conn.execute(op.sql(), [])?;
            }
            SessionOp::InsertHeader { id, json } => {
                conn.execute(op.sql(), (id, json))?;
            }
            SessionOp::InsertEntry { seq, json } => {
                conn.execute(op.sql(), (seq, json))?;
            }
            SessionOp::InsertMeta { key, value } | SessionOp::UpsertMeta { key, value } => {
                conn.execute(op.sql(), (key, value))?;
            }
        }
    }
    Ok(())
}

fn stored_entries(conn: &rusqlite::Connection) -> Vec<String> {
    let mut stmt = conn.prepare(SELECT_ENTRIES_SQL).unwrap();
    let rows = stmt.query_map([], |row| row.get(0)).unwrap();
    rows.map(|r| r.unwrap()).collect()
}

fn stored_meta(conn: &rusqlite::Connection) -> StoredMeta {
    let mut stmt = conn.prepare(SELECT_META_SQL).unwrap();
    let rows = stmt.query_map([], |row| Ok((row.get(0)?, row.get(1)?))).unwrap();
    read_meta(&rows.map(|r| r.unwrap()).collect())
}

#[test]
fn what_was_saved_is_read_back() {
    let conn = open();
    let entries = vec![message_entry(), session_info_entry(Some("N".to_string()))];
    run(&conn, &save_session(&header("s0"), "old", &[], &Vec::new())).unwrap();
    run(&conn, &save_session(&header("s1"), "h1", &entries, &strings(&["e1", "e2"]))).unwrap();
    let json: String = conn.query_row(SELECT_HEADER_SQL, [], |row| row.get(0)).unwrap();
    assert_eq!(json, "h1");
    assert_eq!(stored_entries(&conn), strings(&["e1", "e2"]));
    let meta = stored_meta(&conn);
    assert_eq!(meta.message_count, Some(1));
    assert_eq!(meta.name.as_deref(), Some("N"));
}

#[test]
fn appending_continues_a_saved_session() {
    let all = vec![message_entry(), session_info_entry(Some("N".to_string())), message_entry()];
    let jsons = strings(&["e1", "e2", "e3"]);
    let whole = open();
    run(&whole, &save_session(&header("s"), "h", &all, &jsons)).unwrap();
    let parts = open();
    run(&parts, &save_session(&header("s"), "h", &all[..1], &jsons[..1].to_vec())).unwrap();
    let (count, name) = compute_message_count_and_name(&all);
    run(&parts, &append_entries(&jsons[1..].to_vec(), 2, count, name.as_deref())).unwrap();
    assert_eq!(stored_entries(&whole), stored_entries(&parts));
    let json: String = parts.query_row(SELECT_HEADER_SQL, [], |row| row.get(0)).unwrap();
    assert_eq!(json, "h");
    assert_eq!(stored_meta(&whole).message_count, stored_meta(&parts).message_count);
    assert_eq!(stored_meta(&whole).name, stored_meta(&parts).name);
}

#[test]
fn taken_numbers_cannot_be_inserted_again() {
    let conn = open();
    run(&conn, &append_entries(&strings(&["a"]), 1, 1, None)).unwrap();
    assert!(run(&conn, &append_entries(&strings(&["b"]), 1, 1, None)).is_err());
    assert_eq!(stored_entries(&conn), strings(&["a"]));
}

#[test]
fn appended_entries_follow_the_saved_ones_whatever_the_totals() {
    let conn = open();
    let saved = vec![message_entry(), session_info_entry(Some("N".to_string()))];
    run(&conn, &save_session(&header("s"), "h", &saved, &strings(&["a", "b"]))).unwrap();
    run(&conn, &append_entries(&strings(&["c", "d"]), 3, 99, None)).unwrap();
    assert_eq!(stored_entries(&conn), strings(&["a", "b", "c", "d"]));
    let json: String = conn.query_row(SELECT_HEADER_SQL, [], |row| row.get(0)).unwrap();
    assert_eq!(json, "h");
    let meta = stored_meta(&conn);
    assert_eq!(meta.message_count, Some(99));
    assert_eq!(meta.name.as_deref(), Some("N"));
}
