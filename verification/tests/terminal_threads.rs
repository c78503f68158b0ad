use std::collections::HashSet;

use worktree_sessions::metadata_store::{
    dedup_db_operations, DbOperation, TerminalThreadMetadataStore, TestTerminalMetadataDbName,
};
use worktree_sessions::path::TreePath;
use worktree_sessions::row::{RowError, SerializedPathList, TerminalThreadRow};
use worktree_sessions::status_store::{
    AgentThreadStatus, TerminalThreadStatusStore, RUNNING_STATUS_FRAME_COUNT,
};
use worktree_sessions::terminal_id::{
    terminal_thread_tmux_session_name, TerminalId, TERMINAL_THREAD_TMUX_SERVER_NAME,
};
use worktree_sessions::terminal_thread::{
    InvalidTerminalThreadValue, PathList, RemoteConnection, TerminalThreadKind,
    TerminalThreadLifecycleState, TerminalThreadMetadata, TerminalThreadProvider,
    TerminalThreadRegistryMetadata, WorktreePaths,
};
use worktree_sessions::timestamp::{Timestamp, FIRST_SECOND, LAST_SECOND};
use worktree_sessions::title::{
    compose_terminal_thread_title, terminal_title_for_persistence, terminal_title_prefix,
    terminal_title_without_prefix,
};

fn new_id() -> TerminalId {
    TerminalId { value: uuid::Uuid::new_v4().as_u128() }
}

fn paths(texts: &[&str]) -> PathList {
    PathList {
        paths: texts.iter().map(|text| TreePath::parse(text)).collect(),
        order: (0..texts.len()).collect(),
    }
}

fn metadata(title: &str, worktree_paths: WorktreePaths) -> TerminalThreadMetadata {
    let terminal_id = new_id();
    TerminalThreadMetadata {
        terminal_id,
        title: title.to_string(),
        custom_title: None,
        created_at: Timestamp::now(),
        worktree_paths,
        remote_connection: None,
        working_directory: None,
        initial_command: None,
        registry: TerminalThreadRegistryMetadata::detached(
            terminal_id,
            TerminalThreadKind::Shell,
            None,
        ),
    }
}

fn no_list() -> SerializedPathList {
    SerializedPathList { paths: String::new(), order: String::new() }
}

fn same_registry(a: &TerminalThreadRegistryMetadata, b: &TerminalThreadRegistryMetadata) -> bool {
    format!("{:?}", a) == format!("{:?}", b)
}

#[test]
fn infers_codex_provider_from_launch_metadata() {
    assert_eq!(
        TerminalThreadProvider::from_launch_metadata(Some("codex"), None),
        Some(TerminalThreadProvider::Codex)
    );
    assert_eq!(
        TerminalThreadProvider::from_launch_metadata(
            Some("/opt/homebrew/bin/codex --sandbox read-only"),
            None
        ),
        Some(TerminalThreadProvider::Codex)
    );
    assert_eq!(
        TerminalThreadProvider::from_launch_metadata(None, Some("Codex")),
        Some(TerminalThreadProvider::Codex)
    );
    assert_eq!(
        TerminalThreadProvider::from_launch_metadata(Some("fish"), Some("Codex")),
        None
    );
    assert_eq!(
        TerminalThreadProvider::from_launch_metadata(Some("echo codex"), None),
        None
    );
}

#[test]
fn quoted_and_prefixed_launch_commands() {
    assert_eq!(
        TerminalThreadProvider::from_launch_metadata(Some("  'codex' resume"), None),
        Some(TerminalThreadProvider::Codex)
    );
    assert_eq!(
        TerminalThreadProvider::from_launch_metadata(Some("codex-nightly"), None),
        Some(TerminalThreadProvider::Codex)
    );
    assert_eq!(
        TerminalThreadProvider::from_launch_metadata(Some("codexish"), None),
        None
    );
    assert_eq!(TerminalThreadProvider::from_launch_metadata(Some(""), Some("Codex")), None);
    assert_eq!(TerminalThreadProvider::from_launch_metadata(None, None), None);
}

#[test]
fn test_terminal_title_prefix_preserves_non_alphanumeric_prefixes() {
    assert_eq!(terminal_title_prefix("✳ Thinking"), Some("✳ "));
    assert_eq!(terminal_title_prefix(">>>   Thinking"), Some(">>>   "));
    assert_eq!(terminal_title_prefix("⠋ Running"), Some("⠋ "));
    assert_eq!(terminal_title_prefix("* Agent"), Some("* "));
    assert_eq!(terminal_title_prefix("✳Thinking"), None);
    assert_eq!(terminal_title_prefix("Thinking"), None);
    assert_eq!(terminal_title_prefix(" Thinking"), None);
    assert_eq!(terminal_title_prefix("✳"), None);
    assert_eq!(terminal_title_prefix("v1 Running"), None);
}

#[test]
fn title_is_its_prefix_and_the_rest() {
    for title in ["✳ Thinking", ">>>   ", "Thinking", "", "é x", "- 一"] {
        let prefix = terminal_title_prefix(title).unwrap_or("");
        assert_eq!(format!("{}{}", prefix, terminal_title_without_prefix(title)), title);
    }
    assert_eq!(terminal_title_prefix("é x"), None);
    assert_eq!(terminal_title_prefix("-\u{2003}x"), Some("-\u{2003}"));
}

#[test]
fn test_terminal_title_for_persistence_removes_live_activity() {
    assert_eq!(terminal_title_for_persistence("⠋ zed"), "zed");
    assert_eq!(terminal_title_for_persistence("[ ! ] Action Required | zed"), "zed");
    assert_eq!(terminal_title_for_persistence("[ . ] Action Required | zed"), "zed");
    assert_eq!(terminal_title_for_persistence("zed"), "zed");
}

#[test]
fn request_for_action_without_a_title_leaves_nothing() {
    assert_eq!(terminal_title_for_persistence("[ ! ] Action Required"), "");
    assert_eq!(terminal_title_for_persistence("[ ! ] Action Required | a | b"), "a | b");
}

#[test]
fn test_terminal_thread_display_title_combines_raw_and_custom_titles() {
    let mut metadata = metadata("⠋ Thinking", WorktreePaths::default());
    metadata.custom_title = Some("Fix bug".into());
    assert_eq!(metadata.display_title(), "⠋ Fix bug");

    metadata.title = "Thinking".into();
    assert_eq!(metadata.display_title(), "Fix bug");
}

#[test]
fn blank_custom_title_is_not_shown() {
    assert_eq!(compose_terminal_thread_title("⠋ zed", Some(" \t")), "⠋ zed");
    assert_eq!(compose_terminal_thread_title("zed", None), "zed");
}

#[test]
fn test_durable_registry_fields_round_trip_through_database() {
    let mut metadata = metadata("Codex", WorktreePaths::default());
    metadata.initial_command = Some("codex --profile work".to_string());
    metadata.registry = TerminalThreadRegistryMetadata::for_launch(
        metadata.terminal_id,
        metadata.initial_command.as_deref(),
        metadata.custom_title.as_deref(),
    );
    metadata.registry.provider_session_id = Some("provider-session-1".to_string());
    metadata.registry.mark_attached();
    let expected_registry = metadata.registry.clone();
    let terminal_id = metadata.terminal_id;

    let mut store = TerminalThreadMetadataStore::new();
    let saved = match store.save(metadata) {
        DbOperation::Upsert(saved) => saved,
        DbOperation::Delete(_) => panic!("a save writes the record"),
    };
    let row = TerminalThreadRow::from_metadata(&saved, no_list(), no_list());
    let read = match row.to_metadata(Some(WorktreePaths::default()), Ok(None)) {
        Ok(read) => read,
        Err(_) => panic!("terminal metadata should load"),
    };
    assert_eq!(read.terminal_id, terminal_id);
    assert_eq!(read.initial_command.as_deref(), Some("codex --profile work"));
    assert!(same_registry(&read.registry, &expected_registry));
    assert_eq!(read.registry.kind, TerminalThreadKind::Agent);
    assert_eq!(read.created_at, saved.created_at);
}

#[test]
fn rows_hold_every_column() {
    let mut metadata = metadata(
        "zed",
        WorktreePaths {
            main_worktree_paths: paths(&["/repo"]),
            folder_paths: paths(&["/repo-feature"]),
        },
    );
    metadata.custom_title = Some("Mine".to_string());
    metadata.working_directory = Some("/repo-feature/src".to_string());
    metadata.remote_connection =
        Some(RemoteConnection { identity: "host".to_string(), options: "{}".to_string() });
    metadata.created_at = Timestamp { seconds: 0, nanos: 1_500_000 };
    metadata.registry.updated_at = Timestamp { seconds: 86_400, nanos: 0 };
    let row = TerminalThreadRow::from_metadata(
        &metadata,
        SerializedPathList { paths: "/repo-feature".to_string(), order: "0".to_string() },
        SerializedPathList { paths: "/repo".to_string(), order: "1".to_string() },
    );
    assert_eq!(row.terminal_id, metadata.terminal_id.to_key_string());
    assert_eq!(row.title, "zed");
    assert_eq!(row.custom_title.as_deref(), Some("Mine"));
    assert_eq!(row.created_at, "1970-01-01T00:00:00.001500+00:00");
    assert_eq!(row.updated_at.as_deref(), Some("1970-01-02T00:00:00+00:00"));
    assert_eq!(row.working_directory.as_deref(), Some("/repo-feature/src"));
    assert_eq!(row.folder_paths.as_deref(), Some("/repo-feature"));
    assert_eq!(row.folder_paths_order.as_deref(), Some("0"));
    assert_eq!(row.main_worktree_paths.as_deref(), Some("/repo"));
    assert_eq!(row.main_worktree_paths_order.as_deref(), Some("1"));
    assert_eq!(row.remote_connection.as_deref(), Some("{}"));
    assert_eq!(row.terminal_kind, "shell");
    assert_eq!(row.provider, None);
    assert_eq!(row.tmux_server_name, "zed-terminal-threads");
    assert_eq!(row.lifecycle_state, "detached");
    assert_eq!(row.last_attached_at, None);

    metadata.worktree_paths = WorktreePaths::default();
    let row = TerminalThreadRow::from_metadata(&metadata, no_list(), no_list());
    assert_eq!(row.folder_paths, None);
    assert_eq!(row.folder_paths_order, None);
    assert_eq!(row.main_worktree_paths, None);
    assert_eq!(row.main_worktree_paths_order, None);
}

fn sample_row() -> TerminalThreadRow {
    let metadata = metadata("zed", WorktreePaths::default());
    TerminalThreadRow::from_metadata(&metadata, no_list(), no_list())
}

#[test]
fn empty_columns_fall_back() {
    let mut row = sample_row();
    row.tmux_session_name = Some(String::new());
    row.updated_at = None;
    row.custom_title = Some("  ".to_string());
    row.created_at = "2026-01-02T03:04:05+01:00".to_string();
    let read = match row.to_metadata(None, Ok(None)) {
        Ok(read) => read,
        Err(_) => panic!("the row should be read"),
    };
    assert_eq!(read.custom_title, None);
    assert_eq!(
        read.registry.tmux_session_name,
        terminal_thread_tmux_session_name(read.terminal_id)
    );
    assert_eq!(read.created_at, Timestamp { seconds: 1_767_319_445, nanos: 0 });
    assert_eq!(read.registry.updated_at, read.created_at);
    assert!(read.folder_paths().is_empty());

    let columns = SerializedPathList::from_columns(Some("/a".to_string()), None);
    let list = columns.unwrap();
    assert_eq!((list.paths.as_str(), list.order.as_str()), ("/a", ""));
    assert!(SerializedPathList::from_columns(None, Some("0".to_string())).is_none());
}

#[test]
fn each_bad_column_is_refused() {
    let refused = |row: &TerminalThreadRow| match row.to_metadata(None, Ok(None)) {
        Ok(_) => panic!("the row should be refused"),
        Err(error) => error,
    };
    let row = sample_row();
    assert!(matches!(
        row.to_metadata(None, Err("bad options".to_string())),
        Err(RowError::RemoteConnection(message)) if message == "bad options"
    ));
    let mut row = sample_row();
    row.terminal_id = "not-a-uuid".to_string();
    assert!(matches!(refused(&row), RowError::TerminalId(error) if error.value == "not-a-uuid"));
    let mut row = sample_row();
    row.created_at = "yesterday".to_string();
    assert!(matches!(refused(&row), RowError::Moment(value) if value == "yesterday"));
    let mut row = sample_row();
    row.terminal_kind = "robot".to_string();
    match refused(&row) {
        RowError::Value(error) => {
            assert_eq!(error.message(), "invalid terminal thread kind \"robot\"");
        }
        _ => panic!("the kind should be refused"),
    }
    let mut row = sample_row();
    row.provider = Some("other".to_string());
    match refused(&row) {
        RowError::Value(error) => {
            assert_eq!(error.message(), "invalid terminal thread provider \"other\"");
        }
        _ => panic!("the provider should be refused"),
    }
    let mut row = sample_row();
    row.lifecycle_state = "gone".to_string();
    match refused(&row) {
        RowError::Value(error) => {
            assert_eq!(error, InvalidTerminalThreadValue::LifecycleState("gone".to_string()));
            assert_eq!(error.message(), "invalid terminal thread lifecycle state \"gone\"");
        }
        _ => panic!("the lifecycle state should be refused"),
    }
    let mut row = sample_row();
    row.last_attached_at = Some("x".to_string());
    assert!(matches!(refused(&row), RowError::Moment(value) if value == "x"));
    let mut row = sample_row();
    row.updated_at = Some("y".to_string());
    assert!(matches!(refused(&row), RowError::Moment(value) if value == "y"));
}

#[test]
fn test_mark_stopping_persists_lifecycle_intent() {
    let metadata = metadata("Codex", WorktreePaths::default());
    let terminal_id = metadata.terminal_id;
    let mut stale_attached_metadata = metadata.clone();
    stale_attached_metadata.registry.mark_attached();

    let mut store = TerminalThreadMetadataStore::new();
    let mut operations = vec![store.save(metadata)];
    let (found, operation) = store.mark_stopping(terminal_id);
    assert!(found);
    operations.push(operation.expect("the record is saved as stopping"));
    operations.push(store.save(stale_attached_metadata));

    assert_eq!(
        store.entry(terminal_id).expect("terminal metadata should exist").registry.lifecycle_state,
        TerminalThreadLifecycleState::Stopping
    );
    let kept = dedup_db_operations(operations);
    assert_eq!(kept.len(), 1);
    match &kept[0] {
        DbOperation::Upsert(written) => {
            let row = TerminalThreadRow::from_metadata(written, no_list(), no_list());
            let read = match row.to_metadata(None, Ok(None)) {
                Ok(read) => read,
                Err(_) => panic!("terminal metadata should load"),
            };
            assert_eq!(read.registry.lifecycle_state, TerminalThreadLifecycleState::Stopping);
        }
        DbOperation::Delete(_) => panic!("saved terminal metadata should exist"),
    }
}

#[test]
fn stopping_keeps_the_later_moment() {
    let mut store = TerminalThreadMetadataStore::new();
    let mut record = metadata("zed", WorktreePaths::default());
    record.registry.mark_stopping_at(Timestamp { seconds: 100, nanos: 0 });
    let id = record.terminal_id;
    let mut older = record.clone();
    older.registry.mark_attached_at(Timestamp { seconds: 50, nanos: 0 });
    let mut newer = record.clone();
    newer.registry.mark_detached_at(Timestamp { seconds: 150, nanos: 0 });
    store.save(record);
    let (found, operation) = store.mark_stopping(id);
    assert!(found && operation.is_none());
    store.save(older);
    assert_eq!(store.entry(id).unwrap().registry.updated_at.seconds, 100);
    store.save(newer);
    assert_eq!(store.entry(id).unwrap().registry.updated_at.seconds, 150);
    assert_eq!(
        store.entry(id).unwrap().registry.lifecycle_state,
        TerminalThreadLifecycleState::Stopping
    );
    let (found, operation) = store.mark_stopping(new_id());
    assert!(!found && operation.is_none());
}

#[test]
fn test_change_worktree_paths_reindexes_terminal_metadata() {
    let old_main_paths = paths(&["/repo"]);
    let old_folder_paths = paths(&["/repo-feature"]);
    let new_folder_paths = paths(&["/repo-feature-renamed"]);
    let metadata = metadata(
        "Dev Server",
        WorktreePaths {
            main_worktree_paths: old_main_paths.clone(),
            folder_paths: old_folder_paths.clone(),
        },
    );
    let terminal_id = metadata.terminal_id;

    let mut store = TerminalThreadMetadataStore::new();
    store.save(metadata);
    let operations = store.change_worktree_paths(&old_folder_paths, None, |paths| WorktreePaths {
        main_worktree_paths: paths.main_worktree_paths,
        folder_paths: PathList {
            paths: vec![TreePath::parse("/repo-feature-renamed")],
            order: vec![0],
        },
    });
    assert_eq!(operations.len(), 1);

    assert!(store.entries_for_path(&old_folder_paths, None).is_empty());
    assert_eq!(
        store
            .entries_for_path(&new_folder_paths, None)
            .iter()
            .map(|entry| entry.terminal_id)
            .collect::<Vec<_>>(),
        vec![terminal_id]
    );
    assert!(store.entry(terminal_id).unwrap().main_worktree_paths().same_paths(&old_main_paths));
    assert_eq!(store.entries_for_main_worktree_path(&old_main_paths, None).len(), 1);
    assert!(store
        .change_worktree_paths(&old_folder_paths, None, |paths| paths)
        .is_empty());
}

#[test]
fn records_are_found_by_machine_and_path() {
    let mut store = TerminalThreadMetadataStore::new();
    let local = metadata(
        "local",
        WorktreePaths {
            main_worktree_paths: PathList::empty(),
            folder_paths: paths(&["/a", "/b"]),
        },
    );
    let local_id = local.terminal_id;
    let mut remote = metadata(
        "remote",
        WorktreePaths {
            main_worktree_paths: PathList::empty(),
            folder_paths: paths(&["/a", "/b"]),
        },
    );
    let connection = RemoteConnection { identity: "host".to_string(), options: "x".to_string() };
    remote.remote_connection = Some(connection.clone());
    let remote_id = remote.terminal_id;
    store.save(local);
    store.save(remote);
    let all: HashSet<u128> = store.entries().iter().map(|entry| entry.terminal_id.value).collect();
    assert_eq!(all, HashSet::from([local_id.value, remote_id.value]));
    let list = paths(&["/a/", "/b"]);
    assert_eq!(store.entries_for_path(&list, None)[0].terminal_id, local_id);
    assert_eq!(store.entries_for_path(&list, None).len(), 1);
    assert_eq!(store.entries_for_path(&list, Some(&connection))[0].terminal_id, remote_id);
    assert!(store.entries_for_main_worktree_path(&PathList::empty(), None).is_empty());

    let b = TreePath::parse("/b");
    assert!(store.path_is_referenced_by_terminal(None, &b, None));
    assert!(!store.path_is_referenced_by_terminal(Some(local_id), &b, None));
    assert!(store.path_is_referenced_by_terminal(Some(local_id), &b, Some(&connection)));
    assert!(!store.path_is_referenced_by_terminal(None, &TreePath::parse("/c"), None));

    assert!(matches!(store.delete(local_id), DbOperation::Delete(id) if id == local_id));
    assert!(store.entry(local_id).is_none());
    assert!(store.entries_for_path(&list, None).is_empty());
    assert!(matches!(store.delete(local_id), DbOperation::Delete(_)));

    store.reload(vec![metadata("fresh", WorktreePaths::default())]);
    assert_eq!(store.entries().len(), 1);
    assert!(store.entry(remote_id).is_none());
}

#[test]
fn last_operation_on_each_record_is_kept() {
    let first = metadata("first", WorktreePaths::default());
    let mut again = first.clone();
    again.title = "again".to_string();
    let other = metadata("other", WorktreePaths::default());
    let (first_id, other_id) = (first.terminal_id, other.terminal_id);
    let kept = dedup_db_operations(vec![
        DbOperation::Upsert(first),
        DbOperation::Upsert(other),
        DbOperation::Upsert(again),
        DbOperation::Delete(other_id),
    ]);
    assert_eq!(kept.len(), 2);
    for operation in &kept {
        match operation {
            DbOperation::Upsert(record) => {
                assert_eq!(record.terminal_id, first_id);
                assert_eq!(record.title, "again");
            }
            DbOperation::Delete(id) => assert_eq!(*id, other_id),
        }
    }
}

#[test]
fn terminal_identities_and_names() {
    let id = TerminalId { value: 0x0123_4567_89ab_cdef_0123_4567_89ab_cdef };
    assert_eq!(id.to_key_string(), "01234567-89ab-cdef-0123-456789abcdef");
    assert_eq!(
        terminal_thread_tmux_session_name(id),
        "zed-01234567-89ab-cdef-0123-456789abcdef"
    );
    assert_eq!(TerminalId::from_key_string(&id.to_key_string()), Ok(id));
    assert_eq!(TerminalId::from_key_string("0123456789ABCDEF0123456789abcdef"), Ok(id));
    assert_eq!(
        TerminalId::from_key_string("urn:uuid:01234567-89ab-cdef-0123-456789abcdef"),
        Ok(id)
    );
    assert_eq!(
        TerminalId::from_key_string("{01234567-89ab-cdef-0123-456789abcdef}"),
        Ok(id)
    );
    for text in ["", "zed", "01234567-89ab-cdef-0123-456789abcde", "0123456-789ab-cdef-0123-456789abcdef"] {
        assert_eq!(TerminalId::from_key_string(text).unwrap_err().value, text);
    }
    assert_eq!(TERMINAL_THREAD_TMUX_SERVER_NAME, "zed-terminal-threads");
}

#[test]
fn moments_are_written_and_read_back() {
    assert_eq!(FIRST_SECOND, chrono::DateTime::<chrono::Utc>::MIN_UTC.timestamp());
    assert_eq!(LAST_SECOND, chrono::DateTime::<chrono::Utc>::MAX_UTC.timestamp());
    let leap = Timestamp { seconds: 1_483_228_799, nanos: 1_000_000_000 };
    let moments = [
        Timestamp { seconds: 0, nanos: 0 },
        Timestamp { seconds: -62_167_219_200, nanos: 1 },
        Timestamp { seconds: 253_402_300_799, nanos: 999_999_999 },
        Timestamp { seconds: 1_700_000_000, nanos: 123_000_000 },
        leap,
    ];
    for moment in moments {
        assert_eq!(Timestamp::parse_from_rfc3339(&moment.to_rfc3339()), Some(moment));
    }
    assert_eq!(leap.to_rfc3339(), "2016-12-31T23:59:60+00:00");
    assert_eq!(
        Timestamp::parse_from_rfc3339("1996-12-19T16:39:57-08:00"),
        Some(Timestamp { seconds: 851_042_397, nanos: 0 })
    );
    assert_eq!(Timestamp::parse_from_rfc3339("1996-12-19"), None);
    assert_eq!(
        Timestamp::parse_from_rfc3339(&Timestamp { seconds: LAST_SECOND, nanos: 0 }.to_rfc3339()),
        None
    );
    let first = Timestamp { seconds: FIRST_SECOND, nanos: 0 };
    assert_eq!(first.to_rfc3339(), "-262143-01-01T00:00:00+00:00");
    assert!(Timestamp::now().seconds > 1_700_000_000);
    let early = Timestamp { seconds: 1, nanos: 5 };
    let late = Timestamp { seconds: 1, nanos: 6 };
    assert!(early.before(&late) && !late.before(&early));
    assert_eq!(early.later(late), late);
}

#[test]
fn statuses_and_frames() {
    let mut store = TerminalThreadStatusStore::new();
    let id = new_id();
    assert_eq!(store.status(id), AgentThreadStatus::Completed);
    let effects = store.set_status(id, AgentThreadStatus::Running);
    assert!(effects.start_animation);
    let change = effects.changed.unwrap();
    assert_eq!((change.terminal_id, change.previous_status), (id, None));
    assert_eq!(change.status, AgentThreadStatus::Running);
    assert!(store.set_status(id, AgentThreadStatus::Running).changed.is_none());
    assert_eq!(store.running_status_frame(id), 0);
    for frame in 1..RUNNING_STATUS_FRAME_COUNT {
        store.advance_running_status_frames_for_test();
        assert_eq!(store.running_status_frame(id), frame);
        assert_eq!(store.any_running_status_frame(), Some(frame));
    }
    assert!(store.animation_tick());
    assert_eq!(store.running_status_frame(id), 0);
    let effects = store.set_status(id, AgentThreadStatus::Error);
    assert_eq!(effects.changed.unwrap().previous_status, Some(AgentThreadStatus::Running));
    assert!(!effects.start_animation);
    assert_eq!(store.any_running_status_frame(), None);
    assert!(!store.animation_tick());
    assert!(store.remove(id));
    assert!(!store.remove(id));
    assert!(store.set_status(id, AgentThreadStatus::Running).start_animation);
}

#[test]
fn names_of_test_databases() {
    let configured = TestTerminalMetadataDbName("mine".to_string());
    assert_eq!(TestTerminalMetadataDbName::global(Some(&configured), Some("t")), "mine");
    assert_eq!(
        TestTerminalMetadataDbName::global(None, Some("t")),
        "TERMINAL_THREAD_METADATA_DB_t"
    );
    assert_eq!(
        TestTerminalMetadataDbName::global(None, None),
        "TERMINAL_THREAD_METADATA_DB_unknown_test"
    );
}

#[test]
fn kinds_providers_and_states_have_texts() {
    for kind in [TerminalThreadKind::Agent, TerminalThreadKind::Shell] {
        assert_eq!(TerminalThreadKind::from_str(kind.as_str()), Ok(kind));
    }
    let provider = TerminalThreadProvider::Codex;
    assert_eq!(TerminalThreadProvider::from_str(provider.as_str()), Ok(provider));
    for state in [
        TerminalThreadLifecycleState::Attached,
        TerminalThreadLifecycleState::Detached,
        TerminalThreadLifecycleState::Stopping,
    ] {
        assert_eq!(TerminalThreadLifecycleState::from_str(state.as_str()), Ok(state));
    }
    assert_eq!(
        TerminalThreadKind::from_str("a\"b\n").unwrap_err().message(),
        "invalid terminal thread kind \"a\\\"b\\n\""
    );
}

#[test]
fn sessions_of_different_terminals_have_different_names() {
    let (a, b) = (new_id(), new_id());
    assert_ne!(terminal_thread_tmux_session_name(a), terminal_thread_tmux_session_name(b));
    assert_ne!(a.to_key_string(), b.to_key_string());
}

#[test]
fn the_last_of_several_rows_of_a_terminal_is_kept() {
    let first = metadata(
        "first",
        WorktreePaths { main_worktree_paths: PathList::empty(), folder_paths: paths(&["/a"]) },
    );
    let mut second = first.clone();
    second.title = "second".to_string();
    second.worktree_paths.folder_paths = paths(&["/b"]);
    let id = first.terminal_id;
    let mut store = TerminalThreadMetadataStore::new();
    store.reload(vec![first, second]);
    assert_eq!(store.entries().len(), 1);
    assert_eq!(store.entry(id).unwrap().title, "second");
    assert_eq!(store.entries_for_path(&paths(&["/b"]), None).len(), 1);
}

#[test]
fn a_saved_terminal_is_found_by_its_folders_only() {
    let mut record = metadata(
        "zed",
        WorktreePaths { main_worktree_paths: paths(&["/m"]), folder_paths: paths(&["/a"]) },
    );
    let mut store = TerminalThreadMetadataStore::new();
    store.save(record.clone());
    record.worktree_paths =
        WorktreePaths { main_worktree_paths: PathList::empty(), folder_paths: paths(&["/b"]) };
    store.save(record);
    assert!(store.entries_for_path(&paths(&["/a"]), None).is_empty());
    assert_eq!(store.entries_for_path(&paths(&["/b"]), None).len(), 1);
    assert!(store.entries_for_main_worktree_path(&paths(&["/m"]), None).is_empty());
}

#[test]
fn the_order_in_which_folders_are_shown_is_kept() {
    let mut shown = paths(&["/a", "/b"]);
    shown.order = vec![1, 0];
    let record = metadata(
        "zed",
        WorktreePaths { main_worktree_paths: PathList::empty(), folder_paths: shown.clone() },
    );
    let id = record.terminal_id;
    let mut store = TerminalThreadMetadataStore::new();
    let saved = match store.save(record) {
        DbOperation::Upsert(saved) => saved,
        DbOperation::Delete(_) => panic!("a save writes the record"),
    };
    let row = TerminalThreadRow::from_metadata(
        &saved,
        SerializedPathList { paths: "/a\n/b".to_string(), order: "1,0".to_string() },
        no_list(),
    );
    assert_eq!(row.folder_paths_order.as_deref(), Some("1,0"));
    let read = row.to_metadata(Some(saved.worktree_paths.clone()), Ok(None)).ok().unwrap();
    assert_eq!(read.folder_paths().order, vec![1, 0]);
    assert_eq!(store.entry(id).unwrap().folder_paths().order, vec![1, 0]);
    assert!(shown.same_paths(&paths(&["/a", "/b"])));
    assert_eq!(store.entries_for_path(&paths(&["/a", "/b"]), None).len(), 1);
}
