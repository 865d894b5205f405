use pty_core::registry::cleanup::{
    cleanup, cleanup_all, cleanup_all_while_locked, cleanup_owned_all, cleanup_owned_socket,
    cleanup_socket, is_current_generation_owner, SessionGenerationOwner,
};
use pty_core::registry::evidence::{
    check_removal, generation_is_alive, get_session_exit_evidence, read_evidence_metadata,
    removal_files, remove_session_generation, EvidenceMetadataRead, EvidenceStream,
    EvidenceUnavailableReason, MetadataFile, ProcessObservation, RemoveSessionGenerationResult,
    SessionExitEvidenceResult, SessionExitEvidenceTail, SessionExitStatus, METADATA_MAX_BYTES,
};
use pty_core::registry::lock::{
    event_busy_message, holder_pid, is_creation_lock_held, is_lock_owned_by_pid, lock_or_refusal,
    metadata_busy_message, parse_leading_int, steal_opened_lock, take_event_lock,
    take_metadata_lock, wait_for_lock, with_both_locks, BothLocks, Inode, LockBusy, LockGuard,
    LockRefusal, StaleStep, WaitStep,
};
use pty_core::registry::metadata::SessionMetadata;

fn inode(number: u64) -> Inode {
    Inode { device: 1, number }
}

#[test]
fn a_live_holder_keeps_the_lock() {
    assert_eq!(steal_opened_lock(true, inode(1), Some(inode(1)), true), StaleStep::Refuse);
}

#[test]
fn a_dead_holder_loses_the_lock() {
    assert_eq!(
        steal_opened_lock(true, inode(1), Some(inode(1)), false),
        StaleStep::RemoveThenCreate
    );
    assert_eq!(steal_opened_lock(true, inode(1), None, false), StaleStep::Create);
}

#[test]
fn a_delayed_stealer_does_not_remove_a_new_owner() {
    assert_eq!(steal_opened_lock(true, inode(1), Some(inode(2)), false), StaleStep::Refuse);
    assert_eq!(steal_opened_lock(false, inode(1), Some(inode(1)), false), StaleStep::Refuse);
}

#[test]
fn a_lock_file_names_its_holder() {
    assert_eq!(holder_pid("2147483646"), Some(2147483646));
    assert_eq!(holder_pid(" 42\n"), Some(42));
    assert_eq!(holder_pid("42 trailing"), Some(42));
    assert_eq!(holder_pid("not a pid"), None);
    assert_eq!(holder_pid(""), None);
    assert_eq!(parse_leading_int("-7x"), Some(-7));
    assert_eq!(parse_leading_int("+7"), Some(7));
    assert_eq!(parse_leading_int("99999999999"), None);
    assert!(is_creation_lock_held(Some("42"), true));
    assert!(!is_creation_lock_held(Some("42"), false));
    assert!(!is_creation_lock_held(Some("not a pid"), true));
    assert!(!is_creation_lock_held(None, true));
    assert!(is_lock_owned_by_pid(Some("42"), 42, true));
    assert!(!is_lock_owned_by_pid(Some("42"), 43, true));
    assert!(!is_lock_owned_by_pid(Some("42"), 42, false));
    assert!(!is_lock_owned_by_pid(Some("0"), 0, true));
}

#[test]
fn a_refusal_says_which_lock_and_why() {
    assert_eq!(
        event_busy_message("s"),
        "Session id \"s\" event log is busy. Retry the operation."
    );
    assert_eq!(
        metadata_busy_message("s"),
        "Session id \"s\" metadata is busy. Retry the operation."
    );
    assert_eq!(lock_or_refusal("/r/s.lock", Ok(true)), Ok(()));
    assert_eq!(lock_or_refusal("/r/s.lock", Ok(false)), Err(LockRefusal::Busy));
    let gone = lock_or_refusal("/r/s.lock", Err("no space".into())).unwrap_err();
    assert_eq!(gone, LockRefusal::Unavailable("/r/s.lock: no space".into()));
    assert_eq!(take_event_lock("s", &LockRefusal::Busy), event_busy_message("s"));
    assert_eq!(take_metadata_lock("s", &LockRefusal::Busy), metadata_busy_message("s"));
    assert_eq!(take_event_lock("s", &gone), "/r/s.lock: no space");
    assert_eq!(take_metadata_lock("s", &gone), "/r/s.lock: no space");
}

#[test]
fn a_waiter_polls_until_the_deadline() {
    assert_eq!(wait_for_lock(LockRefusal::Busy, 0, 5000), WaitStep::Sleep(10));
    assert_eq!(wait_for_lock(LockRefusal::Busy, 4997, 5000), WaitStep::Sleep(3));
    assert_eq!(
        wait_for_lock(LockRefusal::Busy, 5000, 5000),
        WaitStep::GiveUp(LockRefusal::Busy)
    );
    let gone = LockRefusal::Unavailable("x".into());
    assert_eq!(wait_for_lock(gone.clone(), 0, 5000), WaitStep::GiveUp(gone));
}

#[test]
fn the_event_lock_comes_first() {
    let step = with_both_locks(BothLocks::TakeEvents, Ok(()));
    assert_eq!(step, BothLocks::TakeMetadata);
    assert_eq!(with_both_locks(step, Ok(())), BothLocks::Run);
    assert_eq!(
        with_both_locks(BothLocks::TakeEvents, Err(LockRefusal::Busy)),
        BothLocks::Refused(LockBusy::Events)
    );
    assert_eq!(
        with_both_locks(BothLocks::TakeMetadata, Err(LockRefusal::Busy)),
        BothLocks::Refused(LockBusy::Metadata)
    );
    assert_eq!(
        with_both_locks(BothLocks::TakeMetadata, Err(LockRefusal::Unavailable("c".into()))),
        BothLocks::Refused(LockBusy::Unavailable("c".into()))
    );
    assert_eq!(LockBusy::Events.message("s"), event_busy_message("s"));
    assert_eq!(LockBusy::Metadata.message("s"), metadata_busy_message("s"));
    assert_eq!(LockBusy::Unavailable("c".into()).message("s"), "c");
}

#[test]
fn an_armed_guard_removes_its_file_once() {
    let mut guard = LockGuard::new("/r/s.lock".into());
    assert_eq!(guard.path(), "/r/s.lock");
    assert_eq!(guard.on_drop(), Some("/r/s.lock".to_string()));
    assert_eq!(guard.release(), "/r/s.lock");
    assert_eq!(guard.on_drop(), None);
    let mut kept = LockGuard::new("/r/t.lock".into());
    kept.forget();
    assert_eq!(kept.on_drop(), None);
}

// ---- cleanup -------------------------------------------------------------

#[test]
fn a_cleanup_removes_the_files_of_one_session() {
    assert_eq!(cleanup_socket("/r", "s"), ["/r/s.sock", "/r/s.pid"]);
    let all = [
        "/r/s.sock",
        "/r/s.pid",
        "/r/s.json",
        "/r/s.events.jsonl",
        "/r/.recovery/s.revision.json",
    ];
    assert_eq!(cleanup_all_while_locked("/r", "s"), all);
    assert_eq!(cleanup("/r", "s"), all);
    assert_eq!(cleanup_all("/r", "s", true), all);
    assert!(cleanup_all("/r", "s", false).is_empty());
}

#[test]
fn a_daemon_leaves_its_replacement_alone() {
    let owner = SessionGenerationOwner { generation: "g1".into(), pid: 10 };
    let mine = SessionMetadata { generation: Some("g1".into()), ..SessionMetadata::default() };
    let theirs = SessionMetadata { generation: Some("g2".into()), ..SessionMetadata::default() };
    let legacy = SessionMetadata::default();
    assert!(is_current_generation_owner(Some(&mine), Some(10), &owner));
    assert!(!is_current_generation_owner(Some(&theirs), Some(10), &owner));
    assert!(!is_current_generation_owner(Some(&mine), Some(11), &owner));
    assert!(is_current_generation_owner(Some(&legacy), Some(10), &owner));
    assert!(is_current_generation_owner(None, None, &owner));
    assert_eq!(cleanup_owned_socket("/r", "s", true, Some(&theirs), None, &owner), None);
    assert_eq!(cleanup_owned_all("/r", "s", true, Some(&theirs), None, &owner), None);
    assert_eq!(cleanup_owned_all("/r", "s", false, Some(&mine), None, &owner), None);
    assert_eq!(
        cleanup_owned_socket("/r", "s", true, Some(&mine), Some(10), &owner),
        Some(cleanup_socket("/r", "s"))
    );
    assert_eq!(
        cleanup_owned_all("/r", "s", true, Some(&mine), Some(10), &owner),
        Some(cleanup("/r", "s"))
    );
}

// ---- evidence ------------------------------------------------------------

fn file(text: &str) -> MetadataFile {
    MetadataFile::Content { size: text.len() as u64, bytes: text.as_bytes().to_vec() }
}

fn read(text: &str) -> EvidenceMetadataRead {
    read_evidence_metadata(&file(text))
}

const ENDED: &str = r#"{"generation":"g1","daemonPid":42,"daemonStartToken":"linux:7","exitedAt":"2026-04-05T10:15:03.000Z","exitCode":3,"lastLines":["a","b"]}"#;

#[test]
fn a_record_is_read_for_evidence() {
    let EvidenceMetadataRead::Valid(m) = read(ENDED) else {
        panic!("not read");
    };
    assert_eq!(m.generation, "g1");
    assert_eq!(m.daemon_pid, Some(42));
    assert_eq!(m.daemon_start_token.as_deref(), Some("linux:7"));
    assert_eq!(m.exit_code, Some(3));
    assert_eq!(m.last_lines, Some(vec!["a".to_string(), "b".to_string()]));
    let EvidenceMetadataRead::Valid(m) =
        read(r#"{"generation":"g1","recovery":{"processStartToken":"linux:8"}}"#)
    else {
        panic!("not read");
    };
    assert_eq!(m.daemon_start_token.as_deref(), Some("linux:8"));
    assert_eq!(m.exited_at, None);
}

#[test]
fn a_record_that_does_not_hold_together_is_invalid() {
    for bad in [
        "",
        "[]",
        "{",
        r#"{"generation":""}"#,
        r#"{"generation":7}"#,
        r#"{"generation":"g","daemonPid":0}"#,
        r#"{"generation":"g","daemonPid":1.5}"#,
        r#"{"generation":"g","daemonPid":2147483648}"#,
        r#"{"generation":"g","daemonStartToken":""}"#,
        r#"{"generation":"g","exitedAt":"t"}"#,
        r#"{"generation":"g","exitCode":1}"#,
        r#"{"generation":"g","exitedAt":"","exitCode":1}"#,
        r#"{"generation":"g","lastLines":"x"}"#,
        r#"{"generation":"g","lastLines":[1]}"#,
    ] {
        assert_eq!(read(bad), EvidenceMetadataRead::Invalid, "{bad}");
    }
    let many = format!(r#"{{"generation":"g","lastLines":[{}]}}"#, vec!["\"x\""; 201].join(","));
    assert_eq!(read(&many), EvidenceMetadataRead::Invalid);
    assert_eq!(read("{}"), EvidenceMetadataRead::GenerationUnavailable);
    assert_eq!(read_evidence_metadata(&MetadataFile::Missing), EvidenceMetadataRead::Missing);
    assert_eq!(read_evidence_metadata(&MetadataFile::Unreadable), EvidenceMetadataRead::Invalid);
    let big = MetadataFile::Content { size: METADATA_MAX_BYTES + 1, bytes: ENDED.into() };
    assert_eq!(read_evidence_metadata(&big), EvidenceMetadataRead::Invalid);
    let not_text = MetadataFile::Content { size: 1, bytes: vec![0xff] };
    assert_eq!(read_evidence_metadata(&not_text), EvidenceMetadataRead::Invalid);
}

#[test]
fn evidence_is_a_snapshot_of_one_generation() {
    let SessionExitEvidenceResult::Snapshot { snapshot } =
        get_session_exit_evidence("s", true, true, read(ENDED), false)
    else {
        panic!("no snapshot");
    };
    assert_eq!(snapshot.name, "s");
    assert_eq!(snapshot.generation, "g1");
    assert_eq!(snapshot.status, SessionExitStatus::Exited);
    assert_eq!(snapshot.exit_code, Some(3));
    assert_eq!(snapshot.stream, EvidenceStream::Combined);
    assert_eq!(
        snapshot.tail,
        SessionExitEvidenceTail::Present { last_lines: vec!["a".into(), "b".into()] }
    );
    let SessionExitEvidenceResult::Snapshot { snapshot } =
        get_session_exit_evidence("s", true, true, read(r#"{"generation":"g1"}"#), false)
    else {
        panic!("no snapshot");
    };
    assert_eq!(snapshot.status, SessionExitStatus::Vanished);
    assert_eq!(snapshot.tail, SessionExitEvidenceTail::Unavailable);
}

fn reason(name_valid: bool, locked: bool, read: EvidenceMetadataRead, alive: bool) -> EvidenceUnavailableReason {
    match get_session_exit_evidence("s", name_valid, locked, read, alive) {
        SessionExitEvidenceResult::Unavailable { reason } => reason,
        other => panic!("{other:?}"),
    }
}

#[test]
fn evidence_is_refused_for_a_reason() {
    assert_eq!(reason(false, true, read(ENDED), false), EvidenceUnavailableReason::InvalidMetadata);
    assert_eq!(reason(true, false, read(ENDED), false), EvidenceUnavailableReason::Busy);
    assert_eq!(reason(true, true, read(ENDED), true), EvidenceUnavailableReason::Running);
    assert_eq!(reason(true, true, EvidenceMetadataRead::Missing, false), EvidenceUnavailableReason::Missing);
    assert_eq!(reason(true, true, read("{}"), false), EvidenceUnavailableReason::GenerationUnavailable);
    assert_eq!(reason(true, true, read("[]"), false), EvidenceUnavailableReason::InvalidMetadata);
}

#[test]
fn a_generation_lives_where_its_token_or_socket_says_so() {
    let EvidenceMetadataRead::Valid(m) = read(ENDED) else {
        panic!("not read");
    };
    let seen = |alive: bool, token: &str| {
        Some(ProcessObservation { alive, start_token: Some(token.to_string()) })
    };
    assert!(generation_is_alive(&m, &seen(true, "linux:7"), &None, false));
    assert!(generation_is_alive(&m, &None, &seen(true, "linux:7"), false));
    assert!(generation_is_alive(&m, &None, &None, true));
    assert!(!generation_is_alive(&m, &seen(true, "linux:8"), &seen(false, "linux:7"), false));
}

#[test]
fn a_removal_is_fenced_by_the_generation() {
    let ended = read(ENDED);
    let other = read(r#"{"generation":"g2"}"#);
    assert_eq!(remove_session_generation("g1", true, true, &ended, false, &ended), RemoveSessionGenerationResult::Removed);
    assert_eq!(remove_session_generation("g1", false, true, &ended, false, &ended), RemoveSessionGenerationResult::InvalidMetadata);
    assert_eq!(remove_session_generation("g1", true, false, &ended, false, &ended), RemoveSessionGenerationResult::Busy);
    assert_eq!(remove_session_generation("g1", true, true, &ended, true, &ended), RemoveSessionGenerationResult::NotTerminal);
    assert_eq!(remove_session_generation("g1", true, true, &other, false, &ended), RemoveSessionGenerationResult::GenerationMismatch);
    assert_eq!(remove_session_generation("g1", true, true, &ended, false, &other), RemoveSessionGenerationResult::GenerationMismatch);
    assert_eq!(check_removal(&EvidenceMetadataRead::Missing, "g1"), Some(RemoveSessionGenerationResult::Missing));
    assert_eq!(check_removal(&EvidenceMetadataRead::Invalid, "g1"), Some(RemoveSessionGenerationResult::InvalidMetadata));
    assert_eq!(
        removal_files("/r", "s"),
        [
            "/r/s.sock",
            "/r/s.pid",
            "/r/s.events.jsonl",
            "/r/.recovery/s.revision.json",
            "/r/s.json",
        ]
    );
}
