use pty_core::client::list::{
    attached_clients, is_contacted, list, workers, ClientQuery, ClientSet,
};
use pty_core::json::{
    json_of_value, parse_json, parse_json_bytes, to_json_text, to_pretty_text, value_of_json, Json,
    JsonMap,
};
use pty_core::maps::TagMap;
use pty_core::proctable::{Answer, Unknown};
use pty_core::protocol::AttachedClient;
use pty_core::registry::list::{
    all_session_names, ambiguous_reference_message, darwin_start_token, get_session,
    get_session_by_name, has_process_exited_for_reap, linux_start_token, list_sessions_with,
    needs_probe, process_to_identify, read_pid, read_pid_with, read_session_pid, record_candidates, resolve_ref,
    socket_candidates, ListOptions, RecordObservation, SessionInfo, SessionStatus,
    SocketObservation,
};
use pty_core::registry::metadata::{
    apply_metadata_diff, pretty_json, read_metadata_map, write_metadata_publication,
    SessionMetadata,
};
use pty_core::registry::mutate::{
    finish_mutation, guards_hold, metadata_matches_observation, mutate_metadata_under_lock,
    publish_mutation, MutateOptions, MutateStatus,
};

fn strings(v: &[&str]) -> Vec<String> {
    v.iter().map(|s| s.to_string()).collect()
}

fn named(display_name: &str) -> SessionMetadata {
    SessionMetadata { display_name: Some(display_name.into()), ..SessionMetadata::default() }
}

fn exited() -> SessionMetadata {
    SessionMetadata {
        exited_at: Some("2026-04-05T10:15:03.000Z".into()),
        exit_code: Some(0),
        ..SessionMetadata::default()
    }
}

fn socket(name: &str, pid: Option<i32>, alive: bool, reachable: bool, m: Option<SessionMetadata>) -> SocketObservation {
    SocketObservation { name: name.into(), pid, pid_alive: alive, reachable, metadata: m }
}

fn record(name: &str, pid: Option<i32>, alive: bool, m: Option<SessionMetadata>) -> RecordObservation {
    RecordObservation { name: name.into(), pid, pid_alive: alive, metadata: m }
}

#[test]
fn candidates_are_taken_from_file_names() {
    let files = strings(&[
        "b.sock",
        "a.sock",
        "a.json",
        "c.json",
        "c.json.tmp.1.0011223344556677",
        "a.events.jsonl",
    ]);
    assert_eq!(socket_candidates(&files), ["a", "b"]);
    assert_eq!(record_candidates(&files), ["a", "c"]);
}

#[test]
fn a_listing_is_sorted_and_says_how_each_session_is() {
    let sockets = [
        socket("live", Some(1), true, false, Some(SessionMetadata::default())),
        socket("ended", Some(2), true, false, Some(exited())),
        socket("answers", Some(3), false, true, None),
        socket("nobody", Some(4), false, false, None),
        socket("vanished", Some(5), false, false, Some(SessionMetadata::default())),
        socket("no-pid", None, false, false, None),
    ];
    let records = [
        record("gone", None, false, Some(exited())),
        record("live", None, false, Some(SessionMetadata::default())),
        record("torn", None, false, None),
        record("early", Some(9), true, Some(SessionMetadata::default())),
    ];
    let all = list_sessions_with("/r", &sockets, &records);
    let seen: Vec<(&str, SessionStatus, Option<i32>)> =
        all.iter().map(|s| (s.name.as_str(), s.status, s.pid)).collect();
    assert_eq!(
        seen,
        [
            ("answers", SessionStatus::Running, Some(3)),
            ("early", SessionStatus::Running, Some(9)),
            ("ended", SessionStatus::Exited, Some(2)),
            ("gone", SessionStatus::Exited, None),
            ("live", SessionStatus::Running, Some(1)),
            ("no-pid", SessionStatus::Running, None),
            ("vanished", SessionStatus::Vanished, None),
        ]
    );
    assert_eq!(all[0].socket_path, "/r/answers.sock");
    assert!(all[0].is_running());
    assert!(all[2].is_gone());
    assert_eq!(SessionStatus::Vanished.as_str(), "vanished");
    assert_eq!(all_session_names(&all).len(), 7);
    assert!(needs_probe(&sockets[2]));
    assert!(!needs_probe(&sockets[0]));
    assert_eq!(ListOptions::default().socket_probe_budget_ms, 500);
}

fn listed(name: &str, m: Option<SessionMetadata>) -> SessionInfo {
    SessionInfo {
        name: name.into(),
        socket_path: format!("/r/{name}.sock"),
        pid: None,
        status: SessionStatus::Running,
        metadata: m,
    }
}

#[test]
fn a_listing_of_a_directory_names_each_session_once() {
    let files = strings(&[
        "c.json",
        "b.sock",
        "a.json",
        "b.json",
        "d.json.tmp.1.0011223344556677",
        "e.tmp.sock",
        "a.sock",
        "g.tmp.x.sock",
        "f.lock",
    ]);
    let sockets: Vec<SocketObservation> = socket_candidates(&files)
        .iter()
        .map(|n| socket(n, Some(7), false, false, Some(if n == "a" { exited() } else { named(n) })))
        .collect();
    let records: Vec<RecordObservation> =
        record_candidates(&files).iter().map(|n| record(n, None, false, Some(named(n)))).collect();
    let listed = list_sessions_with("/r", &sockets, &records);
    let names: Vec<&str> = listed.iter().map(|s| s.name.as_str()).collect();
    assert_eq!(names, ["a", "b", "c"]);
    for s in &listed {
        let meta = s.metadata.as_ref().unwrap();
        if meta.exited_at.is_some() {
            assert_eq!(s.status, SessionStatus::Exited);
        }
        if s.status == SessionStatus::Vanished {
            assert_eq!((s.pid, &meta.exited_at, meta.exit_code), (None, &None, None));
        }
    }
    assert_eq!(listed[1].status, SessionStatus::Vanished);
}

#[test]
fn a_reference_is_an_id_or_a_unique_display_name() {
    let all = [
        listed("a1", Some(named("web"))),
        listed("b2", Some(named("db"))),
        listed("c3", Some(named("web"))),
        listed("db", None),
    ];
    assert_eq!(get_session_by_name(&all, "b2"), Some(1));
    assert_eq!(get_session_by_name(&all, "web"), None);
    assert_eq!(get_session(&all, "db"), Ok(Some(3)));
    assert_eq!(get_session(&all, "nope"), Ok(None));
    let message = get_session(&all, "web").unwrap_err();
    assert_eq!(
        message,
        "Session reference \"web\" is ambiguous. Matching stable session IDs:\n  a1\n  c3\nUse a stable session ID instead."
    );
    assert_eq!(ambiguous_reference_message("web", &strings(&["c3", "a1"])), message);
    assert_eq!(resolve_ref(&all, "a1"), Some("a1".to_string()));
    assert_eq!(resolve_ref(&all, "web"), None);
    assert_eq!(all[0].display_name(), Some("web"));
}

#[test]
fn a_pid_is_proved_by_its_start_token() {
    assert_eq!(read_session_pid(Some("42\n")), Some(42));
    assert_eq!(read_session_pid(Some("x")), None);
    assert_eq!(read_session_pid(None), None);
    let recovery = parse_json(r#"{"processStartToken":"linux:7"}"#).unwrap();
    let m = SessionMetadata {
        daemon_pid: Some(42),
        recovery: Some(recovery),
        ..SessionMetadata::default()
    };
    assert_eq!(process_to_identify(None, Some(&m)), Some(42));
    assert_eq!(process_to_identify(Some(7), Some(&m)), None);
    assert_eq!(read_pid(None, Some(&m), Some("other")), None);
    assert_eq!(read_pid(Some(7), None, None), Some(7));
    assert_eq!(read_pid_with(Some(7), Some(&m), None), Some(7));
    assert_eq!(read_pid_with(None, Some(&m), Some("linux:7")), Some(42));
    assert_eq!(read_pid_with(None, Some(&m), Some("linux:8")), None);
    assert_eq!(read_pid_with(None, Some(&m), None), None);
    assert_eq!(read_pid_with(None, None, Some("linux:7")), None);
    let stat = "42 (a ) b) S 1 2 3 4 5 6 7 8 9 10 11 12 13 14 15 16 17 18 777 20";
    assert_eq!(linux_start_token(stat), Some("linux:777".to_string()));
    assert_eq!(linux_start_token("42 (a) S 1"), None);
    assert_eq!(linux_start_token("nothing"), None);
    assert_eq!(darwin_start_token(" Wed \n"), Some("darwin:Wed".to_string()));
    assert_eq!(darwin_start_token(" \n"), None);
}

#[test]
fn silence_is_no_death() {
    assert!(has_process_exited_for_reap(false, &Answer::Known(false), true));
    assert!(has_process_exited_for_reap(true, &Answer::Known(true), true));
    assert!(!has_process_exited_for_reap(true, &Answer::Known(false), true));
    assert!(has_process_exited_for_reap(true, &Answer::NotPresent, true));
    assert!(!has_process_exited_for_reap(true, &Answer::Unknown(Unknown::FieldEmpty), true));
    assert!(has_process_exited_for_reap(true, &Answer::Unknown(Unknown::FieldEmpty), false));
}

// ---- records -------------------------------------------------------------

fn map(text: &str) -> JsonMap {
    read_metadata_map(text.as_bytes()).unwrap()
}

#[test]
fn a_record_is_written_in_a_fixed_order() {
    let mut m = SessionMetadata {
        generation: Some("g1".into()),
        command: "cat".into(),
        display_command: "cat".into(),
        cwd: "/w".into(),
        created_at: "t".into(),
        tags: Some([("b".to_string(), "2".to_string()), ("a".to_string(), "1".to_string())].into_iter().collect::<TagMap>()),
        ..SessionMetadata::default()
    };
    m.extra.insert("future".into(), Json::Bool(true));
    let text = pretty_json(&m.to_map());
    let at = |key: &str| text.find(&format!("\"{key}\"")).unwrap();
    assert!(at("generation") < at("command"));
    assert!(at("command") < at("cwd"));
    assert!(at("b") < at("a"), "tags keep their order: {text}");
    assert!(text.contains("\"future\": true"), "{text}");
    assert!(!text.contains("exitCode"), "{text}");
    let back = map(&text);
    assert!(back.same_as(&m.to_map()));
    assert!(write_metadata_publication(&m).contains("\"generation\": \"g1\""));
}

#[test]
fn a_change_touches_only_what_changed() {
    let mut file = map(r#"{"x":1,"generation":"g1","displayName":"old","command":"c"}"#);
    let before = SessionMetadata {
        generation: Some("g1".into()),
        command: "c".into(),
        display_name: Some("old".into()),
        ..SessionMetadata::default()
    };
    let mut after = before.clone();
    after.display_name = Some("new".into());
    apply_metadata_diff(&before, &after, &mut file);
    assert_eq!(
        to_json_text(&Json::Object(file.copy())),
        r#"{"x":1,"generation":"g1","displayName":"new","command":"c"}"#
    );
    let unchanged = file.copy();
    apply_metadata_diff(&after, &after, &mut file);
    assert!(file.same_as(&unchanged));
    apply_metadata_diff(&after, &SessionMetadata { display_name: None, ..after.clone() }, &mut file);
    assert!(!file.contains_key("displayName"));
}

fn generation(g: &str) -> SessionMetadata {
    SessionMetadata { generation: Some(g.into()), ..SessionMetadata::default() }
}

#[test]
fn a_mutation_is_guarded() {
    let rename = |mut m: SessionMetadata| {
        m.display_name = Some("n".into());
        (m, true)
    };
    let open = MutateOptions::default();
    let g1 = generation("g1");
    let after = mutate_metadata_under_lock(true, Some(&g1), rename, &open).unwrap();
    assert_eq!(after.display_name.as_deref(), Some("n"));
    let status = |r: Result<SessionMetadata, MutateStatus>| r.unwrap_err().as_str();
    assert_eq!(status(mutate_metadata_under_lock(false, Some(&g1), rename, &open)), "busy");
    assert_eq!(status(mutate_metadata_under_lock(true, None, rename, &open)), "missing");
    let other = MutateOptions { expected_generation: Some("g2".into()), ..MutateOptions::default() };
    assert_eq!(
        status(mutate_metadata_under_lock(true, Some(&g1), rename, &other)),
        "generation-mismatch"
    );
    let declined = mutate_metadata_under_lock(true, Some(&g1), |m| (m, false), &open);
    assert_eq!(status(declined), "unchanged");
    assert!(guards_hold(&open, &g1));
    assert!(!guards_hold(&other, &g1));
    assert!(metadata_matches_observation(&g1, &generation("g1")));
    assert!(!metadata_matches_observation(&g1, &generation("g2")));
    assert!(metadata_matches_observation(&named("a"), &named("a")));
    assert!(!metadata_matches_observation(&named("a"), &named("b")));
}

#[test]
fn a_record_that_changed_meanwhile_is_stale() {
    let raw = map(r#"{"generation":"g1","extra":1}"#);
    let moved = map(r#"{"generation":"g1","extra":2}"#);
    let before = generation("g1");
    let mut after = generation("g1");
    after.display_name = Some("n".into());
    let written = publish_mutation(&raw, Some(&raw), &before, &after).unwrap();
    assert_eq!(written.get_str("displayName"), Some("n"));
    assert!(written.contains_key("extra"));
    assert_eq!(publish_mutation(&raw, Some(&moved), &before, &after).unwrap_err().as_str(), "stale");
    assert_eq!(publish_mutation(&raw, None, &before, &after).unwrap_err().as_str(), "stale");
    assert_eq!(finish_mutation(true, None, after.clone()).as_str(), "changed");
}

// ---- attached clients ----------------------------------------------------

fn client(pid: u32) -> AttachedClient {
    AttachedClient { pid: Some(pid), tty: None, attached_at: "t".into() }
}

#[test]
fn clients_that_did_not_answer_are_unknown() {
    let sets = attached_clients(3, vec![(2, vec![client(7)]), (0, vec![])]);
    assert_eq!(sets.len(), 3);
    assert_eq!(sets[0].known(), Some(&[][..]));
    assert_eq!(sets[1].known(), None);
    assert_eq!(sets[2].known(), Some(&[client(7)][..]));
}

#[test]
fn only_running_sessions_are_contacted() {
    let mut gone = listed("a", None);
    gone.status = SessionStatus::Exited;
    let live = listed("b", None);
    assert!(is_contacted(&live, 1));
    assert!(!is_contacted(&live, 0));
    assert!(!is_contacted(&gone, 1));
    let query = ClientQuery { deadline: 1000, concurrency: 4 };
    assert_eq!(workers(&[gone.clone(), live.clone(), live.clone()], &query), 2);
    let rows = list(vec![gone, live], Some(vec![ClientSet::Unknown, ClientSet::Known(vec![])]));
    assert_eq!(rows.len(), 2);
    assert!(rows[1].clients.as_ref().unwrap().known().is_some());
    assert!(list(vec![listed("c", None)], None)[0].clients.is_none());
}

// ---- JSON ----------------------------------------------------------------

#[test]
fn json_is_read_and_written() {
    let text = r#"{"a":[1,-2,3.5,null,true],"b":"é\n","a2":{}}"#;
    let value = parse_json(text).unwrap();
    assert_eq!(to_json_text(&value), text);
    assert_eq!(parse_json(&to_pretty_text(&value)), Some(value.copy()));
    assert!(value.same_as(&value.copy()));
    assert_eq!(parse_json_bytes(text.as_bytes()), Some(value));
    assert_eq!(parse_json("{"), None);
    assert_eq!(parse_json("{} x"), None);
    assert_eq!(parse_json_bytes(&[0xff]), None);
    assert_eq!(parse_json(r#"{"a":1,"b":2,"a":3}"#), parse_json(r#"{"a":3,"b":2}"#));
    let mut m = JsonMap::new();
    m.insert("k".into(), Json::PosInt(1));
    m.insert("l".into(), Json::Null);
    m.insert("k".into(), Json::PosInt(2));
    assert_eq!(m.len(), 2);
    assert_eq!(m.key_at(0), "k");
    assert_eq!(m.value_at(0), &Json::PosInt(2));
    m.remove("k");
    assert_eq!(m.get("k"), None);
}

#[test]
fn a_value_is_taken_apart_and_put_together() {
    let text = "{\"b\":[1,-2,null,true],\"a\":{\"x\":\"y\"},\"f\":0.30000000000000004}";
    let value: serde_json::Value = serde_json::from_str(text).unwrap();
    let json = json_of_value(value.clone());
    assert_eq!(to_json_text(&json), value.to_string());
    assert_eq!(value_of_json(&json), value);
    for f in [5e-324, 1.7976931348623157e308, 0.1 + 0.2, -0.0, 123456789.125] {
        let value = serde_json::Value::from(f);
        assert_eq!(value_of_json(&json_of_value(value.clone())).as_f64(), value.as_f64());
    }
}
