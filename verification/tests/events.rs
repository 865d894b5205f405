use pty_core::events::follow::{name_of, FollowedLogs, FollowerOptions, DEFAULT_POLL_INTERVAL};
use pty_core::events::{
    append_line, emit_user_event, event_epoch_ms, format_event, js_string, js_truthy,
    maybe_truncate, read_all_events, read_recent_events, truncate, validate_user_event_type,
    writer_step, AbandonReason, Event, MetadataChangeSnapshot, NotificationSource, KEEP_LINES,
    MAX_LINES, TRUNCATE_CHECK_INTERVAL, TRUNCATE_SIZE_THRESHOLD,
};
use pty_core::json::{parse_json, Json};
use pty_core::maps::{TagChanges, TagMap};

const TS: &str = "2026-04-05T10:15:03.000Z";

fn json(text: &str) -> Json {
    parse_json(text).unwrap()
}

fn tags(pairs: &[(&str, &str)]) -> TagMap {
    pairs.iter().map(|(k, v)| (k.to_string(), v.to_string())).collect()
}

#[test]
fn an_event_is_one_flat_line() {
    let e = Event::session_exit("s1", TS, 3, Some(15));
    assert_eq!(
        e.to_json(),
        r#"{"session":"s1","type":"session_exit","ts":"2026-04-05T10:15:03.000Z","exitCode":3,"signal":15}"#
    );
    assert_eq!(append_line(&e), format!("{}\n", e.to_json()));
}

#[test]
fn a_written_event_is_read_back() {
    let events = [
        Event::bell("s1", TS),
        Event::title_change("s1", TS, "a \"quoted\"\nline"),
        Event::notification("s1", TS, Some("t"), None, Some(NotificationSource::Osc777)),
        Event::focus_request("s1", TS),
        Event::cursor_visible("s1", TS),
        Event::session_start("s1", TS, Some(&tags(&[("role", "web")]))),
        Event::session_exit("s1", TS, -1, None),
        Event::session_descendants_survived("s1", TS, &[1, 2]),
        Event::session_exec("s1", TS, "a", "b"),
        Event::session_respawn("s1", TS),
        Event::session_abandoned("s1", TS, AbandonReason::Idle, Some(9)),
        Event::session_flapping("s1", TS, 1, 2, 3),
        Event::user("s1", "user.x", TS, Some(json(r#"{"n":[1,null,"é"]}"#)), Some("hello")),
        Event::display_name_change("s1", TS, &None, &Some("n".into())),
        Event::tags_change("s1", TS, &tags(&[]), &tags(&[("a", "1")])),
    ];
    for e in &events {
        let line = e.to_json();
        assert!(!line.contains('\n'), "{line}");
        assert_eq!(Event::parse_line(&line).as_ref(), Some(e), "{line}");
    }
    let log: String = events.iter().map(append_line).collect();
    assert_eq!(read_all_events(&log), events);
}

#[test]
fn a_metadata_change_tells_only_what_changed() {
    let mut changes = TagChanges::new();
    changes.insert("a".into(), None);
    let previous = MetadataChangeSnapshot { display_name: None, tags: Some(changes) };
    let value = MetadataChangeSnapshot { display_name: Some(Some("n".into())), tags: None };
    let e = Event::metadata_change("s1", TS, &previous, &value);
    assert_eq!(e.get("previous"), Some(&json(r#"{"tags":{"a":null}}"#)));
    assert_eq!(e.get("value"), Some(&json(r#"{"displayName":"n"}"#)));
}

#[test]
fn an_event_is_built_up() {
    let e = Event::new("s1", "user.x", "t").with("n", Json::PosInt(1)).with_ts(TS);
    assert_eq!(e.ts, TS);
    assert_eq!(e.get("n"), Some(&Json::PosInt(1)));
    assert_eq!(e.get_str("n"), None);
    assert!(e.is_user_event());
    assert!(!Event::bell("s1", TS).is_user_event());
    assert_eq!(event_epoch_ms(&e), Some(1_775_384_103_000));
    assert_eq!(event_epoch_ms(&Event::bell("s1", "t")), None);
}

#[test]
fn lines_that_are_no_events_are_skipped() {
    for bad in ["", "{", "[]", "3", r#"{"session":"s"}"#, r#"{"session":"s","type":1,"ts":"t"}"#] {
        assert!(Event::parse_line(bad).is_none(), "{bad}");
    }
    let log = format!("garbage\n{}\n\n{}", Event::bell("a", TS).to_json(), Event::bell("b", TS).to_json());
    let names: Vec<String> = read_all_events(&log).into_iter().map(|e| e.session).collect();
    assert_eq!(names, ["a", "b"]);
}

#[test]
fn the_newest_events_are_read() {
    let log: String = (0..60).map(|i| append_line(&Event::bell(&format!("s{i}"), TS))).collect();
    let recent = read_recent_events(&log, 2);
    assert_eq!(recent.iter().map(|e| e.session.as_str()).collect::<Vec<_>>(), ["s58", "s59"]);
    assert_eq!(read_recent_events(&log, 1000).len(), 60);
    assert!(read_recent_events(&log, 0).is_empty());
}

#[test]
fn a_long_log_keeps_its_newest_lines() {
    let log: String = (0..MAX_LINES).map(|i| format!("line{i}\n")).collect();
    let kept = truncate(&log).unwrap();
    assert_eq!(kept.lines().count(), KEEP_LINES);
    assert_eq!(kept.lines().next(), Some("line500"));
    assert_eq!(kept.lines().last(), Some("line999"));
    assert!(kept.ends_with('\n'));
    let short: String = (1..MAX_LINES).map(|i| format!("line{i}\n")).collect();
    assert_eq!(truncate(&short), None);
    assert!(!maybe_truncate(TRUNCATE_SIZE_THRESHOLD - 1));
    assert!(maybe_truncate(TRUNCATE_SIZE_THRESHOLD));
}

#[test]
fn a_writer_counts_its_appends() {
    assert_eq!(writer_step(0, true), (1, false));
    assert_eq!(writer_step(5, false).1, false);
    assert!(writer_step(TRUNCATE_CHECK_INTERVAL - 1, true).1);
}

#[test]
fn user_event_types_are_checked() {
    assert_eq!(validate_user_event_type("user.build-done"), None);
    assert_eq!(
        validate_user_event_type(""),
        Some("event type must be a non-empty string".to_string())
    );
    assert_eq!(
        validate_user_event_type("build"),
        Some("custom events must start with \"user.\" (got \"build\")".to_string())
    );
    assert_eq!(
        validate_user_event_type("user."),
        Some("event type \"user.\" needs a suffix (e.g. \"user.build-done\")".to_string())
    );
    let blank = Some("event type may not contain whitespace or control characters".to_string());
    assert_eq!(validate_user_event_type("user.a b"), blank);
    assert_eq!(validate_user_event_type("user.a\u{1}"), blank);
    assert_eq!(validate_user_event_type("user.\u{3000}"), blank);
    let e = emit_user_event("s1", "user.x", TS, None, Some("hi")).unwrap();
    assert_eq!(e.get_str("text"), Some("hi"));
    assert!(emit_user_event("s1", "bell", TS, None, None).is_err());
}

#[test]
fn events_are_shown() {
    let at = Some((12, 5, 9));
    let show = |e: Event| format_event(&e, at);
    assert_eq!(show(Event::bell("s1", TS)), "[12:05:09] s1: bell");
    assert_eq!(show(Event::title_change("s1", TS, "T")), "[12:05:09] s1: title -> \"T\"");
    assert_eq!(
        show(Event::notification("s1", TS, Some("T"), Some("B"), None)),
        "[12:05:09] s1: notification -- \"T\" B"
    );
    assert_eq!(show(Event::notification("s1", TS, None, None, None)), "[12:05:09] s1: notification");
    assert_eq!(show(Event::focus_request("s1", TS)), "[12:05:09] s1: focus requested");
    assert_eq!(show(Event::cursor_visible("s1", TS)), "[12:05:09] s1: cursor restored");
    assert_eq!(
        show(Event::session_start("s1", TS, Some(&tags(&[("a", "1"), ("b", "2")])))),
        "[12:05:09] s1: started a=1 b=2"
    );
    assert_eq!(show(Event::session_start("s1", TS, None)), "[12:05:09] s1: started");
    assert_eq!(show(Event::session_exit("s1", TS, 3, None)), "[12:05:09] s1: exited (code 3)");
    assert_eq!(
        show(Event::session_exit("s1", TS, 3, Some(9))),
        "[12:05:09] s1: killed by signal 9 (code 3)"
    );
    assert_eq!(show(Event::session_exec("s1", TS, "a", "b")), "[12:05:09] s1: exec b (was a)");
    assert_eq!(show(Event::session_respawn("s1", TS)), "[12:05:09] s1: respawned");
    assert_eq!(
        show(Event::session_abandoned("s1", TS, AbandonReason::Idle, Some(9))),
        "[12:05:09] s1: abandoned (idle 9d)"
    );
    let gone = show(Event::session_abandoned("s1", TS, AbandonReason::CwdGone, None));
    assert!(gone.starts_with("[12:05:09] s1: abandoned ("), "{gone}");
    assert_eq!(
        show(Event::display_name_change("s1", TS, &None, &Some("n".into()))),
        "[12:05:09] s1: display_name -> \"n\" (was null)"
    );
    assert_eq!(
        show(Event::tags_change("s1", TS, &tags(&[]), &tags(&[("a", "1")]))),
        "[12:05:09] s1: tags -> a=1 (was {})"
    );
    assert_eq!(
        show(Event::user("s1", "user.x", TS, Some(json("[1]")), None)),
        "[12:05:09] s1: user.x [1]"
    );
    assert_eq!(
        show(Event::user("s1", "user.x", TS, Some(json("[1]")), Some("t"))),
        "[12:05:09] s1: user.x \"t\""
    );
    assert_eq!(show(Event::new("s1", "other", TS)), "[12:05:09] s1: other");
    assert_eq!(
        format_event(&Event::bell("s1", "never"), None),
        "[Invalid Date] s1: bell"
    );
}

#[test]
fn values_are_shown_as_a_script_would() {
    for (text, shown) in [
        ("null", "null"),
        ("true", "true"),
        ("-3", "-3"),
        ("\"x\"", "x"),
        ("[1,[2,null],\"a\"]", "1,2,null,a"),
        ("{}", "[object Object]"),
    ] {
        assert_eq!(js_string(&json(text)), shown, "{text}");
    }
    for falsy in ["null", "false", "0", "\"\"", "0.0"] {
        assert!(!js_truthy(Some(&json(falsy))), "{falsy}");
    }
    for truthy in ["true", "1", "\"0\"", "[]", "{}", "0.5"] {
        assert!(js_truthy(Some(&json(truthy))), "{truthy}");
    }
    assert!(!js_truthy(None));
}

// ---- following -----------------------------------------------------------

fn strings(v: &[&str]) -> Vec<String> {
    v.iter().map(|s| s.to_string()).collect()
}

#[test]
fn a_follower_starts_at_the_end_of_what_is_there() {
    let logs = FollowedLogs::start_named(&strings(&["a", "b"]), &[Some(10), None]);
    let seen: Vec<(&str, u64)> = logs.logs.iter().map(|l| (l.name.as_str(), l.offset)).collect();
    assert_eq!(seen, [("a", 10), ("b", 0)]);
    let mut all = FollowedLogs::start_all(
        &strings(&["a.events.jsonl", "a.json", "b.events.jsonl"]),
        &[Some(5), Some(6), Some(7)],
    );
    let seen: Vec<(&str, u64)> = all.logs.iter().map(|l| (l.name.as_str(), l.offset)).collect();
    assert_eq!(seen, [("a", 5), ("b", 7)]);
    all.discover_new(&strings(&["b.events.jsonl", "c.events.jsonl"]));
    let seen: Vec<(&str, u64)> = all.logs.iter().map(|l| (l.name.as_str(), l.offset)).collect();
    assert_eq!(seen, [("a", 5), ("b", 7), ("c", 0)]);
    all.track("d", 3);
    assert_eq!(all.logs.len(), 4);
    assert_eq!(name_of("x.events.jsonl"), Some("x".to_string()));
    assert_eq!(name_of("x.json"), None);
    assert_eq!(FollowerOptions::all().names, None);
    assert_eq!(FollowerOptions::names(strings(&["a"])).names, Some(strings(&["a"])));
    assert_eq!(FollowerOptions::default().poll_interval, DEFAULT_POLL_INTERVAL);
}

#[test]
fn no_line_is_lost_or_repeated() {
    let one = append_line(&Event::bell("a", TS));
    let two = append_line(&Event::bell("b", TS));
    let bytes = format!("{one}{two}").into_bytes();
    for cut in 0..=bytes.len() {
        let mut logs = FollowedLogs::start_named(&strings(&["s"]), &[None]);
        let log = &mut logs.logs[0];
        let mut seen = Vec::new();
        for size in [cut as u64, bytes.len() as u64] {
            if let Some(count) = log.read_window(size) {
                let from = log.offset as usize;
                seen.extend(log.read_new_lines(&bytes[from..from + count as usize]));
            }
        }
        let names: Vec<&str> = seen.iter().map(|e| e.session.as_str()).collect();
        assert_eq!(names, ["a", "b"], "cut at {cut}");
    }
}

#[test]
fn a_log_that_shrank_is_read_from_the_start() {
    let mut logs = FollowedLogs::start_named(&strings(&["s"]), &[Some(100)]);
    let log = &mut logs.logs[0];
    assert_eq!(log.read_window(100), None);
    assert_eq!(log.read_window(40), Some(40));
    assert_eq!(log.offset, 0);
}

#[test]
fn a_line_that_repeats_a_key_of_the_envelope_holds_no_event() {
    let once = r#"{"session":"s","type":"user.x","ts":"t","data":{"ts":1,"type":2},"text":"ts"}"#;
    assert!(Event::parse_line(once).is_some());
    let twice = r#"{"session":"s","type":"user.x","ts":"t","ts":"u"}"#;
    assert!(Event::parse_line(twice).is_none());
    let escaped = r#"{"session":"s","type":"user.x","ts":"t","\u0074s" : "u"}"#;
    assert!(Event::parse_line(escaped).is_none());
    let other = r#"{"session":"s","type":"user.x","ts":"t","text":"a","text":"b"}"#;
    assert_eq!(Event::parse_line(other).unwrap().get_str("text"), Some("b"));
    let quoted = r#"{"session":"s\"ts\":","type":"user.x","ts":"t"}"#;
    assert_eq!(Event::parse_line(quoted).unwrap().session, "s\"ts\":");
    let repeating = Event::bell("s", "t").with("ts", parse_json("1").unwrap());
    assert!(Event::parse_line(&repeating.to_json()).is_none());
}

#[test]
fn two_reads_deliver_the_events_of_one() {
    let title = Event::title_change("s", TS, "caf\u{e9} \u{1f600}");
    let bell = Event::bell("s", TS);
    let bytes = format!("{}\n{}", append_line(&title), append_line(&bell)).into_bytes();
    for cut in 0..=bytes.len() {
        let mut logs = FollowedLogs::start_named(&strings(&["s"]), &[None]);
        let log = &mut logs.logs[0];
        let mut seen = log.read_new_lines(&bytes[..cut]);
        let from = log.offset as usize;
        seen.extend(log.read_new_lines(&bytes[from..]));
        assert_eq!(seen, [title.clone(), bell.clone()], "cut at {cut}");
        assert_eq!(log.offset, bytes.len() as u64);
    }
}
