use pty_core::json::{parse_json, Json};
use pty_core::registry::activity::{
    needs_sidecar, newest_output_at_ms, write_output_activity, OutputActivity,
};
use pty_core::registry::list::reaped_from_ps_state;
use pty_core::registry::metadata::SessionMetadata;
use pty_core::registry::time::{iso8601_from_epoch_ms, parse_iso8601_ms};

#[test]
fn a_zombie_is_reapable() {
    assert!(reaped_from_ps_state("Z", || panic!("must not ask")));
    assert!(reaped_from_ps_state("Z+  ", || panic!("must not ask")));
}

#[test]
fn a_running_state_is_not_reapable() {
    for state in ["S", "S+", "Ss", "R", "I", "U", "T"] {
        assert!(
            !reaped_from_ps_state(state, || panic!("must not ask")),
            "{state} was called reapable"
        );
    }
}

#[test]
fn a_blank_state_asks_the_kernel_rather_than_assuming_death() {
    assert!(
        !reaped_from_ps_state("", || true),
        "a blank state from a live process was called reapable"
    );
    assert!(
        !reaped_from_ps_state("   \n", || true),
        "a whitespace state from a live process was called reapable"
    );
    assert!(
        reaped_from_ps_state("", || false),
        "a blank state from a process that has really gone must reap"
    );
}

#[test]
fn iso_round_trips() {
    let s = "2026-04-05T10:15:03.000Z";
    let ms = parse_iso8601_ms(s).unwrap();
    assert_eq!(iso8601_from_epoch_ms(ms), s);
    assert_eq!(iso8601_from_epoch_ms(0), "1970-01-01T00:00:00.000Z");
    assert_eq!(parse_iso8601_ms("2026-04-05T00:00:1049Z"), None);
    assert_eq!(parse_iso8601_ms("t"), None);
    assert_eq!(
        parse_iso8601_ms("2026-04-05T12:00:00+02:00"),
        parse_iso8601_ms("2026-04-05T10:00:00Z")
    );
}

fn record(generation: &str, stamp: Option<i64>, exited: bool) -> SessionMetadata {
    SessionMetadata {
        generation: Some(generation.into()),
        last_output_at_ms: stamp,
        exited_at: if exited {
            Some("2026-09-26T12:00:00.000Z".into())
        } else {
            None
        },
        ..SessionMetadata::default()
    }
}

fn sidecar(generation: &str, stamp: i64) -> OutputActivity {
    OutputActivity {
        generation: generation.into(),
        last_output_at_ms: stamp,
    }
}

#[test]
fn a_running_record_takes_its_own_generations_sidecar() {
    let meta = record("g1", None, false);
    assert_eq!(
        newest_output_at_ms(&meta, Some(&sidecar("g1", 42))),
        Some(42)
    );
    assert!(needs_sidecar(&meta));
}

#[test]
fn another_generations_sidecar_is_not_credited() {
    let meta = record("g2", None, false);
    assert_eq!(newest_output_at_ms(&meta, Some(&sidecar("g1", 42))), None);
    let older = record("g2", Some(7), false);
    assert_eq!(
        newest_output_at_ms(&older, Some(&sidecar("g1", 42))),
        Some(7)
    );
}

#[test]
fn an_exited_record_answers_for_itself() {
    let meta = record("g1", Some(10), true);
    assert_eq!(
        newest_output_at_ms(&meta, Some(&sidecar("g1", 42))),
        Some(10)
    );
    assert!(!needs_sidecar(&meta));
}

#[test]
fn the_sidecar_round_trips_as_camel_case() {
    let text = write_output_activity(&sidecar("g1", 42));
    assert_eq!(text, "{\"generation\":\"g1\",\"lastOutputAtMs\":42}");
    let json: serde_json::Value = serde_json::from_str(&text).unwrap();
    assert_eq!(json["generation"], "g1");
    assert_eq!(json["lastOutputAtMs"], 42);
    assert_eq!(json.as_object().unwrap().len(), 2);
}

#[test]
fn a_daemon_is_known_by_its_start_token() {
    let record = |extra: &str, recovery: &str| {
        let Json::Object(extra) = parse_json(extra).unwrap() else {
            unreachable!();
        };
        SessionMetadata {
            extra,
            recovery: parse_json(recovery),
            ..SessionMetadata::default()
        }
    };
    let old = r#"{"processStartToken":"linux:7"}"#;
    assert_eq!(record("{}", old).daemon_start_token(), Some("linux:7"));
    let own = record(r#"{"daemonStartToken":"linux:8"}"#, old);
    assert_eq!(own.daemon_start_token(), Some("linux:8"));
    assert_eq!(own.process_start_token(), Some("linux:7"));
    assert_eq!(record(r#"{"daemonStartToken":""}"#, old).daemon_start_token(), None);
    assert_eq!(record(r#"{"daemonStartToken":1}"#, old).daemon_start_token(), None);
    assert_eq!(record("{}", "{}").daemon_start_token(), None);
}
