use pty_core::registry::atomic::{fallback_bytes, is_tmp_name, random_hex16, tmp_path_for};
use pty_core::registry::names::{
    auto_display_name, generate_id, random_session_name, sanitize_display_name, short_path,
    time_ago, time_ago_from_seconds, unique_id_failure_message, validate_display_name,
    validate_name,
};
use pty_core::registry::root::{
    default_session_dir, event_lock_path, events_path, join_path, lock_path, metadata_path,
    output_activity_path, pid_path, recovery_revision_path, root_length_check, session_dir,
    socket_path, RootEnv, RootNotices, SUN_PATH_MAX,
};
use pty_core::registry::time::{
    epoch_ms, iso8601, iso8601_from_epoch_ms, local_hms, parse_iso8601_ms, system_time_from_epoch_ms,
};
use pty_core::wait::{wait_step, WaitNext};

const ROOT: &str = "/tmp/pty-registry";

#[test]
fn accepts_ordinary_names() {
    assert_eq!(validate_name(ROOT, "myserver"), Ok(()));
    assert_eq!(validate_name(ROOT, "My_server-2.0"), Ok(()));
}

#[test]
fn rejects_names_that_overflow_the_socket_path_limit() {
    let long = "a".repeat(100);
    let message = validate_name(ROOT, &long).unwrap_err();
    assert_eq!(
        message,
        format!(
            "Session name \"{long}\" produces a socket path of 123 bytes, which exceeds the \
             104-byte kernel limit by 19. Shorten the name or set PTY_SESSION_DIR to a shorter path."
        )
    );
}

#[test]
fn rejects_names_whose_path_hits_the_limit_plus_one() {
    let overhead = format!("{ROOT}/.sock").len();
    let fits = "a".repeat(104 - overhead);
    assert_eq!(validate_name(ROOT, &fits), Ok(()));
    let overshoot = "a".repeat(104 - overhead + 1);
    let message = validate_name(ROOT, &overshoot).unwrap_err();
    assert!(message.contains("socket path"), "{message}");
}

#[test]
fn rejects_bad_characters_before_checking_length() {
    let message = validate_name(ROOT, "has/slash").unwrap_err();
    assert!(message.contains("Invalid session name \"has/slash\""), "{message}");
    assert!(message.contains("letters, numbers, dots, hyphens, and underscores"), "{message}");
    let message = validate_name(ROOT, "..").unwrap_err();
    assert!(message.contains("Invalid session name \"..\""), "{message}");
    let too_long = "a".repeat(256);
    let message = validate_name(ROOT, &too_long).unwrap_err();
    assert!(message.contains("Session name too long (max 255 characters)."), "{message}");
    assert_eq!(validate_name(ROOT, ""), Err("Session name cannot be empty.".to_string()));
}

#[test]
fn a_display_name_may_hold_anything_but_too_much() {
    assert_eq!(validate_display_name("My Web Server"), Ok(()));
    assert!(validate_display_name("").is_err());
    assert!(validate_display_name(&"x".repeat(256)).is_err());
}

#[test]
fn a_random_id_is_an_accepted_name() {
    let id = random_session_name(&[0, 1, 2, 30, 31, 61, 62, 255]);
    assert_eq!(id.len(), 8);
    assert_eq!(&id[..3], "234");
    assert_eq!(validate_name(ROOT, &id), Ok(()));
    assert_eq!(generate_id(&[0, 1, 2, 30, 31, 61, 62, 255]), id);
    assert!(unique_id_failure_message().contains("unique"));
}

#[test]
fn a_display_name_is_tidied_once_and_for_all() {
    let tidy = sanitize_display_name("--my  web/server!--");
    assert_eq!(tidy, "my-web-server");
    assert_eq!(sanitize_display_name(&tidy), tidy);
}

#[test]
fn the_automatic_display_name() {
    assert_eq!(
        auto_display_name("/home/u/proj", "/usr/bin/node", &["app.js".to_string()]),
        "proj-node-app"
    );
    assert_eq!(auto_display_name("/home/u/proj", "cat", &[]), "proj-cat");
    assert_eq!(
        auto_display_name("/home/u/my proj", "cat", &["-n".to_string(), "/x/file.".to_string()]),
        "my-proj-cat-file."
    );
}

#[test]
fn a_path_under_home_is_shortened() {
    assert_eq!(short_path("/home/u/proj", "/home/u"), "~/proj");
    assert_eq!(short_path("/opt/proj", "/home/u"), "/opt/proj");
}

#[test]
fn ages_are_told_in_the_largest_unit() {
    assert_eq!(time_ago_from_seconds(59), "59s ago");
    assert_eq!(time_ago_from_seconds(60), "1m ago");
    assert_eq!(time_ago_from_seconds(3599), "59m ago");
    assert_eq!(time_ago_from_seconds(3600), "1h ago");
    assert_eq!(time_ago_from_seconds(86_399), "23h ago");
    assert_eq!(time_ago_from_seconds(86_400), "1d ago");
    let start = "2026-04-05T10:15:03.000Z";
    let now = parse_iso8601_ms(start).unwrap() + 7_260_000;
    assert_eq!(time_ago(start, now), "2h ago");
    assert_eq!(time_ago("not a date", now), "? ago");
    assert_eq!(time_ago(start, parse_iso8601_ms(start).unwrap() - 1), "-1s ago");
}

#[test]
fn the_files_of_a_session() {
    assert_eq!(socket_path("/r", "s"), "/r/s.sock");
    assert_eq!(pid_path("/r", "s"), "/r/s.pid");
    assert_eq!(metadata_path("/r", "s"), "/r/s.json");
    assert_eq!(events_path("/r", "s"), "/r/s.events.jsonl");
    assert_eq!(lock_path("/r", "s"), "/r/s.lock");
    assert_eq!(event_lock_path("/r", "s"), "/r/s.events.lock");
    assert_eq!(recovery_revision_path("/r", "s"), "/r/.recovery/s.revision.json");
    assert_eq!(output_activity_path("/r", "s"), "/r/.activity/s.json");
    assert_eq!(join_path("/r/", "s"), "/r/s");
    assert_eq!(join_path("/r", "/abs"), "/abs");
}

fn env(root: Option<&str>, legacy: Option<&str>) -> RootEnv {
    RootEnv {
        root: root.map(|s| s.to_string()),
        legacy: legacy.map(|s| s.to_string()),
        silent: false,
        home: Some("/home/u".to_string()),
    }
}

#[test]
fn the_root_comes_from_the_environment_and_says_so_once() {
    let mut given = RootNotices { root_masks_legacy: false, legacy_root: false };
    assert_eq!(
        session_dir(&env(None, None), &mut given),
        ("/home/u/.local/state/pty".to_string(), None)
    );
    assert_eq!(session_dir(&env(Some("/r"), None), &mut given), ("/r".to_string(), None));
    let (root, notice) = session_dir(&env(None, Some("/old")), &mut given);
    assert_eq!(root, "/old");
    assert_eq!(
        notice.as_deref(),
        Some("pty: PTY_SESSION_DIR is deprecated; use PTY_ROOT (same shape, canonical name).")
    );
    assert_eq!(session_dir(&env(None, Some("/old")), &mut given), ("/old".to_string(), None));
    let (root, notice) = session_dir(&env(Some("/r"), Some("/old")), &mut given);
    assert_eq!(root, "/r");
    assert!(notice.unwrap().contains("using PTY_ROOT (/r)"));
    assert_eq!(session_dir(&env(Some("/r"), Some("/old")), &mut given), ("/r".to_string(), None));
    assert_eq!(session_dir(&env(Some(""), Some("")), &mut given).0, "/home/u/.local/state/pty");
    assert_eq!(default_session_dir(&None), "/tmp/.local/state/pty");
}

#[test]
fn a_root_that_leaves_no_room_for_a_socket_is_told() {
    let longest = format!("/{}", "r".repeat(89));
    assert_eq!(root_length_check(&env(Some(&longest), None)), None);
    let over = format!("/{}", "r".repeat(90));
    let message = root_length_check(&env(Some(&over), None)).unwrap();
    assert!(message.starts_with("pty: PTY_ROOT is too long — 91 bytes; must be ≤ 90 bytes"), "{message}");
    assert_eq!(root_length_check(&env(None, None)), None);
    assert_eq!(SUN_PATH_MAX, 104);
}

#[test]
fn a_temporary_name_is_recognised() {
    let bytes = [0u8, 1, 0x0f, 0x10, 0xab, 0xcd, 0xef, 0xff];
    assert_eq!(random_hex16(&bytes), "00010f10abcdefff");
    let tmp = tmp_path_for("/r/s.json", 42, &bytes);
    assert_eq!(tmp, "/r/s.json.tmp.42.00010f10abcdefff");
    assert!(is_tmp_name("s.json.tmp.42.00010f10abcdefff"));
    assert!(!is_tmp_name("s.json"));
}

#[test]
fn instants_round_trip() {
    for ms in [0, 1, 999, 86_400_000, 951_782_400_000, 1_775_383_303_456, 253_402_300_799_999, -1] {
        let text = iso8601_from_epoch_ms(ms);
        assert_eq!(parse_iso8601_ms(&text), Some(ms), "{text}");
    }
    assert_eq!(iso8601_from_epoch_ms(951_782_400_000), "2000-02-29T00:00:00.000Z");
    assert_eq!(parse_iso8601_ms("2026-02-29T00:00:00Z"), parse_iso8601_ms("2026-03-01"));
    assert_eq!(parse_iso8601_ms("2026-02-32T00:00:00Z"), None);
    assert_eq!(parse_iso8601_ms("2026-13-01T00:00:00Z"), None);
    assert_eq!(parse_iso8601_ms("2026-04-05"), Some(1_775_347_200_000));
}

#[test]
fn the_first_and_last_four_digit_instants_are_read_back() {
    assert_eq!(iso8601_from_epoch_ms(-62_167_219_200_000), "0000-01-01T00:00:00.000Z");
    assert_eq!(parse_iso8601_ms("0000-01-01T00:00:00.000Z"), Some(-62_167_219_200_000));
    assert_eq!(iso8601_from_epoch_ms(253_402_300_799_999), "9999-12-31T23:59:59.999Z");
    assert_eq!(parse_iso8601_ms("9999-12-31T23:59:59.999Z"), Some(253_402_300_799_999));
    assert_eq!(parse_iso8601_ms(&iso8601_from_epoch_ms(253_402_300_800_000)), None);
    assert_eq!(parse_iso8601_ms(&iso8601_from_epoch_ms(-62_167_219_200_001)), None);
}

#[test]
fn a_point_in_time_lies_on_either_side_of_the_epoch() {
    assert_eq!(epoch_ms(false, 1_775_383_303, 456), 1_775_383_303_456);
    assert_eq!(epoch_ms(true, 1, 500), -1500);
    assert_eq!(epoch_ms(false, 9_223_372_036_854_775, 808), i64::MIN);
    assert_eq!(epoch_ms(true, u64::MAX, 999), 1);
    assert_eq!(iso8601(false, 951_782_400, 7), "2000-02-29T00:00:00.007Z");
    assert_eq!(iso8601(true, 0, 1), "1969-12-31T23:59:59.999Z");
    assert_eq!(system_time_from_epoch_ms(1500), (false, 1500));
    assert_eq!(system_time_from_epoch_ms(0), (false, 0));
    assert_eq!(system_time_from_epoch_ms(-1500), (true, 1500));
    assert_eq!(system_time_from_epoch_ms(i64::MIN), (true, 9_223_372_036_854_775_808));
    for ms in [0, 1, -1, 1_775_383_303_456, -62_167_219_200_000, i64::MAX] {
        let (before, distance) = system_time_from_epoch_ms(ms);
        assert_eq!(epoch_ms(before, distance / 1000, (distance % 1000) as u32), ms);
    }
}

#[test]
fn a_clock_time_is_padded() {
    assert_eq!(local_hms(Some((9, 5, 0))), "09:05:00");
}

#[test]
fn sanitizing_touches_only_dashes() {
    let kept = |s: &str| -> String {
        s.chars().filter(|c| c.is_ascii_alphanumeric() || *c == '_' || *c == '.').collect()
    };
    for s in ["--my  web/server!--", "a--b", "v1.2_x", "", "///", "-é-a"] {
        assert_eq!(kept(&sanitize_display_name(s)), kept(s), "{s}");
    }
}

#[test]
fn fallback_bytes_come_from_the_mixer() {
    assert_eq!(fallback_bytes(0, 0, 0, 4), [0xaf, 0xf4, 0x4f, 0xec]);
    assert_eq!(fallback_bytes(5, 0, 5, 2), [0xaf, 0xf4]);
    assert_eq!(fallback_bytes(0, 1, 0, 1), [0xf4]);
    assert!(fallback_bytes(1, 2, 3, 0).is_empty());
}

#[test]
fn a_wait_ends_when_done_or_too_late() {
    assert_eq!(wait_step(3, 10, true), WaitNext::Done);
    assert_eq!(wait_step(10, 10, true), WaitNext::Done);
    assert_eq!(wait_step(10, 10, false), WaitNext::TimedOut);
    assert_eq!(wait_step(9, 10, false), WaitNext::Again { left: 1 });
}
