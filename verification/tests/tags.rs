use pty_core::client::summary::render_tags;
use pty_core::events::Event;
use pty_core::json::{parse_json, Json};
use pty_core::maps::TagMap;
use pty_core::registry::metadata::SessionMetadata;
use pty_core::registry::mutate::{
    apply_metadata_patch_by_id, apply_patch, begin_patch, patch_event, patch_metadata_by_id,
    set_display_name, update_tags, MetadataPatch, MetadataPatchEvent, MutateStatus, PatchOutcome,
};
use pty_core::registry::tags::{
    extract_filter_tags, is_keep_expired, is_keep_requested, is_reserved_tag_key,
    matches_all_tags, reap_on_exit_default, should_reap_at_exit, strip_gc_bookkeeping,
    DEFAULT_KEEP_MAX_AGE_MS,
};
use pty_core::registry::time::parse_iso8601_ms;

fn tags(pairs: &[(&str, &str)]) -> TagMap {
    pairs.iter().map(|(k, v)| (k.to_string(), v.to_string())).collect()
}

fn session(pairs: &[(&str, &str)]) -> SessionMetadata {
    SessionMetadata {
        tags: if pairs.is_empty() { None } else { Some(tags(pairs)) },
        ..SessionMetadata::default()
    }
}

fn strings(v: &[&str]) -> Vec<String> {
    v.iter().map(|s| s.to_string()).collect()
}

fn tagged(before: &[(&str, &str)], set: &[(&str, &str)], rm: &[&str]) -> PatchOutcome {
    let (patch, event) = update_tags(&tags(set), &strings(rm));
    assert_eq!(event, MetadataPatchEvent::TagsChange);
    assert_eq!(patch.validate(), Ok(()));
    apply_patch(&patch, &session(before))
}

// ---- setting and removing ------------------------------------------------

#[test]
fn sets_a_single_key_value() {
    let o = tagged(&[], &[("role", "web")], &[]);
    assert!(o.publish);
    assert_eq!(o.metadata.tags, Some(tags(&[("role", "web")])));
}

#[test]
fn sets_multiple_keys_in_one_call() {
    let o = tagged(&[], &[("role", "web"), ("owner", "forge"), ("env", "dev")], &[]);
    assert_eq!(
        o.metadata.tags,
        Some(tags(&[("role", "web"), ("owner", "forge"), ("env", "dev")]))
    );
}

#[test]
fn last_value_wins_for_a_repeated_key() {
    let o = tagged(&[], &[("color", "red"), ("color", "blue")], &[]);
    assert_eq!(o.metadata.tags.unwrap()["color"], "blue");
}

#[test]
fn merges_with_existing_tags() {
    let o = tagged(&[("existing", "yes")], &[("fresh", "1"), ("another", "2")], &[]);
    assert_eq!(
        o.metadata.tags,
        Some(tags(&[("existing", "yes"), ("fresh", "1"), ("another", "2")]))
    );
}

#[test]
fn allows_an_empty_value() {
    let o = tagged(&[], &[("key", "")], &[]);
    assert_eq!(o.metadata.tags, Some(tags(&[("key", "")])));
}

#[test]
fn supports_many_tags_in_one_call() {
    let set: TagMap = (0..30).map(|i| (format!("k{i}"), i.to_string())).collect();
    let (patch, _) = update_tags(&set, &[]);
    let o = apply_patch(&patch, &SessionMetadata::default());
    let t = o.metadata.tags.unwrap();
    assert_eq!(t.len(), 30);
    for i in 0..30 {
        assert_eq!(t[&format!("k{i}")], i.to_string());
    }
}

#[test]
fn removes_a_single_key() {
    let o = tagged(&[("a", "1"), ("b", "2")], &[], &["a"]);
    assert_eq!(o.metadata.tags, Some(tags(&[("b", "2")])));
}

#[test]
fn removes_multiple_keys_in_one_call() {
    let o = tagged(&[("a", "1"), ("b", "2"), ("c", "3")], &[], &["a", "c"]);
    assert_eq!(o.metadata.tags, Some(tags(&[("b", "2")])));
}

#[test]
fn rm_of_a_nonexistent_key_is_a_silent_no_op() {
    let o = tagged(&[("a", "1")], &[], &["never-was-set"]);
    assert!(!o.publish);
    assert_eq!(o.error, None);
    assert_eq!(o.metadata.tags, Some(tags(&[("a", "1")])));
}

#[test]
fn rm_of_the_same_key_twice_is_idempotent() {
    let o = tagged(&[("dup", "1")], &[], &["dup", "dup"]);
    assert!(o.publish);
    assert_eq!(o.metadata.tags, None);
}

#[test]
fn removing_every_tag_drops_the_field() {
    let o = tagged(&[("only", "x")], &[], &["only"]);
    assert_eq!(o.metadata.tags, None);
    assert!(!o.metadata.to_map().contains_key("tags"));
}

#[test]
fn combines_set_and_rm_in_one_call() {
    let o = tagged(&[("keep", "yes"), ("drop", "yes")], &[("added", "new")], &["drop"]);
    assert_eq!(o.metadata.tags, Some(tags(&[("keep", "yes"), ("added", "new")])));
}

#[test]
fn tag_bulk_rm_wins_over_set_of_the_same_key() {
    let o = tagged(&[], &[("k", "v")], &["k"]);
    assert!(!o.publish);
    assert_eq!(o.metadata.tags, None);
}

#[test]
fn set_and_rm_are_position_independent() {
    let a = tagged(&[("drop", "yes")], &[("fresh", "1"), ("another", "2")], &["drop"]);
    let b = tagged(&[("drop", "yes")], &[("another", "2"), ("fresh", "1")], &["drop"]);
    assert_eq!(a.metadata.tags, b.metadata.tags);
    assert_eq!(a.metadata.tags, Some(tags(&[("fresh", "1"), ("another", "2")])));
}

#[test]
fn interleaved_set_and_rm_apply_updates_first() {
    let o = tagged(
        &[("x", "old"), ("y", "keep")],
        &[("x", "new"), ("z", "new")],
        &["y", "x"],
    );
    assert_eq!(o.metadata.tags, Some(tags(&[("z", "new")])));
}

#[test]
fn tag_bulk_rejects_rm_with_an_empty_key() {
    let (patch, _) = update_tags(&tags(&[]), &strings(&[""]));
    let message = patch.validate().unwrap_err();
    assert!(message.to_lowercase().contains("key"), "{message}");
}

#[test]
fn rejects_an_empty_key_positional() {
    let (patch, _) = update_tags(&tags(&[("", "value")]), &[]);
    let message = patch.validate().unwrap_err();
    assert!(message.to_lowercase().contains("key"), "{message}");
}

#[test]
fn errors_on_a_nonexistent_session_ref() {
    let (patch, _) = update_tags(&tags(&[("k", "v")]), &[]);
    let refused = patch_metadata_by_id("no-such-session", &patch, false).unwrap_err();
    assert!(refused.contains("not found"), "{refused}");
    let refused =
        apply_metadata_patch_by_id("no-such-session", None, MutateStatus::Missing).unwrap_err();
    assert!(refused.contains("not found"), "{refused}");
}

// ---- events --------------------------------------------------------------

fn event_of(o: &PatchOutcome) -> Event {
    patch_event("s1", "2026-04-05T10:15:03.000Z", MetadataPatchEvent::TagsChange, o)
}

fn member(e: &Event, key: &str) -> Json {
    e.payload.get(key).unwrap().copy()
}

fn json(text: &str) -> Json {
    parse_json(text).unwrap()
}

#[test]
fn bulk_write_fires_exactly_one_event() {
    let o = tagged(&[], &[("a", "1"), ("b", "2"), ("c", "3")], &["z"]);
    assert!(o.publish);
    let e = event_of(&o);
    assert_eq!(e.type_, "tags_change");
    assert_eq!(e.session, "s1");
    assert_eq!(member(&e, "previous"), json("{}"));
    assert_eq!(member(&e, "value"), json(r#"{"a":"1","b":"2","c":"3"}"#));
}

#[test]
fn no_op_bulk_write_fires_no_event() {
    let o = tagged(&[("stable", "x")], &[("stable", "x")], &["nope"]);
    assert!(!o.publish);
}

#[test]
fn partial_no_op_plus_real_change_fires_one_event() {
    let o = tagged(&[("same", "x")], &[("same", "x"), ("new", "y")], &[]);
    assert!(o.publish);
    assert_eq!(member(&event_of(&o), "value"), json(r#"{"same":"x","new":"y"}"#));
}

#[test]
fn set_then_rm_of_a_never_present_key_is_a_no_op() {
    let o = tagged(&[], &[("k", "v")], &["k"]);
    assert!(!o.publish);
}

#[test]
fn a_patch_applied_twice_changes_nothing_more() {
    let (patch, _) = update_tags(&tags(&[("a", "1")]), &strings(&["b"]));
    let first = apply_patch(&patch, &session(&[("b", "2"), ("c", "3")]));
    assert!(first.publish);
    let second = apply_patch(&patch, &first.metadata);
    assert!(!second.publish);
    assert_eq!(second.metadata.tags, first.metadata.tags);
}

#[test]
fn a_display_name_is_set_and_cleared() {
    let (set, event) = set_display_name(Some("Web"));
    assert_eq!(event, MetadataPatchEvent::DisplayNameChange);
    let o = apply_patch(&set, &SessionMetadata::default());
    assert!(o.publish);
    assert_eq!(o.metadata.display_name, Some("Web".to_string()));
    let e = patch_event("s1", "t", event, &o);
    assert_eq!(e.type_, "display_name_change");
    assert_eq!(member(&e, "value"), Json::Str("Web".into()));
    let (clear, _) = set_display_name(None);
    let o = apply_patch(&clear, &o.metadata);
    assert!(o.publish);
    assert_eq!(o.metadata.display_name, None);
    assert!(!apply_patch(&clear, &o.metadata).publish);
}

#[test]
fn a_patch_is_read_from_json() {
    let p = MetadataPatch::from_json(&json(
        r#"{"displayName":null,"tags":{"a":"1","b":null}}"#,
    ))
    .unwrap();
    assert_eq!(p.display_name, Some(None));
    let changes = p.tags.unwrap();
    assert_eq!(changes["a"], Some("1".to_string()));
    assert_eq!(changes["b"], None);
    for bad in ["[]", r#"{"displayName":3}"#, r#"{"tags":[]}"#, r#"{"tags":{"a":1}}"#, r#"{"other":1}"#] {
        assert!(MetadataPatch::from_json(&json(bad)).is_err(), "{bad}");
    }
}

#[test]
fn a_patch_is_refused_while_the_locks_are_held() {
    let (patch, _) = update_tags(&tags(&[("k", "v")]), &[]);
    assert_eq!(begin_patch("s1", &patch, true), Ok(()));
    assert!(begin_patch("s1", &patch, false).is_err());
    assert!(apply_metadata_patch_by_id("s1", None, MutateStatus::Busy).is_err());
    assert!(apply_metadata_patch_by_id("s1", None, MutateStatus::Stale).is_err());
    let o = apply_metadata_patch_by_id("s1", None, MutateStatus::Changed(session(&[("k", "v")])));
    assert!(o.unwrap().changed);
    let o = apply_metadata_patch_by_id("s1", None, MutateStatus::Unchanged(session(&[])));
    assert!(!o.unwrap().changed);
}

// ---- filters -------------------------------------------------------------

fn listed<'a>(sessions: &'a [(&'a str, SessionMetadata)], args: &[&str]) -> Vec<&'a str> {
    let mut argv = strings(args);
    let filter = extract_filter_tags(&mut argv).unwrap();
    sessions
        .iter()
        .filter(|(_, m)| matches_all_tags(m.tags.as_ref(), &filter))
        .map(|(n, _)| *n)
        .collect()
}

#[test]
fn no_filter_tag_lists_everything() {
    let all = [("plain", session(&[])), ("tagged", session(&[("role", "web")]))];
    assert_eq!(listed(&all, &[]), vec!["plain", "tagged"]);
}

#[test]
fn filter_tag_is_position_independent() {
    let mut before = strings(&["list", "--filter-tag", "role=web", "--json"]);
    let mut after = strings(&["list", "--json", "--filter-tag", "role=web"]);
    let a = extract_filter_tags(&mut before).unwrap();
    let b = extract_filter_tags(&mut after).unwrap();
    assert_eq!(a, b);
    assert_eq!(a, tags(&[("role", "web")]));
    assert_eq!(before, strings(&["list", "--json"]));
    assert_eq!(before, after);
    let all = [("web", session(&[("role", "web")])), ("db", session(&[("role", "db")]))];
    assert_eq!(listed(&all, &["--filter-tag", "role=web"]), vec!["web"]);
}

#[test]
fn filter_tag_preserves_equals_signs_in_values() {
    let all = [
        ("kv", session(&[("note", "key=value")])),
        ("other", session(&[("note", "key")])),
    ];
    assert_eq!(listed(&all, &["--filter-tag", "note=key=value"]), vec!["kv"]);
}

#[test]
fn filter_tag_without_a_value_is_rejected() {
    let mut args = strings(&["list", "--filter-tag"]);
    let message = extract_filter_tags(&mut args).unwrap_err();
    assert!(message.contains("key=value"), "{message}");
}

#[test]
fn filter_tag_without_an_equals_sign_is_rejected() {
    let mut args = strings(&["list", "--filter-tag", "nope"]);
    let message = extract_filter_tags(&mut args).unwrap_err();
    assert!(message.contains("key=value"), "{message}");
}

#[test]
fn a_session_with_no_tags_fails_a_non_empty_filter() {
    let empty = SessionMetadata { tags: Some(tags(&[])), ..SessionMetadata::default() };
    let all = [("untagged", session(&[])), ("empty", empty)];
    assert!(listed(&all, &["--filter-tag", "role=web"]).is_empty());
}

#[test]
fn every_filter_tag_must_match() {
    let all = [
        ("both", session(&[("role", "web"), ("env", "prod")])),
        ("one", session(&[("role", "web")])),
    ];
    assert_eq!(listed(&all, &["--filter-tag", "role=web"]), vec!["both", "one"]);
    assert_eq!(
        listed(&all, &["--filter-tag", "role=web", "--filter-tag", "env=prod"]),
        vec!["both"]
    );
    assert!(listed(&all, &["--filter-tag", "role=web", "--filter-tag", "env=dev"]).is_empty());
}

#[test]
fn filter_values_must_match_exactly() {
    let all = [("web", session(&[("role", "web")]))];
    assert!(listed(&all, &["--filter-tag", "role=Web"]).is_empty());
    assert!(listed(&all, &["--filter-tag", "role="]).is_empty());
}

#[test]
fn reserved_keys_are_hidden_from_the_default_listing() {
    let t = tags(&[
        ("ptyfile", "/p/pty.toml"),
        ("ptyfile.session", "s"),
        ("ptyfile.tags", "role"),
        ("strategy", "permanent"),
        (":layout", "grid"),
        (":x", "1"),
        ("role", "web"),
        ("parent", "root"),
        ("supervisor.status", "up"),
        ("ptyfile-extra", "1"),
        ("strategy.extra", "2"),
    ]);
    let s = render_tags(Some(&t), false);
    for hidden in ["#ptyfile=", "#ptyfile.session=", "#ptyfile.tags=", "#strategy=", "#:layout=", "#:x="] {
        assert!(!s.contains(hidden), "{s}");
    }
    for shown in [
        "#role=web",
        "#parent=root",
        "#supervisor.status=up",
        "#ptyfile-extra=1",
        "#strategy.extra=2",
    ] {
        assert!(s.contains(shown), "{s}");
    }
    assert!(is_reserved_tag_key("ptyfile"));
    assert!(is_reserved_tag_key(":x"));
    assert!(!is_reserved_tag_key("role"));
}

// ---- keep, reap, bookkeeping ---------------------------------------------

#[test]
fn a_keep_tag_asks_to_be_kept_unless_it_says_no() {
    for yes in ["true", "1", "yes", "forever", "  On "] {
        assert!(is_keep_requested(Some(&tags(&[("keep", yes)]))), "{yes}");
    }
    for no in ["false", "0", "no", "off", " FALSE ", "No"] {
        assert!(!is_keep_requested(Some(&tags(&[("keep", no)]))), "{no}");
    }
    assert!(!is_keep_requested(None));
    assert!(!is_keep_requested(Some(&tags(&[("role", "web")]))));
}

#[test]
fn keep_wins_over_reaping() {
    let kept = tags(&[("keep", "true")]);
    assert!(!should_reap_at_exit(Some(&kept), true, true));
    assert!(should_reap_at_exit(None, true, false));
    assert!(should_reap_at_exit(None, false, true));
    assert!(!should_reap_at_exit(None, false, false));
}

#[test]
fn the_reap_default_is_on_unless_it_is_switched_off() {
    assert!(reap_on_exit_default(None));
    assert!(!reap_on_exit_default(Some("0")));
    assert!(!reap_on_exit_default(Some("False")));
    assert!(reap_on_exit_default(Some("1")));
}

#[test]
fn a_kept_session_expires_after_its_age() {
    let gone = SessionMetadata {
        created_at: "2026-01-01T00:00:00.000Z".into(),
        exited_at: Some("2026-04-01T00:00:00.000Z".into()),
        tags: Some(tags(&[("keep", "true")])),
        ..SessionMetadata::default()
    };
    let exit = parse_iso8601_ms("2026-04-01T00:00:00.000Z").unwrap();
    let week = DEFAULT_KEEP_MAX_AGE_MS;
    assert!(!is_keep_expired(Some(&gone), exit + week - 1, week));
    assert!(is_keep_expired(Some(&gone), exit + week, week));
    assert!(!is_keep_expired(None, exit, week));
    assert!(is_keep_expired(None, exit, 0));
}

#[test]
fn bookkeeping_is_stripped_and_nothing_else() {
    let t = tags(&[
        ("role", "web"),
        ("strategy.status", "flapping"),
        ("strategy", "permanent"),
        ("strategy.last-respawn-at", "1"),
    ]);
    assert_eq!(
        strip_gc_bookkeeping(Some(&t)),
        Some(tags(&[("role", "web"), ("strategy", "permanent")]))
    );
    let only = tags(&[("strategy.command-hash", "x"), ("strategy.consecutive-fast-fails", "3")]);
    assert_eq!(strip_gc_bookkeeping(Some(&only)), None);
    assert_eq!(strip_gc_bookkeeping(None), None);
    assert_eq!(strip_gc_bookkeeping(Some(&TagMap::new())), None);
}
