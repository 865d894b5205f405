use pty_core::client::summary::{render_tags, strategy_marker};
use pty_core::json::{parse_json, Json};
use pty_core::maps::TagMap;
use pty_core::registry::list::{get_session, SessionInfo, SessionStatus};
use pty_core::registry::metadata::SessionMetadata;
use pty_core::registry::mutate::{
    apply_patch, patch_event, patch_metadata_by_id, update_tags, MetadataPatchEvent, PatchOutcome,
};
use pty_core::registry::tags::{extract_filter_tags, matches_all_tags};

fn tags(pairs: &[(&str, &str)]) -> TagMap {
    pairs.iter().map(|(k, v)| (k.to_string(), v.to_string())).collect()
}

fn strings(v: &[&str]) -> Vec<String> {
    v.iter().map(|s| s.to_string()).collect()
}

fn tagged(pairs: &[(&str, &str)]) -> SessionMetadata {
    SessionMetadata {
        tags: if pairs.is_empty() { None } else { Some(tags(pairs)) },
        ..SessionMetadata::default()
    }
}

fn write(m: &SessionMetadata, set: &[(&str, &str)], rm: &[&str]) -> PatchOutcome {
    let (patch, _) = update_tags(&tags(set), &strings(rm));
    patch.validate().unwrap();
    apply_patch(&patch, m)
}

fn stored(m: &SessionMetadata) -> Option<Json> {
    m.to_map().get("tags").map(|t| t.copy())
}

fn json(text: &str) -> Option<Json> {
    parse_json(text)
}

fn filter(args: &[&str]) -> TagMap {
    extract_filter_tags(&mut strings(args)).unwrap()
}

fn selected<'a>(sessions: &'a [(&'a str, SessionMetadata)], args: &[&str]) -> Vec<&'a str> {
    let wanted = filter(args);
    sessions
        .iter()
        .filter(|(_, m)| matches_all_tags(m.tags.as_ref(), &wanted))
        .map(|(n, _)| *n)
        .collect()
}

// ---- what a record holds -------------------------------------------------

#[test]
fn tags_are_persisted_in_metadata() {
    let m = tagged(&[("owner", "forge"), ("env", "dev")]);
    assert_eq!(stored(&m), json(r#"{"owner":"forge","env":"dev"}"#));
}

#[test]
fn sessions_without_tags_have_no_tags_field() {
    assert_eq!(stored(&tagged(&[])), None);
}

#[test]
fn sets_tags_on_a_running_session() {
    let o = write(&tagged(&[]), &[("role", "server"), ("env", "dev")], &[]);
    assert_eq!(stored(&o.metadata), json(r#"{"role":"server","env":"dev"}"#));
}

#[test]
fn updates_existing_tags() {
    let o = write(&tagged(&[("role", "old")]), &[("role", "new")], &[]);
    assert_eq!(o.metadata.tags.unwrap()["role"], "new");
}

#[test]
fn removes_tags_with_rm() {
    let o = write(&tagged(&[("role", "server"), ("env", "dev")]), &[], &["env"]);
    assert_eq!(stored(&o.metadata), json(r#"{"role":"server"}"#));
}

#[test]
fn removing_every_tag_clears_the_field() {
    let o = write(&tagged(&[("only", "tag")]), &[], &["only"]);
    assert_eq!(stored(&o.metadata), None);
}

#[test]
fn works_on_exited_sessions() {
    let ended = SessionMetadata {
        exited_at: Some("2026-04-05T10:15:03.000Z".into()),
        exit_code: Some(0),
        ..tagged(&[("keep", "true")])
    };
    let o = write(&ended, &[("strategy", "permanent")], &[]);
    assert_eq!(stored(&o.metadata), json(r#"{"keep":"true","strategy":"permanent"}"#));
    assert_eq!(o.metadata.exit_code, Some(0));
}

#[test]
fn errors_on_a_nonexistent_session() {
    let (patch, _) = update_tags(&tags(&[("foo", "bar")]), &[]);
    let message = patch_metadata_by_id("nonexistent", &patch, false).unwrap_err();
    assert!(message.contains("not found"), "{message}");
}

// ---- selecting -----------------------------------------------------------

#[test]
fn filter_tag_filters_json_output() {
    let all = [
        ("tagm", tagged(&[("layout", "work"), ("role", "srv")])),
        ("tago", tagged(&[("layout", "play")])),
    ];
    assert_eq!(selected(&all, &["list", "--json", "--filter-tag", "layout=work"]), ["tagm"]);
}

#[test]
fn filter_tag_requires_all_tags_to_match() {
    let all = [
        ("tagb", tagged(&[("layout", "work"), ("role", "srv")])),
        ("tago", tagged(&[("layout", "work")])),
    ];
    assert_eq!(
        selected(&all, &["list", "--json", "--filter-tag", "layout=work", "--filter-tag", "role=srv"]),
        ["tagb"]
    );
}

#[test]
fn filter_tag_matches_sessions_with_that_tag() {
    let all = [
        ("a", tagged(&[("role", "web")])),
        ("b", tagged(&[("role", "db")])),
        ("c", tagged(&[("role", "web")])),
    ];
    assert_eq!(selected(&all, &["--filter-tag", "role=web", "--json"]), ["a", "c"]);
}

#[test]
fn multiple_filter_tags_are_anded() {
    let all = [
        ("a", tagged(&[("role", "web"), ("env", "prod")])),
        ("b", tagged(&[("role", "web"), ("env", "dev")])),
    ];
    assert_eq!(
        selected(&all, &["--filter-tag", "role=web", "--filter-tag", "env=prod", "--json"]),
        ["a"]
    );
}

#[test]
fn filter_tag_with_zero_matches_is_an_empty_object() {
    let all = [("a", tagged(&[("role", "web")]))];
    assert!(selected(&all, &["--filter-tag", "role=ghost", "--json"]).is_empty());
}

#[test]
fn rejects_filter_tag_without_a_value() {
    let message = extract_filter_tags(&mut strings(&["--filter-tag"])).unwrap_err();
    assert!(message.contains("--filter-tag"), "{message}");
}

#[test]
fn rejects_filter_tag_without_an_equals_sign() {
    let message = extract_filter_tags(&mut strings(&["--filter-tag", "no-equals"])).unwrap_err();
    assert!(message.contains("filter"), "{message}");
}

#[test]
fn tag_multi_splits_on_the_first_equals() {
    assert_eq!(filter(&["--filter-tag", "foo=bar=baz"]), tags(&[("foo", "bar=baz")]));
}

fn listed(name: &str, display_name: &str) -> SessionInfo {
    SessionInfo {
        name: name.into(),
        socket_path: format!("/r/{name}.sock"),
        pid: None,
        status: SessionStatus::Running,
        metadata: Some(SessionMetadata {
            display_name: Some(display_name.into()),
            ..SessionMetadata::default()
        }),
    }
}

#[test]
fn read_resolves_display_names() {
    let all = [listed("tmu1", "friendly-1"), listed("tmu2", "friendly-2")];
    assert_eq!(get_session(&all, "friendly-1"), Ok(Some(0)));
}

#[test]
fn write_resolves_display_names_in_the_list() {
    let all = [listed("tmua", "f1-x"), listed("tmub", "f2-x")];
    assert_eq!(get_session(&all, "f1-x"), Ok(Some(0)));
    assert_eq!(get_session(&all, "f2-x"), Ok(Some(1)));
}

#[test]
fn resolves_a_display_name_for_bulk_ops() {
    let all = [listed("tb1", "friendly-tb")];
    assert_eq!(get_session(&all, "friendly-tb"), Ok(Some(0)));
    let o = write(
        all[0].metadata.as_ref().unwrap(),
        &[("via", "displayname"), ("another", "ok")],
        &[],
    );
    assert_eq!(stored(&o.metadata), json(r#"{"via":"displayname","another":"ok"}"#));
}

#[test]
fn read_errors_when_a_name_is_unresolvable() {
    let all = [listed("tmu1", "friendly-1")];
    assert_eq!(get_session(&all, "no-such-session"), Ok(None));
}

// ---- writing to several --------------------------------------------------

#[test]
fn write_sets_a_tag_on_each_named_session() {
    for before in [tagged(&[]), tagged(&[])] {
        let o = write(&before, &[("audit", "2026-04-25")], &[]);
        assert_eq!(stored(&o.metadata), json(r#"{"audit":"2026-04-25"}"#));
    }
}

#[test]
fn write_removes_a_tag_on_each_named_session() {
    let a = write(&tagged(&[("role", "web"), ("env", "prod")]), &[], &["role"]);
    let b = write(&tagged(&[("role", "web")]), &[], &["role"]);
    assert_eq!(stored(&a.metadata), json(r#"{"env":"prod"}"#));
    assert_eq!(stored(&b.metadata), None);
}

#[test]
fn write_combines_set_and_rm_for_each_session() {
    let o = write(&tagged(&[("drop", "yes")]), &[("fresh", "1")], &["drop"]);
    assert_eq!(stored(&o.metadata), json(r#"{"fresh":"1"}"#));
}

#[test]
fn each_write_fires_its_own_tags_change_event() {
    for name in ["a", "b"] {
        let o = write(&tagged(&[]), &[("role", "web")], &[]);
        assert!(o.publish);
        let e = patch_event(name, "t", MetadataPatchEvent::TagsChange, &o);
        assert_eq!(e.session, name);
        assert_eq!(e.get("value").map(|v| v.copy()), json(r#"{"role":"web"}"#));
    }
}

#[test]
fn no_op_on_one_session_emits_no_event_for_it() {
    assert!(!write(&tagged(&[("role", "web")]), &[("role", "web")], &[]).publish);
    assert!(write(&tagged(&[]), &[("role", "web")], &[]).publish);
}

#[test]
fn filter_tag_writes_to_each_matching_session() {
    let all = [
        ("a", tagged(&[("role", "web")])),
        ("b", tagged(&[("role", "db")])),
        ("c", tagged(&[("role", "web")])),
    ];
    for name in selected(&all, &["--filter-tag", "role=web", "audit=2026-04-25"]) {
        let (_, before) = all.iter().find(|(n, _)| *n == name).unwrap();
        let o = write(before, &[("audit", "2026-04-25")], &[]);
        assert_eq!(stored(&o.metadata), json(r#"{"role":"web","audit":"2026-04-25"}"#));
    }
}

#[test]
fn rejects_an_empty_key() {
    let (patch, _) = update_tags(&tags(&[("", "value")]), &[]);
    let message = patch.validate().unwrap_err();
    assert!(message.to_lowercase().contains("key"), "{message}");
}

#[test]
fn tag_multi_rejects_rm_with_an_empty_key() {
    let (patch, _) = update_tags(&tags(&[]), &strings(&[""]));
    let message = patch.validate().unwrap_err();
    assert!(message.to_lowercase().contains("key"), "{message}");
}

#[test]
fn tag_multi_rm_wins_over_set_of_the_same_key() {
    let o = write(&tagged(&[]), &[("k", "v")], &["k"]);
    assert_eq!(stored(&o.metadata), None);
}

// ---- showing -------------------------------------------------------------

#[test]
fn list_shows_tags_as_hashtags_by_default() {
    let s = render_tags(Some(&tags(&[("role", "web"), ("env", "dev")])), false);
    assert!(s.contains("#role=web"), "{s}");
    assert!(s.contains("#env=dev"), "{s}");
}

#[test]
fn list_hides_bookkeeping_tags_by_default() {
    let t = tags(&[
        ("role", "web"),
        ("ptyfile", "/some/path/pty.toml"),
        ("ptyfile.session", "s"),
        ("ptyfile.tags", "role"),
        ("strategy", "permanent"),
    ]);
    let s = render_tags(Some(&t), false);
    assert!(s.contains("#role=web"), "{s}");
    for hidden in ["#ptyfile=", "#ptyfile.session=", "#ptyfile.tags=", "#strategy="] {
        assert!(!s.contains(hidden), "{s}");
    }
    assert!(strategy_marker(Some(&t)).contains("[permanent]"));
}

#[test]
fn list_tags_includes_bookkeeping_tags() {
    let t = tags(&[("role", "web"), ("ptyfile", "/some/path/pty.toml"), ("strategy", "permanent")]);
    let s = render_tags(Some(&t), true);
    for shown in ["#role=web", "#ptyfile=", "#strategy=permanent"] {
        assert!(s.contains(shown), "{s}");
    }
}

#[test]
fn list_hides_colon_tags_by_default_and_shows_them_with_tags() {
    let t = tags(&[("role", "web"), (":l1234-abc", "1"), (":layout", "grid")]);
    let s = render_tags(Some(&t), false);
    assert!(s.contains("#role=web"), "{s}");
    assert!(!s.contains(":l1234-abc"), "{s}");
    assert!(!s.contains(":layout"), "{s}");
    let all = render_tags(Some(&t), true);
    assert!(all.contains("#:l1234-abc=1"), "{all}");
    assert!(all.contains("#:layout=grid"), "{all}");
}
