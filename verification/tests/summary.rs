use pty_core::client::remote::RemoteSessionRow;
use pty_core::client::summary::{
    attach_banner, render_label, render_tags, render_trailer, strategy_marker, trailer_header,
    trailer_hint, LineStyle, SessionEnd, SessionSummary, TrailerTarget,
};
use pty_core::maps::TagMap;
use pty_core::registry::list::{SessionInfo, SessionStatus};
use pty_core::registry::metadata::SessionMetadata;
use pty_core::registry::time::parse_iso8601_ms;

fn tags(pairs: &[(&str, &str)]) -> TagMap {
    pairs.iter().map(|(k, v)| (k.to_string(), v.to_string())).collect()
}

fn web() -> SessionSummary {
    SessionSummary {
        id: "web-3f2a".into(),
        display_name: Some("My Web Server".into()),
        cwd: "/opt/proj".into(),
        command: Some("node app.js".into()),
        tags: Some(tags(&[("role", "web")])),
        created_at: Some("2026-09-24T10:00:00.000Z".into()),
        ephemeral: false,
    }
}

fn local(summary: Option<&SessionSummary>) -> TrailerTarget<'_> {
    TrailerTarget {
        id: "web-3f2a",
        peer: None,
        summary,
    }
}

fn at(iso: &str) -> i64 {
    parse_iso8601_ms(iso).unwrap()
}

#[test]
fn detach_trailer_names_the_session_and_how_to_return() {
    let s = web();
    assert_eq!(
        render_trailer(SessionEnd::Detached, &local(Some(&s)), None, "/home/u", true),
        "\r\n[detached from web-3f2a]\r\n  \x1b[1mMy Web Server\x1b[0m \x1b[2m(web-3f2a)\x1b[0m #role=web — /opt/proj — \x1b[2mnode app.js\x1b[0m\r\n  reattach: pty attach web-3f2a\r\n"
    );
}

#[test]
fn remote_hints_name_the_peer_and_survive_a_missing_row() {
    let target = TrailerTarget {
        id: "w",
        peer: Some("box"),
        summary: None,
    };
    assert_eq!(
        render_trailer(SessionEnd::Detached, &target, None, "/home/u", true),
        "\r\n[detached from w]\r\n  reattach: pty attach --remote box w\r\n"
    );
    assert_eq!(
        render_trailer(SessionEnd::ConnectionLost, &target, None, "/home/u", true),
        "\r\n[connection lost to w]\r\n  reconnect: pty attach --remote box w\r\n"
    );
    assert_eq!(
        render_trailer(SessionEnd::Ended, &target, None, "/home/u", true),
        "\r\n[w session ended]\r\n"
    );
}

#[test]
fn exit_header_carries_the_runtime_when_the_start_is_known() {
    let s = web();
    let now = at("2026-09-24T12:14:00.000Z");
    assert_eq!(s.age(now), Some(8_040_000));
    assert_eq!(
        trailer_header(SessionEnd::Exited(1), &local(Some(&s)), Some("2h14m")),
        "[web-3f2a exited with code 1 after 2h14m]"
    );
    assert_eq!(
        trailer_header(SessionEnd::Exited(1), &local(None), None),
        "[web-3f2a exited with code 1]"
    );
}

#[test]
fn restart_hint_only_when_the_entry_outlives_the_exit() {
    let mut kept = web();
    kept.tags = Some(tags(&[("keep", "true")]));
    let mut ephemeral = web();
    ephemeral.ephemeral = true;
    assert_eq!(
        trailer_hint(SessionEnd::Exited(0), &local(Some(&kept)), true),
        Some("restart: pty attach web-3f2a".into())
    );
    assert_eq!(
        trailer_hint(SessionEnd::Exited(0), &local(Some(&ephemeral)), true),
        None
    );
    assert_eq!(trailer_hint(SessionEnd::Exited(0), &local(None), true), None);
}

#[test]
fn banner_uses_the_plain_label() {
    assert_eq!(
        attach_banner("web-3f2a", Some(&web())),
        "[attached to My Web Server (web-3f2a) — press Ctrl+\\ to detach]\n"
    );
    assert_eq!(
        attach_banner("x", None),
        "[attached to x — press Ctrl+\\ to detach]\n"
    );
}

#[test]
fn a_summary_drops_what_is_empty() {
    let meta = SessionMetadata {
        command: "sh".into(),
        display_command: "sh -c 'x'".into(),
        cwd: "/w".into(),
        ..SessionMetadata::default()
    };
    let s = SessionSummary::from_metadata("id1", &meta);
    assert_eq!(s.id, "id1");
    assert_eq!(s.display_name, None);
    assert_eq!(s.created_at, None);
    assert_eq!(s.age(0), None);
    assert_eq!(s.plain_label(), "id1");
}

#[test]
fn a_remote_row_without_a_directory_has_no_directory() {
    let row = RemoteSessionRow {
        name: "r1".into(),
        status: "running".into(),
        command: None,
        cwd: None,
        tags: None,
        display_name: Some(String::new()),
    };
    let s = SessionSummary::from_remote_row(&row);
    assert_eq!(s.id, "r1");
    assert_eq!(s.cwd, "");
    assert_eq!(s.display_name, None);
}

#[test]
fn the_tags_of_a_remote_row_are_ordered_by_key() {
    let row = RemoteSessionRow {
        name: "r1".into(),
        status: "running".into(),
        command: None,
        cwd: None,
        tags: Some(tags(&[("b", "1"), ("a", "2"), ("é", "3"), ("Z", "4")])),
        display_name: None,
    };
    let s = SessionSummary::from_remote_row(&row);
    assert_eq!(render_tags(s.tags.as_ref(), true), " #Z=4 #a=2 #b=1 #é=3");
}

#[test]
fn reserved_tags_show_only_on_request() {
    let t = tags(&[("role", "web"), ("ptyfile", "/p/pty.toml"), (":layout", "grid")]);
    assert_eq!(render_tags(Some(&t), false), " #role=web");
    assert_eq!(
        render_tags(Some(&t), true),
        " #role=web #ptyfile=/p/pty.toml #:layout=grid"
    );
    assert_eq!(render_tags(None, true), "");
}

#[test]
fn the_strategy_is_marked() {
    assert_eq!(strategy_marker(None), "");
    assert_eq!(
        strategy_marker(Some(&tags(&[("strategy", "permanent")]))),
        " \x1b[33m[permanent]\x1b[0m"
    );
    assert_eq!(
        strategy_marker(Some(&tags(&[("strategy", "permanent"), ("strategy.status", "flapping")]))),
        " \x1b[31m[flapping]\x1b[0m"
    );
    assert_eq!(strategy_marker(Some(&tags(&[("strategy", "other")]))), "");
}

#[test]
fn a_label_without_a_display_name_is_the_id() {
    assert_eq!(
        render_label(Some("Web"), "id1", "\x1b[1m"),
        "\x1b[1mWeb\x1b[0m \x1b[2m(id1)\x1b[0m"
    );
    assert_eq!(render_label(None, "id1", "\x1b[1m"), "\x1b[1mid1\x1b[0m");
}

#[test]
fn a_line_shortens_the_home_directory() {
    let mut s = web();
    s.cwd = "/home/u/proj".into();
    let style = LineStyle {
        prefix: "* ",
        bold: "\x1b[1m",
        status: " (running)",
        show_all_tags: false,
    };
    assert_eq!(
        s.line(&style, "/home/u"),
        "* \x1b[1mMy Web Server\x1b[0m \x1b[2m(web-3f2a)\x1b[0m #role=web (running) — ~/proj — \x1b[2mnode app.js\x1b[0m"
    );
}

#[test]
fn a_session_without_a_record_is_summed_up_by_its_id() {
    let mut info = SessionInfo {
        name: "abc".into(),
        socket_path: "/r/abc.sock".into(),
        pid: None,
        status: SessionStatus::Running,
        metadata: None,
    };
    let bare = SessionSummary { id: "abc".into(), ..SessionSummary::default() };
    assert_eq!(SessionSummary::from_info(&info), bare);
    let meta = SessionMetadata {
        cwd: "/srv".into(),
        display_name: Some("web".into()),
        ..SessionMetadata::default()
    };
    info.metadata = Some(meta.clone());
    assert_eq!(
        SessionSummary::from_info(&info),
        SessionSummary::from_metadata("abc", &meta)
    );
    assert_eq!(SessionSummary::from_info(&info).plain_label(), "web (abc)");
}
