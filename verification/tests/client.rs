use pty_core::client::connection::{
    packet_event, peek_screen, AttachProgress, ConnectionRead, Queued, SessionConnection,
    SessionEvent,
};
use pty_core::client::peek::{
    describe_patterns, follow, follow_input, matches_any, peek, peek_wait, strip_ansi, FollowStep,
    PeekOutcome, PeekStep, PeekWaitError, WaitLook, WaitStep,
};
use pty_core::client::readiness::{
    compare_and_set_lifecycle, control_failure, is_socket_path, query_accepted_socket_ownership,
    remaining_poll_ms, request_control_json, verify_binding_still_current, verify_daemon_peer, wait_fd, ControlStep,
    PollResult, ReadinessError, RecordedDaemon, WaitFd,
};
use pty_core::client::remote::{
    dial_and_route, fetch_remote_list, list_text, read_line, route, route_line, route_request,
    ByteRead, DialOutcome, LineStep, ListResponse, RemoteDialer, RemoteError, RouteAck,
};
use pty_core::client::stats::{
    begin, connected, interest, query_stats, query_stats_batch_in, query_status_json,
    query_status_json_over, read_response, write_request, ConnectAttempt, Interest, QueryStep,
    WriteResult,
};
use pty_core::client::{
    dropping_connection_line, errno_description, errno_name, is_gone, map_io_error,
    node_error_message, node_fs_error_message, ClientError, Errno, FaultKind, GoneSet, IoFault,
    SocketRead,
};
use pty_core::protocol::{
    encode_accepted_socket_ownership_request, encode_attach, encode_data, encode_detach, encode_exit, encode_geometry,
    encode_lifecycle_compare_and_set_response, encode_resize, encode_screen, encode_status,
    encode_status_response, read_packet, LifecycleCompareAndSetRequest,
    LifecycleCompareAndSetResult, AcceptedSocketOwnershipRequest, MessageType, PacketReader,
    TcpConnectionTuple,
};
use pty_core::registry::metadata::SessionMetadata;
use pty_core::stats::{
    resident_kb, ClientStats, DaemonStats, GoneStats, ModeStats, ProcessStats, StatsResult, TerminalStats,
};
use pty_core::unix_connect::{poll_until, sockaddr_error};
use pty_core::unix_peer::PeerCredentials;

fn fault(errno: Option<Errno>, kind: FaultKind) -> IoFault {
    IoFault { errno, kind, text: "some text".into() }
}

fn refused() -> IoFault {
    fault(Some(Errno::ConnectionRefused), FaultKind::ConnectionRefused)
}

fn strings(v: &[&str]) -> Vec<String> {
    v.iter().map(|s| s.to_string()).collect()
}

fn bytes(parts: &[Vec<u8>]) -> SocketRead {
    SocketRead::Bytes(parts.concat())
}

// ---- failures ------------------------------------------------------------

#[test]
fn failures_are_told_in_words() {
    assert_eq!(errno_name(Errno::NoEntry), "ENOENT");
    assert_eq!(errno_description(Errno::NoEntry), "no such file or directory");
    assert_eq!(node_error_message("connect", Some("/p"), &refused()), "connect ECONNREFUSED /p");
    assert_eq!(node_error_message("read", None, &refused()), "read ECONNREFUSED");
    assert_eq!(node_error_message("read", None, &fault(None, FaultKind::Other)), "read some text");
    assert_eq!(
        node_fs_error_message("open", &fault(Some(Errno::NoEntry), FaultKind::NotFound)),
        "ENOENT: no such file or directory, open"
    );
    assert_eq!(
        map_io_error("s", false, GoneSet::Broad, "connect", Some("/p"), &refused()).message(),
        "Session \"s\" not found or not running."
    );
    assert_eq!(
        map_io_error("s", true, GoneSet::Broad, "connect", Some("/p"), &refused()).message(),
        "Remote session \"s\" not found or not running."
    );
    let denied = fault(Some(Errno::AccessDenied), FaultKind::Other);
    assert_eq!(
        map_io_error("s", false, GoneSet::Broad, "connect", Some("/p"), &denied).message(),
        "Connection error: connect EACCES /p"
    );
    assert_eq!(
        ClientError::ClosedBeforeScreen("s".into()).message(),
        "Connection to \"s\" closed before screen received."
    );
    assert_eq!(ClientError::StatsTimeout("s".into()).message(), "Timeout querying stats for \"s\"");
    assert_eq!(
        ClientError::InvalidStats("s".into()).message(),
        "Invalid stats response from \"s\""
    );
    assert_eq!(dropping_connection_line("x"), "pty client: dropping connection — x\n");
}

#[test]
fn the_strict_set_is_within_the_broad_one() {
    for kind in [
        FaultKind::NotFound,
        FaultKind::ConnectionRefused,
        FaultKind::ConnectionReset,
        FaultKind::BrokenPipe,
        FaultKind::TimedOut,
        FaultKind::Other,
    ] {
        let f = fault(None, kind);
        assert!(!is_gone(&f, GoneSet::Strict) || is_gone(&f, GoneSet::Broad));
    }
    assert!(is_gone(&refused(), GoneSet::Strict));
    assert!(!is_gone(&fault(Some(Errno::AccessDenied), FaultKind::Other), GoneSet::Broad));
}

// ---- connections ---------------------------------------------------------

#[test]
fn a_connection_attaches_and_keeps_the_order_of_events() {
    let (mut c, first) = SessionConnection::attach_over("s", 24, 80);
    assert_eq!(first, encode_attach(24, 80));
    assert!(c.connected());
    let mut held = Vec::new();
    let read = ConnectionRead::Socket(bytes(&[
        encode_geometry(20, 70),
        encode_data(b"early"),
        encode_screen(b"screen"),
        encode_data(b"late"),
    ]));
    let mut event = c.read_more(read).unwrap();
    loop {
        match c.attach_event(&mut held, event) {
            AttachProgress::Ready => break,
            AttachProgress::Failed(e) => panic!("{}", e.message()),
            AttachProgress::Waiting => {}
        }
        let Queued::Event(next) = c.queued() else {
            panic!("no screen");
        };
        event = Some(next);
    }
    assert_eq!(c.screen(), b"screen");
    assert_eq!((c.effective_rows(), c.effective_cols()), (20, 70));
    assert_eq!((c.rows(), c.cols()), (24, 80));
    let mut order = Vec::new();
    while let Queued::Event(SessionEvent::Data(d)) = c.queued() {
        order.push(String::from_utf8(d).unwrap());
    }
    assert_eq!(order, ["early", "late"]);
}

#[test]
fn a_connection_writes_presses_and_resizes() {
    let (mut c, _) = SessionConnection::attach_over("s", 24, 80);
    assert_eq!(c.write(b"x"), Some(encode_data(b"x")));
    assert_eq!(c.press("ctrl+c").unwrap(), Some(encode_data(b"\x03")));
    assert!(c.press("nope+x").is_err());
    assert_eq!(c.resize(30, 90), Some(encode_resize(30, 90)));
    assert_eq!((c.rows(), c.cols()), (30, 90));
    assert_eq!(c.disconnect(), Some(encode_detach()));
    assert!(!c.connected());
    assert_eq!(c.write(b"x"), None);
    assert_eq!(c.resize(1, 1), None);
    assert_eq!(c.disconnect(), None);
    assert!(matches!(c.queued(), Queued::Event(SessionEvent::Closed)));
    assert_eq!(c.name(), "s");
}

#[test]
fn a_connection_that_closes_says_so() {
    let (mut c, _) = SessionConnection::attach_over("s", 24, 80);
    assert!(matches!(c.read_more(ConnectionRead::TimedOut), Ok(None)));
    let event = c.read_more(ConnectionRead::Socket(SocketRead::Closed)).unwrap();
    assert!(matches!(event, Some(SessionEvent::Closed)));
    let mut held = Vec::new();
    let AttachProgress::Failed(e) = c.attach_event(&mut held, event) else {
        panic!("not failed");
    };
    assert_eq!(e.message(), "Connection to \"s\" closed before screen received.");
    let (mut c, _) = SessionConnection::attach_over("s", 24, 80);
    let e = c.read_more(ConnectionRead::Socket(SocketRead::Failed(refused()))).unwrap_err();
    assert_eq!(e.message(), "Session \"s\" not found or not running.");
    let (mut c, _) = SessionConnection::attach_over("s", 24, 80);
    assert_eq!(
        c.attach_timed_out().message(),
        "Connection to \"s\" closed before screen received."
    );
}

#[test]
fn packets_mean_events() {
    let event = |b: Vec<u8>| packet_event(read_packet(&b).unwrap().unwrap());
    assert!(matches!(event(encode_exit(4)), Some(SessionEvent::Exit(4))));
    assert!(matches!(
        event(encode_geometry(2, 3)),
        Some(SessionEvent::Geometry { rows: 2, cols: 3 })
    ));
    assert!(event(encode_status()).is_none());
}

#[test]
fn one_screen_is_fetched() {
    let mut reader = PacketReader::new();
    let half = ConnectionRead::Socket(SocketRead::Bytes(encode_screen(b"abc")[..6].to_vec()));
    assert!(peek_screen(&mut reader, half, "s").is_none());
    let rest = ConnectionRead::Socket(SocketRead::Bytes(b"bc".to_vec()));
    assert_eq!(peek_screen(&mut reader, rest, "s").unwrap().unwrap(), "abc");
    let late = peek_screen(&mut PacketReader::new(), ConnectionRead::TimedOut, "s").unwrap();
    assert!(late.is_err());
}

// ---- peeking -------------------------------------------------------------

#[test]
fn a_peek_prints_the_screen() {
    let screen = bytes(&[encode_status(), encode_screen(b"abc")]);
    let PeekStep::Done(out, PeekOutcome::Printed) =
        peek(&mut PacketReader::new(), screen, "s", false, true)
    else {
        panic!("not done");
    };
    assert_eq!(out, b"abc\n");
    let gone = peek(&mut PacketReader::new(), SocketRead::Closed, "s", false, true);
    let PeekStep::Failed(line, e) = gone else {
        panic!("not failed");
    };
    assert_eq!(line, "");
    assert_eq!(e.message(), "Session \"s\" not found or not running.");
    let exit = bytes(&[encode_exit(9)]);
    assert!(matches!(
        peek(&mut PacketReader::new(), exit, "s", false, true),
        PeekStep::Done(_, PeekOutcome::Exited(9))
    ));
}

#[test]
fn following_shows_what_comes() {
    let mut reader = PacketReader::new();
    let some = bytes(&[encode_screen(b"S"), encode_data(b"\x1b[31mred\x1b[0m")]);
    let FollowStep::More(out) = follow(&mut reader, some, "s", false, true) else {
        panic!("ended");
    };
    assert_eq!(String::from_utf8(out).unwrap(), "Sred");
    let end = bytes(&[encode_data(b"x"), encode_exit(2), encode_data(b"y")]);
    let FollowStep::Ended(out, PeekOutcome::Exited(2)) = follow(&mut reader, end, "s", false, true)
    else {
        panic!("not ended");
    };
    assert_eq!(String::from_utf8(out).unwrap(), "x\r\n[s exited with code 2]\r\n");
    assert!(matches!(
        follow(&mut reader, SocketRead::Closed, "s", false, true),
        FollowStep::Ended(_, PeekOutcome::Exited(0))
    ));
    assert!(follow_input(b"q").is_none());
    assert!(follow_input(&[0x1c]).is_some());
}

#[test]
fn escape_sequences_are_stripped() {
    assert_eq!(strip_ansi("\x1b[1;31mred\x1b[0m plain"), "red plain");
    assert_eq!(strip_ansi("nothing here"), "nothing here");
}

#[test]
fn a_wait_ends_with_a_pattern_or_a_reason() {
    let patterns = strings(&["ready", "failed"]);
    assert!(matches_any("all ready", &patterns));
    assert!(!matches_any("all well", &patterns));
    assert_eq!(describe_patterns(&patterns), "\"ready\" or \"failed\"");
    let look = |l: WaitLook, plain: bool| peek_wait(l, "s", &patterns, "5", plain);
    assert!(matches!(look(WaitLook::Screen("no".into()), true), WaitStep::Again));
    assert!(matches!(look(WaitLook::Screen("ready".into()), true), WaitStep::Print(_)));
    assert!(matches!(look(WaitLook::Screen("ready".into()), false), WaitStep::Colours(_)));
    assert!(matches!(look(WaitLook::Unreachable(None), true), WaitStep::Again));
    let WaitStep::Failed(e) = look(WaitLook::TimeOver, true) else {
        panic!("not over");
    };
    assert_eq!(e.message(), "Timed out after 5s waiting for \"ready\" or \"failed\".");
    let ended = SessionMetadata {
        exited_at: Some("t".into()),
        exit_code: Some(1),
        last_lines: Some(strings(&["one", "two"])),
        ..SessionMetadata::default()
    };
    let WaitStep::Failed(e) = look(WaitLook::Unreachable(Some(ended)), true) else {
        panic!("not ended");
    };
    assert!(matches!(e, PeekWaitError::Exited { exit_code: Some(1), .. }));
    assert_eq!(
        e.message(),
        "Session \"s\" exited (code 1) without matching \"ready\" or \"failed\".\nLast output:\n  one\n  two"
    );
}

// ---- status queries ------------------------------------------------------

#[test]
fn many_queries_go_step_by_step() {
    assert_eq!(interest(&begin(ConnectAttempt::Busy, "s", "/p")), Interest::Retry);
    assert_eq!(interest(&begin(ConnectAttempt::InProgress, "s", "/p")), Interest::Write);
    let step = begin(ConnectAttempt::Connected, "s", "/p");
    assert!(matches!(step, QueryStep::Writing(0)));
    let (step, on) = write_request(0, 5, WriteResult::Wrote(2), "s", "/p");
    assert!(matches!(step, QueryStep::Writing(2)) && on);
    let (step, on) = write_request(2, 5, WriteResult::Wrote(3), "s", "/p");
    assert!(!on);
    assert_eq!(interest(&step), Interest::Read);
    let QueryStep::Reading(reader) = step else {
        panic!("not reading");
    };
    let (step, on, line) = read_response(reader, bytes(&[encode_status_response("{}")]), "s");
    assert!(!on && line.is_empty());
    assert_eq!(interest(&step), Interest::Nothing);
    let waiting = QueryStep::Connecting;
    let failed = connected(Some(refused()), "c", "/p");
    let results = query_stats_batch_in(&strings(&["a", "b", "c"]), vec![step, waiting, failed]);
    let shown: Vec<String> = results
        .into_iter()
        .map(|(n, r)| format!("{n}: {}", r.unwrap_or_else(|e| e.message())))
        .collect();
    assert_eq!(
        shown,
        [
            "a: {}",
            "b: Timeout querying stats for \"b\"",
            "c: Session \"c\" not found or not running.",
        ]
    );
}

#[test]
fn a_write_of_nothing_is_a_failure() {
    let (step, _) = write_request(0, 5, WriteResult::Wrote(0), "s", "/p");
    let QueryStep::Done(Err(e)) = step else {
        panic!("not failed");
    };
    assert_eq!(e.message(), "Connection error: write write zero");
}

#[test]
fn a_single_query_waits_for_the_status() {
    let mut reader = PacketReader::new();
    let other = ConnectionRead::Socket(bytes(&[encode_data(b"x")]));
    assert!(query_status_json(&mut reader, other, "s").result.is_none());
    let status = ConnectionRead::Socket(bytes(&[encode_status_response("{\"a\":1}")]));
    let read = query_status_json(&mut reader, status, "s");
    assert_eq!(read.result.unwrap().unwrap(), "{\"a\":1}");
    let late = query_status_json(&mut reader, ConnectionRead::TimedOut, "s");
    assert_eq!(
        late.result.unwrap().unwrap_err().message(),
        "Timeout querying stats for \"s\""
    );
    assert_eq!(query_stats("s", Some(3)).unwrap(), 3);
    assert_eq!(
        query_stats::<i32>("s", None).unwrap_err().message(),
        "Invalid stats response from \"s\""
    );
}

#[test]
fn an_oversize_packet_is_skipped_over_a_given_connection() {
    let mut reader = PacketReader::new();
    let huge = ConnectionRead::Socket(SocketRead::Bytes(vec![7, 0xff, 0xff, 0xff, 0xff]));
    assert!(query_status_json_over(&mut reader, huge, "s").is_none());
    let status = ConnectionRead::Socket(bytes(&[encode_status_response("{}")]));
    assert_eq!(query_status_json_over(&mut reader, status, "s").unwrap().unwrap(), "{}");
    let closed = ConnectionRead::Socket(SocketRead::Closed);
    assert_eq!(
        query_status_json_over(&mut reader, closed, "s").unwrap().unwrap_err().message(),
        "Timeout querying stats for \"s\""
    );
    let failed = ConnectionRead::Socket(SocketRead::Failed(refused()));
    assert!(query_status_json_over(&mut reader, failed, "s").unwrap().is_err());
}

#[test]
fn stats_are_json() {
    let stats = StatsResult {
        name: "s".into(),
        terminal: TerminalStats {
            cols: 80,
            rows: 24,
            cursor_x: 1,
            cursor_y: 2,
            scrollback_used: 3,
            scrollback_capacity: 4,
        },
        process: ProcessStats { alive: true, exit_code: None, pid: Some(42), resources: None },
        daemon: DaemonStats { pid: 41, resources: None },
        clients: ClientStats { total: 2, attached: 1, read_only: 1, connections: None },
        modes: ModeStats {
            sgr_mouse: false,
            cursor_hidden: true,
            kitty_keyboard: false,
            kitty_keyboard_flags: vec![],
        },
        uptime_seconds: Some(9),
        created_at: None,
    };
    let text = pty_core::json::to_json_text(&stats.to_json());
    let value: serde_json::Value = serde_json::from_str(&text).unwrap();
    assert_eq!(value["name"], "s");
    assert_eq!(value["terminal"]["cols"], 80);
    assert_eq!(value["process"]["pid"], 42);
    assert_eq!(value["modes"]["cursorHidden"], true);
    assert_eq!(value["uptimeSeconds"], 9);
    assert_eq!(resident_kb("100 25 3 4", 4), Some(100));
    assert_eq!(resident_kb("100", 4), None);
}

// ---- readiness -----------------------------------------------------------

fn daemon() -> Option<RecordedDaemon> {
    Some(RecordedDaemon {
        generation: Some("g1".into()),
        pid: Some(42),
        start_token: Some("linux:7".into()),
    })
}

#[test]
fn a_peer_is_bound_to_the_recorded_daemon() {
    let live = Some("linux:7".to_string());
    let peer = Some(PeerCredentials { pid: 42, uid: 1000 });
    let binding = verify_daemon_peer("s", "g1", &daemon(), peer, 1000, &live).unwrap();
    assert_eq!(binding.pid, 42);
    assert_eq!(binding.start_token, "linux:7");
    assert!(verify_daemon_peer("s", "g2", &daemon(), peer, 1000, &live).is_err());
    assert!(verify_daemon_peer("s", "g1", &daemon(), peer, 1001, &live).is_err());
    assert!(verify_daemon_peer("s", "g1", &daemon(), None, 1000, &live).is_err());
    assert!(verify_daemon_peer("s", "g1", &None, peer, 1000, &live).is_err());
    assert!(verify_daemon_peer("s", "g1", &daemon(), peer, 1000, &None).is_err());
    assert!(verify_binding_still_current("s", "g1", &binding, &daemon(), &live).is_ok());
    let reused = Some("linux:8".to_string());
    assert!(verify_binding_still_current("s", "g1", &binding, &daemon(), &reused).is_err());
    assert!(verify_binding_still_current("s", "g2", &binding, &daemon(), &live).is_err());
}

#[test]
fn a_control_request_takes_the_first_answer() {
    let request = compare_and_set_lifecycle(&LifecycleCompareAndSetRequest {
        expected_generation: "g1".into(),
        tag: "t".into(),
        expected_value: "a".into(),
        value: "b".into(),
    });
    assert_eq!(request.expected_generation, "g1");
    assert_eq!(request.expected_type, MessageType::LifecycleCas);
    let answer = encode_lifecycle_compare_and_set_response(&LifecycleCompareAndSetResult::Busy);
    let mut reader = PacketReader::new();
    let step = request_control_json(
        &mut reader,
        bytes(&[encode_data(b"x"), answer]),
        request.expected_type,
        "s",
    );
    let ControlStep::Answer(payload) = step else {
        panic!("no answer");
    };
    assert_eq!(payload, br#"{"_tag":"Busy"}"#);
    let closed = request_control_json(&mut reader, SocketRead::Closed, request.expected_type, "s");
    assert!(matches!(closed, ControlStep::Failed(ReadinessError::TimedOut(_))));
    let slow = fault(None, FaultKind::TimedOut);
    assert!(matches!(control_failure("s", "write", "/p", &slow), ReadinessError::TimedOut(_)));
    assert!(matches!(control_failure("s", "write", "/p", &refused()), ReadinessError::Client(_)));
}

#[test]
fn waits_are_cut_to_whole_milliseconds() {
    assert_eq!(remaining_poll_ms(0), None);
    assert_eq!(remaining_poll_ms(1), Some(1));
    assert_eq!(remaining_poll_ms(2999), Some(2));
    assert_eq!(remaining_poll_ms(u64::MAX), Some(i32::MAX));
    assert!(matches!(wait_fd(PollResult::Ready { wanted: true, broken: true }), WaitFd::Ready));
    assert!(matches!(wait_fd(PollResult::Ready { wanted: false, broken: true }), WaitFd::Aborted));
    assert!(matches!(wait_fd(PollResult::Ready { wanted: false, broken: false }), WaitFd::Again));
    assert!(matches!(wait_fd(PollResult::TimedOut), WaitFd::TimedOut));
    assert!(matches!(wait_fd(PollResult::Failed(fault(None, FaultKind::Interrupted))), WaitFd::Again));
    assert!(is_socket_path(b"/p", 108));
    assert!(!is_socket_path(b"", 108));
    assert!(!is_socket_path(b"/p\0", 108));
    assert!(!is_socket_path(&[b'a'; 108], 108));
    assert_eq!(poll_until(0, 2000, None), Some(2));
    assert_eq!(poll_until(0, 2001, None), Some(3));
    assert_eq!(poll_until(5, 5, None), None);
    assert_eq!(sockaddr_error(b"/p", 108), None);
    assert!(sockaddr_error(&[b'a'; 108], 108).is_some());
}

// ---- remote --------------------------------------------------------------

fn ack(ok: Option<bool>, error: Option<&str>) -> Option<RouteAck> {
    Some(RouteAck { ok, error: error.map(|e| e.to_string()) })
}

#[test]
fn a_dial_prints_a_socket() {
    let dialer = RemoteDialer::from_env(None);
    assert_eq!(dialer.fabric_bin, "fabric");
    assert_eq!(RemoteDialer::from_env(Some("")).fabric_bin, "fabric");
    assert_eq!(RemoteDialer::from_env(Some("/x/f")).fabric_bin, "/x/f");
    assert_eq!(dialer.dial("box", DialOutcome::Printed(b" /sock\n".to_vec())).unwrap(), "/sock");
    let message = |o: DialOutcome| dialer.dial("box", o).unwrap_err().message();
    assert_eq!(message(DialOutcome::NotRun(Some(Errno::NoEntry))), "spawnSync fabric ENOENT");
    assert_eq!(message(DialOutcome::NotRun(None)), "spawnSync fabric EUNKNOWN");
    assert_eq!(message(DialOutcome::TimedOut), "spawnSync fabric ETIMEDOUT");
    assert_eq!(message(DialOutcome::NotWaited("x".into())), "spawnSync fabric x");
    assert_eq!(
        message(DialOutcome::Failed(b"no peer".to_vec())),
        "Command failed: fabric dial box pty-remote\nno peer"
    );
    assert_eq!(
        dial_and_route("box", String::new()).unwrap_err().message(),
        "fabric dial box returned no socket"
    );
}

#[test]
fn a_route_is_opened_by_a_yes_alone() {
    assert_eq!(route_request("s"), "{\"op\":\"route\",\"name\":\"s\"}\n");
    assert!(route("", ack(Some(true), None)).is_ok());
    let refused = route("", ack(Some(true), Some("gone"))).unwrap_err();
    assert!(refused.is_refused());
    assert_eq!(refused.message(), "gone");
    assert_eq!(route("", ack(Some(false), None)).unwrap_err().message(), "route refused");
    assert_eq!(route("", ack(None, None)).unwrap_err().message(), "route refused");
    let long = "x".repeat(100);
    assert_eq!(
        route(&long, None).unwrap_err().message(),
        format!("bad route response: {}", "x".repeat(80))
    );
}

#[test]
fn a_line_is_read_byte_by_byte() {
    let mut line = Vec::new();
    for b in b"ok" {
        assert!(matches!(read_line(&mut line, ByteRead::Byte(*b)), LineStep::More));
    }
    let step = read_line(&mut line, ByteRead::Byte(b'\n'));
    assert_eq!(route_line(step, "s").unwrap().unwrap(), "ok");
    assert!(route_line(LineStep::More, "s").is_none());
    let message = |s: LineStep| route_line(s, "s").unwrap().unwrap_err().message();
    assert_eq!(message(LineStep::Closed), "remote session \"s\" not reachable");
    assert_eq!(message(LineStep::TimedOut), "route handshake timed out");
    assert_eq!(message(LineStep::Failed(refused())), "read ECONNREFUSED");
}

#[test]
fn a_remote_list_may_be_an_error() {
    assert_eq!(list_text(b" {} \n"), "{}");
    let list = fetch_remote_list(Ok(ListResponse { sessions: None, error: None })).unwrap();
    assert!(list.is_empty());
    let e = fetch_remote_list(Ok(ListResponse { sessions: None, error: Some("no".into()) }));
    assert!(matches!(e, Err(RemoteError::Remote(m)) if m == "no"));
    let bad = fetch_remote_list(Err("oops".into())).unwrap_err();
    assert_eq!(bad.message(), "bad remote response: oops");
}

#[test]
fn an_ownership_question_carries_its_request() {
    let request = AcceptedSocketOwnershipRequest {
        expected_generation: "g1".into(),
        connection: TcpConnectionTuple {
            local_address: "127.0.0.1".into(),
            local_port: 3000,
            remote_address: "127.0.0.1".into(),
            remote_port: 50000,
        },
    };
    let control = query_accepted_socket_ownership(&request);
    assert_eq!(control.expected_generation, "g1");
    assert_eq!(control.expected_type, MessageType::AcceptedSocketOwnership);
    assert_eq!(control.packet, encode_accepted_socket_ownership_request(&request));
}

#[test]
fn the_tags_of_a_gone_session_are_ordered_by_key() {
    let pairs = [("b", "1"), ("a", "2"), ("c", "3")];
    let gone = GoneStats {
        name: "s".into(),
        status: "exited".into(),
        exit_code: Some(3),
        exited_at: None,
        tags: Some(pairs.iter().map(|(k, v)| (k.to_string(), v.to_string())).collect()),
    };
    assert_eq!(
        pty_core::json::to_json_text(&gone.to_json()),
        "{\"name\":\"s\",\"status\":\"exited\",\"exitCode\":3,\"exitedAt\":null,\"tags\":{\"a\":\"2\",\"b\":\"1\",\"c\":\"3\"}}"
    );
}
