use pty_core::client::attach::{
    backoff, Attach, AttachOutcome, AttachPhase, LoopStep, MachineStep, Redial, SocketStep,
    RECONNECT_BACKOFF_CAP_MS,
};
use pty_core::client::stream::{
    stream_fd_number, truncated_line, validate_attach_stream_fd, Accepted, FdProbe, MachineStream,
    StreamFailure,
};
use pty_core::client::tty::{normalize_detach_key, size_or_default, DETACH_KEY, DOUBLE_TAP_MS};
use pty_core::client::{Errno, FaultKind, IoFault, SocketRead};
use pty_core::protocol::{
    encode_attach, encode_data, encode_detach, encode_exit, encode_geometry, encode_resize,
    encode_screen, encode_status, read_packet, Packet, MAX_PACKET_LENGTH,
};

const WINDOW_US: u64 = DOUBLE_TAP_MS * 1000;

fn fault(errno: Errno, kind: FaultKind) -> IoFault {
    IoFault { errno: Some(errno), kind, text: "text".into() }
}

fn packet(bytes: Vec<u8>) -> Packet {
    read_packet(&bytes).unwrap().unwrap()
}

fn local() -> Attach {
    Attach::new("s1", false, false, None, None)
}

fn remote(max: Option<usize>) -> Attach {
    Attach::new("s1", true, true, None, max)
}

fn text(bytes: &[u8]) -> String {
    String::from_utf8(bytes.to_vec()).unwrap()
}

#[test]
fn an_attach_starts_with_the_size() {
    let mut a = local();
    assert_eq!(a.on_ready((24, 80), true), encode_attach(24, 80));
    assert!(a.watching);
    assert_eq!(a.handle_sigwinch(Some((30, 100))), Some(encode_resize(30, 100)));
    assert_eq!(a.handle_sigwinch(None), None);
    assert_eq!(a.run(0), LoopStep::Wait(None));
}

#[test]
fn packets_go_to_the_terminal() {
    let mut a = local();
    let step = a.handle_packets(&[
        packet(encode_screen(b"screen")),
        packet(encode_data(b"data")),
        packet(encode_status()),
    ]);
    assert_eq!(text(&step.stdout), "\x1b[2J\x1b[Hscreendata");
    assert_eq!(step.outcome, None);
    let step = a.handle_packets(&[packet(encode_exit(3)), packet(encode_data(b"late"))]);
    let shown = text(&step.stdout);
    assert!(shown.ends_with("\r\n[s1 exited with code 3]\r\n"), "{shown:?}");
    assert_eq!(step.outcome, Some(AttachOutcome::Exited(3)));
    assert_eq!(AttachOutcome::Exited(3).exit_code(), 3);
    assert_eq!(AttachOutcome::Detached.exit_code(), 0);
    assert!(a.session_exited);
    assert!(!a.socket);
}

#[test]
fn one_tap_detaches_when_the_window_closes() {
    let mut a = local();
    assert_eq!(a.process_input(&[DETACH_KEY], 1000), None);
    assert_eq!(a.run(1000), LoopStep::Wait(Some(300)));
    assert_eq!(a.run(1000 + WINDOW_US - 1), LoopStep::Wait(Some(1)));
    assert_eq!(a.run(1000 + WINDOW_US), LoopStep::Detach);
    let (sent, step) = a.finish_detach(None);
    assert_eq!(sent, Some(encode_detach()));
    assert!(text(&step.stdout).ends_with("\r\n[detached]\r\n"));
    assert_eq!(step.outcome, Some(AttachOutcome::Detached));
}

#[test]
fn a_second_tap_sends_the_key() {
    let mut a = local();
    a.process_input(&[DETACH_KEY], 1000);
    let sent = a.process_input(&[DETACH_KEY], 1000 + WINDOW_US - 1);
    assert_eq!(sent, Some(encode_data(&[DETACH_KEY])));
    assert_eq!(a.detach_armed, None);
    assert_eq!(a.run(u64::MAX), LoopStep::Wait(None));
}

#[test]
fn other_input_is_forwarded() {
    let mut a = local();
    assert_eq!(a.process_input(b"ls\r", 0), Some(encode_data(b"ls\r")));
    a.process_input(&[DETACH_KEY], 5);
    assert_eq!(a.process_input(b"x", 6), Some(encode_data(b"x")));
    assert_eq!(a.detach_armed, Some(5));
    assert_eq!(normalize_detach_key(b"\x1b[92;5u"), [DETACH_KEY]);
    assert_eq!(normalize_detach_key(b"plain"), b"plain");
    assert_eq!(size_or_default(None), (24, 80));
    assert_eq!(size_or_default(Some((50, 132))), (50, 132));
}

#[test]
fn a_close_ends_a_local_attach() {
    let mut a = local();
    let SocketStep::Step(step) = a.handle_socket_readable(SocketRead::Closed, 0) else {
        panic!("no step");
    };
    assert_eq!(step.outcome, Some(AttachOutcome::Exited(0)));
    let mut a = local();
    let gone = SocketRead::Failed(fault(Errno::ConnectionReset, FaultKind::ConnectionReset));
    let SocketStep::Step(step) = a.handle_socket_readable(gone, 0) else {
        panic!("no step");
    };
    assert_eq!(step.outcome, Some(AttachOutcome::Exited(1)));
    assert_eq!(step.stderr, "Session \"s1\" not found or not running.\n");
}

#[test]
fn a_remote_attach_dials_again() {
    let mut a = remote(Some(3));
    let SocketStep::Step(step) = a.handle_socket_readable(SocketRead::Closed, 0) else {
        panic!("no step");
    };
    assert_eq!(text(&step.stdout), "\r\n[reconnecting… — Ctrl-\\ or Ctrl-C to stop]\r\n");
    assert_eq!(step.outcome, None);
    assert_eq!(a.phase, AttachPhase::Reconnecting { attempt: 0, next_at: 100_000 });
    assert_eq!(a.run(0), LoopStep::Wait(Some(100)));
    assert_eq!(a.run(100_000), LoopStep::Redial);
    assert_eq!(a.try_reconnect(Redial::Failed, 100_000).outcome, None);
    assert_eq!(a.phase, AttachPhase::Reconnecting { attempt: 1, next_at: 350_000 });
    assert_eq!(a.try_reconnect(Redial::Connected, 350_000).outcome, None);
    assert_eq!(a.phase, AttachPhase::Live);
    assert!(a.socket);
}

#[test]
fn reconnecting_gives_up_or_is_refused() {
    let mut a = remote(Some(1));
    a.handle_socket_readable(SocketRead::Closed, 0);
    let step = a.try_reconnect(Redial::Failed, 100_000);
    assert_eq!(step.outcome, Some(AttachOutcome::Exited(1)));
    assert!(text(&step.stdout).contains("[s1: connection lost"));
    let mut a = remote(None);
    a.handle_socket_readable(SocketRead::Closed, 0);
    let step = a.try_reconnect(Redial::Refused, 100_000);
    assert_eq!(step.outcome, Some(AttachOutcome::Exited(0)));
    assert!(text(&step.stdout).contains("[s1 session ended]"));
}

#[test]
fn a_session_that_exited_is_not_dialled_again() {
    let mut a = remote(None);
    a.handle_packets(&[packet(encode_exit(7))]);
    let step = a.on_disconnect(None, 0, String::new());
    assert_eq!(step.outcome, Some(AttachOutcome::Exited(7)));
    assert_eq!(a.phase, AttachPhase::Live);
}

#[test]
fn pauses_grow_to_the_cap() {
    let pauses: Vec<u64> = (0..9).map(backoff).collect();
    assert_eq!(pauses, [100, 250, 500, 1000, 2000, 5000, 10000, 15000, 15000]);
    assert_eq!(backoff(usize::MAX), RECONNECT_BACKOFF_CAP_MS);
}

#[test]
fn a_peer_that_sends_too_much_is_dropped() {
    let mut a = local();
    let mut header = vec![0u8];
    header.extend((MAX_PACKET_LENGTH as u32 + 1).to_be_bytes());
    let SocketStep::Step(step) = a.handle_socket_readable(SocketRead::Bytes(header), 0) else {
        panic!("no step");
    };
    assert!(step.stderr.starts_with("pty client: dropping connection — "), "{}", step.stderr);
    let mut whole = local();
    let SocketStep::Packets(list) =
        whole.handle_socket_readable(SocketRead::Bytes(encode_data(b"x")), 0)
    else {
        panic!("no packets");
    };
    assert_eq!(list, [packet(encode_data(b"x"))]);
    let again = SocketRead::Failed(fault(Errno::Again, FaultKind::WouldBlock));
    assert!(matches!(whole.handle_socket_readable(again, 0), SocketStep::Packets(v) if v.is_empty()));
}

#[test]
fn the_end_of_everything_finishes() {
    let mut a = local();
    a.input_closed();
    a.on_disconnect(None, 0, String::new());
    assert_eq!(a.run(0), LoopStep::Finish);
    assert_eq!(a.finish(), AttachOutcome::Exited(0));
    let step = local().poll_failed("EIO");
    assert_eq!(step.stderr, "Connection error: poll EIO\n");
}

// ---- the machine stream --------------------------------------------------

fn machine() -> Attach {
    Attach::new("s1", false, false, Some(3), None)
}

#[test]
fn the_machine_stream_comes_in_order() {
    let mut a = machine();
    for bytes in [encode_geometry(24, 80), encode_screen(b"s"), encode_data(b"d"), encode_exit(2)] {
        let p = packet(bytes.clone());
        let MachineStep::Forward(out) = a.machine_packet(&p) else {
            panic!("not forwarded");
        };
        assert_eq!(out, bytes);
        let step = a.machine_forwarded(&p, None);
        if bytes == encode_exit(2) {
            assert_eq!(step.outcome, Some(AttachOutcome::Exited(2)));
        } else {
            assert_eq!(step.outcome, None);
        }
    }
    let mut late = machine();
    assert!(matches!(late.machine_packet(&packet(encode_status())), MachineStep::Skip));
    let MachineStep::Stop(step) = late.machine_packet(&packet(encode_data(b"d"))) else {
        panic!("not stopped");
    };
    assert!(step.stderr.starts_with("pty attach: daemon does not support attach stream v1 ("), "{}", step.stderr);
    assert_eq!(step.outcome, Some(AttachOutcome::Exited(1)));
}

#[test]
fn a_truncated_machine_stream_is_told() {
    let mut a = machine();
    let SocketStep::Step(step) = a.handle_socket_readable(SocketRead::Closed, 0) else {
        panic!("no step");
    };
    assert_eq!(step.stderr, "pty attach: machine stream truncated before EXIT: connection closed\n");
    assert_eq!(truncated_line("x"), "pty attach: machine stream truncated before EXIT: x\n");
    let mut a = machine();
    let p = packet(encode_geometry(24, 80));
    a.machine_packet(&p);
    let step = a.machine_forwarded(&p, Some(&fault(Errno::BrokenPipe, FaultKind::BrokenPipe)));
    assert_eq!(step.stderr, "pty attach: machine stream descriptor 3 failed: write EPIPE\n");
    assert_eq!(machine().detach_frame(), Some(encode_detach()));
    assert_eq!(local().detach_frame(), None);
}

#[test]
fn a_stream_descriptor_is_checked() {
    assert_eq!(stream_fd_number(3), Ok(3));
    assert_eq!(
        stream_fd_number(2),
        Err("--attach-stream-fd-v1 requires a dedicated inherited file descriptor >= 3 (got 2)".into())
    );
    assert!(stream_fd_number(i64::from(i32::MAX) + 1).is_err());
    assert_eq!(validate_attach_stream_fd(5, &FdProbe::Usable), Ok(5));
    assert_eq!(
        validate_attach_stream_fd(5, &FdProbe::FstatFailed(fault(Errno::BadDescriptor, FaultKind::Other))),
        Err("--attach-stream-fd-v1 descriptor 5 is not writable: EBADF: bad file descriptor, fstat".into())
    );
    assert_eq!(
        validate_attach_stream_fd(5, &FdProbe::WriteFailed(fault(Errno::BadDescriptor, FaultKind::Other))),
        Err("--attach-stream-fd-v1 descriptor 5 is not writable: EBADF: bad file descriptor, write".into())
    );
}

#[test]
fn a_stream_is_reset_for_a_new_socket() {
    let mut m = MachineStream::new(4);
    assert_eq!(m.fd(), 4);
    assert!(matches!(m.accept(&packet(encode_geometry(1, 2))), Ok((Accepted::Forwarded, _))));
    let early = m.accept(&packet(encode_exit(0))).unwrap_err();
    assert_eq!(
        early.message(),
        "pty attach: daemon does not support attach stream v1 (expected SCREEN before EXIT)"
    );
    m.reset();
    let early = m.accept(&packet(encode_screen(b"s"))).unwrap_err();
    assert_eq!(
        early.message(),
        "pty attach: daemon does not support attach stream v1 (expected GEOMETRY before terminal events)"
    );
    assert!(m.accept(&packet(encode_geometry(1, 2))).is_ok());
    assert!(matches!(m.accept(&packet(encode_status())), Ok((Accepted::Skipped, _))));
    let failure = m.write_failure(&fault(Errno::BrokenPipe, FaultKind::BrokenPipe));
    assert!(matches!(failure, StreamFailure::WriteFailed { fd: 4, .. }));
}

#[test]
fn normalising_the_detach_key_leaves_no_long_form() {
    let long = b"\x1b[92;5u";
    let mut tricky = b"\x1b[9".to_vec();
    tricky.extend_from_slice(long);
    tricky.extend_from_slice(b"2;5u");
    tricky.extend_from_slice(long);
    tricky.extend_from_slice(long);
    let once = normalize_detach_key(&tricky);
    assert_eq!(once, b"\x1b[9\x1c2;5u\x1c\x1c");
    assert!(!once.windows(long.len()).any(|w| w == long));
    assert_eq!(normalize_detach_key(&once), once);
}
