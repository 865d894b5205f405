//! The interactive attach: one state, fed with what the socket, the terminal
//! and the clock bring. Input becomes data packets, with the detach key and
//! its double-tap window; the daemon's packets go to the terminal or are
//! re-framed to the machine stream; a loud disconnect of a remote session is
//! dialled again with growing pauses instead of ending.
//!
//! Times are microseconds of a clock that never goes back.

use super::peek::{exit_notice, first_exit};
use super::sanitize::CLEAR_SCREEN_HOME;
use super::stream::{
    next_phase, out_of_order, stream_event, truncated_line, truncated_text, Accepted,
    MachineStream, StreamPhase,
};
use super::tty::{normalize_detach_key, plain_keys, DETACH_KEY, DOUBLE_TAP_MS};
use super::{
    around, bytes_of, call_text, dropping_connection_line, dropping_text, error_text, exit_code_of, gone,
    is_gone, node_error_message, reset, reset_text, ClientError, ErrorView, FaultKind, GoneSet,
    IoFault, SocketRead,
};
use crate::protocol::{
    declared, decode_exit, encode_attach, encode_data, encode_detach, encode_resize, frame, leftover,
    packet_views, packets, refused, size_bytes, too_large_text, MessageType, Packet, PacketReader,
    PacketView,
};
use crate::text::{dec_int, i64_string};
use vstd::prelude::*;
use vstd::utf8::encode_utf8;

verus! {

/// The pauses before reconnect attempts, in milliseconds.
pub const RECONNECT_BACKOFF_MS: [u64; 7] = [100, 250, 500, 1000, 2000, 5000, 10000];

/// Every later attempt waits this long, in milliseconds.
pub const RECONNECT_BACKOFF_CAP_MS: u64 = 15000;

/// The pause before an attempt, in milliseconds.
pub open spec fn pause_ms(attempt: int) -> int {
    if attempt == 0 {
        100
    } else if attempt == 1 {
        250
    } else if attempt == 2 {
        500
    } else if attempt == 3 {
        1000
    } else if attempt == 4 {
        2000
    } else if attempt == 5 {
        5000
    } else if attempt == 6 {
        10000
    } else {
        15000
    }
}

/// The pause before an attempt, in milliseconds.
pub fn backoff(attempt: usize) -> (r: u64)
    ensures
        r == pause_ms(attempt as int),
{
    if attempt < 7 {
        RECONNECT_BACKOFF_MS[attempt]
    } else {
        RECONNECT_BACKOFF_CAP_MS
    }
}

/// Later attempts wait longer, up to the cap.
pub proof fn law_backoff_grows_to_the_cap(a: int, b: int)
    requires
        0 <= a <= b,
    ensures
        pause_ms(a) <= pause_ms(b) <= RECONNECT_BACKOFF_CAP_MS,
        b >= 7 ==> pause_ms(b) == RECONNECT_BACKOFF_CAP_MS,
{
}

/// How the attach ended.
#[derive(Debug, Clone, Copy, PartialEq, Eq, Structural)]
pub enum AttachOutcome {
    /// The session exited with this code, or the client failed with code 1
    /// after printing why.
    Exited(i32),
    /// The user pressed the detach key.
    Detached,
}

impl AttachOutcome {
    /// The process exit code: the session's, or 0 for a detach.
    pub fn exit_code(self) -> (r: i32)
        ensures
            r == (match self {
                AttachOutcome::Exited(c) => c,
                AttachOutcome::Detached => 0,
            }),
    {
        match self {
            AttachOutcome::Exited(c) => c,
            AttachOutcome::Detached => 0,
        }
    }
}

/// Whether the connection is up or being re-established.
#[derive(Debug, Clone, Copy, PartialEq, Eq, Structural)]
pub enum AttachPhase {
    Live,
    /// The next attempt is due at this time.
    Reconnecting { attempt: usize, next_at: u64 },
}

/// The state of an attach.
pub struct Attach {
    pub name: String,
    /// Selects the wording for a remote session.
    pub remote: bool,
    /// The socket is there.
    pub socket: bool,
    pub reader: PacketReader,
    pub machine: Option<MachineStream>,
    /// A disconnect is answered by dialling again.
    pub reconnect: bool,
    /// Bound on failed attempts in a row; `None` is unlimited.
    pub max_attempts: Option<usize>,
    pub exit_code: i32,
    pub session_exited: bool,
    /// When the detach key was tapped.
    pub detach_armed: Option<u64>,
    pub phase: AttachPhase,
    pub stdin_open: bool,
    /// Changes of the window size are watched.
    pub watching: bool,
}

/// What to print, and how the attach ended where it did.
#[derive(Debug)]
pub struct AttachStep {
    pub stdout: Vec<u8>,
    pub stderr: String,
    pub outcome: Option<AttachOutcome>,
}

impl AttachStep {
    /// The step prints these and ends like this.
    pub open spec fn is(&self, stdout: Seq<u8>, stderr: Seq<char>, outcome: Option<AttachOutcome>) -> bool {
        self.stdout@ == stdout && self.stderr@ == stderr && self.outcome == outcome
    }
}

fn quiet() -> (r: AttachStep)
    ensures
        r.is(Seq::empty(), Seq::empty(), None),
{
    let stdout: Vec<u8> = Vec::new();
    let stderr = String::new();
    assert(stdout@ =~= Seq::<u8>::empty());
    AttachStep { stdout, stderr, outcome: None }
}

fn complain(stderr: String, outcome: Option<AttachOutcome>) -> (r: AttachStep)
    ensures
        r.is(Seq::empty(), stderr@, outcome),
{
    let stdout: Vec<u8> = Vec::new();
    assert(stdout@ =~= Seq::<u8>::empty());
    AttachStep { stdout, stderr, outcome }
}

fn print(stdout: Vec<u8>, outcome: Option<AttachOutcome>) -> (r: AttachStep)
    ensures
        r.is(stdout@, Seq::empty(), outcome),
{
    AttachStep { stdout, stderr: String::new(), outcome }
}

/// The state with everything closed.
pub open spec fn closed_down(a: Attach) -> Attach {
    Attach { socket: false, watching: false, ..a }
}

/// The session's record of its exit.
pub open spec fn after_exit(a: Attach, code: int) -> Attach {
    closed_down(Attach { exit_code: code as i32, session_exited: true, ..a })
}

/// What packets put on the terminal: data as it stands, and a screen behind a
/// clear screen.
pub open spec fn terminal_bytes(v: Seq<PacketView>) -> Seq<u8>
    decreases v.len(),
{
    if v.len() == 0 {
        Seq::empty()
    } else {
        let before = terminal_bytes(v.drop_last());
        if v.last().type_ is Data {
            before + v.last().payload
        } else if v.last().type_ is Screen {
            before + encode_utf8(CLEAR_SCREEN_HOME@) + v.last().payload
        } else {
            before
        }
    }
}

/// The line that announces reconnecting.
pub open spec fn reconnecting_text() -> Seq<char> {
    "\r\n[reconnecting… — Ctrl-\\ or Ctrl-C to stop]\r\n"@
}

/// A status line: by itself for the machine stream, below the session's
/// content for a terminal.
pub open spec fn status_text(machine: bool, plain: Seq<char>) -> Seq<char> {
    if machine {
        plain + "\n"@
    } else {
        reset_text() + "\r\n"@ + plain + "\r\n"@
    }
}

/// A step that prints a text to the terminal, or to the error stream beside a
/// machine stream.
pub open spec fn says(s: AttachStep, machine: bool, text: Seq<char>, outcome: Option<AttachOutcome>) -> bool {
    if machine {
        s.is(Seq::empty(), text, outcome)
    } else {
        s.is(encode_utf8(text), Seq::empty(), outcome)
    }
}

fn say(machine: bool, text: String, outcome: Option<AttachOutcome>) -> (r: AttachStep)
    ensures
        says(r, machine, text@, outcome),
{
    if machine {
        complain(text, outcome)
    } else {
        print(bytes_of(text.as_str()), outcome)
    }
}

fn status(machine: bool, plain: &str) -> (r: String)
    ensures
        r@ == status_text(machine, plain@),
{
    if machine {
        let mut s = plain.to_owned();
        s.append("\n");
        s
    } else {
        let mut s = reset();
        s.append("\r\n");
        s.append(plain);
        s.append("\r\n");
        s
    }
}

/// What a failed socket is reported as.
pub open spec fn disconnect_text(a: Attach, err: IoFault) -> Seq<char> {
    if a.machine is Some && !a.session_exited {
        truncated_text(call_text("read"@, None, err))
    } else {
        error_text(
            if gone(err, GoneSet::Broad) {
                ErrorView::NotReachable(a.name@, a.remote)
            } else {
                ErrorView::Connection(call_text("read"@, None, err))
            },
        ) + "\n"@
    }
}

/// What a lost connection leads to, behind a line on the error stream.
pub open spec fn lost(
    a: Attach,
    err: Option<IoFault>,
    now: u64,
    line: Seq<char>,
    after: Attach,
    s: AttachStep,
) -> bool {
    if a.reconnect && !a.session_exited {
        after == (Attach {
            socket: false,
            phase: AttachPhase::Reconnecting {
                attempt: 0,
                next_at: (now + pause_ms(0) * 1000) as u64,
            },
            ..a
        }) && (if a.machine is Some {
            s.is(Seq::empty(), line + reconnecting_text(), None)
        } else {
            s.is(encode_utf8(reconnecting_text()), line, None)
        })
    } else {
        after == closed_down(a) && (match err {
            Some(e) => s.is(
                Seq::empty(),
                line + disconnect_text(a, e),
                Some(AttachOutcome::Exited(1)),
            ),
            None => if a.machine is Some && !a.session_exited {
                s.is(
                    Seq::empty(),
                    line + truncated_text("connection closed"@),
                    Some(AttachOutcome::Exited(1)),
                )
            } else {
                s.is(Seq::empty(), line, Some(AttachOutcome::Exited(a.exit_code)))
            },
        })
    }
}

/// What to do with what the socket brought.
pub enum SocketStep {
    /// Handle these packets.
    Packets(Vec<Packet>),
    /// Print this, and end where it says so.
    Step(AttachStep),
}

/// What became of a packet for the machine stream.
pub enum MachineStep {
    /// It does not belong in the stream.
    Skip,
    /// Write these bytes to the descriptor.
    Forward(Vec<u8>),
    /// Print this and end.
    Stop(AttachStep),
}

/// What dialling again gave.
#[derive(Debug, Clone, Copy, PartialEq, Eq, Structural)]
pub enum Redial {
    /// A fresh socket.
    Connected,
    /// The transport failed: try again.
    Failed,
    /// The host is reachable, and says that the session is gone.
    Refused,
}

/// What to do next.
#[derive(Debug, Clone, Copy, PartialEq, Eq, Structural)]
pub enum LoopStep {
    /// The double-tap window closed: detach.
    Detach,
    /// A reconnect attempt is due.
    Redial,
    /// Nothing is left to wait for.
    Finish,
    /// Wait for the socket, the input and the window size, at most this many
    /// milliseconds.
    Wait(Option<i32>),
}

/// Whether the double-tap window that opened at `t` is closed.
pub open spec fn window_closed(t: u64, now: u64) -> bool {
    now >= t && now - t >= DOUBLE_TAP_MS * 1000
}

/// One byte of input while the detach key may be armed: the armed time, and
/// what is forwarded.
pub open spec fn tap(armed: Option<u64>, now: u64, b: u8) -> (Option<u64>, Seq<u8>) {
    if b != DETACH_KEY {
        (armed, seq![b])
    } else {
        match armed {
            Some(t) if !window_closed(t, now) => (None, seq![b]),
            _ => (Some(now), Seq::empty()),
        }
    }
}

/// Input bytes, one after the other.
pub open spec fn taps(armed: Option<u64>, now: u64, data: Seq<u8>) -> (Option<u64>, Seq<u8>)
    decreases data.len(),
{
    if data.len() == 0 {
        (armed, Seq::empty())
    } else {
        let (a, forward) = taps(armed, now, data.drop_last());
        let (b, more) = tap(a, now, data.last());
        (b, forward + more)
    }
}

/// Microseconds as milliseconds, rounded up, as a waiting time.
pub open spec fn wait_ms(us: int) -> int {
    let ms = if us % 1000 == 0 {
        us / 1000
    } else {
        us / 1000 + 1
    };
    if ms > i32::MAX {
        i32::MAX as int
    } else {
        ms
    }
}

/// How long until something is due, in microseconds.
pub open spec fn due_in(a: Attach, now: u64) -> Option<int> {
    let tap_due = match a.detach_armed {
        Some(t) => Some(t + DOUBLE_TAP_MS * 1000 - now),
        None => None,
    };
    let dial_due = match a.phase {
        AttachPhase::Reconnecting { next_at, .. } => Some(next_at - now),
        AttachPhase::Live => None,
    };
    match (tap_due, dial_due) {
        (Some(x), Some(y)) => Some(
            if x < y {
                x
            } else {
                y
            },
        ),
        (Some(x), None) => Some(x),
        (None, y) => y,
    }
}

/// What the loop does next.
pub open spec fn next_step(a: Attach, now: u64) -> LoopStep {
    if a.detach_armed is Some && window_closed(a.detach_armed->0, now) {
        LoopStep::Detach
    } else if a.phase matches AttachPhase::Reconnecting { next_at, .. } && now >= next_at {
        LoopStep::Redial
    } else {
        match due_in(a, now) {
            Some(us) => LoopStep::Wait(Some(wait_ms(us) as i32)),
            None => if !a.socket && !a.stdin_open && !a.watching {
                LoopStep::Finish
            } else {
                LoopStep::Wait(None)
            },
        }
    }
}

impl Attach {
    /// An attach over a connected socket.
    pub fn new(
        name: &str,
        remote: bool,
        reconnect: bool,
        stream_fd: Option<i32>,
        max_attempts: Option<usize>,
    ) -> (r: Attach)
        ensures
            r.name@ == name@,
            r.remote == remote,
            r.socket,
            r.reader.pending() == Seq::<u8>::empty(),
            r.machine == (match stream_fd {
                Some(fd) => Some(MachineStream { fd, phase: StreamPhase::Geometry }),
                None => None,
            }),
            r.reconnect == reconnect,
            r.max_attempts == max_attempts,
            r.exit_code == 0,
            !r.session_exited,
            r.detach_armed is None,
            r.phase is Live,
            r.stdin_open,
            !r.watching,
    {
        Attach {
            name: name.to_owned(),
            remote,
            socket: true,
            reader: PacketReader::new(),
            machine: match stream_fd {
                Some(fd) => Some(MachineStream::new(fd)),
                None => None,
            },
            reconnect,
            max_attempts,
            exit_code: 0,
            session_exited: false,
            detach_armed: None,
            phase: AttachPhase::Live,
            stdin_open: true,
            watching: false,
        }
    }

    /// The socket is ready: what to write to it first. The window size is
    /// watched from now on where the output is a terminal.
    pub fn on_ready(&mut self, size: (u16, u16), terminal: bool) -> (r: Vec<u8>)
        ensures
            r@ == frame(1, size_bytes(size.0, size.1)),
            *final(self) == (Attach { watching: old(self).watching || terminal, ..*old(self) }),
    {
        if terminal {
            self.watching = true;
        }
        encode_attach(size.0, size.1)
    }

    /// Handle packets for a terminal. An exit packet ends the attach; what
    /// follows it is not shown.
    pub fn handle_packets(&mut self, list: &[Packet]) -> (r: AttachStep)
        requires
            old(self).machine is None,
        ensures
            ({
                let v = packet_views(list@);
                let i = first_exit(v, 0);
                let a = *old(self);
                if i >= v.len() {
                    r.is(terminal_bytes(v), Seq::empty(), None) && *final(self) == a
                } else {
                    let code = exit_code_of(v[i].payload);
                    r.is(
                        terminal_bytes(v.take(i)) + encode_utf8(exit_notice(a.name@, code, false)),
                        Seq::empty(),
                        Some(AttachOutcome::Exited(code as i32)),
                    ) && *final(self) == after_exit(a, code)
                }
            }),
    {
        let ghost a = *self;
        let ghost v = packet_views(list@);
        let mut out: Vec<u8> = Vec::new();
        let mut i: usize = 0;
        assert(v.take(0) =~= Seq::<PacketView>::empty());
        assert(out@ =~= terminal_bytes(v.take(0)));
        while i < list.len()
            invariant
                i <= list@.len(),
                v == packet_views(list@),
                *self == a,
                a == *old(self),
                first_exit(v, i as int) == first_exit(v, 0),
                out@ == terminal_bytes(v.take(i as int)),
            decreases list.len() - i,
        {
            let p = &list[i];
            assert(v[i as int] == p@);
            assert(v.take(i + 1).drop_last() =~= v.take(i as int));
            let ghost before = out@;
            match p.type_ {
                MessageType::Data => {
                    out.extend_from_slice(p.payload.as_slice());
                    assert(out@ =~= before + p.payload@);
                },
                MessageType::Screen => {
                    out.extend_from_slice(CLEAR_SCREEN_HOME.as_bytes());
                    out.extend_from_slice(p.payload.as_slice());
                    assert(out@ =~= before + encode_utf8(CLEAR_SCREEN_HOME@) + p.payload@);
                },
                MessageType::Exit => {
                    let code = decode_exit(p.payload.as_slice());
                    let number = i64_string(code as i64);
                    let mut text = reset();
                    text.append("\r\n[");
                    text.append(self.name.as_str());
                    text.append(" exited with code ");
                    text.append(number.as_str());
                    text.append("]\r\n");
                    out.extend_from_slice(text.as_str().as_bytes());
                    assert(out@ =~= before + encode_utf8(text@));
                    self.exit_code = code;
                    self.session_exited = true;
                    self.clean_exit();
                    return print(out, Some(AttachOutcome::Exited(code)));
                },
                _ => {},
            }
            i += 1;
        }
        assert(v.take(list@.len() as int) =~= v);
        print(out, None)
    }

    /// Drop the input wiring and the socket.
    fn clean_exit(&mut self)
        ensures
            *final(self) == closed_down(*old(self)),
    {
        self.watching = false;
        self.socket = false;
    }

    /// Handle one packet for the machine stream.
    pub fn machine_packet(&mut self, p: &Packet) -> (r: MachineStep)
        requires
            old(self).machine is Some,
        ensures
            ({
                let a = *old(self);
                let m = a.machine->0;
                if !stream_event(p.type_) {
                    r is Skip && *final(self) == a
                } else {
                    match out_of_order(m.phase, p.type_) {
                        Some(what) => r matches MachineStep::Stop(s) && s.is(
                            Seq::empty(),
                            "pty attach: daemon does not support attach stream v1 ("@ + what + ")"@
                                + "\n"@,
                            Some(AttachOutcome::Exited(1)),
                        ) && *final(self) == closed_down(a),
                        None => r matches MachineStep::Forward(b) && b@ == frame(
                            p.type_.wire(),
                            p.payload@,
                        ) && *final(self) == (Attach {
                            machine: Some(
                                MachineStream { fd: m.fd, phase: next_phase(m.phase, p.type_) },
                            ),
                            ..a
                        }),
                    }
                }
            }),
    {
        let ghost a = *self;
        let mut m = match self.machine.take() {
            Some(m) => m,
            None => {
                return MachineStep::Skip;
            },
        };
        let accepted = m.accept(p);
        assert(m.fd == a.machine->0.fd);
        self.machine = Some(m);
        match accepted {
            Ok((Accepted::Skipped, _)) => MachineStep::Skip,
            Ok((Accepted::Forwarded, bytes)) => MachineStep::Forward(bytes),
            Err(failure) => {
                let mut line = failure.message();
                line.append("\n");
                self.clean_exit();
                MachineStep::Stop(complain(line, Some(AttachOutcome::Exited(1))))
            },
        }
    }

    /// A packet has been written to the machine stream, or the write failed.
    /// An exit packet ends the attach.
    pub fn machine_forwarded(&mut self, p: &Packet, failed: Option<&IoFault>) -> (r: AttachStep)
        requires
            old(self).machine is Some,
        ensures
            ({
                let a = *old(self);
                let code = exit_code_of(p.payload@);
                match failed {
                    Some(err) => r.is(
                        Seq::empty(),
                        "pty attach: machine stream descriptor "@ + dec_int(
                            a.machine->0.fd as int,
                        ) + " failed: "@ + call_text("write"@, None, *err) + "\n"@,
                        Some(AttachOutcome::Exited(1)),
                    ) && *final(self) == closed_down(a),
                    None => if p.type_ is Exit {
                        r.is(
                            Seq::empty(),
                            Seq::empty(),
                            Some(AttachOutcome::Exited(code as i32)),
                        ) && *final(self) == after_exit(a, code)
                    } else {
                        r.is(Seq::empty(), Seq::empty(), None) && *final(self) == a
                    },
                }
            }),
    {
        match failed {
            Some(err) => {
                let line = self.stream_failure_line(err);
                self.clean_exit();
                complain(line, Some(AttachOutcome::Exited(1)))
            },
            None => {
                if matches!(p.type_, MessageType::Exit) {
                    let code = decode_exit(p.payload.as_slice());
                    self.exit_code = code;
                    self.session_exited = true;
                    self.clean_exit();
                    complain(String::new(), Some(AttachOutcome::Exited(code)))
                } else {
                    quiet()
                }
            },
        }
    }

    fn stream_failure_line(&self, err: &IoFault) -> (r: String)
        requires
            self.machine is Some,
        ensures
            r@ == "pty attach: machine stream descriptor "@ + dec_int(self.machine->0.fd as int)
                + " failed: "@ + call_text("write"@, None, *err) + "\n"@,
    {
        match &self.machine {
            Some(m) => {
                let failure = m.write_failure(err);
                let mut line = failure.message();
                line.append("\n");
                line
            },
            None => String::new(),
        }
    }

    /// The socket brought something, or failed.
    pub fn handle_socket_readable(&mut self, read: SocketRead, now: u64) -> (r: SocketStep)
        requires
            now <= u64::MAX - 15_000_000,
        ensures
            ({
                let a = *old(self);
                match read {
                    SocketRead::Closed => r matches SocketStep::Step(s) && lost(
                        a,
                        None,
                        now,
                        Seq::empty(),
                        *final(self),
                        s,
                    ),
                    SocketRead::Failed(err) => if err.kind is WouldBlock || err.kind
                        is Interrupted {
                        r matches SocketStep::Packets(v) && v@.len() == 0 && *final(self) == a
                    } else {
                        r matches SocketStep::Step(s) && lost(
                            a,
                            Some(err),
                            now,
                            Seq::empty(),
                            *final(self),
                            s,
                        )
                    },
                    SocketRead::Bytes(b) => {
                        let all = a.reader.pending() + b@;
                        if refused(leftover(all)) {
                            r matches SocketStep::Step(s) && final(self).reader.pending().len() == 0
                                && lost(
                                Attach { reader: final(self).reader, ..a },
                                None,
                                now,
                                dropping_text(too_large_text(declared(leftover(all)) as nat)),
                                *final(self),
                                s,
                            )
                        } else {
                            r matches SocketStep::Packets(v) && packet_views(v@) == packets(all)
                                && final(self).reader.pending() == leftover(all) && *final(self)
                                == (Attach { reader: final(self).reader, ..a })
                        }
                    },
                }
            }),
    {
        match read {
            SocketRead::Closed => SocketStep::Step(self.on_disconnect(None, now, String::new())),
            SocketRead::Failed(err) => match err.kind {
                FaultKind::WouldBlock | FaultKind::Interrupted => SocketStep::Packets(Vec::new()),
                _ => SocketStep::Step(self.on_disconnect(Some(&err), now, String::new())),
            },
            SocketRead::Bytes(b) => {
                let fed = self.reader.feed(b.as_slice());
                match fed {
                    Ok(list) => SocketStep::Packets(list),
                    Err(e) => {
                        let text = e.message();
                        let line = dropping_connection_line(text.as_str());
                        SocketStep::Step(self.on_disconnect(None, now, line))
                    },
                }
            },
        }
    }

    /// The connection is lost, behind a line on the error stream: dial again
    /// where that was asked for and the session has not exited; end else.
    pub fn on_disconnect(&mut self, err: Option<&IoFault>, now: u64, line: String) -> (r: AttachStep)
        requires
            now <= u64::MAX - 15_000_000,
        ensures
            lost(
                *old(self),
                match err {
                    Some(e) => Some(*e),
                    None => None,
                },
                now,
                line@,
                *final(self),
                r,
            ),
    {
        let mut text = line;
        self.socket = false;
        if self.reconnect && !self.session_exited {
            self.phase = AttachPhase::Reconnecting { attempt: 0, next_at: now + backoff(0) * 1000 };
            let note = "\r\n[reconnecting… — Ctrl-\\ or Ctrl-C to stop]\r\n";
            if self.machine.is_some() {
                text.append(note);
                return complain(text, None);
            }
            return AttachStep { stdout: bytes_of(note), stderr: text, outcome: None };
        }
        self.clean_exit();
        let machine = self.machine.is_some() && !self.session_exited;
        match err {
            Some(e) => {
                let detail = node_error_message("read", None, e);
                if machine {
                    text.append(truncated_line(detail.as_str()).as_str());
                    return complain(text, Some(AttachOutcome::Exited(1)));
                }
                let failure = if is_gone(e, GoneSet::Broad) {
                    ClientError::NotReachable { name: self.name.clone(), remote: self.remote }
                } else {
                    ClientError::Connection(detail)
                };
                let mut report = failure.message();
                report.append("\n");
                text.append(report.as_str());
                complain(text, Some(AttachOutcome::Exited(1)))
            },
            None => if machine {
                text.append(truncated_line("connection closed").as_str());
                complain(text, Some(AttachOutcome::Exited(1)))
            } else {
                complain(text, Some(AttachOutcome::Exited(self.exit_code)))
            },
        }
    }

    /// A reconnect attempt was made. A fresh socket takes over, with an empty
    /// reader and the machine stream's expectations reset; a refusal ends the
    /// attach; a failure waits for the next attempt, up to the bound.
    pub fn try_reconnect(&mut self, result: Redial, now: u64) -> (r: AttachStep)
        requires
            now <= u64::MAX - 15_000_000,
            old(self).phase matches AttachPhase::Reconnecting { attempt, .. } ==> attempt
                < usize::MAX,
        ensures
            ({
                let a = *old(self);
                let machine = a.machine is Some;
                match a.phase {
                    AttachPhase::Live => r.is(Seq::empty(), Seq::empty(), None) && *final(self)
                        == a,
                    AttachPhase::Reconnecting { attempt, next_at: _ } => match result {
                        Redial::Refused => says(
                            r,
                            machine,
                            status_text(machine, "["@ + a.name@ + " session ended]"@),
                            Some(
                                AttachOutcome::Exited(
                                    if machine {
                                        1
                                    } else {
                                        0
                                    },
                                ),
                            ),
                        ) && *final(self) == closed_down(Attach { phase: AttachPhase::Live, ..a }),
                        Redial::Connected => r.is(Seq::empty(), Seq::empty(), None)
                            && final(self).reader.pending() == Seq::<u8>::empty() && *final(self)
                            == (Attach {
                            socket: true,
                            phase: AttachPhase::Live,
                            reader: final(self).reader,
                            machine: match a.machine {
                                Some(m) => Some(
                                    MachineStream { fd: m.fd, phase: StreamPhase::Geometry },
                                ),
                                None => None,
                            },
                            ..a
                        }),
                        Redial::Failed => if a.max_attempts is Some && attempt + 1
                            >= a.max_attempts->0 {
                            says(
                                r,
                                machine,
                                status_text(
                                    machine,
                                    "["@ + a.name@
                                        + ": connection lost — re-run `pty attach --remote` to reconnect]"@,
                                ),
                                Some(AttachOutcome::Exited(1)),
                            ) && *final(self) == closed_down(
                                Attach { phase: AttachPhase::Live, ..a },
                            )
                        } else {
                            r.is(Seq::empty(), Seq::empty(), None) && *final(self) == (Attach {
                                phase: AttachPhase::Reconnecting {
                                    attempt: (attempt + 1) as usize,
                                    next_at: (now + pause_ms(attempt + 1) * 1000) as u64,
                                },
                                ..a
                            })
                        },
                    },
                }
            }),
    {
        let attempt: usize = match self.phase {
            AttachPhase::Live => {
                return quiet();
            },
            AttachPhase::Reconnecting { attempt, next_at: _ } => attempt,
        };
        let machine = self.machine.is_some();
        match result {
            Redial::Refused => {
                self.phase = AttachPhase::Live;
                let plain = around("[", self.name.as_str(), " session ended]");
                let text = status(machine, plain.as_str());
                self.clean_exit();
                let code: i32 = if machine {
                    1
                } else {
                    0
                };
                say(machine, text, Some(AttachOutcome::Exited(code)))
            },
            Redial::Connected => {
                self.socket = true;
                self.reader = PacketReader::new();
                let stream = self.machine.take();
                self.machine = match stream {
                    Some(m) => Some(MachineStream::new(m.fd)),
                    None => None,
                };
                self.phase = AttachPhase::Live;
                quiet()
            },
            Redial::Failed => {
                let next: usize = attempt + 1;
                let over = match self.max_attempts {
                    Some(max) => next >= max,
                    None => false,
                };
                if over {
                    self.phase = AttachPhase::Live;
                    let plain = around(
                        "[",
                        self.name.as_str(),
                        ": connection lost — re-run `pty attach --remote` to reconnect]",
                    );
                    let text = status(machine, plain.as_str());
                    self.clean_exit();
                    return say(machine, text, Some(AttachOutcome::Exited(1)));
                }
                self.phase = AttachPhase::Reconnecting {
                    attempt: next,
                    next_at: now + backoff(next) * 1000,
                };
                quiet()
            },
        }
    }

    /// Input from the terminal: what to write to the socket. The first tap of
    /// the detach key arms the detach; a second within the window sends the
    /// key to the session instead.
    pub fn process_input(&mut self, raw: &[u8], now: u64) -> (r: Option<Vec<u8>>)
        ensures
            ({
                let a = *old(self);
                let data = plain_keys(raw@);
                let (armed, forward) = taps(a.detach_armed, now, data);
                *final(self) == (Attach { detach_armed: armed, ..a }) && (match r {
                    Some(b) => a.socket && b@ == frame(0, forward) && (forward.len() > 0
                        || !data.contains(DETACH_KEY)),
                    None => !a.socket || (forward.len() == 0 && data.contains(DETACH_KEY)),
                })
            }),
    {
        let data = normalize_detach_key(raw);
        let ghost a = *self;
        let mut forward: Vec<u8> = Vec::new();
        let mut armed = self.detach_armed;
        let mut tapped = false;
        let mut i: usize = 0;
        assert(data@.take(0) =~= Seq::<u8>::empty());
        assert(forward@ =~= Seq::<u8>::empty());
        while i < data.len()
            invariant
                i <= data@.len(),
                (armed, forward@) == taps(a.detach_armed, now, data@.take(i as int)),
                tapped == data@.take(i as int).contains(DETACH_KEY),
            decreases data.len() - i,
        {
            let b = data[i];
            let ghost before = forward@;
            let ghost prefix = data@.take(i as int);
            let ghost next = data@.take(i + 1);
            assert(next.drop_last() =~= prefix);
            if b == DETACH_KEY {
                let again = match armed {
                    Some(t) => !(now >= t && now - t >= DOUBLE_TAP_MS * 1000),
                    None => false,
                };
                if again {
                    armed = None;
                    forward.push(b);
                } else {
                    armed = Some(now);
                }
                tapped = true;
                assert(next[i as int] == DETACH_KEY);
            } else {
                forward.push(b);
                assert(next.contains(DETACH_KEY) == prefix.contains(DETACH_KEY)) by {
                    if next.contains(DETACH_KEY) {
                        let k = choose|k: int| 0 <= k < next.len() && next[k] == DETACH_KEY;
                        assert(prefix[k] == DETACH_KEY);
                    }
                    if prefix.contains(DETACH_KEY) {
                        let k = choose|k: int| 0 <= k < prefix.len() && prefix[k] == DETACH_KEY;
                        assert(next[k] == DETACH_KEY);
                    }
                }
            }
            assert(forward@ =~= before + tap(taps(a.detach_armed, now, prefix).0, now, b).1);
            i += 1;
        }
        assert(data@.take(data@.len() as int) =~= data@);
        self.detach_armed = armed;
        if !self.socket || (tapped && forward.len() == 0) {
            return None;
        }
        Some(encode_data(forward.as_slice()))
    }

    /// The input ended or failed.
    pub fn input_closed(&mut self)
        ensures
            *final(self) == (Attach { stdin_open: false, ..*old(self) }),
    {
        self.stdin_open = false;
    }

    /// The window size changed: what to write to the socket.
    pub fn handle_sigwinch(&self, size: Option<(u16, u16)>) -> (r: Option<Vec<u8>>)
        ensures
            match (r, size) {
                (Some(b), Some(n)) => self.socket && b@ == frame(3, size_bytes(n.0, n.1)),
                (Some(_), None) => false,
                (None, _) => !self.socket || size is None,
            },
    {
        match size {
            Some((rows, cols)) => if self.socket {
                Some(encode_resize(rows, cols))
            } else {
                None
            },
            None => None,
        }
    }

    /// What to do next.
    pub fn run(&self, now: u64) -> (r: LoopStep)
        ensures
            r == next_step(*self, now),
    {
        let mut due: Option<i128> = None;
        if let Some(t) = self.detach_armed {
            if now >= t && now - t >= DOUBLE_TAP_MS * 1000 {
                return LoopStep::Detach;
            }
            due = Some(t as i128 + (DOUBLE_TAP_MS * 1000) as i128 - now as i128);
        }
        if let AttachPhase::Reconnecting { attempt: _, next_at } = self.phase {
            if now >= next_at {
                return LoopStep::Redial;
            }
            let at = next_at as i128 - now as i128;
            due = Some(
                match due {
                    Some(d) => if d < at {
                        d
                    } else {
                        at
                    },
                    None => at,
                },
            );
        }
        match due {
            Some(us) => {
                let mut ms: i128 = us / 1000;
                if us % 1000 != 0 {
                    ms = ms + 1;
                }
                if ms > i32::MAX as i128 {
                    ms = i32::MAX as i128;
                }
                LoopStep::Wait(Some(ms as i32))
            },
            None => if !self.socket && !self.stdin_open && !self.watching {
                LoopStep::Finish
            } else {
                LoopStep::Wait(None)
            },
        }
    }

    /// Waiting failed: everything is closed, and the failure printed.
    pub fn poll_failed(&mut self, text: &str) -> (r: AttachStep)
        ensures
            *final(self) == closed_down(*old(self)),
            r.is(
                Seq::empty(),
                "Connection error: poll "@ + text@ + "\n"@,
                Some(AttachOutcome::Exited(1)),
            ),
    {
        self.clean_exit();
        complain(around("Connection error: poll ", text, "\n"), Some(AttachOutcome::Exited(1)))
    }

    /// Nothing is left to wait for: the attach ends with the session's code.
    pub fn finish(&mut self) -> (r: AttachOutcome)
        ensures
            *final(self) == closed_down(*old(self)),
            r == AttachOutcome::Exited(old(self).exit_code),
    {
        self.clean_exit();
        AttachOutcome::Exited(self.exit_code)
    }

    /// What the machine stream gets on a detach.
    pub fn detach_frame(&self) -> (r: Option<Vec<u8>>)
        ensures
            match r {
                Some(b) => self.machine is Some && b@ == frame(2, Seq::empty()),
                None => self.machine is None,
            },
    {
        if self.machine.is_some() {
            Some(encode_detach())
        } else {
            None
        }
    }

    /// Detach: what to write to the socket before it is closed, and what to
    /// print. Where the machine stream could not be told, the attach fails and
    /// the socket gets nothing.
    pub fn finish_detach(&mut self, failed: Option<&IoFault>) -> (r: (Option<Vec<u8>>, AttachStep))
        requires
            failed is Some ==> old(self).machine is Some,
        ensures
            ({
                let a = *old(self);
                &&& *final(self) == closed_down(a)
                &&& match failed {
                    Some(err) => r.0 is None && r.1.is(
                        Seq::empty(),
                        "pty attach: machine stream descriptor "@ + dec_int(
                            a.machine->0.fd as int,
                        ) + " failed: "@ + call_text("write"@, None, *err) + "\n"@,
                        Some(AttachOutcome::Exited(1)),
                    ),
                    None => (match r.0 {
                        Some(b) => a.socket && b@ == frame(2, Seq::empty()),
                        None => !a.socket,
                    }) && r.1.is(
                        if a.machine is Some {
                            Seq::empty()
                        } else {
                            encode_utf8(reset_text() + "\r\n[detached]\r\n"@)
                        },
                        Seq::empty(),
                        Some(AttachOutcome::Detached),
                    ),
                }
            }),
    {
        if let Some(err) = failed {
            let line = self.stream_failure_line(err);
            self.clean_exit();
            return (None, complain(line, Some(AttachOutcome::Exited(1))));
        }
        let sent = if self.socket {
            Some(encode_detach())
        } else {
            None
        };
        self.clean_exit();
        if self.machine.is_some() {
            return (sent, complain(String::new(), Some(AttachOutcome::Detached)));
        }
        let mut text = reset();
        text.append("\r\n[detached]\r\n");
        (sent, print(bytes_of(text.as_str()), Some(AttachOutcome::Detached)))
    }
}

// ---- laws ----------------------------------------------------------------

/// A single tap arms the detach and sends nothing; it fires exactly when the
/// window closes.
pub proof fn law_single_tap_detaches(a: Attach, t: u64, now: u64)
    requires
        a.detach_armed is None,
        a.phase is Live,
        t <= now,
    ensures
        taps(a.detach_armed, t, seq![DETACH_KEY]) == (Some(t), Seq::<u8>::empty()),
        next_step(Attach { detach_armed: Some(t), ..a }, now) == LoopStep::Detach <==> now - t
            >= DOUBLE_TAP_MS * 1000,
{
    reveal_with_fuel(taps, 2);
    let data = seq![DETACH_KEY];
    assert(data.drop_last() =~= Seq::<u8>::empty());
    assert(Seq::<u8>::empty() + Seq::<u8>::empty() =~= Seq::<u8>::empty());
}

/// A second tap within the window sends the key to the session, and cancels
/// the detach.
pub proof fn law_double_tap_sends_the_key(t: u64, now: u64)
    requires
        t <= now,
        now - t < DOUBLE_TAP_MS * 1000,
    ensures
        taps(Some(t), now, seq![DETACH_KEY]) == (None::<u64>, seq![DETACH_KEY]),
{
    reveal_with_fuel(taps, 2);
    let data = seq![DETACH_KEY];
    assert(data.drop_last() =~= Seq::<u8>::empty());
    assert(Seq::<u8>::empty() + data =~= data);
}

/// Input without the detach key goes to the session as it stands, and leaves
/// an armed detach armed.
pub proof fn law_other_input_is_forwarded(armed: Option<u64>, now: u64, data: Seq<u8>)
    requires
        !data.contains(DETACH_KEY),
    ensures
        taps(armed, now, data) == (armed, data),
    decreases data.len(),
{
    if data.len() > 0 {
        let before = data.drop_last();
        assert(data[data.len() - 1] != DETACH_KEY);
        assert(!before.contains(DETACH_KEY)) by {
            assert forall|i: int| 0 <= i < before.len() implies before[i] != DETACH_KEY by {
                assert(data[i] != DETACH_KEY);
            }
        }
        law_other_input_is_forwarded(armed, now, before);
        assert(before + seq![data.last()] =~= data);
    } else {
        assert(data =~= Seq::<u8>::empty());
    }
}

/// A session that has exited is not dialled again: a close after the exit ends
/// with its code.
pub proof fn law_exit_is_final(a: Attach, now: u64, line: Seq<char>, after: Attach, s: AttachStep)
    requires
        a.session_exited,
        lost(a, None, now, line, after, s),
    ensures
        s.outcome == Some(AttachOutcome::Exited(a.exit_code)),
        after.phase == a.phase,
{
}

/// What packets put on the terminal is a concatenation: the output of packets
/// and more packets is the one output behind the other.
pub proof fn law_terminal_output_is_a_concatenation(a: Seq<PacketView>, b: Seq<PacketView>)
    ensures
        terminal_bytes(a + b) == terminal_bytes(a) + terminal_bytes(b),
    decreases b.len(),
{
    if b.len() == 0 {
        assert(a + b =~= a);
        assert(terminal_bytes(a) + terminal_bytes(b) =~= terminal_bytes(a));
    } else {
        law_terminal_output_is_a_concatenation(a, b.drop_last());
        assert((a + b).drop_last() =~= a + b.drop_last());
        assert((a + b).last() == b.last());
        assert(terminal_bytes(a + b) =~= terminal_bytes(a) + terminal_bytes(b));
    }
}

/// What one packet puts on the terminal: a data packet exactly its payload, a
/// screen its payload behind what clears the screen and homes the cursor, and
/// any other packet nothing.
pub proof fn law_terminal_output_of_a_packet(p: PacketView)
    ensures
        p.type_ is Data ==> terminal_bytes(seq![p]) == p.payload,
        p.type_ is Screen ==> terminal_bytes(seq![p]) == encode_utf8("\x1b[2J\x1b[H"@) + p.payload,
        !(p.type_ is Data) && !(p.type_ is Screen) ==> terminal_bytes(seq![p]).len() == 0,
{
    let v = seq![p];
    assert(v.drop_last() =~= Seq::<PacketView>::empty());
    assert(terminal_bytes(v.drop_last()) =~= Seq::<u8>::empty());
    assert(Seq::<u8>::empty() + p.payload =~= p.payload);
    let clear = encode_utf8("\x1b[2J\x1b[H"@);
    assert(Seq::<u8>::empty() + clear =~= clear);
}

/// Data packets put all their payloads on the terminal, in order, however they
/// are grouped into reads.
pub proof fn law_all_data_reaches_the_terminal(v: Seq<PacketView>)
    requires
        forall|i: int| 0 <= i < v.len() ==> (#[trigger] v[i]).type_ is Data,
    ensures
        terminal_bytes(v) == v.map_values(|p: PacketView| p.payload).flatten(),
    decreases v.len(),
{
    let f = |p: PacketView| p.payload;
    if v.len() > 0 {
        let rest = v.drop_first();
        assert forall|i: int| 0 <= i < rest.len() implies (#[trigger] rest[i]).type_ is Data by {
            assert(rest[i] == v[i + 1]);
        }
        law_all_data_reaches_the_terminal(rest);
        law_terminal_output_is_a_concatenation(seq![v[0]], rest);
        law_terminal_output_of_a_packet(v[0]);
        assert(seq![v[0]] + rest =~= v);
        assert(v.map_values(f).first() == v[0].payload);
        assert(v.map_values(f).drop_first() =~= rest.map_values(f));
    } else {
        assert(v.map_values(f) =~= Seq::<Seq<u8>>::empty());
    }
}

/// Every packet in front of the exit is shown and none behind it: the packets
/// up to where `first_exit` points hold no exit, and there one stands.
pub proof fn law_first_exit(v: Seq<PacketView>)
    ensures
        0 <= first_exit(v, 0) <= v.len(),
        first_exit(v, 0) < v.len() ==> v[first_exit(v, 0)].type_ is Exit,
        forall|k: int| 0 <= k < first_exit(v, 0) ==> !((#[trigger] v[k]).type_ is Exit),
{
    lemma_first_exit(v, 0);
}

proof fn lemma_first_exit(v: Seq<PacketView>, from: int)
    requires
        0 <= from <= v.len(),
    ensures
        from <= first_exit(v, from) <= v.len(),
        first_exit(v, from) < v.len() ==> v[first_exit(v, from)].type_ is Exit,
        forall|k: int| from <= k < first_exit(v, from) ==> !((#[trigger] v[k]).type_ is Exit),
    decreases v.len() - from,
{
    if from < v.len() && !(v[from].type_ is Exit) {
        lemma_first_exit(v, from + 1);
    }
}

/// An exit records the code and closes the socket, and touches nothing else.
pub proof fn law_exit_is_recorded(a: Attach, code: i32)
    ensures
        ({
            let b = after_exit(a, code as int);
            &&& b.exit_code == code && b.session_exited && !b.socket && !b.watching
            &&& b.name == a.name && b.remote == a.remote && b.reader == a.reader && b.machine
                == a.machine && b.reconnect == a.reconnect && b.max_attempts == a.max_attempts
                && b.detach_armed == a.detach_armed && b.phase == a.phase && b.stdin_open
                == a.stdin_open
        }),
{
}

/// A lost connection is dialled again where that was asked for and the session
/// has not exited: the first attempt is due a tenth of a second later, the
/// attach goes on, and says that it reconnects.
pub proof fn law_lost_connection_is_dialled_again(
    a: Attach,
    err: Option<IoFault>,
    now: u64,
    after: Attach,
    s: AttachStep,
)
    requires
        a.reconnect,
        !a.session_exited,
        now <= u64::MAX - 15_000_000,
        lost(a, err, now, Seq::empty(), after, s),
    ensures
        !after.socket,
        after.phase == (AttachPhase::Reconnecting { attempt: 0, next_at: (now + 100_000) as u64 }),
        after.session_exited == a.session_exited && after.exit_code == a.exit_code && after.name
            == a.name && after.machine == a.machine && after.detach_armed == a.detach_armed,
        s.outcome is None,
        ({
            let note = "\r\n[reconnecting… — Ctrl-\\ or Ctrl-C to stop]\r\n"@;
            if a.machine is Some {
                s.stdout@.len() == 0 && s.stderr@ == note
            } else {
                s.stdout@ == encode_utf8(note) && s.stderr@.len() == 0
            }
        }),
{
    if a.machine is Some {
        assert(Seq::<char>::empty() + reconnecting_text() =~= reconnecting_text());
    }
}

/// A connection that fails and is not dialled again ends the attach with code
/// 1 and closes the socket; a session that cannot be found is said to be gone.
pub proof fn law_failed_connection_ends(
    a: Attach,
    err: IoFault,
    now: u64,
    after: Attach,
    s: AttachStep,
)
    requires
        !a.reconnect || a.session_exited,
        lost(a, Some(err), now, Seq::empty(), after, s),
    ensures
        !after.socket && !after.watching,
        s.outcome == Some(AttachOutcome::Exited(1)),
        s.stdout@.len() == 0,
        a.machine is None && err.errno == Some(super::Errno::ConnectionReset) ==> s.stderr@
            == (if a.remote {
            "Remote session \""@
        } else {
            "Session \""@
        }) + a.name@ + "\" not found or not running."@ + "\n"@,
        a.machine is Some && !a.session_exited ==> s.stderr@
            == "pty attach: machine stream truncated before EXIT: "@ + call_text(
            "read"@,
            None,
            err,
        ) + "\n"@,
{
    assert(Seq::<char>::empty() + disconnect_text(a, err) =~= disconnect_text(a, err));
}

/// A machine stream that is cut off before the exit packet fails with code 1
/// and says so.
pub proof fn law_cut_off_stream_is_reported(a: Attach, now: u64, after: Attach, s: AttachStep)
    requires
        !a.reconnect,
        !a.session_exited,
        a.machine is Some,
        lost(a, None, now, Seq::empty(), after, s),
    ensures
        s.outcome == Some(AttachOutcome::Exited(1)),
        s.stderr@ == "pty attach: machine stream truncated before EXIT: connection closed\n"@,
{
    reveal_strlit("pty attach: machine stream truncated before EXIT: connection closed\n");
    reveal_strlit("pty attach: machine stream truncated before EXIT: ");
    reveal_strlit("connection closed");
    reveal_strlit("\n");
    assert(s.stderr@
        =~= "pty attach: machine stream truncated before EXIT: connection closed\n"@);
}

/// The pauses of reconnecting, in milliseconds, for every attempt.
pub proof fn law_pauses(attempt: int)
    requires
        0 <= attempt,
    ensures
        pause_ms(attempt) == (if attempt < 7 {
            seq![100int, 250, 500, 1000, 2000, 5000, 10000][attempt]
        } else {
            15000
        }),
{
}

/// A status line is the text on a line of its own; on a terminal it stands
/// below the session's content.
pub proof fn law_status_line(plain: Seq<char>)
    ensures
        status_text(true, plain) == plain.push('\n'),
        status_text(false, plain) == reset_text() + seq!['\r', '\n'] + plain + seq!['\r', '\n'],
{
    reveal_strlit("\n");
    reveal_strlit("\r\n");
    assert("\r\n"@ =~= seq!['\r', '\n']);
    assert(plain + "\n"@ =~= plain.push('\n'));
}

/// Input is taken byte by byte: input and more input, at one time, do what the
/// one does and then the other.
pub proof fn law_input_in_parts(armed: Option<u64>, now: u64, a: Seq<u8>, b: Seq<u8>)
    ensures
        taps(armed, now, a + b).0 == taps(taps(armed, now, a).0, now, b).0,
        taps(armed, now, a + b).1 == taps(armed, now, a).1 + taps(
            taps(armed, now, a).0,
            now,
            b,
        ).1,
    decreases b.len(),
{
    let first = taps(armed, now, a);
    if b.len() == 0 {
        assert(a + b =~= a);
        assert(first.1 + taps(first.0, now, b).1 =~= first.1);
    } else {
        law_input_in_parts(armed, now, a, b.drop_last());
        assert((a + b).drop_last() =~= a + b.drop_last());
        assert((a + b).last() == b.last());
        let more = tap(taps(first.0, now, b.drop_last()).0, now, b.last()).1;
        assert(first.1 + (taps(first.0, now, b.drop_last()).1 + more) =~= (first.1 + taps(
            first.0,
            now,
            b.drop_last(),
        ).1) + more);
    }
}

/// What one byte does: the detach key, byte 28, arms the detach, or goes to the
/// session where it was tapped less than 300 milliseconds before; every other
/// byte goes to the session.
pub proof fn law_one_byte_of_input(armed: Option<u64>, now: u64, b: u8)
    ensures
        b != 28 ==> taps(armed, now, seq![b]) == (armed, seq![b]),
        b == 28 && armed is None ==> taps(armed, now, seq![b]) == (Some(now), Seq::<u8>::empty()),
        b == 28 && armed is Some && now - armed->0 < 300_000 ==> taps(armed, now, seq![b]) == (
            None::<u64>,
            seq![b],
        ),
        b == 28 && armed is Some && now - armed->0 >= 300_000 ==> taps(armed, now, seq![b]) == (
            Some(now),
            Seq::<u8>::empty(),
        ),
{
    reveal_with_fuel(taps, 2);
    let data = seq![b];
    assert(data.drop_last() =~= Seq::<u8>::empty());
    assert(Seq::<u8>::empty() + data =~= data);
    assert(Seq::<u8>::empty() + Seq::<u8>::empty() =~= Seq::<u8>::empty());
}

/// When the loop acts: it detaches exactly where a tap is 300 milliseconds old,
/// dials exactly where an attempt is due and it does not detach, and ends
/// exactly where nothing is due and nothing is left to wait for.
pub proof fn law_when_the_loop_acts(a: Attach, now: u64)
    ensures
        next_step(a, now) is Detach <==> a.detach_armed is Some && now - a.detach_armed->0
            >= 300_000,
        next_step(a, now) is Redial <==> !(next_step(a, now) is Detach) && (
        a.phase matches AttachPhase::Reconnecting { next_at, .. } && next_at <= now),
        next_step(a, now) is Finish <==> a.detach_armed is None && a.phase is Live && !a.socket
            && !a.stdin_open && !a.watching,
        next_step(a, now) == LoopStep::Wait(None) <==> a.detach_armed is None && a.phase is Live
            && (a.socket || a.stdin_open || a.watching),
{
}

/// A wait is as long as it takes until the tap window closes or the attempt is
/// due, whichever comes first, rounded up to a whole millisecond.
pub proof fn law_the_loop_waits_until_something_is_due(a: Attach, now: u64, ms: i32, until: int)
    requires
        next_step(a, now) == LoopStep::Wait(Some(ms)),
        now <= 1_000_000_000_000_000,
        until == (match (a.detach_armed, a.phase) {
            (Some(t), AttachPhase::Live) => t + 300_000,
            (None, AttachPhase::Reconnecting { next_at, .. }) => next_at as int,
            (Some(t), AttachPhase::Reconnecting { next_at, .. }) => if t + 300_000 < next_at {
                t + 300_000
            } else {
                next_at as int
            },
            (None, AttachPhase::Live) => 0,
        }),
        until - now <= 1_000_000_000_000,
    ensures
        until > now,
        0 <= ms * 1000 - (until - now) < 1000,
{
}

} // verus!
