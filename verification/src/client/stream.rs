//! The machine stream of an attach: a caller-owned inherited descriptor
//! receives the daemon's geometry, screen, data and exit packets re-framed
//! exactly, in order, and an empty detach packet on a local detach. The
//! descriptor is validated but never closed.

use super::{around, call_text, fs_text, node_error_message, node_fs_error_message, IoFault};
use crate::protocol::{frame, MessageType, Packet};
use crate::text::{dec_int, i64_string};
use vstd::prelude::*;

verus! {

/// The refusal of something that is no dedicated inherited descriptor.
pub open spec fn fd_refusal(shown: Seq<char>) -> Seq<char> {
    "--attach-stream-fd-v1 requires a dedicated inherited file descriptor >= 3 (got "@ + shown
        + ")"@
}

/// The refusal of a descriptor, by what was asked for.
pub fn stream_fd_refusal(shown: &str) -> (r: String)
    ensures
        r@ == fd_refusal(shown@),
{
    around(
        "--attach-stream-fd-v1 requires a dedicated inherited file descriptor >= 3 (got ",
        shown,
        ")",
    )
}

/// The number of a descriptor that may be probed.
pub fn stream_fd_number(fd: i64) -> (r: Result<i32, String>)
    ensures
        match r {
            Ok(n) => 3 <= fd <= i32::MAX && n == fd,
            Err(e) => !(3 <= fd <= i32::MAX) && e@ == fd_refusal(dec_int(fd as int)),
        },
{
    if fd < 3 || fd > i32::MAX as i64 {
        let shown = i64_string(fd);
        return Err(stream_fd_refusal(shown.as_str()));
    }
    Ok(fd as i32)
}

/// The refusal of a descriptor that cannot be written to.
pub open spec fn unwritable(fd: int, syscall: Seq<char>, err: IoFault) -> Seq<char> {
    "--attach-stream-fd-v1 descriptor "@ + dec_int(fd) + " is not writable: "@ + fs_text(
        syscall,
        err,
    )
}

fn unwritable_text(fd: i64, syscall: &str, err: &IoFault) -> (r: String)
    ensures
        r@ == unwritable(fd as int, syscall@, *err),
{
    let number = i64_string(fd);
    let detail = node_fs_error_message(syscall, err);
    let mut m = "--attach-stream-fd-v1 descriptor ".to_owned();
    m.append(number.as_str());
    m.append(" is not writable: ");
    m.append(detail.as_str());
    m
}

/// What probing a descriptor gave.
#[derive(Debug)]
pub enum FdProbe {
    Usable,
    /// Its status could not be read.
    FstatFailed(IoFault),
    /// An empty write failed.
    WriteFailed(IoFault),
}

/// Validate a dedicated inherited descriptor, from what probing it gave.
pub fn validate_attach_stream_fd(fd: i64, probe: &FdProbe) -> (r: Result<i32, String>)
    ensures
        match r {
            Ok(n) => 3 <= fd <= i32::MAX && n == fd && probe is Usable,
            Err(e) => if !(3 <= fd <= i32::MAX) {
                e@ == fd_refusal(dec_int(fd as int))
            } else {
                match probe {
                    FdProbe::Usable => false,
                    FdProbe::FstatFailed(err) => e@ == unwritable(fd as int, "fstat"@, *err),
                    FdProbe::WriteFailed(err) => e@ == unwritable(fd as int, "write"@, *err),
                }
            },
        },
{
    match stream_fd_number(fd) {
        Err(e) => Err(e),
        Ok(n) => match probe {
            FdProbe::Usable => Ok(n),
            FdProbe::FstatFailed(err) => Err(unwritable_text(fd, "fstat", err)),
            FdProbe::WriteFailed(err) => Err(unwritable_text(fd, "write", err)),
        },
    }
}

/// What a socket is expected to send: geometry first, then a screen, then
/// anything.
#[derive(Debug, Clone, Copy, PartialEq, Eq, Structural)]
pub enum StreamPhase {
    Geometry,
    Screen,
    Ready,
}

/// Why the stream had to stop.
#[derive(Debug, Clone, PartialEq, Eq)]
pub enum StreamFailure {
    /// The daemon broke the ordering contract.
    Unsupported(String),
    /// Writing to the descriptor failed.
    WriteFailed { fd: i32, message: String },
}

/// The line of a failure.
pub open spec fn failure_text(f: StreamFailure) -> Seq<char> {
    match f {
        StreamFailure::Unsupported(what) =>
            "pty attach: daemon does not support attach stream v1 ("@ + what@ + ")"@,
        StreamFailure::WriteFailed { fd, message } => "pty attach: machine stream descriptor "@
            + dec_int(fd as int) + " failed: "@ + message@,
    }
}

impl StreamFailure {
    /// The line to print.
    pub fn message(&self) -> (r: String)
        ensures
            r@ == failure_text(*self),
    {
        match self {
            StreamFailure::Unsupported(what) => around(
                "pty attach: daemon does not support attach stream v1 (",
                what.as_str(),
                ")",
            ),
            StreamFailure::WriteFailed { fd, message } => {
                let number = i64_string(*fd as i64);
                let mut m = "pty attach: machine stream descriptor ".to_owned();
                m.append(number.as_str());
                m.append(" failed: ");
                m.append(message.as_str());
                m
            },
        }
    }
}

/// The line for a close before the exit packet.
pub open spec fn truncated_text(detail: Seq<char>) -> Seq<char> {
    "pty attach: machine stream truncated before EXIT: "@ + detail + "\n"@
}

/// The line for a close before the exit packet.
pub fn truncated_line(detail: &str) -> (r: String)
    ensures
        r@ == truncated_text(detail@),
{
    around("pty attach: machine stream truncated before EXIT: ", detail, "\n")
}

/// What became of a packet.
#[derive(Debug, Clone, Copy, PartialEq, Eq, Structural)]
pub enum Accepted {
    /// Not a stream event; dropped.
    Skipped,
    /// Re-framed to the descriptor.
    Forwarded,
}

/// The re-framing writer over the inherited descriptor.
#[derive(Debug)]
pub struct MachineStream {
    pub fd: i32,
    pub phase: StreamPhase,
}

/// Whether a packet belongs in the stream.
pub open spec fn stream_event(t: MessageType) -> bool {
    t is Geometry || t is Screen || t is Data || t is Exit
}

/// What is wrong with a packet in a phase.
pub open spec fn out_of_order(phase: StreamPhase, t: MessageType) -> Option<Seq<char>> {
    if phase is Geometry && !(t is Geometry) {
        Some("expected GEOMETRY before terminal events"@)
    } else if phase is Screen && !(t is Geometry) && !(t is Screen) {
        Some(
            "expected SCREEN before "@ + (if t is Data {
                "DATA"@
            } else {
                "EXIT"@
            }),
        )
    } else {
        None
    }
}

/// The phase behind a packet.
pub open spec fn next_phase(phase: StreamPhase, t: MessageType) -> StreamPhase {
    if phase is Geometry && t is Geometry {
        StreamPhase::Screen
    } else if phase is Screen && t is Screen {
        StreamPhase::Ready
    } else {
        phase
    }
}

impl MachineStream {
    /// Wrap an already validated descriptor.
    pub fn new(fd: i32) -> (r: MachineStream)
        ensures
            r == (MachineStream { fd, phase: StreamPhase::Geometry }),
    {
        MachineStream { fd, phase: StreamPhase::Geometry }
    }

    /// The descriptor.
    pub fn fd(&self) -> (r: i32)
        ensures
            r == self.fd,
    {
        self.fd
    }

    /// Reset the ordering expectation for a fresh socket.
    pub fn reset(&mut self)
        ensures
            *final(self) == (MachineStream { fd: old(self).fd, phase: StreamPhase::Geometry }),
    {
        self.phase = StreamPhase::Geometry;
    }

    /// Check the ordering contract; a packet that is forwarded comes with the
    /// bytes to write.
    pub fn accept(&mut self, packet: &Packet) -> (r: Result<(Accepted, Vec<u8>), StreamFailure>)
        ensures
            final(self).fd == old(self).fd,
            ({
                let t = packet.type_;
                let phase = old(self).phase;
                if !stream_event(t) {
                    r matches Ok((a, b)) && a == Accepted::Skipped && b@.len() == 0
                        && final(self).phase == phase
                } else {
                    match out_of_order(phase, t) {
                        Some(what) => r matches Err(StreamFailure::Unsupported(w)) && w@ == what
                            && final(self).phase == phase,
                        None => r matches Ok((a, b)) && a == Accepted::Forwarded && b@ == frame(
                            t.wire(),
                            packet.payload@,
                        ) && final(self).phase == next_phase(phase, t),
                    }
                }
            }),
    {
        let is_geometry = matches!(packet.type_, MessageType::Geometry);
        let is_screen = matches!(packet.type_, MessageType::Screen);
        let is_data = matches!(packet.type_, MessageType::Data);
        let is_exit = matches!(packet.type_, MessageType::Exit);
        if !is_geometry && !is_screen && !is_data && !is_exit {
            return Ok((Accepted::Skipped, Vec::new()));
        }
        if self.phase == StreamPhase::Geometry && !is_geometry {
            return Err(
                StreamFailure::Unsupported("expected GEOMETRY before terminal events".to_owned()),
            );
        }
        if self.phase == StreamPhase::Screen && !is_geometry && !is_screen {
            let mut what = "expected SCREEN before ".to_owned();
            what.append(
                if is_data {
                    "DATA"
                } else {
                    "EXIT"
                },
            );
            return Err(StreamFailure::Unsupported(what));
        }
        if self.phase == StreamPhase::Geometry && is_geometry {
            self.phase = StreamPhase::Screen;
        } else if self.phase == StreamPhase::Screen && is_screen {
            self.phase = StreamPhase::Ready;
        }
        Ok((Accepted::Forwarded, packet.encode()))
    }

    /// The failure of a write to the descriptor.
    pub fn write_failure(&self, err: &IoFault) -> (r: StreamFailure)
        ensures
            r matches StreamFailure::WriteFailed { fd, message } && fd == self.fd && message@
                == call_text("write"@, None, *err),
    {
        StreamFailure::WriteFailed { fd: self.fd, message: node_error_message("write", None, err) }
    }
}

/// The phase after packets that were all in order.
pub open spec fn phase_after(phase: StreamPhase, v: Seq<MessageType>) -> StreamPhase
    decreases v.len(),
{
    if v.len() == 0 {
        phase
    } else {
        next_phase(phase_after(phase, v.drop_last()), v.last())
    }
}

/// Whether stream events come in order.
pub open spec fn orderly(v: Seq<MessageType>) -> bool {
    forall|i: int|
        0 <= i < v.len() ==> out_of_order(
            phase_after(StreamPhase::Geometry, v.take(i)),
            #[trigger] v[i],
        ) is None
}

/// The stream begins with a geometry, and a screen comes before any data and
/// before the exit.
pub proof fn law_stream_order(v: Seq<MessageType>, i: int)
    requires
        orderly(v),
        0 <= i < v.len(),
    ensures
        v[0] is Geometry,
        v[i] is Data || v[i] is Exit ==> exists|j: int| 0 <= j < i && #[trigger] v[j] is Screen,
{
    assert(v.take(0) =~= Seq::<MessageType>::empty());
    assert(out_of_order(phase_after(StreamPhase::Geometry, v.take(0)), v[0]) is None);
    assert(out_of_order(phase_after(StreamPhase::Geometry, v.take(i)), v[i]) is None);
    if v[i] is Data || v[i] is Exit {
        lemma_ready_has_screen(v.take(i));
        let j = choose|j: int| 0 <= j < v.take(i).len() && #[trigger] v.take(i)[j] is Screen;
        assert(v[j] is Screen);
    }
}

/// The stream is ready only behind a screen.
proof fn lemma_ready_has_screen(v: Seq<MessageType>)
    requires
        phase_after(StreamPhase::Geometry, v) is Ready,
    ensures
        exists|j: int| 0 <= j < v.len() && #[trigger] v[j] is Screen,
    decreases v.len(),
{
    if v.len() > 0 {
        let before = v.drop_last();
        if phase_after(StreamPhase::Geometry, before) is Ready {
            lemma_ready_has_screen(before);
            let j = choose|j: int| 0 <= j < before.len() && #[trigger] before[j] is Screen;
            assert(v[j] is Screen);
        } else {
            assert(v[v.len() - 1] is Screen);
        }
    }
}

/// The stream events are geometries, screens, data and exits, and no others.
pub proof fn law_stream_events(t: MessageType)
    ensures
        stream_event(t) <==> t == MessageType::Geometry || t == MessageType::Screen || t
            == MessageType::Data || t == MessageType::Exit,
{
}

/// A geometry, a screen, and then any stream events are in order.
pub proof fn law_orderly_streams(v: Seq<MessageType>)
    requires
        v.len() >= 2,
        v[0] is Geometry,
        v[1] is Screen,
    ensures
        orderly(v),
{
    assert forall|i: int| 0 <= i < v.len() implies out_of_order(
        phase_after(StreamPhase::Geometry, v.take(i)),
        #[trigger] v[i],
    ) is None by {
        lemma_phase_behind_screen(v, i);
    }
}

proof fn lemma_phase_behind_screen(v: Seq<MessageType>, i: int)
    requires
        v.len() >= 2,
        v[0] is Geometry,
        v[1] is Screen,
        0 <= i <= v.len(),
    ensures
        phase_after(StreamPhase::Geometry, v.take(i)) == (if i == 0 {
            StreamPhase::Geometry
        } else if i == 1 {
            StreamPhase::Screen
        } else {
            StreamPhase::Ready
        }),
    decreases i,
{
    if i > 0 {
        lemma_phase_behind_screen(v, i - 1);
        assert(v.take(i).drop_last() =~= v.take(i - 1));
        assert(v.take(i).last() == v[i - 1]);
    }
}

/// What is said of a stream that is out of order.
pub proof fn law_why_a_stream_is_refused(t: MessageType)
    requires
        stream_event(t),
    ensures
        !(t is Geometry) ==> out_of_order(StreamPhase::Geometry, t) == Some(
            "expected GEOMETRY before terminal events"@,
        ),
        t is Data ==> out_of_order(StreamPhase::Screen, t) == Some(
            "expected SCREEN before DATA"@,
        ),
        t is Exit ==> out_of_order(StreamPhase::Screen, t) == Some(
            "expected SCREEN before EXIT"@,
        ),
        out_of_order(StreamPhase::Ready, t) is None,
        out_of_order(StreamPhase::Geometry, MessageType::Geometry) is None,
{
    reveal_strlit("expected SCREEN before DATA");
    reveal_strlit("expected SCREEN before EXIT");
    reveal_strlit("expected SCREEN before ");
    reveal_strlit("DATA");
    reveal_strlit("EXIT");
    assert("expected SCREEN before "@ + "DATA"@ =~= "expected SCREEN before DATA"@);
    assert("expected SCREEN before "@ + "EXIT"@ =~= "expected SCREEN before EXIT"@);
}

/// The lines about a descriptor name it.
pub proof fn law_descriptor_lines(fd: i32, what: String, syscall: Seq<char>, err: IoFault)
    ensures
        failure_text(StreamFailure::Unsupported(what))
            == "pty attach: daemon does not support attach stream v1 ("@ + what@ + ")"@,
        failure_text(StreamFailure::WriteFailed { fd, message: what })
            == "pty attach: machine stream descriptor "@ + dec_int(fd as int) + " failed: "@
            + what@,
        fd_refusal(what@)
            == "--attach-stream-fd-v1 requires a dedicated inherited file descriptor >= 3 (got "@
            + what@ + ")"@,
        unwritable(fd as int, syscall, err) == "--attach-stream-fd-v1 descriptor "@ + dec_int(
            fd as int,
        ) + " is not writable: "@ + fs_text(syscall, err),
        truncated_text(what@) == "pty attach: machine stream truncated before EXIT: "@ + what@
            + "\n"@,
{
}

} // verus!
