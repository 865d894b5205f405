//! Machine-only readiness controls over the live daemon socket: the request,
//! the binding of the socket's peer to the recorded daemon, and what is made of
//! the answer.

use super::connection::{find_packet, first_of};
use super::{
    copy_bytes, map_io_error, mapped, ClientError, FaultKind, GoneSet, IoFault, SocketRead,
};
use crate::json::{compact, parsed_bytes};
use crate::protocol::{
    encode_accepted_socket_ownership_request, encode_lifecycle_compare_and_set_request, frame,
    leftover, packet_views, packets, refused, AcceptedSocketOwnershipRequest,
    LifecycleCompareAndSetRequest, MessageType, PacketReader,
};
use crate::text::{opt_view, str_eq};
use crate::unix_peer::PeerCredentials;
use vstd::prelude::*;
use vstd::utf8::encode_utf8;

verus! {

/// The budget of a control request, in milliseconds.
pub const READINESS_TIMEOUT: u64 = 2000;

/// The length of the challenge that the holder of a capability echoes.
pub const CAPABILITY_CHALLENGE_LEN: usize = 32;

/// A control request: which generation it is for, what to write, and which
/// packet answers it.
#[derive(Debug)]
pub struct ControlRequest {
    pub expected_generation: String,
    pub expected_type: MessageType,
    pub packet: Vec<u8>,
}

/// The request for the owner of an accepted socket.
pub fn query_accepted_socket_ownership(request: &AcceptedSocketOwnershipRequest) -> (r:
    ControlRequest)
    ensures
        r.expected_generation@ == request.expected_generation@,
        r.expected_type is AcceptedSocketOwnership,
        r.packet@ == frame(8, encode_utf8(compact(request.json()))),
        parsed_bytes(encode_utf8(compact(request.json()))) == Some(request.json()),
{
    ControlRequest {
        expected_generation: request.expected_generation.clone(),
        expected_type: MessageType::AcceptedSocketOwnership,
        packet: encode_accepted_socket_ownership_request(request),
    }
}

/// The request to change the lifecycle.
pub fn compare_and_set_lifecycle(request: &LifecycleCompareAndSetRequest) -> (r: ControlRequest)
    ensures
        r.expected_generation@ == request.expected_generation@,
        r.expected_type is LifecycleCas,
        r.packet@ == frame(9, encode_utf8(compact(request.json()))),
        parsed_bytes(encode_utf8(compact(request.json()))) == Some(request.json()),
{
    ControlRequest {
        expected_generation: request.expected_generation.clone(),
        expected_type: MessageType::LifecycleCas,
        packet: encode_lifecycle_compare_and_set_request(request),
    }
}

/// Why a control request failed.
#[derive(Debug)]
pub enum ReadinessError {
    /// The peer is not the recorded daemon, or its answer cannot be read.
    Invalid(String),
    /// There was no answer in time.
    TimedOut(String),
    /// The socket failed.
    Client(ClientError),
}

/// The daemon that a socket is bound to.
#[derive(Debug)]
pub struct DaemonPeerBinding {
    pub pid: i32,
    pub start_token: String,
}

/// What a session's record says of its daemon.
#[derive(Debug)]
pub struct RecordedDaemon {
    pub generation: Option<String>,
    pub pid: Option<i32>,
    pub start_token: Option<String>,
}

/// Whether a record names the expected generation.
pub open spec fn of_generation(record: RecordedDaemon, expected: Seq<char>) -> bool {
    opt_view(record.generation) == Some(expected)
}

/// Whether the peer of a socket is the recorded daemon: the record names the
/// generation, a process and its start token, and the peer is that process of
/// this user, started then.
pub open spec fn bound(
    record: Option<RecordedDaemon>,
    expected: Seq<char>,
    peer: Option<PeerCredentials>,
    uid: u32,
    live: Option<Seq<char>>,
) -> bool {
    match (record, peer) {
        (Some(d), Some(p)) => of_generation(d, expected) && d.pid is Some && d.start_token is Some
            && p.uid == uid && p.pid == d.pid->0 && live == opt_view(d.start_token),
        _ => false,
    }
}

fn is_text(v: &Option<String>, s: &str) -> (r: bool)
    ensures
        r == (opt_view(*v) == Some(s@)),
{
    match v {
        Some(t) => str_eq(t.as_str(), s),
        None => false,
    }
}

/// Bind the socket to the recorded daemon.
pub fn verify_daemon_peer(
    name: &str,
    expected_generation: &str,
    record: &Option<RecordedDaemon>,
    peer: Option<PeerCredentials>,
    effective_uid: u32,
    live_token: &Option<String>,
) -> (r: Result<DaemonPeerBinding, ReadinessError>)
    ensures
        match r {
            Ok(b) => bound(*record, expected_generation@, peer, effective_uid, opt_view(*live_token))
                && b.pid == record->0.pid->0 && b.start_token@ == record->0.start_token->0@,
            Err(e) => !bound(
                *record,
                expected_generation@,
                peer,
                effective_uid,
                opt_view(*live_token),
            ) && (e matches ReadinessError::Invalid(n) && n@ == name@),
        },
{
    let d = match record {
        Some(d) => d,
        None => {
            return Err(ReadinessError::Invalid(name.to_owned()));
        },
    };
    if !is_text(&d.generation, expected_generation) {
        return Err(ReadinessError::Invalid(name.to_owned()));
    }
    match (d.pid, &d.start_token, peer) {
        (Some(pid), Some(token), Some(p)) => {
            if p.uid != effective_uid || p.pid != pid || !is_text(live_token, token.as_str()) {
                return Err(ReadinessError::Invalid(name.to_owned()));
            }
            Ok(DaemonPeerBinding { pid, start_token: token.clone() })
        },
        _ => Err(ReadinessError::Invalid(name.to_owned())),
    }
}

/// Whether a binding is that of the record, and its process still runs.
pub open spec fn still_bound(
    record: Option<RecordedDaemon>,
    expected: Seq<char>,
    binding: DaemonPeerBinding,
    live: Option<Seq<char>>,
) -> bool {
    match record {
        Some(d) => of_generation(d, expected) && d.pid == Some(binding.pid) && opt_view(
            d.start_token,
        ) == Some(binding.start_token@) && live == Some(binding.start_token@),
        None => false,
    }
}

/// Check behind the answer that nothing has changed since the binding.
pub fn verify_binding_still_current(
    name: &str,
    expected_generation: &str,
    binding: &DaemonPeerBinding,
    record: &Option<RecordedDaemon>,
    live_token: &Option<String>,
) -> (r: Result<(), ReadinessError>)
    ensures
        match r {
            Ok(()) => still_bound(*record, expected_generation@, *binding, opt_view(*live_token)),
            Err(e) => !still_bound(
                *record,
                expected_generation@,
                *binding,
                opt_view(*live_token),
            ) && (e matches ReadinessError::Invalid(n) && n@ == name@),
        },
{
    let current = match record {
        Some(d) => is_text(&d.generation, expected_generation) && (match d.pid {
            Some(pid) => pid == binding.pid,
            None => false,
        }) && is_text(&d.start_token, binding.start_token.as_str()) && is_text(
            live_token,
            binding.start_token.as_str(),
        ),
        None => false,
    };
    if current {
        Ok(())
    } else {
        Err(ReadinessError::Invalid(name.to_owned()))
    }
}

/// How long to wait, in whole milliseconds and at least one; `None` when the
/// deadline has passed.
pub fn remaining_poll_ms(remaining_us: u64) -> (r: Option<i32>)
    ensures
        match r {
            None => remaining_us == 0,
            Some(ms) => remaining_us > 0 && ms == (if remaining_us / 1000 < 1 {
                1
            } else if remaining_us / 1000 > i32::MAX {
                i32::MAX as int
            } else {
                remaining_us as int / 1000
            }),
        },
{
    if remaining_us == 0 {
        return None;
    }
    let ms: u64 = remaining_us / 1000;
    if ms < 1 {
        Some(1)
    } else if ms > i32::MAX as u64 {
        Some(i32::MAX)
    } else {
        Some(ms as i32)
    }
}

/// What one wait for a socket gave.
#[derive(Debug)]
pub enum PollResult {
    /// It is ready, or it failed, or neither.
    Ready { wanted: bool, broken: bool },
    /// The time is over.
    TimedOut,
    Failed(IoFault),
}

/// What to do after a wait.
#[derive(Debug)]
pub enum WaitFd {
    Ready,
    Again,
    TimedOut,
    /// The socket broke while it was waited for.
    Aborted,
    Failed(IoFault),
}

/// What a wait for a socket comes to: it is ready when it shows what was
/// wanted, even where it failed too; an interrupted wait is repeated.
pub fn wait_fd(result: PollResult) -> (r: WaitFd)
    ensures
        r == (match result {
            PollResult::Ready { wanted, broken } => if wanted {
                WaitFd::Ready
            } else if broken {
                WaitFd::Aborted
            } else {
                WaitFd::Again
            },
            PollResult::TimedOut => WaitFd::TimedOut,
            PollResult::Failed(err) => if err.kind is Interrupted {
                WaitFd::Again
            } else {
                WaitFd::Failed(err)
            },
        }),
{
    match result {
        PollResult::Ready { wanted, broken } => if wanted {
            WaitFd::Ready
        } else if broken {
            WaitFd::Aborted
        } else {
            WaitFd::Again
        },
        PollResult::TimedOut => WaitFd::TimedOut,
        PollResult::Failed(err) => match err.kind {
            FaultKind::Interrupted => WaitFd::Again,
            _ => WaitFd::Failed(err),
        },
    }
}

/// Whether a path can name a local socket: it is not empty, holds no zero, and
/// leaves room for one at the end of the address.
pub fn is_socket_path(path: &[u8], room: usize) -> (r: bool)
    ensures
        r == (path@.len() > 0 && !path@.contains(0u8) && path@.len() < room),
{
    if path.len() == 0 || path.len() >= room {
        return false;
    }
    let mut i: usize = 0;
    while i < path.len()
        invariant
            i <= path@.len(),
            forall|j: int| 0 <= j < i ==> path@[j] != 0,
        decreases path.len() - i,
    {
        if path[i] == 0 {
            assert(path@.contains(0u8));
            return false;
        }
        i += 1;
    }
    true
}

/// What a failed connect or write is reported as: running out of time is told
/// apart.
pub fn control_failure(name: &str, syscall: &str, path: &str, err: &IoFault) -> (r: ReadinessError)
    ensures
        if err.kind is TimedOut {
            r matches ReadinessError::TimedOut(n) && n@ == name@
        } else {
            r matches ReadinessError::Client(e) && e@ == mapped(
                name@,
                false,
                GoneSet::Strict,
                syscall@,
                Some(path@),
                *err,
            )
        },
{
    match err.kind {
        FaultKind::TimedOut => ReadinessError::TimedOut(name.to_owned()),
        _ => ReadinessError::Client(
            map_io_error(name, false, GoneSet::Strict, syscall, Some(path), err),
        ),
    }
}

/// What a control request makes of a read.
#[derive(Debug)]
pub enum ControlStep {
    /// Read on.
    More,
    /// The payload of the answer.
    Answer(Vec<u8>),
    Failed(ReadinessError),
}

/// Take in what one read gave: the first packet of the expected type answers.
pub fn request_control_json(
    reader: &mut PacketReader,
    read: SocketRead,
    expected_type: MessageType,
    name: &str,
) -> (r: ControlStep)
    ensures
        match read {
            SocketRead::Closed => r matches ControlStep::Failed(ReadinessError::TimedOut(n)) && n@
                == name@,
            SocketRead::Failed(err) => if err.kind is Interrupted || err.kind is WouldBlock {
                r is More && final(reader).pending() == old(reader).pending()
            } else {
                r matches ControlStep::Failed(ReadinessError::Client(e)) && e@ == mapped(
                    name@,
                    false,
                    GoneSet::Strict,
                    "read"@,
                    None,
                    err,
                )
            },
            SocketRead::Bytes(b) => {
                let all = old(reader).pending() + b@;
                let v = packets(all);
                let i = first_of(v, expected_type, 0);
                if refused(leftover(all)) {
                    r matches ControlStep::Failed(ReadinessError::Invalid(n)) && n@ == name@
                } else if i < v.len() {
                    r matches ControlStep::Answer(p) && p@ == v[i].payload
                } else {
                    r is More && final(reader).pending() == leftover(all)
                }
            },
        },
{
    match read {
        SocketRead::Closed => ControlStep::Failed(ReadinessError::TimedOut(name.to_owned())),
        SocketRead::Failed(err) => match err.kind {
            FaultKind::Interrupted | FaultKind::WouldBlock => ControlStep::More,
            _ => ControlStep::Failed(
                ReadinessError::Client(
                    map_io_error(name, false, GoneSet::Strict, "read", None, &err),
                ),
            ),
        },
        SocketRead::Bytes(b) => match reader.feed(b.as_slice()) {
            Ok(list) => {
                let i = find_packet(list.as_slice(), expected_type);
                if i < list.len() {
                    assert(packet_views(list@)[i as int] == list@[i as int]@);
                    ControlStep::Answer(copy_bytes(list[i].payload.as_slice()))
                } else {
                    ControlStep::More
                }
            },
            Err(_) => ControlStep::Failed(ReadinessError::Invalid(name.to_owned())),
        },
    }
}

/// An answer counts only while the binding holds: a daemon that was replaced
/// between the request and the answer, by another generation, another process
/// or a later process of the same id, is found out.
pub proof fn law_replaced_daemon_is_found_out(
    record: RecordedDaemon,
    expected: Seq<char>,
    binding: DaemonPeerBinding,
    live: Option<Seq<char>>,
)
    requires
        opt_view(record.generation) != Some(expected) || record.pid != Some(binding.pid) || opt_view(
            record.start_token,
        ) != Some(binding.start_token@) || live != Some(binding.start_token@),
    ensures
        !still_bound(Some(record), expected, binding, live),
{
}

/// When the peer is the recorded daemon: the record is of the expected
/// generation and names a pid and a token, the peer is of this user and has
/// that pid, and the process with it has that token.
pub proof fn law_bound_daemon(d: RecordedDaemon, expected: Seq<char>, p: PeerCredentials, uid: u32, live: Option<Seq<char>>)
    ensures
        bound(Some(d), expected, Some(p), uid, live) <==> d.generation is Some && d.generation->0@
            == expected && d.pid == Some(p.pid) && p.uid == uid && d.start_token is Some && live
            == Some(d.start_token->0@),
        !bound(None, expected, Some(p), uid, live),
        !bound(Some(d), expected, None, uid, live),
        of_generation(d, expected) <==> d.generation is Some && d.generation->0@ == expected,
{
}

/// When a binding still holds: the record is there, of the same generation, and
/// still names the pid and the token, and the process still has the token.
pub proof fn law_binding_that_holds(
    d: RecordedDaemon,
    expected: Seq<char>,
    b: DaemonPeerBinding,
    live: Option<Seq<char>>,
)
    ensures
        still_bound(Some(d), expected, b, live) <==> d.generation is Some && d.generation->0@
            == expected && d.pid == Some(b.pid) && d.start_token is Some && d.start_token->0@
            == b.start_token@ && live == Some(b.start_token@),
        !still_bound(None, expected, b, live),
        READINESS_TIMEOUT == 2000,
        CAPABILITY_CHALLENGE_LEN == 32,
{
}

} // verus!
