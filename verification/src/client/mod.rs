//! Client-side operations against a session's daemon: what each of them sends,
//! what it makes of the answers, and what it prints. Sockets, descriptors and
//! clocks stay with the caller, which hands in what it observed.

pub mod attach;
pub mod connection;
pub mod list;
pub mod peek;
pub mod readiness;
pub mod remote;
pub mod sanitize;
pub mod send;
pub mod stats;
pub mod stream;
pub mod summary;
pub mod tty;

use crate::protocol::{read16, read32, signed};
use sanitize::{CURSOR_TO_BOTTOM, TERMINAL_SANITIZE};
use vstd::prelude::*;
use vstd::utf8::encode_utf8;

verus! {

/// The system error codes that a socket client meets.
#[derive(Debug, Clone, Copy, PartialEq, Eq, Structural)]
pub enum Errno {
    NoEntry,
    ConnectionRefused,
    ConnectionReset,
    BrokenPipe,
    BadDescriptor,
    AccessDenied,
    Again,
    InvalidArgument,
    InputOutput,
    IsDirectory,
    NotSocket,
    NotPermitted,
    TimedOut,
    NotDirectory,
    NotConnected,
    Interrupted,
    NoSpace,
    NameTooLong,
    TooManyFiles,
}

/// The kinds of failure that the clients tell apart.
#[derive(Debug, Clone, Copy, PartialEq, Eq, Structural)]
pub enum FaultKind {
    NotFound,
    ConnectionRefused,
    ConnectionReset,
    BrokenPipe,
    WouldBlock,
    TimedOut,
    Interrupted,
    Other,
}

/// A failed system call.
#[derive(Debug)]
pub struct IoFault {
    /// The code, where it is one that has a name here.
    pub errno: Option<Errno>,
    pub kind: FaultKind,
    /// The description that the system library gives.
    pub text: String,
}

/// The symbolic name of a code.
pub open spec fn errno_text(e: Errno) -> Seq<char> {
    match e {
        Errno::NoEntry => "ENOENT"@,
        Errno::ConnectionRefused => "ECONNREFUSED"@,
        Errno::ConnectionReset => "ECONNRESET"@,
        Errno::BrokenPipe => "EPIPE"@,
        Errno::BadDescriptor => "EBADF"@,
        Errno::AccessDenied => "EACCES"@,
        Errno::Again => "EAGAIN"@,
        Errno::InvalidArgument => "EINVAL"@,
        Errno::InputOutput => "EIO"@,
        Errno::IsDirectory => "EISDIR"@,
        Errno::NotSocket => "ENOTSOCK"@,
        Errno::NotPermitted => "EPERM"@,
        Errno::TimedOut => "ETIMEDOUT"@,
        Errno::NotDirectory => "ENOTDIR"@,
        Errno::NotConnected => "ENOTCONN"@,
        Errno::Interrupted => "EINTR"@,
        Errno::NoSpace => "ENOSPC"@,
        Errno::NameTooLong => "ENAMETOOLONG"@,
        Errno::TooManyFiles => "EMFILE"@,
    }
}

/// The symbolic name of a code.
pub fn errno_name(code: Errno) -> (r: &'static str)
    ensures
        r@ == errno_text(code),
{
    match code {
        Errno::NoEntry => "ENOENT",
        Errno::ConnectionRefused => "ECONNREFUSED",
        Errno::ConnectionReset => "ECONNRESET",
        Errno::BrokenPipe => "EPIPE",
        Errno::BadDescriptor => "EBADF",
        Errno::AccessDenied => "EACCES",
        Errno::Again => "EAGAIN",
        Errno::InvalidArgument => "EINVAL",
        Errno::InputOutput => "EIO",
        Errno::IsDirectory => "EISDIR",
        Errno::NotSocket => "ENOTSOCK",
        Errno::NotPermitted => "EPERM",
        Errno::TimedOut => "ETIMEDOUT",
        Errno::NotDirectory => "ENOTDIR",
        Errno::NotConnected => "ENOTCONN",
        Errno::Interrupted => "EINTR",
        Errno::NoSpace => "ENOSPC",
        Errno::NameTooLong => "ENAMETOOLONG",
        Errno::TooManyFiles => "EMFILE",
    }
}

/// The description of a code.
pub open spec fn errno_words(e: Errno) -> Seq<char> {
    match e {
        Errno::NoEntry => "no such file or directory"@,
        Errno::ConnectionRefused => "connection refused"@,
        Errno::ConnectionReset => "connection reset by peer"@,
        Errno::BrokenPipe => "broken pipe"@,
        Errno::BadDescriptor => "bad file descriptor"@,
        Errno::AccessDenied => "permission denied"@,
        Errno::Again => "resource temporarily unavailable"@,
        Errno::InvalidArgument => "invalid argument"@,
        Errno::InputOutput => "i/o error"@,
        Errno::IsDirectory => "illegal operation on a directory"@,
        Errno::NotSocket => "socket operation on non-socket"@,
        Errno::NotPermitted => "operation not permitted"@,
        Errno::TimedOut => "connection timed out"@,
        Errno::NotDirectory => "not a directory"@,
        Errno::NotConnected => "socket is not connected"@,
        Errno::Interrupted => "interrupted system call"@,
        Errno::NoSpace => "no space left on device"@,
        Errno::NameTooLong => "name too long"@,
        Errno::TooManyFiles => "too many open files"@,
    }
}

/// The description of a code.
pub fn errno_description(code: Errno) -> (r: &'static str)
    ensures
        r@ == errno_words(code),
{
    match code {
        Errno::NoEntry => "no such file or directory",
        Errno::ConnectionRefused => "connection refused",
        Errno::ConnectionReset => "connection reset by peer",
        Errno::BrokenPipe => "broken pipe",
        Errno::BadDescriptor => "bad file descriptor",
        Errno::AccessDenied => "permission denied",
        Errno::Again => "resource temporarily unavailable",
        Errno::InvalidArgument => "invalid argument",
        Errno::InputOutput => "i/o error",
        Errno::IsDirectory => "illegal operation on a directory",
        Errno::NotSocket => "socket operation on non-socket",
        Errno::NotPermitted => "operation not permitted",
        Errno::TimedOut => "connection timed out",
        Errno::NotDirectory => "not a directory",
        Errno::NotConnected => "socket is not connected",
        Errno::Interrupted => "interrupted system call",
        Errno::NoSpace => "no space left on device",
        Errno::NameTooLong => "name too long",
        Errno::TooManyFiles => "too many open files",
    }
}

/// A failure of a client operation.
#[derive(Debug, Clone, PartialEq, Eq)]
pub enum ClientError {
    /// The socket is missing, refused, reset, or broken: the session is gone.
    /// `remote` selects the wording for a remote session.
    NotReachable { name: String, remote: bool },
    /// Any other socket failure, with its details.
    Connection(String),
    /// The socket closed before the first screen.
    ClosedBeforeScreen(String),
    /// No status packet came within the budget.
    StatsTimeout(String),
    /// The status payload could not be read.
    InvalidStats(String),
}

/// The mathematical content of a `ClientError`.
#[verifier::ext_equal]
pub enum ErrorView {
    NotReachable(Seq<char>, bool),
    Connection(Seq<char>),
    ClosedBeforeScreen(Seq<char>),
    StatsTimeout(Seq<char>),
    InvalidStats(Seq<char>),
}

impl View for ClientError {
    type V = ErrorView;

    open spec fn view(&self) -> ErrorView {
        match self {
            ClientError::NotReachable { name, remote } => ErrorView::NotReachable(name@, *remote),
            ClientError::Connection(m) => ErrorView::Connection(m@),
            ClientError::ClosedBeforeScreen(n) => ErrorView::ClosedBeforeScreen(n@),
            ClientError::StatsTimeout(n) => ErrorView::StatsTimeout(n@),
            ClientError::InvalidStats(n) => ErrorView::InvalidStats(n@),
        }
    }
}

/// The message of a failure.
pub open spec fn error_text(e: ErrorView) -> Seq<char> {
    match e {
        ErrorView::NotReachable(name, false) => "Session \""@ + name
            + "\" not found or not running."@,
        ErrorView::NotReachable(name, true) => "Remote session \""@ + name
            + "\" not found or not running."@,
        ErrorView::Connection(m) => "Connection error: "@ + m,
        ErrorView::ClosedBeforeScreen(name) => "Connection to \""@ + name
            + "\" closed before screen received."@,
        ErrorView::StatsTimeout(name) => "Timeout querying stats for \""@ + name + "\""@,
        ErrorView::InvalidStats(name) => "Invalid stats response from \""@ + name + "\""@,
    }
}

/// `before`, `name` and `after` as one text.
pub(crate) fn around(before: &str, name: &str, after: &str) -> (r: String)
    ensures
        r@ == before@ + name@ + after@,
{
    let mut m = before.to_owned();
    m.append(name);
    m.append(after);
    m
}

impl ClientError {
    /// The message to print.
    pub fn message(&self) -> (r: String)
        ensures
            r@ == error_text(self@),
    {
        match self {
            ClientError::NotReachable { name, remote } => if *remote {
                around("Remote session \"", name.as_str(), "\" not found or not running.")
            } else {
                around("Session \"", name.as_str(), "\" not found or not running.")
            },
            ClientError::Connection(m) => {
                let mut r = "Connection error: ".to_owned();
                r.append(m.as_str());
                r
            },
            ClientError::ClosedBeforeScreen(name) => around(
                "Connection to \"",
                name.as_str(),
                "\" closed before screen received.",
            ),
            ClientError::StatsTimeout(name) => around(
                "Timeout querying stats for \"",
                name.as_str(),
                "\"",
            ),
            ClientError::InvalidStats(name) => around(
                "Invalid stats response from \"",
                name.as_str(),
                "\"",
            ),
        }
    }
}

/// Which failures count as "the session is gone".
#[derive(Debug, Clone, Copy, PartialEq, Eq, Structural)]
pub enum GoneSet {
    /// Missing, refused, reset or broken: the interactive commands.
    Broad,
    /// Missing or refused: the programmatic operations.
    Strict,
}

/// Whether a failure means that the session is not reachable. A code decides
/// where it is one of the four; else the kind does.
pub open spec fn gone(err: IoFault, set: GoneSet) -> bool {
    match err.errno {
        Some(Errno::NoEntry) | Some(Errno::ConnectionRefused) => true,
        Some(Errno::ConnectionReset) | Some(Errno::BrokenPipe) => set is Broad,
        _ => err.kind is NotFound || err.kind is ConnectionRefused || (set is Broad && (err.kind
            is ConnectionReset || err.kind is BrokenPipe)),
    }
}

/// Does `err` mean the session is not reachable under `set`?
pub fn is_gone(err: &IoFault, set: GoneSet) -> (r: bool)
    ensures
        r == gone(*err, set),
{
    let broad = match set {
        GoneSet::Broad => true,
        GoneSet::Strict => false,
    };
    match err.errno {
        Some(Errno::NoEntry) | Some(Errno::ConnectionRefused) => true,
        Some(Errno::ConnectionReset) | Some(Errno::BrokenPipe) => broad,
        _ => match err.kind {
            FaultKind::NotFound | FaultKind::ConnectionRefused => true,
            FaultKind::ConnectionReset | FaultKind::BrokenPipe => broad,
            _ => false,
        },
    }
}

/// The details of a failed system call: its name and the code, and the path
/// where there is one; the description where the code has no name.
pub open spec fn call_text(syscall: Seq<char>, path: Option<Seq<char>>, err: IoFault) -> Seq<char> {
    match (err.errno, path) {
        (Some(code), Some(p)) => syscall + " "@ + errno_text(code) + " "@ + p,
        (Some(code), None) => syscall + " "@ + errno_text(code),
        (None, _) => syscall + " "@ + err.text@,
    }
}

/// The view of an optional path.
pub open spec fn path_view(path: Option<&str>) -> Option<Seq<char>> {
    match path {
        Some(p) => Some(p@),
        None => None,
    }
}

/// The details of a failed system call.
pub fn node_error_message(syscall: &str, path: Option<&str>, err: &IoFault) -> (r: String)
    ensures
        r@ == call_text(syscall@, path_view(path), *err),
{
    let mut m = syscall.to_owned();
    m.append(" ");
    match err.errno {
        Some(code) => {
            m.append(errno_name(code));
            if let Some(p) = path {
                m.append(" ");
                m.append(p);
            }
        },
        None => {
            m.append(err.text.as_str());
        },
    }
    m
}

/// The details of a failed file operation: code, description and call.
pub open spec fn fs_text(syscall: Seq<char>, err: IoFault) -> Seq<char> {
    match err.errno {
        Some(code) => errno_text(code) + ": "@ + errno_words(code) + ", "@ + syscall,
        None => err.text@ + ", "@ + syscall,
    }
}

/// The details of a failed file operation.
pub fn node_fs_error_message(syscall: &str, err: &IoFault) -> (r: String)
    ensures
        r@ == fs_text(syscall@, *err),
{
    match err.errno {
        Some(code) => {
            let mut m = errno_name(code).to_owned();
            m.append(": ");
            m.append(errno_description(code));
            m.append(", ");
            m.append(syscall);
            m
        },
        None => {
            let mut m = err.text.clone();
            m.append(", ");
            m.append(syscall);
            m
        },
    }
}

/// The failure that a client reports for a failed system call.
pub open spec fn mapped(
    name: Seq<char>,
    remote: bool,
    set: GoneSet,
    syscall: Seq<char>,
    path: Option<Seq<char>>,
    err: IoFault,
) -> ErrorView {
    if gone(err, set) {
        ErrorView::NotReachable(name, remote)
    } else {
        ErrorView::Connection(call_text(syscall, path, err))
    }
}

/// Map a socket failure to the failure that the client reports.
pub fn map_io_error(
    name: &str,
    remote: bool,
    set: GoneSet,
    syscall: &str,
    path: Option<&str>,
    err: &IoFault,
) -> (r: ClientError)
    ensures
        r@ == mapped(name@, remote, set, syscall@, path_view(path), *err),
{
    if is_gone(err, set) {
        ClientError::NotReachable { name: name.to_owned(), remote }
    } else {
        ClientError::Connection(node_error_message(syscall, path, err))
    }
}

/// The line that is printed when a peer declares an oversize packet, before
/// the socket is dropped.
pub open spec fn dropping_text(err: Seq<char>) -> Seq<char> {
    "pty client: dropping connection — "@ + err + "\n"@
}

/// The line that is printed when a peer declares an oversize packet.
pub fn dropping_connection_line(err: &str) -> (r: String)
    ensures
        r@ == dropping_text(err@),
{
    around("pty client: dropping connection — ", err, "\n")
}

// ---- shared by the operations --------------------------------------------

/// What reading from a session's socket gave.
#[derive(Debug)]
pub enum SocketRead {
    /// The peer closed the socket.
    Closed,
    /// Some bytes.
    Bytes(Vec<u8>),
    /// The read failed.
    Failed(IoFault),
}

/// The exit code in a payload; -1 where it is too short.
pub open spec fn exit_code_of(payload: Seq<u8>) -> int {
    if payload.len() < 4 {
        -1
    } else {
        signed(read32(payload, 0))
    }
}

/// The size in a payload; 24 by 80 where it is too short.
pub open spec fn grid_of(payload: Seq<u8>) -> (int, int) {
    if payload.len() < 4 {
        (24, 80)
    } else {
        (read16(payload, 0), read16(payload, 2))
    }
}

/// What resets the terminal and leaves the cursor at the bottom.
pub open spec fn reset_text() -> Seq<char> {
    TERMINAL_SANITIZE@ + CURSOR_TO_BOTTOM@
}

/// Builds `reset_text`.
pub(crate) fn reset() -> (r: String)
    ensures
        r@ == reset_text(),
{
    let mut s = TERMINAL_SANITIZE.to_owned();
    s.append(CURSOR_TO_BOTTOM);
    s
}

/// The bytes of a text.
pub(crate) fn bytes_of(s: &str) -> (r: Vec<u8>)
    ensures
        r@ == encode_utf8(s@),
{
    let mut v: Vec<u8> = Vec::new();
    v.extend_from_slice(s.as_bytes());
    assert(v@ =~= encode_utf8(s@));
    v
}

/// A copy of some bytes.
pub(crate) fn copy_bytes(b: &[u8]) -> (r: Vec<u8>)
    ensures
        r@ == b@,
{
    let mut v: Vec<u8> = Vec::new();
    v.extend_from_slice(b);
    assert(v@ =~= b@);
    v
}

/// What is gone for the programmatic operations is gone for the interactive
/// ones.
pub proof fn law_strict_is_within_broad(err: IoFault)
    ensures
        gone(err, GoneSet::Strict) ==> gone(err, GoneSet::Broad),
{
}

/// The name and the description of a code are those of the system, and two
/// codes share neither.
pub proof fn law_codes_are_told_apart(a: Errno, b: Errno)
    ensures
        errno_text(a) == errno_text(b) ==> a == b,
        errno_words(a) == errno_words(b) ==> a == b,
{
    lemma_code_names(a);
    lemma_code_names(b);
    lemma_code_words(a);
    lemma_code_words(b);
}

/// The characters of a code's name.
pub proof fn lemma_code_names(e: Errno)
    ensures
        errno_text(e) == (match e {
            Errno::NoEntry => seq!['E', 'N', 'O', 'E', 'N', 'T'],
            Errno::ConnectionRefused => seq![
                'E', 'C', 'O', 'N', 'N', 'R', 'E', 'F', 'U', 'S', 'E', 'D',
            ],
            Errno::ConnectionReset => seq!['E', 'C', 'O', 'N', 'N', 'R', 'E', 'S', 'E', 'T'],
            Errno::BrokenPipe => seq!['E', 'P', 'I', 'P', 'E'],
            Errno::BadDescriptor => seq!['E', 'B', 'A', 'D', 'F'],
            Errno::AccessDenied => seq!['E', 'A', 'C', 'C', 'E', 'S'],
            Errno::Again => seq!['E', 'A', 'G', 'A', 'I', 'N'],
            Errno::InvalidArgument => seq!['E', 'I', 'N', 'V', 'A', 'L'],
            Errno::InputOutput => seq!['E', 'I', 'O'],
            Errno::IsDirectory => seq!['E', 'I', 'S', 'D', 'I', 'R'],
            Errno::NotSocket => seq!['E', 'N', 'O', 'T', 'S', 'O', 'C', 'K'],
            Errno::NotPermitted => seq!['E', 'P', 'E', 'R', 'M'],
            Errno::TimedOut => seq!['E', 'T', 'I', 'M', 'E', 'D', 'O', 'U', 'T'],
            Errno::NotDirectory => seq!['E', 'N', 'O', 'T', 'D', 'I', 'R'],
            Errno::NotConnected => seq!['E', 'N', 'O', 'T', 'C', 'O', 'N', 'N'],
            Errno::Interrupted => seq!['E', 'I', 'N', 'T', 'R'],
            Errno::NoSpace => seq!['E', 'N', 'O', 'S', 'P', 'C'],
            Errno::NameTooLong => seq![
                'E', 'N', 'A', 'M', 'E', 'T', 'O', 'O', 'L', 'O', 'N', 'G',
            ],
            Errno::TooManyFiles => seq!['E', 'M', 'F', 'I', 'L', 'E'],
        }),
{
    reveal_strlit("ENOENT");
    reveal_strlit("ECONNREFUSED");
    reveal_strlit("ECONNRESET");
    reveal_strlit("EPIPE");
    reveal_strlit("EBADF");
    reveal_strlit("EACCES");
    reveal_strlit("EAGAIN");
    reveal_strlit("EINVAL");
    reveal_strlit("EIO");
    reveal_strlit("EISDIR");
    reveal_strlit("ENOTSOCK");
    reveal_strlit("EPERM");
    reveal_strlit("ETIMEDOUT");
    reveal_strlit("ENOTDIR");
    reveal_strlit("ENOTCONN");
    reveal_strlit("EINTR");
    reveal_strlit("ENOSPC");
    reveal_strlit("ENAMETOOLONG");
    reveal_strlit("EMFILE");
}

/// What tells the descriptions apart: their lengths, and two characters.
proof fn lemma_code_words(e: Errno)
    ensures
        errno_words(e) == (match e {
            Errno::NoEntry => "no such file or directory"@,
            Errno::ConnectionRefused => "connection refused"@,
            Errno::ConnectionReset => "connection reset by peer"@,
            Errno::BrokenPipe => "broken pipe"@,
            Errno::BadDescriptor => "bad file descriptor"@,
            Errno::AccessDenied => "permission denied"@,
            Errno::Again => "resource temporarily unavailable"@,
            Errno::InvalidArgument => "invalid argument"@,
            Errno::InputOutput => "i/o error"@,
            Errno::IsDirectory => "illegal operation on a directory"@,
            Errno::NotSocket => "socket operation on non-socket"@,
            Errno::NotPermitted => "operation not permitted"@,
            Errno::TimedOut => "connection timed out"@,
            Errno::NotDirectory => "not a directory"@,
            Errno::NotConnected => "socket is not connected"@,
            Errno::Interrupted => "interrupted system call"@,
            Errno::NoSpace => "no space left on device"@,
            Errno::NameTooLong => "name too long"@,
            Errno::TooManyFiles => "too many open files"@,
        }),
        errno_words(e).len() == (match e {
            Errno::NoEntry => 25nat,
            Errno::ConnectionRefused => 18,
            Errno::ConnectionReset => 24,
            Errno::BrokenPipe => 11,
            Errno::BadDescriptor => 19,
            Errno::AccessDenied => 17,
            Errno::Again => 32,
            Errno::InvalidArgument => 16,
            Errno::InputOutput => 9,
            Errno::IsDirectory => 32,
            Errno::NotSocket => 30,
            Errno::NotPermitted => 23,
            Errno::TimedOut => 20,
            Errno::NotDirectory => 15,
            Errno::NotConnected => 23,
            Errno::Interrupted => 23,
            Errno::NoSpace => 23,
            Errno::NameTooLong => 13,
            Errno::TooManyFiles => 19,
        }),
        errno_words(e)[0] == (match e {
            Errno::NoEntry => 'n',
            Errno::ConnectionRefused => 'c',
            Errno::ConnectionReset => 'c',
            Errno::BrokenPipe => 'b',
            Errno::BadDescriptor => 'b',
            Errno::AccessDenied => 'p',
            Errno::Again => 'r',
            Errno::InvalidArgument => 'i',
            Errno::InputOutput => 'i',
            Errno::IsDirectory => 'i',
            Errno::NotSocket => 's',
            Errno::NotPermitted => 'o',
            Errno::TimedOut => 'c',
            Errno::NotDirectory => 'n',
            Errno::NotConnected => 's',
            Errno::Interrupted => 'i',
            Errno::NoSpace => 'n',
            Errno::NameTooLong => 'n',
            Errno::TooManyFiles => 't',
        }),
{
    reveal_strlit("no such file or directory");
    reveal_strlit("connection refused");
    reveal_strlit("connection reset by peer");
    reveal_strlit("broken pipe");
    reveal_strlit("bad file descriptor");
    reveal_strlit("permission denied");
    reveal_strlit("resource temporarily unavailable");
    reveal_strlit("invalid argument");
    reveal_strlit("i/o error");
    reveal_strlit("illegal operation on a directory");
    reveal_strlit("socket operation on non-socket");
    reveal_strlit("operation not permitted");
    reveal_strlit("connection timed out");
    reveal_strlit("not a directory");
    reveal_strlit("socket is not connected");
    reveal_strlit("interrupted system call");
    reveal_strlit("no space left on device");
    reveal_strlit("name too long");
    reveal_strlit("too many open files");
}

/// A failure means that the session is gone exactly where its code, or its
/// kind where the code says nothing, is "no such file" or "refused"; for the
/// interactive commands also "reset" and "broken pipe".
pub proof fn law_when_a_session_is_gone(err: IoFault)
    ensures
        err.errno == Some(Errno::NoEntry) || err.errno == Some(Errno::ConnectionRefused) ==> gone(
            err,
            GoneSet::Strict,
        ),
        err.errno == Some(Errno::ConnectionReset) || err.errno == Some(Errno::BrokenPipe)
            ==> gone(err, GoneSet::Broad) && !gone(err, GoneSet::Strict),
        err.errno is None ==> (gone(err, GoneSet::Strict) <==> err.kind == FaultKind::NotFound
            || err.kind == FaultKind::ConnectionRefused),
        err.errno is None ==> (gone(err, GoneSet::Broad) <==> gone(err, GoneSet::Strict)
            || err.kind == FaultKind::ConnectionReset || err.kind == FaultKind::BrokenPipe),
        err.errno == Some(Errno::AccessDenied) && err.kind is Other ==> !gone(err, GoneSet::Broad),
{
}

/// What a client reports of a failed call: that the session is not there where
/// it is gone, and the call, the code and the path otherwise.
pub proof fn law_reported_failures(
    name: Seq<char>,
    remote: bool,
    set: GoneSet,
    syscall: Seq<char>,
    path: Seq<char>,
    err: IoFault,
    code: Errno,
)
    ensures
        gone(err, set) ==> error_text(mapped(name, remote, set, syscall, Some(path), err)) == (
        if remote {
            "Remote session \""@
        } else {
            "Session \""@
        }) + name + "\" not found or not running."@,
        !gone(err, set) && err.errno == Some(code) ==> error_text(
            mapped(name, remote, set, syscall, Some(path), err),
        ) == "Connection error: "@ + (syscall + " "@ + errno_text(code) + " "@ + path),
        !gone(err, set) && err.errno == Some(code) ==> error_text(
            mapped(name, remote, set, syscall, None, err),
        ) == "Connection error: "@ + (syscall + " "@ + errno_text(code)),
        !gone(err, set) && err.errno is None ==> error_text(
            mapped(name, remote, set, syscall, Some(path), err),
        ) == "Connection error: "@ + (syscall + " "@ + err.text@),
{
}

/// The other messages name the session.
pub proof fn law_messages_name_the_session(name: Seq<char>)
    ensures
        error_text(ErrorView::ClosedBeforeScreen(name)) == "Connection to \""@ + name
            + "\" closed before screen received."@,
        error_text(ErrorView::StatsTimeout(name)) == "Timeout querying stats for \""@ + name
            + "\""@,
        error_text(ErrorView::InvalidStats(name)) == "Invalid stats response from \""@ + name
            + "\""@,
        dropping_text(name) == "pty client: dropping connection — "@ + name + "\n"@,
{
}

/// What a failed file operation is reported as.
pub proof fn law_reported_file_failures(syscall: Seq<char>, err: IoFault, code: Errno)
    ensures
        err.errno == Some(code) ==> fs_text(syscall, err) == errno_text(code) + ": "@
            + errno_words(code) + ", "@ + syscall,
        err.errno is None ==> fs_text(syscall, err) == err.text@ + ", "@ + syscall,
{
}

/// The exit code of a payload is the number that was written into it, negative
/// ones too; a payload that is too short has none.
pub proof fn law_exit_code_is_read_back(code: i32, tail: Seq<u8>, short: Seq<u8>)
    requires
        short.len() < 4,
    ensures
        exit_code_of(
            seq![
                (crate::protocol::unsigned(code) / 16777216) as u8,
                (crate::protocol::unsigned(code) / 65536 % 256) as u8,
                (crate::protocol::unsigned(code) / 256 % 256) as u8,
                (crate::protocol::unsigned(code) % 256) as u8,
            ] + tail,
        ) == code,
        code >= 0 ==> crate::protocol::unsigned(code) == code,
        code < 0 ==> crate::protocol::unsigned(code) == code + 0x1_0000_0000,
        exit_code_of(short) == -1,
{
    let n = crate::protocol::unsigned(code);
    crate::protocol::law_be32_round_trip(n, tail);
}

/// A size is read as rows and then columns, the high byte first.
pub proof fn law_size_of_a_payload(payload: Seq<u8>)
    ensures
        payload.len() >= 4 ==> grid_of(payload) == (
            payload[0] * 256 + payload[1],
            payload[2] * 256 + payload[3],
        ),
        payload.len() < 4 ==> grid_of(payload) == (24int, 80int),
{
}

/// Two failures with the same content are the same failure.
pub proof fn law_failures_are_told_apart(a: ClientError, b: ClientError)
    requires
        a@ == b@,
    ensures
        match (a, b) {
            (
                ClientError::NotReachable { name: n, remote: r },
                ClientError::NotReachable { name: m, remote: s },
            ) => n@ == m@ && r == s,
            (ClientError::Connection(x), ClientError::Connection(y)) => x@ == y@,
            (ClientError::ClosedBeforeScreen(x), ClientError::ClosedBeforeScreen(y)) => x@ == y@,
            (ClientError::StatsTimeout(x), ClientError::StatsTimeout(y)) => x@ == y@,
            (ClientError::InvalidStats(x), ClientError::InvalidStats(y)) => x@ == y@,
            _ => false,
        },
{
}

} // verus!
