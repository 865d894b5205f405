//! Asking daemons for their status: one at a time, or many at once with one
//! deadline for all of them.

use super::connection::{find_packet, first_of, ConnectionRead};
use super::{
    dropping_connection_line, dropping_text, map_io_error, mapped, ClientError, ErrorView, FaultKind, GoneSet,
    IoFault, SocketRead,
};
use crate::protocol::{
    declared, leftover, packet_views, packets, refused, too_large_text, MessageType, PacketReader,
};
use crate::text::{text_of, utf8_lossy};
use vstd::prelude::*;

verus! {

/// The budget of a status query, in milliseconds.
pub const STATS_TIMEOUT: u64 = 2000;

/// Where one status query of many stands.
pub enum QueryStep {
    /// Not connected yet: the first attempt, or a retry after a full queue.
    Connect,
    /// The connect is under way.
    Connecting,
    /// Connected, with this many bytes of the request written.
    Writing(usize),
    /// The request is sent; packets are collected until the status.
    Reading(PacketReader),
    /// The status as it was sent, or why there is none.
    Done(Result<String, ClientError>),
}

/// Whether a step is a failure with this content.
pub open spec fn failed_with(s: QueryStep, e: ErrorView) -> bool {
    s matches QueryStep::Done(Err(err)) && err@ == e
}

/// What one non-blocking connect gave.
#[derive(Debug)]
pub enum ConnectAttempt {
    Connected,
    /// Wait until the socket can be written to.
    InProgress,
    /// The listener's queue is full: try again.
    Busy,
    Failed(IoFault),
}

/// The step behind a connect attempt.
pub fn begin(attempt: ConnectAttempt, name: &str, path: &str) -> (r: QueryStep)
    ensures
        match attempt {
            ConnectAttempt::Connected => r == QueryStep::Writing(0),
            ConnectAttempt::InProgress => r is Connecting,
            ConnectAttempt::Busy => r is Connect,
            ConnectAttempt::Failed(err) => failed_with(
                r,
                mapped(name@, false, GoneSet::Strict, "connect"@, Some(path@), err),
            ),
        },
{
    match attempt {
        ConnectAttempt::Connected => QueryStep::Writing(0),
        ConnectAttempt::InProgress => QueryStep::Connecting,
        ConnectAttempt::Busy => QueryStep::Connect,
        ConnectAttempt::Failed(err) => QueryStep::Done(
            Err(map_io_error(name, false, GoneSet::Strict, "connect", Some(path), &err)),
        ),
    }
}

/// A connect that was under way has ended.
pub fn connected(error: Option<IoFault>, name: &str, path: &str) -> (r: QueryStep)
    ensures
        match error {
            None => r == QueryStep::Writing(0),
            Some(err) => failed_with(
                r,
                mapped(name@, false, GoneSet::Strict, "connect"@, Some(path@), err),
            ),
        },
{
    match error {
        None => QueryStep::Writing(0),
        Some(err) => QueryStep::Done(
            Err(map_io_error(name, false, GoneSet::Strict, "connect", Some(path), &err)),
        ),
    }
}

/// What one write gave.
#[derive(Debug)]
pub enum WriteResult {
    Wrote(usize),
    Failed(IoFault),
}

/// The step behind one write of the request, and whether to go on at once: a
/// request that is not whole yet is written on until the socket would block.
pub fn write_request(
    written: usize,
    total: usize,
    result: WriteResult,
    name: &str,
    path: &str,
) -> (r: (QueryStep, bool))
    requires
        written < total,
        result matches WriteResult::Wrote(n) ==> n <= total - written,
    ensures
        match result {
            WriteResult::Wrote(n) => if n == 0 {
                failed_with(r.0, ErrorView::Connection("write write zero"@)) && !r.1
            } else if written + n >= total {
                r.0 matches QueryStep::Reading(reader) && reader.pending().len() == 0 && !r.1
            } else {
                r.0 == QueryStep::Writing((written + n) as usize) && r.1
            },
            WriteResult::Failed(err) => if err.kind is WouldBlock {
                r.0 == QueryStep::Writing(written) && !r.1
            } else if err.kind is Interrupted {
                r.0 == QueryStep::Writing(written) && r.1
            } else {
                failed_with(
                    r.0,
                    mapped(name@, false, GoneSet::Strict, "write"@, Some(path@), err),
                ) && !r.1
            },
        },
{
    match result {
        WriteResult::Wrote(n) => {
            if n == 0 {
                return (
                    QueryStep::Done(Err(ClientError::Connection("write write zero".to_owned()))),
                    false,
                );
            }
            if written + n >= total {
                return (QueryStep::Reading(PacketReader::new()), false);
            }
            (QueryStep::Writing(written + n), true)
        },
        WriteResult::Failed(err) => match err.kind {
            FaultKind::WouldBlock => (QueryStep::Writing(written), false),
            FaultKind::Interrupted => (QueryStep::Writing(written), true),
            _ => (
                QueryStep::Done(
                    Err(map_io_error(name, false, GoneSet::Strict, "write", Some(path), &err)),
                ),
                false,
            ),
        },
    }
}

/// What reading gave while a status is awaited.
#[derive(Debug)]
pub struct StatusRead {
    /// The status, or why there is none; nothing while it is awaited.
    pub result: Option<Result<String, ClientError>>,
    /// A line for the error stream.
    pub stderr: String,
}

impl StatusRead {
    /// The read ended in this failure, behind this line.
    pub open spec fn failed(&self, e: ErrorView, line: Seq<char>) -> bool {
        self.result matches Some(Err(err)) && err@ == e && self.stderr@ == line
    }
}

fn no_status(e: ClientError, line: String) -> (r: StatusRead)
    ensures
        r.failed(e@, line@),
{
    StatusRead { result: Some(Err(e)), stderr: line }
}

/// What bytes mean while a status is awaited: the payload of the first status
/// packet, a peer that is dropped, or nothing yet.
pub open spec fn status_in(all: Seq<u8>, name: Seq<char>, after: Seq<u8>, r: StatusRead) -> bool {
    let v = packets(all);
    let i = first_of(v, MessageType::Status, 0);
    if refused(leftover(all)) {
        r.failed(
            ErrorView::StatsTimeout(name),
            dropping_text(too_large_text(declared(leftover(all)) as nat)),
        )
    } else if i < v.len() {
        r.result matches Some(Ok(json)) && json@ == text_of(v[i].payload) && r.stderr@.len() == 0
    } else {
        r.result is None && r.stderr@.len() == 0 && after == leftover(all)
    }
}

fn take_status(reader: &mut PacketReader, bytes: &[u8], name: &str) -> (r: StatusRead)
    ensures
        status_in(old(reader).pending() + bytes@, name@, final(reader).pending(), r),
{
    match reader.feed(bytes) {
        Ok(list) => {
            let i = find_packet(list.as_slice(), MessageType::Status);
            if i < list.len() {
                assert(packet_views(list@)[i as int] == list@[i as int]@);
                StatusRead {
                    result: Some(Ok(utf8_lossy(list[i].payload.as_slice()))),
                    stderr: String::new(),
                }
            } else {
                StatusRead { result: None, stderr: String::new() }
            }
        },
        Err(e) => {
            let text = e.message();
            no_status(
                ClientError::StatsTimeout(name.to_owned()),
                dropping_connection_line(text.as_str()),
            )
        },
    }
}

/// Take in what one read gave while one of many queries awaits its status, and
/// say whether to read on at once.
pub fn read_response(reader: PacketReader, read: SocketRead, name: &str) -> (r: (
    QueryStep,
    bool,
    String,
))
    ensures
        match read {
            SocketRead::Closed => failed_with(r.0, ErrorView::StatsTimeout(name@)) && !r.1
                && r.2@.len() == 0,
            SocketRead::Failed(err) => r.2@.len() == 0 && (if err.kind is WouldBlock {
                r.0 == QueryStep::Reading(reader) && !r.1
            } else if err.kind is Interrupted {
                r.0 == QueryStep::Reading(reader) && r.1
            } else {
                failed_with(r.0, mapped(name@, false, GoneSet::Strict, "read"@, None, err)) && !r.1
            }),
            SocketRead::Bytes(b) => match r.0 {
                QueryStep::Reading(after) => r.1 && status_in(
                    reader.pending() + b@,
                    name@,
                    after.pending(),
                    (StatusRead { result: None, stderr: r.2 }),
                ),
                QueryStep::Done(result) => !r.1 && status_in(
                    reader.pending() + b@,
                    name@,
                    Seq::empty(),
                    (StatusRead { result: Some(result), stderr: r.2 }),
                ),
                _ => false,
            },
        },
{
    match read {
        SocketRead::Closed => (
            QueryStep::Done(Err(ClientError::StatsTimeout(name.to_owned()))),
            false,
            String::new(),
        ),
        SocketRead::Failed(err) => match err.kind {
            FaultKind::WouldBlock => (QueryStep::Reading(reader), false, String::new()),
            FaultKind::Interrupted => (QueryStep::Reading(reader), true, String::new()),
            _ => (
                QueryStep::Done(
                    Err(map_io_error(name, false, GoneSet::Strict, "read", None, &err)),
                ),
                false,
                String::new(),
            ),
        },
        SocketRead::Bytes(b) => {
            let mut reader = reader;
            let status = take_status(&mut reader, b.as_slice(), name);
            match status.result {
                Some(result) => (QueryStep::Done(result), false, status.stderr),
                None => (QueryStep::Reading(reader), true, status.stderr),
            }
        },
    }
}

/// What a step waits for.
#[derive(Debug, Clone, Copy, PartialEq, Eq, Structural)]
pub enum Interest {
    /// The socket can be written to.
    Write,
    /// The socket can be read.
    Read,
    /// Another connect attempt.
    Retry,
    /// Nothing.
    Nothing,
}

/// What a step waits for.
pub fn interest(step: &QueryStep) -> (r: Interest)
    ensures
        r == (match step {
            QueryStep::Connect => Interest::Retry,
            QueryStep::Connecting | QueryStep::Writing(_) => Interest::Write,
            QueryStep::Reading(_) => Interest::Read,
            QueryStep::Done(_) => Interest::Nothing,
        }),
{
    match step {
        QueryStep::Connect => Interest::Retry,
        QueryStep::Connecting | QueryStep::Writing(_) => Interest::Write,
        QueryStep::Reading(_) => Interest::Read,
        QueryStep::Done(_) => Interest::Nothing,
    }
}

/// The content of a result.
pub open spec fn result_view(r: Result<String, ClientError>) -> Result<Seq<char>, ErrorView> {
    match r {
        Ok(s) => Ok(s@),
        Err(e) => Err(e@),
    }
}

/// What a query came to when the waiting is over: one that is not done has
/// timed out.
pub open spec fn settled(step: QueryStep, name: Seq<char>) -> Result<Seq<char>, ErrorView> {
    match step {
        QueryStep::Done(r) => result_view(r),
        _ => Err(ErrorView::StatsTimeout(name)),
    }
}

fn settle(step: QueryStep, name: &str) -> (r: Result<String, ClientError>)
    ensures
        result_view(r) == settled(step, name@),
{
    match step {
        QueryStep::Done(r) => r,
        _ => Err(ClientError::StatsTimeout(name.to_owned())),
    }
}

/// The results of many queries, in the order of their names.
pub fn query_stats_batch_in(names: &[String], steps: Vec<QueryStep>) -> (r: Vec<
    (String, Result<String, ClientError>),
>)
    requires
        names@.len() == steps@.len(),
    ensures
        r@.len() == names@.len(),
        forall|i: int|
            0 <= i < r@.len() ==> (#[trigger] r@[i]).0@ == names@[i]@ && result_view(r@[i].1)
                == settled(steps@[i], names@[i]@),
{
    let ghost all = steps@;
    let mut rest = steps;
    let mut out: Vec<(String, Result<String, ClientError>)> = Vec::new();
    let mut i: usize = 0;
    while i < names.len()
        invariant
            i <= names@.len(),
            names@.len() == all.len(),
            rest@ == all.skip(i as int),
            out@.len() == i,
            forall|j: int|
                0 <= j < i ==> (#[trigger] out@[j]).0@ == names@[j]@ && result_view(out@[j].1)
                    == settled(all[j], names@[j]@),
        decreases names.len() - i,
    {
        let step = rest.remove(0);
        assert(step == all[i as int]);
        assert(rest@ =~= all.skip(i + 1));
        let result = settle(step, names[i].as_str());
        out.push((names[i].clone(), result));
        i += 1;
    }
    out
}

/// Take in what reading gave while a single query awaits its status.
pub fn query_status_json(reader: &mut PacketReader, read: ConnectionRead, name: &str) -> (r:
    StatusRead)
    ensures
        match read {
            ConnectionRead::TimedOut | ConnectionRead::Socket(SocketRead::Closed) => r.failed(
                ErrorView::StatsTimeout(name@),
                Seq::empty(),
            ),
            ConnectionRead::Socket(SocketRead::Failed(err)) => r.failed(
                mapped(name@, false, GoneSet::Strict, "read"@, None, err),
                Seq::empty(),
            ),
            ConnectionRead::Socket(SocketRead::Bytes(b)) => status_in(
                old(reader).pending() + b@,
                name@,
                final(reader).pending(),
                r,
            ),
        },
{
    match read {
        ConnectionRead::TimedOut | ConnectionRead::Socket(SocketRead::Closed) => no_status(
            ClientError::StatsTimeout(name.to_owned()),
            String::new(),
        ),
        ConnectionRead::Socket(SocketRead::Failed(err)) => no_status(
            map_io_error(name, false, GoneSet::Strict, "read", None, &err),
            String::new(),
        ),
        ConnectionRead::Socket(SocketRead::Bytes(b)) => take_status(reader, b.as_slice(), name),
    }
}

/// Take in what reading gave while a status is awaited over a connection that
/// was there before. Bytes that declare too long a packet are thrown away, and
/// the wait goes on.
pub fn query_status_json_over(reader: &mut PacketReader, read: ConnectionRead, name: &str) -> (r:
    Option<Result<String, ClientError>>)
    ensures
        match read {
            ConnectionRead::TimedOut | ConnectionRead::Socket(SocketRead::Closed) => r matches Some(
                Err(e),
            ) && e@ == ErrorView::StatsTimeout(name@) && final(reader).pending() == old(
                reader,
            ).pending(),
            ConnectionRead::Socket(SocketRead::Failed(err)) => r matches Some(Err(e)) && e@
                == mapped(name@, false, GoneSet::Strict, "read"@, None, err)
                && final(reader).pending() == old(reader).pending(),
            ConnectionRead::Socket(SocketRead::Bytes(b)) => {
                let all = old(reader).pending() + b@;
                let v = packets(all);
                let i = first_of(v, MessageType::Status, 0);
                if refused(leftover(all)) {
                    r is None && final(reader).pending() == Seq::<u8>::empty()
                } else {
                    final(reader).pending() == leftover(all) && (if i < v.len() {
                        r matches Some(Ok(json)) && json@ == text_of(v[i].payload)
                    } else {
                        r is None
                    })
                }
            },
        },
{
    match read {
        ConnectionRead::TimedOut | ConnectionRead::Socket(SocketRead::Closed) => Some(
            Err(ClientError::StatsTimeout(name.to_owned())),
        ),
        ConnectionRead::Socket(SocketRead::Failed(err)) => Some(
            Err(map_io_error(name, false, GoneSet::Strict, "read", None, &err)),
        ),
        ConnectionRead::Socket(SocketRead::Bytes(b)) => match reader.feed(b.as_slice()) {
            Ok(list) => {
                let i = find_packet(list.as_slice(), MessageType::Status);
                if i < list.len() {
                    assert(packet_views(list@)[i as int] == list@[i as int]@);
                    Some(Ok(utf8_lossy(list[i].payload.as_slice())))
                } else {
                    None
                }
            },
            Err(_) => None,
        },
    }
}

/// The stats that a status holds, from what reading it gave.
pub fn query_stats<T>(name: &str, parsed: Option<T>) -> (r: Result<T, ClientError>)
    ensures
        match r {
            Ok(t) => parsed == Some(t),
            Err(e) => parsed is None && e@ == ErrorView::InvalidStats(name@),
        },
{
    match parsed {
        Some(t) => Ok(t),
        None => Err(ClientError::InvalidStats(name.to_owned())),
    }
}

/// The status in what was read: the text of the first status packet; nothing
/// yet where there is none; and a packet that is too large ends the wait, with
/// a line about it.
pub proof fn law_status_in_what_was_read(all: Seq<u8>, name: Seq<char>, after: Seq<u8>, r: StatusRead, i: int)
    requires
        status_in(all, name, after, r),
    ensures
        !refused(leftover(all)) && 0 <= i < packets(all).len() && packets(all)[i].type_ is Status && (
        forall|j: int| 0 <= j < i ==> !((#[trigger] packets(all)[j]).type_ is Status)) ==> (
        r.result matches Some(Ok(json)) && json@ == text_of(packets(all)[i].payload)
            && r.stderr@.len() == 0),
        !refused(leftover(all)) && (forall|j: int|
            0 <= j < packets(all).len() ==> !((#[trigger] packets(all)[j]).type_ is Status))
            ==> r.result is None && r.stderr@.len() == 0 && after == leftover(all),
        refused(leftover(all)) ==> (r.result matches Some(Err(e)) && e@ == ErrorView::StatsTimeout(
            name,
        )) && r.stderr@ == dropping_text(too_large_text(declared(leftover(all)) as nat)),
{
    super::connection::law_first_packet_of_a_type(packets(all), MessageType::Status, 0);
    let k = first_of(packets(all), MessageType::Status, 0);
    if 0 <= i < packets(all).len() && packets(all)[i].type_ is Status {
        assert(packets(all)[i].type_ == MessageType::Status);
    }
    if k < packets(all).len() {
        assert(packets(all)[k].type_ is Status);
    }
}

/// A query that is done has its answer; any other has run out of time.
pub proof fn law_settled_queries(s: String, e: ClientError, name: Seq<char>, n: usize)
    ensures
        settled(QueryStep::Done(Ok(s)), name) == Ok::<Seq<char>, ErrorView>(s@),
        settled(QueryStep::Done(Err(e)), name) == Err::<Seq<char>, ErrorView>(e@),
        settled(QueryStep::Connect, name) == Err::<Seq<char>, ErrorView>(
            ErrorView::StatsTimeout(name),
        ),
        settled(QueryStep::Connecting, name) == Err::<Seq<char>, ErrorView>(
            ErrorView::StatsTimeout(name),
        ),
        settled(QueryStep::Writing(n), name) == Err::<Seq<char>, ErrorView>(
            ErrorView::StatsTimeout(name),
        ),
        failed_with(QueryStep::Done(Err(e)), e@),
        !failed_with(QueryStep::Done(Ok(s)), e@) && !failed_with(QueryStep::Connect, e@),
        STATS_TIMEOUT == 2000,
{
}

} // verus!
