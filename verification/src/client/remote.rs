//! The client side of remote sessions: the transport is dialled for a local
//! socket path, and a one-line control protocol over it asks for a route to a
//! session or for the list of sessions.

use super::{around, call_text, errno_name, errno_text, node_error_message, Errno, IoFault};
use crate::json::{
    compact, lemma_flat_object_is_readable, max_nesting, parsed, to_json_text, Json, JsonMap, JsonView,
};
use crate::maps::TagMap;
use crate::text::{from_chars, slice_of, text_of, to_chars, trim, trimmed, utf8_lossy};
use vstd::prelude::*;

verus! {

/// The service name on the transport.
pub const PTY_REMOTE_ALPN: &'static str = "pty-remote";

/// Default transport binary.
pub const DEFAULT_FABRIC_BIN: &'static str = "fabric";

/// The budget of a dial, a handshake or a list, in milliseconds.
pub const REMOTE_TIMEOUT: u64 = 10000;

/// One session row over the control protocol.
#[derive(Debug, Clone, PartialEq, Eq)]
pub struct RemoteSessionRow {
    pub name: String,
    pub status: String,
    pub command: Option<String>,
    pub cwd: Option<String>,
    pub tags: Option<TagMap>,
    pub display_name: Option<String>,
}

/// The peer's control server refused the route: the host is reachable and
/// reports the session gone or absent.
#[derive(Debug, Clone, PartialEq, Eq)]
pub struct RouteRefusedError(pub String);

/// A failure of the remote dial, route or list.
#[derive(Debug)]
pub enum RemoteError {
    /// The dial could not be run or failed.
    Dial(String),
    /// The dial printed nothing.
    NoSocket { peer: String },
    /// A socket failure, with its details.
    Io(String),
    /// No acknowledgement within the budget.
    HandshakeTimeout,
    /// The acknowledgement could not be read; its beginning.
    BadRouteResponse(String),
    /// The peer refused the route.
    Refused(RouteRefusedError),
    /// The socket closed before the acknowledgement.
    NotReachable { name: String },
    /// The list did not come within the budget.
    ListTimeout,
    /// The list could not be read.
    BadListResponse(String),
    /// The peer answered a list with an error.
    Remote(String),
}

/// The mathematical content of a `RemoteError`.
#[verifier::ext_equal]
pub enum RemoteErrorView {
    Dial(Seq<char>),
    NoSocket(Seq<char>),
    Io(Seq<char>),
    HandshakeTimeout,
    BadRouteResponse(Seq<char>),
    Refused(Seq<char>),
    NotReachable(Seq<char>),
    ListTimeout,
    BadListResponse(Seq<char>),
    Remote(Seq<char>),
}

impl View for RemoteError {
    type V = RemoteErrorView;

    open spec fn view(&self) -> RemoteErrorView {
        match self {
            RemoteError::Dial(m) => RemoteErrorView::Dial(m@),
            RemoteError::NoSocket { peer } => RemoteErrorView::NoSocket(peer@),
            RemoteError::Io(m) => RemoteErrorView::Io(m@),
            RemoteError::HandshakeTimeout => RemoteErrorView::HandshakeTimeout,
            RemoteError::BadRouteResponse(line) => RemoteErrorView::BadRouteResponse(line@),
            RemoteError::Refused(e) => RemoteErrorView::Refused(e.0@),
            RemoteError::NotReachable { name } => RemoteErrorView::NotReachable(name@),
            RemoteError::ListTimeout => RemoteErrorView::ListTimeout,
            RemoteError::BadListResponse(m) => RemoteErrorView::BadListResponse(m@),
            RemoteError::Remote(m) => RemoteErrorView::Remote(m@),
        }
    }
}

/// The message of a failure.
pub open spec fn remote_text(e: RemoteErrorView) -> Seq<char> {
    match e {
        RemoteErrorView::Dial(m) => m,
        RemoteErrorView::NoSocket(peer) => "fabric dial "@ + peer + " returned no socket"@,
        RemoteErrorView::Io(m) => m,
        RemoteErrorView::HandshakeTimeout => "route handshake timed out"@,
        RemoteErrorView::BadRouteResponse(line) => "bad route response: "@ + line,
        RemoteErrorView::Refused(m) => m,
        RemoteErrorView::NotReachable(name) => "remote session \""@ + name + "\" not reachable"@,
        RemoteErrorView::ListTimeout => "remote list timed out"@,
        RemoteErrorView::BadListResponse(m) => "bad remote response: "@ + m,
        RemoteErrorView::Remote(m) => m,
    }
}

fn behind(before: &str, rest: &str) -> (r: String)
    ensures
        r@ == before@ + rest@,
{
    let mut m = before.to_owned();
    m.append(rest);
    m
}

impl RemoteError {
    /// The message to print.
    pub fn message(&self) -> (r: String)
        ensures
            r@ == remote_text(self@),
    {
        match self {
            RemoteError::Dial(m) => m.clone(),
            RemoteError::NoSocket { peer } => around(
                "fabric dial ",
                peer.as_str(),
                " returned no socket",
            ),
            RemoteError::Io(m) => m.clone(),
            RemoteError::HandshakeTimeout => "route handshake timed out".to_owned(),
            RemoteError::BadRouteResponse(line) => behind("bad route response: ", line.as_str()),
            RemoteError::Refused(e) => e.0.clone(),
            RemoteError::NotReachable { name } => around(
                "remote session \"",
                name.as_str(),
                "\" not reachable",
            ),
            RemoteError::ListTimeout => "remote list timed out".to_owned(),
            RemoteError::BadListResponse(m) => behind("bad remote response: ", m.as_str()),
            RemoteError::Remote(m) => m.clone(),
        }
    }

    /// Is this the reachable-but-gone refusal?
    pub fn is_refused(&self) -> (r: bool)
        ensures
            r == (self is Refused),
    {
        matches!(self, RemoteError::Refused(_))
    }
}

/// How to reach the transport: the binary and the budget of each step in
/// milliseconds.
#[derive(Debug, Clone)]
pub struct RemoteDialer {
    pub fabric_bin: String,
    pub timeout: u64,
}

/// What running the dial gave.
#[derive(Debug)]
pub enum DialOutcome {
    /// It could not be run, with the code where it has a name.
    NotRun(Option<Errno>),
    /// It did not end in time.
    TimedOut,
    /// It could not be waited for.
    NotWaited(String),
    /// It failed and printed this to its error stream.
    Failed(Vec<u8>),
    /// It succeeded and printed this.
    Printed(Vec<u8>),
}

/// What a dial comes to: the printed path without white space around it, or
/// the failure.
pub open spec fn dialled(bin: Seq<char>, peer: Seq<char>, o: DialOutcome) -> Result<
    Seq<char>,
    RemoteErrorView,
> {
    match o {
        DialOutcome::NotRun(code) => Err(
            RemoteErrorView::Dial(
                "spawnSync "@ + bin + " "@ + (match code {
                    Some(c) => errno_text(c),
                    None => "EUNKNOWN"@,
                }),
            ),
        ),
        DialOutcome::TimedOut => Err(
            RemoteErrorView::Dial("spawnSync "@ + bin + " "@ + "ETIMEDOUT"@),
        ),
        DialOutcome::NotWaited(text) => Err(
            RemoteErrorView::Dial("spawnSync "@ + bin + " "@ + text@),
        ),
        DialOutcome::Failed(stderr) => Err(
            RemoteErrorView::Dial(
                "Command failed: "@ + bin + " dial "@ + peer + " pty-remote\n"@ + text_of(stderr@),
            ),
        ),
        DialOutcome::Printed(stdout) => Ok(trimmed(text_of(stdout@))),
    }
}

impl RemoteDialer {
    /// The dialer for the transport binary that the environment names.
    pub fn from_env(fabric_bin: Option<&str>) -> (r: RemoteDialer)
        ensures
            r.timeout == REMOTE_TIMEOUT,
            r.fabric_bin@ == (match fabric_bin {
                Some(b) if b@.len() > 0 => b@,
                _ => "fabric"@,
            }),
    {
        let bin = match fabric_bin {
            Some(b) => if b.is_empty() {
                DEFAULT_FABRIC_BIN.to_owned()
            } else {
                b.to_owned()
            },
            None => DEFAULT_FABRIC_BIN.to_owned(),
        };
        RemoteDialer { fabric_bin: bin, timeout: REMOTE_TIMEOUT }
    }

    fn spawn_error(&self, what: &str) -> (r: RemoteError)
        ensures
            r@ == RemoteErrorView::Dial("spawnSync "@ + self.fabric_bin@ + " "@ + what@),
    {
        let mut m = around("spawnSync ", self.fabric_bin.as_str(), " ");
        m.append(what);
        RemoteError::Dial(m)
    }

    /// The socket path that a dial printed, or why there is none.
    pub fn dial(&self, peer: &str, outcome: DialOutcome) -> (r: Result<String, RemoteError>)
        ensures
            match r {
                Ok(path) => dialled(self.fabric_bin@, peer@, outcome) == Ok::<
                    Seq<char>,
                    RemoteErrorView,
                >(path@),
                Err(e) => dialled(self.fabric_bin@, peer@, outcome) == Err::<
                    Seq<char>,
                    RemoteErrorView,
                >(e@),
            },
    {
        match outcome {
            DialOutcome::NotRun(code) => Err(
                match code {
                    Some(c) => self.spawn_error(errno_name(c)),
                    None => self.spawn_error("EUNKNOWN"),
                },
            ),
            DialOutcome::TimedOut => Err(self.spawn_error("ETIMEDOUT")),
            DialOutcome::NotWaited(text) => Err(self.spawn_error(text.as_str())),
            DialOutcome::Failed(stderr) => {
                let text = utf8_lossy(stderr.as_slice());
                let mut m = around("Command failed: ", self.fabric_bin.as_str(), " dial ");
                m.append(peer);
                m.append(" pty-remote\n");
                m.append(text.as_str());
                Err(RemoteError::Dial(m))
            },
            DialOutcome::Printed(stdout) => {
                let text = utf8_lossy(stdout.as_slice());
                Ok(trim(text.as_str()))
            },
        }
    }
}

/// A path to route over: a dial that printed nothing gave none.
pub fn dial_and_route(peer: &str, path: String) -> (r: Result<String, RemoteError>)
    ensures
        match r {
            Ok(p) => path@.len() > 0 && p == path,
            Err(e) => path@.len() == 0 && e@ == RemoteErrorView::NoSocket(peer@),
        },
{
    if path.as_str().is_empty() {
        Err(RemoteError::NoSocket { peer: peer.to_owned() })
    } else {
        Ok(path)
    }
}

/// A failed system call on the control socket.
pub fn control_io(syscall: &str, path: Option<&str>, err: &IoFault) -> (r: RemoteError)
    ensures
        r@ == RemoteErrorView::Io(call_text(syscall@, super::path_view(path), *err)),
{
    RemoteError::Io(node_error_message(syscall, path, err))
}

/// The route request as JSON.
pub open spec fn route_json(name: Seq<char>) -> JsonView {
    JsonView::Object(seq![("op"@, JsonView::Str("route"@)), ("name"@, JsonView::Str(name))])
}

/// The line that asks for a route to a session: one line, which is read back
/// as the request.
pub fn route_request(name: &str) -> (r: String)
    ensures
        r@ == compact(route_json(name@)).push('\n'),
        !r@.drop_last().contains('\n'),
        parsed(r@.drop_last()) == Some(route_json(name@)),
{
    proof {
        reveal_strlit("op");
        reveal_strlit("name");
        assert("op"@.len() == 2 && "name"@.len() == 4);
    }
    let mut m = JsonMap::new();
    m.add_member("op", Json::Str("route".to_owned()));
    m.add_member("name", Json::Str(name.to_owned()));
    assert(m@ =~= route_json(name@)->Object_0);
    proof {
        lemma_flat_object_is_readable(m@, max_nesting());
    }
    let mut line = to_json_text(&Json::Object(m));
    let ghost text = line@;
    line.push('\n');
    assert(line@.drop_last() =~= text);
    line
}

/// The line that asks for the list of sessions.
pub const LIST_REQUEST: &'static str = "{\"op\":\"list\"}\n";

/// What one read of a byte gave.
#[derive(Debug)]
pub enum ByteRead {
    Byte(u8),
    Closed,
    TimedOut,
    Failed(IoFault),
}

/// What reading a line came to so far.
#[derive(Debug)]
pub enum LineStep {
    /// Read on.
    More,
    /// The line, without its line feed.
    Line(Vec<u8>),
    /// The socket closed before the line ended.
    Closed,
    TimedOut,
    Failed(IoFault),
}

/// One byte of a line. Nothing behind the line feed is consumed.
pub fn read_line(line: &mut Vec<u8>, read: ByteRead) -> (r: LineStep)
    ensures
        match read {
            ByteRead::Byte(b) => if b == 10 {
                r matches LineStep::Line(v) && v@ == old(line)@ && final(line)@.len() == 0
            } else {
                r is More && final(line)@ == old(line)@.push(b)
            },
            ByteRead::Closed => r is Closed && final(line)@ == old(line)@,
            ByteRead::TimedOut => r is TimedOut && final(line)@ == old(line)@,
            ByteRead::Failed(err) => r == LineStep::Failed(err) && final(line)@ == old(line)@,
        },
{
    match read {
        ByteRead::Byte(b) => if b == 10 {
            let mut done: Vec<u8> = Vec::new();
            std::mem::swap(&mut done, line);
            LineStep::Line(done)
        } else {
            line.push(b);
            LineStep::More
        },
        ByteRead::Closed => LineStep::Closed,
        ByteRead::TimedOut => LineStep::TimedOut,
        ByteRead::Failed(err) => LineStep::Failed(err),
    }
}

/// The acknowledgement line as text; `None` while it is not whole, or why it
/// did not come.
pub fn route_line(step: LineStep, name: &str) -> (r: Option<Result<String, RemoteError>>)
    ensures
        match step {
            LineStep::More => r is None,
            LineStep::Line(b) => r matches Some(Ok(text)) && text@ == text_of(b@),
            LineStep::Closed => r matches Some(Err(e)) && e@ == RemoteErrorView::NotReachable(
                name@,
            ),
            LineStep::TimedOut => r matches Some(Err(e)) && e@ is HandshakeTimeout,
            LineStep::Failed(err) => r matches Some(Err(e)) && e@ == RemoteErrorView::Io(
                call_text("read"@, None, err),
            ),
        },
{
    match step {
        LineStep::More => None,
        LineStep::Line(b) => Some(Ok(utf8_lossy(b.as_slice()))),
        LineStep::Closed => Some(Err(RemoteError::NotReachable { name: name.to_owned() })),
        LineStep::TimedOut => Some(Err(RemoteError::HandshakeTimeout)),
        LineStep::Failed(err) => Some(Err(control_io("read", None, &err))),
    }
}

/// An acknowledgement.
#[derive(Debug)]
pub struct RouteAck {
    pub ok: Option<bool>,
    pub error: Option<String>,
}

/// The beginning of a text.
pub open spec fn beginning(s: Seq<char>, n: int) -> Seq<char> {
    if s.len() <= n {
        s
    } else {
        s.take(n)
    }
}

/// What an acknowledgement comes to: only one that says yes and names no error
/// opens the route.
pub open spec fn routed(text: Seq<char>, ack: Option<RouteAck>) -> Result<(), RemoteErrorView> {
    match ack {
        None => Err(RemoteErrorView::BadRouteResponse(beginning(text, 80))),
        Some(a) => match a.error {
            Some(e) => Err(RemoteErrorView::Refused(e@)),
            None => if a.ok == Some(true) {
                Ok(())
            } else {
                Err(RemoteErrorView::Refused("route refused"@))
            },
        },
    }
}

/// What an acknowledgement comes to, from its text and what reading it gave.
pub fn route(text: &str, ack: Option<RouteAck>) -> (r: Result<(), RemoteError>)
    ensures
        match r {
            Ok(()) => routed(text@, ack) is Ok,
            Err(e) => routed(text@, ack) == Err::<(), RemoteErrorView>(e@),
        },
{
    match ack {
        None => {
            let chars = to_chars(text);
            let end: usize = if chars.len() <= 80 {
                chars.len()
            } else {
                80
            };
            let short = slice_of(chars.as_slice(), 0, end);
            assert(short@ =~= beginning(text@, 80));
            Err(RemoteError::BadRouteResponse(from_chars(short.as_slice())))
        },
        Some(a) => match a.error {
            Some(e) => Err(RemoteError::Refused(RouteRefusedError(e))),
            None => match a.ok {
                Some(true) => Ok(()),
                _ => Err(RemoteError::Refused(RouteRefusedError("route refused".to_owned()))),
            },
        },
    }
}

/// The text of a list body, without white space around it.
pub fn list_text(body: &[u8]) -> (r: String)
    ensures
        r@ == trimmed(text_of(body@)),
{
    let text = utf8_lossy(body);
    trim(text.as_str())
}

/// The answer to a list request.
#[derive(Debug)]
pub struct ListResponse {
    pub sessions: Option<Vec<RemoteSessionRow>>,
    pub error: Option<String>,
}

/// The sessions of a list, from what reading the answer gave.
pub fn fetch_remote_list(response: Result<ListResponse, String>) -> (r: Result<
    Vec<RemoteSessionRow>,
    RemoteError,
>)
    ensures
        match response {
            Err(text) => r matches Err(e) && e@ == RemoteErrorView::BadListResponse(text@),
            Ok(l) => match l.error {
                Some(text) => r matches Err(e) && e@ == RemoteErrorView::Remote(text@),
                None => r matches Ok(v) && (match l.sessions {
                    Some(s) => v == s,
                    None => v@.len() == 0,
                }),
            },
        },
{
    match response {
        Err(text) => Err(RemoteError::BadListResponse(text)),
        Ok(l) => match l.error {
            Some(text) => Err(RemoteError::Remote(text)),
            None => match l.sessions {
                Some(s) => Ok(s),
                None => Ok(Vec::new()),
            },
        },
    }
}

/// An acknowledgement that names an error never opens the route, whatever else
/// it says.
pub proof fn law_an_error_refuses_the_route(text: Seq<char>, ack: RouteAck)
    requires
        ack.error is Some,
    ensures
        routed(text, Some(ack)) is Err,
{
}

/// What is said about each failure.
pub proof fn law_remote_messages(s: Seq<char>)
    ensures
        remote_text(RemoteErrorView::Dial(s)) == s,
        remote_text(RemoteErrorView::NoSocket(s)) == "fabric dial "@ + s + " returned no socket"@,
        remote_text(RemoteErrorView::Io(s)) == s,
        remote_text(RemoteErrorView::HandshakeTimeout) == "route handshake timed out"@,
        remote_text(RemoteErrorView::BadRouteResponse(s)) == "bad route response: "@ + s,
        remote_text(RemoteErrorView::Refused(s)) == s,
        remote_text(RemoteErrorView::NotReachable(s)) == "remote session \""@ + s
            + "\" not reachable"@,
        remote_text(RemoteErrorView::ListTimeout) == "remote list timed out"@,
        remote_text(RemoteErrorView::BadListResponse(s)) == "bad remote response: "@ + s,
        remote_text(RemoteErrorView::Remote(s)) == s,
{
}

/// What comes of dialling: the path that was printed, without the white space
/// around it, or what went wrong.
pub proof fn law_dialling(bin: Seq<char>, peer: Seq<char>, c: Errno, text: String, b: Vec<u8>)
    ensures
        dialled(bin, peer, DialOutcome::Printed(b)) == Ok::<Seq<char>, RemoteErrorView>(
            trimmed(text_of(b@)),
        ),
        dialled(bin, peer, DialOutcome::NotRun(Some(c))) == Err::<Seq<char>, RemoteErrorView>(
            RemoteErrorView::Dial("spawnSync "@ + bin + " "@ + errno_text(c)),
        ),
        dialled(bin, peer, DialOutcome::NotRun(None)) == Err::<Seq<char>, RemoteErrorView>(
            RemoteErrorView::Dial("spawnSync "@ + bin + " "@ + "EUNKNOWN"@),
        ),
        dialled(bin, peer, DialOutcome::TimedOut) == Err::<Seq<char>, RemoteErrorView>(
            RemoteErrorView::Dial("spawnSync "@ + bin + " "@ + "ETIMEDOUT"@),
        ),
        dialled(bin, peer, DialOutcome::NotWaited(text)) == Err::<Seq<char>, RemoteErrorView>(
            RemoteErrorView::Dial("spawnSync "@ + bin + " "@ + text@),
        ),
        dialled(bin, peer, DialOutcome::Failed(b)) == Err::<Seq<char>, RemoteErrorView>(
            RemoteErrorView::Dial(
                "Command failed: "@ + bin + " dial "@ + peer + " pty-remote\n"@ + text_of(b@),
            ),
        ),
        PTY_REMOTE_ALPN@ == "pty-remote"@,
        DEFAULT_FABRIC_BIN@ == "fabric"@,
        REMOTE_TIMEOUT == 10000,
{
}

/// The requests: a route names the session, a list asks for nothing more.
pub proof fn law_remote_requests(name: Seq<char>)
    ensures
        route_json(name) is Object,
        route_json(name)->Object_0 == seq![
            ("op"@, JsonView::Str("route"@)),
            ("name"@, JsonView::Str(name)),
        ],
        LIST_REQUEST@ == "{\"op\":\"list\"}\n"@,
{
}

/// What comes of a route: it is granted where the answer says so and names no
/// error; an answer that is none is shown by its first 80 characters.
pub proof fn law_granted_routes(text: Seq<char>, ack: RouteAck)
    ensures
        routed(text, Some(ack)) is Ok <==> ack.error is None && ack.ok == Some(true),
        ack.error is Some ==> routed(text, Some(ack)) == Err::<(), RemoteErrorView>(
            RemoteErrorView::Refused(ack.error->0@),
        ),
        ack.error is None && ack.ok != Some(true) ==> routed(text, Some(ack)) == Err::<
            (),
            RemoteErrorView,
        >(RemoteErrorView::Refused("route refused"@)),
        text.len() <= 80 ==> routed(text, None) == Err::<(), RemoteErrorView>(
            RemoteErrorView::BadRouteResponse(text),
        ),
        text.len() > 80 ==> routed(text, None) == Err::<(), RemoteErrorView>(
            RemoteErrorView::BadRouteResponse(text.take(80)),
        ),
{
}

/// What a failure holds is what it says.
pub proof fn law_remote_failures(m: String)
    ensures
        RemoteError::Dial(m)@ == RemoteErrorView::Dial(m@),
        (RemoteError::NoSocket { peer: m })@ == RemoteErrorView::NoSocket(m@),
        RemoteError::Io(m)@ == RemoteErrorView::Io(m@),
        RemoteError::HandshakeTimeout@ == RemoteErrorView::HandshakeTimeout,
        RemoteError::BadRouteResponse(m)@ == RemoteErrorView::BadRouteResponse(m@),
        RemoteError::Refused(RouteRefusedError(m))@ == RemoteErrorView::Refused(m@),
        (RemoteError::NotReachable { name: m })@ == RemoteErrorView::NotReachable(m@),
        RemoteError::ListTimeout@ == RemoteErrorView::ListTimeout,
        RemoteError::BadListResponse(m)@ == RemoteErrorView::BadListResponse(m@),
        RemoteError::Remote(m)@ == RemoteErrorView::Remote(m@),
{
}

} // verus!
