//! Programmatic access to a session: a connection that attaches, waits for the
//! first screen, and then delivers events; sending data; fetching a screen.

use super::{
    exit_code_of, grid_of, map_io_error, mapped, ClientError, ErrorView, GoneSet,
    SocketRead,
};
use crate::keys::{resolve_key, resolved, KeyError};
use crate::protocol::{
    declared, decode_exit, decode_geometry, encode_attach, encode_data, encode_detach, encode_resize, frame,
    leftover, packet_views, packets, refused, size_bytes, too_large_text, MessageType, Packet, PacketReader,
    PacketView,
};
use crate::text::{lower_text, text_of, utf8_lossy};
use vstd::prelude::*;
use vstd::utf8::encode_utf8;

verus! {

/// Something the daemon sent.
#[derive(Debug, Clone, PartialEq, Eq)]
pub enum SessionEvent {
    /// Effective shared grid, before the output it affects.
    Geometry { rows: u16, cols: u16 },
    /// A screen replay.
    Screen(Vec<u8>),
    /// Terminal output.
    Data(Vec<u8>),
    /// The session process exited.
    Exit(i32),
    /// The daemon closed the socket.
    Closed,
}

/// The mathematical content of a `SessionEvent`.
#[verifier::ext_equal]
pub enum EventView {
    Geometry(int, int),
    Screen(Seq<u8>),
    Data(Seq<u8>),
    Exit(int),
    Closed,
}

impl View for SessionEvent {
    type V = EventView;

    open spec fn view(&self) -> EventView {
        match self {
            SessionEvent::Geometry { rows, cols } => EventView::Geometry(*rows as int, *cols as int),
            SessionEvent::Screen(b) => EventView::Screen(b@),
            SessionEvent::Data(b) => EventView::Data(b@),
            SessionEvent::Exit(c) => EventView::Exit(*c as int),
            SessionEvent::Closed => EventView::Closed,
        }
    }
}

/// The contents of a list of events.
pub open spec fn event_views(v: Seq<SessionEvent>) -> Seq<EventView> {
    Seq::new(v.len(), |i: int| v[i]@)
}

/// The event that a packet means.
pub open spec fn event_of(p: PacketView) -> Option<EventView> {
    match p.type_ {
        MessageType::Geometry => {
            let (rows, cols) = grid_of(p.payload);
            Some(EventView::Geometry(rows, cols))
        },
        MessageType::Screen => Some(EventView::Screen(p.payload)),
        MessageType::Data => Some(EventView::Data(p.payload)),
        MessageType::Exit => Some(EventView::Exit(exit_code_of(p.payload))),
        _ => None,
    }
}

/// The events that packets mean.
pub open spec fn events_in(v: Seq<PacketView>) -> Seq<EventView>
    decreases v.len(),
{
    if v.len() == 0 {
        Seq::empty()
    } else {
        match event_of(v.last()) {
            Some(e) => events_in(v.drop_last()).push(e),
            None => events_in(v.drop_last()),
        }
    }
}

/// The grid after packets.
pub open spec fn grid_after(v: Seq<PacketView>, grid: (int, int)) -> (int, int)
    decreases v.len(),
{
    if v.len() == 0 {
        grid
    } else if v.last().type_ is Geometry {
        grid_of(v.last().payload)
    } else {
        grid_after(v.drop_last(), grid)
    }
}

/// The event that a packet means.
pub fn packet_event(p: Packet) -> (r: Option<SessionEvent>)
    ensures
        match r {
            Some(e) => event_of(p@) == Some(e@),
            None => event_of(p@) is None,
        },
{
    match p.type_ {
        MessageType::Geometry => {
            let (rows, cols) = decode_geometry(p.payload.as_slice());
            Some(SessionEvent::Geometry { rows, cols })
        },
        MessageType::Screen => Some(SessionEvent::Screen(p.payload)),
        MessageType::Data => Some(SessionEvent::Data(p.payload)),
        MessageType::Exit => Some(SessionEvent::Exit(decode_exit(p.payload.as_slice()))),
        _ => None,
    }
}

/// What a connection waits for.
#[derive(Debug)]
pub enum ConnectionRead {
    /// Nothing came in time.
    TimedOut,
    Socket(SocketRead),
}

/// The state of a bidirectional connection to a session.
pub struct SessionConnection {
    name: String,
    open: bool,
    reader: PacketReader,
    rows: u16,
    cols: u16,
    effective_rows: u16,
    effective_cols: u16,
    screen: Vec<u8>,
    pending: Vec<SessionEvent>,
    closed: bool,
}

/// The mathematical content of a `SessionConnection`.
#[verifier::ext_equal]
pub struct ConnectionView {
    pub name: Seq<char>,
    /// The socket is there.
    pub open: bool,
    /// Bytes that wait for the rest of their packet.
    pub partial: Seq<u8>,
    /// The size that was asked for.
    pub asked: (int, int),
    /// The shared grid.
    pub grid: (int, int),
    pub screen: Seq<u8>,
    /// Events that have not been delivered.
    pub pending: Seq<EventView>,
    pub closed: bool,
}

impl View for SessionConnection {
    type V = ConnectionView;

    closed spec fn view(&self) -> ConnectionView {
        ConnectionView {
            name: self.name@,
            open: self.open,
            partial: self.reader.pending(),
            asked: (self.rows as int, self.cols as int),
            grid: (self.effective_rows as int, self.effective_cols as int),
            screen: self.screen@,
            pending: event_views(self.pending@),
            closed: self.closed,
        }
    }
}

/// A connection that has just been made.
pub open spec fn fresh(name: Seq<char>, rows: int, cols: int) -> ConnectionView {
    ConnectionView {
        name,
        open: true,
        partial: Seq::empty(),
        asked: (rows, cols),
        grid: (rows, cols),
        screen: Seq::empty(),
        pending: Seq::empty(),
        closed: false,
    }
}

/// The connection with its socket gone.
pub open spec fn shut(c: ConnectionView) -> ConnectionView {
    ConnectionView { open: false, closed: true, ..c }
}

/// What a connection gives before it reads its socket.
#[derive(Debug)]
pub enum Queued {
    /// This event.
    Event(SessionEvent),
    /// Nothing: the socket has to be read.
    Read,
}

/// How attaching goes on.
#[derive(Debug)]
pub enum AttachProgress {
    /// The first screen has not come yet.
    Waiting,
    /// The connection is attached.
    Ready,
    /// Attaching failed.
    Failed(ClientError),
}

impl SessionConnection {
    /// A connection over a socket, and what to write to it first.
    pub fn attach_over(name: &str, rows: u16, cols: u16) -> (r: (SessionConnection, Vec<u8>))
        ensures
            r.0@ == fresh(name@, rows as int, cols as int),
            r.1@ == frame(1, size_bytes(rows, cols)),
    {
        let pending: Vec<SessionEvent> = Vec::new();
        let screen: Vec<u8> = Vec::new();
        assert(event_views(pending@) =~= Seq::<EventView>::empty());
        assert(screen@ =~= Seq::<u8>::empty());
        let conn = SessionConnection {
            name: name.to_owned(),
            open: true,
            reader: PacketReader::new(),
            rows,
            cols,
            effective_rows: rows,
            effective_cols: cols,
            screen,
            pending,
            closed: false,
        };
        (conn, encode_attach(rows, cols))
    }

    /// The initial screen replay.
    pub fn screen(&self) -> (r: &[u8])
        ensures
            r@ == self@.screen,
    {
        self.screen.as_slice()
    }

    /// Session name.
    pub fn name(&self) -> (r: &str)
        ensures
            r@ == self@.name,
    {
        self.name.as_str()
    }

    /// Is the socket still open?
    pub fn connected(&self) -> (r: bool)
        ensures
            r == (self@.open && !self@.closed),
    {
        self.open && !self.closed
    }

    /// The size we last requested.
    pub fn rows(&self) -> (r: u16)
        ensures
            r == self@.asked.0,
    {
        self.rows
    }

    /// The size we last requested.
    pub fn cols(&self) -> (r: u16)
        ensures
            r == self@.asked.1,
    {
        self.cols
    }

    /// The shared grid the daemon reported last.
    pub fn effective_rows(&self) -> (r: u16)
        ensures
            r == self@.grid.0,
    {
        self.effective_rows
    }

    /// The shared grid the daemon reported last.
    pub fn effective_cols(&self) -> (r: u16)
        ensures
            r == self@.grid.1,
    {
        self.effective_cols
    }

    fn pop(&mut self) -> (r: Option<SessionEvent>)
        ensures
            old(self)@.pending.len() == 0 ==> r is None && final(self)@ == old(self)@,
            old(self)@.pending.len() > 0 ==> r is Some && r->0@ == old(self)@.pending[0]
                && final(self)@ == (ConnectionView {
                pending: old(self)@.pending.skip(1),
                ..old(self)@
            }),
    {
        let ghost before = self@;
        if self.pending.len() == 0 {
            None
        } else {
            let e = self.pending.remove(0);
            assert(event_views(self.pending@) =~= before.pending.skip(1));
            Some(e)
        }
    }

    /// What is there without reading the socket: a queued event, or that the
    /// socket is gone.
    pub fn queued(&mut self) -> (r: Queued)
        ensures
            ({
                let c = old(self)@;
                if c.pending.len() > 0 {
                    r matches Queued::Event(e) && e@ == c.pending[0] && final(self)@ == (
                    ConnectionView { pending: c.pending.skip(1), ..c })
                } else {
                    final(self)@ == c && (if c.closed || !c.open {
                        r matches Queued::Event(e) && e@ is Closed
                    } else {
                        r is Read
                    })
                }
            }),
    {
        match self.pop() {
            Some(e) => Queued::Event(e),
            None => if self.closed || !self.open {
                Queued::Event(SessionEvent::Closed)
            } else {
                Queued::Read
            },
        }
    }

    /// Take in what reading the socket gave, and return the first event that
    /// it yields; others are queued. `None` when nothing came in time or no
    /// event is complete.
    pub fn read_more(&mut self, read: ConnectionRead) -> (r: Result<
        Option<SessionEvent>,
        ClientError,
    >)
        requires
            old(self)@.pending.len() == 0,
        ensures
            ({
                let c = old(self)@;
                match read {
                    ConnectionRead::TimedOut => r matches Ok(None) && final(self)@ == c,
                    ConnectionRead::Socket(SocketRead::Failed(err)) => r matches Err(e) && e@
                        == mapped(c.name, false, GoneSet::Strict, "read"@, None, err)
                        && final(self)@ == shut(c),
                    ConnectionRead::Socket(SocketRead::Closed) => r matches Ok(Some(e)) && e@
                        is Closed && final(self)@ == shut(c),
                    ConnectionRead::Socket(SocketRead::Bytes(b)) => {
                        let all = c.partial + b@;
                        if refused(leftover(all)) {
                            r matches Ok(Some(e)) && e@ is Closed && final(self)@ == shut(
                                ConnectionView { partial: Seq::empty(), ..c },
                            )
                        } else {
                            let events = events_in(packets(all));
                            let next = ConnectionView {
                                partial: leftover(all),
                                grid: grid_after(packets(all), c.grid),
                                ..c
                            };
                            if events.len() == 0 {
                                r matches Ok(None) && final(self)@ == next
                            } else {
                                r matches Ok(Some(e)) && e@ == events[0] && final(self)@ == (
                                ConnectionView { pending: events.skip(1), ..next })
                            }
                        }
                    },
                }
            }),
    {
        let ghost c = self@;
        let bytes = match read {
            ConnectionRead::TimedOut => {
                return Ok(None);
            },
            ConnectionRead::Socket(SocketRead::Failed(err)) => {
                self.closed = true;
                self.open = false;
                return Err(
                    map_io_error(self.name.as_str(), false, GoneSet::Strict, "read", None, &err),
                );
            },
            ConnectionRead::Socket(SocketRead::Closed) => {
                self.closed = true;
                self.open = false;
                return Ok(Some(SessionEvent::Closed));
            },
            ConnectionRead::Socket(SocketRead::Bytes(b)) => b,
        };
        let list = match self.reader.feed(bytes.as_slice()) {
            Ok(v) => v,
            Err(_) => {
                self.closed = true;
                self.open = false;
                return Ok(Some(SessionEvent::Closed));
            },
        };
        self.take_packets(list);
        Ok(self.pop())
    }

    /// Queue the events of packets, and take over the last grid.
    fn take_packets(&mut self, list: Vec<Packet>)
        requires
            old(self)@.pending.len() == 0,
        ensures
            final(self)@ == (ConnectionView {
                pending: events_in(packet_views(list@)),
                grid: grid_after(packet_views(list@), old(self)@.grid),
                ..old(self)@
            }),
    {
        let ghost c = self@;
        let ghost v = packet_views(list@);
        let mut rest = list;
        let mut taken: Vec<SessionEvent> = Vec::new();
        let mut rows: u16 = self.effective_rows;
        let mut cols: u16 = self.effective_cols;
        let mut i: usize = 0;
        let n = rest.len();
        assert(v.take(0) =~= Seq::<PacketView>::empty());
        assert(event_views(taken@) =~= Seq::<EventView>::empty());
        assert(packet_views(rest@) =~= v.skip(0));
        while i < n
            invariant
                i <= n,
                n == v.len(),
                packet_views(rest@) == v.skip(i as int),
                event_views(taken@) == events_in(v.take(i as int)),
                (rows as int, cols as int) == grid_after(v.take(i as int), c.grid),
            decreases n - i,
        {
            assert(v.take(i + 1).drop_last() =~= v.take(i as int));
            assert(packet_views(rest@).len() == rest@.len());
            let ghost before = rest@;
            let p = rest.remove(0);
            assert(p@ == packet_views(before)[0]);
            proof {
                assert forall|j: int| 0 <= j < rest@.len() implies packet_views(rest@)[j] == v.skip(
                    i + 1,
                )[j] by {
                    assert(rest@[j] == before[j + 1]);
                    assert(packet_views(before)[j + 1] == v.skip(i as int)[j + 1]);
                }
                assert(packet_views(rest@) =~= v.skip(i + 1));
            }
            match packet_event(p) {
                Some(e) => {
                    if let SessionEvent::Geometry { rows: r, cols: c2 } = &e {
                        rows = *r;
                        cols = *c2;
                    }
                    let ghost seen = event_views(taken@);
                    let ghost ev = e@;
                    taken.push(e);
                    assert(event_views(taken@) =~= seen.push(ev));
                },
                None => {},
            }
            i += 1;
        }
        assert(v.take(n as int) =~= v);
        self.effective_rows = rows;
        self.effective_cols = cols;
        self.pending = taken;
    }

    /// One event while attaching. Events that come before the first screen
    /// belong to the caller: they are held aside in `held` and put in front of
    /// what came with the screen. Grids have been taken over already.
    pub fn attach_event(&mut self, held: &mut Vec<SessionEvent>, event: Option<SessionEvent>) -> (r:
        AttachProgress)
        ensures
            ({
                let c = old(self)@;
                let h = event_views(old(held)@);
                match event {
                    None => r is Waiting && final(self)@ == c && event_views(final(held)@) == h,
                    Some(e) => match e@ {
                        EventView::Screen(s) => r is Ready && final(self)@ == (ConnectionView {
                            screen: s,
                            pending: h + c.pending,
                            ..c
                        }) && final(held)@.len() == 0,
                        EventView::Closed => r matches AttachProgress::Failed(err) && err@
                            == ErrorView::ClosedBeforeScreen(c.name) && final(self)@ == c
                            && event_views(final(held)@) == h,
                        EventView::Geometry(_, _) => r is Waiting && final(self)@ == c
                            && event_views(final(held)@) == h,
                        other => r is Waiting && final(self)@ == c && event_views(final(held)@)
                            == h.push(other),
                    },
                }
            }),
    {
        let ghost c = self@;
        let ghost h = event_views(held@);
        let e = match event {
            Some(e) => e,
            None => {
                return AttachProgress::Waiting;
            },
        };
        match e {
            SessionEvent::Screen(s) => {
                let ghost mine = self.pending@;
                self.screen = s;
                held.append(&mut self.pending);
                assert(event_views(held@) =~= h + c.pending);
                std::mem::swap(held, &mut self.pending);
                assert(event_views(self.pending@) =~= h + c.pending);
                AttachProgress::Ready
            },
            SessionEvent::Closed => AttachProgress::Failed(
                ClientError::ClosedBeforeScreen(self.name.clone()),
            ),
            SessionEvent::Geometry { rows, cols } => AttachProgress::Waiting,
            other => {
                let ghost v = other@;
                held.push(other);
                assert(event_views(held@) =~= h.push(v));
                AttachProgress::Waiting
            },
        }
    }

    /// The first screen did not come in time: the socket is dropped.
    pub fn attach_timed_out(&mut self) -> (r: ClientError)
        ensures
            r@ == ErrorView::ClosedBeforeScreen(old(self)@.name),
            final(self)@ == (ConnectionView { open: false, ..old(self)@ }),
    {
        self.open = false;
        ClientError::ClosedBeforeScreen(self.name.clone())
    }

    /// What to write for terminal input; nothing when not connected.
    pub fn write(&self, data: &[u8]) -> (r: Option<Vec<u8>>)
        ensures
            match r {
                Some(b) => self@.open && !self@.closed && b@ == frame(0, data@),
                None => !self@.open || self@.closed,
            },
    {
        if self.closed || !self.open {
            return None;
        }
        Some(encode_data(data))
    }

    /// What to write for a named key.
    pub fn press(&self, key: &str) -> (r: Result<Option<Vec<u8>>, KeyError>)
        ensures
            match r {
                Ok(sent) => resolved(key@, lower_text(key@)) is Ok && (match sent {
                    Some(b) => self@.open && !self@.closed && b@ == frame(
                        0,
                        encode_utf8(resolved(key@, lower_text(key@))->Ok_0),
                    ),
                    None => !self@.open || self@.closed,
                }),
                Err(e) => resolved(key@, lower_text(key@)) == Err::<Seq<char>, Seq<char>>(e.0@),
            },
    {
        match resolve_key(key) {
            Ok(text) => Ok(self.write(text.as_str().as_bytes())),
            Err(e) => Err(e),
        }
    }

    /// Request a new size: what to write, nothing when not connected.
    pub fn resize(&mut self, rows: u16, cols: u16) -> (r: Option<Vec<u8>>)
        ensures
            match r {
                Some(b) => old(self)@.open && !old(self)@.closed && b@ == frame(
                    3,
                    size_bytes(rows, cols),
                ) && final(self)@ == (ConnectionView {
                    asked: (rows as int, cols as int),
                    ..old(self)@
                }),
                None => (!old(self)@.open || old(self)@.closed) && final(self)@ == old(self)@,
            },
    {
        if self.closed || !self.open {
            return None;
        }
        self.rows = rows;
        self.cols = cols;
        Some(encode_resize(rows, cols))
    }

    /// Detach, then close: what to write before the socket is closed, nothing
    /// where it is gone.
    pub fn disconnect(&mut self) -> (r: Option<Vec<u8>>)
        ensures
            final(self)@ == shut(old(self)@),
            match r {
                Some(b) => old(self)@.open && b@ == frame(2, Seq::empty()),
                None => !old(self)@.open,
            },
    {
        let was_open = self.open;
        self.open = false;
        self.closed = true;
        if was_open {
            Some(encode_detach())
        } else {
            None
        }
    }
}

/// The events that are held aside while attaching: all but grids.
pub open spec fn held_aside(v: Seq<EventView>) -> Seq<EventView>
    decreases v.len(),
{
    if v.len() == 0 {
        Seq::empty()
    } else if v.last() is Geometry {
        held_aside(v.drop_last())
    } else {
        held_aside(v.drop_last()).push(v.last())
    }
}

/// Holding aside keeps the order of arrival: the events of two stretches are
/// held one stretch behind the other.
pub proof fn law_events_are_held_in_order(a: Seq<EventView>, b: Seq<EventView>)
    ensures
        held_aside(a + b) == held_aside(a) + held_aside(b),
    decreases b.len(),
{
    if b.len() == 0 {
        assert(a + b =~= a);
        assert(held_aside(a) + held_aside(b) =~= held_aside(a));
    } else {
        assert((a + b).drop_last() =~= a + b.drop_last());
        assert((a + b).last() == b.last());
        law_events_are_held_in_order(a, b.drop_last());
        if !(b.last() is Geometry) {
            assert((held_aside(a) + held_aside(b.drop_last())).push(b.last()) =~= held_aside(a)
                + held_aside(b));
        }
    }
}

// ---- one screen ----------------------------------------------------------

/// What fetching a screen asks for.
#[derive(Debug, Clone, Copy, PartialEq, Eq, Structural)]
pub struct PeekScreenOptions {
    pub plain: bool,
    pub full: bool,
}

impl Default for PeekScreenOptions {
    fn default() -> (r: PeekScreenOptions)
        ensures
            !r.plain,
            !r.full,
    {
        PeekScreenOptions { plain: false, full: false }
    }
}

/// How long fetching a screen waits, in milliseconds.
pub const PEEK_SCREEN_TIMEOUT: u64 = 5000;

/// The position of the first packet of a type, or the length.
pub open spec fn first_of(v: Seq<PacketView>, type_: MessageType, from: int) -> int
    decreases v.len() - from,
{
    if 0 <= from < v.len() && v[from].type_ != type_ {
        first_of(v, type_, from + 1)
    } else {
        from
    }
}

/// The position of the first packet of a type.
pub(crate) fn find_packet(list: &[Packet], type_: MessageType) -> (r: usize)
    ensures
        r == first_of(packet_views(list@), type_, 0),
        r <= list@.len(),
        r < list@.len() ==> list@[r as int].type_ == type_,
{
    let ghost v = packet_views(list@);
    let mut i: usize = 0;
    while i < list.len() && list[i].type_ != type_
        invariant
            i <= list@.len(),
            v == packet_views(list@),
            first_of(v, type_, i as int) == first_of(v, type_, 0),
        decreases list.len() - i,
    {
        assert(v[i as int].type_ == list@[i as int].type_);
        i += 1;
    }
    assert(i < list@.len() ==> v[i as int].type_ == list@[i as int].type_);
    i
}

/// Take in what reading the socket gave while fetching a screen: the screen as
/// text, a failure, or nothing yet.
pub fn peek_screen(reader: &mut PacketReader, read: ConnectionRead, name: &str) -> (r: Option<
    Result<String, ClientError>,
>)
    ensures
        match read {
            ConnectionRead::TimedOut | ConnectionRead::Socket(SocketRead::Closed) => r matches Some(
                Err(e),
            ) && e@ == ErrorView::ClosedBeforeScreen(name@),
            ConnectionRead::Socket(SocketRead::Failed(err)) => r matches Some(Err(e)) && e@
                == mapped(name@, false, GoneSet::Strict, "read"@, None, err),
            ConnectionRead::Socket(SocketRead::Bytes(b)) => {
                let all = old(reader).pending() + b@;
                let v = packets(all);
                let i = first_of(v, MessageType::Screen, 0);
                if refused(leftover(all)) {
                    r matches Some(Err(e)) && e@ == ErrorView::Connection(
                        too_large_text(declared(leftover(all)) as nat),
                    )
                } else if i < v.len() {
                    r matches Some(Ok(text)) && text@ == text_of(v[i].payload)
                } else {
                    r is None && final(reader).pending() == leftover(all)
                }
            },
        },
{
    let bytes = match read {
        ConnectionRead::TimedOut | ConnectionRead::Socket(SocketRead::Closed) => {
            return Some(Err(ClientError::ClosedBeforeScreen(name.to_owned())));
        },
        ConnectionRead::Socket(SocketRead::Failed(err)) => {
            return Some(Err(map_io_error(name, false, GoneSet::Strict, "read", None, &err)));
        },
        ConnectionRead::Socket(SocketRead::Bytes(b)) => b,
    };
    match reader.feed(bytes.as_slice()) {
        Ok(list) => {
            let i = find_packet(list.as_slice(), MessageType::Screen);
            if i < list.len() {
                assert(packet_views(list@)[i as int] == list@[i as int]@);
                Some(Ok(utf8_lossy(list[i].payload.as_slice())))
            } else {
                None
            }
        },
        Err(e) => Some(Err(ClientError::Connection(e.message()))),
    }
}

/// What each packet is to the one who listens: a size, a screen, data or an
/// exit, with the payload as it came; any other packet is nothing.
pub proof fn law_event_of_a_packet(b: Seq<u8>, t: MessageType)
    ensures
        event_of(PacketView { type_: MessageType::Data, payload: b }) == Some(EventView::Data(b)),
        event_of(PacketView { type_: MessageType::Screen, payload: b }) == Some(
            EventView::Screen(b),
        ),
        event_of(PacketView { type_: MessageType::Exit, payload: b }) == Some(
            EventView::Exit(exit_code_of(b)),
        ),
        event_of(PacketView { type_: MessageType::Geometry, payload: b }) == Some(
            EventView::Geometry(grid_of(b).0, grid_of(b).1),
        ),
        !(t is Data) && !(t is Screen) && !(t is Exit) && !(t is Geometry) ==> event_of(
            PacketView { type_: t, payload: b },
        ) is None,
{
}

/// The events of packets come in the packets' order, and one packet after
/// another adds its own behind.
pub proof fn law_events_in_order(a: Seq<PacketView>, b: Seq<PacketView>, p: PacketView)
    ensures
        events_in(Seq::empty()).len() == 0,
        event_of(p) is Some ==> events_in(a.push(p)) == events_in(a).push(event_of(p)->0),
        event_of(p) is None ==> events_in(a.push(p)) == events_in(a),
        events_in(a + b) == events_in(a) + events_in(b),
    decreases b.len(),
{
    assert(a.push(p).drop_last() =~= a);
    assert(a.push(p).last() == p);
    if b.len() > 0 {
        let rest = b.drop_last();
        law_events_in_order(a, rest, b.last());
        assert((a + b).drop_last() =~= a + rest);
        assert((a + b).last() == b.last());
        if event_of(b.last()) is Some {
            let e = event_of(b.last())->0;
            assert((events_in(a) + events_in(rest)).push(e) =~= events_in(a) + events_in(rest).push(
                e,
            ));
        }
    } else {
        assert(a + b =~= a);
        assert(events_in(a) + events_in(b) =~= events_in(a));
    }
}

/// The size in force is the last one that was told.
pub proof fn law_last_size_counts(a: Seq<PacketView>, p: PacketView, grid: (int, int))
    ensures
        grid_after(Seq::empty(), grid) == grid,
        p.type_ is Geometry ==> grid_after(a.push(p), grid) == grid_of(p.payload),
        !(p.type_ is Geometry) ==> grid_after(a.push(p), grid) == grid_after(a, grid),
{
    assert(a.push(p).drop_last() =~= a);
    assert(a.push(p).last() == p);
}

/// A new connection is open, has the size it asked for, and has seen nothing; a
/// connection that is shut keeps all but that.
pub proof fn law_new_and_shut_connections(name: Seq<char>, rows: int, cols: int, c: ConnectionView)
    ensures
        ({
            let f = fresh(name, rows, cols);
            &&& f.name == name && f.open && !f.closed && f.partial.len() == 0
            &&& f.asked == (rows, cols) && f.grid == (rows, cols)
            &&& f.screen.len() == 0 && f.pending.len() == 0
        }),
        ({
            let s = shut(c);
            &&& !s.open && s.closed && s.name == c.name && s.partial == c.partial
            &&& s.asked == c.asked && s.grid == c.grid && s.screen == c.screen && s.pending
                == c.pending
        }),
        PEEK_SCREEN_TIMEOUT == 5000,
{
}

/// The first packet of a type: there is none before it.
pub proof fn law_first_packet_of_a_type(v: Seq<PacketView>, t: MessageType, from: int)
    requires
        0 <= from <= v.len(),
    ensures
        from <= first_of(v, t, from) <= v.len(),
        first_of(v, t, from) < v.len() ==> v[first_of(v, t, from)].type_ == t,
        forall|i: int| from <= i < first_of(v, t, from) ==> (#[trigger] v[i]).type_ != t,
    decreases v.len() - from,
{
    if from < v.len() && v[from].type_ != t {
        law_first_packet_of_a_type(v, t, from + 1);
    }
}

/// What an event holds is what it says.
pub proof fn law_session_events(rows: u16, cols: u16, b: Vec<u8>, c: i32, v: Seq<SessionEvent>)
    ensures
        (SessionEvent::Geometry { rows, cols })@ == EventView::Geometry(rows as int, cols as int),
        SessionEvent::Screen(b)@ == EventView::Screen(b@),
        SessionEvent::Data(b)@ == EventView::Data(b@),
        SessionEvent::Exit(c)@ == EventView::Exit(c as int),
        SessionEvent::Closed@ == EventView::Closed,
        event_views(v).len() == v.len(),
        forall|i: int| 0 <= i < v.len() ==> #[trigger] event_views(v)[i] == v[i]@,
{
}

} // verus!
