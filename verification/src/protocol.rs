//! Wire protocol between a client and the per-session daemon.
//!
//! Frame: `[type: u8][length: u32 BE][payload: length bytes]`.

use crate::json::{
    compact, lemma_flat_object_is_readable, max_nesting, parsed_bytes, readable, to_json_text, Json,
    JsonMap, JsonView,
};
use crate::text::{dec, u64_string};
use vstd::arithmetic::div_mod::lemma_fundamental_div_mod_converse;
use vstd::prelude::*;
use vstd::utf8::{encode_utf8, encode_utf8_decode_utf8, encode_utf8_valid_utf8};

verus! {

/// Message types (byte tag on the wire). Unknown bytes are preserved as
/// `Unknown` so that a peer's newer message types pass through the framing
/// unharmed.
#[derive(Debug, Clone, Copy, PartialEq, Eq, Structural)]
pub enum MessageType {
    /// Terminal data (bidirectional).
    Data,
    /// Client to server: attaching with terminal size.
    Attach,
    /// Client to server: detach. Machine stream to caller: intentional detach.
    Detach,
    /// Client to server: terminal resized.
    Resize,
    /// Server to client: process exited.
    Exit,
    /// Server to client: screen buffer replay on attach.
    Screen,
    /// Client to server: read-only attach (no input, no resize).
    Peek,
    /// Bidirectional: request and response for JSON stats.
    Status,
    /// Request and response: exact held TCP connection ancestry.
    AcceptedSocketOwnership,
    /// Request and response: generation-fenced one-tag compare-and-set.
    LifecycleCas,
    /// Server to client: effective shared rows and columns.
    Geometry,
    /// An unrecognized wire byte, preserved verbatim.
    Unknown(u8),
}

impl MessageType {
    /// The wire byte of a message type.
    pub open spec fn wire(self) -> u8 {
        match self {
            MessageType::Data => 0,
            MessageType::Attach => 1,
            MessageType::Detach => 2,
            MessageType::Resize => 3,
            MessageType::Exit => 4,
            MessageType::Screen => 5,
            MessageType::Peek => 6,
            MessageType::Status => 7,
            MessageType::AcceptedSocketOwnership => 8,
            MessageType::LifecycleCas => 9,
            MessageType::Geometry => 10,
            MessageType::Unknown(b) => b,
        }
    }

    /// The message type that a wire byte stands for.
    pub open spec fn of_wire(b: u8) -> MessageType {
        if b == 0 {
            MessageType::Data
        } else if b == 1 {
            MessageType::Attach
        } else if b == 2 {
            MessageType::Detach
        } else if b == 3 {
            MessageType::Resize
        } else if b == 4 {
            MessageType::Exit
        } else if b == 5 {
            MessageType::Screen
        } else if b == 6 {
            MessageType::Peek
        } else if b == 7 {
            MessageType::Status
        } else if b == 8 {
            MessageType::AcceptedSocketOwnership
        } else if b == 9 {
            MessageType::LifecycleCas
        } else if b == 10 {
            MessageType::Geometry
        } else {
            MessageType::Unknown(b)
        }
    }

    /// Convert a raw wire byte to a message type (total: unknown bytes become
    /// `Unknown`).
    pub fn from_u8(b: u8) -> (r: MessageType)
        ensures
            r == MessageType::of_wire(b),
    {
        match b {
            0 => MessageType::Data,
            1 => MessageType::Attach,
            2 => MessageType::Detach,
            3 => MessageType::Resize,
            4 => MessageType::Exit,
            5 => MessageType::Screen,
            6 => MessageType::Peek,
            7 => MessageType::Status,
            8 => MessageType::AcceptedSocketOwnership,
            9 => MessageType::LifecycleCas,
            10 => MessageType::Geometry,
            other => MessageType::Unknown(other),
        }
    }

    /// The wire byte for this message type.
    pub fn as_u8(self) -> (b: u8)
        ensures
            b == self.wire(),
    {
        match self {
            MessageType::Data => 0,
            MessageType::Attach => 1,
            MessageType::Detach => 2,
            MessageType::Resize => 3,
            MessageType::Exit => 4,
            MessageType::Screen => 5,
            MessageType::Peek => 6,
            MessageType::Status => 7,
            MessageType::AcceptedSocketOwnership => 8,
            MessageType::LifecycleCas => 9,
            MessageType::Geometry => 10,
            MessageType::Unknown(b) => b,
        }
    }
}

/// Every wire byte survives the way through a message type.
pub proof fn law_wire_byte_round_trip(b: u8)
    ensures
        MessageType::of_wire(b).wire() == b,
{
}

/// A message type survives the way over the wire, unless it is an `Unknown`
/// that carries the byte of a known type.
pub proof fn law_message_type_round_trip(t: MessageType)
    requires
        t matches MessageType::Unknown(b) ==> b > 10,
    ensures
        MessageType::of_wire(t.wire()) == t,
{
}

/// A decoded packet.
#[derive(Debug, Clone, PartialEq, Eq)]
pub struct Packet {
    pub type_: MessageType,
    pub payload: Vec<u8>,
}

/// The mathematical content of a packet.
#[verifier::ext_equal]
pub struct PacketView {
    pub type_: MessageType,
    pub payload: Seq<u8>,
}

impl View for Packet {
    type V = PacketView;

    open spec fn view(&self) -> PacketView {
        PacketView { type_: self.type_, payload: self.payload@ }
    }
}

/// The contents of a list of packets.
pub open spec fn packet_views(v: Seq<Packet>) -> Seq<PacketView> {
    Seq::new(v.len(), |i: int| v[i]@)
}

impl Packet {
    /// Re-frame this packet exactly as it arrived.
    pub fn encode(&self) -> (r: Vec<u8>)
        ensures
            r@ == frame(self.type_.wire(), self.payload@),
    {
        encode_packet(self.type_, self.payload.as_slice())
    }
}

/// Size of a frame's header.
pub const HEADER_SIZE: usize = 5;

/// Cap on a legitimate packet length (32 MiB).
pub const MAX_PACKET_LENGTH: usize = 33_554_432;

/// Refused: a peer declared a length above `MAX_PACKET_LENGTH`.
#[derive(Debug, Clone, Copy, PartialEq, Eq, Structural)]
pub struct PacketTooLarge {
    pub length: usize,
}

/// What a peer sees when it declares `length`.
pub open spec fn too_large_text(length: nat) -> Seq<char> {
    "Packet length "@ + dec(length) + " exceeds maximum "@ + dec(MAX_PACKET_LENGTH as nat)
}

impl PacketTooLarge {
    /// The message to show.
    pub fn message(&self) -> (m: String)
        ensures
            m@ == too_large_text(self.length as nat),
    {
        let mut m = "Packet length ".to_owned();
        let length = u64_string(self.length as u64);
        let maximum = u64_string(MAX_PACKET_LENGTH as u64);
        m.append(length.as_str());
        m.append(" exceeds maximum ");
        m.append(maximum.as_str());
        m
    }
}

// ---- numbers on the wire -------------------------------------------------

/// A 16-bit number, high byte first.
pub open spec fn be16(n: int) -> Seq<u8> {
    seq![(n / 256) as u8, (n % 256) as u8]
}

/// A 32-bit number, high byte first.
pub open spec fn be32(n: int) -> Seq<u8> {
    seq![
        (n / 16777216) as u8,
        (n / 65536 % 256) as u8,
        (n / 256 % 256) as u8,
        (n % 256) as u8,
    ]
}

/// The 16-bit number at `at`.
pub open spec fn read16(s: Seq<u8>, at: int) -> int {
    s[at] * 256 + s[at + 1]
}

/// The 32-bit number at `at`.
pub open spec fn read32(s: Seq<u8>, at: int) -> int {
    s[at] * 16777216 + s[at + 1] * 65536 + s[at + 2] * 256 + s[at + 3]
}

/// A signed 32-bit number as the unsigned number with the same bits.
pub open spec fn unsigned(n: i32) -> int {
    if n < 0 {
        n + 0x1_0000_0000
    } else {
        n as int
    }
}

/// An unsigned 32-bit number as the signed number with the same bits.
pub open spec fn signed(n: int) -> int {
    if n >= 0x8000_0000 {
        n - 0x1_0000_0000
    } else {
        n
    }
}

/// Reading a 32-bit number gives back what was written.
pub proof fn law_be32_round_trip(n: int, tail: Seq<u8>)
    requires
        0 <= n < 0x1_0000_0000,
    ensures
        read32(be32(n) + tail, 0) == n,
{
    assert(n == (n / 16777216) * 16777216 + (n / 65536 % 256) * 65536 + (n / 256 % 256) * 256 + n
        % 256);
}

/// Reading a 16-bit number gives back what was written.
pub proof fn law_be16_round_trip(n: int)
    requires
        0 <= n < 65536,
    ensures
        read16(be16(n), 0) == n,
{
}

fn push_be16(out: &mut Vec<u8>, n: u16)
    ensures
        final(out)@ == old(out)@ + be16(n as int),
{
    out.push((n / 256) as u8);
    out.push((n % 256) as u8);
    assert(out@ =~= old(out)@ + be16(n as int));
}

fn push_be32(out: &mut Vec<u8>, n: u32)
    ensures
        final(out)@ == old(out)@ + be32(n as int),
{
    out.push((n / 16777216) as u8);
    out.push((n / 65536 % 256) as u8);
    out.push((n / 256 % 256) as u8);
    out.push((n % 256) as u8);
    assert(out@ =~= old(out)@ + be32(n as int));
}

fn take_be16(s: &[u8], at: usize) -> (n: u16)
    requires
        at + 2 <= s@.len(),
    ensures
        n == read16(s@, at as int),
{
    s[at] as u16 * 256 + s[at + 1] as u16
}

fn take_be32(s: &[u8], at: usize) -> (n: u32)
    requires
        at + 4 <= s@.len(),
    ensures
        n == read32(s@, at as int),
{
    s[at] as u32 * 16777216 + s[at + 1] as u32 * 65536 + s[at + 2] as u32 * 256 + s[at + 3] as u32
}

// ---- frames --------------------------------------------------------------

/// The frame of a packet. The length field holds 32 bits of the length.
pub open spec fn frame(type_byte: u8, payload: Seq<u8>) -> Seq<u8> {
    seq![type_byte] + be32((payload.len() % 0x1_0000_0000) as int) + payload
}

/// Encode a packet.
pub fn encode_packet(type_: MessageType, payload: &[u8]) -> (r: Vec<u8>)
    ensures
        r@ == frame(type_.wire(), payload@),
{
    let mut out: Vec<u8> = Vec::new();
    out.push(type_.as_u8());
    assert(out@ =~= seq![type_.wire()]);
    let len: u32 = (payload.len() as u64 % 0x1_0000_0000) as u32;
    push_be32(&mut out, len);
    out.extend_from_slice(payload);
    out
}

/// Encode terminal data.
pub fn encode_data(data: &[u8]) -> (r: Vec<u8>)
    ensures
        r@ == frame(0, data@),
{
    encode_packet(MessageType::Data, data)
}

/// The payload of a size.
pub open spec fn size_bytes(rows: u16, cols: u16) -> Seq<u8> {
    be16(rows as int) + be16(cols as int)
}

/// The payload of a size with the client's cell pixel metrics appended. The
/// suffix is optional: every reader of a size takes rows and columns from the
/// first four bytes.
pub open spec fn size_cell_bytes(rows: u16, cols: u16, width: u16, height: u16) -> Seq<u8> {
    size_bytes(rows, cols) + be16(width as int) + be16(height as int)
}

fn size_payload(rows: u16, cols: u16) -> (r: Vec<u8>)
    ensures
        r@ == size_bytes(rows, cols),
{
    let mut out: Vec<u8> = Vec::new();
    push_be16(&mut out, rows);
    push_be16(&mut out, cols);
    assert(out@ =~= size_bytes(rows, cols));
    out
}

fn size_cell_payload(rows: u16, cols: u16, cell_width: u16, cell_height: u16) -> (r: Vec<u8>)
    ensures
        r@ == size_cell_bytes(rows, cols, cell_width, cell_height),
{
    let mut out = size_payload(rows, cols);
    push_be16(&mut out, cell_width);
    push_be16(&mut out, cell_height);
    out
}

/// Encode an attach with a terminal size.
pub fn encode_attach(rows: u16, cols: u16) -> (r: Vec<u8>)
    ensures
        r@ == frame(1, size_bytes(rows, cols)),
{
    encode_packet(MessageType::Attach, size_payload(rows, cols).as_slice())
}

/// Encode an attach that also declares the client's cell pixel size.
pub fn encode_attach_with_cell(
    rows: u16,
    cols: u16,
    cell_width: u16,
    cell_height: u16,
) -> (r: Vec<u8>)
    ensures
        r@ == frame(1, size_cell_bytes(rows, cols, cell_width, cell_height)),
{
    encode_packet(
        MessageType::Attach,
        size_cell_payload(rows, cols, cell_width, cell_height).as_slice(),
    )
}

/// Encode a detach.
pub fn encode_detach() -> (r: Vec<u8>)
    ensures
        r@ == frame(2, Seq::<u8>::empty()),
{
    encode_packet(MessageType::Detach, &[])
}

/// Encode a resize.
pub fn encode_resize(rows: u16, cols: u16) -> (r: Vec<u8>)
    ensures
        r@ == frame(3, size_bytes(rows, cols)),
{
    encode_packet(MessageType::Resize, size_payload(rows, cols).as_slice())
}

/// Encode a resize that also declares the client's cell pixel size.
pub fn encode_resize_with_cell(
    rows: u16,
    cols: u16,
    cell_width: u16,
    cell_height: u16,
) -> (r: Vec<u8>)
    ensures
        r@ == frame(3, size_cell_bytes(rows, cols, cell_width, cell_height)),
{
    encode_packet(
        MessageType::Resize,
        size_cell_payload(rows, cols, cell_width, cell_height).as_slice(),
    )
}

/// Encode a geometry (effective shared rows and columns, server to client).
pub fn encode_geometry(rows: u16, cols: u16) -> (r: Vec<u8>)
    ensures
        r@ == frame(10, size_bytes(rows, cols)),
{
    encode_packet(MessageType::Geometry, size_payload(rows, cols).as_slice())
}

/// Encode an exit with a process exit code.
pub fn encode_exit(code: i32) -> (r: Vec<u8>)
    ensures
        r@ == frame(4, be32(unsigned(code))),
{
    let bits: u32 = if code < 0 {
        (code as i64 + 0x1_0000_0000) as u32
    } else {
        code as u32
    };
    let mut payload: Vec<u8> = Vec::new();
    push_be32(&mut payload, bits);
    assert(payload@ =~= be32(unsigned(code)));
    encode_packet(MessageType::Exit, payload.as_slice())
}

/// The flag byte of a peek request: bit 0 asks for plain text, bit 1 for the
/// full scrollback.
pub open spec fn peek_flags(plain: bool, full: bool) -> u8 {
    ((if plain {
        1int
    } else {
        0
    }) + (if full {
        2int
    } else {
        0
    })) as u8
}

/// Encode a peek request.
pub fn encode_peek(plain: bool, full: bool) -> (r: Vec<u8>)
    ensures
        r@ == frame(6, seq![peek_flags(plain, full)]),
{
    let low: u8 = if plain {
        1
    } else {
        0
    };
    let high: u8 = if full {
        2
    } else {
        0
    };
    let flags: [u8; 1] = [low + high];
    assert(flags@ =~= seq![peek_flags(plain, full)]);
    encode_packet(MessageType::Peek, &flags)
}

/// Decode peek flags into `(plain, full)`. An empty payload sets neither.
pub fn decode_peek(payload: &[u8]) -> (r: (bool, bool))
    ensures
        payload@.len() == 0 ==> r == (false, false),
        payload@.len() > 0 ==> r == (payload@[0] % 2 == 1, payload@[0] / 2 % 2 == 1),
{
    if payload.len() == 0 {
        return (false, false);
    }
    let flags: u8 = payload[0];
    (flags % 2 == 1, flags / 2 % 2 == 1)
}

/// Encode a screen replay payload.
pub fn encode_screen(data: &[u8]) -> (r: Vec<u8>)
    ensures
        r@ == frame(5, data@),
{
    encode_packet(MessageType::Screen, data)
}

/// Encode a status request.
pub fn encode_status() -> (r: Vec<u8>)
    ensures
        r@ == frame(7, Seq::<u8>::empty()),
{
    encode_packet(MessageType::Status, &[])
}

/// A status request with a distinct payload, which asks for the attached
/// clients.
pub fn encode_status_clients() -> (r: Vec<u8>)
    ensures
        r@ == frame(7, encode_utf8("clients"@)),
{
    encode_packet(MessageType::Status, "clients".as_bytes())
}

/// Encode a status JSON response.
pub fn encode_status_response(json: &str) -> (r: Vec<u8>)
    ensures
        r@ == frame(7, encode_utf8(json@)),
{
    encode_packet(MessageType::Status, json.as_bytes())
}

/// Decode a size payload `(rows, cols)`, defaulting to 24 by 80.
pub fn decode_size(payload: &[u8]) -> (r: (u16, u16))
    ensures
        payload@.len() < 4 ==> r == (24u16, 80u16),
        payload@.len() >= 4 ==> r.0 == read16(payload@, 0) && r.1 == read16(payload@, 2),
{
    if payload.len() < 4 {
        return (24, 80);
    }
    (take_be16(payload, 0), take_be16(payload, 2))
}

/// The cell pixel size a client appended to an attach or resize payload, or
/// `None` when it sent the plain size or a degenerate zero.
pub fn decode_cell(payload: &[u8]) -> (r: Option<(u16, u16)>)
    ensures
        match r {
            Some(c) => payload@.len() >= 8 && c.0 == read16(payload@, 4) && c.1 == read16(
                payload@,
                6,
            ) && c.0 > 0 && c.1 > 0,
            None => payload@.len() < 8 || read16(payload@, 4) == 0 || read16(payload@, 6) == 0,
        },
{
    if payload.len() < 8 {
        return None;
    }
    let width = take_be16(payload, 4);
    let height = take_be16(payload, 6);
    if width > 0 && height > 0 {
        Some((width, height))
    } else {
        None
    }
}

/// Decode a geometry payload; same layout and fallback as `decode_size`.
pub fn decode_geometry(payload: &[u8]) -> (r: (u16, u16))
    ensures
        payload@.len() < 4 ==> r == (24u16, 80u16),
        payload@.len() >= 4 ==> r.0 == read16(payload@, 0) && r.1 == read16(payload@, 2),
{
    decode_size(payload)
}

/// Decode an exit payload, defaulting to -1.
pub fn decode_exit(payload: &[u8]) -> (r: i32)
    ensures
        payload@.len() < 4 ==> r == -1,
        payload@.len() >= 4 ==> r == signed(read32(payload@, 0)),
{
    if payload.len() < 4 {
        return -1;
    }
    let bits = take_be32(payload, 0);
    if bits >= 0x8000_0000 {
        (bits as i64 - 0x1_0000_0000) as i32
    } else {
        bits as i32
    }
}

/// A size is read back from its payload, whatever follows it.
pub proof fn law_size_round_trip(rows: u16, cols: u16, tail: Seq<u8>)
    ensures
        (size_bytes(rows, cols) + tail).len() >= 4,
        read16(size_bytes(rows, cols) + tail, 0) == rows,
        read16(size_bytes(rows, cols) + tail, 2) == cols,
{
}

/// The cell size is read back from the long payload, and so are rows and
/// columns; what follows the sizes is found behind them.
pub proof fn law_cell_round_trip(rows: u16, cols: u16, width: u16, height: u16, tail: Seq<u8>)
    ensures
        ({
            let payload = size_cell_bytes(rows, cols, width, height) + tail;
            &&& payload.len() >= 8
            &&& read16(payload, 0) == rows
            &&& read16(payload, 2) == cols
            &&& read16(payload, 4) == width
            &&& read16(payload, 6) == height
            &&& payload.skip(8) == tail
        }),
{
    let payload = size_cell_bytes(rows, cols, width, height) + tail;
    assert(payload.skip(8) =~= tail);
}

/// An exit code is read back from its payload.
pub proof fn law_exit_round_trip(code: i32)
    ensures
        be32(unsigned(code)).len() == 4,
        signed(read32(be32(unsigned(code)), 0)) == code,
{
    law_be32_round_trip(unsigned(code), Seq::<u8>::empty());
    assert(be32(unsigned(code)) + Seq::<u8>::empty() =~= be32(unsigned(code)));
}

/// Peek flags are read back from their byte.
pub proof fn law_peek_round_trip(plain: bool, full: bool)
    ensures
        (peek_flags(plain, full) % 2 == 1) == plain,
        (peek_flags(plain, full) / 2 % 2 == 1) == full,
{
}

// ---- reading frames ------------------------------------------------------

/// The length that the header at the front of `buf` declares.
pub open spec fn declared(buf: Seq<u8>) -> int {
    read32(buf, 1)
}

/// Whether `buf` starts with a header whose length is refused.
pub open spec fn refused(buf: Seq<u8>) -> bool {
    buf.len() >= 5 && declared(buf) > MAX_PACKET_LENGTH
}

/// Whether a whole packet stands at the front of `buf`.
pub open spec fn complete(buf: Seq<u8>) -> bool {
    buf.len() >= 5 && declared(buf) <= MAX_PACKET_LENGTH && buf.len() >= 5 + declared(buf)
}

/// The packet at the front of `buf`.
pub open spec fn front(buf: Seq<u8>) -> PacketView {
    PacketView {
        type_: MessageType::of_wire(buf[0]),
        payload: buf.subrange(5, 5 + declared(buf)),
    }
}

/// What follows the packet at the front of `buf`.
pub open spec fn behind(buf: Seq<u8>) -> Seq<u8> {
    buf.skip(5 + declared(buf))
}

/// The whole packets of `buf`, up to a header that is incomplete or refused.
pub open spec fn packets(buf: Seq<u8>) -> Seq<PacketView>
    decreases buf.len(),
{
    if complete(buf) {
        seq![front(buf)] + packets(behind(buf))
    } else {
        Seq::<PacketView>::empty()
    }
}

/// The bytes left over behind the whole packets of `buf`.
pub open spec fn leftover(buf: Seq<u8>) -> Seq<u8>
    decreases buf.len(),
{
    if complete(buf) {
        leftover(behind(buf))
    } else {
        buf
    }
}

/// Streaming packet parser that tolerates partial reads on a stream socket.
pub struct PacketReader {
    buffer: Vec<u8>,
}

impl Default for PacketReader {
    fn default() -> (r: PacketReader)
        ensures
            r.pending() == Seq::<u8>::empty(),
    {
        PacketReader::new()
    }
}

impl PacketReader {
    /// The bytes that wait for the rest of their packet.
    pub closed spec fn pending(&self) -> Seq<u8> {
        self.buffer@
    }

    /// Create an empty reader.
    pub fn new() -> (r: PacketReader)
        ensures
            r.pending() == Seq::<u8>::empty(),
    {
        PacketReader { buffer: Vec::new() }
    }

    /// Feed bytes; return the packets that are complete. A length above the
    /// maximum is an error and empties the buffer, so that a later feed cannot
    /// go on past the bad header.
    pub fn feed(&mut self, data: &[u8]) -> (r: Result<Vec<Packet>, PacketTooLarge>)
        ensures
            ({
                let all = old(self).pending() + data@;
                match r {
                    Ok(v) => {
                        &&& !refused(leftover(all))
                        &&& packet_views(v@) == packets(all)
                        &&& final(self).pending() == leftover(all)
                    },
                    Err(e) => {
                        &&& refused(leftover(all))
                        &&& e.length == declared(leftover(all))
                        &&& final(self).pending() == Seq::<u8>::empty()
                    },
                }
            }),
    {
        self.buffer.extend_from_slice(data);
        let ghost all = self.buffer@;
        assert(all =~= old(self).pending() + data@);
        let mut found: Vec<Packet> = Vec::new();
        let mut pos: usize = 0;
        assert(all.skip(0) =~= all);
        assert(packet_views(found@) + packets(all) =~= packets(all));
        loop
            invariant
                self.buffer@ == all,
                all == old(self).pending() + data@,
                pos <= all.len(),
                packet_views(found@) + packets(all.skip(pos as int)) == packets(all),
                leftover(all.skip(pos as int)) == leftover(all),
            ensures
                pos <= all.len(),
                packet_views(found@) == packets(all),
                leftover(all) == all.skip(pos as int),
                !refused(leftover(all)),
            decreases all.len() - pos,
        {
            let ghost rest = all.skip(pos as int);
            let left = self.buffer.len() - pos;
            if left < HEADER_SIZE {
                assert(packet_views(found@) + packets(rest) =~= packet_views(found@));
                break;
            }
            let type_byte = self.buffer[pos];
            let length: usize = take_be32(self.buffer.as_slice(), pos + 1) as usize;
            assert(declared(rest) == length);
            if length > MAX_PACKET_LENGTH {
                assert(leftover(all) == rest);
                assert(all == old(self).pending() + data@);
                self.buffer.clear();
                assert(self.buffer@ =~= Seq::<u8>::empty());
                return Err(PacketTooLarge { length });
            }
            if left - HEADER_SIZE < length {
                assert(packet_views(found@) + packets(rest) =~= packet_views(found@));
                break;
            }
            let payload = copy_range(
                self.buffer.as_slice(),
                pos + HEADER_SIZE,
                pos + HEADER_SIZE + length,
            );
            let packet = Packet { type_: MessageType::from_u8(type_byte), payload };
            let ghost before = packet_views(found@);
            proof {
                assert(packet@.payload =~= front(rest).payload);
                assert(packet@ == front(rest));
                assert(behind(rest) =~= all.skip(pos + 5 + length));
            }
            let ghost view = packet@;
            found.push(packet);
            proof {
                assert(packet_views(found@) =~= before.push(view));
                assert(before + (seq![view] + packets(behind(rest))) =~= before.push(view)
                    + packets(behind(rest)));
            }
            pos = pos + HEADER_SIZE + length;
        }
        let tail = self.buffer.split_off(pos);
        self.buffer = tail;
        assert(self.buffer@ =~= all.skip(pos as int));
        Ok(found)
    }
}

/// The bytes of a range.
fn copy_range(s: &[u8], from: usize, to: usize) -> (r: Vec<u8>)
    requires
        from <= to <= s@.len(),
    ensures
        r@ == s@.subrange(from as int, to as int),
{
    let mut r: Vec<u8> = Vec::new();
    let mut i: usize = from;
    while i < to
        invariant
            from <= i <= to <= s@.len(),
            r@ == s@.subrange(from as int, i as int),
        decreases to - i,
    {
        r.push(s[i]);
        assert(s@.subrange(from as int, i + 1) =~= s@.subrange(from as int, i as int).push(
            s@[i as int],
        ));
        i += 1;
    }
    r
}

/// Why a packet could not be read from a blocking reader.
#[derive(Debug, Clone, Copy, PartialEq, Eq, Structural)]
pub enum ReadPacketError {
    /// The declared length is above the maximum.
    TooLarge(PacketTooLarge),
    /// The input ended inside the payload.
    UnexpectedEof,
}

/// The message type and length that a header declares.
pub fn decode_header(header: &[u8]) -> (r: Result<(MessageType, usize), PacketTooLarge>)
    requires
        header@.len() >= 5,
    ensures
        match r {
            Ok(h) => h.0 == MessageType::of_wire(header@[0]) && h.1 == declared(header@)
                && !refused(header@),
            Err(e) => refused(header@) && e.length == declared(header@),
        },
{
    let length: usize = take_be32(header, 1) as usize;
    if length > MAX_PACKET_LENGTH {
        Err(PacketTooLarge { length })
    } else {
        Ok((MessageType::from_u8(header[0]), length))
    }
}

/// Read exactly one packet from the front of all that a reader yields before
/// it ends; an input that ends inside the header holds no packet.
pub fn read_packet(input: &[u8]) -> (r: Result<Option<Packet>, ReadPacketError>)
    ensures
        match r {
            Ok(None) => input@.len() < 5,
            Ok(Some(p)) => complete(input@) && p@ == front(input@),
            Err(ReadPacketError::TooLarge(e)) => refused(input@) && e.length == declared(input@),
            Err(ReadPacketError::UnexpectedEof) => input@.len() >= 5 && !refused(input@)
                && !complete(input@),
        },
{
    if input.len() < HEADER_SIZE {
        return Ok(None);
    }
    match decode_header(input) {
        Err(e) => Err(ReadPacketError::TooLarge(e)),
        Ok((type_, length)) => {
            if input.len() - HEADER_SIZE < length {
                return Err(ReadPacketError::UnexpectedEof);
            }
            let payload = copy_range(input, HEADER_SIZE, HEADER_SIZE + length);
            Ok(Some(Packet { type_, payload }))
        },
    }
}

proof fn lemma_header_front(type_byte: u8, length: Seq<u8>, payload: Seq<u8>, rest: Seq<u8>)
    requires
        length.len() == 4,
        read32(length, 0) == payload.len() <= MAX_PACKET_LENGTH,
    ensures
        ({
            let buf = seq![type_byte] + length + payload + rest;
            &&& complete(buf)
            &&& front(buf) == (PacketView { type_: MessageType::of_wire(type_byte), payload })
            &&& behind(buf) == rest
        }),
{
    let buf = seq![type_byte] + length + payload + rest;
    let n = payload.len() as int;
    assert(buf[0] == type_byte);
    assert(buf[1] == length[0] && buf[2] == length[1] && buf[3] == length[2] && buf[4] == length[3]);
    assert(declared(buf) == n);
    assert(buf.subrange(5, 5 + n) =~= payload);
    assert(buf.skip(5 + n) =~= rest);
}

proof fn lemma_frame_front(type_byte: u8, payload: Seq<u8>, rest: Seq<u8>)
    requires
        payload.len() <= MAX_PACKET_LENGTH,
    ensures
        ({
            let buf = frame(type_byte, payload) + rest;
            &&& complete(buf)
            &&& front(buf) == (PacketView { type_: MessageType::of_wire(type_byte), payload })
            &&& behind(buf) == rest
        }),
{
    let length = be32(payload.len() as int);
    law_be32_round_trip(payload.len() as int, Seq::<u8>::empty());
    assert(length + Seq::<u8>::empty() =~= length);
    lemma_header_front(type_byte, length, payload, rest);
}

/// What one side encodes the other side reads: a packet in front of any bytes
/// is read back, and reading goes on right behind it.
pub proof fn law_encoded_packet_is_read_back(type_: MessageType, payload: Seq<u8>, rest: Seq<u8>)
    requires
        payload.len() <= MAX_PACKET_LENGTH,
        type_ matches MessageType::Unknown(b) ==> b > 10,
    ensures
        packets(frame(type_.wire(), payload) + rest) == seq![PacketView { type_, payload }]
            + packets(rest),
        leftover(frame(type_.wire(), payload) + rest) == leftover(rest),
{
    lemma_frame_front(type_.wire(), payload, rest);
    law_message_type_round_trip(type_);
}

/// How a stream is cut into reads does not matter: packets fed in two parts
/// come out as they do when fed at once.
pub proof fn law_feed_in_parts(a: Seq<u8>, b: Seq<u8>)
    requires
        !refused(leftover(a)),
    ensures
        packets(a + b) == packets(a) + packets(leftover(a) + b),
        leftover(a + b) == leftover(leftover(a) + b),
    decreases a.len(),
{
    if complete(a) {
        let n = declared(a);
        assert(declared(a + b) == n);
        assert((a + b).subrange(5, 5 + n) =~= a.subrange(5, 5 + n));
        assert(front(a + b) == front(a));
        assert(behind(a + b) =~= behind(a) + b);
        law_feed_in_parts(behind(a), b);
        let first = seq![front(a)];
        assert(first + (packets(behind(a)) + packets(leftover(a) + b)) =~= (first + packets(
            behind(a),
        )) + packets(leftover(a) + b));
    } else {
        assert(packets(a) + packets(a + b) =~= packets(a + b));
    }
}

/// The bytes of a number are the bytes that it was put together from.
proof fn lemma_be32_of_bytes(b1: u8, b2: u8, b3: u8, b4: u8)
    ensures
        be32(b1 * 16777216 + b2 * 65536 + b3 * 256 + b4) == seq![b1, b2, b3, b4],
{
    let n = b1 * 16777216 + b2 * 65536 + b3 * 256 + b4;
    let (q1, q2) = (b1 * 256 + b2, b1 * 65536 + b2 * 256 + b3);
    lemma_fundamental_div_mod_converse(n, 16777216, b1 as int, b2 * 65536 + b3 * 256 + b4);
    lemma_fundamental_div_mod_converse(n, 65536, q1, b3 * 256 + b4);
    lemma_fundamental_div_mod_converse(q1, 256, b1 as int, b2 as int);
    lemma_fundamental_div_mod_converse(n, 256, q2, b4 as int);
    lemma_fundamental_div_mod_converse(q2, 256, q1, b3 as int);
    assert(be32(n) =~= seq![b1, b2, b3, b4]);
}

/// Re-framing packets keeps the bytes: what `encode` writes for the packet at
/// the front of a stream is the front of that stream.
pub proof fn law_reframing_keeps_the_bytes(buf: Seq<u8>)
    requires
        complete(buf),
    ensures
        frame(front(buf).type_.wire(), front(buf).payload) + behind(buf) == buf,
{
    let n = declared(buf);
    law_wire_byte_round_trip(buf[0]);
    let p = buf.subrange(5, 5 + n);
    assert(p.len() == n);
    lemma_be32_of_bytes(buf[1], buf[2], buf[3], buf[4]);
    let length = be32(n);
    assert(length == seq![buf[1], buf[2], buf[3], buf[4]]);
    assert(frame(buf[0], p) == seq![buf[0]] + length + p);
    assert(seq![buf[0]] + seq![buf[1], buf[2], buf[3], buf[4]] + p + behind(buf) =~= buf);
}

// ---- JSON payloads -------------------------------------------------------

/// A TCP connection by its two ends.
#[derive(Debug, Clone, PartialEq, Eq)]
pub struct TcpConnectionTuple {
    pub local_address: String,
    pub local_port: u16,
    pub remote_address: String,
    pub remote_port: u16,
}

/// Asks whether a session's process tree holds a TCP connection.
#[derive(Debug, Clone, PartialEq, Eq)]
pub struct AcceptedSocketOwnershipRequest {
    pub expected_generation: String,
    pub connection: TcpConnectionTuple,
}

impl TcpConnectionTuple {
    /// The JSON form survives being written and read.
    pub proof fn lemma_readable(self, room: nat)
        requires
            room > 0,
        ensures
            readable(self.json(), room),
    {
        reveal_strlit("localAddress");
        reveal_strlit("localPort");
        reveal_strlit("remoteAddress");
        reveal_strlit("remotePort");
        assert("localAddress"@.len() == 12);
        assert("localPort"@.len() == 9);
        assert("remoteAddress"@.len() == 13);
        assert("remotePort"@.len() == 10);
        lemma_flat_object_is_readable(self.json()->Object_0, room);
    }

    /// The JSON form.
    pub open spec fn json(self) -> JsonView {
        JsonView::Object(
            seq![
                ("localAddress"@, JsonView::Str(self.local_address@)),
                ("localPort"@, JsonView::Int(self.local_port as int)),
                ("remoteAddress"@, JsonView::Str(self.remote_address@)),
                ("remotePort"@, JsonView::Int(self.remote_port as int)),
            ],
        )
    }

    /// Build the JSON form.
    pub fn to_json(&self) -> (j: Json)
        ensures
            j@ == self.json(),
    {
        proof {
            reveal_strlit("localAddress");
            reveal_strlit("localPort");
            reveal_strlit("remoteAddress");
            reveal_strlit("remotePort");
            assert("localAddress"@.len() == 12);
            assert("localPort"@.len() == 9);
            assert("remoteAddress"@.len() == 13);
            assert("remotePort"@.len() == 10);
        }
        let mut m = JsonMap::new();
        m.add_member("localAddress", Json::Str(self.local_address.clone()));
        m.add_member("localPort", Json::PosInt(self.local_port as u64));
        m.add_member("remoteAddress", Json::Str(self.remote_address.clone()));
        m.add_member("remotePort", Json::PosInt(self.remote_port as u64));
        assert(m@ =~= self.json()->Object_0);
        Json::Object(m)
    }
}

impl AcceptedSocketOwnershipRequest {
    /// The JSON form survives being written and read.
    pub proof fn lemma_readable(self)
        ensures
            readable(self.json(), max_nesting()),
    {
        reveal_strlit("expectedGeneration");
        reveal_strlit("connection");
        assert("expectedGeneration"@.len() == 18);
        assert("connection"@.len() == 10);
        self.connection.lemma_readable((max_nesting() - 1) as nat);
        let m = self.json()->Object_0;
        assert(m[1].1 == self.connection.json());
        assert forall|i: int| 0 <= i < m.len() implies readable(
            (#[trigger] m[i]).1,
            (max_nesting() - 1) as nat,
        ) by {
            if i == 0 {
                assert(m[i].1 is Str);
            }
        }
    }

    /// Whether every part is filled in.
    pub open spec fn valid(self) -> bool {
        self.expected_generation@.len() > 0 && self.connection.local_address@.len() > 0
            && self.connection.local_port > 0 && self.connection.remote_address@.len() > 0
            && self.connection.remote_port > 0
    }

    /// Decides whether every part is filled in.
    pub fn validate(&self) -> (r: bool)
        ensures
            r == self.valid(),
    {
        !self.expected_generation.as_str().is_empty()
            && !self.connection.local_address.as_str().is_empty() && self.connection.local_port > 0
            && !self.connection.remote_address.as_str().is_empty()
            && self.connection.remote_port > 0
    }

    /// The JSON form.
    pub open spec fn json(self) -> JsonView {
        JsonView::Object(
            seq![
                ("expectedGeneration"@, JsonView::Str(self.expected_generation@)),
                ("connection"@, self.connection.json()),
            ],
        )
    }

    /// Build the JSON form.
    pub fn to_json(&self) -> (j: Json)
        ensures
            j@ == self.json(),
    {
        proof {
            reveal_strlit("expectedGeneration");
            reveal_strlit("connection");
            assert("expectedGeneration"@.len() == 18);
            assert("connection"@.len() == 10);
        }
        let mut m = JsonMap::new();
        m.add_member("expectedGeneration", Json::Str(self.expected_generation.clone()));
        m.add_member("connection", self.connection.to_json());
        assert(m@ =~= self.json()->Object_0);
        Json::Object(m)
    }
}

/// The answer to an `AcceptedSocketOwnershipRequest`.
#[derive(Debug, Clone, PartialEq, Eq)]
pub enum AcceptedSocketOwnershipResult {
    Owned { pid: i32 },
    NotOwned,
    Unavailable { reason: String },
}

/// An object of one tag.
pub open spec fn tag_only(tag: Seq<char>) -> JsonView {
    JsonView::Object(seq![("_tag"@, JsonView::Str(tag))])
}

/// An object of a tag and one more member.
pub open spec fn tagged(tag: Seq<char>, key: Seq<char>, value: JsonView) -> JsonView {
    JsonView::Object(seq![("_tag"@, JsonView::Str(tag)), (key, value)])
}

fn tag_object(tag: &str) -> (j: Json)
    ensures
        j@ == tag_only(tag@),
{
    let mut m = JsonMap::new();
    m.add_member("_tag", Json::Str(tag.to_owned()));
    assert(m@ =~= tag_only(tag@)->Object_0);
    Json::Object(m)
}

fn tagged_object(tag: &str, key: &str, value: Json) -> (j: Json)
    requires
        key@ != "_tag"@,
    ensures
        j@ == tagged(tag@, key@, value@),
{
    let ghost v = value@;
    let mut m = JsonMap::new();
    m.add_member("_tag", Json::Str(tag.to_owned()));
    m.add_member(key, value);
    assert(m@ =~= tagged(tag@, key@, v)->Object_0);
    Json::Object(m)
}

/// An integer as a JSON value.
pub fn int_json(n: i32) -> (j: Json)
    ensures
        j@ == JsonView::Int(n as int),
{
    if n < 0 {
        Json::NegInt(n as i64)
    } else {
        Json::PosInt(n as u64)
    }
}

impl AcceptedSocketOwnershipResult {
    /// The JSON form survives being written and read.
    pub proof fn lemma_readable(self)
        ensures
            readable(self.json(), max_nesting()),
    {
        reveal_strlit("_tag");
        reveal_strlit("pid");
        reveal_strlit("reason");
        assert("_tag"@.len() == 4);
        assert("pid"@.len() == 3);
        assert("reason"@.len() == 6);
        lemma_flat_object_is_readable(self.json()->Object_0, max_nesting());
    }

    /// The JSON form.
    pub open spec fn json(self) -> JsonView {
        match self {
            AcceptedSocketOwnershipResult::Owned { pid } => tagged(
                "Owned"@,
                "pid"@,
                JsonView::Int(pid as int),
            ),
            AcceptedSocketOwnershipResult::NotOwned => tag_only("NotOwned"@),
            AcceptedSocketOwnershipResult::Unavailable { reason } => tagged(
                "Unavailable"@,
                "reason"@,
                JsonView::Str(reason@),
            ),
        }
    }

    /// Build the JSON form.
    pub fn to_json(&self) -> (j: Json)
        ensures
            j@ == self.json(),
    {
        proof {
            reveal_strlit("_tag");
            reveal_strlit("pid");
            reveal_strlit("reason");
            assert("_tag"@.len() == 4);
            assert("pid"@.len() == 3);
            assert("reason"@.len() == 6);
        }
        match self {
            AcceptedSocketOwnershipResult::Owned { pid } => tagged_object(
                "Owned",
                "pid",
                int_json(*pid),
            ),
            AcceptedSocketOwnershipResult::NotOwned => tag_object("NotOwned"),
            AcceptedSocketOwnershipResult::Unavailable { reason } => tagged_object(
                "Unavailable",
                "reason",
                Json::Str(reason.clone()),
            ),
        }
    }
}

/// Asks to set one tag of a session, if the session and the tag are as
/// expected.
#[derive(Debug, Clone, PartialEq, Eq)]
pub struct LifecycleCompareAndSetRequest {
    pub expected_generation: String,
    pub tag: String,
    pub expected_value: String,
    pub value: String,
}

impl LifecycleCompareAndSetRequest {
    /// The JSON form survives being written and read.
    pub proof fn lemma_readable(self)
        ensures
            readable(self.json(), max_nesting()),
    {
        reveal_strlit("expectedGeneration");
        reveal_strlit("tag");
        reveal_strlit("expectedValue");
        reveal_strlit("value");
        assert("expectedGeneration"@.len() == 18);
        assert("tag"@.len() == 3);
        assert("expectedValue"@.len() == 13);
        assert("value"@.len() == 5);
        lemma_flat_object_is_readable(self.json()->Object_0, max_nesting());
    }

    /// Whether the generation and the tag are filled in.
    pub open spec fn valid(self) -> bool {
        self.expected_generation@.len() > 0 && self.tag@.len() > 0
    }

    /// Decides whether the generation and the tag are filled in.
    pub fn validate(&self) -> (r: bool)
        ensures
            r == self.valid(),
    {
        !self.expected_generation.as_str().is_empty() && !self.tag.as_str().is_empty()
    }

    /// The JSON form.
    pub open spec fn json(self) -> JsonView {
        JsonView::Object(
            seq![
                ("expectedGeneration"@, JsonView::Str(self.expected_generation@)),
                ("tag"@, JsonView::Str(self.tag@)),
                ("expectedValue"@, JsonView::Str(self.expected_value@)),
                ("value"@, JsonView::Str(self.value@)),
            ],
        )
    }

    /// Build the JSON form.
    pub fn to_json(&self) -> (j: Json)
        ensures
            j@ == self.json(),
    {
        proof {
            reveal_strlit("expectedGeneration");
            reveal_strlit("tag");
            reveal_strlit("expectedValue");
            reveal_strlit("value");
            assert("expectedGeneration"@.len() == 18);
            assert("tag"@.len() == 3);
            assert("expectedValue"@.len() == 13);
            assert("value"@.len() == 5);
        }
        let mut m = JsonMap::new();
        m.add_member("expectedGeneration", Json::Str(self.expected_generation.clone()));
        m.add_member("tag", Json::Str(self.tag.clone()));
        m.add_member("expectedValue", Json::Str(self.expected_value.clone()));
        m.add_member("value", Json::Str(self.value.clone()));
        assert(m@ =~= self.json()->Object_0);
        Json::Object(m)
    }
}

/// The answer to a `LifecycleCompareAndSetRequest`.
#[allow(inconsistent_fields)]
#[derive(Debug, Clone, PartialEq, Eq)]
pub enum LifecycleCompareAndSetResult {
    Changed { value: String },
    Unchanged { value: String },
    ValueMismatch { value: Option<String> },
    Missing,
    GenerationMismatch,
    Busy,
    DeadlineExpired { value: String },
    Terminal { value: String },
    InvalidRequest { reason: String },
}

impl LifecycleCompareAndSetResult {
    /// The JSON form survives being written and read.
    pub proof fn lemma_readable(self)
        ensures
            readable(self.json(), max_nesting()),
    {
        reveal_strlit("_tag");
        reveal_strlit("value");
        reveal_strlit("reason");
        assert("_tag"@.len() == 4);
        assert("value"@.len() == 5);
        assert("reason"@.len() == 6);
        lemma_flat_object_is_readable(self.json()->Object_0, max_nesting());
    }

    /// The JSON form. A mismatch without a value leaves the value out.
    pub open spec fn json(self) -> JsonView {
        match self {
            LifecycleCompareAndSetResult::Changed { value } => tagged(
                "Changed"@,
                "value"@,
                JsonView::Str(value@),
            ),
            LifecycleCompareAndSetResult::Unchanged { value } => tagged(
                "Unchanged"@,
                "value"@,
                JsonView::Str(value@),
            ),
            LifecycleCompareAndSetResult::ValueMismatch { value } => match value {
                Some(v) => tagged("ValueMismatch"@, "value"@, JsonView::Str(v@)),
                None => tag_only("ValueMismatch"@),
            },
            LifecycleCompareAndSetResult::Missing => tag_only("Missing"@),
            LifecycleCompareAndSetResult::GenerationMismatch => tag_only("GenerationMismatch"@),
            LifecycleCompareAndSetResult::Busy => tag_only("Busy"@),
            LifecycleCompareAndSetResult::DeadlineExpired { value } => tagged(
                "DeadlineExpired"@,
                "value"@,
                JsonView::Str(value@),
            ),
            LifecycleCompareAndSetResult::Terminal { value } => tagged(
                "Terminal"@,
                "value"@,
                JsonView::Str(value@),
            ),
            LifecycleCompareAndSetResult::InvalidRequest { reason } => tagged(
                "InvalidRequest"@,
                "reason"@,
                JsonView::Str(reason@),
            ),
        }
    }

    /// Build the JSON form.
    pub fn to_json(&self) -> (j: Json)
        ensures
            j@ == self.json(),
    {
        proof {
            reveal_strlit("_tag");
            reveal_strlit("value");
            reveal_strlit("reason");
            assert("_tag"@.len() == 4);
            assert("value"@.len() == 5);
            assert("reason"@.len() == 6);
        }
        match self {
            LifecycleCompareAndSetResult::Changed { value } => tagged_object(
                "Changed",
                "value",
                Json::Str(value.clone()),
            ),
            LifecycleCompareAndSetResult::Unchanged { value } => tagged_object(
                "Unchanged",
                "value",
                Json::Str(value.clone()),
            ),
            LifecycleCompareAndSetResult::ValueMismatch { value } => match value {
                Some(v) => tagged_object("ValueMismatch", "value", Json::Str(v.clone())),
                None => tag_object("ValueMismatch"),
            },
            LifecycleCompareAndSetResult::Missing => tag_object("Missing"),
            LifecycleCompareAndSetResult::GenerationMismatch => tag_object("GenerationMismatch"),
            LifecycleCompareAndSetResult::Busy => tag_object("Busy"),
            LifecycleCompareAndSetResult::DeadlineExpired { value } => tagged_object(
                "DeadlineExpired",
                "value",
                Json::Str(value.clone()),
            ),
            LifecycleCompareAndSetResult::Terminal { value } => tagged_object(
                "Terminal",
                "value",
                Json::Str(value.clone()),
            ),
            LifecycleCompareAndSetResult::InvalidRequest { reason } => tagged_object(
                "InvalidRequest",
                "reason",
                Json::Str(reason.clone()),
            ),
        }
    }
}

fn encode_json(type_: MessageType, value: &Json) -> (r: Vec<u8>)
    ensures
        r@ == frame(type_.wire(), encode_utf8(compact(value@))),
        readable(value@, max_nesting()) ==> parsed_bytes(encode_utf8(compact(value@))) == Some(
            value@,
        ),
{
    let text = to_json_text(value);
    proof {
        encode_utf8_valid_utf8(text@);
        encode_utf8_decode_utf8(text@);
    }
    encode_packet(type_, text.as_str().as_bytes())
}

/// Encode an ownership request.
pub fn encode_accepted_socket_ownership_request(
    request: &AcceptedSocketOwnershipRequest,
) -> (r: Vec<u8>)
    ensures
        r@ == frame(8, encode_utf8(compact(request.json()))),
        parsed_bytes(encode_utf8(compact(request.json()))) == Some(request.json()),
{
    proof {
        request.lemma_readable();
    }
    encode_json(MessageType::AcceptedSocketOwnership, &request.to_json())
}

/// Encode the answer to an ownership request.
pub fn encode_accepted_socket_ownership_response(
    result: &AcceptedSocketOwnershipResult,
) -> (r: Vec<u8>)
    ensures
        r@ == frame(8, encode_utf8(compact(result.json()))),
        parsed_bytes(encode_utf8(compact(result.json()))) == Some(result.json()),
{
    proof {
        result.lemma_readable();
    }
    encode_json(MessageType::AcceptedSocketOwnership, &result.to_json())
}

/// Encode a compare-and-set request.
pub fn encode_lifecycle_compare_and_set_request(
    request: &LifecycleCompareAndSetRequest,
) -> (r: Vec<u8>)
    ensures
        r@ == frame(9, encode_utf8(compact(request.json()))),
        parsed_bytes(encode_utf8(compact(request.json()))) == Some(request.json()),
{
    proof {
        request.lemma_readable();
    }
    encode_json(MessageType::LifecycleCas, &request.to_json())
}

/// Encode the answer to a compare-and-set request.
pub fn encode_lifecycle_compare_and_set_response(
    result: &LifecycleCompareAndSetResult,
) -> (r: Vec<u8>)
    ensures
        r@ == frame(9, encode_utf8(compact(result.json()))),
        parsed_bytes(encode_utf8(compact(result.json()))) == Some(result.json()),
{
    proof {
        result.lemma_readable();
    }
    encode_json(MessageType::LifecycleCas, &result.to_json())
}

/// The request that a payload was read as, if it was readable and is valid.
pub fn decode_accepted_socket_ownership_request(
    read: Option<AcceptedSocketOwnershipRequest>,
) -> (r: Option<AcceptedSocketOwnershipRequest>)
    ensures
        r == (match read {
            Some(request) => if request.valid() {
                Some(request)
            } else {
                None
            },
            None => None,
        }),
{
    match read {
        Some(request) => {
            if request.validate() {
                Some(request)
            } else {
                None
            }
        },
        None => None,
    }
}

/// The request that a payload was read as, if it was readable and is valid.
pub fn decode_lifecycle_compare_and_set_request(
    read: Option<LifecycleCompareAndSetRequest>,
) -> (r: Option<LifecycleCompareAndSetRequest>)
    ensures
        r == (match read {
            Some(request) => if request.valid() {
                Some(request)
            } else {
                None
            },
            None => None,
        }),
{
    match read {
        Some(request) => {
            if request.validate() {
                Some(request)
            } else {
                None
            }
        },
        None => None,
    }
}

/// An attached client's identity. Older attach packets do not contain either
/// identity field, so both can be unknown.
#[derive(Debug, Clone, PartialEq, Eq)]
pub struct AttachedClient {
    pub pid: Option<u32>,
    pub tty: Option<String>,
    pub attached_at: String,
}

/// Who a client says it is, behind the size of an attach.
#[derive(Debug, Clone, PartialEq, Eq)]
pub struct AttachIdentity {
    pub pid: u32,
    pub tty: Option<String>,
}

/// The JSON form of an identity; a client without a terminal writes `null`.
pub open spec fn identity_json(pid: u32, tty: Option<Seq<char>>) -> JsonView {
    JsonView::Object(
        seq![
            ("pid"@, JsonView::Int(pid as int)),
            (
                "tty"@,
                match tty {
                    Some(t) => JsonView::Str(t),
                    None => JsonView::Null,
                },
            ),
        ],
    )
}

/// The view of an optional terminal name.
pub open spec fn tty_view(tty: Option<&str>) -> Option<Seq<char>> {
    match tty {
        Some(t) => Some(t@),
        None => None,
    }
}

/// Encode an attach with an identity. The size and an empty cell size come
/// first, so that a daemon which knows no identity reads the size as ever.
pub fn encode_attach_with_identity(
    rows: u16,
    cols: u16,
    pid: u32,
    tty: Option<&str>,
) -> (r: Vec<u8>)
    ensures
        r@ == frame(
            1,
            size_cell_bytes(rows, cols, 0, 0) + encode_utf8(
                compact(identity_json(pid, tty_view(tty))),
            ),
        ),
        parsed_bytes(encode_utf8(compact(identity_json(pid, tty_view(tty))))) == Some(
            identity_json(pid, tty_view(tty)),
        ),
{
    proof {
        reveal_strlit("pid");
        reveal_strlit("tty");
        assert("pid"@[0] != "tty"@[0]);
        lemma_flat_object_is_readable(
            identity_json(pid, tty_view(tty))->Object_0,
            max_nesting(),
        );
    }
    let mut m = JsonMap::new();
    m.add_member("pid", Json::PosInt(pid as u64));
    let tty_json = match tty {
        Some(t) => Json::Str(t.to_owned()),
        None => Json::Null,
    };
    m.add_member("tty", tty_json);
    assert(m@ =~= identity_json(pid, tty_view(tty))->Object_0);
    let text = to_json_text(&Json::Object(m));
    proof {
        encode_utf8_valid_utf8(text@);
        encode_utf8_decode_utf8(text@);
    }
    let mut payload = size_cell_payload(rows, cols, 0, 0);
    payload.extend_from_slice(text.as_str().as_bytes());
    encode_packet(MessageType::Attach, payload.as_slice())
}

/// The bytes of an attach payload that hold the identity: what follows the
/// first eight.
pub fn attach_identity_suffix(payload: &[u8]) -> (r: Option<Vec<u8>>)
    ensures
        match r {
            Some(s) => payload@.len() >= 8 && s@ == payload@.skip(8),
            None => payload@.len() < 8,
        },
{
    if payload.len() < 8 {
        return None;
    }
    let r = copy_range(payload, 8, payload.len());
    assert(r@ =~= payload@.skip(8));
    Some(r)
}

/// The process and terminal of an identity that was read from an attach
/// payload; nothing where none was readable.
pub fn decode_attach_identity(read: Option<AttachIdentity>) -> (r: (Option<u32>, Option<String>))
    ensures
        match read {
            Some(identity) => r.0 == Some(identity.pid) && r.1 == identity.tty,
            None => r.0 is None && r.1 is None,
        },
{
    match read {
        Some(identity) => (Some(identity.pid), identity.tty),
        None => (None, None),
    }
}

/// Every message type has its byte: the eleven known types count from 0, and
/// any other byte is kept as it is.
pub proof fn law_wire_bytes(b: u8)
    ensures
        MessageType::Data.wire() == 0 && MessageType::of_wire(0) == MessageType::Data,
        MessageType::Attach.wire() == 1 && MessageType::of_wire(1) == MessageType::Attach,
        MessageType::Detach.wire() == 2 && MessageType::of_wire(2) == MessageType::Detach,
        MessageType::Resize.wire() == 3 && MessageType::of_wire(3) == MessageType::Resize,
        MessageType::Exit.wire() == 4 && MessageType::of_wire(4) == MessageType::Exit,
        MessageType::Screen.wire() == 5 && MessageType::of_wire(5) == MessageType::Screen,
        MessageType::Peek.wire() == 6 && MessageType::of_wire(6) == MessageType::Peek,
        MessageType::Status.wire() == 7 && MessageType::of_wire(7) == MessageType::Status,
        MessageType::AcceptedSocketOwnership.wire() == 8,
        MessageType::of_wire(8) == MessageType::AcceptedSocketOwnership,
        MessageType::LifecycleCas.wire() == 9,
        MessageType::of_wire(9) == MessageType::LifecycleCas,
        MessageType::Geometry.wire() == 10 && MessageType::of_wire(10) == MessageType::Geometry,
        MessageType::Unknown(b).wire() == b,
        b > 10 ==> MessageType::of_wire(b) == MessageType::Unknown(b),
{
}

/// A frame is the type byte, the payload's length in four bytes with the high
/// byte first, and the payload unchanged.
pub proof fn law_layout_of_a_frame(t: u8, payload: Seq<u8>)
    requires
        payload.len() < 0x1_0000_0000,
    ensures
        ({
            let f = frame(t, payload);
            &&& f.len() == 5 + payload.len()
            &&& f[0] == t
            &&& f[1] * 16777216 + f[2] * 65536 + f[3] * 256 + f[4] == payload.len()
            &&& forall|i: int| 0 <= i < payload.len() ==> #[trigger] f[5 + i] == payload[i]
        }),
{
    let n = payload.len() as int;
    assert(n == (n / 16777216) * 16777216 + (n / 65536 % 256) * 65536 + (n / 256 % 256) * 256 + n
        % 256);
}

/// Numbers on the wire have their high byte first.
pub proof fn law_numbers_on_the_wire(a: u8, b: u8, c: u8, d: u8, tail: Seq<u8>)
    ensures
        be16(a * 256 + b) == seq![a, b],
        be32(a * 16777216 + b * 65536 + c * 256 + d) == seq![a, b, c, d],
        read16(seq![a, b] + tail, 0) == a * 256 + b,
        read32(seq![a, b, c, d] + tail, 0) == a * 16777216 + b * 65536 + c * 256 + d,
{
    lemma_fundamental_div_mod_converse(a * 256 + b, 256, a as int, b as int);
    assert(be16(a * 256 + b) =~= seq![a, b]);
    lemma_be32_of_bytes(a, b, c, d);
}

/// A size is rows and columns in two bytes each, the rows first; the size of a
/// cell, width first, may stand behind it.
pub proof fn law_layout_of_a_size(rows: u16, cols: u16, width: u16, height: u16)
    ensures
        ({
            let s = size_bytes(rows, cols);
            let c = size_cell_bytes(rows, cols, width, height);
            &&& s.len() == 4 && s[0] * 256 + s[1] == rows && s[2] * 256 + s[3] == cols
            &&& c.len() == 8 && c.subrange(0, 4) == s
            &&& c[4] * 256 + c[5] == width && c[6] * 256 + c[7] == height
        }),
{
    assert(size_cell_bytes(rows, cols, width, height).subrange(0, 4) =~= size_bytes(rows, cols));
}

/// The four bytes of an exit code are the code's two's complement, and the flag
/// byte of a peek has bit 0 for plain text and bit 1 for the scrollback.
pub proof fn law_exit_and_peek_bytes(code: i32, n: int)
    requires
        0 <= n < 0x1_0000_0000,
    ensures
        code >= 0 ==> unsigned(code) == code,
        code < 0 ==> unsigned(code) == 0x1_0000_0000 + code,
        n < 0x8000_0000 ==> signed(n) == n,
        n >= 0x8000_0000 ==> signed(n) == n - 0x1_0000_0000,
        peek_flags(false, false) == 0,
        peek_flags(true, false) == 1,
        peek_flags(false, true) == 2,
        peek_flags(true, true) == 3,
{
}

/// A length is refused as soon as the header declares more than 32 MiB; a frame
/// is complete when the header and as many bytes as it declares are there.
pub proof fn law_when_a_frame_is_complete(b: u8, w: u8, x: u8, y: u8, z: u8, rest: Seq<u8>)
    ensures
        ({
            let buf = seq![b, w, x, y, z] + rest;
            let n = w * 16777216 + x * 65536 + y * 256 + z;
            &&& declared(buf) == n
            &&& refused(buf) <==> n > 33554432
            &&& complete(buf) <==> n <= 33554432 && rest.len() >= n
            &&& complete(buf) ==> front(buf).type_ == MessageType::of_wire(b) && front(buf).payload
                == rest.take(n) && behind(buf) == rest.skip(n)
        }),
        rest.len() < 5 ==> !complete(rest) && !refused(rest),
{
    let buf = seq![b, w, x, y, z] + rest;
    let n = w * 16777216 + x * 65536 + y * 256 + z;
    assert(buf[0] == b && buf[1] == w && buf[2] == x && buf[3] == y && buf[4] == z);
    assert(declared(buf) == n);
    if complete(buf) {
        assert(buf.subrange(5, 5 + n) =~= rest.take(n));
        assert(buf.skip(5 + n) =~= rest.skip(n));
    }
}

/// The frames in a buffer are read one after the other, and what is left begins
/// with no complete frame.
pub proof fn law_frames_are_read_in_order(buf: Seq<u8>)
    ensures
        complete(buf) ==> packets(buf).len() > 0 && packets(buf)[0] == front(buf) && packets(
            buf,
        ).skip(1) == packets(behind(buf)) && leftover(buf) == leftover(behind(buf)),
        !complete(buf) ==> packets(buf).len() == 0 && leftover(buf) == buf,
        !complete(leftover(buf)),
    decreases buf.len(),
{
    if complete(buf) {
        law_frames_are_read_in_order(behind(buf));
        assert(packets(buf).skip(1) =~= packets(behind(buf)));
    }
}

/// Two packets with the same content are the same in type and payload.
pub proof fn law_packets_are_told_apart(a: Packet, b: Packet, v: Seq<Packet>)
    ensures
        a@ == b@ ==> a.type_ == b.type_ && a.payload@ == b.payload@,
        packet_views(v).len() == v.len(),
        forall|i: int|
            0 <= i < v.len() ==> (#[trigger] packet_views(v)[i]).type_ == v[i].type_
                && packet_views(v)[i].payload == v[i].payload@,
{
}

/// The message about a packet that is too large names its length and the
/// limit of 33554432 bytes.
pub proof fn law_too_large_message(n: nat)
    ensures
        too_large_text(n) == "Packet length "@ + dec(n) + " exceeds maximum "@ + dec(33554432),
{
}

/// What an ownership request says, and when it is well formed: no text is
/// empty and no port is 0.
pub proof fn law_ownership_request(r: AcceptedSocketOwnershipRequest)
    ensures
        ({
            let m = r.json()->Object_0;
            let c = m[1].1->Object_0;
            &&& r.json() is Object && m.len() == 2
            &&& m[0].0 == "expectedGeneration"@ && m[0].1 == JsonView::Str(r.expected_generation@)
            &&& m[1].0 == "connection"@ && m[1].1 is Object && c.len() == 4
            &&& c[0].0 == "localAddress"@ && c[0].1 == JsonView::Str(r.connection.local_address@)
            &&& c[1].0 == "localPort"@ && c[1].1 == JsonView::Int(r.connection.local_port as int)
            &&& c[2].0 == "remoteAddress"@ && c[2].1 == JsonView::Str(r.connection.remote_address@)
            &&& c[3].0 == "remotePort"@ && c[3].1 == JsonView::Int(r.connection.remote_port as int)
        }),
        !r.valid() <==> r.expected_generation@.len() == 0 || r.connection.local_address@.len() == 0
            || r.connection.remote_address@.len() == 0 || r.connection.local_port == 0
            || r.connection.remote_port == 0,
{
}

/// What a compare-and-set request says, and when it is well formed: the
/// generation and the tag are not empty, the values may be.
pub proof fn law_compare_and_set_request(r: LifecycleCompareAndSetRequest)
    ensures
        ({
            let m = r.json()->Object_0;
            &&& r.json() is Object && m.len() == 4
            &&& m[0].0 == "expectedGeneration"@ && m[0].1 == JsonView::Str(r.expected_generation@)
            &&& m[1].0 == "tag"@ && m[1].1 == JsonView::Str(r.tag@)
            &&& m[2].0 == "expectedValue"@ && m[2].1 == JsonView::Str(r.expected_value@)
            &&& m[3].0 == "value"@ && m[3].1 == JsonView::Str(r.value@)
        }),
        !r.valid() <==> r.expected_generation@.len() == 0 || r.tag@.len() == 0,
{
}

/// What the answers say: each has its tag, and its value where it has one.
pub proof fn law_answers(pid: i32, s: String)
    ensures
        ({
            let o = |tag: Seq<char>, key: Seq<char>, v: JsonView|
                JsonView::Object(seq![("_tag"@, JsonView::Str(tag)), (key, v)]);
            let t = |tag: Seq<char>| JsonView::Object(seq![("_tag"@, JsonView::Str(tag))]);
            let w = JsonView::Str(s@);
            &&& AcceptedSocketOwnershipResult::Owned { pid }.json() == o(
                "Owned"@,
                "pid"@,
                JsonView::Int(pid as int),
            )
            &&& AcceptedSocketOwnershipResult::NotOwned.json() == t("NotOwned"@)
            &&& (AcceptedSocketOwnershipResult::Unavailable { reason: s }).json() == o(
                "Unavailable"@,
                "reason"@,
                w,
            )
            &&& (LifecycleCompareAndSetResult::Changed { value: s }).json() == o(
                "Changed"@,
                "value"@,
                w,
            )
            &&& (LifecycleCompareAndSetResult::Unchanged { value: s }).json() == o(
                "Unchanged"@,
                "value"@,
                w,
            )
            &&& (LifecycleCompareAndSetResult::ValueMismatch { value: Some(s) }).json() == o(
                "ValueMismatch"@,
                "value"@,
                w,
            )
            &&& (LifecycleCompareAndSetResult::ValueMismatch { value: None }).json() == t(
                "ValueMismatch"@,
            )
            &&& LifecycleCompareAndSetResult::Missing.json() == t("Missing"@)
            &&& LifecycleCompareAndSetResult::GenerationMismatch.json() == t("GenerationMismatch"@)
            &&& LifecycleCompareAndSetResult::Busy.json() == t("Busy"@)
            &&& (LifecycleCompareAndSetResult::DeadlineExpired { value: s }).json() == o(
                "DeadlineExpired"@,
                "value"@,
                w,
            )
            &&& (LifecycleCompareAndSetResult::Terminal { value: s }).json() == o(
                "Terminal"@,
                "value"@,
                w,
            )
            &&& (LifecycleCompareAndSetResult::InvalidRequest { reason: s }).json() == o(
                "InvalidRequest"@,
                "reason"@,
                w,
            )
        }),
{
}

/// An attach names the client by its process and, where there is one, its
/// terminal.
pub proof fn law_attach_identity(pid: u32, tty: &str)
    ensures
        ({
            let named = identity_json(pid, tty_view(Some(tty)));
            let bare = identity_json(pid, tty_view(None));
            &&& named is Object && bare is Object
            &&& named->Object_0 == seq![
                ("pid"@, JsonView::Int(pid as int)),
                ("tty"@, JsonView::Str(tty@)),
            ]
            &&& bare->Object_0 == seq![
                ("pid"@, JsonView::Int(pid as int)),
                ("tty"@, JsonView::Null),
            ]
        }),
{
}

} // verus!
