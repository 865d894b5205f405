//! Peeking at a session: one screen, following it, and waiting for a text.

use super::tty::{normalize_detach_key, plain_keys, DETACH_KEY};
use super::{
    around, copy_bytes, dropping_connection_line, dropping_text, exit_code_of, map_io_error, mapped,
    reset, reset_text, ClientError, ErrorView, GoneSet, SocketRead,
};
use crate::protocol::{
    declared, decode_exit, leftover, packet_views, packets, refused, too_large_text, MessageType,
    PacketReader, PacketView,
};
use crate::registry::metadata::SessionMetadata;
use crate::text::{
    char_is_digit, dec_int, has_at, i64_string, is_digit, join, joined, lemma_views_push,
    matches_at, text_of, to_chars, utf8_lossy, views,
};
use vstd::prelude::*;
use vstd::utf8::{
    decode_utf8, decode_utf8_encode_utf8, encode_utf8, is_ascii_chars, is_ascii_chars_encode_utf8,
    valid_utf8,
};

verus! {

/// How a peek ended.
#[derive(Debug, Clone, Copy, PartialEq, Eq, Structural)]
pub enum PeekOutcome {
    /// The screen was written.
    Printed,
    /// The session exited.
    Exited(i32),
    /// The detach key was pressed while following.
    Detached,
}

/// The position of the first packet that ends a peek, or the length.
pub open spec fn first_ending(v: Seq<PacketView>, from: int) -> int
    decreases v.len() - from,
{
    if 0 <= from < v.len() && !(v[from].type_ is Screen || v[from].type_ is Exit) {
        first_ending(v, from + 1)
    } else {
        from
    }
}

/// What a peek does after a read.
#[derive(Debug)]
pub enum PeekStep {
    /// Read on.
    More,
    /// Write this and end.
    Done(Vec<u8>, PeekOutcome),
    /// Print this line and fail.
    Failed(String, ClientError),
}

/// The output for the packet that ends a peek.
pub open spec fn peek_output(p: PacketView, plain: bool) -> Seq<u8> {
    let end = if plain {
        Seq::<u8>::empty()
    } else {
        encode_utf8(reset_text())
    };
    if p.type_ is Screen {
        p.payload + end + encode_utf8("\n"@)
    } else {
        end
    }
}

/// One-shot peek: the screen payload, then the terminal reset unless the peek
/// is plain, then a line end. A close before any screen means that the session
/// is not there.
pub fn peek(
    reader: &mut PacketReader,
    read: SocketRead,
    name: &str,
    remote: bool,
    plain: bool,
) -> (r: PeekStep)
    ensures
        match read {
            SocketRead::Closed => r matches PeekStep::Failed(line, e) && line@.len() == 0 && e@
                == ErrorView::NotReachable(name@, remote),
            SocketRead::Failed(err) => r matches PeekStep::Failed(line, e) && line@.len() == 0
                && e@ == mapped(name@, remote, GoneSet::Broad, "read"@, None, err),
            SocketRead::Bytes(b) => {
                let all = old(reader).pending() + b@;
                let v = packets(all);
                let i = first_ending(v, 0);
                if refused(leftover(all)) {
                    r matches PeekStep::Failed(line, e) && line@ == dropping_text(
                        too_large_text(declared(leftover(all)) as nat),
                    ) && e@ == ErrorView::NotReachable(name@, remote)
                } else if i >= v.len() {
                    r is More && final(reader).pending() == leftover(all)
                } else {
                    r matches PeekStep::Done(out, outcome) && out@ == peek_output(v[i], plain)
                        && outcome == (if v[i].type_ is Screen {
                        PeekOutcome::Printed
                    } else {
                        PeekOutcome::Exited(exit_code_of(v[i].payload) as i32)
                    })
                }
            },
        },
{
    let bytes = match read {
        SocketRead::Closed => {
            return PeekStep::Failed(
                String::new(),
                ClientError::NotReachable { name: name.to_owned(), remote },
            );
        },
        SocketRead::Failed(err) => {
            return PeekStep::Failed(
                String::new(),
                map_io_error(name, remote, GoneSet::Broad, "read", None, &err),
            );
        },
        SocketRead::Bytes(b) => b,
    };
    let list = match reader.feed(bytes.as_slice()) {
        Ok(v) => v,
        Err(e) => {
            let text = e.message();
            return PeekStep::Failed(
                dropping_connection_line(text.as_str()),
                ClientError::NotReachable { name: name.to_owned(), remote },
            );
        },
    };
    let ghost v = packet_views(list@);
    let mut i: usize = 0;
    while i < list.len()
        invariant
            i <= list@.len(),
            v == packet_views(list@),
            first_ending(v, i as int) == first_ending(v, 0),
        ensures
            i <= list@.len(),
            i == first_ending(v, 0),
            i < list@.len() ==> v[i as int].type_ is Screen || v[i as int].type_ is Exit,
        decreases list.len() - i,
    {
        assert(v[i as int].type_ == list@[i as int].type_);
        match list[i].type_ {
            MessageType::Screen | MessageType::Exit => {
                break;
            },
            _ => {},
        }
        i += 1;
    }
    if i == list.len() {
        return PeekStep::More;
    }
    let p = &list[i];
    assert(v[i as int] == p@);
    let mut out: Vec<u8> = Vec::new();
    if p.type_ == MessageType::Screen {
        out = copy_bytes(p.payload.as_slice());
    }
    if !plain {
        let end = reset();
        out.extend_from_slice(end.as_str().as_bytes());
    }
    if p.type_ == MessageType::Screen {
        out.extend_from_slice("\n".as_bytes());
        assert(out@ =~= peek_output(p@, plain));
        PeekStep::Done(out, PeekOutcome::Printed)
    } else {
        assert(out@ =~= peek_output(p@, plain));
        PeekStep::Done(out, PeekOutcome::Exited(decode_exit(p.payload.as_slice())))
    }
}

// ---- following -----------------------------------------------------------

/// What following a session does after a read.
#[derive(Debug)]
pub enum FollowStep {
    /// Write this and read on.
    More(Vec<u8>),
    /// Write this and end.
    Ended(Vec<u8>, PeekOutcome),
    /// Print this line and end.
    Dropped(String, PeekOutcome),
    /// Fail.
    Failed(ClientError),
}

/// The position of the first exit packet, or the length.
pub open spec fn first_exit(v: Seq<PacketView>, from: int) -> int
    decreases v.len() - from,
{
    if 0 <= from < v.len() && !(v[from].type_ is Exit) {
        first_exit(v, from + 1)
    } else {
        from
    }
}

/// What a packet adds to the output: screens as they stand, data without
/// escape sequences where the output is plain.
pub open spec fn shown_packet(p: PacketView, plain: bool) -> Seq<u8> {
    if p.type_ is Screen {
        p.payload
    } else if p.type_ is Data {
        if plain {
            encode_utf8(stripped(text_of(p.payload)))
        } else {
            p.payload
        }
    } else {
        Seq::empty()
    }
}

/// The output of packets.
pub open spec fn shown_packets(v: Seq<PacketView>, plain: bool) -> Seq<u8>
    decreases v.len(),
{
    if v.len() == 0 {
        Seq::empty()
    } else {
        shown_packets(v.drop_last(), plain) + shown_packet(v.last(), plain)
    }
}

/// The lines at the end of a followed session.
pub open spec fn exit_notice(name: Seq<char>, code: int, plain: bool) -> Seq<char> {
    (if plain {
        Seq::empty()
    } else {
        reset_text()
    }) + "\r\n["@ + name + " exited with code "@ + dec_int(code) + "]\r\n"@
}

fn exit_lines(name: &str, code: i32, plain: bool) -> (r: String)
    ensures
        r@ == exit_notice(name@, code as int, plain),
{
    let mut s = String::new();
    if !plain {
        s = reset();
    }
    let number = i64_string(code as i64);
    s.append("\r\n[");
    s.append(name);
    s.append(" exited with code ");
    s.append(number.as_str());
    s.append("]\r\n");
    s
}

/// Follow a session read-only, after a read from its socket. A plain close
/// ends with code 0.
pub fn follow(
    reader: &mut PacketReader,
    read: SocketRead,
    name: &str,
    remote: bool,
    plain: bool,
) -> (r: FollowStep)
    ensures
        match read {
            SocketRead::Closed => r matches FollowStep::Ended(out, outcome) && out@.len() == 0
                && outcome == PeekOutcome::Exited(0),
            SocketRead::Failed(err) => r matches FollowStep::Failed(e) && e@ == mapped(
                name@,
                remote,
                GoneSet::Broad,
                "read"@,
                None,
                err,
            ),
            SocketRead::Bytes(b) => {
                let all = old(reader).pending() + b@;
                let v = packets(all);
                let i = first_exit(v, 0);
                if refused(leftover(all)) {
                    r matches FollowStep::Dropped(line, outcome) && line@ == dropping_text(
                        too_large_text(declared(leftover(all)) as nat),
                    ) && outcome == PeekOutcome::Exited(0)
                } else if i >= v.len() {
                    r matches FollowStep::More(out) && out@ == shown_packets(v, plain)
                        && final(reader).pending() == leftover(all)
                } else {
                    r matches FollowStep::Ended(out, outcome) && out@ == shown_packets(
                        v.take(i),
                        plain,
                    ) + encode_utf8(exit_notice(name@, exit_code_of(v[i].payload), plain))
                        && outcome == PeekOutcome::Exited(exit_code_of(v[i].payload) as i32)
                }
            },
        },
{
    let bytes = match read {
        SocketRead::Closed => {
            return FollowStep::Ended(Vec::new(), PeekOutcome::Exited(0));
        },
        SocketRead::Failed(err) => {
            return FollowStep::Failed(
                map_io_error(name, remote, GoneSet::Broad, "read", None, &err),
            );
        },
        SocketRead::Bytes(b) => b,
    };
    let list = match reader.feed(bytes.as_slice()) {
        Ok(v) => v,
        Err(e) => {
            let text = e.message();
            return FollowStep::Dropped(
                dropping_connection_line(text.as_str()),
                PeekOutcome::Exited(0),
            );
        },
    };
    let ghost v = packet_views(list@);
    let mut out: Vec<u8> = Vec::new();
    let mut i: usize = 0;
    assert(v.take(0) =~= Seq::<PacketView>::empty());
    assert(out@ =~= shown_packets(v.take(0), plain));
    while i < list.len()
        invariant
            i <= list@.len(),
            v == packet_views(list@),
            v == packets(old(reader).pending() + bytes@),
            !refused(leftover(old(reader).pending() + bytes@)),
            read == SocketRead::Bytes(bytes),
            first_exit(v, i as int) == first_exit(v, 0),
            out@ == shown_packets(v.take(i as int), plain),
        decreases list.len() - i,
    {
        let p = &list[i];
        assert(v[i as int] == p@);
        assert(v.take(i + 1).drop_last() =~= v.take(i as int));
        let ghost before = out@;
        match p.type_ {
            MessageType::Screen => {
                out.extend_from_slice(p.payload.as_slice());
            },
            MessageType::Data => {
                if plain {
                    let text = utf8_lossy(p.payload.as_slice());
                    let kept = strip_ansi(text.as_str());
                    out.extend_from_slice(kept.as_str().as_bytes());
                } else {
                    out.extend_from_slice(p.payload.as_slice());
                }
            },
            MessageType::Exit => {
                let code = decode_exit(p.payload.as_slice());
                let lines = exit_lines(name, code, plain);
                out.extend_from_slice(lines.as_str().as_bytes());
                assert(out@ =~= before + encode_utf8(lines@));
                return FollowStep::Ended(out, PeekOutcome::Exited(code));
            },
            _ => {},
        }
        assert(out@ =~= before + shown_packet(p@, plain));
        i += 1;
    }
    assert(v.take(list@.len() as int) =~= v);
    FollowStep::More(out)
}

/// What is printed when the detach key ends following.
pub open spec fn detached_text() -> Seq<char> {
    reset_text() + "\r\n[detached]\r\n"@
}

/// Whether input ends following: it does when it holds the detach key. All
/// other input is ignored.
pub fn follow_input(data: &[u8]) -> (r: Option<String>)
    ensures
        match r {
            Some(text) => plain_keys(data@).contains(0x1c) && text@ == detached_text() && text@
                == reset_text() + "\r\n[detached]\r\n"@,
            None => !plain_keys(data@).contains(0x1c),
        },
{
    let keys = normalize_detach_key(data);
    let mut i: usize = 0;
    while i < keys.len()
        invariant
            i <= keys@.len(),
            keys@ == plain_keys(data@),
            forall|j: int| 0 <= j < i ==> keys@[j] != DETACH_KEY,
        decreases keys.len() - i,
    {
        if keys[i] == DETACH_KEY {
            assert(keys@.contains(DETACH_KEY)) by {
                assert(keys@[i as int] == DETACH_KEY);
            }
            let mut text = reset();
            text.append("\r\n[detached]\r\n");
            return Some(text);
        }
        i += 1;
    }
    None
}

// ---- escape sequences ----------------------------------------------------

/// Whether a character is an ASCII letter.
pub open spec fn letter(c: char) -> bool {
    ('a' <= c && c <= 'z') || ('A' <= c && c <= 'Z')
}

/// Where the digits and semicolons end.
pub open spec fn params_end(s: Seq<char>, j: int) -> int
    decreases s.len() - j,
{
    if 0 <= j < s.len() && (is_digit(s[j]) || s[j] == ';') {
        params_end(s, j + 1)
    } else {
        j
    }
}

/// The length of the control sequence that a text begins with, 0 where it
/// begins with none: `ESC [`, digits and semicolons, and a letter.
pub open spec fn csi_len(s: Seq<char>) -> int {
    if s.len() >= 2 && s[0] == '\x1b' && s[1] == '[' && params_end(s, 2) < s.len() && letter(
        s[params_end(s, 2)],
    ) {
        params_end(s, 2) + 1
    } else {
        0
    }
}

/// The text without its control sequences.
pub open spec fn stripped(s: Seq<char>) -> Seq<char>
    decreases s.len(),
{
    if s.len() == 0 {
        Seq::empty()
    } else if csi_len(s) > 0 {
        stripped(s.skip(csi_len(s)))
    } else {
        seq![s[0]] + stripped(s.skip(1))
    }
}

/// Parameters end at or behind where they begin.
proof fn lemma_params_end(s: Seq<char>, j: int)
    requires
        0 <= j <= s.len(),
    ensures
        j <= params_end(s, j) <= s.len(),
    decreases s.len() - j,
{
    if j < s.len() && (is_digit(s[j]) || s[j] == ';') {
        lemma_params_end(s, j + 1);
    }
}

/// Parameters of a tail are those of the whole.
proof fn lemma_params_shift(s: Seq<char>, i: int, j: int)
    requires
        0 <= i,
        0 <= j <= s.len() - i,
    ensures
        params_end(s.skip(i), j) + i == params_end(s, i + j),
    decreases s.len() - i - j,
{
    if j < s.len() - i {
        assert(s.skip(i)[j] == s[i + j]);
        if is_digit(s[i + j]) || s[i + j] == ';' {
            lemma_params_shift(s, i, j + 1);
        }
    }
}

/// Remove control sequences, `ESC [ … <letter>`.
pub fn strip_ansi(text: &str) -> (r: String)
    ensures
        r@ == stripped(text@),
{
    let s = to_chars(text);
    let mut out = String::new();
    let mut i: usize = 0;
    let n = s.len();
    assert(s@.skip(0) =~= s@);
    assert(out@ + stripped(s@) =~= stripped(s@));
    while i < n
        invariant
            i <= n,
            n == s@.len(),
            s@ == text@,
            out@ + stripped(s@.skip(i as int)) == stripped(text@),
        decreases n - i,
    {
        let ghost rest = s@.skip(i as int);
        let ghost before = out@;
        let mut end: usize = 0;
        if n - i >= 2 && s[i] == '\x1b' && s[i + 1] == '[' {
            let mut j: usize = i + 2;
            while j < n && (char_is_digit(s[j]) || s[j] == ';')
                invariant
                    i + 2 <= j <= n,
                    n == s@.len(),
                    params_end(s@, j as int) == params_end(s@, i + 2),
                decreases n - j,
            {
                j += 1;
            }
            proof {
                lemma_params_shift(s@, i as int, 2);
                lemma_params_end(rest, 2);
                assert(j == params_end(s@, i + 2));
                if j < n {
                    assert(rest[j - i] == s@[j as int]);
                }
            }
            if j < n {
                let c = s[j];
                if ('a' <= c && c <= 'z') || ('A' <= c && c <= 'Z') {
                    end = j + 1;
                }
            }
        }
        assert(csi_len(rest) == (if end > 0 {
            end - i
        } else {
            0
        }));
        if end > 0 {
            assert(rest.skip(end - i) =~= s@.skip(end as int));
            i = end;
        } else {
            out.push(s[i]);
            assert(rest.skip(1) =~= s@.skip(i + 1));
            assert(before + (seq![rest[0]] + stripped(rest.skip(1))) =~= out@ + stripped(
                rest.skip(1),
            ));
            i += 1;
        }
    }
    assert(out@ + stripped(s@.skip(n as int)) =~= out@);
    out
}

/// A text without an escape character stays as it is.
pub proof fn law_plain_text_is_kept(s: Seq<char>)
    requires
        !s.contains('\x1b'),
    ensures
        stripped(s) == s,
    decreases s.len(),
{
    if s.len() > 0 {
        assert(s[0] != '\x1b');
        let rest = s.skip(1);
        assert(!rest.contains('\x1b')) by {
            assert forall|i: int| 0 <= i < rest.len() implies rest[i] != '\x1b' by {
                assert(s[i + 1] != '\x1b');
            }
        }
        law_plain_text_is_kept(rest);
        assert(seq![s[0]] + rest =~= s);
    } else {
        assert(stripped(s) =~= s);
    }
}

// ---- waiting for a text --------------------------------------------------

/// The time between two looks at the screen, in milliseconds.
pub const PEEK_WAIT_INTERVAL: u64 = 200;

/// Whether a text holds another.
pub open spec fn holds(text: Seq<char>, p: Seq<char>) -> bool {
    exists|i: int| 0 <= i <= text.len() && #[trigger] matches_at(text, i, p)
}

/// Whether a text holds any of some patterns.
pub open spec fn holds_any(text: Seq<char>, patterns: Seq<Seq<char>>) -> bool {
    exists|k: int| 0 <= k < patterns.len() && holds(text, #[trigger] patterns[k])
}

fn find_text(text: &[char], p: &[char]) -> (r: bool)
    ensures
        r == holds(text@, p@),
{
    let n = text.len();
    let mut i: usize = 0;
    while i < n
        invariant
            i <= n,
            n == text@.len(),
            forall|j: int| 0 <= j < i ==> !#[trigger] matches_at(text@, j, p@),
        decreases n - i,
    {
        if has_at(text, i, p) {
            assert(matches_at(text@, i as int, p@));
            return true;
        }
        i += 1;
    }
    let r = has_at(text, n, p);
    if r {
        assert(matches_at(text@, n as int, p@));
    }
    r
}

/// Decides `holds_any`.
pub fn matches_any(text: &str, patterns: &[String]) -> (r: bool)
    ensures
        r == holds_any(text@, views(patterns@)),
{
    let chars = to_chars(text);
    let ghost all = views(patterns@);
    let mut k: usize = 0;
    while k < patterns.len()
        invariant
            k <= patterns@.len(),
            chars@ == text@,
            all == views(patterns@),
            forall|j: int| 0 <= j < k ==> !holds(text@, #[trigger] all[j]),
        decreases patterns.len() - k,
    {
        let p = to_chars(patterns[k].as_str());
        if find_text(chars.as_slice(), p.as_slice()) {
            assert(holds(text@, all[k as int]));
            return true;
        }
        k += 1;
    }
    false
}

/// Patterns in quotes.
pub open spec fn in_quotes(v: Seq<Seq<char>>) -> Seq<Seq<char>> {
    Seq::new(v.len(), |i: int| "\""@ + v[i] + "\""@)
}

/// Patterns as `"a"` or `"a" or "b"`.
pub open spec fn described(v: Seq<Seq<char>>) -> Seq<char> {
    joined(in_quotes(v), " or "@)
}

/// Render patterns as `"a"` or `"a" or "b"`.
pub fn describe_patterns(patterns: &[String]) -> (r: String)
    ensures
        r@ == described(views(patterns@)),
{
    let ghost want = in_quotes(views(patterns@));
    let mut parts: Vec<String> = Vec::new();
    let mut i: usize = 0;
    assert(views(parts@) =~= want.take(0));
    while i < patterns.len()
        invariant
            i <= patterns@.len(),
            want == in_quotes(views(patterns@)),
            views(parts@) == want.take(i as int),
        decreases patterns.len() - i,
    {
        let ghost before = parts@;
        let part = around("\"", patterns[i].as_str(), "\"");
        parts.push(part);
        proof {
            lemma_views_push(before, part);
            assert(want.take(i + 1) =~= want.take(i as int).push(want[i as int]));
        }
        i += 1;
    }
    assert(want.take(patterns@.len() as int) =~= want);
    join(parts.as_slice(), " or ")
}

/// Why waiting for a text failed.
#[derive(Debug, Clone, PartialEq)]
pub enum PeekWaitError {
    /// The time is over. The budget is kept as it is shown, in seconds.
    TimedOut { timeout_secs: String, patterns: String },
    /// The session exited without a match.
    Exited {
        name: String,
        exit_code: Option<i32>,
        patterns: String,
        last_lines: Vec<String>,
    },
}

/// The last lines of a session, each on a line of its own.
pub open spec fn last_output(lines: Seq<Seq<char>>) -> Seq<char>
    decreases lines.len(),
{
    if lines.len() == 0 {
        Seq::empty()
    } else {
        last_output(lines.drop_last()) + "\n  "@ + lines.last()
    }
}

/// An exit code, or a question mark.
pub open spec fn code_text(code: Option<i32>) -> Seq<char> {
    match code {
        Some(c) => dec_int(c as int),
        None => "?"@,
    }
}

/// The message of a failed wait.
pub open spec fn wait_text(e: PeekWaitError) -> Seq<char> {
    match e {
        PeekWaitError::TimedOut { timeout_secs, patterns } => "Timed out after "@ + timeout_secs@
            + "s waiting for "@ + patterns@ + "."@,
        PeekWaitError::Exited { name, exit_code, patterns, last_lines } => "Session \""@ + name@
            + "\" exited (code "@ + code_text(exit_code) + ") without matching "@ + patterns@
            + "."@ + (if last_lines@.len() > 0 {
            "\nLast output:"@ + last_output(views(last_lines@))
        } else {
            Seq::empty()
        }),
    }
}

fn show_code(code: Option<i32>) -> (r: String)
    ensures
        r@ == code_text(code),
{
    match code {
        Some(c) => i64_string(c as i64),
        None => "?".to_owned(),
    }
}

impl PeekWaitError {
    /// The message to print.
    pub fn message(&self) -> (r: String)
        ensures
            r@ == wait_text(*self),
    {
        match self {
            PeekWaitError::TimedOut { timeout_secs, patterns } => {
                let mut m = "Timed out after ".to_owned();
                m.append(timeout_secs.as_str());
                m.append("s waiting for ");
                m.append(patterns.as_str());
                m.append(".");
                m
            },
            PeekWaitError::Exited { name, exit_code, patterns, last_lines } => {
                let code = show_code(*exit_code);
                let mut m = "Session \"".to_owned();
                m.append(name.as_str());
                m.append("\" exited (code ");
                m.append(code.as_str());
                m.append(") without matching ");
                m.append(patterns.as_str());
                m.append(".");
                let mut tail = String::new();
                if last_lines.len() > 0 {
                    let ghost all = views(last_lines@);
                    let mut rest = String::new();
                    let mut i: usize = 0;
                    assert(all.take(0) =~= Seq::<Seq<char>>::empty());
                    while i < last_lines.len()
                        invariant
                            i <= last_lines@.len(),
                            all == views(last_lines@),
                            rest@ == last_output(all.take(i as int)),
                        decreases last_lines.len() - i,
                    {
                        assert(all.take(i + 1).drop_last() =~= all.take(i as int));
                        rest.append("\n  ");
                        rest.append(last_lines[i].as_str());
                        i += 1;
                    }
                    assert(all.take(last_lines@.len() as int) =~= all);
                    tail = "\nLast output:".to_owned();
                    tail.append(rest.as_str());
                }
                m.append(tail.as_str());
                m
            },
        }
    }
}

/// What one look of a wait found.
#[derive(Debug)]
pub enum WaitLook {
    /// The time was over before the look.
    TimeOver,
    /// The plain screen.
    Screen(String),
    /// The session could not be reached; its record, where there is one.
    Unreachable(Option<SessionMetadata>),
}

/// What a wait does after a look.
#[derive(Debug)]
pub enum WaitStep {
    /// Look again after the interval.
    Again,
    /// Print this.
    Print(String),
    /// Print a fresh screen with its colours, or this one where there is none.
    Colours(String),
    /// Fail.
    Failed(PeekWaitError),
}

/// The last lines of a record whose session has exited.
pub open spec fn exited_lines(m: Option<SessionMetadata>) -> Option<Vec<String>> {
    match m {
        Some(meta) if meta.exited_at is Some => meta.last_lines,
        _ => None,
    }
}

/// One look of a wait: until any pattern is on the plain screen. When the
/// session has exited, its last lines are searched instead; a session that is
/// not reachable and has not exited may come back.
pub fn peek_wait(
    look: WaitLook,
    name: &str,
    patterns: &[String],
    timeout_secs: &str,
    plain: bool,
) -> (r: WaitStep)
    ensures
        match look {
            WaitLook::TimeOver => r matches WaitStep::Failed(
                PeekWaitError::TimedOut { timeout_secs: t, patterns: p },
            ) && t@ == timeout_secs@ && p@ == described(views(patterns@)),
            WaitLook::Screen(screen) => if !holds_any(screen@, views(patterns@)) {
                r is Again
            } else if plain {
                r == WaitStep::Print(screen)
            } else {
                r == WaitStep::Colours(screen)
            },
            WaitLook::Unreachable(m) => match exited_lines(m) {
                None => r is Again,
                Some(lines) => {
                    let output = joined(views(lines@), "\n"@);
                    if holds_any(output, views(patterns@)) {
                        r matches WaitStep::Print(text) && text@ == output
                    } else {
                        r matches WaitStep::Failed(
                            PeekWaitError::Exited { name: n, exit_code, patterns: p, last_lines },
                        ) && n@ == name@ && exit_code == m->0.exit_code && p@ == described(
                            views(patterns@),
                        ) && last_lines == lines
                    }
                },
            },
        },
{
    match look {
        WaitLook::TimeOver => WaitStep::Failed(
            PeekWaitError::TimedOut {
                timeout_secs: timeout_secs.to_owned(),
                patterns: describe_patterns(patterns),
            },
        ),
        WaitLook::Screen(screen) => if !matches_any(screen.as_str(), patterns) {
            WaitStep::Again
        } else if plain {
            WaitStep::Print(screen)
        } else {
            WaitStep::Colours(screen)
        },
        WaitLook::Unreachable(m) => {
            let meta = match m {
                Some(meta) => meta,
                None => {
                    return WaitStep::Again;
                },
            };
            if meta.exited_at.is_none() {
                return WaitStep::Again;
            }
            let exit_code = meta.exit_code;
            match meta.last_lines {
                None => WaitStep::Again,
                Some(lines) => {
                    let output = join(lines.as_slice(), "\n");
                    if matches_any(output.as_str(), patterns) {
                        WaitStep::Print(output)
                    } else {
                        WaitStep::Failed(
                            PeekWaitError::Exited {
                                name: name.to_owned(),
                                exit_code,
                                patterns: describe_patterns(patterns),
                                last_lines: lines,
                            },
                        )
                    }
                },
            }
        },
    }
}

// ---- laws ----------------------------------------------------------------

/// What following shows is a concatenation: the output of packets and more
/// packets is the one output behind the other.
pub proof fn law_followed_output_is_a_concatenation(
    a: Seq<PacketView>,
    b: Seq<PacketView>,
    plain: bool,
)
    ensures
        shown_packets(a + b, plain) == shown_packets(a, plain) + shown_packets(b, plain),
    decreases b.len(),
{
    if b.len() == 0 {
        assert(a + b =~= a);
        assert(shown_packets(a, plain) + shown_packets(b, plain) =~= shown_packets(a, plain));
    } else {
        law_followed_output_is_a_concatenation(a, b.drop_last(), plain);
        assert((a + b).drop_last() =~= a + b.drop_last());
        assert((a + b).last() == b.last());
        assert(shown_packets(a + b, plain) =~= shown_packets(a, plain) + shown_packets(b, plain));
    }
}

/// What following shows of one packet: a screen as it stands; data byte for
/// byte, or, where the output is plain and the bytes are well-formed, their
/// text without control sequences; of any other packet nothing.
pub proof fn law_followed_output_of_a_packet(p: PacketView, plain: bool)
    ensures
        p.type_ is Screen ==> shown_packets(seq![p], plain) == p.payload,
        p.type_ is Data && !plain ==> shown_packets(seq![p], plain) == p.payload,
        p.type_ is Data && plain && valid_utf8(p.payload) && !decode_utf8(p.payload).contains(
            '\x1b',
        ) ==> shown_packets(seq![p], plain) == p.payload,
        p.type_ is Data && plain && valid_utf8(p.payload) ==> shown_packets(seq![p], plain)
            == encode_utf8(stripped(decode_utf8(p.payload))),
        !(p.type_ is Data) && !(p.type_ is Screen) ==> shown_packets(seq![p], plain).len() == 0,
{
    let v = seq![p];
    assert(v.drop_last() =~= Seq::<PacketView>::empty());
    assert(shown_packets(v.drop_last(), plain) =~= Seq::<u8>::empty());
    assert(Seq::<u8>::empty() + shown_packet(p, plain) =~= shown_packet(p, plain));
    if valid_utf8(p.payload) {
        decode_utf8_encode_utf8(p.payload);
        if !decode_utf8(p.payload).contains('\x1b') {
            law_plain_text_is_kept(decode_utf8(p.payload));
        }
    }
}

/// Following with colours shows the payloads of all screen and data packets,
/// in order, however they are grouped into reads.
pub proof fn law_followed_output_is_all_that_was_sent(v: Seq<PacketView>)
    requires
        forall|i: int|
            0 <= i < v.len() ==> (#[trigger] v[i]).type_ is Data || v[i].type_ is Screen,
    ensures
        shown_packets(v, false) == v.map_values(|p: PacketView| p.payload).flatten(),
    decreases v.len(),
{
    let f = |p: PacketView| p.payload;
    if v.len() > 0 {
        let rest = v.drop_first();
        assert forall|i: int| 0 <= i < rest.len() implies (#[trigger] rest[i]).type_ is Data
            || rest[i].type_ is Screen by {
            assert(rest[i] == v[i + 1]);
        }
        law_followed_output_is_all_that_was_sent(rest);
        law_followed_output_is_a_concatenation(seq![v[0]], rest, false);
        law_followed_output_of_a_packet(v[0], false);
        assert(seq![v[0]] + rest =~= v);
        assert(v.map_values(f).first() == v[0].payload);
        assert(v.map_values(f).drop_first() =~= rest.map_values(f));
    } else {
        assert(v.map_values(f) =~= Seq::<Seq<u8>>::empty());
    }
}

/// The notice at the end of a followed session names it and its code, behind
/// a reset of the terminal unless the output is plain.
pub proof fn law_exit_notice(name: Seq<char>, code: int)
    ensures
        exit_notice(name, code, true) == "\r\n["@ + name + " exited with code "@ + dec_int(code)
            + "]\r\n"@,
        exit_notice(name, code, false) == reset_text() + exit_notice(name, code, true),
{
    let tail = "\r\n["@ + name + " exited with code "@ + dec_int(code) + "]\r\n"@;
    assert(exit_notice(name, code, true) =~= tail);
    assert(exit_notice(name, code, false) =~= reset_text() + tail);
}

/// A peek ends at the first screen or exit, whichever comes first, and skips
/// what stands in front.
pub proof fn law_peek_ends_at_the_first_screen_or_exit(v: Seq<PacketView>)
    ensures
        0 <= first_ending(v, 0) <= v.len(),
        first_ending(v, 0) < v.len() ==> v[first_ending(v, 0)].type_ is Screen
            || v[first_ending(v, 0)].type_ is Exit,
        forall|k: int|
            0 <= k < first_ending(v, 0) ==> !((#[trigger] v[k]).type_ is Screen) && !(v[k].type_
                is Exit),
{
    lemma_first_ending(v, 0);
}

proof fn lemma_first_ending(v: Seq<PacketView>, from: int)
    requires
        0 <= from <= v.len(),
    ensures
        from <= first_ending(v, from) <= v.len(),
        first_ending(v, from) < v.len() ==> v[first_ending(v, from)].type_ is Screen
            || v[first_ending(v, from)].type_ is Exit,
        forall|k: int|
            from <= k < first_ending(v, from) ==> !((#[trigger] v[k]).type_ is Screen)
                && !(v[k].type_ is Exit),
    decreases v.len() - from,
{
    if from < v.len() && !(v[from].type_ is Screen || v[from].type_ is Exit) {
        lemma_first_ending(v, from + 1);
    }
}

/// A peek prints the screen and a line end, with a reset of the terminal
/// between them unless it is plain; of an exit it prints that reset at most.
pub proof fn law_peek_prints_the_screen(p: PacketView)
    ensures
        p.type_ is Screen ==> peek_output(p, true) == p.payload.push(10),
        p.type_ is Screen ==> peek_output(p, false) == (p.payload + encode_utf8(
            reset_text(),
        )).push(10),
        !(p.type_ is Screen) ==> peek_output(p, true).len() == 0 && peek_output(p, false)
            == encode_utf8(reset_text()),
{
    reveal_strlit("\n");
    let feed = "\n"@;
    assert(feed =~= seq!['\n']);
    assert(is_ascii_chars(feed));
    is_ascii_chars_encode_utf8(feed);
    assert(encode_utf8(feed)[0] == feed[0] as u8);
    assert(encode_utf8(feed) =~= seq![10u8]);
    assert(p.payload + Seq::<u8>::empty() + seq![10u8] =~= p.payload.push(10));
    assert(p.payload + encode_utf8(reset_text()) + seq![10u8] =~= (p.payload + encode_utf8(
        reset_text(),
    )).push(10));
}

/// Stripping removes a control sequence, `ESC [`, digits and semicolons and a
/// letter, wherever it stands behind text without an escape, and keeps that
/// text and what follows.
pub proof fn law_control_sequences_are_removed(
    text: Seq<char>,
    params: Seq<char>,
    end: char,
    rest: Seq<char>,
)
    requires
        !text.contains('\x1b'),
        forall|i: int|
            0 <= i < params.len() ==> (#[trigger] params[i]) == ';' || ('0' <= params[i]
                && params[i] <= '9'),
        ('a' <= end && end <= 'z') || ('A' <= end && end <= 'Z'),
    ensures
        stripped(text + (seq!['\x1b', '['] + params + seq![end] + rest)) == text + stripped(rest),
    decreases text.len(),
{
    let sequence = seq!['\x1b', '['] + params + seq![end] + rest;
    let s = text + sequence;
    if text.len() > 0 {
        assert(text[0] != '\x1b');
        assert(s[0] == text[0]);
        let tail = text.skip(1);
        assert(!tail.contains('\x1b')) by {
            assert forall|i: int| 0 <= i < tail.len() implies tail[i] != '\x1b' by {
                assert(text[i + 1] != '\x1b');
            }
        }
        law_control_sequences_are_removed(tail, params, end, rest);
        assert(s.skip(1) =~= tail + sequence);
        assert(seq![text[0]] + (tail + stripped(rest)) =~= text + stripped(rest));
    } else {
        assert(s =~= sequence);
        lemma_params_run(sequence, params, 0);
        let at: int = (2 + params.len()) as int;
        assert(sequence[at] == end);
        assert(params_end(sequence, 2) == at);
        assert(csi_len(sequence) == at + 1);
        assert(sequence.skip(at + 1) =~= rest);
        assert(text + stripped(rest) =~= stripped(rest));
    }
}

proof fn lemma_params_run(s: Seq<char>, params: Seq<char>, k: int)
    requires
        0 <= k <= params.len(),
        s.len() > 2 + params.len(),
        forall|i: int| 0 <= i < params.len() ==> s[2 + i] == #[trigger] params[i],
        forall|i: int|
            0 <= i < params.len() ==> (#[trigger] params[i]) == ';' || ('0' <= params[i]
                && params[i] <= '9'),
        letter(s[(2 + params.len()) as int]),
    ensures
        params_end(s, 2 + k) == 2 + params.len(),
    decreases params.len() - k,
{
    if k < params.len() {
        assert(s[2 + k] == params[k]);
        lemma_params_run(s, params, k + 1);
    }
}

/// What does not begin a control sequence is kept: a text that does not begin
/// with `ESC [` keeps its first character.
pub proof fn law_other_characters_are_kept(s: Seq<char>)
    requires
        s.len() > 0,
        s[0] != '\x1b' || s.len() == 1 || s[1] != '[',
    ensures
        stripped(s) == seq![s[0]] + stripped(s.skip(1)),
{
}

/// A text holds a pattern exactly where it is something, the pattern, and
/// something.
pub proof fn law_holding_a_text(before: Seq<char>, p: Seq<char>, after: Seq<char>)
    ensures
        holds(before + p + after, p),
{
    let text = before + p + after;
    let i = before.len() as int;
    assert(text.subrange(i, i + p.len()) =~= p);
    assert(matches_at(text, i, p));
}

/// What a text holds stands in it.
pub proof fn law_held_text_is_there(text: Seq<char>, p: Seq<char>) -> (i: int)
    requires
        holds(text, p),
    ensures
        0 <= i,
        i + p.len() <= text.len(),
        text == text.take(i) + p + text.skip(i + p.len()),
{
    let i = choose|i: int| 0 <= i <= text.len() && #[trigger] matches_at(text, i, p);
    assert(text.subrange(i, i + p.len()) =~= p);
    assert(text =~= text.take(i) + p + text.skip(i + p.len()));
    i
}

/// Any one of the patterns is enough, and one is needed.
pub proof fn law_any_pattern_is_enough(text: Seq<char>, a: Seq<Seq<char>>, b: Seq<Seq<char>>)
    ensures
        !holds_any(text, Seq::empty()),
        holds_any(text, a + b) <==> holds_any(text, a) || holds_any(text, b),
        forall|p: Seq<char>| #[trigger] holds_any(text, seq![p]) <==> holds(text, p),
{
    let all = a + b;
    if holds_any(text, a) {
        let k = choose|k: int| 0 <= k < a.len() && holds(text, #[trigger] a[k]);
        assert(holds(text, all[k]));
    }
    if holds_any(text, b) {
        let k = choose|k: int| 0 <= k < b.len() && holds(text, #[trigger] b[k]);
        assert(holds(text, all[a.len() + k]));
    }
    if holds_any(text, all) {
        let k = choose|k: int| 0 <= k < all.len() && holds(text, #[trigger] all[k]);
        if k < a.len() {
            assert(holds(text, a[k]));
        } else {
            assert(holds(text, b[k - a.len()]));
        }
    }
    assert forall|p: Seq<char>| #[trigger] holds_any(text, seq![p]) <==> holds(text, p) by {
        let one = seq![p];
        assert(one[0] == p);
        if holds(text, p) {
            assert(holds(text, one[0]));
        }
    }
}

/// Patterns are described each in double quotes, with ` or ` between them.
pub proof fn law_described_patterns(p: Seq<char>, more: Seq<Seq<char>>)
    ensures
        described(seq![p]) == seq!['"'] + p + seq!['"'],
        more.len() > 0 ==> described(more.push(p)) == described(more) + " or "@ + described(
            seq![p],
        ),
{
    reveal_strlit("\"");
    assert("\""@ =~= seq!['"']);
    let one = in_quotes(seq![p]);
    assert(one.len() == 1 && one[0] == "\""@ + p + "\""@);
    reveal_with_fuel(joined, 2);
    assert(described(seq![p]) =~= one[0]);
    if more.len() > 0 {
        let all = in_quotes(more.push(p));
        assert(all.drop_last() =~= in_quotes(more));
        assert(all.last() == one[0]);
    }
}

/// The message of a wait whose session exited names it, its code and the
/// patterns; the last lines follow, each on a line of its own.
pub proof fn law_wait_messages(e: PeekWaitError)
    ensures
        match e {
            PeekWaitError::TimedOut { timeout_secs, patterns } => wait_text(e)
                == "Timed out after "@ + timeout_secs@ + "s waiting for "@ + patterns@ + "."@,
            PeekWaitError::Exited { name, exit_code, patterns, last_lines } => exists|tail:
                Seq<char>|
                #![trigger last_output_is(views(last_lines@), tail)]
                last_output_is(views(last_lines@), tail) && wait_text(e) == "Session \""@ + name@
                    + "\" exited (code "@ + (match exit_code {
                    Some(c) => dec_int(c as int),
                    None => "?"@,
                }) + ") without matching "@ + patterns@ + "."@ + tail,
        },
{
    match e {
        PeekWaitError::TimedOut { .. } => {},
        PeekWaitError::Exited { name, exit_code, patterns, last_lines } => {
            let lines = views(last_lines@);
            let tail = if last_lines@.len() > 0 {
                "\nLast output:"@ + last_output(lines)
            } else {
                Seq::empty()
            };
            if lines.len() > 0 {
                lemma_last_output(lines);
                let parts = Seq::new(lines.len(), |i: int| "\n  "@ + lines[i]);
                assert("\nLast output:"@ + parts.flatten() == tail);
            }
            assert(last_output_is(lines, tail));
        },
    }
}

/// The last lines as a message ends with them: a headline, and each line
/// indented on a line of its own.
pub open spec fn last_output_is(lines: Seq<Seq<char>>, tail: Seq<char>) -> bool {
    if lines.len() == 0 {
        tail.len() == 0
    } else {
        tail == "\nLast output:"@ + Seq::new(
            lines.len(),
            |i: int| "\n  "@ + lines[i],
        ).flatten()
    }
}

proof fn lemma_last_output(lines: Seq<Seq<char>>)
    ensures
        last_output(lines) == Seq::new(lines.len(), |i: int| "\n  "@ + lines[i]).flatten(),
    decreases lines.len(),
{
    let parts = Seq::new(lines.len(), |i: int| "\n  "@ + lines[i]);
    parts.lemma_flatten_and_flatten_alt_are_equivalent();
    if lines.len() > 0 {
        let before = lines.drop_last();
        lemma_last_output(before);
        let some = Seq::new(before.len(), |i: int| "\n  "@ + before[i]);
        assert(parts.drop_last() =~= some);
        some.lemma_flatten_and_flatten_alt_are_equivalent();
        assert(last_output(before) + "\n  "@ + lines.last() =~= last_output(before) + ("\n  "@
            + lines.last()));
    }
}

/// Only a session that recorded its exit is searched for its last lines.
pub proof fn law_only_exited_sessions_have_last_lines(m: Option<SessionMetadata>)
    ensures
        exited_lines(m) == (if m is Some && m->0.exited_at is Some {
            m->0.last_lines
        } else {
            None
        }),
{
}

} // verus!
