//! Following event logs: one session's log, a named set, or every log in the
//! registry as they appear. Logs that are there already start at their
//! current end; logs that appear while following replay from the beginning,
//! so that their first line is not skipped; a log that shrank restarts at the
//! beginning.
//!
//! The logs are re-read on every wake-up and on a timer, so delivery does not
//! depend on which wake-ups arrive.

use super::{
    event_of_line, event_records, events_of, filled_lines, keep_filled, lemma_events_both,
    lemma_filled_both, lemma_pieces_both, lemma_pieces_single, some_events, Event,
};
use crate::pairs::{distinct_keys, has_key, key_index, lemma_key_found, lemma_key_index, lookup};
use crate::text::{
    ends, lemma_lex_total, lemma_lex_trans, lemma_slot, lex_le, opt_view, pieces, slot,
    split_on, str_eq, str_le, strip_suffix, text_of, to_chars, utf8_lossy, views,
};
use vstd::prelude::*;
use vstd::utf8::*;

verus! {

/// The time between two polls, in milliseconds.
pub const DEFAULT_POLL_INTERVAL: u64 = 250;

/// What to follow.
#[derive(Debug, Clone)]
pub struct FollowerOptions {
    /// Specific sessions, or `None` for every log in the registry.
    pub names: Option<Vec<String>>,
    /// How often to look at the logs regardless of wake-ups, in milliseconds.
    pub poll_interval: u64,
}

impl Default for FollowerOptions {
    fn default() -> (r: FollowerOptions)
        ensures
            r.names is None,
            r.poll_interval == DEFAULT_POLL_INTERVAL,
    {
        FollowerOptions { names: None, poll_interval: DEFAULT_POLL_INTERVAL }
    }
}

impl FollowerOptions {
    /// Follow these sessions only.
    pub fn names(names: Vec<String>) -> (r: FollowerOptions)
        ensures
            r.names == Some(names),
            r.poll_interval == DEFAULT_POLL_INTERVAL,
    {
        FollowerOptions { names: Some(names), poll_interval: DEFAULT_POLL_INTERVAL }
    }

    /// Follow every session.
    pub fn all() -> (r: FollowerOptions)
        ensures
            r.names is None,
            r.poll_interval == DEFAULT_POLL_INTERVAL,
    {
        FollowerOptions::default()
    }
}

/// The session whose log has this file name.
pub open spec fn log_owner(file_name: Seq<char>) -> Option<Seq<char>> {
    if ends(file_name, ".events.jsonl"@) {
        Some(file_name.take(file_name.len() - ".events.jsonl"@.len()))
    } else {
        None
    }
}

/// The session whose log has this file name.
pub fn name_of(file_name: &str) -> (r: Option<String>)
    ensures
        opt_view(r) == log_owner(file_name@),
{
    strip_suffix(file_name, ".events.jsonl")
}

/// One followed log: the session and how far its log has been delivered.
#[derive(Debug)]
pub struct FollowedLog {
    pub name: String,
    pub offset: u64,
}

/// The followed logs as pairs of session and offset.
pub open spec fn followed(v: Seq<FollowedLog>) -> Seq<(Seq<char>, u64)> {
    Seq::new(v.len(), |i: int| (v[i].name@, v[i].offset))
}

/// The logs stand in the order of their sessions, and none stands twice.
pub open spec fn ordered(m: Seq<(Seq<char>, u64)>) -> bool {
    forall|i: int, j: int|
        0 <= i < j < m.len() ==> lex_le((#[trigger] m[i]).0, (#[trigger] m[j]).0) && m[i].0 != m[j].0
}

/// The sessions of the logs.
pub open spec fn followed_names(m: Seq<(Seq<char>, u64)>) -> Seq<Seq<char>> {
    Seq::new(m.len(), |i: int| m[i].0)
}

/// The logs with `name` at `offset`: a log that is there is moved, a new one
/// takes its place in the order.
pub open spec fn track(m: Seq<(Seq<char>, u64)>, name: Seq<char>, offset: u64) -> Seq<
    (Seq<char>, u64),
> {
    if has_key(m, name) {
        m.update(key_index(m, name, 0), (name, offset))
    } else {
        m.insert(slot(followed_names(m), name), (name, offset))
    }
}

/// The end of a log: its size, or the beginning where it is not there.
pub open spec fn end_of(size: Option<u64>) -> u64 {
    match size {
        Some(n) => n,
        None => 0,
    }
}

/// Named logs, each from its current end on.
pub open spec fn named_logs(names: Seq<Seq<char>>, sizes: Seq<Option<u64>>) -> Seq<(Seq<char>, u64)>
    decreases names.len(),
{
    if names.len() == 0 {
        Seq::empty()
    } else {
        track(
            named_logs(names.drop_last(), sizes),
            names.last(),
            end_of(sizes[names.len() - 1]),
        )
    }
}

/// The logs among the files of a directory, each from its current end on.
pub open spec fn all_logs(files: Seq<Seq<char>>, sizes: Seq<Option<u64>>) -> Seq<(Seq<char>, u64)>
    decreases files.len(),
{
    if files.len() == 0 {
        Seq::empty()
    } else {
        let before = all_logs(files.drop_last(), sizes);
        match log_owner(files.last()) {
            Some(name) => track(before, name, end_of(sizes[files.len() - 1])),
            None => before,
        }
    }
}

/// The logs after another look at the directory: those that are new start at
/// the beginning.
pub open spec fn discovered(m: Seq<(Seq<char>, u64)>, files: Seq<Seq<char>>) -> Seq<
    (Seq<char>, u64),
>
    decreases files.len(),
{
    if files.len() == 0 {
        m
    } else {
        let before = discovered(m, files.drop_last());
        match log_owner(files.last()) {
            Some(name) => if has_key(before, name) {
                before
            } else {
                track(before, name, 0)
            },
            None => before,
        }
    }
}

/// Tracking keeps the order.
proof fn lemma_track(m: Seq<(Seq<char>, u64)>, name: Seq<char>, offset: u64)
    requires
        ordered(m),
    ensures
        ordered(track(m, name, offset)),
        distinct_keys(m),
{
    let r = track(m, name, offset);
    lemma_key_index(m, name, 0);
    if !has_key(m, name) {
        let names = followed_names(m);
        let k = slot(names, name);
        lemma_slot(names, name);
        assert forall|i: int, j: int| 0 <= i < j < r.len() implies lex_le(
            (#[trigger] r[i]).0,
            (#[trigger] r[j]).0,
        ) && r[i].0 != r[j].0 by {
            let a = if i < k {
                i
            } else {
                i - 1
            };
            let b = if j < k {
                j
            } else {
                j - 1
            };
            if i == k {
                assert(r[j] == m[b]);
                assert(!lex_le(names[b], name));
                lemma_lex_total(names[b], name);
            } else if j == k {
                assert(r[i] == m[a]);
                assert(lex_le(names[k - 1], name));
                if a < k - 1 {
                    assert(lex_le(m[a].0, m[k - 1].0));
                    lemma_lex_trans(m[a].0, m[k - 1].0, name);
                }
            } else {
                assert(r[i] == m[a] && r[j] == m[b]);
            }
        }
    }
}

/// The followed logs, in the order of their sessions.
#[derive(Debug)]
pub struct FollowedLogs {
    pub logs: Vec<FollowedLog>,
}

impl View for FollowedLogs {
    type V = Seq<(Seq<char>, u64)>;

    open spec fn view(&self) -> Seq<(Seq<char>, u64)> {
        followed(self.logs@)
    }
}

impl FollowedLogs {
    /// The logs are in order, each once.
    pub open spec fn wf(&self) -> bool {
        ordered(self@)
    }

    fn find(&self, name: &str) -> (r: usize)
        ensures
            r == key_index(self@, name@, 0),
            r <= self.logs@.len(),
    {
        let mut i: usize = 0;
        while i < self.logs.len() && !str_eq(self.logs[i].name.as_str(), name)
            invariant
                i <= self.logs@.len(),
                key_index(self@, name@, i as int) == key_index(self@, name@, 0),
            decreases self.logs.len() - i,
        {
            assert(self@[i as int].0 == self.logs@[i as int].name@);
            i += 1;
        }
        assert(i < self.logs@.len() ==> self@[i as int].0 == name@);
        i
    }

    fn find_place(&self, name: &str) -> (k: usize)
        ensures
            k == slot(followed_names(self@), name@),
            k <= self.logs@.len(),
    {
        let ghost names = followed_names(self@);
        let mut k: usize = self.logs.len();
        assert(names.take(k as int) =~= names);
        while k > 0 && !str_le(self.logs[k - 1].name.as_str(), name)
            invariant
                k <= self.logs@.len(),
                names == followed_names(self@),
                slot(names.take(k as int), name@) == slot(names, name@),
            decreases k,
        {
            assert(names.take(k as int).drop_last() =~= names.take(k - 1));
            assert(names.take(k as int).last() == self.logs@[k - 1].name@);
            k -= 1;
        }
        assert(k > 0 ==> names.take(k as int).last() == self.logs@[k - 1].name@);
        k
    }

    /// Follow `name` from `offset` on.
    pub fn track(&mut self, name: &str, offset: u64)
        requires
            old(self).wf(),
        ensures
            final(self)@ == track(old(self)@, name@, offset),
            final(self).wf(),
    {
        proof {
            lemma_track(self@, name@, offset);
        }
        let ghost before = self@;
        let i = self.find(name);
        let log = FollowedLog { name: name.to_owned(), offset };
        if i < self.logs.len() {
            self.logs.set(i, log);
            assert(self@ =~= before.update(i as int, (name@, offset)));
        } else {
            let k = self.find_place(name);
            self.logs.insert(k, log);
            assert(self@ =~= before.insert(k as int, (name@, offset)));
        }
    }

    /// Start with a named set of sessions: logs that are there start at their
    /// end, the others at the beginning.
    pub fn start_named(names: &[String], sizes: &[Option<u64>]) -> (r: FollowedLogs)
        requires
            names@.len() == sizes@.len(),
        ensures
            r@ == named_logs(views(names@), sizes@),
            r.wf(),
    {
        let mut r = FollowedLogs { logs: Vec::new() };
        let mut i: usize = 0;
        assert(r@ =~= named_logs(views(names@).take(0), sizes@));
        while i < names.len()
            invariant
                i <= names@.len(),
                names@.len() == sizes@.len(),
                r@ == named_logs(views(names@).take(i as int), sizes@),
                r.wf(),
            decreases names.len() - i,
        {
            let end: u64 = match sizes[i] {
                Some(n) => n,
                None => 0,
            };
            assert(views(names@).take(i + 1).drop_last() =~= views(names@).take(i as int));
            r.track(names[i].as_str(), end);
            i += 1;
        }
        assert(views(names@).take(names@.len() as int) =~= views(names@));
        r
    }

    /// Start with every log among the files of the registry, each at its end.
    pub fn start_all(files: &[String], sizes: &[Option<u64>]) -> (r: FollowedLogs)
        requires
            files@.len() == sizes@.len(),
        ensures
            r@ == all_logs(views(files@), sizes@),
            r.wf(),
    {
        let mut r = FollowedLogs { logs: Vec::new() };
        let mut i: usize = 0;
        assert(r@ =~= all_logs(views(files@).take(0), sizes@));
        while i < files.len()
            invariant
                i <= files@.len(),
                files@.len() == sizes@.len(),
                r@ == all_logs(views(files@).take(i as int), sizes@),
                r.wf(),
            decreases files.len() - i,
        {
            assert(views(files@).take(i + 1).drop_last() =~= views(files@).take(i as int));
            match name_of(files[i].as_str()) {
                Some(name) => {
                    let end: u64 = match sizes[i] {
                        Some(n) => n,
                        None => 0,
                    };
                    r.track(name.as_str(), end);
                },
                None => {},
            }
            i += 1;
        }
        assert(views(files@).take(files@.len() as int) =~= views(files@));
        r
    }

    /// Take up the logs that have appeared; they replay from the beginning.
    pub fn discover_new(&mut self, files: &[String])
        requires
            old(self).wf(),
        ensures
            final(self)@ == discovered(old(self)@, views(files@)),
            final(self).wf(),
    {
        let ghost start = self@;
        let mut i: usize = 0;
        assert(self@ == discovered(start, views(files@).take(0)));
        while i < files.len()
            invariant
                i <= files@.len(),
                self@ == discovered(start, views(files@).take(i as int)),
                self.wf(),
            decreases files.len() - i,
        {
            assert(views(files@).take(i + 1).drop_last() =~= views(files@).take(i as int));
            match name_of(files[i].as_str()) {
                Some(name) => {
                    if self.find(name.as_str()) >= self.logs.len() {
                        self.track(name.as_str(), 0);
                    }
                },
                None => {},
            }
            i += 1;
        }
        assert(views(files@).take(files@.len() as int) =~= views(files@));
    }
}

/// The length up to and with the last line feed.
pub open spec fn complete_len(buf: Seq<u8>) -> int
    decreases buf.len(),
{
    if buf.len() == 0 || buf.last() == 10 {
        buf.len() as int
    } else {
        complete_len(buf.drop_last())
    }
}

/// The events in bytes that have been read: those of the whole lines.
pub open spec fn events_in(buf: Seq<u8>) -> Seq<super::EventRecord> {
    if complete_len(buf) == 0 {
        Seq::empty()
    } else {
        some_events(
            filled_lines(pieces(text_of(buf.take(complete_len(buf))), seq!['\n'])),
        )
    }
}

impl FollowedLog {
    /// How many bytes to read at the offset, now that the log has `size`
    /// bytes; a log that shrank restarts at the beginning. `None` when there
    /// is nothing new.
    pub fn read_window(&mut self, size: u64) -> (r: Option<u64>)
        ensures
            final(self).name == old(self).name,
            final(self).offset == (if size < old(self).offset {
                0
            } else {
                old(self).offset
            }),
            match r {
                Some(n) => n > 0 && final(self).offset + n == size,
                None => final(self).offset == size,
            },
    {
        if size < self.offset {
            self.offset = 0;
        }
        if size == self.offset {
            None
        } else {
            Some(size - self.offset)
        }
    }

    /// Deliver the whole lines of the bytes that were read at the offset, and
    /// move the offset behind them. A last line without its line feed waits.
    pub fn read_new_lines(&mut self, buf: &[u8]) -> (r: Vec<Event>)
        requires
            old(self).offset + buf@.len() <= u64::MAX,
        ensures
            final(self).name == old(self).name,
            final(self).offset == old(self).offset + complete_len(buf@),
            event_records(r@) == events_in(buf@),
    {
        let mut n: usize = buf.len();
        assert(buf@.take(n as int) =~= buf@);
        while n > 0 && buf[n - 1] != 10
            invariant
                n <= buf@.len(),
                complete_len(buf@.take(n as int)) == complete_len(buf@),
            decreases n,
        {
            assert(buf@.take(n as int).drop_last() =~= buf@.take(n - 1));
            n -= 1;
        }
        assert(n == complete_len(buf@));
        if n == 0 {
            let none: Vec<Event> = Vec::new();
            assert(event_records(none@) =~= Seq::<super::EventRecord>::empty());
            return none;
        }
        self.offset = self.offset + n as u64;
        let complete = take_bytes(buf, n);
        let chunk = to_chars(utf8_lossy(complete.as_slice()).as_str());
        let newline: [char; 1] = ['\n'];
        assert(newline@ =~= seq!['\n']);
        let parts = split_on(chunk.as_slice(), &newline);
        let filled = keep_filled(parts.as_slice());
        events_of(filled.as_slice())
    }
}

/// The first `n` bytes.
fn take_bytes(buf: &[u8], n: usize) -> (r: Vec<u8>)
    requires
        n <= buf@.len(),
    ensures
        r@ == buf@.take(n as int),
{
    let mut out: Vec<u8> = Vec::new();
    let mut i: usize = 0;
    assert(out@ =~= buf@.take(0));
    while i < n
        invariant
            i <= n <= buf@.len(),
            out@ == buf@.take(i as int),
        decreases n - i,
    {
        out.push(buf[i]);
        assert(buf@.take(i + 1) =~= buf@.take(i as int).push(buf@[i as int]));
        i += 1;
    }
    out
}

/// What `complete_len` means: it ends behind a line feed, and no line feed
/// follows.
pub proof fn lemma_complete_len(buf: Seq<u8>)
    ensures
        0 <= complete_len(buf) <= buf.len(),
        complete_len(buf) > 0 ==> buf[complete_len(buf) - 1] == 10,
        forall|i: int| complete_len(buf) <= i < buf.len() ==> #[trigger] buf[i] != 10,
    decreases buf.len(),
{
    if buf.len() > 0 && buf.last() != 10 {
        lemma_complete_len(buf.drop_last());
        assert forall|i: int| complete_len(buf) <= i < buf.len() implies #[trigger] buf[i] != 10 by {
            if i < buf.len() - 1 {
                assert(buf.drop_last()[i] == buf[i]);
            }
        }
    }
}

/// Reading a log in two steps delivers the same bytes as reading it in one:
/// what the first step left is read again, and nothing is read twice.
pub proof fn law_no_line_is_lost_or_repeated(a: Seq<u8>, b: Seq<u8>)
    ensures
        complete_len(a) + complete_len(a.skip(complete_len(a)) + b) == complete_len(a + b),
        a.take(complete_len(a)) + (a.skip(complete_len(a)) + b).take(
            complete_len(a.skip(complete_len(a)) + b),
        ) == (a + b).take(complete_len(a + b)),
{
    let c = complete_len(a);
    let rest = a.skip(c) + b;
    let d = complete_len(rest);
    let all = a + b;
    let n = complete_len(all);
    lemma_complete_len(a);
    lemma_complete_len(rest);
    lemma_complete_len(all);
    assert(all =~= a.take(c) + rest);
    assert forall|i: int| 0 <= i < rest.len() implies #[trigger] rest[i] == all[c + i] by {}
    if n > c + d {
        assert(rest[n - 1 - c] == all[n - 1]);
    }
    if n < c + d {
        if d > 0 {
            assert(rest[d - 1] == all[c + d - 1]);
        } else {
            assert(a[c - 1] == all[c - 1]);
        }
    }
    assert(a.take(c) + rest.take(d) =~= all.take(n));
}

/// Well-formed bytes can be parted in front of and behind a line feed.
proof fn lemma_around_line_feed(b: Seq<u8>, i: int)
    requires
        valid_utf8(b),
        0 <= i < b.len(),
        b[i] == 10,
    ensures
        valid_utf8(b.take(i)),
        valid_utf8(b.skip(i + 1)),
        decode_utf8(b) == decode_utf8(b.take(i)).push('\n') + decode_utf8(b.skip(i + 1)),
{
    assert(!is_continuation_byte(10u8)) by (bit_vector);
    is_char_boundary_iff_not_is_continuation_byte(b, i);
    let second = b.subrange(i, b.len() as int);
    valid_utf8_split(b, i);
    decode_utf8_split(b, i);
    assert(b.subrange(0, i) =~= b.take(i));
    assert(second[0] == 10);
    assert(is_leading_byte_width_1(10u8)) by (bit_vector);
    assert(pop_first_scalar(second) =~= b.skip(i + 1));
    assert(decode_utf8(second) == seq!['\n'] + decode_utf8(b.skip(i + 1))) by {
        assert(10u8 & 0x7f == 10u8) by (bit_vector);
        assert(decode_first_scalar(second) == 10);
    }
    assert(decode_utf8(b.take(i)) + (seq!['\n'] + decode_utf8(b.skip(i + 1))) =~= decode_utf8(
        b.take(i),
    ).push('\n') + decode_utf8(b.skip(i + 1)));
}

/// Well-formed bytes can be parted behind a line feed: the text of the whole is
/// the text of a line, its line feed, and the text of the rest.
proof fn lemma_behind_line_feed(b: Seq<u8>, n: int)
    requires
        valid_utf8(b),
        0 < n <= b.len(),
        b[n - 1] == 10,
    ensures
        valid_utf8(b.take(n)),
        valid_utf8(b.skip(n)),
        decode_utf8(b.take(n)) == decode_utf8(b.take(n - 1)).push('\n'),
        decode_utf8(b) == decode_utf8(b.take(n)) + decode_utf8(b.skip(n)),
{
    lemma_around_line_feed(b, n - 1);
    let head = b.take(n);
    let feed = seq![10u8];
    assert(feed =~= b.subrange(n - 1, n));
    assert(valid_utf8(feed)) by {
        let text = seq!['\n'];
        assert(is_ascii_chars(text));
        is_ascii_chars_encode_utf8(text);
        assert(encode_utf8(text)[0] == text[0] as u8);
        assert(encode_utf8(text) =~= feed);
        encode_utf8_valid_utf8(text);
    }
    valid_utf8_concat(b.take(n - 1), feed);
    assert(b.take(n - 1) + feed =~= head);
    lemma_around_line_feed(head, n - 1);
    assert(head.take(n - 1) =~= b.take(n - 1));
    assert(head.skip(n) =~= Seq::<u8>::empty());
    assert(decode_utf8(head.skip(n)) =~= Seq::<char>::empty());
    assert(decode_utf8(b.take(n - 1)).push('\n') + Seq::<char>::empty() =~= decode_utf8(
        b.take(n - 1),
    ).push('\n'));
}

/// The events of whole lines of well-formed bytes, in two parts.
proof fn lemma_events_of_parts(x: Seq<u8>, y: Seq<u8>)
    requires
        valid_utf8(x + y),
        x.len() > 0,
        x.last() == 10,
    ensures
        some_events(filled_lines(pieces(text_of(x + y), seq!['\n']))) == some_events(
            filled_lines(pieces(text_of(x), seq!['\n'])),
        ) + some_events(filled_lines(pieces(text_of(y), seq!['\n']))),
{
    let b = x + y;
    let n = x.len() as int;
    let seps = seq!['\n'];
    lemma_behind_line_feed(b, n);
    assert(b.take(n) =~= x);
    assert(b.skip(n) =~= y);
    let head = decode_utf8(b.take(n - 1));
    let s = decode_utf8(x);
    let t = decode_utf8(y);
    lemma_pieces_both(head, t);
    lemma_pieces_both(head, Seq::empty());
    assert(head.push('\n') + Seq::<char>::empty() =~= s);
    let p = pieces(head, seps);
    let blank = seq![Seq::<char>::empty()];
    assert(pieces(Seq::<char>::empty(), seps) =~= blank);
    assert(pieces(s, seps) == p + blank);
    assert(pieces(s + t, seps) == p + pieces(t, seps));
    lemma_filled_both(p, blank);
    lemma_filled_both(p, pieces(t, seps));
    assert(blank.drop_last() =~= Seq::<Seq<char>>::empty());
    reveal_with_fuel(filled_lines, 2);
    assert(blank.last().len() == 0);
    assert(filled_lines(blank) =~= Seq::<Seq<char>>::empty());
    assert(filled_lines(p) + Seq::<Seq<char>>::empty() =~= filled_lines(p));
    lemma_events_both(filled_lines(p), filled_lines(pieces(t, seps)));
}

/// Reading a log in two steps delivers the same events as reading it in one,
/// where its whole lines are well-formed text.
pub proof fn law_two_reads_deliver_the_events_of_one(a: Seq<u8>, b: Seq<u8>)
    requires
        valid_utf8((a + b).take(complete_len(a + b))),
    ensures
        events_in(a) + events_in(a.skip(complete_len(a)) + b) == events_in(a + b),
{
    let c = complete_len(a);
    let rest = a.skip(c) + b;
    let d = complete_len(rest);
    law_no_line_is_lost_or_repeated(a, b);
    lemma_complete_len(a);
    lemma_complete_len(rest);
    let none = Seq::<super::EventRecord>::empty();
    if c == 0 {
        assert(rest =~= a + b);
        assert(none + events_in(rest) =~= events_in(rest));
    } else if d == 0 {
        assert(rest.take(0) =~= Seq::<u8>::empty());
        assert(a.take(c) + rest.take(0) =~= a.take(c));
        assert(events_in(a) + none =~= events_in(a));
    } else {
        lemma_events_of_parts(a.take(c), rest.take(d));
    }
}

/// The bytes of a line end in its line feed.
proof fn lemma_line_bytes(line: Seq<char>)
    ensures
        encode_utf8(line.push('\n')).len() > 0,
        encode_utf8(line.push('\n')).last() == 10,
    decreases line.len(),
{
    let s = line.push('\n');
    if line.len() == 0 {
        assert(s =~= seq!['\n']);
        assert(is_ascii_chars(s));
        is_ascii_chars_encode_utf8(s);
        assert(encode_utf8(s)[0] == s[0] as u8);
    } else {
        lemma_line_bytes(line.drop_first());
        assert(s.drop_first() =~= line.drop_first().push('\n'));
        let rest = encode_utf8(s.drop_first());
        assert(encode_utf8(s) == encode_scalar(s[0] as u32) + rest);
        assert(encode_utf8(s).last() == rest.last());
    }
}

/// An event whose line is appended to a log is delivered: reading whole lines
/// and the appended one gives the events of those lines and that event.
pub proof fn law_appended_event_is_delivered(
    before: Seq<u8>,
    line: Seq<char>,
    e: super::EventRecord,
)
    requires
        valid_utf8(before),
        before.len() == 0 || before.last() == 10,
        line.len() > 0,
        !line.contains('\n'),
        event_of_line(line) == Some(e),
    ensures
        complete_len(before + encode_utf8(line.push('\n'))) == before.len() + encode_utf8(
            line.push('\n'),
        ).len(),
        events_in(encode_utf8(line.push('\n'))) == seq![e],
        events_in(before + encode_utf8(line.push('\n'))) == events_in(before).push(e),
{
    let text = line.push('\n');
    let bytes = encode_utf8(text);
    let all = before + bytes;
    let seps = seq!['\n'];
    lemma_line_bytes(line);
    assert(all.last() == 10);
    encode_utf8_valid_utf8(text);
    encode_utf8_decode_utf8(text);
    valid_utf8_concat(before, bytes);
    assert(bytes.take(bytes.len() as int) =~= bytes);
    assert(all.take(all.len() as int) =~= all);
    lemma_pieces_single(line);
    lemma_pieces_both(line, Seq::empty());
    assert(line.push('\n') + Seq::<char>::empty() =~= text);
    let blank = seq![Seq::<char>::empty()];
    assert(pieces(Seq::<char>::empty(), seps) =~= blank);
    let p = pieces(text, seps);
    assert(p =~= seq![line, Seq::<char>::empty()]);
    assert(p.drop_last() =~= seq![line]);
    assert(seq![line].drop_last() =~= Seq::<Seq<char>>::empty());
    reveal_with_fuel(filled_lines, 3);
    assert(filled_lines(p) =~= seq![line]);
    reveal_with_fuel(some_events, 2);
    assert(some_events(seq![line]) =~= seq![e]);
    law_two_reads_deliver_the_events_of_one(before, bytes);
    assert(complete_len(before) == before.len());
    assert(before.skip(before.len() as int) + bytes =~= bytes);
    assert(events_in(before) + seq![e] =~= events_in(before).push(e));
}

/// Looking at the directory again moves no log that was followed: its offset
/// stays. A log that was not followed starts at the beginning.
pub proof fn law_discovery_keeps_offsets(
    m: Seq<(Seq<char>, u64)>,
    files: Seq<Seq<char>>,
    name: Seq<char>,
)
    requires
        ordered(m),
    ensures
        ordered(discovered(m, files)),
        has_key(m, name) ==> lookup(discovered(m, files), name) == lookup(m, name),
        !has_key(m, name) && has_key(discovered(m, files), name) ==> lookup(
            discovered(m, files),
            name,
        ) == Some(0u64),
    decreases files.len(),
{
    if files.len() > 0 {
        law_discovery_keeps_offsets(m, files.drop_last(), name);
        let before = discovered(m, files.drop_last());
        match log_owner(files.last()) {
            Some(new) => {
                if !has_key(before, new) {
                    lemma_track(before, new, 0);
                    lemma_track_lookup(before, new, 0, name);
                }
            },
            None => {},
        }
    }
}

/// Tracking a new log does not move the others.
proof fn lemma_track_lookup(m: Seq<(Seq<char>, u64)>, new: Seq<char>, offset: u64, name: Seq<char>)
    requires
        ordered(m),
        !has_key(m, new),
    ensures
        lookup(track(m, new, offset), name) == (if name == new {
            Some(offset)
        } else {
            lookup(m, name)
        }),
{
    let r = track(m, new, offset);
    let k = slot(followed_names(m), new);
    lemma_slot(followed_names(m), new);
    lemma_track(m, new, offset);
    lemma_track(r, new, offset);
    assert(r[k] == (new, offset));
    lemma_key_index(m, name, 0);
    lemma_key_index(r, name, 0);
    if name == new {
        lemma_key_found(r, k);
    } else if has_key(m, name) {
        let i = key_index(m, name, 0);
        let j = if i < k {
            i
        } else {
            i + 1
        };
        assert(r[j] == m[i]);
        lemma_key_found(r, j);
    } else if has_key(r, name) {
        let j = key_index(r, name, 0);
        let i = if j < k {
            j
        } else {
            j - 1
        };
        assert(r[j] == m[i]);
        assert(m[i].0 == name);
    }
}

/// The log of a session is its name and `.events.jsonl`; no other file is one.
pub proof fn law_names_of_logs(name: Seq<char>, file: Seq<char>)
    ensures
        log_owner(name + ".events.jsonl"@) == Some(name),
        log_owner(file) matches Some(n) ==> file == n + ".events.jsonl"@,
        DEFAULT_POLL_INTERVAL == 250,
{
    let tail = ".events.jsonl"@;
    let f = name + tail;
    assert(f.take(f.len() - tail.len()) =~= name);
    assert(f.skip(f.len() - tail.len()) =~= tail);
    crate::text::law_begin_and_end(f, tail, name);
    if log_owner(file) is Some {
        crate::text::law_begin_and_end(file, tail, file.take(file.len() - tail.len()));
        assert(file =~= file.take(file.len() - tail.len()) + tail);
    }
}

/// A log that is tracked has the offset it was given, and the others keep
/// theirs.
pub proof fn law_tracked_offset(
    m: Seq<(Seq<char>, u64)>,
    name: Seq<char>,
    offset: u64,
    other: Seq<char>,
)
    requires
        ordered(m),
    ensures
        lookup(track(m, name, offset), name) == Some(offset),
        other != name ==> lookup(track(m, name, offset), other) == lookup(m, other),
        ordered(track(m, name, offset)),
{
    lemma_track(m, name, offset);
    if has_key(m, name) {
        crate::pairs::law_put_then_lookup(m, name, offset, other);
    } else {
        lemma_track_lookup(m, name, offset, name);
        lemma_track_lookup(m, name, offset, other);
    }
}

/// A log that is there when following begins starts at its end, one that is
/// not there at 0; the last that is said of a name counts.
pub proof fn law_named_logs_start_at_their_end(
    names: Seq<Seq<char>>,
    sizes: Seq<Option<u64>>,
    i: int,
)
    requires
        names.len() == sizes.len(),
        0 <= i < names.len(),
        forall|j: int| i < j < names.len() ==> #[trigger] names[j] != names[i],
    ensures
        sizes[i] matches Some(n) ==> lookup(named_logs(names, sizes), names[i]) == Some(n),
        sizes[i] is None ==> lookup(named_logs(names, sizes), names[i]) == Some(0u64),
{
    lemma_named_logs(names, sizes, i);
}

proof fn lemma_named_logs_ordered(names: Seq<Seq<char>>, sizes: Seq<Option<u64>>)
    ensures
        ordered(named_logs(names, sizes)),
    decreases names.len(),
{
    if names.len() > 0 {
        lemma_named_logs_ordered(names.drop_last(), sizes);
        lemma_track(
            named_logs(names.drop_last(), sizes),
            names.last(),
            end_of(sizes[names.len() - 1]),
        );
    }
}

proof fn lemma_named_logs(names: Seq<Seq<char>>, sizes: Seq<Option<u64>>, i: int)
    requires
        names.len() <= sizes.len(),
        0 <= i < names.len(),
        forall|j: int| i < j < names.len() ==> #[trigger] names[j] != names[i],
    ensures
        lookup(named_logs(names, sizes), names[i]) == Some(end_of(sizes[i])),
    decreases names.len(),
{
    let before = names.drop_last();
    lemma_named_logs_ordered(before, sizes);
    law_tracked_offset(
        named_logs(before, sizes),
        names.last(),
        end_of(sizes[names.len() - 1]),
        names[i],
    );
    if i < names.len() - 1 {
        assert(names[names.len() - 1] != names[i]);
        assert(before[i] == names[i]);
        assert forall|j: int| i < j < before.len() implies #[trigger] before[j] != before[i] by {
            assert(names[j] != names[i]);
        }
        lemma_named_logs(before, sizes, i);
    }
}

/// Only the named logs are followed.
pub proof fn law_only_named_logs_are_followed(
    names: Seq<Seq<char>>,
    sizes: Seq<Option<u64>>,
    name: Seq<char>,
)
    ensures
        has_key(named_logs(names, sizes), name) ==> names.contains(name),
    decreases names.len(),
{
    if names.len() > 0 {
        let before = names.drop_last();
        law_only_named_logs_are_followed(before, sizes, name);
        lemma_named_logs_ordered(before, sizes);
        law_tracked_offset(
            named_logs(before, sizes),
            names.last(),
            end_of(sizes[names.len() - 1]),
            name,
        );
        if name == names.last() {
            assert(names[names.len() - 1] == name);
        } else if has_key(named_logs(names, sizes), name) {
            assert(lookup(named_logs(before, sizes), name) is Some);
            let k = choose|k: int| 0 <= k < before.len() && before[k] == name;
            assert(names[k] == name);
        }
    }
}

/// Following everything is following the owners of the logs among the files,
/// each from its end; a file that is no log adds nothing.
pub proof fn law_all_logs_are_followed(files: Seq<Seq<char>>, sizes: Seq<Option<u64>>, file: Seq<char>, name: Seq<char>)
    requires
        sizes.len() > files.len(),
    ensures
        ordered(all_logs(files, sizes)),
        all_logs(Seq::empty(), sizes).len() == 0,
        log_owner(file) is None ==> all_logs(files.push(file), sizes) == all_logs(files, sizes),
        log_owner(file) matches Some(n) ==> lookup(all_logs(files.push(file), sizes), n) == Some(
            if sizes[files.len() as int] is Some {
                sizes[files.len() as int]->0
            } else {
                0
            },
        ) && (name != n ==> lookup(all_logs(files.push(file), sizes), name) == lookup(
            all_logs(files, sizes),
            name,
        )),
{
    lemma_all_logs_ordered(files, sizes);
    assert(files.push(file).drop_last() =~= files);
    assert(files.push(file).last() == file);
    if log_owner(file) is Some {
        law_tracked_offset(
            all_logs(files, sizes),
            log_owner(file)->0,
            end_of(sizes[files.len() as int]),
            name,
        );
    }
}

proof fn lemma_all_logs_ordered(files: Seq<Seq<char>>, sizes: Seq<Option<u64>>)
    ensures
        ordered(all_logs(files, sizes)),
    decreases files.len(),
{
    if files.len() > 0 {
        lemma_all_logs_ordered(files.drop_last(), sizes);
        if log_owner(files.last()) is Some {
            lemma_track(
                all_logs(files.drop_last(), sizes),
                log_owner(files.last())->0,
                end_of(sizes[files.len() - 1]),
            );
        }
    }
}

/// Every log among the files is followed after a look at them, and nothing that
/// was not followed before and is no log among them.
pub proof fn law_every_new_log_is_discovered(
    m: Seq<(Seq<char>, u64)>,
    files: Seq<Seq<char>>,
    name: Seq<char>,
)
    requires
        ordered(m),
    ensures
        files.contains(name + ".events.jsonl"@) ==> has_key(discovered(m, files), name),
        has_key(discovered(m, files), name) ==> has_key(m, name) || files.contains(
            name + ".events.jsonl"@,
        ),
    decreases files.len(),
{
    let file = name + ".events.jsonl"@;
    law_names_of_logs(name, file);
    if files.len() > 0 {
        let before = files.drop_last();
        let last = files.last();
        law_every_new_log_is_discovered(m, before, name);
        law_discovery_keeps_offsets(m, before, name);
        law_names_of_logs(name, last);
        let d = discovered(m, before);
        if log_owner(last) is Some && !has_key(d, log_owner(last)->0) {
            law_tracked_offset(d, log_owner(last)->0, 0, name);
        }
        if files.contains(file) {
            let k = choose|k: int| 0 <= k < files.len() && files[k] == file;
            if k < before.len() {
                assert(before[k] == file);
                assert(before.contains(file));
            }
        }
        if before.contains(file) {
            let k = choose|k: int| 0 <= k < before.len() && before[k] == file;
            assert(files[k] == file);
        }
        if last == file {
            assert(files[files.len() - 1] == file);
        }
    }
}

/// The bytes that are read are those up to and with the last line feed, and a
/// buffer without one gives nothing.
pub proof fn law_complete_lines_are_read(line: Seq<u8>, rest: Seq<u8>)
    requires
        !rest.contains(10u8),
    ensures
        complete_len(line.push(10u8) + rest) == line.len() + 1,
        complete_len(rest) == 0,
        events_in(rest).len() == 0,
{
    let buf = line.push(10u8) + rest;
    lemma_complete_len(buf);
    lemma_complete_len(rest);
    assert(buf[line.len() as int] == 10);
    if complete_len(buf) > line.len() + 1 {
        let i = complete_len(buf) - 1;
        assert(buf[i] == rest[i - line.len() - 1]);
        assert(rest.contains(10u8));
    }
    if complete_len(rest) > 0 {
        assert(rest.contains(rest[complete_len(rest) - 1]));
    }
}

/// What is known of the followed logs is their names and offsets, in order.
pub proof fn law_followed_logs(v: Seq<FollowedLog>, i: int)
    requires
        0 <= i < v.len(),
    ensures
        followed(v).len() == v.len(),
        followed(v)[i].0 == v[i].name@ && followed(v)[i].1 == v[i].offset,
{
}

} // verus!
