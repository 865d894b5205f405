//! `<name>.events.jsonl`: the append-only event log.
//!
//! Envelope: `{"session", "type", "ts", ...payload}` with `ts` an ISO-8601
//! timestamp. Retention: at or past 1000 lines the last 500 are kept,
//! rewritten atomically under the event lock.

pub mod event_type;
pub mod follow;

use crate::json::{
    as_text, compact, max_nesting, member_text, object_text, parse_json, parsed, readable,
    repeats_key, spelled_keys, spells_twice, to_json_text, truncate_float, truncated, zero_text,
    Json, JsonMap, JsonView, Members,
};
use crate::maps::{
    changes, changes_at, changes_len, entries, ref_entries, tags_len, TagChanges, TagMap,
};
use crate::pairs::{
    distinct_keys, has_key, key_index, lemma_key_index, lookup,
    put, without,
};
use crate::protocol::int_json;
use crate::registry::metadata::{pairs_json, string_map_value};
use crate::registry::names::{is_js_whitespace, js_space};
use crate::registry::time::{
    iso8601_from_epoch_ms, iso_ms, iso_text, local_hms, parse_iso8601_ms,
};
use crate::text::{
    begins, dec_int, i64_string, join, joined, lemma_views_push, lines, opt_view, pieces, slice_of,
    space, spaceless_end, split_lines, split_on, starts_with, str_eq, to_chars, trim_back,
    u64_string, views, padded, without_cr,
};
use vstd::prelude::*;

verus! {

/// The source of a notification.
#[derive(Debug, Clone, Copy, PartialEq, Eq, Structural)]
pub enum NotificationSource {
    Osc9,
    Osc99,
    Osc777,
}

/// The text of a source.
pub open spec fn source_text(s: NotificationSource) -> Seq<char> {
    match s {
        NotificationSource::Osc9 => "osc9"@,
        NotificationSource::Osc99 => "osc99"@,
        NotificationSource::Osc777 => "osc777"@,
    }
}

impl NotificationSource {
    /// The text of the source.
    pub fn as_str(&self) -> (r: &'static str)
        ensures
            r@ == source_text(*self),
    {
        match self {
            NotificationSource::Osc9 => "osc9",
            NotificationSource::Osc99 => "osc99",
            NotificationSource::Osc777 => "osc777",
        }
    }
}

/// Why garbage collection abandoned a permanent session.
#[derive(Debug, Clone, Copy, PartialEq, Eq, Structural)]
pub enum AbandonReason {
    CwdGone,
    Idle,
}

/// The text of a reason.
pub open spec fn reason_text(r: AbandonReason) -> Seq<char> {
    match r {
        AbandonReason::CwdGone => "cwd-gone"@,
        AbandonReason::Idle => "idle"@,
    }
}

impl AbandonReason {
    /// The text of the reason.
    pub fn as_str(&self) -> (r: &'static str)
        ensures
            r@ == reason_text(*self),
    {
        match self {
            AbandonReason::CwdGone => "cwd-gone",
            AbandonReason::Idle => "idle",
        }
    }
}

/// One event record. On the wire it is flat: `session`, `type`, `ts`, then
/// every payload field in the order of insertion.
#[derive(Debug, PartialEq)]
pub struct Event {
    pub session: String,
    pub type_: String,
    pub ts: String,
    pub payload: JsonMap,
}

/// The mathematical content of an `Event`.
#[verifier::ext_equal]
pub struct EventRecord {
    pub session: Seq<char>,
    pub type_: Seq<char>,
    pub ts: Seq<char>,
    pub payload: Members,
}

impl View for Event {
    type V = EventRecord;

    open spec fn view(&self) -> EventRecord {
        EventRecord {
            session: self.session@,
            type_: self.type_@,
            ts: self.ts@,
            payload: self.payload@,
        }
    }
}

/// The contents of a list of events.
pub open spec fn event_records(v: Seq<Event>) -> Seq<EventRecord> {
    Seq::new(v.len(), |i: int| v[i]@)
}

/// An event without payload.
pub open spec fn plain_event(session: Seq<char>, type_: Seq<char>, ts: Seq<char>) -> EventRecord {
    EventRecord { session, type_, ts, payload: Members::empty() }
}

/// The event with one more payload field.
pub open spec fn with_field(e: EventRecord, key: Seq<char>, value: JsonView) -> EventRecord {
    EventRecord { payload: put(e.payload, key, value), ..e }
}

/// The event with one more payload field, where there is a value.
pub open spec fn with_some(e: EventRecord, key: Seq<char>, value: Option<JsonView>) -> EventRecord {
    match value {
        Some(v) => with_field(e, key, v),
        None => e,
    }
}

/// Whether the payload repeats no key of the envelope.
pub open spec fn flat(e: EventRecord) -> bool {
    !has_key(e.payload, "session"@) && !has_key(e.payload, "type"@) && !has_key(e.payload, "ts"@)
}

/// The event as one object.
pub open spec fn envelope(e: EventRecord) -> Members {
    seq![
        ("session"@, JsonView::Str(e.session)),
        ("type"@, JsonView::Str(e.type_)),
        ("ts"@, JsonView::Str(e.ts)),
    ] + e.payload
}

/// The timestamp that a value means: a text as it stands, a number as
/// milliseconds since the epoch, anything else as its JSON text. A number
/// beyond 64 bits with a sign counts as the largest.
pub open spec fn ts_of(v: JsonView) -> Seq<char> {
    match v {
        JsonView::Str(s) => s,
        JsonView::Int(n) => if n <= i64::MAX {
            iso_text(n)
        } else {
            iso_text(i64::MAX as int)
        },
        JsonView::Float(t) => iso_text(truncated(t) as int),
        other => compact(other),
    }
}

/// The event that an object holds: session and type must be texts, and there
/// must be a timestamp; every other member is payload.
pub open spec fn event_in(m: Members) -> Option<EventRecord> {
    match (as_text(lookup(m, "session"@)), as_text(lookup(m, "type"@)), lookup(m, "ts"@)) {
        (Some(session), Some(type_), Some(ts)) => Some(
            EventRecord {
                session,
                type_,
                ts: ts_of(ts),
                payload: without(without(without(m, "session"@), "type"@), "ts"@),
            },
        ),
        _ => None,
    }
}

/// Whether a line spells a key of the envelope out more than once.
pub open spec fn ambiguous(line: Seq<char>) -> bool {
    repeats_key(line, "session"@) || repeats_key(line, "type"@) || repeats_key(line, "ts"@)
}

/// The event that a line holds. A line that repeats a key of the envelope
/// holds none.
pub open spec fn event_of_line(line: Seq<char>) -> Option<EventRecord> {
    match parsed(line) {
        Some(JsonView::Object(m)) => if ambiguous(line) {
            None
        } else {
            event_in(m)
        },
        _ => None,
    }
}

impl Clone for Event {
    fn clone(&self) -> (r: Event)
        ensures
            r@ == self@,
    {
        Event {
            session: self.session.clone(),
            type_: self.type_.clone(),
            ts: self.ts.clone(),
            payload: self.payload.copy(),
        }
    }
}

fn text_json(s: &str) -> (j: Json)
    ensures
        j@ == JsonView::Str(s@),
{
    Json::Str(s.to_owned())
}

/// An optional text as a value: `null` when absent.
pub open spec fn nullable(v: Option<Seq<char>>) -> JsonView {
    match v {
        Some(s) => JsonView::Str(s),
        None => JsonView::Null,
    }
}

fn nullable_json(v: &Option<String>) -> (j: Json)
    ensures
        j@ == nullable(opt_view(*v)),
{
    match v {
        Some(s) => Json::Str(s.clone()),
        None => Json::Null,
    }
}

/// The optional texts of a notification.
pub open spec fn ref_text(v: Option<&str>) -> Option<JsonView> {
    match v {
        Some(s) => Some(JsonView::Str(s@)),
        None => None,
    }
}

/// `key:value` as in one line of JSON.
fn member_line(key: &str, value: &Json) -> (r: String)
    ensures
        r@ == member_text((key@, value@)),
{
    let mut s = to_json_text(&text_json(key));
    let v = to_json_text(value);
    s.append(":");
    s.append(v.as_str());
    s
}

/// Reading an event back: the envelope of an event holds that event.
pub proof fn law_event_round_trip(e: EventRecord)
    ensures
        event_in(envelope(e)) == Some(e),
{
    reveal_strlit("session");
    reveal_strlit("type");
    reveal_strlit("ts");
    assert("session"@.len() == 7 && "type"@.len() == 4 && "ts"@.len() == 2);
    let m = envelope(e);
    let p = e.payload;
    let rest1 = seq![("type"@, JsonView::Str(e.type_)), ("ts"@, JsonView::Str(e.ts))] + p;
    let rest2 = seq![("ts"@, JsonView::Str(e.ts))] + p;
    reveal_with_fuel(key_index, 4);
    assert(m[0].0 == "session"@ && m[1].0 == "type"@ && m[2].0 == "ts"@);
    assert(key_index(m, "session"@, 0) == 0);
    assert(key_index(m, "type"@, 0) == 1);
    assert(key_index(m, "ts"@, 0) == 2);
    assert(without(m, "session"@) =~= rest1);
    assert(rest1[0].0 == "type"@ && rest1[1].0 == "ts"@);
    assert(key_index(rest1, "type"@, 0) == 0);
    assert(without(rest1, "type"@) =~= rest2);
    assert(rest2[0].0 == "ts"@);
    assert(key_index(rest2, "ts"@, 0) == 0);
    assert(without(rest2, "ts"@) =~= p);
}

impl Event {
    /// An event of `type_` for `session` stamped `ts`, with no payload.
    pub fn new(session: &str, type_: &str, ts: &str) -> (e: Event)
        ensures
            e@ == plain_event(session@, type_@, ts@),
    {
        Event {
            session: session.to_owned(),
            type_: type_.to_owned(),
            ts: ts.to_owned(),
            payload: JsonMap::new(),
        }
    }

    /// Replace the timestamp.
    pub fn with_ts(self, ts: &str) -> (e: Event)
        ensures
            e@ == (EventRecord { ts: ts@, ..self@ }),
    {
        Event { session: self.session, type_: self.type_, ts: ts.to_owned(), payload: self.payload }
    }

    /// Add a payload field.
    pub fn with(self, key: &str, value: Json) -> (e: Event)
        ensures
            e@ == with_field(self@, key@, value@),
    {
        let mut payload = self.payload;
        payload.insert(key.to_owned(), value);
        Event { session: self.session, type_: self.type_, ts: self.ts, payload }
    }

    /// A payload field.
    pub fn get(&self, key: &str) -> (r: Option<&Json>)
        ensures
            match r {
                Some(j) => lookup(self@.payload, key@) == Some(j@),
                None => lookup(self@.payload, key@) is None,
            },
    {
        self.payload.get(key)
    }

    /// A payload field as a string.
    pub fn get_str(&self, key: &str) -> (r: Option<&str>)
        ensures
            match r {
                Some(s) => as_text(lookup(self@.payload, key@)) == Some(s@),
                None => as_text(lookup(self@.payload, key@)) is None,
            },
    {
        self.payload.get_str(key)
    }

    /// Is this an event that a user published?
    pub fn is_user_event(&self) -> (r: bool)
        ensures
            r == begins(self@.type_, "user."@),
    {
        starts_with(self.type_.as_str(), event_type::USER_PREFIX)
    }

    /// The record as one JSON line, without the line end. A payload that
    /// repeats a key of the envelope repeats it in the line.
    pub fn to_json(&self) -> (r: String)
        ensures
            r@ == object_text(envelope(self@)),
            flat(self@) ==> r@ == compact(JsonView::Object(envelope(self@))),
            flat(self@) ==> !r@.contains('\n') && !r@.contains('\r'),
            flat(self@) && readable(JsonView::Object(envelope(self@)), max_nesting())
                ==> event_of_line(r@) == Some(self@),
    {
        if self.payload.contains_key("session") || self.payload.contains_key("type")
            || self.payload.contains_key("ts") {
            self.repeating_line()
        } else {
            proof {
                law_event_round_trip(self@);
            }
            self.flat_line()
        }
    }

    /// The line of a record whose payload repeats a key of the envelope.
    fn repeating_line(&self) -> (r: String)
        ensures
            r@ == object_text(envelope(self@)),
    {
        let ghost all = envelope(self@);
        let ghost want = Seq::new(all.len(), |i: int| member_text(all[i]));
        let mut parts: Vec<String> = Vec::new();
        parts.push(member_line("session", &text_json(self.session.as_str())));
        parts.push(member_line("type", &text_json(self.type_.as_str())));
        parts.push(member_line("ts", &text_json(self.ts.as_str())));
        let n = self.payload.len();
        assert(views(parts@) =~= want.take(3));
        let mut i: usize = 0;
        while i < n
            invariant
                i <= n,
                n == self.payload@.len(),
                all == envelope(self@),
                want == Seq::new(all.len(), |i: int| member_text(all[i])),
                views(parts@) == want.take(i + 3),
            decreases n - i,
        {
            let ghost before = parts@;
            let part = member_line(self.payload.key_at(i), self.payload.value_at(i));
            parts.push(part);
            proof {
                lemma_views_push(before, part);
                assert(all[i + 3] == self.payload@[i as int]);
                assert(want.take(i + 4) =~= want.take(i + 3).push(want[i + 3]));
            }
            i += 1;
        }
        assert(want.take(n + 3) =~= want);
        let members = join(parts.as_slice(), ",");
        let mut line = "{".to_owned();
        line.append(members.as_str());
        line.append("}");
        line
    }

    /// The line of a record whose payload repeats no key of the envelope.
    fn flat_line(&self) -> (r: String)
        requires
            flat(self@),
        ensures
            r@ == compact(JsonView::Object(envelope(self@))),
            r@ == object_text(envelope(self@)),
            !r@.contains('\n'),
            !r@.contains('\r'),
            !ambiguous(r@),
            readable(JsonView::Object(envelope(self@)), max_nesting()) ==> parsed(r@) == Some(
                JsonView::Object(envelope(self@)),
            ),
    {
        proof {
            reveal_strlit("session");
            reveal_strlit("type");
            reveal_strlit("ts");
            assert("session"@.len() == 7 && "type"@.len() == 4 && "ts"@.len() == 2);
        }
        let mut m = JsonMap::new();
        m.add_member("session", Json::Str(self.session.clone()));
        m.add_member("type", Json::Str(self.type_.clone()));
        m.add_member("ts", Json::Str(self.ts.clone()));
        let n = self.payload.len();
        let ghost head = m@;
        let ghost p = self.payload@;
        proof {
            lemma_key_index(p, "session"@, 0);
            lemma_key_index(p, "type"@, 0);
            lemma_key_index(p, "ts"@, 0);
            assert(head + p.take(0) =~= head);
        }
        let mut i: usize = 0;
        while i < n
            invariant
                i <= n,
                n == p.len(),
                p == self.payload@,
                distinct_keys(p),
                forall|j: int|
                    0 <= j < p.len() ==> (#[trigger] p[j]).0 != "session"@ && p[j].0 != "type"@
                        && p[j].0 != "ts"@,
                head == seq![
                    ("session"@, JsonView::Str(self@.session)),
                    ("type"@, JsonView::Str(self@.type_)),
                    ("ts"@, JsonView::Str(self@.ts)),
                ],
                m@ == head + p.take(i as int),
            decreases n - i,
        {
            assert forall|j: int| 0 <= j < m@.len() implies (#[trigger] m@[j]).0 != p[i as int].0 by {
                if j >= 3 {
                    assert(m@[j] == p[j - 3]);
                } else {
                    assert(m@[j] == head[j]);
                }
            }
            m.add_member(self.payload.key_at(i), self.payload.value_at(i).copy());
            assert((head + p.take(i as int)).push(p[i as int]) =~= head + p.take(i + 1));
            i += 1;
        }
        assert(p.take(n as int) =~= p);
        assert(m@ =~= envelope(self@));
        let count = m.len();
        let r = to_json_text(&Json::Object(m));
        proof {
            let keys = envelope(self@);
            assert forall|i: int, j: int| 0 <= i < j < count implies (#[trigger] spelled_keys(
                r@,
            )[i]) != (#[trigger] spelled_keys(r@)[j]) by {
                assert(keys[i].0 != keys[j].0);
            }
        }
        r
    }

    /// The event that a JSON value holds.
    pub fn from_json(value: &Json) -> (r: Option<Event>)
        ensures
            match r {
                Some(e) => value@ matches JsonView::Object(m) && event_in(m) == Some(e@),
                None => value@ matches JsonView::Object(m) ==> event_in(m) is None,
            },
    {
        match value {
            Json::Object(m) => {
                let session = match m.get_str("session") {
                    Some(s) => s.to_owned(),
                    None => {
                        return None;
                    },
                };
                let type_ = match m.get_str("type") {
                    Some(s) => s.to_owned(),
                    None => {
                        return None;
                    },
                };
                let ts = match m.get("ts") {
                    Some(v) => ts_text(v),
                    None => {
                        return None;
                    },
                };
                let mut payload = m.copy();
                payload.remove("session");
                payload.remove("type");
                payload.remove("ts");
                Some(Event { session, type_, ts, payload })
            },
            _ => None,
        }
    }

    /// The event that a line of the log holds, `None` when the line cannot be
    /// read.
    pub fn parse_line(line: &str) -> (r: Option<Event>)
        ensures
            match r {
                Some(e) => event_of_line(line@) == Some(e@),
                None => event_of_line(line@) is None,
            },
    {
        match parse_json(line) {
            Some(j) => {
                if spells_twice(line, "session") || spells_twice(line, "type") || spells_twice(
                    line,
                    "ts",
                ) {
                    None
                } else {
                    Event::from_json(&j)
                }
            },
            None => None,
        }
    }

    /// The terminal rang its bell.
    pub fn bell(session: &str, ts: &str) -> (e: Event)
        ensures
            e@ == plain_event(session@, "bell"@, ts@),
    {
        Event::new(session, event_type::BELL, ts)
    }

    /// The terminal title changed.
    pub fn title_change(session: &str, ts: &str, value: &str) -> (e: Event)
        ensures
            e@ == with_field(
                plain_event(session@, "title_change"@, ts@),
                "value"@,
                JsonView::Str(value@),
            ),
    {
        Event::new(session, event_type::TITLE_CHANGE, ts).with("value", text_json(value))
    }

    /// A notification; absent parts are omitted.
    pub fn notification(
        session: &str,
        ts: &str,
        title: Option<&str>,
        body: Option<&str>,
        source: Option<NotificationSource>,
    ) -> (e: Event)
        ensures
            ({
                let e0 = plain_event(session@, "notification"@, ts@);
                let e1 = with_some(e0, "title"@, ref_text(title));
                let e2 = with_some(e1, "body"@, ref_text(body));
                e@ == with_some(
                    e2,
                    "source"@,
                    match source {
                        Some(s) => Some(JsonView::Str(source_text(s))),
                        None => None,
                    },
                )
            }),
    {
        let mut e = Event::new(session, event_type::NOTIFICATION, ts);
        if let Some(t) = title {
            e = e.with("title", text_json(t));
        }
        if let Some(b) = body {
            e = e.with("body", text_json(b));
        }
        if let Some(s) = source {
            e = e.with("source", text_json(s.as_str()));
        }
        e
    }

    /// The terminal asks for focus.
    pub fn focus_request(session: &str, ts: &str) -> (e: Event)
        ensures
            e@ == plain_event(session@, "focus_request"@, ts@),
    {
        Event::new(session, event_type::FOCUS_REQUEST, ts)
    }

    /// The cursor became visible again.
    pub fn cursor_visible(session: &str, ts: &str) -> (e: Event)
        ensures
            e@ == plain_event(session@, "cursor_visible"@, ts@),
    {
        Event::new(session, event_type::CURSOR_VISIBLE, ts)
    }

    /// A session started; tags only when there are some.
    pub fn session_start(session: &str, ts: &str, tags: Option<&TagMap>) -> (e: Event)
        ensures
            e@ == with_some(
                plain_event(session@, "session_start"@, ts@),
                "tags"@,
                if ref_entries(tags).len() > 0 {
                    Some(pairs_json(ref_entries(tags)))
                } else {
                    None
                },
            ),
    {
        let mut e = Event::new(session, event_type::SESSION_START, ts);
        if let Some(t) = tags {
            if tags_len(t) > 0 {
                e = e.with("tags", string_map_value(t));
            }
        }
        e
    }

    /// A session exited; a signal death carries the signal, unless it is 0.
    pub fn session_exit(session: &str, ts: &str, exit_code: i32, signal: Option<i32>) -> (e: Event)
        ensures
            e@ == with_some(
                with_field(
                    plain_event(session@, "session_exit"@, ts@),
                    "exitCode"@,
                    JsonView::Int(exit_code as int),
                ),
                "signal"@,
                match signal {
                    Some(s) => if s != 0 {
                        Some(JsonView::Int(s as int))
                    } else {
                        None
                    },
                    None => None,
                },
            ),
    {
        let mut e = Event::new(session, event_type::SESSION_EXIT, ts).with(
            "exitCode",
            int_json(exit_code),
        );
        if let Some(s) = signal {
            if s != 0 {
                e = e.with("signal", int_json(s));
            }
        }
        e
    }

    /// Processes were still alive after the daemon had killed them.
    pub fn session_descendants_survived(session: &str, ts: &str, pids: &[i32]) -> (e: Event)
        ensures
            e@ == with_field(
                plain_event(session@, "session_descendants_survived"@, ts@),
                "data"@,
                JsonView::Object(
                    seq![
                        (
                            "pids"@,
                            JsonView::Array(
                                Seq::new(pids@.len(), |i: int| JsonView::Int(pids@[i] as int)),
                            ),
                        ),
                    ],
                ),
            ),
    {
        let mut list: Vec<Json> = Vec::new();
        let mut i: usize = 0;
        while i < pids.len()
            invariant
                i <= pids@.len(),
                list@.len() == i,
                forall|j: int| 0 <= j < i ==> (#[trigger] list@[j])@ == JsonView::Int(pids@[j] as int),
            decreases pids.len() - i,
        {
            list.push(int_json(pids[i]));
            i += 1;
        }
        let array = Json::Array(list);
        assert(array@->Array_0 =~= Seq::new(pids@.len(), |i: int| JsonView::Int(pids@[i] as int)));
        let mut m = JsonMap::new();
        m.add_member("pids", array);
        assert(m@ =~= seq![("pids"@, array@)]);
        Event::new(session, event_type::SESSION_DESCENDANTS_SURVIVED, ts).with(
            "data",
            Json::Object(m),
        )
    }

    /// A session runs another command.
    pub fn session_exec(session: &str, ts: &str, previous_command: &str, command: &str) -> (e:
        Event)
        ensures
            e@ == with_field(
                with_field(
                    plain_event(session@, "session_exec"@, ts@),
                    "previousCommand"@,
                    JsonView::Str(previous_command@),
                ),
                "command"@,
                JsonView::Str(command@),
            ),
    {
        Event::new(session, event_type::SESSION_EXEC, ts).with(
            "previousCommand",
            text_json(previous_command),
        ).with("command", text_json(command))
    }

    /// A session was started again.
    pub fn session_respawn(session: &str, ts: &str) -> (e: Event)
        ensures
            e@ == plain_event(session@, "session_respawn"@, ts@),
    {
        Event::new(session, event_type::SESSION_RESPAWN, ts)
    }

    /// A permanent session was given up.
    pub fn session_abandoned(
        session: &str,
        ts: &str,
        reason: AbandonReason,
        idle_days: Option<u64>,
    ) -> (e: Event)
        ensures
            e@ == with_some(
                with_field(
                    plain_event(session@, "session_abandoned"@, ts@),
                    "reason"@,
                    JsonView::Str(reason_text(reason)),
                ),
                "idleDays"@,
                match idle_days {
                    Some(d) => Some(JsonView::Int(d as int)),
                    None => None,
                },
            ),
    {
        let mut e = Event::new(session, event_type::SESSION_ABANDONED, ts).with(
            "reason",
            text_json(reason.as_str()),
        );
        if let Some(days) = idle_days {
            e = e.with("idleDays", Json::PosInt(days));
        }
        e
    }

    /// A permanent session fails too fast too often.
    pub fn session_flapping(session: &str, ts: &str, counter: u64, limit: u64, window: u64) -> (e:
        Event)
        ensures
            e@ == with_field(
                with_field(
                    with_field(
                        plain_event(session@, "session_flapping"@, ts@),
                        "counter"@,
                        JsonView::Int(counter as int),
                    ),
                    "limit"@,
                    JsonView::Int(limit as int),
                ),
                "window"@,
                JsonView::Int(window as int),
            ),
    {
        Event::new(session, event_type::SESSION_FLAPPING, ts).with(
            "counter",
            Json::PosInt(counter),
        ).with("limit", Json::PosInt(limit)).with("window", Json::PosInt(window))
    }

    /// An event that a user publishes. The type is not validated here.
    pub fn user(session: &str, type_: &str, ts: &str, data: Option<Json>, text: Option<&str>) -> (e:
        Event)
        ensures
            e@ == with_some(
                with_some(
                    plain_event(session@, type_@, ts@),
                    "data"@,
                    match data {
                        Some(d) => Some(d@),
                        None => None,
                    },
                ),
                "text"@,
                ref_text(text),
            ),
    {
        let mut e = Event::new(session, type_, ts);
        if let Some(d) = data {
            e = e.with("data", d);
        }
        if let Some(t) = text {
            e = e.with("text", text_json(t));
        }
        e
    }

    /// The display name changed; `null` when absent.
    pub fn display_name_change(
        session: &str,
        ts: &str,
        previous: &Option<String>,
        value: &Option<String>,
    ) -> (e: Event)
        ensures
            e@ == with_field(
                with_field(
                    plain_event(session@, "display_name_change"@, ts@),
                    "previous"@,
                    nullable(opt_view(*previous)),
                ),
                "value"@,
                nullable(opt_view(*value)),
            ),
    {
        Event::new(session, event_type::DISPLAY_NAME_CHANGE, ts).with(
            "previous",
            nullable_json(previous),
        ).with("value", nullable_json(value))
    }

    /// The tags changed; both maps in full.
    pub fn tags_change(session: &str, ts: &str, previous: &TagMap, value: &TagMap) -> (e: Event)
        ensures
            e@ == with_field(
                with_field(
                    plain_event(session@, "tags_change"@, ts@),
                    "previous"@,
                    pairs_json(entries(*previous)),
                ),
                "value"@,
                pairs_json(entries(*value)),
            ),
    {
        Event::new(session, event_type::TAGS_CHANGE, ts).with(
            "previous",
            string_map_value(previous),
        ).with("value", string_map_value(value))
    }

    /// Presentation metadata changed; only the touched keys.
    pub fn metadata_change(
        session: &str,
        ts: &str,
        previous: &MetadataChangeSnapshot,
        value: &MetadataChangeSnapshot,
    ) -> (e: Event)
        ensures
            e@ == with_field(
                with_field(
                    plain_event(session@, "metadata_change"@, ts@),
                    "previous"@,
                    previous.json(),
                ),
                "value"@,
                value.json(),
            ),
    {
        Event::new(session, event_type::METADATA_CHANGE, ts).with(
            "previous",
            previous.to_json(),
        ).with("value", value.to_json())
    }
}

/// The two halves of a metadata change: only the fields and tag keys that
/// effectively changed, where nothing inside means absent.
#[derive(Debug, PartialEq, Clone)]
pub struct MetadataChangeSnapshot {
    pub display_name: Option<Option<String>>,
    pub tags: Option<TagChanges>,
}

impl Default for MetadataChangeSnapshot {
    fn default() -> (r: MetadataChangeSnapshot)
        ensures
            r.display_name is None,
            r.tags is None,
    {
        MetadataChangeSnapshot { display_name: None, tags: None }
    }
}

/// Changes as a JSON object.
pub open spec fn changes_json(v: Seq<(Seq<char>, Option<Seq<char>>)>) -> JsonView {
    JsonView::Object(Seq::new(v.len(), |i: int| (v[i].0, nullable(v[i].1))))
}

/// An optional name of a snapshot, by content.
pub open spec fn opt_opt_view(v: Option<Option<String>>) -> Option<Option<Seq<char>>> {
    match v {
        Some(n) => Some(opt_view(n)),
        None => None,
    }
}

/// Optional changes, by content.
pub open spec fn opt_changes(m: Option<TagChanges>) -> Option<Seq<(Seq<char>, Option<Seq<char>>)>> {
    match m {
        Some(c) => Some(changes(c)),
        None => None,
    }
}

fn changes_to_json(m: &TagChanges) -> (j: Json)
    ensures
        j@ == changes_json(changes(*m)),
{
    let n = changes_len(m);
    let ghost want = changes_json(changes(*m))->Object_0;
    let mut out = JsonMap::new();
    let mut i: usize = 0;
    while i < n
        invariant
            i <= n,
            n == changes(*m).len(),
            want == changes_json(changes(*m))->Object_0,
            out@ == want.take(i as int),
        decreases n - i,
    {
        match changes_at(m, i) {
            Some((k, v)) => {
                proof {
                    lemma_key_index(changes(*m), k@, 0);
                    assert forall|j: int| 0 <= j < out@.len() implies (#[trigger] out@[j]).0
                        != k@ by {
                        assert(out@[j] == want[j]);
                        assert(changes(*m)[j].0 != k@);
                    }
                }
                out.add_member(k.as_str(), nullable_json(v));
                assert(want.take(i + 1) =~= want.take(i as int).push(want[i as int]));
            },
            None => {
                assert(false);
            },
        }
        i += 1;
    }
    assert(want.take(n as int) =~= want);
    Json::Object(out)
}

/// The JSON form of a snapshot: what did not change is left out.
pub open spec fn snapshot_json(
    name: Option<Option<Seq<char>>>,
    tags: Option<Seq<(Seq<char>, Option<Seq<char>>)>>,
) -> JsonView {
    let m = match name {
        Some(n) => seq![("displayName"@, nullable(n))],
        None => Members::empty(),
    };
    JsonView::Object(
        match tags {
            Some(t) => m.push(("tags"@, changes_json(t))),
            None => m,
        },
    )
}

impl MetadataChangeSnapshot {
    /// The JSON form.
    pub open spec fn json(self) -> JsonView {
        snapshot_json(opt_opt_view(self.display_name), opt_changes(self.tags))
    }

    /// Build the JSON form.
    pub fn to_json(&self) -> (j: Json)
        ensures
            j@ == self.json(),
    {
        proof {
            reveal_strlit("displayName");
            reveal_strlit("tags");
            assert("displayName"@.len() == 11);
            assert("tags"@.len() == 4);
        }
        let mut m = JsonMap::new();
        if let Some(n) = &self.display_name {
            m.add_member("displayName", nullable_json(n));
        }
        if let Some(t) = &self.tags {
            m.add_member("tags", changes_to_json(t));
        }
        assert(m@ =~= self.json()->Object_0);
        Json::Object(m)
    }
}

fn ts_text(v: &Json) -> (r: String)
    ensures
        r@ == ts_of(v@),
{
    match v {
        Json::Str(s) => s.clone(),
        Json::PosInt(n) => {
            if *n <= i64::MAX as u64 {
                iso8601_from_epoch_ms(*n as i64)
            } else {
                iso8601_from_epoch_ms(i64::MAX)
            }
        },
        Json::NegInt(n) => iso8601_from_epoch_ms(*n),
        Json::Float(x) => iso8601_from_epoch_ms(truncate_float(x)),
        _ => to_json_text(v),
    }
}

// ---- publishing ----------------------------------------------------------

/// Whether a character may not stand in an event type.
pub open spec fn bad_type_char(c: char) -> bool {
    js_space(c) || (c as int) < 0x20
}

/// Why a user's event type is refused, or `None` where it is accepted.
pub open spec fn type_error(t: Seq<char>) -> Option<Seq<char>> {
    if t.len() == 0 {
        Some("event type must be a non-empty string"@)
    } else if !begins(t, "user."@) {
        Some("custom events must start with \"user.\" (got "@ + compact(JsonView::Str(t)) + ")"@)
    } else if t == "user."@ {
        Some("event type \"user.\" needs a suffix (e.g. \"user.build-done\")"@)
    } else if exists|i: int| 0 <= i < t.len() && bad_type_char(#[trigger] t[i]) {
        Some("event type may not contain whitespace or control characters"@)
    } else {
        None
    }
}

fn holds_bad_char(s: &[char]) -> (r: bool)
    ensures
        r == exists|i: int| 0 <= i < s@.len() && bad_type_char(#[trigger] s@[i]),
{
    let mut i: usize = 0;
    while i < s.len()
        invariant
            i <= s@.len(),
            forall|j: int| 0 <= j < i ==> !bad_type_char(#[trigger] s@[j]),
        decreases s.len() - i,
    {
        if is_js_whitespace(s[i]) || crate::text::code_point(s[i]) < 0x20 {
            assert(bad_type_char(s@[i as int]));
            return true;
        }
        i += 1;
    }
    false
}

/// Validate the type of an event that a user publishes. `None` when valid,
/// else the message to print.
pub fn validate_user_event_type(type_: &str) -> (r: Option<String>)
    ensures
        opt_view(r) == type_error(type_@),
{
    if type_.is_empty() {
        return Some("event type must be a non-empty string".to_owned());
    }
    if !starts_with(type_, event_type::USER_PREFIX) {
        let quoted = to_json_text(&text_json(type_));
        let mut m = "custom events must start with \"user.\" (got ".to_owned();
        m.append(quoted.as_str());
        m.append(")");
        return Some(m);
    }
    if str_eq(type_, event_type::USER_PREFIX) {
        return Some("event type \"user.\" needs a suffix (e.g. \"user.build-done\")".to_owned());
    }
    let chars = to_chars(type_);
    if holds_bad_char(chars.as_slice()) {
        return Some("event type may not contain whitespace or control characters".to_owned());
    }
    None
}

/// Validate and build an event that a user publishes.
pub fn emit_user_event(
    session: &str,
    type_: &str,
    ts: &str,
    data: Option<Json>,
    text: Option<&str>,
) -> (r: Result<Event, String>)
    ensures
        match r {
            Ok(e) => type_error(type_@) is None && e@ == with_some(
                with_some(
                    plain_event(session@, type_@, ts@),
                    "data"@,
                    match data {
                        Some(d) => Some(d@),
                        None => None,
                    },
                ),
                "text"@,
                ref_text(text),
            ),
            Err(m) => type_error(type_@) == Some(m@),
        },
{
    match validate_user_event_type(type_) {
        Some(m) => Err(m),
        None => Ok(Event::user(session, type_, ts, data, text)),
    }
}

// ---- the log -------------------------------------------------------------

/// At or past this many lines the log is rewritten.
pub const MAX_LINES: usize = 1000;

/// The newest lines that a rewrite keeps.
pub const KEEP_LINES: usize = 500;

/// The daemon's writer checks the number of lines every so many appends.
pub const TRUNCATE_CHECK_INTERVAL: usize = 100;

/// Writers of one line skip the count while the file is smaller than this.
pub const TRUNCATE_SIZE_THRESHOLD: u64 = 40_000;

/// How many events a recent listing shows by default.
pub const DEFAULT_RECENT_EVENTS: usize = 50;

/// The line that an append writes, with its line end.
pub fn append_line(event: &Event) -> (r: String)
    ensures
        r@ == object_text(envelope(event@)).push('\n'),
        flat(event@) ==> !r@.drop_last().contains('\n') && !r@.drop_last().contains('\r'),
        flat(event@) && readable(JsonView::Object(envelope(event@)), max_nesting())
            ==> event_of_line(r@.drop_last()) == Some(event@),
{
    let mut line = event.to_json();
    let ghost text = line@;
    line.push('\n');
    assert(line@.drop_last() =~= text);
    line
}

/// The lines of a log, without white space at its end.
pub open spec fn log_lines(content: Seq<char>) -> Seq<Seq<char>> {
    pieces(spaceless_end(content), seq!['\n'])
}

/// What is left of a log that has grown too long: the newest lines.
pub open spec fn retained(content: Seq<char>) -> Option<Seq<char>> {
    let l = log_lines(content);
    if l.len() >= MAX_LINES {
        Some(joined(l.skip(l.len() - KEEP_LINES), "\n"@).push('\n'))
    } else {
        None
    }
}

fn take_log_lines(content: &str) -> (r: Vec<String>)
    ensures
        views(r@) == log_lines(content@),
{
    let chars = to_chars(content);
    let end = trim_back(chars.as_slice());
    let kept = slice_of(chars.as_slice(), 0, end);
    assert(kept@ =~= chars@.take(end as int));
    let newline: [char; 1] = ['\n'];
    assert(newline@ =~= seq!['\n']);
    split_on(kept.as_slice(), &newline)
}

/// The strings from `from` on.
fn tail_of(v: &[String], from: usize) -> (r: Vec<String>)
    requires
        from <= v@.len(),
    ensures
        views(r@) == views(v@).skip(from as int),
{
    let mut out: Vec<String> = Vec::new();
    let mut i: usize = from;
    assert(views(out@) =~= views(v@).subrange(from as int, from as int));
    while i < v.len()
        invariant
            from <= i <= v@.len(),
            views(out@) == views(v@).subrange(from as int, i as int),
        decreases v.len() - i,
    {
        let ghost before = out@;
        out.push(v[i].clone());
        proof {
            lemma_views_push(before, out@.last());
            assert(out@ =~= before.push(out@.last()));
            assert(views(v@).subrange(from as int, i + 1) =~= views(v@).subrange(
                from as int,
                i as int,
            ).push(views(v@)[i as int]));
        }
        i += 1;
    }
    assert(views(v@).subrange(from as int, v@.len() as int) =~= views(v@).skip(from as int));
    out
}

/// The new content of a log that has grown too long, `None` where it has not.
pub fn truncate(content: &str) -> (r: Option<String>)
    ensures
        opt_view(r) == retained(content@),
{
    let lines = take_log_lines(content);
    if lines.len() >= MAX_LINES {
        let kept = tail_of(lines.as_slice(), lines.len() - KEEP_LINES);
        let mut text = join(kept.as_slice(), "\n");
        text.push('\n');
        Some(text)
    } else {
        None
    }
}

/// Whether a log is large enough for its lines to be counted.
pub fn maybe_truncate(size: u64) -> (r: bool)
    ensures
        r == (size >= TRUNCATE_SIZE_THRESHOLD),
{
    size >= TRUNCATE_SIZE_THRESHOLD
}

/// The daemon's writer after one append: the number of appends since the last
/// check, and whether a check is due.
pub fn writer_step(appends: usize, written: bool) -> (r: (usize, bool))
    requires
        appends < TRUNCATE_CHECK_INTERVAL,
    ensures
        !written ==> r == (appends, false),
        written && appends + 1 < TRUNCATE_CHECK_INTERVAL ==> r.0 == appends + 1 && !r.1,
        written && appends + 1 >= TRUNCATE_CHECK_INTERVAL ==> r == (0usize, true),
{
    if !written {
        return (appends, false);
    }
    if appends + 1 >= TRUNCATE_CHECK_INTERVAL {
        (0, true)
    } else {
        (appends + 1, false)
    }
}

/// The texts that hold something.
pub open spec fn filled_lines(v: Seq<Seq<char>>) -> Seq<Seq<char>>
    decreases v.len(),
{
    if v.len() == 0 {
        v
    } else if v.last().len() == 0 {
        filled_lines(v.drop_last())
    } else {
        filled_lines(v.drop_last()).push(v.last())
    }
}

pub(crate) fn keep_filled(v: &[String]) -> (r: Vec<String>)
    ensures
        views(r@) == filled_lines(views(v@)),
{
    let mut out: Vec<String> = Vec::new();
    let mut i: usize = 0;
    assert(views(out@) =~= filled_lines(views(v@).take(0)));
    while i < v.len()
        invariant
            i <= v@.len(),
            views(out@) == filled_lines(views(v@).take(i as int)),
        decreases v.len() - i,
    {
        assert(views(v@).take(i + 1).drop_last() =~= views(v@).take(i as int));
        if !v[i].as_str().is_empty() {
            let ghost before = out@;
            out.push(v[i].clone());
            proof {
                lemma_views_push(before, out@.last());
                assert(out@ =~= before.push(out@.last()));
            }
        }
        i += 1;
    }
    assert(views(v@).take(v@.len() as int) =~= views(v@));
    out
}

/// The events of lines that all hold one, or nothing at all where one of them
/// does not.
pub open spec fn all_events(v: Seq<Seq<char>>) -> Option<Seq<EventRecord>>
    decreases v.len(),
{
    if v.len() == 0 {
        Some(Seq::empty())
    } else {
        match (all_events(v.drop_last()), event_of_line(v.last())) {
            (Some(rest), Some(e)) => Some(rest.push(e)),
            _ => None,
        }
    }
}

/// The events of the lines that hold one.
pub open spec fn some_events(v: Seq<Seq<char>>) -> Seq<EventRecord>
    decreases v.len(),
{
    if v.len() == 0 {
        Seq::empty()
    } else {
        match event_of_line(v.last()) {
            Some(e) => some_events(v.drop_last()).push(e),
            None => some_events(v.drop_last()),
        }
    }
}

/// The newest `count` lines of a log that hold something.
pub open spec fn recent_lines(content: Seq<char>, count: nat) -> Seq<Seq<char>> {
    let l = filled_lines(log_lines(content));
    if l.len() > count {
        l.skip(l.len() - count)
    } else {
        l
    }
}

proof fn lemma_all_events_fails(v: Seq<Seq<char>>, k: int)
    requires
        0 < k <= v.len(),
        event_of_line(v[k - 1]) is None,
    ensures
        all_events(v) is None,
    decreases v.len(),
{
    if k < v.len() {
        assert(v.drop_last()[k - 1] == v[k - 1]);
        lemma_all_events_fails(v.drop_last(), k);
    }
}

/// The newest `count` events of a log. Empty when any of the selected lines
/// cannot be read.
pub fn read_recent_events(content: &str, count: usize) -> (r: Vec<Event>)
    ensures
        event_records(r@) == (match all_events(recent_lines(content@, count as nat)) {
            Some(v) => v,
            None => Seq::empty(),
        }),
{
    let lines = take_log_lines(content);
    let filled = keep_filled(lines.as_slice());
    let ghost all = views(filled@);
    assert(all.len() == filled@.len());
    let start: usize = if filled.len() > count {
        filled.len() - count
    } else {
        0
    };
    let recent = tail_of(filled.as_slice(), start);
    let ghost rv = views(recent@);
    assert(rv =~= recent_lines(content@, count as nat));
    let mut out: Vec<Event> = Vec::new();
    let mut i: usize = 0;
    assert(event_records(out@) =~= Seq::<EventRecord>::empty());
    assert(rv.take(0) =~= Seq::<Seq<char>>::empty());
    while i < recent.len()
        invariant
            i <= recent@.len(),
            rv == views(recent@),
            rv == recent_lines(content@, count as nat),
            all_events(rv.take(i as int)) == Some(event_records(out@)),
        decreases recent.len() - i,
    {
        assert(rv.take(i + 1).drop_last() =~= rv.take(i as int));
        assert(rv.take(i + 1).last() == recent@[i as int]@);
        match Event::parse_line(recent[i].as_str()) {
            Some(e) => {
                let ghost before = event_records(out@);
                let ghost v = e@;
                out.push(e);
                assert(event_records(out@) =~= before.push(v));
            },
            None => {
                proof {
                    lemma_all_events_fails(rv, i + 1);
                }
                let none: Vec<Event> = Vec::new();
                assert(event_records(none@) =~= Seq::<EventRecord>::empty());
                return none;
            },
        }
        i += 1;
    }
    assert(rv.take(recent@.len() as int) =~= rv);
    out
}

/// Every event of a log, in order; a line that cannot be read is skipped.
pub fn read_all_events(content: &str) -> (r: Vec<Event>)
    ensures
        event_records(r@) == some_events(filled_lines(lines(content@))),
{
    let all = split_lines(content);
    let filled = keep_filled(all.as_slice());
    events_of(filled.as_slice())
}

/// The events of the lines that hold one.
pub(crate) fn events_of(v: &[String]) -> (r: Vec<Event>)
    ensures
        event_records(r@) == some_events(views(v@)),
{
    let ghost fv = views(v@);
    let mut out: Vec<Event> = Vec::new();
    let mut i: usize = 0;
    assert(event_records(out@) =~= Seq::<EventRecord>::empty());
    assert(fv.take(0) =~= Seq::<Seq<char>>::empty());
    while i < v.len()
        invariant
            i <= v@.len(),
            fv == views(v@),
            event_records(out@) == some_events(fv.take(i as int)),
        decreases v.len() - i,
    {
        assert(fv.take(i + 1).drop_last() =~= fv.take(i as int));
        assert(fv.take(i + 1).last() == v@[i as int]@);
        match Event::parse_line(v[i].as_str()) {
            Some(e) => {
                let ghost before = event_records(out@);
                let ghost w = e@;
                out.push(e);
                assert(event_records(out@) =~= before.push(w));
            },
            None => {},
        }
        i += 1;
    }
    assert(fv.take(v@.len() as int) =~= fv);
    out
}

/// Splitting a line feed and one more line.
proof fn lemma_pieces_line(a: Seq<char>, b: Seq<char>)
    requires
        !b.contains('\n'),
    ensures
        pieces(a.push('\n') + b, seq!['\n']) == pieces(a, seq!['\n']).push(b),
    decreases b.len(),
{
    let s = a.push('\n') + b;
    let seps = seq!['\n'];
    assert(seps[0] == '\n');
    if b.len() == 0 {
        assert(b =~= Seq::<char>::empty());
        assert(s.drop_last() =~= a);
        assert(seps.contains('\n'));
        assert(pieces(s, seps) =~= pieces(a, seps).push(b));
    } else {
        let c = b.last();
        assert(b[b.len() - 1] == c);
        assert forall|i: int| 0 <= i < b.drop_last().len() implies b.drop_last()[i] != '\n' by {
            assert(b[i] != '\n');
        }
        lemma_pieces_line(a, b.drop_last());
        assert(s.drop_last() =~= a.push('\n') + b.drop_last());
        assert(!seps.contains(c));
        let before = pieces(s.drop_last(), seps);
        assert(before.drop_last() =~= pieces(a, seps));
        assert(before.last() == b.drop_last());
        assert(b.drop_last().push(c) =~= b);
    }
}

/// Splitting whole lines and what follows them: the pieces of both, but for
/// the empty one between.
pub proof fn lemma_pieces_both(a: Seq<char>, b: Seq<char>)
    ensures
        pieces(a.push('\n') + b, seq!['\n']) == pieces(a, seq!['\n']) + pieces(b, seq!['\n']),
    decreases b.len(),
{
    let seps = seq!['\n'];
    let s = a.push('\n') + b;
    assert(seps[0] == '\n');
    assert(seps.contains('\n'));
    crate::text::lemma_pieces_nonempty(b, seps);
    if b.len() == 0 {
        assert(s.drop_last() =~= a);
        assert(pieces(s, seps) =~= pieces(a, seps) + pieces(b, seps));
    } else {
        lemma_pieces_both(a, b.drop_last());
        crate::text::lemma_pieces_nonempty(b.drop_last(), seps);
        assert(s.drop_last() =~= a.push('\n') + b.drop_last());
        assert(s.last() == b.last());
        assert(pieces(s, seps) =~= pieces(a, seps) + pieces(b, seps));
    }
}

/// The filled lines of two lists are those of the one and those of the other.
pub proof fn lemma_filled_both(a: Seq<Seq<char>>, b: Seq<Seq<char>>)
    ensures
        filled_lines(a + b) == filled_lines(a) + filled_lines(b),
    decreases b.len(),
{
    if b.len() > 0 {
        lemma_filled_both(a, b.drop_last());
        assert((a + b).drop_last() =~= a + b.drop_last());
        assert(filled_lines(a + b) =~= filled_lines(a) + filled_lines(b));
    } else {
        assert(a + b =~= a);
        assert(filled_lines(a) + filled_lines(b) =~= filled_lines(a));
    }
}

/// The events of two lists of lines are those of the one and those of the
/// other.
pub proof fn lemma_events_both(a: Seq<Seq<char>>, b: Seq<Seq<char>>)
    ensures
        some_events(a + b) == some_events(a) + some_events(b),
    decreases b.len(),
{
    if b.len() > 0 {
        lemma_events_both(a, b.drop_last());
        assert((a + b).drop_last() =~= a + b.drop_last());
        assert(some_events(a + b) =~= some_events(a) + some_events(b));
    } else {
        assert(a + b =~= a);
        assert(some_events(a) + some_events(b) =~= some_events(a));
    }
}

/// A text without a line feed is one piece.
pub proof fn lemma_pieces_single(b: Seq<char>)
    requires
        !b.contains('\n'),
    ensures
        pieces(b, seq!['\n']) == seq![b],
    decreases b.len(),
{
    let seps = seq!['\n'];
    assert(seps[0] == '\n');
    if b.len() > 0 {
        let c = b.last();
        assert(b[b.len() - 1] == c);
        assert forall|i: int| 0 <= i < b.drop_last().len() implies b.drop_last()[i] != '\n' by {
            assert(b[i] != '\n');
        }
        lemma_pieces_single(b.drop_last());
        assert(!seps.contains(c));
        assert(b.drop_last().push(c) =~= b);
        assert(pieces(b, seps) =~= seq![b]);
    } else {
        assert(b =~= Seq::<char>::empty());
    }
}

/// What is appended to a log of whole lines becomes its last line.
proof fn lemma_appended_piece(content: Seq<char>, line: Seq<char>)
    requires
        content.len() == 0 || content.last() == '\n',
        !line.contains('\n'),
    ensures
        pieces(content + line, seq!['\n']) == pieces(content, seq!['\n']).drop_last().push(line),
{
    if content.len() == 0 {
        assert(content + line =~= line);
        lemma_pieces_single(line);
        assert(pieces(content, seq!['\n']).drop_last().push(line) =~= seq![line]);
    } else {
        let a = content.drop_last();
        assert(a.push('\n') =~= content);
        lemma_pieces_line(a, line);
        lemma_pieces_line(a, Seq::empty());
        assert(a.push('\n') + Seq::<char>::empty() =~= content);
        assert(pieces(content, seq!['\n']).drop_last() =~= pieces(a, seq!['\n']));
    }
}

/// An event appended to a log of whole lines is the last event that reading
/// the log gives; the events before it stay as they were.
pub proof fn law_appended_event_is_read_last(content: Seq<char>, line: Seq<char>, e: EventRecord)
    requires
        content.len() == 0 || content.last() == '\n',
        line.len() > 0,
        !line.contains('\n'),
        !line.contains('\r'),
        event_of_line(line) == Some(e),
    ensures
        some_events(filled_lines(lines(content + line.push('\n')))) == some_events(
            filled_lines(lines(content)),
        ).push(e),
{
    let seps = seq!['\n'];
    let all = content + line.push('\n');
    let p0 = pieces(content, seps);
    lemma_appended_piece(content, line);
    lemma_pieces_line(content + line, Seq::empty());
    assert(all =~= (content + line).push('\n') + Seq::<char>::empty());
    let p = pieces(all, seps);
    crate::text::lemma_pieces_nonempty(content, seps);
    assert(p =~= p0.drop_last().push(line).push(Seq::empty()));
    if content.len() > 0 {
        let a = content.drop_last();
        assert(a.push('\n') + Seq::<char>::empty() =~= content);
        lemma_pieces_line(a, Seq::empty());
    }
    assert(p0.last().len() == 0);
    assert(line[line.len() - 1] == line.last());
    assert(without_cr(line) == line);
    let l0 = lines(content);
    let l = lines(all);
    assert forall|i: int| 0 <= i < l0.len() implies l[i] == l0[i] by {
        assert(p[i] == p0[i]);
    }
    assert(l[l0.len() as int] == without_cr(p[l0.len() as int]));
    assert(l =~= l0.push(line));
    assert(l.drop_last() =~= l0);
    let f = filled_lines(l);
    assert(f =~= filled_lines(l0).push(line));
    assert(f.drop_last() =~= filled_lines(l0));
}

/// The newest line of a log is the line that was appended last.
pub proof fn law_appended_line_is_most_recent(content: Seq<char>, line: Seq<char>)
    requires
        content.len() == 0 || content.last() == '\n',
        line.len() > 0,
        !line.contains('\n'),
        !space(line.last()),
    ensures
        recent_lines(content + line.push('\n'), 1) == seq![line],
{
    let all = content + line.push('\n');
    let kept = content + line;
    assert(all.drop_last() =~= kept);
    assert(all.last() == '\n');
    assert(space('\n'));
    assert(kept.last() == line.last());
    assert(spaceless_end(all) == spaceless_end(kept));
    assert(spaceless_end(kept) == kept);
    lemma_appended_piece(content, line);
    let l = log_lines(all);
    assert(l.last() == line);
    let f = filled_lines(l);
    assert(f.last() == line);
    assert(f.skip(f.len() - 1) =~= seq![line]);
    assert(f.len() == 1 ==> f =~= seq![line]);
}

/// Splitting gives no piece with a separator in it.
proof fn lemma_pieces_free(s: Seq<char>)
    ensures
        forall|i: int|
            0 <= i < pieces(s, seq!['\n']).len() ==> !(#[trigger] pieces(s, seq!['\n'])[i]).contains(
                '\n',
            ),
    decreases s.len(),
{
    let seps = seq!['\n'];
    if s.len() > 0 {
        lemma_pieces_free(s.drop_last());
        crate::text::lemma_pieces_nonempty(s.drop_last(), seps);
        let before = pieces(s.drop_last(), seps);
        let p = pieces(s, seps);
        assert forall|i: int| 0 <= i < p.len() implies !(#[trigger] p[i]).contains('\n') by {
            if i < before.len() - 1 {
                assert(p[i] == before[i]);
            } else if !seps.contains(s.last()) {
                assert(p[i] == before.last().push(s.last()));
                assert(!before[before.len() - 1].contains('\n'));
                assert(s.last() != '\n') by {
                    assert(seps[0] == '\n');
                }
                if p[i].contains('\n') {
                    let k = choose|k: int| 0 <= k < p[i].len() && p[i][k] == '\n';
                    assert(k < before.last().len());
                    assert(before.last()[k] == '\n');
                    assert(before.last().contains('\n'));
                }
            } else if i < before.len() {
                assert(p[i] == before[i]);
            }
        }
    }
}

/// Splitting undoes joining.
proof fn lemma_pieces_joined(v: Seq<Seq<char>>)
    requires
        v.len() > 0,
        forall|i: int| 0 <= i < v.len() ==> !(#[trigger] v[i]).contains('\n'),
    ensures
        pieces(joined(v, "\n"@), seq!['\n']) == v,
    decreases v.len(),
{
    reveal_strlit("\n");
    assert("\n"@ =~= seq!['\n']);
    if v.len() == 1 {
        lemma_pieces_single(v[0]);
        assert(seq![v[0]] =~= v);
    } else {
        let w = v.drop_last();
        assert forall|i: int| 0 <= i < w.len() implies !(#[trigger] w[i]).contains('\n') by {
            assert(w[i] == v[i]);
        }
        lemma_pieces_joined(w);
        assert(!v[v.len() - 1].contains('\n'));
        lemma_pieces_line(joined(w, "\n"@), v.last());
        assert(joined(v, "\n"@) =~= joined(w, "\n"@).push('\n') + v.last());
        assert(w.push(v.last()) =~= v);
    }
}

/// The last piece of a text that does not end in a separator ends as the text
/// does.
proof fn lemma_last_piece(s: Seq<char>)
    requires
        s.len() > 0,
        s.last() != '\n',
    ensures
        pieces(s, seq!['\n']).last().len() > 0,
        pieces(s, seq!['\n']).last().last() == s.last(),
{
    let seps = seq!['\n'];
    assert(!seps.contains(s.last()));
}

/// White space at the end is gone after trimming.
proof fn lemma_spaceless_end(s: Seq<char>)
    ensures
        spaceless_end(s).len() > 0 ==> !space(spaceless_end(s).last()),
    decreases s.len(),
{
    if s.len() > 0 && space(s.last()) {
        lemma_spaceless_end(s.drop_last());
    }
}

/// A joined text ends as its last part does.
proof fn lemma_joined_last(v: Seq<Seq<char>>, sep: Seq<char>)
    requires
        v.len() > 0,
        v.last().len() > 0,
    ensures
        joined(v, sep).len() > 0,
        joined(v, sep).last() == v.last().last(),
{
}

/// A rewritten log holds the newest lines, unchanged and in order.
pub proof fn law_retention_keeps_the_newest(content: Seq<char>)
    requires
        log_lines(content).len() >= MAX_LINES,
    ensures
        retained(content) is Some,
        log_lines(retained(content)->0) == log_lines(content).skip(
            log_lines(content).len() - KEEP_LINES,
        ),
        retained(retained(content)->0) is None,
{
    let s = spaceless_end(content);
    let l = log_lines(content);
    let v = l.skip(l.len() - KEEP_LINES);
    lemma_pieces_free(s);
    lemma_spaceless_end(content);
    if s.len() == 0 {
        assert(l.len() == 1);
    }
    assert(space('\n'));
    lemma_last_piece(s);
    assert(v.last() == l.last());
    assert forall|i: int| 0 <= i < v.len() implies !(#[trigger] v[i]).contains('\n') by {
        assert(v[i] == l[i + l.len() - KEEP_LINES]);
    }
    lemma_joined_last(v, "\n"@);
    lemma_pieces_joined(v);
    let kept = joined(v, "\n"@);
    let r = kept.push('\n');
    assert(r.drop_last() =~= kept);
    assert(spaceless_end(r) == spaceless_end(kept));
    assert(spaceless_end(kept) == kept);
}

// ---- showing events ------------------------------------------------------

/// A value inside a JavaScript template: texts as they stand, arrays joined
/// by commas, objects as a fixed word.
pub open spec fn js_text(v: JsonView) -> Seq<char>
    decreases v,
{
    match v {
        JsonView::Str(s) => s,
        JsonView::Null => "null"@,
        JsonView::Bool(b) => if b {
            "true"@
        } else {
            "false"@
        },
        JsonView::Int(n) => dec_int(n),
        JsonView::Float(t) => t,
        JsonView::Array(a) => joined(js_texts(a), ","@),
        JsonView::Object(_) => "[object Object]"@,
    }
}

/// The texts of the elements of an array.
pub open spec fn js_texts(a: Seq<JsonView>) -> Seq<Seq<char>>
    decreases a,
{
    if a.len() == 0 {
        Seq::empty()
    } else {
        js_texts(a.drop_last()).push(js_text(a.last()))
    }
}

/// JavaScript truthiness.
pub open spec fn truthy(v: Option<JsonView>) -> bool {
    match v {
        None => false,
        Some(JsonView::Null) => false,
        Some(JsonView::Bool(b)) => b,
        Some(JsonView::Int(n)) => n != 0,
        Some(JsonView::Float(t)) => !zero_text(t),
        Some(JsonView::Str(s)) => s.len() > 0,
        Some(_) => true,
    }
}

/// A value in a template, or `undefined`.
pub open spec fn shown(v: Option<JsonView>) -> Seq<char> {
    match v {
        Some(j) => js_text(j),
        None => "undefined"@,
    }
}

/// A value as JSON, or `undefined`.
pub open spec fn stringified(v: Option<JsonView>) -> Seq<char> {
    match v {
        Some(j) => compact(j),
        None => "undefined"@,
    }
}

/// `key=value` for each member.
pub open spec fn assignments(m: Members) -> Seq<Seq<char>> {
    Seq::new(m.len(), |i: int| m[i].0 + "="@ + js_text(m[i].1))
}

/// The members of an object as `key=value`, or `{}` where there are none.
pub open spec fn kv_text(v: Option<JsonView>) -> Seq<char> {
    match v {
        Some(JsonView::Object(m)) => if m.len() > 0 {
            joined(assignments(m), " "@)
        } else {
            "{}"@
        },
        _ => "{}"@,
    }
}

/// What a line says of an event behind its time and session.
pub open spec fn event_body(t: Seq<char>, p: Members) -> Seq<char> {
    if t == "bell"@ {
        " bell"@
    } else if t == "title_change"@ {
        " title -> \""@ + shown(lookup(p, "value"@)) + "\""@
    } else if t == "notification"@ {
        " notification"@ + (if truthy(lookup(p, "title"@)) {
            " -- \""@ + shown(lookup(p, "title"@)) + "\""@
        } else {
            Seq::empty()
        }) + (if truthy(lookup(p, "body"@)) {
            " "@ + shown(lookup(p, "body"@))
        } else {
            Seq::empty()
        })
    } else if t == "focus_request"@ {
        " focus requested"@
    } else if t == "cursor_visible"@ {
        " cursor restored"@
    } else if t == "session_start"@ {
        " started"@ + (match lookup(p, "tags"@) {
            Some(JsonView::Object(m)) => " "@ + joined(assignments(m), " "@),
            _ => Seq::empty(),
        })
    } else if t == "session_exit"@ {
        if truthy(lookup(p, "signal"@)) {
            " killed by signal "@ + shown(lookup(p, "signal"@)) + " (code "@ + shown(
                lookup(p, "exitCode"@),
            ) + ")"@
        } else {
            " exited (code "@ + shown(lookup(p, "exitCode"@)) + ")"@
        }
    } else if t == "session_exec"@ {
        " exec "@ + shown(lookup(p, "command"@)) + " (was "@ + shown(lookup(p, "previousCommand"@))
            + ")"@
    } else if t == "session_respawn"@ {
        " respawned"@
    } else if t == "session_abandoned"@ {
        if lookup(p, "idleDays"@) is Some && shown(lookup(p, "reason"@)) == "idle"@ {
            " abandoned (idle "@ + shown(lookup(p, "idleDays"@)) + "d)"@
        } else {
            " abandoned ("@ + shown(lookup(p, "reason"@)) + ")"@
        }
    } else if t == "display_name_change"@ {
        " display_name -> "@ + stringified(lookup(p, "value"@)) + " (was "@ + stringified(
            lookup(p, "previous"@),
        ) + ")"@
    } else if t == "tags_change"@ {
        " tags -> "@ + kv_text(lookup(p, "value"@)) + " (was "@ + kv_text(lookup(p, "previous"@))
            + ")"@
    } else if t == "metadata_change"@ {
        " metadata -> "@ + stringified(lookup(p, "value"@)) + " (was "@ + stringified(
            lookup(p, "previous"@),
        ) + ")"@
    } else {
        " "@ + t + (match lookup(p, "text"@) {
            Some(JsonView::Null) | None => match lookup(p, "data"@) {
                Some(data) => " "@ + compact(data),
                None => Seq::empty(),
            },
            Some(text) => " \""@ + js_text(text) + "\""@,
        })
    }
}

/// The wall-clock time of an event, from the local time that the zone gives
/// for its timestamp.
pub open spec fn clock_of(ts: Seq<char>, local: Option<(u8, u8, u8)>) -> Seq<char> {
    match (iso_ms(ts), local) {
        (Some(_), Some(t)) => padded(t.0 as nat, 2) + ":"@ + padded(t.1 as nat, 2) + ":"@ + padded(
            t.2 as nat,
            2,
        ),
        _ => "Invalid Date"@,
    }
}

/// The line that shows an event: `[HH:MM:SS] <session>: <body>`.
pub open spec fn event_line(e: EventRecord, local: Option<(u8, u8, u8)>) -> Seq<char> {
    "["@ + clock_of(e.ts, local) + "] "@ + e.session + ":"@ + event_body(e.type_, e.payload)
}

/// Computes `js_text`.
pub fn js_string(v: &Json) -> (r: String)
    ensures
        r@ == js_text(v@),
    decreases v,
{
    match v {
        Json::Str(s) => s.clone(),
        Json::Null => "null".to_owned(),
        Json::Bool(b) => {
            if *b {
                "true".to_owned()
            } else {
                "false".to_owned()
            }
        },
        Json::PosInt(n) => u64_string(*n),
        Json::NegInt(n) => i64_string(*n),
        Json::Float(x) => x.text().to_owned(),
        Json::Array(a) => {
            let ghost av = v@->Array_0;
            let mut parts: Vec<String> = Vec::new();
            let mut i: usize = 0;
            assert(av.take(0) =~= Seq::<JsonView>::empty());
            assert(views(parts@) =~= js_texts(av.take(0)));
            while i < a.len()
                invariant
                    i <= a@.len(),
                    v is Array,
                    v->Array_0 == *a,
                    av == v@->Array_0,
                    av.len() == a@.len(),
                    views(parts@) == js_texts(av.take(i as int)),
                decreases a.len() - i,
            {
                assert(av[i as int] == a@[i as int]@);
                let ghost before = parts@;
                let part = js_string(&a[i]);
                parts.push(part);
                proof {
                    lemma_views_push(before, part);
                    assert(av.take(i + 1).drop_last() =~= av.take(i as int));
                }
                i += 1;
            }
            assert(av.take(av.len() as int) =~= av);
            join(parts.as_slice(), ",")
        },
        Json::Object(_) => "[object Object]".to_owned(),
    }
}

/// The content of an optional value.
pub open spec fn json_opt(v: Option<&Json>) -> Option<JsonView> {
    match v {
        Some(j) => Some(j@),
        None => None,
    }
}

/// Computes `truthy`.
pub fn js_truthy(v: Option<&Json>) -> (r: bool)
    ensures
        r == truthy(json_opt(v)),
{
    match v {
        None => false,
        Some(j) => match j {
            Json::Null => false,
            Json::Bool(b) => *b,
            Json::PosInt(n) => *n != 0,
            Json::NegInt(n) => *n != 0,
            Json::Float(x) => !(str_eq(x.text(), "0.0") || str_eq(x.text(), "-0.0")),
            Json::Str(s) => !s.as_str().is_empty(),
            _ => true,
        },
    }
}

fn show(v: Option<&Json>) -> (r: String)
    ensures
        r@ == shown(json_opt(v)),
{
    match v {
        Some(j) => js_string(j),
        None => "undefined".to_owned(),
    }
}

fn js_stringify(v: Option<&Json>) -> (r: String)
    ensures
        r@ == stringified(json_opt(v)),
{
    match v {
        Some(j) => to_json_text(j),
        None => "undefined".to_owned(),
    }
}

fn assign_members(m: &JsonMap) -> (r: String)
    ensures
        r@ == joined(assignments(m@), " "@),
{
    let n = m.len();
    let ghost want = assignments(m@);
    let mut parts: Vec<String> = Vec::new();
    let mut i: usize = 0;
    assert(views(parts@) =~= want.take(0));
    while i < n
        invariant
            i <= n,
            n == m@.len(),
            want == assignments(m@),
            views(parts@) == want.take(i as int),
        decreases n - i,
    {
        let ghost before = parts@;
        let value = js_string(m.value_at(i));
        let mut part = m.key_at(i).to_owned();
        part.append("=");
        part.append(value.as_str());
        parts.push(part);
        proof {
            lemma_views_push(before, part);
            assert(want.take(i + 1) =~= want.take(i as int).push(want[i as int]));
        }
        i += 1;
    }
    assert(want.take(n as int) =~= want);
    join(parts.as_slice(), " ")
}

fn kv_listing(v: Option<&Json>) -> (r: String)
    ensures
        r@ == kv_text(json_opt(v)),
{
    match v {
        Some(Json::Object(m)) => {
            if m.len() > 0 {
                assign_members(m)
            } else {
                "{}".to_owned()
            }
        },
        _ => "{}".to_owned(),
    }
}

/// `<before><new> (was <old>)`.
fn was_line(before: &str, new: &str, old_text: &str) -> (r: String)
    ensures
        r@ == before@ + new@ + " (was "@ + old_text@ + ")"@,
{
    let mut s = before.to_owned();
    s.append(new);
    s.append(" (was ");
    s.append(old_text);
    s.append(")");
    s
}

fn other_body(t: &str, p: &JsonMap) -> (r: String)
    ensures
        r@ == " "@ + t@ + (match lookup(p@, "text"@) {
            Some(JsonView::Null) | None => match lookup(p@, "data"@) {
                Some(data) => " "@ + compact(data),
                None => Seq::empty(),
            },
            Some(text) => " \""@ + js_text(text) + "\""@,
        }),
{
    let mut s = " ".to_owned();
    s.append(t);
    let ghost head = s@;
    let text = match p.get("text") {
        Some(j) => match j {
            Json::Null => None,
            _ => Some(j),
        },
        None => None,
    };
    match text {
        Some(j) => {
            let shown_text = js_string(j);
            let mut suffix = " \"".to_owned();
            suffix.append(shown_text.as_str());
            suffix.append("\"");
            s.append(suffix.as_str());
        },
        None => match p.get("data") {
            Some(data) => {
                let json = to_json_text(data);
                let mut suffix = " ".to_owned();
                suffix.append(json.as_str());
                s.append(suffix.as_str());
            },
            None => {
                assert(head + Seq::<char>::empty() =~= head);
            },
        },
    }
    s
}

fn notification_body(p: &JsonMap) -> (r: String)
    ensures
        r@ == event_body("notification"@, p@),
{
    proof {
        reveal_strlit("notification");
        reveal_strlit("bell");
        reveal_strlit("title_change");
        assert("notification"@.len() == 12 && "bell"@.len() == 4 && "title_change"@.len() == 12);
        assert("notification"@[0] == 'n' && "title_change"@[0] == 't');
    }
    let mut s = " notification".to_owned();
    let mut title = String::new();
    if js_truthy(p.get("title")) {
        let text = show(p.get("title"));
        title = " -- \"".to_owned();
        title.append(text.as_str());
        title.append("\"");
    }
    let mut body = String::new();
    if js_truthy(p.get("body")) {
        let text = show(p.get("body"));
        body = " ".to_owned();
        body.append(text.as_str());
    }
    s.append(title.as_str());
    s.append(body.as_str());
    s
}

fn start_body(p: &JsonMap) -> (r: String)
    ensures
        r@ == " started"@ + (match lookup(p@, "tags"@) {
            Some(JsonView::Object(m)) => " "@ + joined(assignments(m), " "@),
            _ => Seq::empty(),
        }),
{
    let mut s = " started".to_owned();
    let mut suffix = String::new();
    match p.get("tags") {
        Some(Json::Object(m)) => {
            let listing = assign_members(m);
            suffix = " ".to_owned();
            suffix.append(listing.as_str());
        },
        _ => {},
    }
    s.append(suffix.as_str());
    s
}

fn exit_body(p: &JsonMap) -> (r: String)
    ensures
        r@ == (if truthy(lookup(p@, "signal"@)) {
            " killed by signal "@ + shown(lookup(p@, "signal"@)) + " (code "@ + shown(
                lookup(p@, "exitCode"@),
            ) + ")"@
        } else {
            " exited (code "@ + shown(lookup(p@, "exitCode"@)) + ")"@
        }),
{
    let code = show(p.get("exitCode"));
    if js_truthy(p.get("signal")) {
        let signal = show(p.get("signal"));
        let mut s = " killed by signal ".to_owned();
        s.append(signal.as_str());
        s.append(" (code ");
        s.append(code.as_str());
        s.append(")");
        s
    } else {
        let mut s = " exited (code ".to_owned();
        s.append(code.as_str());
        s.append(")");
        s
    }
}

fn abandoned_body(p: &JsonMap) -> (r: String)
    ensures
        r@ == (if lookup(p@, "idleDays"@) is Some && shown(lookup(p@, "reason"@)) == "idle"@ {
            " abandoned (idle "@ + shown(lookup(p@, "idleDays"@)) + "d)"@
        } else {
            " abandoned ("@ + shown(lookup(p@, "reason"@)) + ")"@
        }),
{
    let reason = show(p.get("reason"));
    let days = p.get("idleDays");
    if days.is_some() && str_eq(reason.as_str(), "idle") {
        let count = show(days);
        let mut s = " abandoned (idle ".to_owned();
        s.append(count.as_str());
        s.append("d)");
        s
    } else {
        let mut s = " abandoned (".to_owned();
        s.append(reason.as_str());
        s.append(")");
        s
    }
}

fn body_of(t: &str, p: &JsonMap) -> (r: String)
    ensures
        r@ == event_body(t@, p@),
{
    if str_eq(t, event_type::BELL) {
        return " bell".to_owned();
    }
    if str_eq(t, event_type::TITLE_CHANGE) {
        let value = show(p.get("value"));
        let mut s = " title -> \"".to_owned();
        s.append(value.as_str());
        s.append("\"");
        return s;
    }
    if str_eq(t, event_type::NOTIFICATION) {
        return notification_body(p);
    }
    if str_eq(t, event_type::FOCUS_REQUEST) {
        return " focus requested".to_owned();
    }
    if str_eq(t, event_type::CURSOR_VISIBLE) {
        return " cursor restored".to_owned();
    }
    if str_eq(t, event_type::SESSION_START) {
        return start_body(p);
    }
    if str_eq(t, event_type::SESSION_EXIT) {
        return exit_body(p);
    }
    if str_eq(t, event_type::SESSION_EXEC) {
        let command = show(p.get("command"));
        let previous = show(p.get("previousCommand"));
        return was_line(" exec ", command.as_str(), previous.as_str());
    }
    if str_eq(t, event_type::SESSION_RESPAWN) {
        return " respawned".to_owned();
    }
    if str_eq(t, event_type::SESSION_ABANDONED) {
        return abandoned_body(p);
    }
    if str_eq(t, event_type::DISPLAY_NAME_CHANGE) {
        let value = js_stringify(p.get("value"));
        let previous = js_stringify(p.get("previous"));
        return was_line(" display_name -> ", value.as_str(), previous.as_str());
    }
    if str_eq(t, event_type::TAGS_CHANGE) {
        let value = kv_listing(p.get("value"));
        let previous = kv_listing(p.get("previous"));
        return was_line(" tags -> ", value.as_str(), previous.as_str());
    }
    if str_eq(t, event_type::METADATA_CHANGE) {
        let value = js_stringify(p.get("value"));
        let previous = js_stringify(p.get("previous"));
        return was_line(" metadata -> ", value.as_str(), previous.as_str());
    }
    other_body(t, p)
}

/// The moment of an event in milliseconds since the epoch, for which
/// `format_event` wants the local time.
pub fn event_epoch_ms(event: &Event) -> (r: Option<i64>)
    ensures
        match r {
            Some(n) => iso_ms(event@.ts) == Some(n as int),
            None => iso_ms(event@.ts) is None,
        },
{
    parse_iso8601_ms(event.ts.as_str())
}

/// The one-line text of an event: `[HH:MM:SS] <session>: <body>`, with the
/// hour, minute and second of its moment in the local zone.
pub fn format_event(event: &Event, local: Option<(u8, u8, u8)>) -> (r: String)
    ensures
        r@ == event_line(event@, local),
{
    let known = event_epoch_ms(event).is_some();
    let time = local_hms(
        if known {
            local
        } else {
            None
        },
    );
    let body = body_of(event.type_.as_str(), &event.payload);
    let mut s = "[".to_owned();
    s.append(time.as_str());
    s.append("] ");
    s.append(event.session.as_str());
    s.append(":");
    s.append(body.as_str());
    s
}

/// How sources and reasons are spelled.
pub proof fn law_sources_and_reasons()
    ensures
        source_text(NotificationSource::Osc9) == "osc9"@,
        source_text(NotificationSource::Osc99) == "osc99"@,
        source_text(NotificationSource::Osc777) == "osc777"@,
        reason_text(AbandonReason::CwdGone) == "cwd-gone"@,
        reason_text(AbandonReason::Idle) == "idle"@,
{
}

/// Two events with the same content are the same in every part.
pub proof fn law_events_are_told_apart(a: Event, b: Event, v: Seq<Event>)
    ensures
        a@ == b@ ==> a.session@ == b.session@ && a.type_@ == b.type_@ && a.ts@ == b.ts@
            && a.payload@ == b.payload@,
        event_records(v).len() == v.len(),
        forall|i: int| 0 <= i < v.len() ==> #[trigger] event_records(v)[i] == v[i]@,
{
}

/// A field that is added can be looked up, the other fields and the envelope
/// stay as they were, and a field without a value adds nothing.
pub proof fn law_fields_of_an_event(
    e: EventRecord,
    key: Seq<char>,
    other: Seq<char>,
    value: JsonView,
    session: Seq<char>,
    type_: Seq<char>,
    ts: Seq<char>,
)
    requires
        distinct_keys(e.payload),
    ensures
        ({
            let r = with_field(e, key, value);
            &&& r.session == e.session && r.type_ == e.type_ && r.ts == e.ts
            &&& lookup(r.payload, key) == Some(value)
            &&& other != key ==> lookup(r.payload, other) == lookup(e.payload, other)
            &&& distinct_keys(r.payload)
            &&& with_some(e, key, Some(value)) == r
            &&& with_some(e, key, None) == e
        }),
        ({
            let p = plain_event(session, type_, ts);
            p.session == session && p.type_ == type_ && p.ts == ts && p.payload.len() == 0
        }),
{
    crate::pairs::law_put_then_lookup(e.payload, key, value, other);
}

/// The line of an event names the session, the type and the time, in this
/// order, and the fields of the payload behind them.
pub proof fn law_layout_of_an_event(e: EventRecord)
    ensures
        envelope(e).len() == 3 + e.payload.len(),
        envelope(e)[0] == ("session"@, JsonView::Str(e.session)),
        envelope(e)[1] == ("type"@, JsonView::Str(e.type_)),
        envelope(e)[2] == ("ts"@, JsonView::Str(e.ts)),
        envelope(e).skip(3) == e.payload,
        flat(e) <==> lookup(e.payload, "session"@) is None && lookup(e.payload, "type"@) is None
            && lookup(e.payload, "ts"@) is None,
{
    assert(envelope(e).skip(3) =~= e.payload);
}

/// What an object says as an event: its session and type are texts, its time
/// is there, and every other member is a field of the payload.
pub proof fn law_reading_an_event(m: Members, key: Seq<char>)
    requires
        distinct_keys(m),
    ensures
        event_in(m) is Some <==> (lookup(m, "session"@) matches Some(JsonView::Str(_))) && (lookup(
            m,
            "type"@,
        ) matches Some(JsonView::Str(_))) && lookup(m, "ts"@) is Some,
        event_in(m) matches Some(e) ==> {
            &&& lookup(m, "session"@) == Some(JsonView::Str(e.session))
            &&& lookup(m, "type"@) == Some(JsonView::Str(e.type_))
            &&& e.ts == ts_of(lookup(m, "ts"@)->0)
            &&& key != "session"@ && key != "type"@ && key != "ts"@ ==> lookup(e.payload, key)
                == lookup(m, key)
            &&& lookup(e.payload, "session"@) is None
            &&& lookup(e.payload, "type"@) is None
            &&& lookup(e.payload, "ts"@) is None
        },
{
    reveal_strlit("session");
    reveal_strlit("type");
    reveal_strlit("ts");
    assert("session"@.len() == 7 && "type"@.len() == 4 && "ts"@.len() == 2);
    let a = without(m, "session"@);
    let b = without(a, "type"@);
    crate::pairs::law_without_then_lookup(m, "session"@, key);
    crate::pairs::law_without_then_lookup(a, "type"@, key);
    crate::pairs::law_without_then_lookup(b, "ts"@, key);
    crate::pairs::law_without_then_lookup(a, "type"@, "session"@);
    crate::pairs::law_without_then_lookup(b, "ts"@, "session"@);
    crate::pairs::law_without_then_lookup(b, "ts"@, "type"@);
}

/// The time of an event: a text stands as it is, a number counts the
/// milliseconds, and anything else is shown as JSON.
pub proof fn law_time_of_an_event(s: Seq<char>, n: int, f: Seq<char>, v: JsonView)
    ensures
        ts_of(JsonView::Str(s)) == s,
        n <= i64::MAX ==> ts_of(JsonView::Int(n)) == iso_text(n),
        n > i64::MAX ==> ts_of(JsonView::Int(n)) == iso_text(i64::MAX as int),
        ts_of(JsonView::Float(f)) == iso_text(truncated(f) as int),
        !(v is Str) && !(v is Int) && !(v is Float) ==> ts_of(v) == compact(v),
{
}

/// A line is an event when it is an object that says so and spells none of the
/// three envelope keys twice.
pub proof fn law_lines_that_are_events(line: Seq<char>)
    ensures
        event_of_line(line) is Some <==> (parsed(line) matches Some(JsonView::Object(m)) && event_in(
            m,
        ) is Some) && !repeats_key(line, "session"@) && !repeats_key(line, "type"@)
            && !repeats_key(line, "ts"@),
        event_of_line(line) is Some ==> event_of_line(line) == event_in(
            parsed(line)->0->Object_0,
        ),
{
}

/// Which types a user may publish under: `user.` and at least one character
/// more, without white space and control characters.
pub proof fn law_user_event_types(t: Seq<char>)
    ensures
        type_error(t) is None <==> t.len() > 5 && t.take(5) == seq!['u', 's', 'e', 'r', '.']
            && forall|i: int|
            0 <= i < t.len() ==> !js_space(#[trigger] t[i]) && t[i] as int >= 32,
        t.len() == 0 ==> type_error(t) == Some("event type must be a non-empty string"@),
        t.len() > 0 && !begins(t, "user."@) ==> type_error(t) == Some(
            "custom events must start with \"user.\" (got "@ + compact(JsonView::Str(t)) + ")"@,
        ),
        t == "user."@ ==> type_error(t) == Some(
            "event type \"user.\" needs a suffix (e.g. \"user.build-done\")"@,
        ),
        begins(t, "user."@) && t.len() > 5 && type_error(t) is Some ==> type_error(t) == Some(
            "event type may not contain whitespace or control characters"@,
        ),
{
    reveal_strlit("user.");
    assert("user."@ =~= seq!['u', 's', 'e', 'r', '.']);
    assert(begins(t, "user."@) <==> t.len() >= 5 && t.take(5) == "user."@);
    if t.len() == 5 {
        assert(t.take(5) =~= t);
    }
    assert(forall|c: char| bad_type_char(c) <==> js_space(c) || (c as int) < 32);
    if type_error(t) is None {
        assert forall|i: int| 0 <= i < t.len() implies !js_space(#[trigger] t[i]) && t[i] as int
            >= 32 by {
            assert(!bad_type_char(t[i]));
        }
    }
}

/// The sizes of the log: it is cut at 1000 lines to the last 500, looked at
/// every 100 lines written and from 40000 bytes on, and 50 events are recent.
pub proof fn law_sizes_of_the_log()
    ensures
        MAX_LINES == 1000,
        KEEP_LINES == 500,
        TRUNCATE_CHECK_INTERVAL == 100,
        TRUNCATE_SIZE_THRESHOLD == 40000,
        DEFAULT_RECENT_EVENTS == 50,
{
}

/// The lines of a log, put together again, are the log without the white space
/// at its end, and no line holds a line feed.
pub proof fn law_lines_of_a_log(content: Seq<char>)
    ensures
        joined(log_lines(content), "\n"@) == spaceless_end(content),
        forall|i: int|
            0 <= i < log_lines(content).len() ==> !(#[trigger] log_lines(content)[i]).contains(
                '\n',
            ),
        log_lines(content).len() < 1000 ==> retained(content) is None,
        log_lines(content).len() >= 1000 ==> retained(content) is Some && log_lines(
            retained(content)->0,
        ) == log_lines(content).skip(log_lines(content).len() - 500) && retained(content)->0
            == joined(log_lines(content).skip(log_lines(content).len() - 500), "\n"@) + "\n"@,
{
    reveal_strlit("\n");
    assert("\n"@ =~= seq!['\n']);
    lemma_pieces_free(spaceless_end(content));
    crate::text::law_splitting(spaceless_end(content), '\n');
    if log_lines(content).len() >= MAX_LINES {
        law_retention_keeps_the_newest(content);
    }
}

/// Empty lines are left out and the others kept in order; of the lines, those
/// that are events are read; where all must be, one that is none spoils the
/// whole.
pub proof fn law_events_of_lines(v: Seq<Seq<char>>, line: Seq<char>)
    ensures
        filled_lines(Seq::empty()).len() == 0,
        some_events(Seq::empty()).len() == 0,
        all_events(Seq::empty()) == Some(Seq::<EventRecord>::empty()),
        line.len() == 0 ==> filled_lines(v.push(line)) == filled_lines(v),
        line.len() > 0 ==> filled_lines(v.push(line)) == filled_lines(v).push(line),
        event_of_line(line) is None ==> some_events(v.push(line)) == some_events(v) && all_events(
            v.push(line),
        ) is None,
        event_of_line(line) matches Some(e) ==> some_events(v.push(line)) == some_events(v).push(e)
            && (all_events(v) is None ==> all_events(v.push(line)) is None) && (all_events(
            v,
        ) matches Some(w) ==> all_events(v.push(line)) == Some(w.push(e))),
{
    assert(v.push(line).drop_last() =~= v);
    assert(v.push(line).last() == line);
}

/// The recent lines are the last ones that hold anything, as many as asked for
/// or as there are.
pub proof fn law_recent_lines(content: Seq<char>, count: nat)
    ensures
        ({
            let all = filled_lines(log_lines(content));
            let r = recent_lines(content, count);
            &&& r.len() == (if all.len() < count {
                all.len()
            } else {
                count
            })
            &&& all.take(all.len() - r.len()) + r == all
        }),
{
    let all = filled_lines(log_lines(content));
    let r = recent_lines(content, count);
    assert(all.take(all.len() - r.len()) + r =~= all);
}

/// How values are shown: a text as it is, numbers and words as they are
/// written, a list by its items with commas between them, an object by a fixed
/// word.
pub proof fn law_shown_values(s: Seq<char>, n: int, f: Seq<char>, a: Seq<JsonView>, x: JsonView, m: Members)
    ensures
        js_text(JsonView::Str(s)) == s,
        js_text(JsonView::Null) == "null"@,
        js_text(JsonView::Bool(true)) == "true"@,
        js_text(JsonView::Bool(false)) == "false"@,
        js_text(JsonView::Int(n)) == dec_int(n),
        js_text(JsonView::Float(f)) == f,
        js_text(JsonView::Object(m)) == "[object Object]"@,
        js_text(JsonView::Array(a)) == joined(js_texts(a), ","@),
        js_texts(Seq::empty()).len() == 0,
        js_texts(a.push(x)) == js_texts(a).push(js_text(x)),
        shown(Some(x)) == js_text(x),
        shown(None) == "undefined"@,
        stringified(Some(x)) == compact(x),
        stringified(None) == "undefined"@,
{
    assert(a.push(x).drop_last() =~= a);
    assert(a.push(x).last() == x);
}

/// Which values count as true: all but a missing one, null, false, zero and the
/// empty text.
pub proof fn law_true_values(v: JsonView)
    ensures
        !truthy(None),
        !truthy(Some(v)) <==> v == JsonView::Null || v == JsonView::Bool(false) || v
            == JsonView::Int(0) || v == JsonView::Float("0.0"@) || v == JsonView::Float("-0.0"@)
            || (v matches JsonView::Str(s) && s.len() == 0),
{
}

/// How the members of an object are listed: `key=value`, a blank between two;
/// what is no object or has no members is shown as `{}`.
pub proof fn law_listed_members(m: Members, key: Seq<char>, v: JsonView)
    ensures
        assignments(m.push((key, v))) == assignments(m).push(key + "="@ + js_text(v)),
        assignments(Seq::empty()).len() == 0,
        kv_text(Some(JsonView::Object(m.push((key, v))))) == joined(
            assignments(m.push((key, v))),
            " "@,
        ),
        kv_text(Some(JsonView::Object(Seq::empty()))) == "{}"@,
        kv_text(None) == "{}"@,
        !(v is Object) ==> kv_text(Some(v)) == "{}"@,
{
    assert(assignments(m.push((key, v))) =~= assignments(m).push(key + "="@ + js_text(v)));
}

/// What is shown for an event: the time of day, the session and what happened.
pub proof fn law_event_line(e: EventRecord, h: u8, m: u8, s: u8)
    ensures
        iso_ms(e.ts) is Some ==> event_line(e, Some((h, m, s))) == "["@ + (padded(h as nat, 2)
            + ":"@ + padded(m as nat, 2) + ":"@ + padded(s as nat, 2)) + "] "@ + e.session + ":"@
            + event_body(e.type_, e.payload),
        iso_ms(e.ts) is None ==> event_line(e, Some((h, m, s))) == "["@ + "Invalid Date"@ + "] "@
            + e.session + ":"@ + event_body(e.type_, e.payload),
        event_line(e, None) == "["@ + "Invalid Date"@ + "] "@ + e.session + ":"@ + event_body(
            e.type_,
            e.payload,
        ),
{
}

/// What is said of the plain events.
pub proof fn law_plain_bodies(p: Members)
    ensures
        event_body("bell"@, p) == " bell"@,
        event_body("focus_request"@, p) == " focus requested"@,
        event_body("cursor_visible"@, p) == " cursor restored"@,
        event_body("session_respawn"@, p) == " respawned"@,
{
    lemma_event_types();
}

/// The names of the types have different lengths or different beginnings.
proof fn lemma_event_types()
    ensures
        "bell"@.len() == 4,
        "title_change"@.len() == 12,
        "notification"@.len() == 12,
        "focus_request"@.len() == 13,
        "cursor_visible"@.len() == 14,
        "session_start"@.len() == 13,
        "session_exit"@.len() == 12,
        "session_exec"@.len() == 12,
        "session_respawn"@.len() == 15,
        "session_abandoned"@.len() == 17,
        "display_name_change"@.len() == 19,
        "tags_change"@.len() == 11,
        "metadata_change"@.len() == 15,
        "title_change"@[0] == 't',
        "notification"@[0] == 'n',
        "session_exit"@[0] == 's' && "session_exit"@[11] == 't',
        "session_exec"@[0] == 's' && "session_exec"@[11] == 'c',
        "focus_request"@[0] == 'f',
        "session_start"@[0] == 's',
        "session_respawn"@[0] == 's',
        "metadata_change"@[0] == 'm',
{
    reveal_strlit("bell");
    reveal_strlit("title_change");
    reveal_strlit("notification");
    reveal_strlit("focus_request");
    reveal_strlit("cursor_visible");
    reveal_strlit("session_start");
    reveal_strlit("session_exit");
    reveal_strlit("session_exec");
    reveal_strlit("session_respawn");
    reveal_strlit("session_abandoned");
    reveal_strlit("display_name_change");
    reveal_strlit("tags_change");
    reveal_strlit("metadata_change");
}

/// What is said of a title, a notification and a start: the texts of the
/// payload, where they say anything.
pub proof fn law_bodies_with_texts(p: Members, s: Seq<char>, t: Seq<char>, m: Members)
    ensures
        lookup(p, "value"@) == Some(JsonView::Str(s)) ==> event_body("title_change"@, p)
            == " title -> \""@ + s + "\""@,
        lookup(p, "title"@) is None && lookup(p, "body"@) is None ==> event_body("notification"@, p)
            == " notification"@,
        lookup(p, "title"@) == Some(JsonView::Str(s)) && s.len() > 0 && lookup(p, "body"@) is None
            ==> event_body("notification"@, p) == " notification"@ + (" -- \""@ + s + "\""@),
        lookup(p, "title"@) is None && lookup(p, "body"@) == Some(JsonView::Str(t)) && t.len() > 0
            ==> event_body("notification"@, p) == " notification"@ + (" "@ + t),
        lookup(p, "title"@) == Some(JsonView::Str(s)) && s.len() > 0 && lookup(p, "body"@) == Some(
            JsonView::Str(t),
        ) && t.len() > 0 ==> event_body("notification"@, p) == " notification"@ + (" -- \""@ + s
            + "\""@) + (" "@ + t),
        lookup(p, "tags"@) is None ==> event_body("session_start"@, p) == " started"@,
        lookup(p, "tags"@) == Some(JsonView::Object(m)) ==> event_body("session_start"@, p)
            == " started"@ + (" "@ + joined(assignments(m), " "@)),
{
    lemma_event_types();
}

/// What is said of the end of a session and of what becomes of it.
pub proof fn law_bodies_of_ends(p: Members, code: int, n: int, a: Seq<char>, b: Seq<char>)
    ensures
        lookup(p, "exitCode"@) == Some(JsonView::Int(code)) && lookup(p, "signal"@) is None
            ==> event_body("session_exit"@, p) == " exited (code "@ + dec_int(code) + ")"@,
        lookup(p, "exitCode"@) == Some(JsonView::Int(code)) && lookup(p, "signal"@) == Some(
            JsonView::Int(n),
        ) && n != 0 ==> event_body("session_exit"@, p) == " killed by signal "@ + dec_int(n)
            + " (code "@ + dec_int(code) + ")"@,
        lookup(p, "command"@) == Some(JsonView::Str(a)) && lookup(p, "previousCommand"@) == Some(
            JsonView::Str(b),
        ) ==> event_body("session_exec"@, p) == " exec "@ + a + " (was "@ + b + ")"@,
        lookup(p, "reason"@) == Some(JsonView::Str("idle"@)) && lookup(p, "idleDays"@) == Some(
            JsonView::Int(n),
        ) ==> event_body("session_abandoned"@, p) == " abandoned (idle "@ + dec_int(n) + "d)"@,
        lookup(p, "reason"@) == Some(JsonView::Str(a)) && (a != "idle"@ || lookup(p, "idleDays"@)
            is None) ==> event_body("session_abandoned"@, p) == " abandoned ("@ + a + ")"@,
{
    lemma_event_types();
}

/// What is said of a change: the new value and the one before it.
pub proof fn law_bodies_of_changes(p: Members, v: JsonView, w: JsonView)
    requires
        lookup(p, "value"@) == Some(v),
        lookup(p, "previous"@) == Some(w),
    ensures
        event_body("display_name_change"@, p) == " display_name -> "@ + compact(v) + " (was "@
            + compact(w) + ")"@,
        event_body("metadata_change"@, p) == " metadata -> "@ + compact(v) + " (was "@ + compact(w)
            + ")"@,
        event_body("tags_change"@, p) == " tags -> "@ + kv_text(Some(v)) + " (was "@ + kv_text(
            Some(w),
        ) + ")"@,
{
    lemma_event_types();
}

/// What is said of any other event: its type, and its text in quotes or else
/// its data as JSON.
pub proof fn law_bodies_of_user_events(t: Seq<char>, p: Members, text: JsonView, data: JsonView)
    requires
        begins(t, "user."@),
    ensures
        lookup(p, "text"@) is None && lookup(p, "data"@) is None ==> event_body(t, p) == " "@ + t,
        lookup(p, "text"@) is None && lookup(p, "data"@) == Some(data) ==> event_body(t, p) == " "@
            + t + (" "@ + compact(data)),
        lookup(p, "text"@) == Some(text) && text != JsonView::Null ==> event_body(t, p) == " "@ + t
            + (" \""@ + js_text(text) + "\""@),
{
    lemma_event_types();
    reveal_strlit("user.");
    assert("user."@[0] == 'u');
    reveal_strlit("bell");
    reveal_strlit("cursor_visible");
    reveal_strlit("session_abandoned");
    reveal_strlit("display_name_change");
    reveal_strlit("tags_change");
    assert(t[0] == 'u') by {
        assert(t.take(5)[0] == t[0]);
    }
}

/// How a change of the record is told: the display name where it changed, the
/// tags where they changed, and null for what is not there.
pub proof fn law_told_changes(
    n: Option<Seq<char>>,
    tags: Seq<(Seq<char>, Option<Seq<char>>)>,
    i: int,
    s: Seq<char>,
)
    ensures
        nullable(Some(s)) == JsonView::Str(s),
        nullable(None) == JsonView::Null,
        snapshot_json(None, None) == JsonView::Object(Members::empty()),
        snapshot_json(Some(n), None) is Object && snapshot_json(Some(n), None)->Object_0 == seq![
            ("displayName"@, nullable(n)),
        ],
        snapshot_json(None, Some(tags)) is Object && snapshot_json(None, Some(tags))->Object_0
            == seq![("tags"@, changes_json(tags))],
        snapshot_json(Some(n), Some(tags)) is Object && snapshot_json(
            Some(n),
            Some(tags),
        )->Object_0 == seq![("displayName"@, nullable(n)), ("tags"@, changes_json(tags))],
        changes_json(tags) is Object && changes_json(tags)->Object_0.len() == tags.len(),
        0 <= i < tags.len() ==> changes_json(tags)->Object_0[i] == (tags[i].0, nullable(tags[i].1)),
{
}

/// What a change holds: nothing, no name, or a name; and the tags it names.
pub proof fn law_held_changes(s: String, c: TagChanges)
    ensures
        opt_opt_view(None) is None,
        opt_opt_view(Some(None)) == Some(None::<Seq<char>>),
        opt_opt_view(Some(Some(s))) == Some(Some(s@)),
        opt_changes(None) is None,
        opt_changes(Some(c)) == Some(changes(c)),
{
}

/// What a session's start and other calls hand to an event.
pub proof fn law_arguments_of_events(s: &str, j: &Json)
    ensures
        ref_text(Some(s)) == Some(JsonView::Str(s@)),
        ref_text(None) is None,
        json_opt(Some(j)) == Some(j@),
        json_opt(None) is None,
{
}

} // verus!
