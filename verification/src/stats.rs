//! The shapes of status answers: the full one of a running session, which its
//! daemon produces, and the small one of a session that is gone, from its
//! record.

use crate::json::{Json, JsonFloat, JsonMap, JsonView, Members};
use crate::maps::{entries, tags_by_key, TagMap};
use crate::pairs::{by_key, put};
use crate::protocol::int_json;
use crate::registry::metadata::{pairs_json, string_map_value};
use crate::text::{int_within, opt_view, parse_u64, split_whitespace, to_chars, words};
use vstd::prelude::*;

verus! {

/// Resource usage of a process.
#[derive(Debug, Clone)]
pub struct Resources {
    pub rss_kb: u64,
    pub cpu_percent: JsonFloat,
}

/// Terminal geometry, cursor and scrollback.
#[derive(Debug, Clone, Copy, PartialEq, Eq, Structural)]
pub struct TerminalStats {
    pub cols: u16,
    pub rows: u16,
    pub cursor_x: u16,
    pub cursor_y: u16,
    pub scrollback_used: usize,
    pub scrollback_capacity: usize,
}

/// The process of the session.
#[derive(Debug, Clone)]
pub struct ProcessStats {
    pub alive: bool,
    pub exit_code: Option<i32>,
    pub pid: Option<i32>,
    pub resources: Option<Resources>,
}

/// The daemon process.
#[derive(Debug, Clone)]
pub struct DaemonStats {
    pub pid: i32,
    pub resources: Option<Resources>,
}

/// Which of a client's dimensions constrain the shared grid.
#[derive(Debug, Clone, Copy, PartialEq, Eq, Structural)]
pub struct Constrains {
    pub rows: bool,
    pub cols: bool,
}

/// One connected client: an attached one with its requested size and the
/// sequence of its last request, or one that only looks on.
#[derive(Debug, Clone, Copy, PartialEq, Eq, Structural)]
pub enum ConnectionStats {
    Writable { rows: u16, cols: u16, last_request_sequence: u64, constrains: Constrains },
    Readonly { constrains: Constrains },
}

/// Connected clients. `connections` is absent in the answer of an older
/// daemon.
#[derive(Debug, Clone)]
pub struct ClientStats {
    pub total: usize,
    pub attached: usize,
    pub read_only: usize,
    pub connections: Option<Vec<ConnectionStats>>,
}

/// Terminal modes.
#[derive(Debug, Clone)]
pub struct ModeStats {
    pub sgr_mouse: bool,
    pub cursor_hidden: bool,
    pub kitty_keyboard: bool,
    pub kitty_keyboard_flags: Vec<u8>,
}

/// The status of a running session.
#[derive(Debug, Clone)]
pub struct StatsResult {
    pub name: String,
    pub terminal: TerminalStats,
    pub process: ProcessStats,
    pub daemon: DaemonStats,
    pub clients: ClientStats,
    pub modes: ModeStats,
    /// Whole seconds since the session was created.
    pub uptime_seconds: Option<i64>,
    pub created_at: Option<String>,
}

/// The status of a session that has exited or vanished.
#[derive(Debug, Clone)]
pub struct GoneStats {
    pub name: String,
    pub status: String,
    pub exit_code: Option<i32>,
    pub exited_at: Option<String>,
    pub tags: Option<TagMap>,
}

fn field(m: JsonMap, key: &str, value: Json) -> (r: JsonMap)
    ensures
        r@ == put(m@, key@, value@),
{
    let mut m = m;
    m.insert(key.to_owned(), value);
    m
}

/// An optional number; `null` where there is none.
pub open spec fn opt_int_json(v: Option<int>) -> JsonView {
    match v {
        Some(n) => JsonView::Int(n),
        None => JsonView::Null,
    }
}

/// An optional 32-bit number.
pub open spec fn wide(v: Option<i32>) -> Option<int> {
    match v {
        Some(n) => Some(n as int),
        None => None,
    }
}

/// An optional 64-bit number.
pub open spec fn wide64(v: Option<i64>) -> Option<int> {
    match v {
        Some(n) => Some(n as int),
        None => None,
    }
}

/// An optional text; `null` where there is none.
pub open spec fn opt_text_json(v: Option<Seq<char>>) -> JsonView {
    match v {
        Some(s) => JsonView::Str(s),
        None => JsonView::Null,
    }
}

fn opt_i32(v: Option<i32>) -> (j: Json)
    ensures
        j@ == opt_int_json(wide(v)),
{
    match v {
        Some(n) => int_json(n),
        None => Json::Null,
    }
}

fn i64_json(n: i64) -> (j: Json)
    ensures
        j@ == JsonView::Int(n as int),
{
    if n >= 0 {
        Json::PosInt(n as u64)
    } else {
        Json::NegInt(n)
    }
}

fn opt_text(v: &Option<String>) -> (j: Json)
    ensures
        j@ == opt_text_json(opt_view(*v)),
{
    match v {
        Some(s) => Json::Str(s.clone()),
        None => Json::Null,
    }
}

impl Resources {
    /// The JSON form.
    pub open spec fn json(self) -> JsonView {
        JsonView::Object(
            put(
                put(Members::empty(), "rssKb"@, JsonView::Int(self.rss_kb as int)),
                "cpuPercent"@,
                JsonView::Float(self.cpu_percent@),
            ),
        )
    }

    /// Build the JSON form.
    pub fn to_json(&self) -> (j: Json)
        ensures
            j@ == self.json(),
    {
        let m = field(JsonMap::new(), "rssKb", Json::PosInt(self.rss_kb));
        let cpu = Json::Float(self.cpu_percent.copy());
        Json::Object(field(m, "cpuPercent", cpu))
    }
}

/// Optional resources; `null` where there are none.
pub open spec fn resources_json(v: Option<Resources>) -> JsonView {
    match v {
        Some(r) => r.json(),
        None => JsonView::Null,
    }
}

fn opt_resources(v: &Option<Resources>) -> (j: Json)
    ensures
        j@ == resources_json(*v),
{
    match v {
        Some(r) => r.to_json(),
        None => Json::Null,
    }
}

impl TerminalStats {
    /// The JSON form.
    pub open spec fn json(self) -> JsonView {
        let a = put(Members::empty(), "cols"@, JsonView::Int(self.cols as int));
        let b = put(a, "rows"@, JsonView::Int(self.rows as int));
        let c = put(b, "cursorX"@, JsonView::Int(self.cursor_x as int));
        let d = put(c, "cursorY"@, JsonView::Int(self.cursor_y as int));
        let e = put(d, "scrollbackUsed"@, JsonView::Int(self.scrollback_used as int));
        JsonView::Object(
            put(e, "scrollbackCapacity"@, JsonView::Int(self.scrollback_capacity as int)),
        )
    }

    /// Build the JSON form.
    pub fn to_json(&self) -> (j: Json)
        ensures
            j@ == self.json(),
    {
        let a = field(JsonMap::new(), "cols", Json::PosInt(self.cols as u64));
        let b = field(a, "rows", Json::PosInt(self.rows as u64));
        let c = field(b, "cursorX", Json::PosInt(self.cursor_x as u64));
        let d = field(c, "cursorY", Json::PosInt(self.cursor_y as u64));
        let e = field(d, "scrollbackUsed", Json::PosInt(self.scrollback_used as u64));
        Json::Object(
            field(e, "scrollbackCapacity", Json::PosInt(self.scrollback_capacity as u64)),
        )
    }
}

impl ProcessStats {
    /// The JSON form.
    pub open spec fn json(self) -> JsonView {
        let a = put(Members::empty(), "alive"@, JsonView::Bool(self.alive));
        let b = put(a, "exitCode"@, opt_int_json(wide(self.exit_code)));
        let c = put(b, "pid"@, opt_int_json(wide(self.pid)));
        JsonView::Object(put(c, "resources"@, resources_json(self.resources)))
    }

    /// Build the JSON form.
    pub fn to_json(&self) -> (j: Json)
        ensures
            j@ == self.json(),
    {
        let a = field(JsonMap::new(), "alive", Json::Bool(self.alive));
        let b = field(a, "exitCode", opt_i32(self.exit_code));
        let c = field(b, "pid", opt_i32(self.pid));
        Json::Object(field(c, "resources", opt_resources(&self.resources)))
    }
}

impl DaemonStats {
    /// The JSON form.
    pub open spec fn json(self) -> JsonView {
        let a = put(Members::empty(), "pid"@, JsonView::Int(self.pid as int));
        JsonView::Object(put(a, "resources"@, resources_json(self.resources)))
    }

    /// Build the JSON form.
    pub fn to_json(&self) -> (j: Json)
        ensures
            j@ == self.json(),
    {
        let a = field(JsonMap::new(), "pid", int_json(self.pid));
        Json::Object(field(a, "resources", opt_resources(&self.resources)))
    }
}

impl Constrains {
    /// The JSON form.
    pub open spec fn json(self) -> JsonView {
        let a = put(Members::empty(), "rows"@, JsonView::Bool(self.rows));
        JsonView::Object(put(a, "cols"@, JsonView::Bool(self.cols)))
    }

    /// Build the JSON form.
    pub fn to_json(&self) -> (j: Json)
        ensures
            j@ == self.json(),
    {
        let a = field(JsonMap::new(), "rows", Json::Bool(self.rows));
        Json::Object(field(a, "cols", Json::Bool(self.cols)))
    }
}

impl ConnectionStats {
    /// The JSON form, with the role first.
    pub open spec fn json(self) -> JsonView {
        match self {
            ConnectionStats::Writable { rows, cols, last_request_sequence, constrains } => {
                let a = put(Members::empty(), "role"@, JsonView::Str("writable"@));
                let b = put(a, "rows"@, JsonView::Int(rows as int));
                let c = put(b, "cols"@, JsonView::Int(cols as int));
                let d = put(c, "lastRequestSequence"@, JsonView::Int(last_request_sequence as int));
                JsonView::Object(put(d, "constrains"@, constrains.json()))
            },
            ConnectionStats::Readonly { constrains } => {
                let a = put(Members::empty(), "role"@, JsonView::Str("readonly"@));
                JsonView::Object(put(a, "constrains"@, constrains.json()))
            },
        }
    }

    /// Build the JSON form.
    pub fn to_json(&self) -> (j: Json)
        ensures
            j@ == self.json(),
    {
        match self {
            ConnectionStats::Writable { rows, cols, last_request_sequence, constrains } => {
                let a = field(JsonMap::new(), "role", Json::Str("writable".to_owned()));
                let b = field(a, "rows", Json::PosInt(*rows as u64));
                let c = field(b, "cols", Json::PosInt(*cols as u64));
                let d = field(c, "lastRequestSequence", Json::PosInt(*last_request_sequence));
                Json::Object(field(d, "constrains", constrains.to_json()))
            },
            ConnectionStats::Readonly { constrains } => {
                let a = field(JsonMap::new(), "role", Json::Str("readonly".to_owned()));
                Json::Object(field(a, "constrains", constrains.to_json()))
            },
        }
    }
}

/// Connections as a JSON array.
pub open spec fn connections_json(v: Seq<ConnectionStats>) -> JsonView {
    JsonView::Array(Seq::new(v.len(), |i: int| v[i].json()))
}

fn connections_to_json(v: &[ConnectionStats]) -> (j: Json)
    ensures
        j@ == connections_json(v@),
{
    let ghost want = connections_json(v@)->Array_0;
    let mut out: Vec<Json> = Vec::new();
    let mut i: usize = 0;
    while i < v.len()
        invariant
            i <= v@.len(),
            out@.len() == i,
            forall|k: int| 0 <= k < i ==> (#[trigger] out@[k])@ == v@[k].json(),
        decreases v.len() - i,
    {
        out.push(v[i].to_json());
        i += 1;
    }
    let j = Json::Array(out);
    assert(j@->Array_0 =~= want);
    j
}

impl ClientStats {
    /// The JSON form.
    pub open spec fn json(self) -> JsonView {
        let a = put(Members::empty(), "total"@, JsonView::Int(self.total as int));
        let b = put(a, "attached"@, JsonView::Int(self.attached as int));
        let c = put(b, "readOnly"@, JsonView::Int(self.read_only as int));
        JsonView::Object(
            match self.connections {
                Some(v) => put(c, "connections"@, connections_json(v@)),
                None => c,
            },
        )
    }

    /// Build the JSON form.
    pub fn to_json(&self) -> (j: Json)
        ensures
            j@ == self.json(),
    {
        let a = field(JsonMap::new(), "total", Json::PosInt(self.total as u64));
        let b = field(a, "attached", Json::PosInt(self.attached as u64));
        let c = field(b, "readOnly", Json::PosInt(self.read_only as u64));
        match &self.connections {
            Some(v) => Json::Object(field(c, "connections", connections_to_json(v.as_slice()))),
            None => Json::Object(c),
        }
    }
}

/// Numbers as a JSON array.
pub open spec fn flags_json(v: Seq<u8>) -> JsonView {
    JsonView::Array(Seq::new(v.len(), |i: int| JsonView::Int(v[i] as int)))
}

fn flags_to_json(v: &[u8]) -> (j: Json)
    ensures
        j@ == flags_json(v@),
{
    let ghost want = flags_json(v@)->Array_0;
    let mut out: Vec<Json> = Vec::new();
    let mut i: usize = 0;
    while i < v.len()
        invariant
            i <= v@.len(),
            out@.len() == i,
            forall|k: int| 0 <= k < i ==> (#[trigger] out@[k])@ == JsonView::Int(v@[k] as int),
        decreases v.len() - i,
    {
        out.push(Json::PosInt(v[i] as u64));
        i += 1;
    }
    let j = Json::Array(out);
    assert(j@->Array_0 =~= want);
    j
}

impl ModeStats {
    /// The JSON form.
    pub open spec fn json(self) -> JsonView {
        let a = put(Members::empty(), "sgrMouse"@, JsonView::Bool(self.sgr_mouse));
        let b = put(a, "cursorHidden"@, JsonView::Bool(self.cursor_hidden));
        let c = put(b, "kittyKeyboard"@, JsonView::Bool(self.kitty_keyboard));
        JsonView::Object(put(c, "kittyKeyboardFlags"@, flags_json(self.kitty_keyboard_flags@)))
    }

    /// Build the JSON form.
    pub fn to_json(&self) -> (j: Json)
        ensures
            j@ == self.json(),
    {
        let a = field(JsonMap::new(), "sgrMouse", Json::Bool(self.sgr_mouse));
        let b = field(a, "cursorHidden", Json::Bool(self.cursor_hidden));
        let c = field(b, "kittyKeyboard", Json::Bool(self.kitty_keyboard));
        Json::Object(
            field(c, "kittyKeyboardFlags", flags_to_json(self.kitty_keyboard_flags.as_slice())),
        )
    }
}

impl StatsResult {
    /// The JSON form.
    pub open spec fn json(self) -> JsonView {
        let a = put(Members::empty(), "name"@, JsonView::Str(self.name@));
        let b = put(a, "terminal"@, self.terminal.json());
        let c = put(b, "process"@, self.process.json());
        let d = put(c, "daemon"@, self.daemon.json());
        let e = put(d, "clients"@, self.clients.json());
        let f = put(e, "modes"@, self.modes.json());
        let g = put(f, "uptimeSeconds"@, opt_int_json(wide64(self.uptime_seconds)));
        JsonView::Object(put(g, "createdAt"@, opt_text_json(opt_view(self.created_at))))
    }

    /// Build the JSON form.
    pub fn to_json(&self) -> (j: Json)
        ensures
            j@ == self.json(),
    {
        let a = field(JsonMap::new(), "name", Json::Str(self.name.clone()));
        let b = field(a, "terminal", self.terminal.to_json());
        let c = field(b, "process", self.process.to_json());
        let d = field(c, "daemon", self.daemon.to_json());
        let e = field(d, "clients", self.clients.to_json());
        let f = field(e, "modes", self.modes.to_json());
        let uptime = match self.uptime_seconds {
            Some(n) => i64_json(n),
            None => Json::Null,
        };
        let g = field(f, "uptimeSeconds", uptime);
        Json::Object(field(g, "createdAt", opt_text(&self.created_at)))
    }
}

impl GoneStats {
    /// The JSON form. The tags are ordered by key.
    pub open spec fn json(self) -> JsonView {
        let a = put(Members::empty(), "name"@, JsonView::Str(self.name@));
        let b = put(a, "status"@, JsonView::Str(self.status@));
        let c = put(b, "exitCode"@, opt_int_json(wide(self.exit_code)));
        let d = put(c, "exitedAt"@, opt_text_json(opt_view(self.exited_at)));
        JsonView::Object(
            match self.tags {
                Some(t) => put(d, "tags"@, pairs_json(by_key(entries(t)))),
                None => d,
            },
        )
    }

    /// Build the JSON form.
    pub fn to_json(&self) -> (j: Json)
        ensures
            j@ == self.json(),
    {
        let a = field(JsonMap::new(), "name", Json::Str(self.name.clone()));
        let b = field(a, "status", Json::Str(self.status.clone()));
        let c = field(b, "exitCode", opt_i32(self.exit_code));
        let d = field(c, "exitedAt", opt_text(&self.exited_at));
        match &self.tags {
            Some(t) => Json::Object(field(d, "tags", string_map_value(&tags_by_key(t)))),
            None => Json::Object(d),
        }
    }
}

/// The resident pages in the text of a process's memory file: its second word.
pub open spec fn resident_pages(statm: Seq<char>) -> Option<int> {
    let w = words(statm);
    if w.len() < 2 {
        None
    } else {
        int_within(w[1], false, 0, u64::MAX as int)
    }
}

/// The resident set of a process in kilobytes, from its memory file and the
/// kilobytes of a page. A product beyond 64 bits wraps around.
pub fn resident_kb(statm: &str, page_kb: u64) -> (r: Option<u64>)
    ensures
        match r {
            Some(kb) => resident_pages(statm@) is Some && kb == (resident_pages(statm@)->0
                * page_kb) % 0x1_0000_0000_0000_0000,
            None => resident_pages(statm@) is None,
        },
{
    let chars = to_chars(statm);
    let w = split_whitespace(chars.as_slice());
    let ghost wv = words(statm@);
    assert(w@.len() == wv.len());
    if w.len() < 2 {
        return None;
    }
    assert(wv[1] == w@[1]@);
    match parse_u64(w[1].as_str()) {
        Some(pages) => Some(pages.wrapping_mul(page_kb)),
        None => None,
    }
}

/// A key that is not there yet is put behind the others.
proof fn lemma_put_new(m: Members, key: Seq<char>, v: JsonView)
    requires
        forall|i: int| 0 <= i < m.len() ==> (#[trigger] m[i]).0 != key,
    ensures
        put(m, key, v) == m.push((key, v)),
{
    crate::pairs::lemma_key_absent(m, key);
}

/// What is said of resources: the memory and the processor time.
pub proof fn law_stats_of_resources(r: Resources)
    ensures
        r.json() is Object,
        r.json()->Object_0 == seq![
            ("rssKb"@, JsonView::Int(r.rss_kb as int)),
            ("cpuPercent"@, JsonView::Float(r.cpu_percent@)),
        ],
{
    reveal_strlit("rssKb");
    reveal_strlit("cpuPercent");
    assert("rssKb"@.len() == 5 && "cpuPercent"@.len() == 10);
    let m0 = Members::empty();
    let m1 = m0.push(("rssKb"@, JsonView::Int(r.rss_kb as int)));
    lemma_put_new(m0, "rssKb"@, JsonView::Int(r.rss_kb as int));
    let m2 = m1.push(("cpuPercent"@, JsonView::Float(r.cpu_percent@)));
    lemma_put_new(m1, "cpuPercent"@, JsonView::Float(r.cpu_percent@));
    assert(m2 =~= seq![
        ("rssKb"@, JsonView::Int(r.rss_kb as int)),
        ("cpuPercent"@, JsonView::Float(r.cpu_percent@)),
    ]);
}

/// What is said of a terminal: its size, its cursor and its scrollback.
pub proof fn law_stats_of_a_terminal(t: TerminalStats)
    ensures
        t.json() is Object,
        t.json()->Object_0 == seq![
            ("cols"@, JsonView::Int(t.cols as int)),
            ("rows"@, JsonView::Int(t.rows as int)),
            ("cursorX"@, JsonView::Int(t.cursor_x as int)),
            ("cursorY"@, JsonView::Int(t.cursor_y as int)),
            ("scrollbackUsed"@, JsonView::Int(t.scrollback_used as int)),
            ("scrollbackCapacity"@, JsonView::Int(t.scrollback_capacity as int)),
        ],
{
    reveal_strlit("cols");
    reveal_strlit("rows");
    reveal_strlit("cursorX");
    reveal_strlit("cursorY");
    reveal_strlit("scrollbackUsed");
    reveal_strlit("scrollbackCapacity");
    assert("cols"@.len() == 4 && "rows"@.len() == 4 && "cursorX"@.len() == 7 && "cursorY"@.len() == 7 && "scrollbackUsed"@.len() == 14 && "scrollbackCapacity"@.len() == 18);
    assert("cols"@[0] == 'c' && "rows"@[0] == 'r');
    assert("cursorX"@[6] == 'X' && "cursorY"@[6] == 'Y');
    let m0 = Members::empty();
    let m1 = m0.push(("cols"@, JsonView::Int(t.cols as int)));
    lemma_put_new(m0, "cols"@, JsonView::Int(t.cols as int));
    let m2 = m1.push(("rows"@, JsonView::Int(t.rows as int)));
    lemma_put_new(m1, "rows"@, JsonView::Int(t.rows as int));
    let m3 = m2.push(("cursorX"@, JsonView::Int(t.cursor_x as int)));
    lemma_put_new(m2, "cursorX"@, JsonView::Int(t.cursor_x as int));
    let m4 = m3.push(("cursorY"@, JsonView::Int(t.cursor_y as int)));
    lemma_put_new(m3, "cursorY"@, JsonView::Int(t.cursor_y as int));
    let m5 = m4.push(("scrollbackUsed"@, JsonView::Int(t.scrollback_used as int)));
    lemma_put_new(m4, "scrollbackUsed"@, JsonView::Int(t.scrollback_used as int));
    let m6 = m5.push(("scrollbackCapacity"@, JsonView::Int(t.scrollback_capacity as int)));
    lemma_put_new(m5, "scrollbackCapacity"@, JsonView::Int(t.scrollback_capacity as int));
    assert(m6 =~= seq![
        ("cols"@, JsonView::Int(t.cols as int)),
        ("rows"@, JsonView::Int(t.rows as int)),
        ("cursorX"@, JsonView::Int(t.cursor_x as int)),
        ("cursorY"@, JsonView::Int(t.cursor_y as int)),
        ("scrollbackUsed"@, JsonView::Int(t.scrollback_used as int)),
        ("scrollbackCapacity"@, JsonView::Int(t.scrollback_capacity as int)),
    ]);
}

/// What is said of a process: whether it lives, how it exited, and what it uses.
pub proof fn law_stats_of_a_process(p: ProcessStats)
    ensures
        p.json() is Object,
        p.json()->Object_0 == seq![
            ("alive"@, JsonView::Bool(p.alive)),
            ("exitCode"@, opt_int_json(wide(p.exit_code))),
            ("pid"@, opt_int_json(wide(p.pid))),
            ("resources"@, resources_json(p.resources)),
        ],
{
    reveal_strlit("alive");
    reveal_strlit("exitCode");
    reveal_strlit("pid");
    reveal_strlit("resources");
    assert("alive"@.len() == 5 && "exitCode"@.len() == 8 && "pid"@.len() == 3 && "resources"@.len() == 9);
    let m0 = Members::empty();
    let m1 = m0.push(("alive"@, JsonView::Bool(p.alive)));
    lemma_put_new(m0, "alive"@, JsonView::Bool(p.alive));
    let m2 = m1.push(("exitCode"@, opt_int_json(wide(p.exit_code))));
    lemma_put_new(m1, "exitCode"@, opt_int_json(wide(p.exit_code)));
    let m3 = m2.push(("pid"@, opt_int_json(wide(p.pid))));
    lemma_put_new(m2, "pid"@, opt_int_json(wide(p.pid)));
    let m4 = m3.push(("resources"@, resources_json(p.resources)));
    lemma_put_new(m3, "resources"@, resources_json(p.resources));
    assert(m4 =~= seq![
        ("alive"@, JsonView::Bool(p.alive)),
        ("exitCode"@, opt_int_json(wide(p.exit_code))),
        ("pid"@, opt_int_json(wide(p.pid))),
        ("resources"@, resources_json(p.resources)),
    ]);
}

/// What is said of a daemon: its pid and what it uses.
pub proof fn law_stats_of_a_daemon(d: DaemonStats)
    ensures
        d.json() is Object,
        d.json()->Object_0 == seq![
            ("pid"@, JsonView::Int(d.pid as int)),
            ("resources"@, resources_json(d.resources)),
        ],
{
    reveal_strlit("pid");
    reveal_strlit("resources");
    assert("pid"@.len() == 3 && "resources"@.len() == 9);
    let m0 = Members::empty();
    let m1 = m0.push(("pid"@, JsonView::Int(d.pid as int)));
    lemma_put_new(m0, "pid"@, JsonView::Int(d.pid as int));
    let m2 = m1.push(("resources"@, resources_json(d.resources)));
    lemma_put_new(m1, "resources"@, resources_json(d.resources));
    assert(m2 =~= seq![
        ("pid"@, JsonView::Int(d.pid as int)),
        ("resources"@, resources_json(d.resources)),
    ]);
}

/// What is said of constraints: whether it bounds the rows and the columns.
pub proof fn law_stats_of_constraints(c: Constrains)
    ensures
        c.json() is Object,
        c.json()->Object_0 == seq![
            ("rows"@, JsonView::Bool(c.rows)),
            ("cols"@, JsonView::Bool(c.cols)),
        ],
{
    reveal_strlit("rows");
    reveal_strlit("cols");
    assert("rows"@.len() == 4 && "cols"@.len() == 4);
    assert("rows"@[0] == 'r' && "cols"@[0] == 'c');
    let m0 = Members::empty();
    let m1 = m0.push(("rows"@, JsonView::Bool(c.rows)));
    lemma_put_new(m0, "rows"@, JsonView::Bool(c.rows));
    let m2 = m1.push(("cols"@, JsonView::Bool(c.cols)));
    lemma_put_new(m1, "cols"@, JsonView::Bool(c.cols));
    assert(m2 =~= seq![
        ("rows"@, JsonView::Bool(c.rows)),
        ("cols"@, JsonView::Bool(c.cols)),
    ]);
}

/// What is said of modes: the mouse, the cursor and the keyboard.
pub proof fn law_stats_of_modes(m: ModeStats)
    ensures
        m.json() is Object,
        m.json()->Object_0 == seq![
            ("sgrMouse"@, JsonView::Bool(m.sgr_mouse)),
            ("cursorHidden"@, JsonView::Bool(m.cursor_hidden)),
            ("kittyKeyboard"@, JsonView::Bool(m.kitty_keyboard)),
            ("kittyKeyboardFlags"@, flags_json(m.kitty_keyboard_flags@)),
        ],
{
    reveal_strlit("sgrMouse");
    reveal_strlit("cursorHidden");
    reveal_strlit("kittyKeyboard");
    reveal_strlit("kittyKeyboardFlags");
    assert("sgrMouse"@.len() == 8 && "cursorHidden"@.len() == 12 && "kittyKeyboard"@.len() == 13 && "kittyKeyboardFlags"@.len() == 18);
    let m0 = Members::empty();
    let m1 = m0.push(("sgrMouse"@, JsonView::Bool(m.sgr_mouse)));
    lemma_put_new(m0, "sgrMouse"@, JsonView::Bool(m.sgr_mouse));
    let m2 = m1.push(("cursorHidden"@, JsonView::Bool(m.cursor_hidden)));
    lemma_put_new(m1, "cursorHidden"@, JsonView::Bool(m.cursor_hidden));
    let m3 = m2.push(("kittyKeyboard"@, JsonView::Bool(m.kitty_keyboard)));
    lemma_put_new(m2, "kittyKeyboard"@, JsonView::Bool(m.kitty_keyboard));
    let m4 = m3.push(("kittyKeyboardFlags"@, flags_json(m.kitty_keyboard_flags@)));
    lemma_put_new(m3, "kittyKeyboardFlags"@, flags_json(m.kitty_keyboard_flags@));
    assert(m4 =~= seq![
        ("sgrMouse"@, JsonView::Bool(m.sgr_mouse)),
        ("cursorHidden"@, JsonView::Bool(m.cursor_hidden)),
        ("kittyKeyboard"@, JsonView::Bool(m.kitty_keyboard)),
        ("kittyKeyboardFlags"@, flags_json(m.kitty_keyboard_flags@)),
    ]);
}

/// What is said of a session: its name, its parts, and since when it runs.
pub proof fn law_stats_of_a_session(s: StatsResult)
    ensures
        s.json() is Object,
        s.json()->Object_0 == seq![
            ("name"@, JsonView::Str(s.name@)),
            ("terminal"@, s.terminal.json()),
            ("process"@, s.process.json()),
            ("daemon"@, s.daemon.json()),
            ("clients"@, s.clients.json()),
            ("modes"@, s.modes.json()),
            ("uptimeSeconds"@, opt_int_json(wide64(s.uptime_seconds))),
            ("createdAt"@, opt_text_json(opt_view(s.created_at))),
        ],
{
    reveal_strlit("name");
    reveal_strlit("terminal");
    reveal_strlit("process");
    reveal_strlit("daemon");
    reveal_strlit("clients");
    reveal_strlit("modes");
    reveal_strlit("uptimeSeconds");
    reveal_strlit("createdAt");
    assert("name"@.len() == 4 && "terminal"@.len() == 8 && "process"@.len() == 7 && "daemon"@.len() == 6 && "clients"@.len() == 7 && "modes"@.len() == 5 && "uptimeSeconds"@.len() == 13 && "createdAt"@.len() == 9);
    assert("process"@[0] == 'p' && "clients"@[0] == 'c');
    let m0 = Members::empty();
    let m1 = m0.push(("name"@, JsonView::Str(s.name@)));
    lemma_put_new(m0, "name"@, JsonView::Str(s.name@));
    let m2 = m1.push(("terminal"@, s.terminal.json()));
    lemma_put_new(m1, "terminal"@, s.terminal.json());
    let m3 = m2.push(("process"@, s.process.json()));
    lemma_put_new(m2, "process"@, s.process.json());
    let m4 = m3.push(("daemon"@, s.daemon.json()));
    lemma_put_new(m3, "daemon"@, s.daemon.json());
    let m5 = m4.push(("clients"@, s.clients.json()));
    lemma_put_new(m4, "clients"@, s.clients.json());
    let m6 = m5.push(("modes"@, s.modes.json()));
    lemma_put_new(m5, "modes"@, s.modes.json());
    let m7 = m6.push(("uptimeSeconds"@, opt_int_json(wide64(s.uptime_seconds))));
    lemma_put_new(m6, "uptimeSeconds"@, opt_int_json(wide64(s.uptime_seconds)));
    let m8 = m7.push(("createdAt"@, opt_text_json(opt_view(s.created_at))));
    lemma_put_new(m7, "createdAt"@, opt_text_json(opt_view(s.created_at)));
    assert(m8 =~= seq![
        ("name"@, JsonView::Str(s.name@)),
        ("terminal"@, s.terminal.json()),
        ("process"@, s.process.json()),
        ("daemon"@, s.daemon.json()),
        ("clients"@, s.clients.json()),
        ("modes"@, s.modes.json()),
        ("uptimeSeconds"@, opt_int_json(wide64(s.uptime_seconds))),
        ("createdAt"@, opt_text_json(opt_view(s.created_at))),
    ]);
}

/// What is said of a connection: its role, and of one that writes its size and
/// how late it asked for it.
pub proof fn law_stats_of_a_connection(rows: u16, cols: u16, last: u64, c: Constrains)
    ensures
        ({
            let j = (ConnectionStats::Writable {
                rows,
                cols,
                last_request_sequence: last,
                constrains: c,
            }).json();
            j is Object && j->Object_0 == seq![
            ("role"@, JsonView::Str("writable"@)),
            ("rows"@, JsonView::Int(rows as int)),
            ("cols"@, JsonView::Int(cols as int)),
            ("lastRequestSequence"@, JsonView::Int(last as int)),
            ("constrains"@, c.json()),
        ]
        }),
        ({
            let j = (ConnectionStats::Readonly { constrains: c }).json();
            j is Object && j->Object_0 == seq![
            ("role"@, JsonView::Str("readonly"@)),
            ("constrains"@, c.json()),
        ]
        }),
{
    reveal_strlit("role");
    reveal_strlit("rows");
    reveal_strlit("cols");
    reveal_strlit("lastRequestSequence");
    reveal_strlit("constrains");
    assert("role"@.len() == 4 && "rows"@.len() == 4 && "cols"@.len() == 4 && "lastRequestSequence"@.len() == 19 && "constrains"@.len() == 10);
    assert("role"@[2] == 'l' && "role"@[0] == 'r' && "rows"@[2] == 'w' && "rows"@[0] == 'r' && "cols"@[2] == 'l' && "cols"@[0] == 'c');
    let m0 = Members::empty();
    let m1 = m0.push(("role"@, JsonView::Str("writable"@)));
    lemma_put_new(m0, "role"@, JsonView::Str("writable"@));
    let m2 = m1.push(("rows"@, JsonView::Int(rows as int)));
    lemma_put_new(m1, "rows"@, JsonView::Int(rows as int));
    let m3 = m2.push(("cols"@, JsonView::Int(cols as int)));
    lemma_put_new(m2, "cols"@, JsonView::Int(cols as int));
    let m4 = m3.push(("lastRequestSequence"@, JsonView::Int(last as int)));
    lemma_put_new(m3, "lastRequestSequence"@, JsonView::Int(last as int));
    let m5 = m4.push(("constrains"@, c.json()));
    lemma_put_new(m4, "constrains"@, c.json());
    let r1 = m0.push(("role"@, JsonView::Str("readonly"@)));
    lemma_put_new(m0, "role"@, JsonView::Str("readonly"@));
    lemma_put_new(r1, "constrains"@, c.json());
}

/// What is said of the clients: how many there are, and each of them where that
/// was asked for.
pub proof fn law_stats_of_clients(c: ClientStats)
    ensures
        c.json() is Object,
        c.connections is None ==> c.json()->Object_0 == seq![
            ("total"@, JsonView::Int(c.total as int)),
            ("attached"@, JsonView::Int(c.attached as int)),
            ("readOnly"@, JsonView::Int(c.read_only as int)),
        ],
        c.connections is Some ==> c.json()->Object_0 == seq![
            ("total"@, JsonView::Int(c.total as int)),
            ("attached"@, JsonView::Int(c.attached as int)),
            ("readOnly"@, JsonView::Int(c.read_only as int)),
            ("connections"@, connections_json(c.connections->0@)),
        ],
{
    reveal_strlit("total");
    reveal_strlit("attached");
    reveal_strlit("readOnly");
    assert("total"@.len() == 5 && "attached"@.len() == 8 && "readOnly"@.len() == 8);
    assert("attached"@[0] == 'a' && "readOnly"@[0] == 'r');
    let m0 = Members::empty();
    let m1 = m0.push(("total"@, JsonView::Int(c.total as int)));
    lemma_put_new(m0, "total"@, JsonView::Int(c.total as int));
    let m2 = m1.push(("attached"@, JsonView::Int(c.attached as int)));
    lemma_put_new(m1, "attached"@, JsonView::Int(c.attached as int));
    let m3 = m2.push(("readOnly"@, JsonView::Int(c.read_only as int)));
    lemma_put_new(m2, "readOnly"@, JsonView::Int(c.read_only as int));
    reveal_strlit("connections");
    assert("connections"@.len() == 11);
    if c.connections is Some {
        lemma_put_new(m3, "connections"@, connections_json(c.connections->0@));
    }
}

/// What is said of a session that is gone: its name and status, how it exited,
/// and its tags by key where it has any.
pub proof fn law_stats_of_a_gone_session(g: GoneStats)
    ensures
        g.json() is Object,
        g.tags is None ==> g.json()->Object_0 == seq![
            ("name"@, JsonView::Str(g.name@)),
            ("status"@, JsonView::Str(g.status@)),
            ("exitCode"@, opt_int_json(wide(g.exit_code))),
            ("exitedAt"@, opt_text_json(opt_view(g.exited_at))),
        ],
        g.tags is Some ==> g.json()->Object_0 == seq![
            ("name"@, JsonView::Str(g.name@)),
            ("status"@, JsonView::Str(g.status@)),
            ("exitCode"@, opt_int_json(wide(g.exit_code))),
            ("exitedAt"@, opt_text_json(opt_view(g.exited_at))),
            ("tags"@, pairs_json(by_key(entries(g.tags->0)))),
        ],
{
    reveal_strlit("name");
    reveal_strlit("status");
    reveal_strlit("exitCode");
    reveal_strlit("exitedAt");
    assert("name"@.len() == 4 && "status"@.len() == 6 && "exitCode"@.len() == 8 && "exitedAt"@.len() == 8);
    assert("exitCode"@[4] == 'C' && "exitedAt"@[4] == 'e');
    let m0 = Members::empty();
    let m1 = m0.push(("name"@, JsonView::Str(g.name@)));
    lemma_put_new(m0, "name"@, JsonView::Str(g.name@));
    let m2 = m1.push(("status"@, JsonView::Str(g.status@)));
    lemma_put_new(m1, "status"@, JsonView::Str(g.status@));
    let m3 = m2.push(("exitCode"@, opt_int_json(wide(g.exit_code))));
    lemma_put_new(m2, "exitCode"@, opt_int_json(wide(g.exit_code)));
    let m4 = m3.push(("exitedAt"@, opt_text_json(opt_view(g.exited_at))));
    lemma_put_new(m3, "exitedAt"@, opt_text_json(opt_view(g.exited_at)));
    reveal_strlit("tags");
    assert("tags"@.len() == 4 && "tags"@[0] == 't' && "name"@[0] == 'n');
    if g.tags is Some {
        lemma_put_new(m4, "tags"@, pairs_json(by_key(entries(g.tags->0))));
    }
}

/// How values that may be missing are written, and lists of flags and of
/// connections.
pub proof fn law_missing_values(
    n: int,
    s: Seq<char>,
    a: i32,
    b: i64,
    r: Resources,
    v: Seq<u8>,
    w: Seq<ConnectionStats>,
    i: int,
)
    ensures
        opt_int_json(Some(n)) == JsonView::Int(n) && opt_int_json(None) == JsonView::Null,
        opt_text_json(Some(s)) == JsonView::Str(s) && opt_text_json(None) == JsonView::Null,
        wide(Some(a)) == Some(a as int) && wide(None) is None,
        wide64(Some(b)) == Some(b as int) && wide64(None) is None,
        resources_json(Some(r)) == r.json() && resources_json(None) == JsonView::Null,
        flags_json(v) is Array && flags_json(v)->Array_0.len() == v.len(),
        0 <= i < v.len() ==> flags_json(v)->Array_0[i] == JsonView::Int(v[i] as int),
        connections_json(w) is Array && connections_json(w)->Array_0.len() == w.len(),
        0 <= i < w.len() ==> connections_json(w)->Array_0[i] == w[i].json(),
{
}

/// The resident pages are the second number of the line.
pub proof fn law_resident_pages(line: Seq<char>)
    ensures
        words(line).len() < 2 ==> resident_pages(line) is None,
        words(line).len() >= 2 ==> resident_pages(line) == int_within(
            words(line)[1],
            false,
            0,
            u64::MAX as int,
        ),
{
}

} // verus!
