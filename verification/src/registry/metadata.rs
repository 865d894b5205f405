//! `<name>.json`: the record of a session on disk. It is pretty JSON in a
//! fixed key order on publication, and fields that this version does not know
//! survive a rewrite.

use crate::json::{
    as_members, as_text, max_nesting, parse_json_bytes, parsed_bytes, pretty, readable, same,
    to_pretty_text, Json, JsonMap, JsonView, Members,
};
use crate::maps::{
    entries, opt_entries, tags_at, tags_clone, tags_len, EnvMap, TagMap,
};
use crate::pairs::{
    distinct_keys, has_key, key_index, key_list, law_put_then_lookup, law_without_then_lookup,
    lemma_key_found, lemma_key_index, lookup, put, without,
};
use crate::protocol::int_json;
use crate::text::{opt_view, views};
use vstd::prelude::*;
use vstd::utf8::{encode_utf8, encode_utf8_decode_utf8, encode_utf8_valid_utf8};

verus! {

/// `lastLines` keeps at most this many rows.
pub const SESSION_EXIT_LAST_LINES_LIMIT: usize = 200;

/// On-disk metadata of a session. `extra` catches every field this version
/// does not know, so that a rewrite preserves it.
#[derive(Debug, PartialEq)]
pub struct SessionMetadata {
    /// Opaque daemon-generation token. Legacy records lack it.
    pub generation: Option<String>,
    /// Pid of the daemon that owns this generation.
    pub daemon_pid: Option<i32>,
    /// Recovery capability. Opaque: preserved verbatim, never produced.
    pub recovery: Option<Json>,
    pub command: String,
    pub args: Vec<String>,
    /// The command as the user typed it.
    pub display_command: String,
    pub cwd: String,
    pub rows: Option<u16>,
    pub cols: Option<u16>,
    pub ephemeral: Option<bool>,
    /// ISO-8601 with milliseconds and `Z`.
    pub created_at: String,
    pub display_name: Option<String>,
    pub tags: Option<TagMap>,
    pub isolate_env: Option<bool>,
    pub extra_env: Option<EnvMap>,
    pub unset_env: Option<Vec<String>>,
    pub env: Option<EnvMap>,
    pub exit_code: Option<i32>,
    pub exited_at: Option<String>,
    pub last_lines: Option<Vec<String>>,
    /// Stamped by the daemon on every attach that is not read-only.
    pub last_attach_at: Option<String>,
    /// Unix milliseconds of the newest child output the daemon has seen.
    /// Absent until a session produces output.
    pub last_output_at_ms: Option<i64>,
    /// Every field this version does not model.
    pub extra: JsonMap,
}

/// Pairs of key and string.
pub type Pairs = Seq<(Seq<char>, Seq<char>)>;

/// The mathematical content of a `SessionMetadata`.
#[verifier::ext_equal]
pub struct MetaView {
    pub generation: Option<Seq<char>>,
    pub daemon_pid: Option<i32>,
    pub recovery: Option<JsonView>,
    pub command: Seq<char>,
    pub args: Seq<Seq<char>>,
    pub display_command: Seq<char>,
    pub cwd: Seq<char>,
    pub rows: Option<u16>,
    pub cols: Option<u16>,
    pub ephemeral: Option<bool>,
    pub created_at: Seq<char>,
    pub display_name: Option<Seq<char>>,
    pub tags: Option<Pairs>,
    pub isolate_env: Option<bool>,
    pub extra_env: Option<Pairs>,
    pub unset_env: Option<Seq<Seq<char>>>,
    pub env: Option<Pairs>,
    pub exit_code: Option<i32>,
    pub exited_at: Option<Seq<char>>,
    pub last_lines: Option<Seq<Seq<char>>>,
    pub last_attach_at: Option<Seq<char>>,
    pub last_output_at_ms: Option<i64>,
    pub extra: Members,
}

/// The views of an optional list of strings.
pub open spec fn opt_views(v: Option<Vec<String>>) -> Option<Seq<Seq<char>>> {
    match v {
        Some(l) => Some(views(l@)),
        None => None,
    }
}

impl View for SessionMetadata {
    type V = MetaView;

    open spec fn view(&self) -> MetaView {
        MetaView {
            generation: opt_view(self.generation),
            daemon_pid: self.daemon_pid,
            recovery: match self.recovery {
                Some(r) => Some(r@),
                None => None,
            },
            command: self.command@,
            args: views(self.args@),
            display_command: self.display_command@,
            cwd: self.cwd@,
            rows: self.rows,
            cols: self.cols,
            ephemeral: self.ephemeral,
            created_at: self.created_at@,
            display_name: opt_view(self.display_name),
            tags: opt_entries(self.tags),
            isolate_env: self.isolate_env,
            extra_env: opt_entries(self.extra_env),
            unset_env: opt_views(self.unset_env),
            env: opt_entries(self.env),
            exit_code: self.exit_code,
            exited_at: opt_view(self.exited_at),
            last_lines: opt_views(self.last_lines),
            last_attach_at: opt_view(self.last_attach_at),
            last_output_at_ms: self.last_output_at_ms,
            extra: self.extra@,
        }
    }
}

// ---- the record as a JSON object -----------------------------------------

/// A list of strings as a JSON array.
pub open spec fn strings_json(v: Seq<Seq<char>>) -> JsonView {
    JsonView::Array(Seq::new(v.len(), |i: int| JsonView::Str(v[i])))
}

/// Pairs of strings as a JSON object.
pub open spec fn pairs_json(v: Pairs) -> JsonView {
    JsonView::Object(Seq::new(v.len(), |i: int| (v[i].0, JsonView::Str(v[i].1))))
}

/// The object with a value under a key, where there is a value.
pub open spec fn put_some(m: Members, key: Seq<char>, value: Option<JsonView>) -> Members {
    match value {
        Some(v) => put(m, key, v),
        None => m,
    }
}

/// The object with every member of `more`.
pub open spec fn put_all(m: Members, more: Members) -> Members
    decreases more.len(),
{
    if more.len() == 0 {
        m
    } else {
        put(put_all(m, more.drop_last()), more.last().0, more.last().1)
    }
}

/// An optional string as an optional value.
pub open spec fn text_value(v: Option<Seq<char>>) -> Option<JsonView> {
    match v {
        Some(s) => Some(JsonView::Str(s)),
        None => None,
    }
}

/// An optional integer as an optional value.
pub open spec fn int_value(v: Option<int>) -> Option<JsonView> {
    match v {
        Some(n) => Some(JsonView::Int(n)),
        None => None,
    }
}

/// An optional flag as an optional value.
pub open spec fn flag_value(v: Option<bool>) -> Option<JsonView> {
    match v {
        Some(b) => Some(JsonView::Bool(b)),
        None => None,
    }
}

/// An optional list as an optional value.
pub open spec fn list_value(v: Option<Seq<Seq<char>>>) -> Option<JsonView> {
    match v {
        Some(l) => Some(strings_json(l)),
        None => None,
    }
}

/// An optional string map as an optional value.
pub open spec fn pairs_value(v: Option<Pairs>) -> Option<JsonView> {
    match v {
        Some(p) => Some(pairs_json(p)),
        None => None,
    }
}

/// An optional 32-bit number, widened.
pub open spec fn widen32(v: Option<i32>) -> Option<int> {
    match v {
        Some(n) => Some(n as int),
        None => None,
    }
}

/// An optional 16-bit number, widened.
pub open spec fn widen16(v: Option<u16>) -> Option<int> {
    match v {
        Some(n) => Some(n as int),
        None => None,
    }
}

/// An optional 64-bit number, widened.
pub open spec fn widen64(v: Option<i64>) -> Option<int> {
    match v {
        Some(n) => Some(n as int),
        None => None,
    }
}

/// The first part of the record: who runs what, where.
pub open spec fn identity_members(v: MetaView) -> Members {
    let m = Members::empty();
    let m = put_some(m, "generation"@, text_value(v.generation));
    let m = put_some(m, "daemonPid"@, int_value(widen32(v.daemon_pid)));
    let m = put_some(m, "recovery"@, v.recovery);
    let m = put(m, "command"@, JsonView::Str(v.command));
    let m = put(m, "args"@, strings_json(v.args));
    let m = put(m, "displayCommand"@, JsonView::Str(v.display_command));
    let m = put(m, "cwd"@, JsonView::Str(v.cwd));
    let m = put_some(m, "rows"@, int_value(widen16(v.rows)));
    put_some(m, "cols"@, int_value(widen16(v.cols)))
}

/// The record as an object, in the order of its fields; absent fields are
/// left out, and unknown fields follow.
pub open spec fn record_members(v: MetaView) -> Members {
    let m = identity_members(v);
    let m = put_some(m, "ephemeral"@, flag_value(v.ephemeral));
    let m = put(m, "createdAt"@, JsonView::Str(v.created_at));
    let m = put_some(m, "displayName"@, text_value(v.display_name));
    let m = put_some(m, "tags"@, pairs_value(v.tags));
    let m = put_some(m, "isolateEnv"@, flag_value(v.isolate_env));
    let m = put_some(m, "extraEnv"@, pairs_value(v.extra_env));
    let m = put_some(m, "unsetEnv"@, list_value(v.unset_env));
    let m = put_some(m, "env"@, pairs_value(v.env));
    let m = put_some(m, "exitCode"@, int_value(widen32(v.exit_code)));
    let m = put_some(m, "exitedAt"@, text_value(v.exited_at));
    let m = put_some(m, "lastLines"@, list_value(v.last_lines));
    let m = put_some(m, "lastAttachAt"@, text_value(v.last_attach_at));
    let m = put_some(m, "lastOutputAtMs"@, int_value(widen64(v.last_output_at_ms)));
    put_all(m, v.extra)
}

/// A list that is only kept when it holds something.
pub open spec fn kept_list(v: Option<Seq<Seq<char>>>) -> Option<Seq<Seq<char>>> {
    match v {
        Some(l) => if l.len() > 0 {
            Some(l)
        } else {
            None
        },
        None => None,
    }
}

/// Pairs that are only kept when there is one.
pub open spec fn kept_pairs(v: Option<Pairs>) -> Option<Pairs> {
    match v {
        Some(l) => if l.len() > 0 {
            Some(l)
        } else {
            None
        },
        None => None,
    }
}

/// A text that is only kept when it holds something.
pub open spec fn kept_text(v: Option<Seq<char>>) -> Option<Seq<char>> {
    match v {
        Some(l) => if l.len() > 0 {
            Some(l)
        } else {
            None
        },
        None => None,
    }
}

/// A flag that is only kept when it is set.
pub open spec fn kept_flag(v: Option<bool>) -> Option<bool> {
    if v == Some(true) {
        Some(true)
    } else {
        None
    }
}

/// The object that a daemon publishes when it starts. Whether the session is
/// ephemeral is always written; empty tags, names, environments and lists are
/// not, nor is an environment that is not isolated.
pub open spec fn publication_members(v: MetaView) -> Members {
    let m = identity_members(v);
    let m = put(m, "ephemeral"@, JsonView::Bool(v.ephemeral == Some(true)));
    let m = put(m, "createdAt"@, JsonView::Str(v.created_at));
    let m = put_some(m, "tags"@, pairs_value(kept_pairs(v.tags)));
    let m = put_some(m, "displayName"@, text_value(kept_text(v.display_name)));
    let m = put_some(m, "isolateEnv"@, flag_value(kept_flag(v.isolate_env)));
    let m = put_some(m, "extraEnv"@, pairs_value(kept_pairs(v.extra_env)));
    let m = put_some(m, "unsetEnv"@, list_value(kept_list(v.unset_env)));
    let m = put_some(m, "env"@, pairs_value(v.env));
    let r = record_members(v);
    let m = put_some(m, "exitCode"@, lookup(r, "exitCode"@));
    let m = put_some(m, "exitedAt"@, lookup(r, "exitedAt"@));
    let m = put_some(m, "lastLines"@, lookup(r, "lastLines"@));
    let m = put_some(m, "lastAttachAt"@, lookup(r, "lastAttachAt"@));
    let m = put_some(m, "lastOutputAtMs"@, lookup(r, "lastOutputAtMs"@));
    put_all(m, v.extra)
}

fn strings_to_json(v: &[String]) -> (j: Json)
    ensures
        j@ == strings_json(views(v@)),
{
    let mut out: Vec<Json> = Vec::new();
    let mut i: usize = 0;
    while i < v.len()
        invariant
            i <= v@.len(),
            out@.len() == i,
            forall|j: int| 0 <= j < i ==> (#[trigger] out@[j])@ == JsonView::Str(v@[j]@),
        decreases v.len() - i,
    {
        out.push(Json::Str(v[i].clone()));
        i += 1;
    }
    let j = Json::Array(out);
    assert(j@->Array_0 =~= strings_json(views(v@))->Array_0);
    j
}

/// A string map as a JSON object.
pub(crate) fn string_map_value(map: &TagMap) -> (j: Json)
    ensures
        j@ == pairs_json(entries(*map)),
{
    let n = tags_len(map);
    let ghost want = pairs_json(entries(*map))->Object_0;
    let mut out = JsonMap::new();
    let mut i: usize = 0;
    while i < n
        invariant
            i <= n,
            n == entries(*map).len(),
            want == pairs_json(entries(*map))->Object_0,
            out@ == want.take(i as int),
        decreases n - i,
    {
        match tags_at(map, i) {
            Some((k, v)) => {
                proof {
                    lemma_key_index(entries(*map), k@, 0);
                    assert forall|j: int| 0 <= j < out@.len() implies (#[trigger] out@[j]).0
                        != k@ by {
                        assert(out@[j] == want[j]);
                        assert(entries(*map)[j].0 != k@);
                    }
                }
                out.add_member(k.as_str(), Json::Str(v.clone()));
                assert(want.take(i + 1) =~= want.take(i as int).push(want[i as int]));
            },
            None => {
                assert(false);
            },
        }
        i += 1;
    }
    assert(want.take(n as int) =~= want);
    Json::Object(out)
}

fn put_text(m: &mut JsonMap, key: &str, value: &Option<String>)
    ensures
        final(m)@ == put_some(old(m)@, key@, text_value(opt_view(*value))),
{
    if let Some(s) = value {
        m.insert(key.to_owned(), Json::Str(s.clone()));
    }
}

fn put_i32(m: &mut JsonMap, key: &str, value: Option<i32>)
    ensures
        final(m)@ == put_some(old(m)@, key@, int_value(widen32(value))),
{
    if let Some(n) = value {
        m.insert(key.to_owned(), int_json(n));
    }
}

fn put_u16(m: &mut JsonMap, key: &str, value: Option<u16>)
    ensures
        final(m)@ == put_some(old(m)@, key@, int_value(widen16(value))),
{
    if let Some(n) = value {
        m.insert(key.to_owned(), Json::PosInt(n as u64));
    }
}

fn put_i64(m: &mut JsonMap, key: &str, value: Option<i64>)
    ensures
        final(m)@ == put_some(old(m)@, key@, int_value(widen64(value))),
{
    if let Some(n) = value {
        if n < 0 {
            m.insert(key.to_owned(), Json::NegInt(n));
        } else {
            m.insert(key.to_owned(), Json::PosInt(n as u64));
        }
    }
}

fn put_flag(m: &mut JsonMap, key: &str, value: Option<bool>)
    ensures
        final(m)@ == put_some(old(m)@, key@, flag_value(value)),
{
    if let Some(b) = value {
        m.insert(key.to_owned(), Json::Bool(b));
    }
}

fn put_list(m: &mut JsonMap, key: &str, value: &Option<Vec<String>>)
    ensures
        final(m)@ == put_some(old(m)@, key@, list_value(opt_views(*value))),
{
    if let Some(l) = value {
        m.insert(key.to_owned(), strings_to_json(l.as_slice()));
    }
}

fn put_pairs(m: &mut JsonMap, key: &str, value: &Option<TagMap>)
    ensures
        final(m)@ == put_some(old(m)@, key@, pairs_value(opt_entries(*value))),
{
    if let Some(t) = value {
        m.insert(key.to_owned(), string_map_value(t));
    }
}

fn put_json(m: &mut JsonMap, key: &str, value: Option<&Json>)
    ensures
        final(m)@ == put_some(
            old(m)@,
            key@,
            (match value {
                Some(j) => Some(j@),
                None => None,
            }),
        ),
{
    if let Some(j) = value {
        m.insert(key.to_owned(), j.copy());
    }
}

fn put_members(m: &mut JsonMap, more: &JsonMap)
    ensures
        final(m)@ == put_all(old(m)@, more@),
{
    let n = more.len();
    let ghost start = m@;
    let mut i: usize = 0;
    assert(more@.take(0) =~= Members::empty());
    while i < n
        invariant
            i <= n,
            n == more@.len(),
            m@ == put_all(start, more@.take(i as int)),
        decreases n - i,
    {
        assert(more@.take(i + 1).drop_last() =~= more@.take(i as int));
        m.insert(more.key_at(i).to_owned(), more.value_at(i).copy());
        i += 1;
    }
    assert(more@.take(n as int) =~= more@);
}

impl SessionMetadata {
    /// Has the daemon recorded an exit?
    pub fn has_exited(&self) -> (r: bool)
        ensures
            r == (self@.exited_at is Some),
    {
        self.exited_at.is_some()
    }

    /// The process start token of the recovery record, when there is one.
    pub fn process_start_token(&self) -> (r: Option<&str>)
        ensures
            match r {
                Some(t) => start_token(self@) == Some(t@),
                None => start_token(self@) is None,
            },
    {
        match &self.recovery {
            Some(Json::Object(m)) => m.get_str("processStartToken"),
            _ => None,
        }
    }

    /// The start token of the daemon: of a field of its own, else of the
    /// recovery record. An empty token is none, and so is a field that holds
    /// no text.
    pub fn daemon_start_token(&self) -> (r: Option<&str>)
        ensures
            match r {
                Some(t) => daemon_token(self@) == Some(t@),
                None => daemon_token(self@) is None,
            },
    {
        let token = match self.extra.get("daemonStartToken") {
            Some(Json::Str(t)) => Some(t.as_str()),
            Some(_) => None,
            None => self.process_start_token(),
        };
        match token {
            Some(t) => if t.is_empty() {
                None
            } else {
                Some(t)
            },
            None => None,
        }
    }

    fn identity_map(&self) -> (m: JsonMap)
        ensures
            m@ == identity_members(self@),
    {
        let mut m = JsonMap::new();
        put_text(&mut m, "generation", &self.generation);
        put_i32(&mut m, "daemonPid", self.daemon_pid);
        put_json(&mut m, "recovery", self.recovery.as_ref());
        m.insert("command".to_owned(), Json::Str(self.command.clone()));
        m.insert("args".to_owned(), strings_to_json(self.args.as_slice()));
        m.insert("displayCommand".to_owned(), Json::Str(self.display_command.clone()));
        m.insert("cwd".to_owned(), Json::Str(self.cwd.clone()));
        put_u16(&mut m, "rows", self.rows);
        put_u16(&mut m, "cols", self.cols);
        m
    }

    /// The record as a JSON object in the order of its fields, absent fields
    /// left out.
    pub fn to_map(&self) -> (m: JsonMap)
        ensures
            m@ == record_members(self@),
    {
        let mut m = self.identity_map();
        put_flag(&mut m, "ephemeral", self.ephemeral);
        m.insert("createdAt".to_owned(), Json::Str(self.created_at.clone()));
        put_text(&mut m, "displayName", &self.display_name);
        put_pairs(&mut m, "tags", &self.tags);
        put_flag(&mut m, "isolateEnv", self.isolate_env);
        put_pairs(&mut m, "extraEnv", &self.extra_env);
        put_list(&mut m, "unsetEnv", &self.unset_env);
        put_pairs(&mut m, "env", &self.env);
        put_i32(&mut m, "exitCode", self.exit_code);
        put_text(&mut m, "exitedAt", &self.exited_at);
        put_list(&mut m, "lastLines", &self.last_lines);
        put_text(&mut m, "lastAttachAt", &self.last_attach_at);
        put_i64(&mut m, "lastOutputAtMs", self.last_output_at_ms);
        put_members(&mut m, &self.extra);
        m
    }

    /// The object that a daemon publishes when it starts.
    #[verifier::spinoff_prover]
    #[verifier::rlimit(60)]
    pub fn publication_map(&self) -> (m: JsonMap)
        ensures
            m@ == publication_members(self@),
    {
        let mut m = self.identity_map();
        let ephemeral = match self.ephemeral {
            Some(b) => b,
            None => false,
        };
        m.insert("ephemeral".to_owned(), Json::Bool(ephemeral));
        m.insert("createdAt".to_owned(), Json::Str(self.created_at.clone()));
        if let Some(tags) = &self.tags {
            if tags_len(tags) > 0 {
                m.insert("tags".to_owned(), string_map_value(tags));
            }
        }
        if let Some(name) = &self.display_name {
            if !name.as_str().is_empty() {
                m.insert("displayName".to_owned(), Json::Str(name.clone()));
            }
        }
        if let Some(isolated) = self.isolate_env {
            if isolated {
                m.insert("isolateEnv".to_owned(), Json::Bool(true));
            }
        }
        if let Some(extra_env) = &self.extra_env {
            if tags_len(extra_env) > 0 {
                m.insert("extraEnv".to_owned(), string_map_value(extra_env));
            }
        }
        if let Some(unset) = &self.unset_env {
            if unset.len() > 0 {
                m.insert("unsetEnv".to_owned(), strings_to_json(unset.as_slice()));
            }
        }
        put_pairs(&mut m, "env", &self.env);
        let record = self.to_map();
        put_json(&mut m, "exitCode", record.get("exitCode"));
        put_json(&mut m, "exitedAt", record.get("exitedAt"));
        put_json(&mut m, "lastLines", record.get("lastLines"));
        put_json(&mut m, "lastAttachAt", record.get("lastAttachAt"));
        put_json(&mut m, "lastOutputAtMs", record.get("lastOutputAtMs"));
        put_members(&mut m, &self.extra);
        m
    }
}

impl Default for SessionMetadata {
    fn default() -> (r: SessionMetadata)
        ensures
            r@ == blank(),
    {
        let args: Vec<String> = Vec::new();
        assert(views(args@) =~= Seq::<Seq<char>>::empty());
        SessionMetadata {
            generation: None,
            daemon_pid: None,
            recovery: None,
            command: String::new(),
            args,
            display_command: String::new(),
            cwd: String::new(),
            rows: None,
            cols: None,
            ephemeral: None,
            created_at: String::new(),
            display_name: None,
            tags: None,
            isolate_env: None,
            extra_env: None,
            unset_env: None,
            env: None,
            exit_code: None,
            exited_at: None,
            last_lines: None,
            last_attach_at: None,
            last_output_at_ms: None,
            extra: JsonMap::new(),
        }
    }
}

/// A record in which nothing is filled in.
pub open spec fn blank() -> MetaView {
    MetaView {
        generation: None,
        daemon_pid: None,
        recovery: None,
        command: Seq::empty(),
        args: Seq::empty(),
        display_command: Seq::empty(),
        cwd: Seq::empty(),
        rows: None,
        cols: None,
        ephemeral: None,
        created_at: Seq::empty(),
        display_name: None,
        tags: None,
        isolate_env: None,
        extra_env: None,
        unset_env: None,
        env: None,
        exit_code: None,
        exited_at: None,
        last_lines: None,
        last_attach_at: None,
        last_output_at_ms: None,
        extra: Members::empty(),
    }
}

fn copy_text(v: &Option<String>) -> (r: Option<String>)
    ensures
        opt_view(r) == opt_view(*v),
{
    match v {
        Some(s) => Some(s.clone()),
        None => None,
    }
}

/// A copy of a list of strings.
pub(crate) fn copy_strings(v: &[String]) -> (r: Vec<String>)
    ensures
        views(r@) == views(v@),
{
    let mut out: Vec<String> = Vec::new();
    let mut i: usize = 0;
    while i < v.len()
        invariant
            i <= v@.len(),
            out@.len() == i,
            forall|j: int| 0 <= j < i ==> (#[trigger] out@[j])@ == v@[j]@,
        decreases v.len() - i,
    {
        out.push(v[i].clone());
        i += 1;
    }
    assert(views(out@) =~= views(v@));
    out
}

fn copy_list(v: &Option<Vec<String>>) -> (r: Option<Vec<String>>)
    ensures
        opt_views(r) == opt_views(*v),
{
    match v {
        Some(l) => Some(copy_strings(l.as_slice())),
        None => None,
    }
}

fn copy_pairs(v: &Option<TagMap>) -> (r: Option<TagMap>)
    ensures
        opt_entries(r) == opt_entries(*v),
{
    match v {
        Some(t) => Some(tags_clone(t)),
        None => None,
    }
}

impl Clone for SessionMetadata {
    fn clone(&self) -> (r: SessionMetadata)
        ensures
            r@ == self@,
    {
        SessionMetadata {
            generation: copy_text(&self.generation),
            daemon_pid: self.daemon_pid,
            recovery: match &self.recovery {
                Some(j) => Some(j.copy()),
                None => None,
            },
            command: self.command.clone(),
            args: copy_strings(self.args.as_slice()),
            display_command: self.display_command.clone(),
            cwd: self.cwd.clone(),
            rows: self.rows,
            cols: self.cols,
            ephemeral: self.ephemeral,
            created_at: self.created_at.clone(),
            display_name: copy_text(&self.display_name),
            tags: copy_pairs(&self.tags),
            isolate_env: self.isolate_env,
            extra_env: copy_pairs(&self.extra_env),
            unset_env: copy_list(&self.unset_env),
            env: copy_pairs(&self.env),
            exit_code: self.exit_code,
            exited_at: copy_text(&self.exited_at),
            last_lines: copy_list(&self.last_lines),
            last_attach_at: copy_text(&self.last_attach_at),
            last_output_at_ms: self.last_output_at_ms,
            extra: self.extra.copy(),
        }
    }
}

/// The process start token of a record.
pub open spec fn start_token(v: MetaView) -> Option<Seq<char>> {
    match as_members(v.recovery) {
        Some(m) => as_text(lookup(m, "processStartToken"@)),
        None => None,
    }
}

/// The start token of a record's daemon.
pub open spec fn daemon_token(v: MetaView) -> Option<Seq<char>> {
    let token = match lookup(v.extra, "daemonStartToken"@) {
        Some(value) => as_text(Some(value)),
        None => start_token(v),
    };
    match token {
        Some(t) if t.len() > 0 => Some(t),
        _ => None,
    }
}

/// An object as JSON text, indented by two spaces. `read_metadata_map` gives a
/// readable object back from the bytes of the text.
pub fn pretty_json(map: &JsonMap) -> (r: String)
    ensures
        r@ == pretty(JsonView::Object(map@)),
        readable(JsonView::Object(map@), max_nesting()) ==> as_members(
            parsed_bytes(encode_utf8(r@)),
        ) == Some(map@),
{
    let r = to_pretty_text(&Json::Object(map.copy()));
    proof {
        encode_utf8_valid_utf8(r@);
        encode_utf8_decode_utf8(r@);
    }
    r
}

/// The object that the bytes of a metadata file hold, `None` when they cannot
/// be read or are no object.
pub fn read_metadata_map(bytes: &[u8]) -> (r: Option<JsonMap>)
    ensures
        match r {
            Some(m) => as_members(parsed_bytes(bytes@)) == Some(m@),
            None => as_members(parsed_bytes(bytes@)) is None,
        },
{
    match parse_json_bytes(bytes) {
        Some(Json::Object(m)) => Some(m),
        _ => None,
    }
}

/// The text that the first write of a record puts on disk.
/// `read_metadata_map` gives readable members back from its bytes.
pub fn write_metadata_publication(meta: &SessionMetadata) -> (r: String)
    ensures
        r@ == pretty(JsonView::Object(publication_members(meta@))),
        readable(JsonView::Object(publication_members(meta@)), max_nesting()) ==> as_members(
            parsed_bytes(encode_utf8(r@)),
        ) == Some(publication_members(meta@)),
{
    let m = meta.publication_map();
    pretty_json(&m)
}

// ---- differences ---------------------------------------------------------

/// Whether a member of `after` is new or differs from `before`.
pub open spec fn differs(before: Members, key: Seq<char>, value: JsonView) -> bool {
    match lookup(before, key) {
        Some(old_value) => !same(old_value, value),
        None => true,
    }
}

/// `map` with the members of `after` that are new or differ.
pub open spec fn with_changes(map: Members, before: Members, after: Members) -> Members
    decreases after.len(),
{
    if after.len() == 0 {
        map
    } else {
        let rest = with_changes(map, before, after.drop_last());
        if differs(before, after.last().0, after.last().1) {
            put(rest, after.last().0, after.last().1)
        } else {
            rest
        }
    }
}

/// `map` without the keys of `before` that `after` lacks.
pub open spec fn without_dropped(map: Members, before: Members, after: Members) -> Members
    decreases before.len(),
{
    if before.len() == 0 {
        map
    } else {
        let rest = without_dropped(map, before.drop_last(), after);
        if has_key(after, before.last().0) {
            rest
        } else {
            without(rest, before.last().0)
        }
    }
}

/// `map` with the difference between two records applied.
pub open spec fn patched(map: Members, before: MetaView, after: MetaView) -> Members {
    let b = record_members(before);
    let a = record_members(after);
    without_dropped(with_changes(map, b, a), b, a)
}

/// Apply the difference between two records onto `map`: changed or added keys
/// are set in place (an existing key keeps its position, a new one comes
/// last), keys that became absent are deleted, and untouched keys, known or
/// unknown, are left exactly where they were.
pub fn apply_metadata_diff(before: &SessionMetadata, after: &SessionMetadata, map: &mut JsonMap)
    ensures
        final(map)@ == patched(old(map)@, before@, after@),
{
    let b = before.to_map();
    let a = after.to_map();
    let ghost start = map@;
    let n = a.len();
    let mut i: usize = 0;
    assert(a@.take(0) =~= Members::empty());
    while i < n
        invariant
            i <= n,
            n == a@.len(),
            map@ == with_changes(start, b@, a@.take(i as int)),
        decreases n - i,
    {
        assert(a@.take(i + 1).drop_last() =~= a@.take(i as int));
        let key = a.key_at(i);
        let value = a.value_at(i);
        let equal = match b.get(key) {
            Some(old_value) => old_value.same_as(value),
            None => false,
        };
        if !equal {
            map.insert(key.to_owned(), value.copy());
        }
        i += 1;
    }
    assert(a@.take(n as int) =~= a@);
    let ghost middle = map@;
    let k = b.len();
    let mut j: usize = 0;
    assert(b@.take(0) =~= Members::empty());
    while j < k
        invariant
            j <= k,
            k == b@.len(),
            map@ == without_dropped(middle, b@.take(j as int), a@),
        decreases k - j,
    {
        assert(b@.take(j + 1).drop_last() =~= b@.take(j as int));
        let key = b.key_at(j);
        if !a.contains_key(key) {
            map.remove(key);
        }
        j += 1;
    }
    assert(b@.take(k as int) =~= b@);
}

proof fn lemma_with_changes(map: Members, before: Members, after: Members, key: Seq<char>)
    requires
        distinct_keys(map),
        distinct_keys(after),
    ensures
        distinct_keys(with_changes(map, before, after)),
        lookup(with_changes(map, before, after), key) == (if has_key(after, key) && differs(
            before,
            key,
            lookup(after, key)->0,
        ) {
            lookup(after, key)
        } else {
            lookup(map, key)
        }),
    decreases after.len(),
{
    if after.len() > 0 {
        let t = after.drop_last();
        assert forall|i: int, j: int| 0 <= i < j < t.len() implies (#[trigger] t[i]).0 != (
        #[trigger] t[j]).0 by {
            assert(after[i].0 != after[j].0);
        }
        lemma_with_changes(map, before, t, key);
        let rest = with_changes(map, before, t);
        law_put_then_lookup(rest, after.last().0, after.last().1, key);
        lemma_key_index(after, key, 0);
        lemma_key_index(t, key, 0);
        lemma_key_found(after, after.len() - 1);
        if key == after.last().0 {
            if has_key(t, key) {
                let k = key_index(t, key, 0);
                assert(after[k].0 == after[after.len() - 1].0);
            }
        } else {
            if has_key(after, key) {
                let k = key_index(after, key, 0);
                assert(k < t.len());
                assert(t[k] == after[k]);
                lemma_key_found(t, k);
            } else if has_key(t, key) {
                let k = key_index(t, key, 0);
                assert(after[k].0 == key);
            }
        }
    }
}

proof fn lemma_without_dropped(map: Members, before: Members, after: Members, key: Seq<char>)
    requires
        distinct_keys(map),
    ensures
        distinct_keys(without_dropped(map, before, after)),
        lookup(without_dropped(map, before, after), key) == (if has_key(before, key) && !has_key(
            after,
            key,
        ) {
            None
        } else {
            lookup(map, key)
        }),
    decreases before.len(),
{
    if before.len() > 0 {
        let t = before.drop_last();
        lemma_without_dropped(map, t, after, key);
        let rest = without_dropped(map, t, after);
        law_without_then_lookup(rest, before.last().0, key);
        lemma_key_index(before, key, 0);
        lemma_key_index(t, key, 0);
        if has_key(t, key) {
            let k = key_index(t, key, 0);
            assert(before[k].0 == key);
        } else if has_key(before, key) {
            let k = key_index(before, key, 0);
            if k < t.len() {
                assert(t[k].0 == key);
            }
            assert(before.last().0 == key);
        }
    } else {
        lemma_key_index(before, key, 0);
    }
}

/// A rewrite touches only what changed: a field that differs gets the value
/// of `after`, a field that became absent is gone, and every other key of the
/// file, known or not, keeps its value.
pub proof fn law_diff_touches_only_changes(
    map: Members,
    before: MetaView,
    after: MetaView,
    key: Seq<char>,
)
    requires
        distinct_keys(map),
    ensures
        ({
            let b = record_members(before);
            let a = record_members(after);
            let r = patched(map, before, after);
            &&& has_key(a, key) && differs(b, key, lookup(a, key)->0) ==> lookup(r, key) == lookup(
                a,
                key,
            )
            &&& has_key(a, key) && !differs(b, key, lookup(a, key)->0) ==> lookup(r, key)
                == lookup(map, key)
            &&& !has_key(a, key) && has_key(b, key) ==> lookup(r, key) is None
            &&& !has_key(a, key) && !has_key(b, key) ==> lookup(r, key) == lookup(map, key)
        }),
{
    let b = record_members(before);
    let a = record_members(after);
    lemma_record_distinct(after);
    lemma_with_changes(map, b, a, key);
    lemma_without_dropped(with_changes(map, b, a), b, a, key);
}

/// No object inside the value has a key twice.
pub open spec fn orderly(v: JsonView) -> bool
    decreases v,
{
    match v {
        JsonView::Array(a) => forall|i: int| 0 <= i < a.len() ==> orderly(#[trigger] a[i]),
        JsonView::Object(m) => distinct_keys(m) && forall|i: int|
            0 <= i < m.len() ==> orderly((#[trigger] m[i]).1),
        _ => true,
    }
}

/// A value equals itself.
pub proof fn law_same_is_reflexive(v: JsonView)
    requires
        orderly(v),
    ensures
        same(v, v),
    decreases v,
{
    match v {
        JsonView::Array(a) => {
            assert forall|i: int| 0 <= i < a.len() implies same(#[trigger] a[i], a[i]) by {
                assert(orderly(a[i]));
                law_same_is_reflexive(a[i]);
            }
        },
        JsonView::Object(m) => {
            assert forall|i: int| 0 <= i < m.len() implies (#[trigger] has_key(m, m[i].0)) && same(
                m[i].1,
                lookup(m, m[i].0)->0,
            ) by {
                lemma_key_found(m, i);
                assert(orderly(m[i].1));
                law_same_is_reflexive(m[i].1);
            }
        },
        _ => {},
    }
}

proof fn lemma_no_changes(map: Members, all: Members, n: int)
    requires
        orderly(JsonView::Object(all)),
        0 <= n <= all.len(),
    ensures
        with_changes(map, all, all.take(n)) == map,
    decreases n,
{
    if n > 0 {
        let t = all.take(n);
        assert(t.drop_last() =~= all.take(n - 1));
        lemma_no_changes(map, all, n - 1);
        lemma_key_found(all, n - 1);
        assert(orderly(all[n - 1].1));
        law_same_is_reflexive(all[n - 1].1);
    }
}

proof fn lemma_no_drops(map: Members, all: Members, n: int)
    requires
        distinct_keys(all),
        0 <= n <= all.len(),
    ensures
        without_dropped(map, all.take(n), all) == map,
    decreases n,
{
    if n > 0 {
        let t = all.take(n);
        assert(t.drop_last() =~= all.take(n - 1));
        lemma_no_drops(map, all, n - 1);
        lemma_key_found(all, n - 1);
    }
}

/// Rewriting a record that did not change leaves the file as it is.
pub proof fn law_no_change_keeps_the_file(map: Members, record: MetaView)
    requires
        orderly(JsonView::Object(record_members(record))),
    ensures
        patched(map, record, record) == map,
{
    let all = record_members(record);
    assert(all.take(all.len() as int) =~= all);
    lemma_no_changes(map, all, all.len() as int);
    lemma_no_drops(map, all, all.len() as int);
}

proof fn lemma_put_some(m: Members, key: Seq<char>, v: Option<JsonView>)
    requires
        distinct_keys(m),
    ensures
        distinct_keys(put_some(m, key, v)),
{
    if let Some(j) = v {
        law_put_then_lookup(m, key, j, key);
    }
}

proof fn lemma_put_all(m: Members, more: Members)
    requires
        distinct_keys(m),
    ensures
        distinct_keys(put_all(m, more)),
    decreases more.len(),
{
    if more.len() > 0 {
        lemma_put_all(m, more.drop_last());
        law_put_then_lookup(
            put_all(m, more.drop_last()),
            more.last().0,
            more.last().1,
            more.last().0,
        );
    }
}

proof fn lemma_put_one(m: Members, key: Seq<char>, v: JsonView)
    requires
        distinct_keys(m),
    ensures
        distinct_keys(put(m, key, v)),
{
    law_put_then_lookup(m, key, v, key);
}

proof fn lemma_record_distinct(v: MetaView)
    ensures
        distinct_keys(record_members(v)),
{
    let m = Members::empty();
    lemma_put_some(m, "generation"@, text_value(v.generation));
    let m = put_some(m, "generation"@, text_value(v.generation));
    lemma_put_some(m, "daemonPid"@, int_value(widen32(v.daemon_pid)));
    let m = put_some(m, "daemonPid"@, int_value(widen32(v.daemon_pid)));
    lemma_put_some(m, "recovery"@, v.recovery);
    let m = put_some(m, "recovery"@, v.recovery);
    lemma_put_one(m, "command"@, JsonView::Str(v.command));
    let m = put(m, "command"@, JsonView::Str(v.command));
    lemma_put_one(m, "args"@, strings_json(v.args));
    let m = put(m, "args"@, strings_json(v.args));
    lemma_put_one(m, "displayCommand"@, JsonView::Str(v.display_command));
    let m = put(m, "displayCommand"@, JsonView::Str(v.display_command));
    lemma_put_one(m, "cwd"@, JsonView::Str(v.cwd));
    let m = put(m, "cwd"@, JsonView::Str(v.cwd));
    lemma_put_some(m, "rows"@, int_value(widen16(v.rows)));
    let m = put_some(m, "rows"@, int_value(widen16(v.rows)));
    lemma_put_some(m, "cols"@, int_value(widen16(v.cols)));
    let m = put_some(m, "cols"@, int_value(widen16(v.cols)));
    assert(m == identity_members(v));
    lemma_put_some(m, "ephemeral"@, flag_value(v.ephemeral));
    let m = put_some(m, "ephemeral"@, flag_value(v.ephemeral));
    lemma_put_one(m, "createdAt"@, JsonView::Str(v.created_at));
    let m = put(m, "createdAt"@, JsonView::Str(v.created_at));
    lemma_put_some(m, "displayName"@, text_value(v.display_name));
    let m = put_some(m, "displayName"@, text_value(v.display_name));
    lemma_put_some(m, "tags"@, pairs_value(v.tags));
    let m = put_some(m, "tags"@, pairs_value(v.tags));
    lemma_put_some(m, "isolateEnv"@, flag_value(v.isolate_env));
    let m = put_some(m, "isolateEnv"@, flag_value(v.isolate_env));
    lemma_put_some(m, "extraEnv"@, pairs_value(v.extra_env));
    let m = put_some(m, "extraEnv"@, pairs_value(v.extra_env));
    lemma_put_some(m, "unsetEnv"@, list_value(v.unset_env));
    let m = put_some(m, "unsetEnv"@, list_value(v.unset_env));
    lemma_put_some(m, "env"@, pairs_value(v.env));
    let m = put_some(m, "env"@, pairs_value(v.env));
    lemma_put_some(m, "exitCode"@, int_value(widen32(v.exit_code)));
    let m = put_some(m, "exitCode"@, int_value(widen32(v.exit_code)));
    lemma_put_some(m, "exitedAt"@, text_value(v.exited_at));
    let m = put_some(m, "exitedAt"@, text_value(v.exited_at));
    lemma_put_some(m, "lastLines"@, list_value(v.last_lines));
    let m = put_some(m, "lastLines"@, list_value(v.last_lines));
    lemma_put_some(m, "lastAttachAt"@, text_value(v.last_attach_at));
    let m = put_some(m, "lastAttachAt"@, text_value(v.last_attach_at));
    lemma_put_some(m, "lastOutputAtMs"@, int_value(widen64(v.last_output_at_ms)));
    let m = put_some(m, "lastOutputAtMs"@, int_value(widen64(v.last_output_at_ms)));
    lemma_put_all(m, v.extra);
}

/// The keys of a record differ in length or in a character.
proof fn lemma_key_names()
    ensures
        "generation"@.len() == 10 && "generation"@[0] == 'g',
        "daemonPid"@.len() == 9 && "daemonPid"@[0] == 'd',
        "recovery"@.len() == 8 && "recovery"@[0] == 'r',
        "command"@.len() == 7 && "command"@[0] == 'c',
        "args"@.len() == 4 && "args"@[0] == 'a',
        "displayCommand"@.len() == 14 && "displayCommand"@[0] == 'd',
        "cwd"@.len() == 3 && "cwd"@[0] == 'c',
        "rows"@.len() == 4 && "rows"@[0] == 'r',
        "cols"@.len() == 4 && "cols"@[0] == 'c',
        "ephemeral"@.len() == 9 && "ephemeral"@[0] == 'e',
        "createdAt"@.len() == 9 && "createdAt"@[0] == 'c',
        "displayName"@.len() == 11 && "displayName"@[0] == 'd',
        "tags"@.len() == 4 && "tags"@[0] == 't',
        "isolateEnv"@.len() == 10 && "isolateEnv"@[0] == 'i',
        "extraEnv"@.len() == 8 && "extraEnv"@[0] == 'e' && "extraEnv"@[2] == 't' && "extraEnv"@[4] == 'a',
        "unsetEnv"@.len() == 8 && "unsetEnv"@[0] == 'u',
        "env"@.len() == 3 && "env"@[0] == 'e',
        "exitCode"@.len() == 8 && "exitCode"@[0] == 'e' && "exitCode"@[2] == 'i' && "exitCode"@[4] == 'C',
        "exitedAt"@.len() == 8 && "exitedAt"@[0] == 'e' && "exitedAt"@[2] == 'i' && "exitedAt"@[4] == 'e',
        "lastLines"@.len() == 9 && "lastLines"@[0] == 'l',
        "lastAttachAt"@.len() == 12 && "lastAttachAt"@[0] == 'l',
        "lastOutputAtMs"@.len() == 14 && "lastOutputAtMs"@[0] == 'l',
{
    reveal_strlit("generation");
    reveal_strlit("daemonPid");
    reveal_strlit("recovery");
    reveal_strlit("command");
    reveal_strlit("args");
    reveal_strlit("displayCommand");
    reveal_strlit("cwd");
    reveal_strlit("rows");
    reveal_strlit("cols");
    reveal_strlit("ephemeral");
    reveal_strlit("createdAt");
    reveal_strlit("displayName");
    reveal_strlit("tags");
    reveal_strlit("isolateEnv");
    reveal_strlit("extraEnv");
    reveal_strlit("unsetEnv");
    reveal_strlit("env");
    reveal_strlit("exitCode");
    reveal_strlit("exitedAt");
    reveal_strlit("lastLines");
    reveal_strlit("lastAttachAt");
    reveal_strlit("lastOutputAtMs");
}

proof fn lemma_put_some_at(m: Members, key: Seq<char>, v: Option<JsonView>, other: Seq<char>)
    requires
        distinct_keys(m),
    ensures
        distinct_keys(put_some(m, key, v)),
        lookup(put_some(m, key, v), other) == (if other == key && v is Some {
            v
        } else {
            lookup(m, other)
        }),
{
    if v is Some {
        law_put_then_lookup(m, key, v->0, other);
    }
}

proof fn lemma_put_all_at(m: Members, more: Members, other: Seq<char>)
    requires
        distinct_keys(m),
        distinct_keys(more),
    ensures
        distinct_keys(put_all(m, more)),
        lookup(put_all(m, more), other) == (if has_key(more, other) {
            lookup(more, other)
        } else {
            lookup(m, other)
        }),
    decreases more.len(),
{
    if more.len() > 0 {
        let rest = more.drop_last();
        let last = more.last();
        assert(distinct_keys(rest)) by {
            assert forall|i: int, j: int| 0 <= i < j < rest.len() implies (#[trigger] rest[i]).0 != (
            #[trigger] rest[j]).0 by {
                assert(more[i].0 != more[j].0);
            }
        }
        lemma_put_all_at(m, rest, other);
        lemma_key_found(more, more.len() - 1);
        law_put_then_lookup(put_all(m, rest), last.0, last.1, other);
        lemma_key_index(rest, other, 0);
        lemma_key_index(more, other, 0);
        if has_key(rest, other) {
            let i = key_index(rest, other, 0);
            assert(more[i] == rest[i]);
            lemma_key_found(more, i);
            lemma_key_found(rest, i);
            assert(more[i].0 != more[more.len() - 1].0);
        } else if has_key(more, other) {
            let i = key_index(more, other, 0);
            if i < rest.len() {
                assert(rest[i].0 == other);
                lemma_key_found(rest, i);
            }
        }
    }
}

/// The identity part of a record under any key.
proof fn lemma_identity_chain(v: MetaView, k: Seq<char>)
    ensures
        distinct_keys(identity_members(v)),
        lookup(identity_members(v), k) == (
            if k == "cols"@ && int_value(widen16(v.cols)) is Some {
                int_value(widen16(v.cols))
            }
            else if k == "rows"@ && int_value(widen16(v.rows)) is Some {
                int_value(widen16(v.rows))
            }
            else if k == "cwd"@ && Some(JsonView::Str(v.cwd)) is Some {
                Some(JsonView::Str(v.cwd))
            }
            else if k == "displayCommand"@ && Some(JsonView::Str(v.display_command)) is Some {
                Some(JsonView::Str(v.display_command))
            }
            else if k == "args"@ && Some(strings_json(v.args)) is Some {
                Some(strings_json(v.args))
            }
            else if k == "command"@ && Some(JsonView::Str(v.command)) is Some {
                Some(JsonView::Str(v.command))
            }
            else if k == "recovery"@ && v.recovery is Some {
                v.recovery
            }
            else if k == "daemonPid"@ && int_value(widen32(v.daemon_pid)) is Some {
                int_value(widen32(v.daemon_pid))
            }
            else if k == "generation"@ && text_value(v.generation) is Some {
                text_value(v.generation)
            }
            else {
                None
            }),
{
    let m0 = Members::empty();
    let m1 = put_some(m0, "generation"@, text_value(v.generation));
    lemma_put_some_at(m0, "generation"@, text_value(v.generation), k);
    let m2 = put_some(m1, "daemonPid"@, int_value(widen32(v.daemon_pid)));
    lemma_put_some_at(m1, "daemonPid"@, int_value(widen32(v.daemon_pid)), k);
    let m3 = put_some(m2, "recovery"@, v.recovery);
    lemma_put_some_at(m2, "recovery"@, v.recovery, k);
    let m4 = put_some(m3, "command"@, Some(JsonView::Str(v.command)));
    lemma_put_some_at(m3, "command"@, Some(JsonView::Str(v.command)), k);
    let m5 = put_some(m4, "args"@, Some(strings_json(v.args)));
    lemma_put_some_at(m4, "args"@, Some(strings_json(v.args)), k);
    let m6 = put_some(m5, "displayCommand"@, Some(JsonView::Str(v.display_command)));
    lemma_put_some_at(m5, "displayCommand"@, Some(JsonView::Str(v.display_command)), k);
    let m7 = put_some(m6, "cwd"@, Some(JsonView::Str(v.cwd)));
    lemma_put_some_at(m6, "cwd"@, Some(JsonView::Str(v.cwd)), k);
    let m8 = put_some(m7, "rows"@, int_value(widen16(v.rows)));
    lemma_put_some_at(m7, "rows"@, int_value(widen16(v.rows)), k);
    let m9 = put_some(m8, "cols"@, int_value(widen16(v.cols)));
    lemma_put_some_at(m8, "cols"@, int_value(widen16(v.cols)), k);
    assert(identity_members(v) == m9);
}

/// The known part of a record: what is put before the unknown fields.
proof fn lemma_record_chain(v: MetaView, k: Seq<char>)
    requires
        distinct_keys(v.extra),
        !has_key(v.extra, k),
    ensures
        distinct_keys(record_members(v)),
        lookup(record_members(v), k) == (
            if k == "lastOutputAtMs"@ && int_value(widen64(v.last_output_at_ms)) is Some {
                int_value(widen64(v.last_output_at_ms))
            }
            else if k == "lastAttachAt"@ && text_value(v.last_attach_at) is Some {
                text_value(v.last_attach_at)
            }
            else if k == "lastLines"@ && list_value(v.last_lines) is Some {
                list_value(v.last_lines)
            }
            else if k == "exitedAt"@ && text_value(v.exited_at) is Some {
                text_value(v.exited_at)
            }
            else if k == "exitCode"@ && int_value(widen32(v.exit_code)) is Some {
                int_value(widen32(v.exit_code))
            }
            else if k == "env"@ && pairs_value(v.env) is Some {
                pairs_value(v.env)
            }
            else if k == "unsetEnv"@ && list_value(v.unset_env) is Some {
                list_value(v.unset_env)
            }
            else if k == "extraEnv"@ && pairs_value(v.extra_env) is Some {
                pairs_value(v.extra_env)
            }
            else if k == "isolateEnv"@ && flag_value(v.isolate_env) is Some {
                flag_value(v.isolate_env)
            }
            else if k == "tags"@ && pairs_value(v.tags) is Some {
                pairs_value(v.tags)
            }
            else if k == "displayName"@ && text_value(v.display_name) is Some {
                text_value(v.display_name)
            }
            else if k == "createdAt"@ && Some(JsonView::Str(v.created_at)) is Some {
                Some(JsonView::Str(v.created_at))
            }
            else if k == "ephemeral"@ && flag_value(v.ephemeral) is Some {
                flag_value(v.ephemeral)
            }
            else {
                lookup(identity_members(v), k)
            }),
{
    let m0 = identity_members(v);
    lemma_identity_chain(v, k);
    let m1 = put_some(m0, "ephemeral"@, flag_value(v.ephemeral));
    lemma_put_some_at(m0, "ephemeral"@, flag_value(v.ephemeral), k);
    let m2 = put_some(m1, "createdAt"@, Some(JsonView::Str(v.created_at)));
    lemma_put_some_at(m1, "createdAt"@, Some(JsonView::Str(v.created_at)), k);
    let m3 = put_some(m2, "displayName"@, text_value(v.display_name));
    lemma_put_some_at(m2, "displayName"@, text_value(v.display_name), k);
    let m4 = put_some(m3, "tags"@, pairs_value(v.tags));
    lemma_put_some_at(m3, "tags"@, pairs_value(v.tags), k);
    let m5 = put_some(m4, "isolateEnv"@, flag_value(v.isolate_env));
    lemma_put_some_at(m4, "isolateEnv"@, flag_value(v.isolate_env), k);
    let m6 = put_some(m5, "extraEnv"@, pairs_value(v.extra_env));
    lemma_put_some_at(m5, "extraEnv"@, pairs_value(v.extra_env), k);
    let m7 = put_some(m6, "unsetEnv"@, list_value(v.unset_env));
    lemma_put_some_at(m6, "unsetEnv"@, list_value(v.unset_env), k);
    let m8 = put_some(m7, "env"@, pairs_value(v.env));
    lemma_put_some_at(m7, "env"@, pairs_value(v.env), k);
    let m9 = put_some(m8, "exitCode"@, int_value(widen32(v.exit_code)));
    lemma_put_some_at(m8, "exitCode"@, int_value(widen32(v.exit_code)), k);
    let m10 = put_some(m9, "exitedAt"@, text_value(v.exited_at));
    lemma_put_some_at(m9, "exitedAt"@, text_value(v.exited_at), k);
    let m11 = put_some(m10, "lastLines"@, list_value(v.last_lines));
    lemma_put_some_at(m10, "lastLines"@, list_value(v.last_lines), k);
    let m12 = put_some(m11, "lastAttachAt"@, text_value(v.last_attach_at));
    lemma_put_some_at(m11, "lastAttachAt"@, text_value(v.last_attach_at), k);
    let m13 = put_some(m12, "lastOutputAtMs"@, int_value(widen64(v.last_output_at_ms)));
    lemma_put_some_at(m12, "lastOutputAtMs"@, int_value(widen64(v.last_output_at_ms)), k);
    lemma_put_all_at(m13, v.extra, k);
}

proof fn lemma_publication_chain(v: MetaView, k: Seq<char>)
    requires
        distinct_keys(v.extra),
        !has_key(v.extra, k),
        lookup(record_members(v), "exitCode"@) == int_value(widen32(v.exit_code)),
        lookup(record_members(v), "exitedAt"@) == text_value(v.exited_at),
        lookup(record_members(v), "lastLines"@) == list_value(v.last_lines),
        lookup(record_members(v), "lastAttachAt"@) == text_value(v.last_attach_at),
        lookup(record_members(v), "lastOutputAtMs"@) == int_value(widen64(v.last_output_at_ms)),
    ensures
        distinct_keys(publication_members(v)),
        lookup(publication_members(v), k) == (
            if k == "lastOutputAtMs"@ && int_value(widen64(v.last_output_at_ms)) is Some {
                int_value(widen64(v.last_output_at_ms))
            }
            else if k == "lastAttachAt"@ && text_value(v.last_attach_at) is Some {
                text_value(v.last_attach_at)
            }
            else if k == "lastLines"@ && list_value(v.last_lines) is Some {
                list_value(v.last_lines)
            }
            else if k == "exitedAt"@ && text_value(v.exited_at) is Some {
                text_value(v.exited_at)
            }
            else if k == "exitCode"@ && int_value(widen32(v.exit_code)) is Some {
                int_value(widen32(v.exit_code))
            }
            else if k == "env"@ && pairs_value(v.env) is Some {
                pairs_value(v.env)
            }
            else if k == "unsetEnv"@ && list_value(kept_list(v.unset_env)) is Some {
                list_value(kept_list(v.unset_env))
            }
            else if k == "extraEnv"@ && pairs_value(kept_pairs(v.extra_env)) is Some {
                pairs_value(kept_pairs(v.extra_env))
            }
            else if k == "isolateEnv"@ && flag_value(kept_flag(v.isolate_env)) is Some {
                flag_value(kept_flag(v.isolate_env))
            }
            else if k == "displayName"@ && text_value(kept_text(v.display_name)) is Some {
                text_value(kept_text(v.display_name))
            }
            else if k == "tags"@ && pairs_value(kept_pairs(v.tags)) is Some {
                pairs_value(kept_pairs(v.tags))
            }
            else if k == "createdAt"@ && Some(JsonView::Str(v.created_at)) is Some {
                Some(JsonView::Str(v.created_at))
            }
            else if k == "ephemeral"@ && Some(JsonView::Bool(v.ephemeral == Some(true))) is Some {
                Some(JsonView::Bool(v.ephemeral == Some(true)))
            }
            else {
                lookup(identity_members(v), k)
            }),
{
    let m0 = identity_members(v);
    lemma_identity_chain(v, k);
    let m1 = put_some(m0, "ephemeral"@, Some(JsonView::Bool(v.ephemeral == Some(true))));
    lemma_put_some_at(m0, "ephemeral"@, Some(JsonView::Bool(v.ephemeral == Some(true))), k);
    let m2 = put_some(m1, "createdAt"@, Some(JsonView::Str(v.created_at)));
    lemma_put_some_at(m1, "createdAt"@, Some(JsonView::Str(v.created_at)), k);
    let m3 = put_some(m2, "tags"@, pairs_value(kept_pairs(v.tags)));
    lemma_put_some_at(m2, "tags"@, pairs_value(kept_pairs(v.tags)), k);
    let m4 = put_some(m3, "displayName"@, text_value(kept_text(v.display_name)));
    lemma_put_some_at(m3, "displayName"@, text_value(kept_text(v.display_name)), k);
    let m5 = put_some(m4, "isolateEnv"@, flag_value(kept_flag(v.isolate_env)));
    lemma_put_some_at(m4, "isolateEnv"@, flag_value(kept_flag(v.isolate_env)), k);
    let m6 = put_some(m5, "extraEnv"@, pairs_value(kept_pairs(v.extra_env)));
    lemma_put_some_at(m5, "extraEnv"@, pairs_value(kept_pairs(v.extra_env)), k);
    let m7 = put_some(m6, "unsetEnv"@, list_value(kept_list(v.unset_env)));
    lemma_put_some_at(m6, "unsetEnv"@, list_value(kept_list(v.unset_env)), k);
    let m8 = put_some(m7, "env"@, pairs_value(v.env));
    lemma_put_some_at(m7, "env"@, pairs_value(v.env), k);
    let m9 = put_some(m8, "exitCode"@, int_value(widen32(v.exit_code)));
    lemma_put_some_at(m8, "exitCode"@, int_value(widen32(v.exit_code)), k);
    let m10 = put_some(m9, "exitedAt"@, text_value(v.exited_at));
    lemma_put_some_at(m9, "exitedAt"@, text_value(v.exited_at), k);
    let m11 = put_some(m10, "lastLines"@, list_value(v.last_lines));
    lemma_put_some_at(m10, "lastLines"@, list_value(v.last_lines), k);
    let m12 = put_some(m11, "lastAttachAt"@, text_value(v.last_attach_at));
    lemma_put_some_at(m11, "lastAttachAt"@, text_value(v.last_attach_at), k);
    let m13 = put_some(m12, "lastOutputAtMs"@, int_value(widen64(v.last_output_at_ms)));
    lemma_put_some_at(m12, "lastOutputAtMs"@, int_value(widen64(v.last_output_at_ms)), k);
    lemma_put_all_at(m13, v.extra, k);
}

/// No key of the record's own stands among the unknown fields.
pub open spec fn own_keys_are_free(m: Members) -> bool {
    !has_key(m, "generation"@)
        && !has_key(m, "daemonPid"@)
        && !has_key(m, "recovery"@)
        && !has_key(m, "command"@)
        && !has_key(m, "args"@)
        && !has_key(m, "displayCommand"@)
        && !has_key(m, "cwd"@)
        && !has_key(m, "rows"@)
        && !has_key(m, "cols"@)
        && !has_key(m, "ephemeral"@)
        && !has_key(m, "createdAt"@)
        && !has_key(m, "displayName"@)
        && !has_key(m, "tags"@)
        && !has_key(m, "isolateEnv"@)
        && !has_key(m, "extraEnv"@)
        && !has_key(m, "unsetEnv"@)
        && !has_key(m, "env"@)
        && !has_key(m, "exitCode"@)
        && !has_key(m, "exitedAt"@)
        && !has_key(m, "lastLines"@)
        && !has_key(m, "lastAttachAt"@)
        && !has_key(m, "lastOutputAtMs"@)
}

/// What a record says in the file: each field under its own key, a field that
/// is not there not at all, and the unknown fields as they are.
pub proof fn law_record_in_the_file(v: MetaView, key: Seq<char>)
    requires
        distinct_keys(v.extra),
        own_keys_are_free(v.extra),
    ensures
        has_key(v.extra, key) ==> lookup(record_members(v), key) == lookup(v.extra, key),
        lookup(record_members(v), "generation"@) == text_value(v.generation),
        lookup(record_members(v), "daemonPid"@) == int_value(widen32(v.daemon_pid)),
        lookup(record_members(v), "recovery"@) == v.recovery,
        lookup(record_members(v), "command"@) == Some(JsonView::Str(v.command)),
        lookup(record_members(v), "args"@) == Some(strings_json(v.args)),
        lookup(record_members(v), "displayCommand"@) == Some(JsonView::Str(v.display_command)),
        lookup(record_members(v), "cwd"@) == Some(JsonView::Str(v.cwd)),
        lookup(record_members(v), "rows"@) == int_value(widen16(v.rows)),
        lookup(record_members(v), "cols"@) == int_value(widen16(v.cols)),
        lookup(record_members(v), "ephemeral"@) == flag_value(v.ephemeral),
        lookup(record_members(v), "createdAt"@) == Some(JsonView::Str(v.created_at)),
        lookup(record_members(v), "displayName"@) == text_value(v.display_name),
        lookup(record_members(v), "tags"@) == pairs_value(v.tags),
        lookup(record_members(v), "isolateEnv"@) == flag_value(v.isolate_env),
        lookup(record_members(v), "extraEnv"@) == pairs_value(v.extra_env),
        lookup(record_members(v), "unsetEnv"@) == list_value(v.unset_env),
        lookup(record_members(v), "env"@) == pairs_value(v.env),
        lookup(record_members(v), "exitCode"@) == int_value(widen32(v.exit_code)),
        lookup(record_members(v), "exitedAt"@) == text_value(v.exited_at),
        lookup(record_members(v), "lastLines"@) == list_value(v.last_lines),
        lookup(record_members(v), "lastAttachAt"@) == text_value(v.last_attach_at),
        lookup(record_members(v), "lastOutputAtMs"@) == int_value(widen64(v.last_output_at_ms)),
{
    lemma_key_names();
    lemma_record_chain(v, "generation"@);
    lemma_record_chain(v, "daemonPid"@);
    lemma_record_chain(v, "recovery"@);
    lemma_record_chain(v, "command"@);
    lemma_record_chain(v, "args"@);
    lemma_record_chain(v, "displayCommand"@);
    lemma_record_chain(v, "cwd"@);
    lemma_record_chain(v, "rows"@);
    lemma_record_chain(v, "cols"@);
    lemma_record_chain(v, "ephemeral"@);
    lemma_record_chain(v, "createdAt"@);
    lemma_record_chain(v, "displayName"@);
    lemma_record_chain(v, "tags"@);
    lemma_record_chain(v, "isolateEnv"@);
    lemma_record_chain(v, "extraEnv"@);
    lemma_record_chain(v, "unsetEnv"@);
    lemma_record_chain(v, "env"@);
    lemma_record_chain(v, "exitCode"@);
    lemma_record_chain(v, "exitedAt"@);
    lemma_record_chain(v, "lastLines"@);
    lemma_record_chain(v, "lastAttachAt"@);
    lemma_record_chain(v, "lastOutputAtMs"@);
    lemma_identity_chain(v, "generation"@);
    lemma_identity_chain(v, "daemonPid"@);
    lemma_identity_chain(v, "recovery"@);
    lemma_identity_chain(v, "command"@);
    lemma_identity_chain(v, "args"@);
    lemma_identity_chain(v, "displayCommand"@);
    lemma_identity_chain(v, "cwd"@);
    lemma_identity_chain(v, "rows"@);
    lemma_identity_chain(v, "cols"@);
    lemma_identity_chain(v, "ephemeral"@);
    lemma_identity_chain(v, "createdAt"@);
    lemma_identity_chain(v, "displayName"@);
    lemma_identity_chain(v, "tags"@);
    lemma_identity_chain(v, "isolateEnv"@);
    lemma_identity_chain(v, "extraEnv"@);
    lemma_identity_chain(v, "unsetEnv"@);
    lemma_identity_chain(v, "env"@);
    lemma_identity_chain(v, "exitCode"@);
    lemma_identity_chain(v, "exitedAt"@);
    lemma_identity_chain(v, "lastLines"@);
    lemma_identity_chain(v, "lastAttachAt"@);
    lemma_identity_chain(v, "lastOutputAtMs"@);
    if has_key(v.extra, key) {
        lemma_record_extra(v, key);
    }
}

proof fn lemma_record_extra(v: MetaView, key: Seq<char>)
    requires
        distinct_keys(v.extra),
        has_key(v.extra, key),
    ensures
        lookup(record_members(v), key) == lookup(v.extra, key),
        lookup(publication_members(v), key) == lookup(v.extra, key),
{
    lemma_identity_chain(v, key);
    let m0 = identity_members(v);
    let m1 = put_some(m0, "ephemeral"@, flag_value(v.ephemeral));
    lemma_put_some_at(m0, "ephemeral"@, flag_value(v.ephemeral), key);
    let m2 = put_some(m1, "createdAt"@, Some(JsonView::Str(v.created_at)));
    lemma_put_some_at(m1, "createdAt"@, Some(JsonView::Str(v.created_at)), key);
    let m3 = put_some(m2, "displayName"@, text_value(v.display_name));
    lemma_put_some_at(m2, "displayName"@, text_value(v.display_name), key);
    let m4 = put_some(m3, "tags"@, pairs_value(v.tags));
    lemma_put_some_at(m3, "tags"@, pairs_value(v.tags), key);
    let m5 = put_some(m4, "isolateEnv"@, flag_value(v.isolate_env));
    lemma_put_some_at(m4, "isolateEnv"@, flag_value(v.isolate_env), key);
    let m6 = put_some(m5, "extraEnv"@, pairs_value(v.extra_env));
    lemma_put_some_at(m5, "extraEnv"@, pairs_value(v.extra_env), key);
    let m7 = put_some(m6, "unsetEnv"@, list_value(v.unset_env));
    lemma_put_some_at(m6, "unsetEnv"@, list_value(v.unset_env), key);
    let m8 = put_some(m7, "env"@, pairs_value(v.env));
    lemma_put_some_at(m7, "env"@, pairs_value(v.env), key);
    let m9 = put_some(m8, "exitCode"@, int_value(widen32(v.exit_code)));
    lemma_put_some_at(m8, "exitCode"@, int_value(widen32(v.exit_code)), key);
    let m10 = put_some(m9, "exitedAt"@, text_value(v.exited_at));
    lemma_put_some_at(m9, "exitedAt"@, text_value(v.exited_at), key);
    let m11 = put_some(m10, "lastLines"@, list_value(v.last_lines));
    lemma_put_some_at(m10, "lastLines"@, list_value(v.last_lines), key);
    let m12 = put_some(m11, "lastAttachAt"@, text_value(v.last_attach_at));
    lemma_put_some_at(m11, "lastAttachAt"@, text_value(v.last_attach_at), key);
    let m13 = put_some(m12, "lastOutputAtMs"@, int_value(widen64(v.last_output_at_ms)));
    lemma_put_some_at(m12, "lastOutputAtMs"@, int_value(widen64(v.last_output_at_ms)), key);
    lemma_put_all_at(m13, v.extra, key);
    let r = record_members(v);
    let p0 = identity_members(v);
    let p1 = put_some(p0, "ephemeral"@, Some(JsonView::Bool(v.ephemeral == Some(true))));
    lemma_put_some_at(p0, "ephemeral"@, Some(JsonView::Bool(v.ephemeral == Some(true))), key);
    let p2 = put_some(p1, "createdAt"@, Some(JsonView::Str(v.created_at)));
    lemma_put_some_at(p1, "createdAt"@, Some(JsonView::Str(v.created_at)), key);
    let p3 = put_some(p2, "tags"@, pairs_value(kept_pairs(v.tags)));
    lemma_put_some_at(p2, "tags"@, pairs_value(kept_pairs(v.tags)), key);
    let p4 = put_some(p3, "displayName"@, text_value(kept_text(v.display_name)));
    lemma_put_some_at(p3, "displayName"@, text_value(kept_text(v.display_name)), key);
    let p5 = put_some(p4, "isolateEnv"@, flag_value(kept_flag(v.isolate_env)));
    lemma_put_some_at(p4, "isolateEnv"@, flag_value(kept_flag(v.isolate_env)), key);
    let p6 = put_some(p5, "extraEnv"@, pairs_value(kept_pairs(v.extra_env)));
    lemma_put_some_at(p5, "extraEnv"@, pairs_value(kept_pairs(v.extra_env)), key);
    let p7 = put_some(p6, "unsetEnv"@, list_value(kept_list(v.unset_env)));
    lemma_put_some_at(p6, "unsetEnv"@, list_value(kept_list(v.unset_env)), key);
    let p8 = put_some(p7, "env"@, pairs_value(v.env));
    lemma_put_some_at(p7, "env"@, pairs_value(v.env), key);
    let p9 = put_some(p8, "exitCode"@, lookup(r, "exitCode"@));
    lemma_put_some_at(p8, "exitCode"@, lookup(r, "exitCode"@), key);
    let p10 = put_some(p9, "exitedAt"@, lookup(r, "exitedAt"@));
    lemma_put_some_at(p9, "exitedAt"@, lookup(r, "exitedAt"@), key);
    let p11 = put_some(p10, "lastLines"@, lookup(r, "lastLines"@));
    lemma_put_some_at(p10, "lastLines"@, lookup(r, "lastLines"@), key);
    let p12 = put_some(p11, "lastAttachAt"@, lookup(r, "lastAttachAt"@));
    lemma_put_some_at(p11, "lastAttachAt"@, lookup(r, "lastAttachAt"@), key);
    let p13 = put_some(p12, "lastOutputAtMs"@, lookup(r, "lastOutputAtMs"@));
    lemma_put_some_at(p12, "lastOutputAtMs"@, lookup(r, "lastOutputAtMs"@), key);
    lemma_put_all_at(p13, v.extra, key);
}

/// What is published: as the record, but whether the session is ephemeral is
/// always said, and empty tags, names, flags and environments are left out.
pub proof fn law_publication_of_a_record(v: MetaView, key: Seq<char>)
    requires
        distinct_keys(v.extra),
        own_keys_are_free(v.extra),
    ensures
        has_key(v.extra, key) ==> lookup(publication_members(v), key) == lookup(v.extra, key),
        lookup(publication_members(v), "generation"@) == text_value(v.generation),
        lookup(publication_members(v), "daemonPid"@) == int_value(widen32(v.daemon_pid)),
        lookup(publication_members(v), "recovery"@) == v.recovery,
        lookup(publication_members(v), "command"@) == Some(JsonView::Str(v.command)),
        lookup(publication_members(v), "args"@) == Some(strings_json(v.args)),
        lookup(publication_members(v), "displayCommand"@) == Some(JsonView::Str(v.display_command)),
        lookup(publication_members(v), "cwd"@) == Some(JsonView::Str(v.cwd)),
        lookup(publication_members(v), "rows"@) == int_value(widen16(v.rows)),
        lookup(publication_members(v), "cols"@) == int_value(widen16(v.cols)),
        lookup(publication_members(v), "ephemeral"@) == Some(JsonView::Bool(v.ephemeral == Some(true))),
        lookup(publication_members(v), "createdAt"@) == Some(JsonView::Str(v.created_at)),
        lookup(publication_members(v), "displayName"@) == text_value(kept_text(v.display_name)),
        lookup(publication_members(v), "tags"@) == pairs_value(kept_pairs(v.tags)),
        lookup(publication_members(v), "isolateEnv"@) == flag_value(kept_flag(v.isolate_env)),
        lookup(publication_members(v), "extraEnv"@) == pairs_value(kept_pairs(v.extra_env)),
        lookup(publication_members(v), "unsetEnv"@) == list_value(kept_list(v.unset_env)),
        lookup(publication_members(v), "env"@) == pairs_value(v.env),
        lookup(publication_members(v), "exitCode"@) == int_value(widen32(v.exit_code)),
        lookup(publication_members(v), "exitedAt"@) == text_value(v.exited_at),
        lookup(publication_members(v), "lastLines"@) == list_value(v.last_lines),
        lookup(publication_members(v), "lastAttachAt"@) == text_value(v.last_attach_at),
        lookup(publication_members(v), "lastOutputAtMs"@) == int_value(widen64(v.last_output_at_ms)),
{
    lemma_key_names();
    law_record_in_the_file(v, key);
    lemma_publication_chain(v, "generation"@);
    lemma_publication_chain(v, "daemonPid"@);
    lemma_publication_chain(v, "recovery"@);
    lemma_publication_chain(v, "command"@);
    lemma_publication_chain(v, "args"@);
    lemma_publication_chain(v, "displayCommand"@);
    lemma_publication_chain(v, "cwd"@);
    lemma_publication_chain(v, "rows"@);
    lemma_publication_chain(v, "cols"@);
    lemma_publication_chain(v, "ephemeral"@);
    lemma_publication_chain(v, "createdAt"@);
    lemma_publication_chain(v, "displayName"@);
    lemma_publication_chain(v, "tags"@);
    lemma_publication_chain(v, "isolateEnv"@);
    lemma_publication_chain(v, "extraEnv"@);
    lemma_publication_chain(v, "unsetEnv"@);
    lemma_publication_chain(v, "env"@);
    lemma_publication_chain(v, "exitCode"@);
    lemma_publication_chain(v, "exitedAt"@);
    lemma_publication_chain(v, "lastLines"@);
    lemma_publication_chain(v, "lastAttachAt"@);
    lemma_publication_chain(v, "lastOutputAtMs"@);
    lemma_identity_chain(v, "generation"@);
    lemma_identity_chain(v, "daemonPid"@);
    lemma_identity_chain(v, "recovery"@);
    lemma_identity_chain(v, "command"@);
    lemma_identity_chain(v, "args"@);
    lemma_identity_chain(v, "displayCommand"@);
    lemma_identity_chain(v, "cwd"@);
    lemma_identity_chain(v, "rows"@);
    lemma_identity_chain(v, "cols"@);
    lemma_identity_chain(v, "ephemeral"@);
    lemma_identity_chain(v, "createdAt"@);
    lemma_identity_chain(v, "displayName"@);
    lemma_identity_chain(v, "tags"@);
    lemma_identity_chain(v, "isolateEnv"@);
    lemma_identity_chain(v, "extraEnv"@);
    lemma_identity_chain(v, "unsetEnv"@);
    lemma_identity_chain(v, "env"@);
    lemma_identity_chain(v, "exitCode"@);
    lemma_identity_chain(v, "exitedAt"@);
    lemma_identity_chain(v, "lastLines"@);
    lemma_identity_chain(v, "lastAttachAt"@);
    lemma_identity_chain(v, "lastOutputAtMs"@);
    if has_key(v.extra, key) {
        lemma_record_extra(v, key);
    }
}

/// How the values of fields are written.
pub proof fn law_values_of_fields(
    s: Seq<char>,
    n: int,
    b: bool,
    l: Seq<Seq<char>>,
    p: Pairs,
    i: int,
    x: i32,
    y: u16,
    z: i64,
)
    ensures
        text_value(Some(s)) == Some(JsonView::Str(s)) && text_value(None) is None,
        int_value(Some(n)) == Some(JsonView::Int(n)) && int_value(None) is None,
        flag_value(Some(b)) == Some(JsonView::Bool(b)) && flag_value(None) is None,
        list_value(Some(l)) == Some(strings_json(l)) && list_value(None) is None,
        pairs_value(Some(p)) == Some(pairs_json(p)) && pairs_value(None) is None,
        widen32(Some(x)) == Some(x as int) && widen32(None) is None,
        widen16(Some(y)) == Some(y as int) && widen16(None) is None,
        widen64(Some(z)) == Some(z as int) && widen64(None) is None,
        strings_json(l) is Array && strings_json(l)->Array_0.len() == l.len(),
        0 <= i < l.len() ==> strings_json(l)->Array_0[i] == JsonView::Str(l[i]),
        pairs_json(p) is Object && pairs_json(p)->Object_0.len() == p.len(),
        0 <= i < p.len() ==> pairs_json(p)->Object_0[i] == (p[i].0, JsonView::Str(p[i].1)),
        kept_text(Some(s)) == (if s.len() > 0 {
            Some(s)
        } else {
            None
        }) && kept_text(None) is None,
        kept_list(Some(l)) == (if l.len() > 0 {
            Some(l)
        } else {
            None
        }) && kept_list(None) is None,
        kept_pairs(Some(p)) == (if p.len() > 0 {
            Some(p)
        } else {
            None
        }) && kept_pairs(None) is None,
        kept_flag(Some(true)) == Some(true) && kept_flag(Some(false)) is None && kept_flag(None)
            is None,
{
}

/// Two records with the same content are the same in every field.
pub proof fn law_records_are_told_apart(a: SessionMetadata, b: SessionMetadata)
    requires
        a@ == b@,
    ensures
        opt_view(a.generation) == opt_view(b.generation),
        a.daemon_pid == b.daemon_pid,
        a.recovery is Some <==> b.recovery is Some,
        a.recovery is Some ==> a.recovery->0@ == b.recovery->0@,
        a.command@ == b.command@ && views(a.args@) == views(b.args@),
        a.display_command@ == b.display_command@ && a.cwd@ == b.cwd@,
        a.rows == b.rows && a.cols == b.cols && a.ephemeral == b.ephemeral,
        a.created_at@ == b.created_at@,
        opt_view(a.display_name) == opt_view(b.display_name),
        opt_entries(a.tags) == opt_entries(b.tags),
        a.isolate_env == b.isolate_env,
        opt_entries(a.extra_env) == opt_entries(b.extra_env),
        opt_views(a.unset_env) == opt_views(b.unset_env),
        opt_entries(a.env) == opt_entries(b.env),
        a.exit_code == b.exit_code,
        opt_view(a.exited_at) == opt_view(b.exited_at),
        opt_views(a.last_lines) == opt_views(b.last_lines),
        opt_view(a.last_attach_at) == opt_view(b.last_attach_at),
        a.last_output_at_ms == b.last_output_at_ms,
        a.extra@ == b.extra@,
{
}

/// Lists of texts are what they hold.
pub proof fn law_lists_of_texts(l: Vec<String>)
    ensures
        opt_views(Some(l)) == Some(views(l@)),
        opt_views(None) is None,
{
}

/// A blank record says nothing.
pub proof fn law_blank_record()
    ensures
        ({
            let v = blank();
            &&& v.generation is None && v.daemon_pid is None && v.recovery is None
            &&& v.command.len() == 0 && v.args.len() == 0 && v.display_command.len() == 0
            &&& v.cwd.len() == 0 && v.rows is None && v.cols is None && v.ephemeral is None
            &&& v.created_at.len() == 0 && v.display_name is None && v.tags is None
            &&& v.isolate_env is None && v.extra_env is None && v.unset_env is None
            &&& v.env is None && v.exit_code is None && v.exited_at is None
            &&& v.last_lines is None && v.last_attach_at is None && v.last_output_at_ms is None
            &&& v.extra.len() == 0
        }),
        SESSION_EXIT_LAST_LINES_LIMIT == 200,
{
}

/// Where the start tokens stand: the process's in the recovery object, the
/// daemon's among the unknown fields, or else the process's counts; an empty
/// one is none.
pub proof fn law_start_tokens(v: MetaView, m: Members, t: Seq<char>)
    ensures
        v.recovery == Some(JsonView::Object(m)) && lookup(m, "processStartToken"@) == Some(
            JsonView::Str(t),
        ) ==> start_token(v) == Some(t),
        v.recovery == Some(JsonView::Object(m)) && !(lookup(
            m,
            "processStartToken"@,
        ) matches Some(JsonView::Str(_))) ==> start_token(v) is None,
        !(v.recovery matches Some(JsonView::Object(_))) ==> start_token(v) is None,
        lookup(v.extra, "daemonStartToken"@) == Some(JsonView::Str(t)) ==> daemon_token(v) == (
        if t.len() > 0 {
            Some(t)
        } else {
            None
        }),
        lookup(v.extra, "daemonStartToken"@) is None && start_token(v) == Some(t) && t.len() > 0
            ==> daemon_token(v) == Some(t),
        lookup(v.extra, "daemonStartToken"@) is None && start_token(v) is None ==> daemon_token(v)
            is None,
        (lookup(v.extra, "daemonStartToken"@) matches Some(w) && !(w is Str)) ==> daemon_token(v)
            is None,
{
}

/// A value differs where there was none or one that is not equal.
pub proof fn law_differences(m: Members, key: Seq<char>, v: JsonView)
    ensures
        differs(m, key, v) <==> lookup(m, key) is None || !same(lookup(m, key)->0, v),
{
}

/// A key that is not there yet is put behind the others.
proof fn lemma_put_behind(m: Members, keys: Seq<Seq<char>>, key: Seq<char>, v: Option<JsonView>)
    requires
        key_list(m) == keys,
        !keys.contains(key),
        v is Some,
    ensures
        key_list(put_some(m, key, v)) == keys.push(key),
{
    lemma_key_index(m, key, 0);
    if has_key(m, key) {
        let i = key_index(m, key, 0);
        assert(keys[i] == key);
    }
    assert(put_some(m, key, v) == m.push((key, v->0)));
    assert(key_list(m.push((key, v->0))) =~= keys.push(key));
}

/// Every field of the record is there, and no unknown one.
pub open spec fn full(v: MetaView) -> bool {
    v.generation is Some && v.daemon_pid is Some && v.recovery is Some && v.rows is Some && v.cols
        is Some && v.ephemeral is Some && v.display_name is Some && v.tags is Some && v.isolate_env
        is Some && v.extra_env is Some && v.unset_env is Some && v.env is Some && v.exit_code
        is Some && v.exited_at is Some && v.last_lines is Some && v.last_attach_at is Some
        && v.last_output_at_ms is Some && v.extra.len() == 0
}

/// The fields of a record are written in a fixed order.
pub proof fn law_order_of_a_record(v: MetaView)
    requires
        full(v),
    ensures
        key_list(record_members(v)) == seq!["generation"@, "daemonPid"@, "recovery"@, "command"@, "args"@, "displayCommand"@, "cwd"@, "rows"@, "cols"@, "ephemeral"@, "createdAt"@, "displayName"@, "tags"@, "isolateEnv"@, "extraEnv"@, "unsetEnv"@, "env"@, "exitCode"@, "exitedAt"@, "lastLines"@, "lastAttachAt"@, "lastOutputAtMs"@],
{
    lemma_key_names();
    let m0 = Members::empty();
    let k0 = Seq::<Seq<char>>::empty();
    assert(key_list(m0) =~= k0);
    let m1 = put_some(m0, "generation"@, text_value(v.generation));
    let k1 = k0.push("generation"@);
    lemma_put_behind(m0, k0, "generation"@, text_value(v.generation));
    let m2 = put_some(m1, "daemonPid"@, int_value(widen32(v.daemon_pid)));
    let k2 = k1.push("daemonPid"@);
    lemma_put_behind(m1, k1, "daemonPid"@, int_value(widen32(v.daemon_pid)));
    let m3 = put_some(m2, "recovery"@, v.recovery);
    let k3 = k2.push("recovery"@);
    lemma_put_behind(m2, k2, "recovery"@, v.recovery);
    let m4 = put_some(m3, "command"@, Some(JsonView::Str(v.command)));
    let k4 = k3.push("command"@);
    lemma_put_behind(m3, k3, "command"@, Some(JsonView::Str(v.command)));
    let m5 = put_some(m4, "args"@, Some(strings_json(v.args)));
    let k5 = k4.push("args"@);
    lemma_put_behind(m4, k4, "args"@, Some(strings_json(v.args)));
    let m6 = put_some(m5, "displayCommand"@, Some(JsonView::Str(v.display_command)));
    let k6 = k5.push("displayCommand"@);
    lemma_put_behind(m5, k5, "displayCommand"@, Some(JsonView::Str(v.display_command)));
    let m7 = put_some(m6, "cwd"@, Some(JsonView::Str(v.cwd)));
    let k7 = k6.push("cwd"@);
    lemma_put_behind(m6, k6, "cwd"@, Some(JsonView::Str(v.cwd)));
    let m8 = put_some(m7, "rows"@, int_value(widen16(v.rows)));
    let k8 = k7.push("rows"@);
    lemma_put_behind(m7, k7, "rows"@, int_value(widen16(v.rows)));
    let m9 = put_some(m8, "cols"@, int_value(widen16(v.cols)));
    let k9 = k8.push("cols"@);
    lemma_put_behind(m8, k8, "cols"@, int_value(widen16(v.cols)));
    let m10 = put_some(m9, "ephemeral"@, flag_value(v.ephemeral));
    let k10 = k9.push("ephemeral"@);
    lemma_put_behind(m9, k9, "ephemeral"@, flag_value(v.ephemeral));
    let m11 = put_some(m10, "createdAt"@, Some(JsonView::Str(v.created_at)));
    let k11 = k10.push("createdAt"@);
    lemma_put_behind(m10, k10, "createdAt"@, Some(JsonView::Str(v.created_at)));
    let m12 = put_some(m11, "displayName"@, text_value(v.display_name));
    let k12 = k11.push("displayName"@);
    lemma_put_behind(m11, k11, "displayName"@, text_value(v.display_name));
    let m13 = put_some(m12, "tags"@, pairs_value(v.tags));
    let k13 = k12.push("tags"@);
    lemma_put_behind(m12, k12, "tags"@, pairs_value(v.tags));
    let m14 = put_some(m13, "isolateEnv"@, flag_value(v.isolate_env));
    let k14 = k13.push("isolateEnv"@);
    lemma_put_behind(m13, k13, "isolateEnv"@, flag_value(v.isolate_env));
    let m15 = put_some(m14, "extraEnv"@, pairs_value(v.extra_env));
    let k15 = k14.push("extraEnv"@);
    lemma_put_behind(m14, k14, "extraEnv"@, pairs_value(v.extra_env));
    let m16 = put_some(m15, "unsetEnv"@, list_value(v.unset_env));
    let k16 = k15.push("unsetEnv"@);
    lemma_put_behind(m15, k15, "unsetEnv"@, list_value(v.unset_env));
    let m17 = put_some(m16, "env"@, pairs_value(v.env));
    let k17 = k16.push("env"@);
    lemma_put_behind(m16, k16, "env"@, pairs_value(v.env));
    let m18 = put_some(m17, "exitCode"@, int_value(widen32(v.exit_code)));
    let k18 = k17.push("exitCode"@);
    lemma_put_behind(m17, k17, "exitCode"@, int_value(widen32(v.exit_code)));
    let m19 = put_some(m18, "exitedAt"@, text_value(v.exited_at));
    let k19 = k18.push("exitedAt"@);
    lemma_put_behind(m18, k18, "exitedAt"@, text_value(v.exited_at));
    let m20 = put_some(m19, "lastLines"@, list_value(v.last_lines));
    let k20 = k19.push("lastLines"@);
    lemma_put_behind(m19, k19, "lastLines"@, list_value(v.last_lines));
    let m21 = put_some(m20, "lastAttachAt"@, text_value(v.last_attach_at));
    let k21 = k20.push("lastAttachAt"@);
    lemma_put_behind(m20, k20, "lastAttachAt"@, text_value(v.last_attach_at));
    let m22 = put_some(m21, "lastOutputAtMs"@, int_value(widen64(v.last_output_at_ms)));
    let k22 = k21.push("lastOutputAtMs"@);
    lemma_put_behind(m21, k21, "lastOutputAtMs"@, int_value(widen64(v.last_output_at_ms)));
    assert(record_members(v) == m22);
    assert(k22 =~= seq!["generation"@, "daemonPid"@, "recovery"@, "command"@, "args"@, "displayCommand"@, "cwd"@, "rows"@, "cols"@, "ephemeral"@, "createdAt"@, "displayName"@, "tags"@, "isolateEnv"@, "extraEnv"@, "unsetEnv"@, "env"@, "exitCode"@, "exitedAt"@, "lastLines"@, "lastAttachAt"@, "lastOutputAtMs"@]);
}

/// What is published stands in a fixed order, the tags before the name.
pub proof fn law_order_of_a_publication(v: MetaView)
    requires
        full(v),
        v.tags->0.len() > 0,
        v.display_name->0.len() > 0,
        v.isolate_env == Some(true),
        v.extra_env->0.len() > 0,
        v.unset_env->0.len() > 0,
    ensures
        key_list(publication_members(v)) == seq!["generation"@, "daemonPid"@, "recovery"@, "command"@, "args"@, "displayCommand"@, "cwd"@, "rows"@, "cols"@, "ephemeral"@, "createdAt"@, "tags"@, "displayName"@, "isolateEnv"@, "extraEnv"@, "unsetEnv"@, "env"@, "exitCode"@, "exitedAt"@, "lastLines"@, "lastAttachAt"@, "lastOutputAtMs"@],
{
    lemma_key_names();
    law_record_in_the_file(v, Seq::empty());
    let r = record_members(v);
    let m0 = Members::empty();
    let k0 = Seq::<Seq<char>>::empty();
    assert(key_list(m0) =~= k0);
    let m1 = put_some(m0, "generation"@, text_value(v.generation));
    let k1 = k0.push("generation"@);
    lemma_put_behind(m0, k0, "generation"@, text_value(v.generation));
    let m2 = put_some(m1, "daemonPid"@, int_value(widen32(v.daemon_pid)));
    let k2 = k1.push("daemonPid"@);
    lemma_put_behind(m1, k1, "daemonPid"@, int_value(widen32(v.daemon_pid)));
    let m3 = put_some(m2, "recovery"@, v.recovery);
    let k3 = k2.push("recovery"@);
    lemma_put_behind(m2, k2, "recovery"@, v.recovery);
    let m4 = put_some(m3, "command"@, Some(JsonView::Str(v.command)));
    let k4 = k3.push("command"@);
    lemma_put_behind(m3, k3, "command"@, Some(JsonView::Str(v.command)));
    let m5 = put_some(m4, "args"@, Some(strings_json(v.args)));
    let k5 = k4.push("args"@);
    lemma_put_behind(m4, k4, "args"@, Some(strings_json(v.args)));
    let m6 = put_some(m5, "displayCommand"@, Some(JsonView::Str(v.display_command)));
    let k6 = k5.push("displayCommand"@);
    lemma_put_behind(m5, k5, "displayCommand"@, Some(JsonView::Str(v.display_command)));
    let m7 = put_some(m6, "cwd"@, Some(JsonView::Str(v.cwd)));
    let k7 = k6.push("cwd"@);
    lemma_put_behind(m6, k6, "cwd"@, Some(JsonView::Str(v.cwd)));
    let m8 = put_some(m7, "rows"@, int_value(widen16(v.rows)));
    let k8 = k7.push("rows"@);
    lemma_put_behind(m7, k7, "rows"@, int_value(widen16(v.rows)));
    let m9 = put_some(m8, "cols"@, int_value(widen16(v.cols)));
    let k9 = k8.push("cols"@);
    lemma_put_behind(m8, k8, "cols"@, int_value(widen16(v.cols)));
    let m10 = put_some(m9, "ephemeral"@, Some(JsonView::Bool(v.ephemeral == Some(true))));
    let k10 = k9.push("ephemeral"@);
    lemma_put_behind(m9, k9, "ephemeral"@, Some(JsonView::Bool(v.ephemeral == Some(true))));
    let m11 = put_some(m10, "createdAt"@, Some(JsonView::Str(v.created_at)));
    let k11 = k10.push("createdAt"@);
    lemma_put_behind(m10, k10, "createdAt"@, Some(JsonView::Str(v.created_at)));
    let m12 = put_some(m11, "tags"@, pairs_value(kept_pairs(v.tags)));
    let k12 = k11.push("tags"@);
    lemma_put_behind(m11, k11, "tags"@, pairs_value(kept_pairs(v.tags)));
    let m13 = put_some(m12, "displayName"@, text_value(kept_text(v.display_name)));
    let k13 = k12.push("displayName"@);
    lemma_put_behind(m12, k12, "displayName"@, text_value(kept_text(v.display_name)));
    let m14 = put_some(m13, "isolateEnv"@, flag_value(kept_flag(v.isolate_env)));
    let k14 = k13.push("isolateEnv"@);
    lemma_put_behind(m13, k13, "isolateEnv"@, flag_value(kept_flag(v.isolate_env)));
    let m15 = put_some(m14, "extraEnv"@, pairs_value(kept_pairs(v.extra_env)));
    let k15 = k14.push("extraEnv"@);
    lemma_put_behind(m14, k14, "extraEnv"@, pairs_value(kept_pairs(v.extra_env)));
    let m16 = put_some(m15, "unsetEnv"@, list_value(kept_list(v.unset_env)));
    let k16 = k15.push("unsetEnv"@);
    lemma_put_behind(m15, k15, "unsetEnv"@, list_value(kept_list(v.unset_env)));
    let m17 = put_some(m16, "env"@, pairs_value(v.env));
    let k17 = k16.push("env"@);
    lemma_put_behind(m16, k16, "env"@, pairs_value(v.env));
    let m18 = put_some(m17, "exitCode"@, lookup(r, "exitCode"@));
    let k18 = k17.push("exitCode"@);
    lemma_put_behind(m17, k17, "exitCode"@, lookup(r, "exitCode"@));
    let m19 = put_some(m18, "exitedAt"@, lookup(r, "exitedAt"@));
    let k19 = k18.push("exitedAt"@);
    lemma_put_behind(m18, k18, "exitedAt"@, lookup(r, "exitedAt"@));
    let m20 = put_some(m19, "lastLines"@, lookup(r, "lastLines"@));
    let k20 = k19.push("lastLines"@);
    lemma_put_behind(m19, k19, "lastLines"@, lookup(r, "lastLines"@));
    let m21 = put_some(m20, "lastAttachAt"@, lookup(r, "lastAttachAt"@));
    let k21 = k20.push("lastAttachAt"@);
    lemma_put_behind(m20, k20, "lastAttachAt"@, lookup(r, "lastAttachAt"@));
    let m22 = put_some(m21, "lastOutputAtMs"@, lookup(r, "lastOutputAtMs"@));
    let k22 = k21.push("lastOutputAtMs"@);
    lemma_put_behind(m21, k21, "lastOutputAtMs"@, lookup(r, "lastOutputAtMs"@));
    assert(publication_members(v) == m22);
    assert(k22 =~= seq!["generation"@, "daemonPid"@, "recovery"@, "command"@, "args"@, "displayCommand"@, "cwd"@, "rows"@, "cols"@, "ephemeral"@, "createdAt"@, "tags"@, "displayName"@, "isolateEnv"@, "extraEnv"@, "unsetEnv"@, "env"@, "exitCode"@, "exitedAt"@, "lastLines"@, "lastAttachAt"@, "lastOutputAtMs"@]);
}

} // verus!
