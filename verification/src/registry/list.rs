//! Observation of the registry: which sessions there are and whether they
//! live, how a reference is resolved, and the process questions that the
//! lifecycle commands share. Nothing here creates, unlinks or repairs.

use super::lock::{holder, holder_pid};
use super::metadata::{start_token, MetaView, SessionMetadata};
use super::root::{session_file, socket_path};
use crate::proctable::Answer;
use crate::text::{
    ascending, begins, ends, in_order, join, joined, last_index, law_sorted, law_sorted_distinct, lemma_views_push, rfind,
    slice_of, slot, sort_strings, sorted, split_whitespace, starts_with, str_eq, str_le,
    strip_suffix, to_chars, trim, trimmed, views, words,
};
use vstd::prelude::*;

verus! {

/// Whether a session runs.
#[derive(Debug, Clone, Copy, PartialEq, Eq, Hash, Structural)]
pub enum SessionStatus {
    /// The daemon process is alive (or its socket is reachable).
    Running,
    /// The daemon wrote an exit record before shutting down.
    Exited,
    /// The daemon is gone and no exit record was written.
    Vanished,
}

/// The text of a status.
pub open spec fn status_text(s: SessionStatus) -> Seq<char> {
    match s {
        SessionStatus::Running => "running"@,
        SessionStatus::Exited => "exited"@,
        SessionStatus::Vanished => "vanished"@,
    }
}

impl SessionStatus {
    /// The text of the status.
    pub fn as_str(&self) -> (r: &'static str)
        ensures
            r@ == status_text(*self),
    {
        match self {
            SessionStatus::Running => "running",
            SessionStatus::Exited => "exited",
            SessionStatus::Vanished => "vanished",
        }
    }

    /// There is a record but no live daemon.
    pub fn is_gone(&self) -> (r: bool)
        ensures
            r == !(self is Running),
    {
        match self {
            SessionStatus::Running => false,
            _ => true,
        }
    }
}

/// One session as a listing sees it.
#[derive(Debug, PartialEq)]
pub struct SessionInfo {
    /// The stable id.
    pub name: String,
    pub socket_path: String,
    /// The daemon pid when it is known to be alive.
    pub pid: Option<i32>,
    pub status: SessionStatus,
    /// `None` when the record is missing or unreadable.
    pub metadata: Option<SessionMetadata>,
}

/// The mathematical content of a `SessionInfo`.
#[verifier::ext_equal]
pub struct InfoView {
    pub name: Seq<char>,
    pub socket_path: Seq<char>,
    pub pid: Option<i32>,
    pub status: SessionStatus,
    pub metadata: Option<MetaView>,
}

/// The view of an optional record.
pub open spec fn meta_opt(m: Option<SessionMetadata>) -> Option<MetaView> {
    match m {
        Some(v) => Some(v@),
        None => None,
    }
}

impl View for SessionInfo {
    type V = InfoView;

    open spec fn view(&self) -> InfoView {
        InfoView {
            name: self.name@,
            socket_path: self.socket_path@,
            pid: self.pid,
            status: self.status,
            metadata: meta_opt(self.metadata),
        }
    }
}

/// The contents of a list of sessions.
pub open spec fn info_views(v: Seq<SessionInfo>) -> Seq<InfoView> {
    Seq::new(v.len(), |i: int| v[i]@)
}

/// The display name of a session.
pub open spec fn display_name_of(v: InfoView) -> Option<Seq<char>> {
    match v.metadata {
        Some(m) => m.display_name,
        None => None,
    }
}

impl Clone for SessionInfo {
    fn clone(&self) -> (r: SessionInfo)
        ensures
            r@ == self@,
    {
        SessionInfo {
            name: self.name.clone(),
            socket_path: self.socket_path.clone(),
            pid: self.pid,
            status: self.status,
            metadata: match &self.metadata {
                Some(m) => Some(m.clone()),
                None => None,
            },
        }
    }
}

impl SessionInfo {
    /// Is the daemon alive?
    pub fn is_running(&self) -> (r: bool)
        ensures
            r == (self.status is Running),
    {
        !self.status.is_gone()
    }

    /// Is there a record but no live daemon?
    pub fn is_gone(&self) -> (r: bool)
        ensures
            r == !(self.status is Running),
    {
        self.status.is_gone()
    }

    /// The display name, when the record has one.
    pub fn display_name(&self) -> (r: Option<&str>)
        ensures
            match r {
                Some(n) => display_name_of(self@) == Some(n@),
                None => display_name_of(self@) is None,
            },
    {
        match &self.metadata {
            Some(m) => match &m.display_name {
                Some(n) => Some(n.as_str()),
                None => None,
            },
            None => None,
        }
    }
}

/// Default shared budget for probing sockets whose pid looks dead, in
/// milliseconds.
pub const DEFAULT_SOCKET_PROBE_BUDGET_MS: u64 = 500;

/// Connect timeout of one probe, in milliseconds.
pub const SOCKET_PROBE_TIMEOUT_MS: u64 = 500;

/// Knobs of a listing.
#[derive(Debug, Clone, Copy, PartialEq, Eq, Structural)]
pub struct ListOptions {
    /// One deadline for every socket probe of this listing.
    pub socket_probe_budget_ms: u64,
}

impl Default for ListOptions {
    fn default() -> (r: ListOptions)
        ensures
            r.socket_probe_budget_ms == DEFAULT_SOCKET_PROBE_BUDGET_MS,
    {
        ListOptions { socket_probe_budget_ms: DEFAULT_SOCKET_PROBE_BUDGET_MS }
    }
}

// ---- processes -----------------------------------------------------------

/// The pid in the content of a pid file, `None` where there is no file or no
/// pid in it.
pub fn read_session_pid(content: Option<&str>) -> (r: Option<i32>)
    ensures
        match r {
            Some(n) => content matches Some(c) && holder(c@) == Some(n as int),
            None => content matches Some(c) ==> holder(c@) is None,
        },
{
    match content {
        Some(c) => holder_pid(c),
        None => None,
    }
}

/// The token that proves a process identity on Linux: the start time, which is
/// the twentieth field behind the command in parentheses.
pub open spec fn linux_token(stat: Seq<char>) -> Option<Seq<char>> {
    let close = last_index(stat, ')');
    if close < 0 || words(stat.skip(close + 2)).len() < 20 {
        None
    } else {
        Some("linux:"@ + words(stat.skip(close + 2))[19])
    }
}

/// Computes `linux_token` from the text of a process's entry. One byte must
/// separate the closing parenthesis from what follows, as it always does there.
pub fn linux_start_token(stat: &str) -> (r: Option<String>)
    requires
        last_index(stat@, ')') < 0 || (last_index(stat@, ')') + 2 <= stat@.len() && stat@[last_index(
            stat@,
            ')',
        ) + 1] <= '\x7f'),
    ensures
        match r {
            Some(t) => linux_token(stat@) == Some(t@),
            None => linux_token(stat@) is None,
        },
{
    let chars = to_chars(stat);
    let n = chars.len();
    let close = match rfind(chars.as_slice(), ')') {
        Some(i) => i,
        None => {
            return None;
        },
    };
    let tail = slice_of(chars.as_slice(), close + 2, n);
    assert(tail@ =~= stat@.skip(close + 2));
    let f = split_whitespace(tail.as_slice());
    let ghost fv = words(tail@);
    assert(f@.len() == fv.len());
    if f.len() < 20 {
        return None;
    }
    assert(fv[19] == f@[19]@);
    let mut token = "linux:".to_owned();
    token.append(f[19].as_str());
    Some(token)
}

/// The token that proves a process identity on macOS, from the start time that
/// the system prints.
pub fn darwin_start_token(printed: &str) -> (r: Option<String>)
    ensures
        match r {
            Some(t) => trimmed(printed@).len() > 0 && t@ == "darwin:"@ + trimmed(printed@),
            None => trimmed(printed@).len() == 0,
        },
{
    let started = trim(printed);
    if started.as_str().is_empty() {
        return None;
    }
    let mut token = "darwin:".to_owned();
    token.append(started.as_str());
    Some(token)
}

/// The pid to judge a session by: the one in its pid file, else the daemon's
/// of the record, where the start token of the record is still that of the
/// live process.
pub open spec fn judged_pid(
    sidecar: Option<i32>,
    record: Option<MetaView>,
    live_token: Option<Seq<char>>,
) -> Option<i32> {
    if sidecar is Some {
        sidecar
    } else {
        match record {
            Some(m) => if m.daemon_pid is Some && start_token(m) is Some && live_token
                == start_token(m) {
                m.daemon_pid
            } else {
                None
            },
            None => None,
        }
    }
}

/// The view of an optional reference to a record.
pub open spec fn meta_ref(m: Option<&SessionMetadata>) -> Option<MetaView> {
    match m {
        Some(v) => Some(v@),
        None => None,
    }
}

/// The view of an optional text.
pub open spec fn str_opt(s: Option<&str>) -> Option<Seq<char>> {
    match s {
        Some(t) => Some(t@),
        None => None,
    }
}

/// Computes `judged_pid`; `live_token` is the start token of the process that
/// the record names.
pub fn read_pid_with(
    sidecar: Option<i32>,
    metadata: Option<&SessionMetadata>,
    live_token: Option<&str>,
) -> (r: Option<i32>)
    ensures
        r == judged_pid(sidecar, meta_ref(metadata), str_opt(live_token)),
{
    if sidecar.is_some() {
        return sidecar;
    }
    match metadata {
        Some(m) => match (m.daemon_pid, m.process_start_token(), live_token) {
            (Some(pid), Some(token), Some(live)) => {
                if str_eq(live, token) {
                    Some(pid)
                } else {
                    None
                }
            },
            _ => None,
        },
        None => None,
    }
}

/// The process of a session whose record is not at hand: `record` is what
/// reading it gave, and `live_token` the start token of the process it names.
pub fn read_pid(
    sidecar: Option<i32>,
    record: Option<&SessionMetadata>,
    live_token: Option<&str>,
) -> (r: Option<i32>)
    ensures
        r == judged_pid(sidecar, meta_ref(record), str_opt(live_token)),
{
    read_pid_with(sidecar, record, live_token)
}

/// The process whose start token `read_pid_with` needs, if it needs one.
pub fn process_to_identify(sidecar: Option<i32>, metadata: Option<&SessionMetadata>) -> (r: Option<
    i32,
>)
    ensures
        match r {
            Some(pid) => sidecar is None && (metadata matches Some(m) && m@.daemon_pid == Some(pid)
                && start_token(m@) is Some),
            None => sidecar is Some || metadata is None || (metadata matches Some(m) && (
            m@.daemon_pid is None || start_token(m@) is None)),
        },
{
    if sidecar.is_some() {
        return None;
    }
    match metadata {
        Some(m) => {
            if m.process_start_token().is_some() {
                m.daemon_pid
            } else {
                None
            }
        },
        None => None,
    }
}

/// Is a process gone for reaping purposes? A zombie counts as exited. Where
/// the table does not say, the process is asked once more rather than silence
/// being read as a death.
pub fn has_process_exited_for_reap(
    alive_before: bool,
    exited: &Answer<bool>,
    alive_after: bool,
) -> (r: bool)
    ensures
        r == (!alive_before || (match exited {
            Answer::Known(e) => *e,
            Answer::NotPresent => true,
            Answer::Unknown(_) => !alive_after,
        })),
{
    if !alive_before {
        return true;
    }
    match exited {
        Answer::Known(e) => *e,
        Answer::NotPresent => true,
        Answer::Unknown(_) => !alive_after,
    }
}

/// Read a process state field. `still_alive` is asked only when the field is
/// blank: a blank field is no evidence of death.
pub fn reaped_from_ps_state<F: FnOnce() -> bool>(state: &str, still_alive: F) -> (r: bool)
    requires
        trimmed(state@).len() == 0 ==> call_requires(still_alive, ()),
    ensures
        begins(trimmed(state@), "Z"@) ==> r,
        trimmed(state@).len() > 0 && !begins(trimmed(state@), "Z"@) ==> !r,
        trimmed(state@).len() == 0 ==> call_ensures(still_alive, (), !r),
{
    let text = trim(state);
    proof {
        reveal_strlit("Z");
    }
    if starts_with(text.as_str(), "Z") {
        return true;
    }
    if text.as_str().is_empty() {
        let alive = still_alive();
        return !alive;
    }
    false
}

// ---- the listing ---------------------------------------------------------

/// Whether a file name belongs to an atomic write that is under way.
pub open spec fn tmp_name(file: Seq<char>) -> bool {
    super::atomic::holds_tmp(file)
}

/// The names of the files with a given ending, without it, in order; files of
/// atomic writes are skipped.
pub open spec fn names_with(files: Seq<Seq<char>>, ending: Seq<char>) -> Seq<Seq<char>>
    decreases files.len(),
{
    if files.len() == 0 {
        Seq::empty()
    } else {
        let f = files.last();
        let rest = names_with(files.drop_last(), ending);
        if !tmp_name(f) && ends(f, ending) {
            rest.push(f.take(f.len() - ending.len()))
        } else {
            rest
        }
    }
}

fn take_names(files: &[String], ending: &str) -> (r: Vec<String>)
    ensures
        views(r@) == names_with(views(files@), ending@),
{
    let mut out: Vec<String> = Vec::new();
    let mut i: usize = 0;
    assert(views(out@) =~= names_with(views(files@).take(0), ending@));
    while i < files.len()
        invariant
            i <= files@.len(),
            views(out@) == names_with(views(files@).take(i as int), ending@),
        decreases files.len() - i,
    {
        assert(views(files@).take(i + 1).drop_last() =~= views(files@).take(i as int));
        if !super::atomic::is_tmp_name(files[i].as_str()) {
            match strip_suffix(files[i].as_str(), ending) {
                Some(name) => {
                    let ghost before = out@;
                    out.push(name);
                    proof {
                        lemma_views_push(before, name);
                    }
                },
                None => {},
            }
        }
        i += 1;
    }
    assert(views(files@).take(files@.len() as int) =~= views(files@));
    out
}

/// The sessions that have a socket, by name and in order.
pub fn socket_candidates(files: &[String]) -> (r: Vec<String>)
    ensures
        views(r@) == names_with(sorted(views(files@)), ".sock"@),
{
    let ordered = sort_strings(files);
    take_names(ordered.as_slice(), ".sock")
}

/// The sessions that have a record, by name and in order.
pub fn record_candidates(files: &[String]) -> (r: Vec<String>)
    ensures
        views(r@) == names_with(sorted(views(files@)), ".json"@),
{
    let ordered = sort_strings(files);
    take_names(ordered.as_slice(), ".json")
}

/// What was seen of a session that has a socket.
#[derive(Debug, PartialEq)]
pub struct SocketObservation {
    pub name: String,
    pub pid: Option<i32>,
    pub pid_alive: bool,
    /// Whether the socket answered within the budget; only asked where the
    /// process is not alive.
    pub reachable: bool,
    pub metadata: Option<SessionMetadata>,
}

/// What was seen of a session that has a record and no socket.
#[derive(Debug, PartialEq)]
pub struct RecordObservation {
    pub name: String,
    pub pid: Option<i32>,
    pub pid_alive: bool,
    /// `None` when the record could not be read.
    pub metadata: Option<SessionMetadata>,
}

/// The mathematical content of an observation.
#[verifier::ext_equal]
pub struct Seen {
    pub name: Seq<char>,
    pub pid: Option<i32>,
    pub pid_alive: bool,
    pub reachable: bool,
    pub metadata: Option<MetaView>,
}

impl View for SocketObservation {
    type V = Seen;

    open spec fn view(&self) -> Seen {
        Seen {
            name: self.name@,
            pid: self.pid,
            pid_alive: self.pid_alive,
            reachable: self.reachable,
            metadata: meta_opt(self.metadata),
        }
    }
}

impl View for RecordObservation {
    type V = Seen;

    open spec fn view(&self) -> Seen {
        Seen {
            name: self.name@,
            pid: self.pid,
            pid_alive: self.pid_alive,
            reachable: false,
            metadata: meta_opt(self.metadata),
        }
    }
}

/// The status of a session that answers: it runs, unless it recorded an exit.
pub open spec fn live_status(m: Option<MetaView>) -> SessionStatus {
    match m {
        Some(v) => if v.exited_at is Some {
            SessionStatus::Exited
        } else {
            SessionStatus::Running
        },
        None => SessionStatus::Running,
    }
}

/// The status of a session whose daemon is gone: it exited if it recorded so.
pub open spec fn dead_status(v: MetaView) -> SessionStatus {
    if v.exited_at is None && v.exit_code is None {
        SessionStatus::Vanished
    } else {
        SessionStatus::Exited
    }
}

/// The entry of a session that has a socket. Where the process is dead and
/// the socket does not answer, the record decides, and without one there is
/// no entry; where no pid is known at all, the session counts as answering.
pub open spec fn socket_entry(root: Seq<char>, o: Seen) -> Option<InfoView> {
    let path = session_file(root, o.name, ".sock"@);
    if o.pid_alive || o.reachable || o.pid is None {
        Some(
            InfoView {
                name: o.name,
                socket_path: path,
                pid: o.pid,
                status: live_status(o.metadata),
                metadata: o.metadata,
            },
        )
    } else {
        match o.metadata {
            Some(m) => Some(
                InfoView {
                    name: o.name,
                    socket_path: path,
                    pid: None,
                    status: dead_status(m),
                    metadata: o.metadata,
                },
            ),
            None => None,
        }
    }
}

/// The entry of a session that has a record and no socket.
pub open spec fn record_entry(root: Seq<char>, o: Seen) -> Option<InfoView> {
    match o.metadata {
        Some(m) => {
            let alive = o.pid is Some && o.pid_alive;
            Some(
                InfoView {
                    name: o.name,
                    socket_path: session_file(root, o.name, ".sock"@),
                    pid: if alive {
                        o.pid
                    } else {
                        None
                    },
                    status: if alive {
                        live_status(o.metadata)
                    } else {
                        dead_status(m)
                    },
                    metadata: o.metadata,
                },
            )
        },
        None => None,
    }
}

/// The entries of sessions with sockets, in the order of the observations.
pub open spec fn socket_entries(root: Seq<char>, seen: Seq<Seen>) -> Seq<InfoView>
    decreases seen.len(),
{
    if seen.len() == 0 {
        Seq::empty()
    } else {
        match socket_entry(root, seen.last()) {
            Some(e) => socket_entries(root, seen.drop_last()).push(e),
            None => socket_entries(root, seen.drop_last()),
        }
    }
}

/// Whether an observation of a socket has that name.
pub open spec fn has_socket(sockets: Seq<Seen>, name: Seq<char>) -> bool {
    exists|i: int| 0 <= i < sockets.len() && (#[trigger] sockets[i]).name == name
}

/// The entries of sessions without sockets, in the order of the observations.
pub open spec fn record_entries(
    root: Seq<char>,
    sockets: Seq<Seen>,
    seen: Seq<Seen>,
) -> Seq<InfoView>
    decreases seen.len(),
{
    if seen.len() == 0 {
        Seq::empty()
    } else {
        let rest = record_entries(root, sockets, seen.drop_last());
        if has_socket(sockets, seen.last().name) {
            rest
        } else {
            match record_entry(root, seen.last()) {
                Some(e) => rest.push(e),
                None => rest,
            }
        }
    }
}

/// The names of entries.
pub open spec fn entry_names(v: Seq<InfoView>) -> Seq<Seq<char>> {
    Seq::new(v.len(), |i: int| v[i].name)
}

/// Entries in the order of their names; entries of one name keep their order.
pub open spec fn by_name(v: Seq<InfoView>) -> Seq<InfoView>
    decreases v.len(),
{
    if v.len() == 0 {
        v
    } else {
        let rest = by_name(v.drop_last());
        rest.insert(slot(entry_names(rest), v.last().name), v.last())
    }
}

/// The listing that observations of a registry give.
pub open spec fn listing(root: Seq<char>, sockets: Seq<Seen>, records: Seq<Seen>) -> Seq<InfoView> {
    by_name(socket_entries(root, sockets) + record_entries(root, sockets, records))
}

/// The contents of socket observations.
pub open spec fn sockets_seen(v: Seq<SocketObservation>) -> Seq<Seen> {
    Seq::new(v.len(), |i: int| v[i]@)
}

/// The contents of record observations.
pub open spec fn records_seen(v: Seq<RecordObservation>) -> Seq<Seen> {
    Seq::new(v.len(), |i: int| v[i]@)
}

fn live_state(m: &Option<SessionMetadata>) -> (r: SessionStatus)
    ensures
        r == live_status(meta_opt(*m)),
{
    match m {
        Some(v) => {
            if v.has_exited() {
                SessionStatus::Exited
            } else {
                SessionStatus::Running
            }
        },
        None => SessionStatus::Running,
    }
}

fn dead_state(m: &SessionMetadata) -> (r: SessionStatus)
    ensures
        r == dead_status(m@),
{
    if m.exited_at.is_none() && m.exit_code.is_none() {
        SessionStatus::Vanished
    } else {
        SessionStatus::Exited
    }
}

fn copy_meta(m: &Option<SessionMetadata>) -> (r: Option<SessionMetadata>)
    ensures
        meta_opt(r) == meta_opt(*m),
{
    match m {
        Some(v) => Some(v.clone()),
        None => None,
    }
}

fn entry_of_socket(root: &str, o: &SocketObservation) -> (r: Option<SessionInfo>)
    ensures
        match r {
            Some(e) => socket_entry(root@, o@) == Some(e@),
            None => socket_entry(root@, o@) is None,
        },
{
    let path = socket_path(root, o.name.as_str());
    if o.pid_alive || o.reachable || o.pid.is_none() {
        return Some(
            SessionInfo {
                name: o.name.clone(),
                socket_path: path,
                pid: o.pid,
                status: live_state(&o.metadata),
                metadata: copy_meta(&o.metadata),
            },
        );
    }
    match &o.metadata {
        Some(m) => Some(
            SessionInfo {
                name: o.name.clone(),
                socket_path: path,
                pid: None,
                status: dead_state(m),
                metadata: Some(m.clone()),
            },
        ),
        None => None,
    }
}

fn entry_of_record(root: &str, o: &RecordObservation) -> (r: Option<SessionInfo>)
    ensures
        match r {
            Some(e) => record_entry(root@, o@) == Some(e@),
            None => record_entry(root@, o@) is None,
        },
{
    match &o.metadata {
        Some(m) => {
            let path = socket_path(root, o.name.as_str());
            let alive = o.pid.is_some() && o.pid_alive;
            Some(
                SessionInfo {
                    name: o.name.clone(),
                    socket_path: path,
                    pid: if alive {
                        o.pid
                    } else {
                        None
                    },
                    status: if alive {
                        live_state(&o.metadata)
                    } else {
                        dead_state(m)
                    },
                    metadata: Some(m.clone()),
                },
            )
        },
        None => None,
    }
}

fn names_socket(sockets: &[SocketObservation], name: &str) -> (r: bool)
    ensures
        r == has_socket(sockets_seen(sockets@), name@),
{
    let mut i: usize = 0;
    while i < sockets.len()
        invariant
            i <= sockets@.len(),
            forall|j: int| 0 <= j < i ==> (#[trigger] sockets_seen(sockets@)[j]).name != name@,
        decreases sockets.len() - i,
    {
        if str_eq(sockets[i].name.as_str(), name) {
            assert(sockets_seen(sockets@)[i as int].name == name@);
            return true;
        }
        i += 1;
    }
    false
}

/// Put an entry in its place among entries that are in order.
fn insert_by_name(out: &mut Vec<SessionInfo>, e: SessionInfo)
    ensures
        info_views(final(out)@) == info_views(old(out)@).insert(
            slot(entry_names(info_views(old(out)@)), e@.name),
            e@,
        ),
{
    let ghost before = info_views(out@);
    let ghost names = entry_names(before);
    let mut k: usize = out.len();
    assert(names.take(k as int) =~= names);
    while k > 0 && !str_le(out[k - 1].name.as_str(), e.name.as_str())
        invariant
            k <= out@.len(),
            names == entry_names(info_views(out@)),
            slot(names.take(k as int), e@.name) == slot(names, e@.name),
        decreases k,
    {
        assert(names.take(k as int).drop_last() =~= names.take(k - 1));
        assert(names.take(k as int).last() == out@[k - 1].name@);
        k -= 1;
    }
    assert(k > 0 ==> names.take(k as int).last() == out@[k - 1].name@);
    let ghost v = e@;
    out.insert(k, e);
    assert(info_views(out@) =~= before.insert(k as int, v));
}

proof fn lemma_by_name_push(v: Seq<InfoView>, e: InfoView)
    ensures
        by_name(v.push(e)) == by_name(v).insert(slot(entry_names(by_name(v)), e.name), e),
{
    assert(v.push(e).drop_last() =~= v);
}

/// One bounded observation of the registry, sorted by name.
pub fn list_sessions_with(
    root: &str,
    sockets: &[SocketObservation],
    records: &[RecordObservation],
) -> (r: Vec<SessionInfo>)
    ensures
        info_views(r@) == listing(root@, sockets_seen(sockets@), records_seen(records@)),
{
    let ghost ss = sockets_seen(sockets@);
    let ghost rs = records_seen(records@);
    let mut out: Vec<SessionInfo> = Vec::new();
    let ghost mut all: Seq<InfoView> = Seq::empty();
    let mut i: usize = 0;
    assert(info_views(out@) =~= by_name(Seq::empty()));
    assert(socket_entries(root@, ss.take(0)) =~= Seq::<InfoView>::empty());
    while i < sockets.len()
        invariant
            i <= sockets@.len(),
            ss == sockets_seen(sockets@),
            all == socket_entries(root@, ss.take(i as int)),
            info_views(out@) == by_name(all),
        decreases sockets.len() - i,
    {
        assert(ss.take(i + 1).drop_last() =~= ss.take(i as int));
        assert(ss.take(i + 1).last() == sockets@[i as int]@);
        match entry_of_socket(root, &sockets[i]) {
            Some(e) => {
                proof {
                    lemma_by_name_push(all, e@);
                    all = all.push(e@);
                }
                insert_by_name(&mut out, e);
            },
            None => {},
        }
        i += 1;
    }
    assert(ss.take(sockets@.len() as int) =~= ss);
    let ghost first = all;
    let mut k: usize = 0;
    assert(record_entries(root@, ss, rs.take(0)) =~= Seq::<InfoView>::empty());
    assert(first + record_entries(root@, ss, rs.take(0)) =~= first);
    while k < records.len()
        invariant
            k <= records@.len(),
            ss == sockets_seen(sockets@),
            rs == records_seen(records@),
            all == first + record_entries(root@, ss, rs.take(k as int)),
            info_views(out@) == by_name(all),
        decreases records.len() - k,
    {
        assert(rs.take(k + 1).drop_last() =~= rs.take(k as int));
        assert(rs.take(k + 1).last() == records@[k as int]@);
        if !names_socket(sockets, records[k].name.as_str()) {
            match entry_of_record(root, &records[k]) {
                Some(e) => {
                    proof {
                        lemma_by_name_push(all, e@);
                        assert(all.push(e@) =~= first + record_entries(
                            root@,
                            ss,
                            rs.take(k as int),
                        ).push(e@));
                        all = all.push(e@);
                    }
                    insert_by_name(&mut out, e);
                },
                None => {},
            }
        }
        k += 1;
    }
    assert(rs.take(records@.len() as int) =~= rs);
    out
}

/// The sockets to probe: those of sessions whose process is not alive.
pub fn needs_probe(o: &SocketObservation) -> (r: bool)
    ensures
        r == !o@.pid_alive,
{
    !o.pid_alive
}

// ---- references ----------------------------------------------------------

/// The first entry of a name at or after `from`, or the length.
pub open spec fn find_name(v: Seq<InfoView>, name: Seq<char>, from: int) -> int
    decreases v.len() - from,
{
    if 0 <= from < v.len() && v[from].name != name {
        find_name(v, name, from + 1)
    } else {
        from
    }
}

/// The positions of the entries with a display name, in order.
pub open spec fn displayed(v: Seq<InfoView>, name: Seq<char>) -> Seq<int>
    decreases v.len(),
{
    if v.len() == 0 {
        Seq::empty()
    } else {
        let rest = displayed(v.drop_last(), name);
        if display_name_of(v.last()) == Some(name) {
            rest.push(v.len() - 1)
        } else {
            rest
        }
    }
}

/// The position of the session that a reference means: the one with that id,
/// else the only one with that display name.
pub open spec fn resolved(v: Seq<InfoView>, reference: Seq<char>) -> Option<int> {
    if find_name(v, reference, 0) < v.len() {
        Some(find_name(v, reference, 0))
    } else if displayed(v, reference).len() == 1 {
        Some(displayed(v, reference)[0])
    } else {
        None
    }
}

/// Whether a reference means no session because it means several.
pub open spec fn ambiguous(v: Seq<InfoView>, reference: Seq<char>) -> bool {
    find_name(v, reference, 0) >= v.len() && displayed(v, reference).len() > 1
}

/// The ids of the entries at some positions.
pub open spec fn ids_at(v: Seq<InfoView>, at: Seq<int>) -> Seq<Seq<char>> {
    Seq::new(at.len(), |i: int| v[at[i]].name)
}

/// Each text behind two spaces.
pub open spec fn indented(v: Seq<Seq<char>>) -> Seq<Seq<char>> {
    Seq::new(v.len(), |i: int| "  "@ + v[i])
}

/// What is said of a display name that several sessions have.
pub open spec fn ambiguous_text(reference: Seq<char>, ids: Seq<Seq<char>>) -> Seq<char> {
    "Session reference \""@ + reference + "\" is ambiguous. Matching stable session IDs:\n"@
        + joined(indented(sorted(ids)), "\n"@) + "\nUse a stable session ID instead."@
}

/// Computes `ambiguous_text`.
pub fn ambiguous_reference_message(reference: &str, ids: &[String]) -> (r: String)
    ensures
        r@ == ambiguous_text(reference@, views(ids@)),
{
    let ordered = sort_strings(ids);
    let ghost want = indented(views(ordered@));
    let mut lines: Vec<String> = Vec::new();
    let mut i: usize = 0;
    assert(views(lines@) =~= want.take(0));
    while i < ordered.len()
        invariant
            i <= ordered@.len(),
            want == indented(views(ordered@)),
            views(lines@) == want.take(i as int),
        decreases ordered.len() - i,
    {
        let ghost before = lines@;
        let mut line = "  ".to_owned();
        line.append(ordered[i].as_str());
        lines.push(line);
        proof {
            lemma_views_push(before, line);
            assert(want.take(i + 1) =~= want.take(i as int).push(want[i as int]));
        }
        i += 1;
    }
    assert(want.take(ordered@.len() as int) =~= want);
    let list = join(lines.as_slice(), "\n");
    let mut m = "Session reference \"".to_owned();
    m.append(reference);
    m.append("\" is ambiguous. Matching stable session IDs:\n");
    m.append(list.as_str());
    m.append("\nUse a stable session ID instead.");
    m
}

fn position_of(sessions: &[SessionInfo], name: &str) -> (r: usize)
    ensures
        r == find_name(info_views(sessions@), name@, 0),
        r <= sessions@.len(),
{
    let mut i: usize = 0;
    while i < sessions.len() && !str_eq(sessions[i].name.as_str(), name)
        invariant
            i <= sessions@.len(),
            find_name(info_views(sessions@), name@, 0) == find_name(
                info_views(sessions@),
                name@,
                i as int,
            ),
        decreases sessions.len() - i,
    {
        i += 1;
    }
    i
}

/// Look a session up by its immutable id only.
pub fn get_session_by_name(sessions: &[SessionInfo], name: &str) -> (r: Option<usize>)
    ensures
        match r {
            Some(i) => i == find_name(info_views(sessions@), name@, 0) && i < sessions@.len(),
            None => find_name(info_views(sessions@), name@, 0) == sessions@.len(),
        },
{
    let i = position_of(sessions, name);
    if i < sessions.len() {
        Some(i)
    } else {
        None
    }
}

/// Resolve a reference by exact id first, then by a unique display name: the
/// position of the session. Several display-name matches fail with the list
/// of their ids.
pub fn get_session(sessions: &[SessionInfo], reference: &str) -> (r: Result<Option<usize>, String>)
    ensures
        match r {
            Ok(found) => !ambiguous(info_views(sessions@), reference@) && resolved(
                info_views(sessions@),
                reference@,
            ) == (match found {
                Some(i) => Some(i as int),
                None => None,
            }),
            Err(e) => ambiguous(info_views(sessions@), reference@) && e@ == ambiguous_text(
                reference@,
                ids_at(
                    info_views(sessions@),
                    displayed(info_views(sessions@), reference@),
                ),
            ),
        },
        r matches Ok(Some(i)) ==> i < sessions@.len(),
{
    let ghost all = info_views(sessions@);
    let at = position_of(sessions, reference);
    if at < sessions.len() {
        return Ok(Some(at));
    }
    let mut found: Vec<usize> = Vec::new();
    let mut ids: Vec<String> = Vec::new();
    let mut i: usize = 0;
    let ghost mut places: Seq<int> = Seq::empty();
    assert(displayed(all.take(0), reference@) =~= Seq::<int>::empty());
    assert(views(ids@) =~= ids_at(all, places));
    while i < sessions.len()
        invariant
            i <= sessions@.len(),
            all == info_views(sessions@),
            places == displayed(all.take(i as int), reference@),
            found@.len() == places.len(),
            forall|j: int|
                0 <= j < found@.len() ==> (#[trigger] found@[j]) == places[j] && found@[j]
                    < sessions@.len(),
            views(ids@) == ids_at(all, places),
        decreases sessions.len() - i,
    {
        assert(all.take(i + 1).drop_last() =~= all.take(i as int));
        assert(all.take(i + 1).last() == sessions@[i as int]@);
        let hit = match sessions[i].display_name() {
            Some(n) => str_eq(n, reference),
            None => false,
        };
        if hit {
            let ghost before = ids@;
            let ghost before_places = places;
            found.push(i);
            ids.push(sessions[i].name.clone());
            proof {
                lemma_views_push(before, ids@.last());
                assert(ids@ =~= before.push(ids@.last()));
                places = places.push(i as int);
                assert(ids_at(all, places) =~= ids_at(all, before_places).push(
                    all[i as int].name,
                ));
            }
        }
        i += 1;
    }
    assert(all.take(sessions@.len() as int) =~= all);
    if found.len() == 0 {
        return Ok(None);
    }
    if found.len() == 1 {
        return Ok(Some(found[0]));
    }
    Err(ambiguous_reference_message(reference, ids.as_slice()))
}

/// Resolve a reference to a stable id; `None` when nothing matches or the
/// display name is ambiguous.
pub fn resolve_ref(sessions: &[SessionInfo], reference: &str) -> (r: Option<String>)
    ensures
        match r {
            Some(id) => resolved(info_views(sessions@), reference@) matches Some(i) && 0 <= i
                < sessions@.len() && id@ == info_views(sessions@)[i].name,
            None => resolved(info_views(sessions@), reference@) is None,
        },
{
    match get_session(sessions, reference) {
        Ok(Some(i)) => Some(sessions[i].name.clone()),
        _ => None,
    }
}

/// A list in order with each text once.
pub open spec fn once(v: Seq<Seq<char>>) -> Seq<Seq<char>>
    decreases v.len(),
{
    if v.len() == 0 {
        v
    } else {
        let rest = once(v.drop_last());
        if rest.len() > 0 && rest.last() == v.last() {
            rest
        } else {
            rest.push(v.last())
        }
    }
}

/// Every immutable id of a listing, in order and once.
pub fn all_session_names(sessions: &[SessionInfo]) -> (r: Vec<String>)
    ensures
        views(r@) == once(sorted(entry_names(info_views(sessions@)))),
{
    let mut names: Vec<String> = Vec::new();
    let ghost want = entry_names(info_views(sessions@));
    let mut i: usize = 0;
    assert(views(names@) =~= want.take(0));
    while i < sessions.len()
        invariant
            i <= sessions@.len(),
            want == entry_names(info_views(sessions@)),
            views(names@) == want.take(i as int),
        decreases sessions.len() - i,
    {
        let ghost before = names@;
        names.push(sessions[i].name.clone());
        proof {
            lemma_views_push(before, names@.last());
            assert(names@ =~= before.push(names@.last()));
            assert(want.take(i + 1) =~= want.take(i as int).push(want[i as int]));
        }
        i += 1;
    }
    assert(want.take(sessions@.len() as int) =~= want);
    let ordered = sort_strings(names.as_slice());
    let ghost all = views(ordered@);
    let mut out: Vec<String> = Vec::new();
    let mut k: usize = 0;
    assert(views(out@) =~= once(all.take(0)));
    while k < ordered.len()
        invariant
            k <= ordered@.len(),
            all == views(ordered@),
            views(out@) == once(all.take(k as int)),
        decreases ordered.len() - k,
    {
        assert(all.take(k + 1).drop_last() =~= all.take(k as int));
        assert(all.take(k + 1).last() == ordered@[k as int]@);
        let n = out.len();
        assert(n > 0 ==> views(out@).last() == out@[n - 1]@);
        let repeated = n > 0 && str_eq(out[n - 1].as_str(), ordered[k].as_str());
        if !repeated {
            let ghost before = out@;
            out.push(ordered[k].clone());
            proof {
                lemma_views_push(before, out@.last());
                assert(out@ =~= before.push(out@.last()));
            }
        }
        k += 1;
    }
    assert(all.take(ordered@.len() as int) =~= all);
    out
}

// ---- laws ----------------------------------------------------------------

proof fn lemma_names_by_name(v: Seq<InfoView>)
    ensures
        entry_names(by_name(v)) == sorted(entry_names(v)),
    decreases v.len(),
{
    if v.len() > 0 {
        let rest = by_name(v.drop_last());
        lemma_names_by_name(v.drop_last());
        assert(entry_names(v).drop_last() =~= entry_names(v.drop_last()));
        let k = slot(entry_names(rest), v.last().name);
        crate::text::lemma_slot(entry_names(rest), v.last().name);
        assert(entry_names(rest.insert(k, v.last())) =~= entry_names(rest).insert(
            k,
            v.last().name,
        ));
    } else {
        assert(entry_names(v) =~= Seq::<Seq<char>>::empty());
    }
}

/// A listing is in the order of its names, and names exactly the sessions that
/// have an entry.
pub proof fn law_listing_is_sorted(root: Seq<char>, sockets: Seq<Seen>, records: Seq<Seen>)
    ensures
        in_order(entry_names(listing(root, sockets, records))),
        entry_names(listing(root, sockets, records)).to_multiset() == entry_names(
            socket_entries(root, sockets) + record_entries(root, sockets, records),
        ).to_multiset(),
{
    let v = socket_entries(root, sockets) + record_entries(root, sockets, records);
    lemma_names_by_name(v);
    law_sorted(entry_names(v));
}

/// The names of the sessions that were seen.
pub open spec fn seen_names(v: Seq<Seen>) -> Seq<Seq<char>> {
    Seq::new(v.len(), |i: int| v[i].name)
}

/// Whether a session of that name has a file with that ending, other than a
/// file of an atomic write.
pub open spec fn has_file(files: Seq<Seq<char>>, name: Seq<char>, ending: Seq<char>) -> bool {
    files.contains(name + ending) && !tmp_name(name + ending)
}

proof fn lemma_names_with(files: Seq<Seq<char>>, ending: Seq<char>)
    requires
        files.no_duplicates(),
    ensures
        names_with(files, ending).no_duplicates(),
        forall|k: int|
            0 <= k < names_with(files, ending).len() ==> has_file(
                files,
                #[trigger] names_with(files, ending)[k],
                ending,
            ),
    decreases files.len(),
{
    if files.len() > 0 {
        let before = files.drop_last();
        let f = files.last();
        let rest = names_with(before, ending);
        let all = names_with(files, ending);
        lemma_names_with(before, ending);
        assert(files[files.len() - 1] == f);
        assert(files.contains(f));
        assert forall|k: int| 0 <= k < rest.len() implies has_file(
            files,
            #[trigger] rest[k],
            ending,
        ) && rest[k] + ending != f by {
            let g = rest[k] + ending;
            assert(has_file(before, rest[k], ending));
            let i = choose|i: int| 0 <= i < before.len() && before[i] == g;
            assert(files[i] == g);
        }
        if !tmp_name(f) && ends(f, ending) {
            let n = f.take(f.len() - ending.len());
            assert(n + ending =~= f);
            assert forall|k: int| 0 <= k < rest.len() implies #[trigger] rest[k] != n by {
                assert(rest[k] + ending != f);
            }
            assert forall|k: int| 0 <= k < all.len() implies has_file(
                files,
                #[trigger] all[k],
                ending,
            ) by {
                if k < rest.len() {
                    assert(all[k] == rest[k]);
                }
            }
        }
    }
}

proof fn lemma_socket_entries(root: Seq<char>, seen: Seq<Seen>)
    ensures
        forall|k: int|
            0 <= k < socket_entries(root, seen).len() ==> exists|i: int|
                0 <= i < seen.len() && socket_entry(root, #[trigger] seen[i]) == Some(
                    #[trigger] socket_entries(root, seen)[k],
                ),
        seen_names(seen).no_duplicates() ==> entry_names(
            socket_entries(root, seen),
        ).no_duplicates(),
    decreases seen.len(),
{
    if seen.len() > 0 {
        let before = seen.drop_last();
        let rest = socket_entries(root, before);
        let all = socket_entries(root, seen);
        lemma_socket_entries(root, before);
        assert forall|k: int| 0 <= k < all.len() implies exists|i: int|
            0 <= i < seen.len() && socket_entry(root, #[trigger] seen[i]) == Some(
                #[trigger] all[k],
            ) by {
            if k < rest.len() {
                assert(all[k] == rest[k]);
                let i = choose|i: int|
                    0 <= i < before.len() && socket_entry(root, #[trigger] before[i]) == Some(
                        rest[k],
                    );
                assert(seen[i] == before[i]);
            } else {
                assert(socket_entry(root, seen[seen.len() - 1]) == Some(all[k]));
            }
        }
        if seen_names(seen).no_duplicates() {
            lemma_last_name(seen);
            let names = entry_names(all);
            assert forall|a: int, b: int|
                0 <= a < names.len() && 0 <= b < names.len() && a != b implies names[a]
                != names[b] by {
                let (c, d) = if a < b {
                    (a, b)
                } else {
                    (b, a)
                };
                assert(all[c] == rest[c]);
                let i = choose|i: int|
                    0 <= i < before.len() && socket_entry(root, #[trigger] before[i]) == Some(
                        rest[c],
                    );
                if d < rest.len() {
                    assert(entry_names(rest)[c] != entry_names(rest)[d]);
                } else {
                    assert(before[i].name != seen.last().name);
                }
            }
        }
    }
}

/// Where no name occurs twice, the last one occurs nowhere before.
proof fn lemma_last_name(seen: Seq<Seen>)
    requires
        seen.len() > 0,
        seen_names(seen).no_duplicates(),
    ensures
        seen_names(seen.drop_last()).no_duplicates(),
        forall|i: int|
            0 <= i < seen.len() - 1 ==> (#[trigger] seen.drop_last()[i]).name != seen.last().name,
{
    let names = seen_names(seen);
    assert(seen_names(seen.drop_last()) =~= names.drop_last());
    assert forall|i: int| 0 <= i < seen.len() - 1 implies (#[trigger] seen.drop_last()[i]).name
        != seen.last().name by {
        assert(names[i] != names[seen.len() - 1]);
    }
}

proof fn lemma_record_entries(root: Seq<char>, sockets: Seq<Seen>, seen: Seq<Seen>)
    ensures
        forall|k: int|
            0 <= k < record_entries(root, sockets, seen).len() ==> exists|i: int|
                0 <= i < seen.len() && record_entry(root, #[trigger] seen[i]) == Some(
                    #[trigger] record_entries(root, sockets, seen)[k],
                ) && !has_socket(sockets, seen[i].name),
        seen_names(seen).no_duplicates() ==> entry_names(
            record_entries(root, sockets, seen),
        ).no_duplicates(),
    decreases seen.len(),
{
    if seen.len() > 0 {
        let before = seen.drop_last();
        let rest = record_entries(root, sockets, before);
        let all = record_entries(root, sockets, seen);
        lemma_record_entries(root, sockets, before);
        assert forall|k: int| 0 <= k < all.len() implies exists|i: int|
            0 <= i < seen.len() && record_entry(root, #[trigger] seen[i]) == Some(
                #[trigger] all[k],
            ) && !has_socket(sockets, seen[i].name) by {
            if k < rest.len() {
                assert(all[k] == rest[k]);
                let i = choose|i: int|
                    0 <= i < before.len() && record_entry(root, #[trigger] before[i]) == Some(
                        rest[k],
                    ) && !has_socket(sockets, before[i].name);
                assert(seen[i] == before[i]);
            } else {
                assert(record_entry(root, seen[seen.len() - 1]) == Some(all[k]));
            }
        }
        if seen_names(seen).no_duplicates() {
            lemma_last_name(seen);
            let names = entry_names(all);
            assert forall|a: int, b: int|
                0 <= a < names.len() && 0 <= b < names.len() && a != b implies names[a]
                != names[b] by {
                let (c, d) = if a < b {
                    (a, b)
                } else {
                    (b, a)
                };
                assert(all[c] == rest[c]);
                let i = choose|i: int|
                    0 <= i < before.len() && record_entry(root, #[trigger] before[i]) == Some(
                        rest[c],
                    ) && !has_socket(sockets, before[i].name);
                if d < rest.len() {
                    assert(entry_names(rest)[c] != entry_names(rest)[d]);
                } else {
                    assert(before[i].name != seen.last().name);
                }
            }
        }
    }
}

proof fn lemma_by_name_members(v: Seq<InfoView>)
    ensures
        by_name(v).len() == v.len(),
        forall|k: int| 0 <= k < by_name(v).len() ==> v.contains(#[trigger] by_name(v)[k]),
    decreases v.len(),
{
    if v.len() > 0 {
        let before = v.drop_last();
        let rest = by_name(before);
        let at = slot(entry_names(rest), v.last().name);
        lemma_by_name_members(before);
        crate::text::lemma_slot(entry_names(rest), v.last().name);
        assert forall|k: int| 0 <= k < by_name(v).len() implies v.contains(
            #[trigger] by_name(v)[k],
        ) by {
            if k == at {
                assert(v[v.len() - 1] == v.last());
            } else {
                let j = if k < at {
                    k
                } else {
                    k - 1
                };
                assert(by_name(v)[k] == rest[j]);
                assert(before.contains(rest[j]));
                let i = choose|i: int| 0 <= i < before.len() && before[i] == rest[j];
                assert(v[i] == rest[j]);
            }
        }
    }
}

/// Where each entry of a listing comes from.
proof fn lemma_listing_members(root: Seq<char>, sockets: Seq<Seen>, records: Seq<Seen>, k: int)
    requires
        0 <= k < listing(root, sockets, records).len(),
    ensures
        ({
            let e = listing(root, sockets, records)[k];
            ||| exists|i: int|
                0 <= i < sockets.len() && socket_entry(root, #[trigger] sockets[i]) == Some(e)
            ||| exists|i: int|
                0 <= i < records.len() && record_entry(root, #[trigger] records[i]) == Some(e)
        }),
{
    let a = socket_entries(root, sockets);
    let b = record_entries(root, sockets, records);
    let e = listing(root, sockets, records)[k];
    lemma_by_name_members(a + b);
    assert((a + b).contains(e));
    let j = choose|j: int| 0 <= j < (a + b).len() && (a + b)[j] == e;
    lemma_socket_entries(root, sockets);
    lemma_record_entries(root, sockets, records);
    if j < a.len() {
        assert(a[j] == e);
    } else {
        assert(b[j - a.len()] == e);
    }
}

/// A listing of a directory: its names are strictly ascending, so none occurs
/// twice, and each has a socket or a record among the files. Files of atomic
/// writes give no session.
pub proof fn law_listing_of_a_directory(
    root: Seq<char>,
    files: Seq<Seq<char>>,
    sockets: Seq<Seen>,
    records: Seq<Seen>,
)
    requires
        files.no_duplicates(),
        seen_names(sockets) == names_with(sorted(files), ".sock"@),
        seen_names(records) == names_with(sorted(files), ".json"@),
    ensures
        ascending(entry_names(listing(root, sockets, records))),
        forall|k: int|
            0 <= k < listing(root, sockets, records).len() ==> has_file(
                files,
                (#[trigger] listing(root, sockets, records)[k]).name,
                ".sock"@,
            ) || has_file(files, listing(root, sockets, records)[k].name, ".json"@),
{
    law_sorted_distinct(files);
    lemma_names_with(sorted(files), ".sock"@);
    lemma_names_with(sorted(files), ".json"@);
    let a = socket_entries(root, sockets);
    let b = record_entries(root, sockets, records);
    lemma_socket_entries(root, sockets);
    lemma_record_entries(root, sockets, records);
    let names = entry_names(a + b);
    assert forall|i: int, j: int|
        0 <= i < names.len() && 0 <= j < names.len() && i != j implies names[i] != names[j] by {
        if i < a.len() && j < a.len() {
            assert(entry_names(a)[i] != entry_names(a)[j]);
        } else if i >= a.len() && j >= a.len() {
            assert(entry_names(b)[i - a.len()] != entry_names(b)[j - a.len()]);
        } else {
            let (c, d) = if i < a.len() {
                (i, j - a.len())
            } else {
                (j, i - a.len())
            };
            assert(a[c] == (a + b)[c] && b[d] == (a + b)[d + a.len()]);
            let s = choose|s: int|
                0 <= s < sockets.len() && socket_entry(root, #[trigger] sockets[s]) == Some(a[c]);
            assert(has_socket(sockets, sockets[s].name));
        }
    }
    lemma_names_by_name(a + b);
    law_sorted_distinct(names);
    assert forall|k: int| 0 <= k < listing(root, sockets, records).len() implies has_file(
        files,
        (#[trigger] listing(root, sockets, records)[k]).name,
        ".sock"@,
    ) || has_file(files, listing(root, sockets, records)[k].name, ".json"@) by {
        let e = listing(root, sockets, records)[k];
        lemma_listing_members(root, sockets, records, k);
        if exists|i: int|
            0 <= i < sockets.len() && socket_entry(root, #[trigger] sockets[i]) == Some(e) {
            let i = choose|i: int|
                0 <= i < sockets.len() && socket_entry(root, #[trigger] sockets[i]) == Some(e);
            assert(seen_names(sockets)[i] == e.name);
            assert(has_file(sorted(files), e.name, ".sock"@));
        } else {
            let i = choose|i: int|
                0 <= i < records.len() && record_entry(root, #[trigger] records[i]) == Some(e);
            assert(seen_names(records)[i] == e.name);
            assert(has_file(sorted(files), e.name, ".json"@));
        }
    }
}

/// What a status in a listing means: a session that recorded when it exited is
/// listed as exited, and one that vanished has no pid, no exit time and no
/// exit code.
pub proof fn law_listing_statuses(root: Seq<char>, sockets: Seq<Seen>, records: Seq<Seen>, k: int)
    requires
        0 <= k < listing(root, sockets, records).len(),
    ensures
        ({
            let e = listing(root, sockets, records)[k];
            &&& e.metadata is Some && e.metadata->0.exited_at is Some ==> e.status is Exited
            &&& e.status is Vanished ==> e.pid is None && e.metadata is Some
                && e.metadata->0.exited_at is None && e.metadata->0.exit_code is None
        }),
{
    lemma_listing_members(root, sockets, records, k);
}

/// A live daemon without an exit record is listed as running, with its pid.
pub proof fn law_live_session_is_running(root: Seq<char>, o: Seen)
    requires
        o.pid_alive,
        o.metadata matches Some(m) ==> m.exited_at is None,
    ensures
        socket_entry(root, o) matches Some(e) && e.status is Running && e.pid == o.pid && e.name
            == o.name,
{
}

/// A session whose daemon is dead and whose socket does not answer is never
/// listed as running, and carries no pid.
pub proof fn law_dead_session_is_not_running(root: Seq<char>, o: Seen)
    requires
        o.pid is Some,
        !o.pid_alive,
        !o.reachable,
    ensures
        socket_entry(root, o) matches Some(e) ==> !(e.status is Running) && e.pid is None,
        record_entry(root, o) matches Some(e) ==> !(e.status is Running) && e.pid is None,
{
}

/// An exact id always wins over a display name.
pub proof fn law_id_wins_over_display_name(v: Seq<InfoView>, reference: Seq<char>, i: int)
    requires
        0 <= i < v.len(),
        v[i].name == reference,
    ensures
        resolved(v, reference) matches Some(k) && 0 <= k <= i && v[k].name == reference,
        !ambiguous(v, reference),
{
    lemma_find_name(v, reference, 0);
}

proof fn lemma_find_name(v: Seq<InfoView>, name: Seq<char>, from: int)
    requires
        0 <= from <= v.len(),
    ensures
        from <= find_name(v, name, from) <= v.len(),
        find_name(v, name, from) < v.len() ==> v[find_name(v, name, from)].name == name,
        forall|j: int| from <= j < find_name(v, name, from) ==> (#[trigger] v[j]).name != name,
    decreases v.len() - from,
{
    if from < v.len() && v[from].name != name {
        lemma_find_name(v, name, from + 1);
    }
}

/// The entry of a session that has a socket carries what was seen: its name,
/// its record, and the path of its socket. Its pid is the one seen where the
/// session counts as answering, and none otherwise.
pub proof fn law_socket_entry_carries_what_was_seen(root: Seq<char>, o: Seen, e: InfoView)
    requires
        socket_entry(root, o) == Some(e),
    ensures
        e.name == o.name,
        e.metadata == o.metadata,
        e.socket_path == session_file(root, o.name, ".sock"@),
        o.pid_alive || o.reachable || o.pid is None ==> e.pid == o.pid,
        !o.pid_alive && !o.reachable && o.pid is Some ==> e.pid is None && o.metadata is Some,
{
}

/// The entry of a session that has a record and no socket carries what was
/// seen, with the pid where it is alive.
pub proof fn law_record_entry_carries_what_was_seen(root: Seq<char>, o: Seen, e: InfoView)
    requires
        record_entry(root, o) == Some(e),
    ensures
        e.name == o.name,
        e.metadata == o.metadata && o.metadata is Some,
        e.socket_path == session_file(root, o.name, ".sock"@),
        e.pid == (if o.pid_alive {
            o.pid
        } else {
            None
        }),
{
}

/// Which sessions are listed: one with a socket unless its process is known,
/// dead and does not answer and there is no record; one without a socket
/// exactly where there is a record.
pub proof fn law_which_sessions_are_listed(root: Seq<char>, o: Seen)
    ensures
        socket_entry(root, o) is None <==> o.pid is Some && !o.pid_alive && !o.reachable
            && o.metadata is None,
        record_entry(root, o) is None <==> o.metadata is None,
{
}

/// How a session is listed: one that answers runs, unless its record has an
/// exit time; of one that does not, the record decides: it exited where that
/// has an exit time or a code, and vanished where it has neither.
pub proof fn law_how_a_session_is_listed(root: Seq<char>, o: Seen)
    ensures
        socket_entry(root, o) matches Some(e) ==> ({
            let answers = o.pid_alive || o.reachable || o.pid is None;
            let exit_time = o.metadata is Some && o.metadata->0.exited_at is Some;
            let exit_code = o.metadata is Some && o.metadata->0.exit_code is Some;
            &&& e.status is Running <==> answers && !exit_time
            &&& e.status is Exited <==> exit_time || (!answers && exit_code)
            &&& e.status is Vanished <==> !answers && !exit_time && !exit_code
        }),
        record_entry(root, o) matches Some(e) ==> ({
            let alive = o.pid is Some && o.pid_alive;
            let exit_time = o.metadata->0.exited_at is Some;
            let exit_code = o.metadata->0.exit_code is Some;
            &&& e.status is Running <==> alive && !exit_time
            &&& e.status is Exited <==> exit_time || (!alive && exit_code)
            &&& e.status is Vanished <==> !alive && !exit_time && !exit_code
        }),
{
}

/// Every entry of a listing carries the record of an observation of its name.
pub proof fn law_listing_carries_the_records(
    root: Seq<char>,
    sockets: Seq<Seen>,
    records: Seq<Seen>,
    k: int,
)
    requires
        0 <= k < listing(root, sockets, records).len(),
    ensures
        ({
            let e = listing(root, sockets, records)[k];
            ||| exists|i: int|
                0 <= i < sockets.len() && (#[trigger] sockets[i]).name == e.name
                    && sockets[i].metadata == e.metadata
            ||| exists|i: int|
                0 <= i < records.len() && (#[trigger] records[i]).name == e.name
                    && records[i].metadata == e.metadata
        }),
{
    lemma_listing_members(root, sockets, records, k);
    let e = listing(root, sockets, records)[k];
    if exists|i: int|
        0 <= i < sockets.len() && socket_entry(root, #[trigger] sockets[i]) == Some(e) {
        let i = choose|i: int|
            0 <= i < sockets.len() && socket_entry(root, #[trigger] sockets[i]) == Some(e);
        law_socket_entry_carries_what_was_seen(root, sockets[i], e);
    } else {
        let i = choose|i: int|
            0 <= i < records.len() && record_entry(root, #[trigger] records[i]) == Some(e);
        law_record_entry_carries_what_was_seen(root, records[i], e);
    }
}

/// No session is left out: what was seen of a session with a socket, and of
/// one that has only a record, is in the listing where it gives an entry.
pub proof fn law_no_session_is_left_out(
    root: Seq<char>,
    sockets: Seq<Seen>,
    records: Seq<Seen>,
    i: int,
)
    ensures
        0 <= i < sockets.len() && socket_entry(root, sockets[i]) is Some ==> listing(
            root,
            sockets,
            records,
        ).contains(socket_entry(root, sockets[i])->0),
        0 <= i < records.len() && record_entry(root, records[i]) is Some && (forall|j: int|
            0 <= j < sockets.len() ==> (#[trigger] sockets[j]).name != records[i].name)
            ==> listing(root, sockets, records).contains(record_entry(root, records[i])->0),
{
    let a = socket_entries(root, sockets);
    let b = record_entries(root, sockets, records);
    if 0 <= i < sockets.len() && socket_entry(root, sockets[i]) is Some {
        let e = socket_entry(root, sockets[i])->0;
        lemma_socket_entry_is_kept(root, sockets, i);
        let k = choose|k: int| 0 <= k < a.len() && a[k] == e;
        assert((a + b)[k] == e);
        lemma_by_name_keeps(a + b, e);
    }
    if 0 <= i < records.len() && record_entry(root, records[i]) is Some && (forall|j: int|
        0 <= j < sockets.len() ==> (#[trigger] sockets[j]).name != records[i].name) {
        let e = record_entry(root, records[i])->0;
        assert(!has_socket(sockets, records[i].name));
        lemma_record_entry_is_kept(root, sockets, records, i);
        let k = choose|k: int| 0 <= k < b.len() && b[k] == e;
        assert((a + b)[a.len() + k] == e);
        lemma_by_name_keeps(a + b, e);
    }
}

proof fn lemma_socket_entry_is_kept(root: Seq<char>, seen: Seq<Seen>, i: int)
    requires
        0 <= i < seen.len(),
        socket_entry(root, seen[i]) is Some,
    ensures
        socket_entries(root, seen).contains(socket_entry(root, seen[i])->0),
    decreases seen.len(),
{
    let all = socket_entries(root, seen);
    let before = socket_entries(root, seen.drop_last());
    let e = socket_entry(root, seen[i])->0;
    if i == seen.len() - 1 {
        assert(all[all.len() - 1] == e);
    } else {
        assert(seen.drop_last()[i] == seen[i]);
        lemma_socket_entry_is_kept(root, seen.drop_last(), i);
        let k = choose|k: int| 0 <= k < before.len() && before[k] == e;
        assert(all[k] == e);
    }
}

proof fn lemma_record_entry_is_kept(
    root: Seq<char>,
    sockets: Seq<Seen>,
    seen: Seq<Seen>,
    i: int,
)
    requires
        0 <= i < seen.len(),
        record_entry(root, seen[i]) is Some,
        !has_socket(sockets, seen[i].name),
    ensures
        record_entries(root, sockets, seen).contains(record_entry(root, seen[i])->0),
    decreases seen.len(),
{
    let all = record_entries(root, sockets, seen);
    let before = record_entries(root, sockets, seen.drop_last());
    let e = record_entry(root, seen[i])->0;
    if i == seen.len() - 1 {
        assert(all[all.len() - 1] == e);
    } else {
        assert(seen.drop_last()[i] == seen[i]);
        lemma_record_entry_is_kept(root, sockets, seen.drop_last(), i);
        let k = choose|k: int| 0 <= k < before.len() && before[k] == e;
        assert(all[k] == e);
    }
}

proof fn lemma_by_name_keeps(v: Seq<InfoView>, e: InfoView)
    requires
        v.contains(e),
    ensures
        by_name(v).contains(e),
    decreases v.len(),
{
    let i = choose|i: int| 0 <= i < v.len() && v[i] == e;
    let before = v.drop_last();
    let rest = by_name(before);
    let at = slot(entry_names(rest), v.last().name);
    crate::text::lemma_slot(entry_names(rest), v.last().name);
    lemma_by_name_members(before);
    if i == v.len() - 1 {
        assert(by_name(v)[at] == e);
    } else {
        assert(before[i] == e);
        lemma_by_name_keeps(before, e);
        let k = choose|k: int| 0 <= k < rest.len() && rest[k] == e;
        let n = if k < at {
            k
        } else {
            k + 1
        };
        assert(by_name(v)[n] == e);
    }
}

/// The sessions of a directory are its files with the ending, without it and
/// but for those of atomic writes: each such file gives one.
pub proof fn law_files_give_sessions(files: Seq<Seq<char>>, name: Seq<char>, ending: Seq<char>)
    requires
        files.contains(name + ending),
        forall|i: int| !crate::text::matches_at(name + ending, i, ".tmp."@),
    ensures
        names_with(files, ending).contains(name),
    decreases files.len(),
{
    let f = name + ending;
    let i = choose|i: int| 0 <= i < files.len() && files[i] == f;
    let before = files.drop_last();
    let all = names_with(files, ending);
    let rest = names_with(before, ending);
    if i == files.len() - 1 {
        crate::text::law_begin_and_end(f, ending, name);
        assert(!tmp_name(f));
        assert(f.take(f.len() - ending.len()) =~= name);
        assert(all[all.len() - 1] == name);
    } else {
        assert(before[i] == f);
        law_files_give_sessions(before, name, ending);
        let k = choose|k: int| 0 <= k < rest.len() && rest[k] == name;
        assert(all[k] == name);
    }
}

/// The texts of the statuses.
pub proof fn law_status_texts(s: SessionStatus)
    ensures
        status_text(s) == (match s {
            SessionStatus::Running => seq!['r', 'u', 'n', 'n', 'i', 'n', 'g'],
            SessionStatus::Exited => seq!['e', 'x', 'i', 't', 'e', 'd'],
            SessionStatus::Vanished => seq!['v', 'a', 'n', 'i', 's', 'h', 'e', 'd'],
        }),
{
    reveal_strlit("running");
    reveal_strlit("exited");
    reveal_strlit("vanished");
}

/// Two entries with the same content are the same in every field.
pub proof fn law_entries_are_told_apart(a: SessionInfo, b: SessionInfo)
    requires
        a@ == b@,
    ensures
        a.name@ == b.name@ && a.socket_path@ == b.socket_path@ && a.pid == b.pid && a.status
            == b.status,
        a.metadata is Some <==> b.metadata is Some,
        a.metadata is Some ==> a.metadata->0@ == b.metadata->0@,
{
}

/// What was seen keeps every field.
pub proof fn law_observations_keep_their_fields(s: SocketObservation, r: RecordObservation)
    ensures
        s@.name == s.name@ && s@.pid == s.pid && s@.pid_alive == s.pid_alive && s@.reachable
            == s.reachable,
        s@.metadata is Some <==> s.metadata is Some,
        s.metadata is Some ==> s@.metadata == Some(s.metadata->0@),
        r@.name == r.name@ && r@.pid == r.pid && r@.pid_alive == r.pid_alive,
        r@.metadata is Some <==> r.metadata is Some,
        r.metadata is Some ==> r@.metadata == Some(r.metadata->0@),
{
}

/// A display name finds the one session that has it; one that several have
/// finds none and is ambiguous, and one that nobody has finds none.
pub proof fn law_display_names_find_sessions(v: Seq<InfoView>, name: Seq<char>, i: int, j: int)
    requires
        forall|k: int| 0 <= k < v.len() ==> (#[trigger] v[k]).name != name,
    ensures
        0 <= i < v.len() && display_name_of(v[i]) == Some(name) && (forall|k: int|
            0 <= k < v.len() && k != i ==> display_name_of(#[trigger] v[k]) != Some(name))
            ==> resolved(v, name) == Some(i) && !ambiguous(v, name),
        0 <= i < j < v.len() && display_name_of(v[i]) == Some(name) && display_name_of(v[j])
            == Some(name) ==> resolved(v, name) is None && ambiguous(v, name),
        (forall|k: int| 0 <= k < v.len() ==> display_name_of(#[trigger] v[k]) != Some(name))
            ==> resolved(v, name) is None && !ambiguous(v, name),
{
    lemma_find_name(v, name, 0);
    lemma_displayed(v, name);
    let d = displayed(v, name);
    if 0 <= i < v.len() && display_name_of(v[i]) == Some(name) {
        assert(d.contains(i));
        let a = choose|a: int| 0 <= a < d.len() && d[a] == i;
        if forall|k: int|
            0 <= k < v.len() && k != i ==> display_name_of(#[trigger] v[k]) != Some(name) {
            assert forall|b: int| 0 <= b < d.len() implies d[b] == i by {
                assert(display_name_of(v[d[b]]) == Some(name));
            }
            if d.len() > 1 {
                assert(d[0] < d[1]);
            }
            assert(d[0] == i);
        }
        if i < j < v.len() && display_name_of(v[j]) == Some(name) {
            assert(d.contains(j));
            let b = choose|b: int| 0 <= b < d.len() && d[b] == j;
            assert(a != b);
        }
    }
    if forall|k: int| 0 <= k < v.len() ==> display_name_of(#[trigger] v[k]) != Some(name) {
        if d.len() > 0 {
            assert(display_name_of(v[d[0]]) == Some(name));
        }
    }
}

proof fn lemma_displayed(v: Seq<InfoView>, name: Seq<char>)
    ensures
        forall|a: int|
            0 <= a < displayed(v, name).len() ==> 0 <= #[trigger] displayed(v, name)[a] < v.len()
                && display_name_of(v[displayed(v, name)[a]]) == Some(name),
        forall|a: int, b: int|
            0 <= a < b < displayed(v, name).len() ==> #[trigger] displayed(v, name)[a]
                < #[trigger] displayed(v, name)[b],
        forall|i: int|
            0 <= i < v.len() && display_name_of(#[trigger] v[i]) == Some(name) ==> displayed(
                v,
                name,
            ).contains(i),
    decreases v.len(),
{
    if v.len() > 0 {
        let before = v.drop_last();
        lemma_displayed(before, name);
        let rest = displayed(before, name);
        let all = displayed(v, name);
        assert forall|a: int| 0 <= a < all.len() implies 0 <= #[trigger] all[a] < v.len()
            && display_name_of(v[all[a]]) == Some(name) by {
            if a < rest.len() {
                assert(all[a] == rest[a]);
                assert(before[rest[a]] == v[rest[a]]);
            }
        }
        assert forall|a: int, b: int| 0 <= a < b < all.len() implies #[trigger] all[a]
            < #[trigger] all[b] by {
            assert(all[a] == rest[a]);
            if b < rest.len() {
                assert(all[b] == rest[b]);
            }
        }
        assert forall|i: int|
            0 <= i < v.len() && display_name_of(#[trigger] v[i]) == Some(
                name,
            ) implies all.contains(i) by {
            if i < v.len() - 1 {
                assert(before[i] == v[i]);
                assert(rest.contains(i));
                let a = choose|a: int| 0 <= a < rest.len() && rest[a] == i;
                assert(all[a] == i);
            } else {
                assert(all[all.len() - 1] == i);
            }
        }
    }
}

/// The display name of a session is the one of its record.
pub proof fn law_display_name_is_of_the_record(e: InfoView)
    ensures
        e.metadata is Some ==> display_name_of(e) == e.metadata->0.display_name,
        e.metadata is None ==> display_name_of(e) is None,
{
}

/// What is said of an ambiguous reference: the ids, in order, each on a line
/// of its own behind two blanks.
pub proof fn law_ambiguous_message(reference: Seq<char>, ids: Seq<Seq<char>>)
    ensures
        ambiguous_text(reference, ids) == "Session reference \""@ + reference
            + "\" is ambiguous. Matching stable session IDs:\n"@ + joined(
            sorted(ids).map_values(|s: Seq<char>| "  "@ + s),
            "\n"@,
        ) + "\nUse a stable session ID instead."@,
{
    assert(indented(sorted(ids)) =~= sorted(ids).map_values(|s: Seq<char>| "  "@ + s));
}

/// The ids of a listing are all there, in order, and each once.
pub proof fn law_each_name_once(v: Seq<Seq<char>>)
    requires
        in_order(v),
    ensures
        ascending(once(v)),
        forall|x: Seq<char>| #[trigger] once(v).contains(x) <==> v.contains(x),
        v.len() > 0 ==> once(v).len() > 0 && once(v).last() == v.last(),
    decreases v.len(),
{
    if v.len() > 0 {
        let before = v.drop_last();
        let x = v.last();
        assert forall|i: int, j: int| 0 <= i <= j < before.len() implies crate::text::lex_le(
            #[trigger] before[i],
            #[trigger] before[j],
        ) by {
            assert(before[i] == v[i] && before[j] == v[j]);
        }
        law_each_name_once(before);
        let rest = once(before);
        let all = once(v);
        assert forall|i: int, j: int| 0 <= i < j < all.len() implies crate::text::lex_le(
            #[trigger] all[i],
            #[trigger] all[j],
        ) && all[i] != all[j] by {
            if j < rest.len() {
                assert(all[i] == rest[i] && all[j] == rest[j]);
            } else {
                assert(all[i] == rest[i]);
                assert(rest.contains(rest[i]));
                assert(before.contains(rest[i]));
                let k = choose|k: int| 0 <= k < before.len() && before[k] == rest[i];
                assert(v[k] == rest[i] && v[v.len() - 1] == x);
                assert(crate::text::lex_le(v[k], v[v.len() - 1]));
                assert(rest.last() != x);
                if i < rest.len() - 1 {
                    assert(crate::text::lex_le(rest[i], rest[rest.len() - 1]));
                    assert(rest[i] != rest[rest.len() - 1]);
                    if rest[i] == x {
                        assert(rest.contains(rest[rest.len() - 1]));
                        assert(before.contains(rest.last()));
                        let m = choose|m: int| 0 <= m < before.len() && before[m] == rest.last();
                        assert(v[m] == rest.last());
                        assert(crate::text::lex_le(v[m], v[v.len() - 1]));
                        crate::text::law_order_is_antisymmetric(rest[i], rest.last());
                    }
                }
            }
        }
        assert forall|y: Seq<char>| #[trigger] all.contains(y) <==> v.contains(y) by {
            if all.contains(y) {
                let k = choose|k: int| 0 <= k < all.len() && all[k] == y;
                if k < rest.len() {
                    assert(rest[k] == y);
                    assert(rest.contains(y));
                    let m = choose|m: int| 0 <= m < before.len() && before[m] == y;
                    assert(v[m] == y);
                } else {
                    assert(v[v.len() - 1] == y);
                }
            }
            if v.contains(y) {
                let m = choose|m: int| 0 <= m < v.len() && v[m] == y;
                if m < before.len() {
                    assert(before[m] == y);
                    assert(before.contains(y));
                    assert(rest.contains(y));
                    let k = choose|k: int| 0 <= k < rest.len() && rest[k] == y;
                    assert(all[k] == y);
                } else {
                    assert(all[all.len() - 1] == y);
                }
            }
        }
    }
}

/// The pid to judge a session by: the one of its pid file where there is one;
/// else the daemon's of its record, exactly where the process it names is
/// still the one that was started.
pub proof fn law_pid_of_a_session(
    sidecar: Option<i32>,
    m: MetaView,
    live: Option<Seq<char>>,
)
    ensures
        sidecar is Some ==> judged_pid(sidecar, Some(m), live) == sidecar,
        sidecar is None && start_token(m) is Some && live == start_token(m) ==> judged_pid(
            sidecar,
            Some(m),
            live,
        ) == m.daemon_pid,
        sidecar is None && (start_token(m) is None || live != start_token(m)) ==> judged_pid(
            sidecar,
            Some(m),
            live,
        ) is None,
        sidecar is None ==> judged_pid(sidecar, None, live) is None,
{
}

/// The start token of a process is the twentieth word behind its command,
/// which ends at the last closing parenthesis and a blank.
pub proof fn law_start_token_of_a_process(before: Seq<char>, fields: Seq<char>)
    requires
        !fields.contains(')'),
    ensures
        words(fields).len() >= 20 ==> linux_token(before + seq![')', ' '] + fields) == Some(
            "linux:"@ + words(fields)[19],
        ),
        words(fields).len() < 20 ==> linux_token(before + seq![')', ' '] + fields) is None,
{
    let s = before + seq![')', ' '] + fields;
    let at = before.len() as int;
    assert(s[at] == ')');
    crate::text::law_finding_a_character(s, ')', 0);
    let close = last_index(s, ')');
    if close > at {
        if close == at + 1 {
            assert(s[close] == ' ');
        } else {
            assert(s[close] == fields[close - at - 2]);
        }
    }
    assert(close == at) by {
        if close < at {
            assert(s[at] != ')');
        }
    }
    assert(s.skip(at + 2) =~= fields);
}

} // verus!
