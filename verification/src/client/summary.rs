//! One rendering of "which session is this", for listings and for the lines
//! that a client prints when an attach or a follow ends: a header naming the
//! event, the session's listing line, and the command that leads back.

use super::around;
use super::remote::RemoteSessionRow;
use crate::maps::{
    entries, opt_by_key, opt_entries, ref_entries, tags_at, tags_by_key, tags_clone, tags_get,
    tags_len, TagMap,
};
use crate::pairs::{lemma_key_absent, lookup};
use crate::registry::list::SessionInfo;
use crate::registry::metadata::{MetaView, Pairs, SessionMetadata};
use crate::registry::names::{home_relative, short_path};
use crate::registry::tags::{is_reserved_tag_key, reaps, reserved_key, should_reap_at_exit};
use crate::registry::time::{iso_ms, parse_iso8601_ms};
use crate::text::{dec_int, i64_string, join, joined, lemma_views_push, opt_view, str_eq, views};
use vstd::prelude::*;

verus! {

/// What a client knows about a session beyond its id.
#[derive(Debug, Clone, PartialEq, Eq)]
pub struct SessionSummary {
    /// The stable id.
    pub id: String,
    /// Display name with something in it.
    pub display_name: Option<String>,
    /// Absolute directory; empty when unknown.
    pub cwd: String,
    /// The command as the user typed it.
    pub command: Option<String>,
    pub tags: Option<TagMap>,
    /// When the session was created.
    pub created_at: Option<String>,
    pub ephemeral: bool,
}

/// The mathematical content of a `SessionSummary`.
#[verifier::ext_equal]
pub struct SummaryView {
    pub id: Seq<char>,
    pub display_name: Option<Seq<char>>,
    pub cwd: Seq<char>,
    pub command: Option<Seq<char>>,
    pub tags: Option<Pairs>,
    pub created_at: Option<Seq<char>>,
    pub ephemeral: bool,
}

impl View for SessionSummary {
    type V = SummaryView;

    open spec fn view(&self) -> SummaryView {
        SummaryView {
            id: self.id@,
            display_name: opt_view(self.display_name),
            cwd: self.cwd@,
            command: opt_view(self.command),
            tags: opt_entries(self.tags),
            created_at: opt_view(self.created_at),
            ephemeral: self.ephemeral,
        }
    }
}

impl Default for SessionSummary {
    fn default() -> (r: SessionSummary)
        ensures
            r@ == (SummaryView {
                id: Seq::empty(),
                display_name: None,
                cwd: Seq::empty(),
                command: None,
                tags: None,
                created_at: None,
                ephemeral: false,
            }),
    {
        SessionSummary {
            id: String::new(),
            display_name: None,
            cwd: String::new(),
            command: None,
            tags: None,
            created_at: None,
            ephemeral: false,
        }
    }
}

/// A text with something in it.
pub open spec fn nonempty(v: Option<Seq<char>>) -> Option<Seq<char>> {
    match v {
        Some(s) if s.len() > 0 => Some(s),
        _ => None,
    }
}

/// The summary that a record gives.
pub open spec fn summary_of(id: Seq<char>, m: MetaView) -> SummaryView {
    SummaryView {
        id,
        display_name: nonempty(m.display_name),
        cwd: m.cwd,
        command: Some(m.display_command),
        tags: m.tags,
        created_at: nonempty(Some(m.created_at)),
        ephemeral: m.ephemeral == Some(true),
    }
}

/// The summary of a session of which only the id is known.
pub open spec fn bare_summary(id: Seq<char>) -> SummaryView {
    SummaryView {
        id,
        display_name: None,
        cwd: Seq::empty(),
        command: None,
        tags: None,
        created_at: None,
        ephemeral: false,
    }
}

fn filled_copy(v: &Option<String>) -> (r: Option<String>)
    ensures
        opt_view(r) == nonempty(opt_view(*v)),
{
    match v {
        Some(s) => if s.as_str().is_empty() {
            None
        } else {
            Some(s.clone())
        },
        None => None,
    }
}

fn tags_copy(v: &Option<TagMap>) -> (r: Option<TagMap>)
    ensures
        opt_entries(r) == opt_entries(*v),
{
    match v {
        Some(t) => Some(tags_clone(t)),
        None => None,
    }
}

/// Tags that are shown: all of them, or those that are not reserved.
pub open spec fn shown_tags(tags: Pairs, all: bool) -> Seq<Seq<char>>
    decreases tags.len(),
{
    if tags.len() == 0 {
        Seq::empty()
    } else {
        let before = shown_tags(tags.drop_last(), all);
        if all || !reserved_key(tags.last().0) {
            before.push("#"@ + tags.last().0 + "="@ + tags.last().1)
        } else {
            before
        }
    }
}

/// Tags as hashtags.
pub open spec fn hashtags(tags: Pairs, all: bool) -> Seq<char> {
    let v = shown_tags(tags, all);
    if v.len() == 0 {
        Seq::empty()
    } else {
        " "@ + joined(v, " "@)
    }
}

/// Tags as hashtags; reserved keys are hidden unless `show_all`.
pub fn render_tags(tags: Option<&TagMap>, show_all: bool) -> (r: String)
    ensures
        r@ == hashtags(ref_entries(tags), show_all),
{
    let tags = match tags {
        Some(t) => t,
        None => {
            return String::new();
        },
    };
    let ghost all = entries(*tags);
    let n = tags_len(tags);
    let mut parts: Vec<String> = Vec::new();
    let mut i: usize = 0;
    assert(all.take(0) =~= Pairs::empty());
    assert(views(parts@) =~= shown_tags(all.take(0), show_all));
    while i < n
        invariant
            i <= n,
            n == all.len(),
            all == entries(*tags),
            views(parts@) == shown_tags(all.take(i as int), show_all),
        decreases n - i,
    {
        assert(all.take(i + 1).drop_last() =~= all.take(i as int));
        match tags_at(tags, i) {
            Some((k, v)) => {
                if show_all || !is_reserved_tag_key(k.as_str()) {
                    let mut part = around("#", k.as_str(), "=");
                    part.append(v.as_str());
                    let ghost before = parts@;
                    parts.push(part);
                    proof {
                        lemma_views_push(before, part);
                    }
                }
            },
            None => {},
        }
        i += 1;
    }
    assert(all.take(n as int) =~= all);
    assert(views(parts@).len() == parts@.len());
    if parts.len() == 0 {
        return String::new();
    }
    let list = join(parts.as_slice(), " ");
    let mut out = " ".to_owned();
    out.append(list.as_str());
    out
}

/// The mark of a session's strategy: flapping beats permanent.
pub open spec fn marker(tags: Pairs) -> Seq<char> {
    if lookup(tags, "strategy.status"@) == Some("flapping"@) {
        " \x1b[31m[flapping]\x1b[0m"@
    } else if lookup(tags, "strategy"@) == Some("permanent"@) {
        " \x1b[33m[permanent]\x1b[0m"@
    } else {
        ""@
    }
}

fn tag_is(tags: &TagMap, key: &str, value: &str) -> (r: bool)
    ensures
        r == (lookup(entries(*tags), key@) == Some(value@)),
{
    match tags_get(tags, key) {
        Some(v) => str_eq(v.as_str(), value),
        None => false,
    }
}

/// The mark of a session's strategy: flapping in red beats permanent in
/// yellow.
pub fn strategy_marker(tags: Option<&TagMap>) -> (r: &'static str)
    ensures
        r@ == marker(ref_entries(tags)),
{
    let tags = match tags {
        Some(t) => t,
        None => {
            proof {
                lemma_key_absent(ref_entries(tags), "strategy.status"@);
                lemma_key_absent(ref_entries(tags), "strategy"@);
            }
            return "";
        },
    };
    if tag_is(tags, "strategy.status", "flapping") {
        return " \x1b[31m[flapping]\x1b[0m";
    }
    if tag_is(tags, "strategy", "permanent") {
        return " \x1b[33m[permanent]\x1b[0m";
    }
    ""
}

/// The label of a session: the display name and the id, or the id alone.
pub open spec fn label(dn: Option<Seq<char>>, name: Seq<char>, bold: Seq<char>) -> Seq<char> {
    match dn {
        Some(d) => bold + d + "\x1b[0m \x1b[2m("@ + name + ")\x1b[0m"@,
        None => bold + name + "\x1b[0m"@,
    }
}

/// The view of an optional text.
pub open spec fn str_view(v: Option<&str>) -> Option<Seq<char>> {
    match v {
        Some(s) => Some(s@),
        None => None,
    }
}

/// Render the label of a session.
pub fn render_label(dn: Option<&str>, name: &str, bold: &str) -> (r: String)
    ensures
        r@ == label(str_view(dn), name@, bold@),
{
    match dn {
        Some(d) => {
            let mut s = around(bold, d, "\x1b[0m \x1b[2m(");
            s.append(name);
            s.append(")\x1b[0m");
            s
        },
        None => around(bold, name, "\x1b[0m"),
    }
}

/// How a summary line is decorated.
#[derive(Debug, Clone, Copy)]
pub struct LineStyle<'a> {
    /// Before the label.
    pub prefix: &'a str,
    /// What opens the label.
    pub bold: &'a str,
    /// Behind the tags.
    pub status: &'a str,
    /// Show reserved tag keys too.
    pub show_all_tags: bool,
}

/// The tags of a summary.
pub open spec fn summary_tags(s: SummaryView) -> Pairs {
    match s.tags {
        Some(t) => t,
        None => Seq::empty(),
    }
}

/// The listing line of a session.
pub open spec fn summary_line(
    s: SummaryView,
    prefix: Seq<char>,
    bold: Seq<char>,
    status: Seq<char>,
    all: bool,
    home: Seq<char>,
) -> Seq<char> {
    let cwd = if s.cwd.len() == 0 {
        Seq::empty()
    } else {
        home_relative(s.cwd, home)
    };
    let command = match s.command {
        Some(c) => c,
        None => Seq::empty(),
    };
    prefix + label(s.display_name, s.id, bold) + marker(summary_tags(s)) + hashtags(
        summary_tags(s),
        all,
    ) + status + " — "@ + cwd + " — \x1b[2m"@ + command + "\x1b[0m"@
}

fn opt_str(v: &Option<String>) -> (r: Option<&str>)
    ensures
        str_view(r) == opt_view(*v),
{
    match v {
        Some(s) => Some(s.as_str()),
        None => None,
    }
}

fn opt_tags(v: &Option<TagMap>) -> (r: Option<&TagMap>)
    ensures
        ref_entries(r) == (match *v {
            Some(t) => entries(t),
            None => Seq::empty(),
        }),
{
    match v {
        Some(t) => Some(t),
        None => None,
    }
}

impl SessionSummary {
    /// The summary that a record gives.
    pub fn from_metadata(id: &str, meta: &SessionMetadata) -> (r: SessionSummary)
        ensures
            r@ == summary_of(id@, meta@),
    {
        let created_at = if meta.created_at.as_str().is_empty() {
            None
        } else {
            Some(meta.created_at.clone())
        };
        SessionSummary {
            id: id.to_owned(),
            display_name: filled_copy(&meta.display_name),
            cwd: meta.cwd.clone(),
            command: Some(meta.display_command.clone()),
            tags: tags_copy(&meta.tags),
            created_at,
            ephemeral: match meta.ephemeral {
                Some(b) => b,
                None => false,
            },
        }
    }

    /// A registry entry; one without a record knows its id and nothing else.
    pub fn from_info(info: &SessionInfo) -> (r: SessionSummary)
        ensures
            r@ == (match info.metadata {
                Some(m) => summary_of(info.name@, m@),
                None => bare_summary(info.name@),
            }),
    {
        match &info.metadata {
            Some(meta) => Self::from_metadata(info.name.as_str(), meta),
            None => SessionSummary {
                id: info.name.clone(),
                display_name: None,
                cwd: String::new(),
                command: None,
                tags: None,
                created_at: None,
                ephemeral: false,
            },
        }
    }

    /// A row from a remote host's list. Its tags are ordered by key.
    pub fn from_remote_row(row: &RemoteSessionRow) -> (r: SessionSummary)
        ensures
            r@ == (SummaryView {
                id: row.name@,
                display_name: nonempty(opt_view(row.display_name)),
                cwd: match row.cwd {
                    Some(c) => c@,
                    None => Seq::empty(),
                },
                command: opt_view(row.command),
                tags: opt_by_key(row.tags),
                created_at: None,
                ephemeral: false,
            }),
    {
        SessionSummary {
            id: row.name.clone(),
            display_name: filled_copy(&row.display_name),
            cwd: match &row.cwd {
                Some(c) => c.clone(),
                None => String::new(),
            },
            command: match &row.command {
                Some(c) => Some(c.clone()),
                None => None,
            },
            tags: match &row.tags {
                Some(t) => Some(tags_by_key(t)),
                None => None,
            },
            created_at: None,
            ephemeral: false,
        }
    }

    /// The line of a listing: label, marks, tags and status, the directory, and
    /// the command.
    pub fn line(&self, style: &LineStyle, home: &str) -> (r: String)
        ensures
            r@ == summary_line(
                self@,
                style.prefix@,
                style.bold@,
                style.status@,
                style.show_all_tags,
                home@,
            ),
    {
        let cwd = if self.cwd.as_str().is_empty() {
            String::new()
        } else {
            short_path(self.cwd.as_str(), home)
        };
        let tags = opt_tags(&self.tags);
        let name = render_label(opt_str(&self.display_name), self.id.as_str(), style.bold);
        let list = render_tags(tags, style.show_all_tags);
        let mut s = style.prefix.to_owned();
        s.append(name.as_str());
        s.append(strategy_marker(tags));
        s.append(list.as_str());
        s.append(style.status);
        s.append(" — ");
        s.append(cwd.as_str());
        s.append(" — \x1b[2m");
        s.append(
            match &self.command {
                Some(c) => c.as_str(),
                None => "",
            },
        );
        s.append("\x1b[0m");
        proof {
            reveal_strlit("");
            assert(""@ =~= Seq::<char>::empty());
        }
        s
    }

    /// The display name and the id, or the id alone, without styling.
    pub fn plain_label(&self) -> (r: String)
        ensures
            r@ == plain(self@),
    {
        match &self.display_name {
            Some(d) => {
                let mut s = around(d.as_str(), " (", self.id.as_str());
                s.append(")");
                s
            },
            None => self.id.clone(),
        }
    }

    /// Whether the registry entry outlives the session's exit, so that it can
    /// be restarted.
    pub fn kept_at_exit(&self, reap_default: bool) -> (r: bool)
        ensures
            r == kept(self@, reap_default),
    {
        !should_reap_at_exit(opt_tags(&self.tags), self.ephemeral, reap_default)
    }

    /// How long the session has run, in milliseconds, when its start is known.
    pub fn age(&self, now_ms: i64) -> (r: Option<i128>)
        ensures
            match r {
                Some(n) => run_time(self@, now_ms as int) == Some(n as int),
                None => run_time(self@, now_ms as int) is None,
            },
    {
        match &self.created_at {
            Some(c) => match parse_iso8601_ms(c.as_str()) {
                Some(start) => Some(now_ms as i128 - start as i128),
                None => None,
            },
            None => None,
        }
    }
}

/// The label without styling.
pub open spec fn plain(s: SummaryView) -> Seq<char> {
    match s.display_name {
        Some(d) => d + " ("@ + s.id + ")"@,
        None => s.id,
    }
}

/// Whether a session's entry outlives its exit.
pub open spec fn kept(s: SummaryView, reap_default: bool) -> bool {
    !reaps(summary_tags(s), s.ephemeral, reap_default)
}

/// How long a session has run.
pub open spec fn run_time(s: SummaryView, now: int) -> Option<int> {
    match s.created_at {
        Some(c) => match iso_ms(c) {
            Some(start) => Some(now - start),
            None => None,
        },
        None => None,
    }
}

// ---- trailers ------------------------------------------------------------

/// Why a client stopped showing a session.
#[derive(Debug, Clone, Copy, PartialEq, Eq, Structural)]
pub enum SessionEnd {
    /// The detach key in an attach.
    Detached,
    /// The detach key while following.
    PeekDetached,
    /// The session exited with this code.
    Exited(i32),
    /// A remote host refused the route: the session is gone.
    Ended,
    /// The attempts to reach a remote session ran out.
    ConnectionLost,
}

/// Which session a trailer is about.
#[derive(Debug, Clone, Copy)]
pub struct TrailerTarget<'a> {
    pub id: &'a str,
    /// The peer of a remote session.
    pub peer: Option<&'a str>,
    pub summary: Option<&'a SessionSummary>,
}

/// The command that attaches to a session.
pub open spec fn attach_text(id: Seq<char>, peer: Option<Seq<char>>) -> Seq<char> {
    match peer {
        Some(p) => "pty attach --remote "@ + p + " "@ + id,
        None => "pty attach "@ + id,
    }
}

/// The command that follows a session.
pub open spec fn follow_text(id: Seq<char>, peer: Option<Seq<char>>) -> Seq<char> {
    match peer {
        Some(p) => "pty peek -f --remote "@ + p + " "@ + id,
        None => "pty peek -f "@ + id,
    }
}

/// The header of a trailer. `age` is how long the session ran, as it is shown.
pub open spec fn header_text(end: SessionEnd, id: Seq<char>, age: Option<Seq<char>>) -> Seq<char> {
    match end {
        SessionEnd::Detached | SessionEnd::PeekDetached => "[detached from "@ + id + "]"@,
        SessionEnd::Exited(code) => match age {
            Some(a) => "["@ + id + " exited with code "@ + dec_int(code as int) + " after "@ + a
                + "]"@,
            None => "["@ + id + " exited with code "@ + dec_int(code as int) + "]"@,
        },
        SessionEnd::Ended => "["@ + id + " session ended]"@,
        SessionEnd::ConnectionLost => "[connection lost to "@ + id + "]"@,
    }
}

/// The age that a header shows: only where the target has a summary.
pub open spec fn shown_age(target: TrailerTarget, age: Option<&str>) -> Option<Seq<char>> {
    if target.summary is Some {
        str_view(age)
    } else {
        None
    }
}

/// The next step after the session is no longer shown.
pub open spec fn hint_text(end: SessionEnd, target: TrailerTarget, reap_default: bool) -> Option<
    Seq<char>,
> {
    let id = target.id@;
    let peer = str_view(target.peer);
    match end {
        SessionEnd::Detached => Some("reattach: "@ + attach_text(id, peer)),
        SessionEnd::PeekDetached => Some("reattach: "@ + follow_text(id, peer)),
        SessionEnd::Exited(_) => match target.summary {
            Some(s) if peer is None && kept(s@, reap_default) => Some(
                "restart: "@ + attach_text(id, peer),
            ),
            _ => None,
        },
        SessionEnd::Ended => None,
        SessionEnd::ConnectionLost => Some("reconnect: "@ + attach_text(id, peer)),
    }
}

impl<'a> TrailerTarget<'a> {
    /// The command that attaches to the session.
    pub fn attach_command(&self) -> (r: String)
        ensures
            r@ == attach_text(self.id@, str_view(self.peer)),
    {
        match self.peer {
            Some(p) => {
                let mut s = around("pty attach --remote ", p, " ");
                s.append(self.id);
                s
            },
            None => hint("pty attach ", self.id),
        }
    }

    fn follow_command(&self) -> (r: String)
        ensures
            r@ == follow_text(self.id@, str_view(self.peer)),
    {
        match self.peer {
            Some(p) => {
                let mut s = around("pty peek -f --remote ", p, " ");
                s.append(self.id);
                s
            },
            None => hint("pty peek -f ", self.id),
        }
    }
}

/// The header of a trailer alone, with how long the session ran as it is
/// shown.
pub fn trailer_header(end: SessionEnd, target: &TrailerTarget, age: Option<&str>) -> (r: String)
    ensures
        r@ == header_text(end, target.id@, shown_age(*target, age)),
{
    let id = target.id;
    match end {
        SessionEnd::Detached | SessionEnd::PeekDetached => around("[detached from ", id, "]"),
        SessionEnd::Exited(code) => {
            let number = i64_string(code as i64);
            let mut s = around("[", id, " exited with code ");
            s.append(number.as_str());
            if target.summary.is_some() {
                if let Some(a) = age {
                    s.append(" after ");
                    s.append(a);
                }
            }
            s.append("]");
            s
        },
        SessionEnd::Ended => around("[", id, " session ended]"),
        SessionEnd::ConnectionLost => around("[connection lost to ", id, "]"),
    }
}

/// The next step after the session is no longer shown, if there is one.
pub fn trailer_hint(end: SessionEnd, target: &TrailerTarget, reap_default: bool) -> (r: Option<
    String,
>)
    ensures
        opt_view(r) == hint_text(end, *target, reap_default),
{
    match end {
        SessionEnd::Detached => {
            let command = target.attach_command();
            Some(hint("reattach: ", command.as_str()))
        },
        SessionEnd::PeekDetached => {
            let command = target.follow_command();
            Some(hint("reattach: ", command.as_str()))
        },
        SessionEnd::Exited(_) => match target.summary {
            Some(s) => if target.peer.is_none() && s.kept_at_exit(reap_default) {
                let command = target.attach_command();
                Some(hint("restart: ", command.as_str()))
            } else {
                None
            },
            None => None,
        },
        SessionEnd::Ended => None,
        SessionEnd::ConnectionLost => {
            let command = target.attach_command();
            Some(hint("reconnect: ", command.as_str()))
        },
    }
}

fn hint(before: &str, command: &str) -> (r: String)
    ensures
        r@ == before@ + command@,
{
    let mut s = before.to_owned();
    s.append(command);
    s
}

/// The whole trailer: the header, the session's line and the hint.
pub open spec fn trailer_text(
    end: SessionEnd,
    target: TrailerTarget,
    age: Option<Seq<char>>,
    home: Seq<char>,
    reap_default: bool,
) -> Seq<char> {
    let head = "\r\n"@ + header_text(end, target.id@, age) + "\r\n"@;
    let line = match target.summary {
        Some(s) => summary_line(s@, "  "@, "\x1b[1m"@, ""@, false, home) + "\r\n"@,
        None => Seq::empty(),
    };
    let tail = match hint_text(end, target, reap_default) {
        Some(h) => "  "@ + h + "\r\n"@,
        None => Seq::empty(),
    };
    head + line + tail
}

/// Render the trailer; the caller writes the terminal reset before it.
pub fn render_trailer(
    end: SessionEnd,
    target: &TrailerTarget,
    age: Option<&str>,
    home: &str,
    reap_default: bool,
) -> (r: String)
    ensures
        r@ == trailer_text(end, *target, shown_age(*target, age), home@, reap_default),
{
    let header = trailer_header(end, target, age);
    let mut out = around("\r\n", header.as_str(), "\r\n");
    let mut line = String::new();
    if let Some(s) = target.summary {
        let style = LineStyle { prefix: "  ", bold: "\x1b[1m", status: "", show_all_tags: false };
        line = s.line(&style, home);
        line.append("\r\n");
    }
    let mut tail = String::new();
    if let Some(h) = trailer_hint(end, target, reap_default) {
        tail = around("  ", h.as_str(), "\r\n");
    }
    out.append(line.as_str());
    out.append(tail.as_str());
    out
}

/// The line that is printed when an interactive attach starts.
pub open spec fn banner(label: Seq<char>) -> Seq<char> {
    "[attached to "@ + label + " — press Ctrl+\\ to detach]\n"@
}

/// The line that is printed when an interactive attach starts.
pub fn attach_banner(id: &str, summary: Option<&SessionSummary>) -> (r: String)
    ensures
        r@ == banner(
            match summary {
                Some(s) => plain(s@),
                None => id@,
            },
        ),
{
    let name = match summary {
        Some(s) => s.plain_label(),
        None => id.to_owned(),
    };
    around("[attached to ", name.as_str(), " — press Ctrl+\\ to detach]\n")
}

/// A session that ended for good is followed by no hint; one that was detached
/// from always is.
pub proof fn law_hints(target: TrailerTarget, reap_default: bool)
    ensures
        hint_text(SessionEnd::Ended, target, reap_default) is None,
        hint_text(SessionEnd::Detached, target, reap_default) is Some,
        hint_text(SessionEnd::PeekDetached, target, reap_default) is Some,
        hint_text(SessionEnd::ConnectionLost, target, reap_default) is Some,
{
}

/// What a summary says of a record: an empty name or time is none.
pub proof fn law_summary_of_a_record(id: Seq<char>, m: MetaView, s: Seq<char>)
    ensures
        ({
            let r = summary_of(id, m);
            &&& r.id == id && r.cwd == m.cwd && r.command == Some(m.display_command)
            &&& r.tags == m.tags && r.ephemeral == (m.ephemeral == Some(true))
            &&& r.display_name is Some <==> m.display_name is Some && m.display_name->0.len() > 0
            &&& r.display_name is Some ==> r.display_name == m.display_name
            &&& r.created_at == (if m.created_at.len() > 0 {
                Some(m.created_at)
            } else {
                None
            })
        }),
        ({
            let b = bare_summary(id);
            &&& b.id == id && b.display_name is None && b.cwd.len() == 0 && b.command is None
            &&& b.tags is None && b.created_at is None && !b.ephemeral
        }),
        s.len() > 0 ==> nonempty(Some(s)) == Some(s),
        s.len() == 0 ==> nonempty(Some(s)) is None,
        nonempty(None) is None,
{
}

/// The tags that are shown: `#key=value` for each that is not reserved, or for
/// all where that is asked for, in order and with a blank before each.
pub proof fn law_shown_tags(tags: Pairs, key: Seq<char>, value: Seq<char>, all: bool)
    ensures
        shown_tags(Seq::empty(), all).len() == 0,
        all || !reserved_key(key) ==> shown_tags(tags.push((key, value)), all) == shown_tags(
            tags,
            all,
        ).push("#"@ + key + "="@ + value),
        !all && reserved_key(key) ==> shown_tags(tags.push((key, value)), all) == shown_tags(
            tags,
            all,
        ),
        shown_tags(tags, all).len() == 0 ==> hashtags(tags, all).len() == 0,
        shown_tags(tags, all).len() > 0 ==> hashtags(tags, all) == " "@ + joined(
            shown_tags(tags, all),
            " "@,
        ),
{
    assert(tags.push((key, value)).drop_last() =~= tags);
    assert(tags.push((key, value)).last() == (key, value));
}

/// The marker of a session: flapping comes before permanent.
pub proof fn law_markers(tags: Pairs)
    ensures
        lookup(tags, "strategy.status"@) == Some("flapping"@) ==> marker(tags)
            == " \x1b[31m[flapping]\x1b[0m"@,
        lookup(tags, "strategy.status"@) != Some("flapping"@) && lookup(tags, "strategy"@) == Some(
            "permanent"@,
        ) ==> marker(tags) == " \x1b[33m[permanent]\x1b[0m"@,
        lookup(tags, "strategy.status"@) != Some("flapping"@) && lookup(tags, "strategy"@) != Some(
            "permanent"@,
        ) ==> marker(tags).len() == 0,
{
    reveal_strlit("");
}

/// The label of a session: its display name with the id behind it, or the id.
pub proof fn law_labels(d: Seq<char>, id: Seq<char>, bold: Seq<char>, s: SummaryView)
    ensures
        label(Some(d), id, bold) == bold + d + "\x1b[0m \x1b[2m("@ + id + ")\x1b[0m"@,
        label(None, id, bold) == bold + id + "\x1b[0m"@,
        s.display_name is Some ==> plain(s) == s.display_name->0 + " ("@ + s.id + ")"@,
        s.display_name is None ==> plain(s) == s.id,
        banner(id) == "[attached to "@ + id + " — press Ctrl+\\ to detach]\n"@,
{
}

/// The line of a session: its label, its marker, its tags, its status, where it
/// runs and what it runs, in this order.
pub proof fn law_line_of_a_session(
    s: SummaryView,
    prefix: Seq<char>,
    bold: Seq<char>,
    status: Seq<char>,
    all: bool,
    home: Seq<char>,
    command: Seq<char>,
    tags: Pairs,
)
    requires
        s.cwd.len() > 0,
        s.command == Some(command),
        s.tags == Some(tags),
    ensures
        summary_line(s, prefix, bold, status, all, home) == prefix + label(
            s.display_name,
            s.id,
            bold,
        ) + marker(tags) + hashtags(tags, all) + status + " — "@ + home_relative(s.cwd, home)
            + " — \x1b[2m"@ + command + "\x1b[0m"@,
{
}

/// The line of a session of which only the id is known.
pub proof fn law_line_of_a_bare_session(id: Seq<char>, prefix: Seq<char>, bold: Seq<char>, home: Seq<char>)
    ensures
        summary_line(bare_summary(id), prefix, bold, Seq::empty(), false, home) == prefix + bold
            + id + "\x1b[0m"@ + " — "@ + " — \x1b[2m"@ + "\x1b[0m"@,
{
    reveal_strlit("");
    let t = summary_tags(bare_summary(id));
    assert(t.len() == 0);
    assert(lookup(t, "strategy.status"@) is None);
    assert(lookup(t, "strategy"@) is None);
    assert(marker(t).len() == 0);
    assert(hashtags(t, false).len() == 0);
    assert(summary_line(bare_summary(id), prefix, bold, Seq::empty(), false, home) =~= prefix
        + bold + id + "\x1b[0m"@ + " — "@ + " — \x1b[2m"@ + "\x1b[0m"@);
}

/// A session is kept where it is not reaped, and it runs since it was created.
pub proof fn law_kept_sessions(s: SummaryView, reap_default: bool, now: int)
    ensures
        s.tags is None ==> summary_tags(s).len() == 0,
        s.tags is Some ==> summary_tags(s) == s.tags->0,
        kept(s, reap_default) <==> !reaps(summary_tags(s), s.ephemeral, reap_default),
        s.created_at is None ==> run_time(s, now) is None,
        s.created_at is Some && iso_ms(s.created_at->0) is None ==> run_time(s, now) is None,
        s.created_at is Some && iso_ms(s.created_at->0) is Some ==> run_time(s, now) == Some(
            now - iso_ms(s.created_at->0)->0,
        ),
{
}

/// The commands that lead back to a session.
pub proof fn law_commands_back(id: Seq<char>, peer: Seq<char>)
    ensures
        attach_text(id, None) == "pty attach "@ + id,
        attach_text(id, Some(peer)) == "pty attach --remote "@ + peer + " "@ + id,
        follow_text(id, None) == "pty peek -f "@ + id,
        follow_text(id, Some(peer)) == "pty peek -f --remote "@ + peer + " "@ + id,
{
}

/// What is said at the end: how it ended, and for an exit the code and the age
/// where it is known.
pub proof fn law_headers(id: Seq<char>, code: i32, age: Seq<char>, a: Option<Seq<char>>)
    ensures
        header_text(SessionEnd::Detached, id, a) == "[detached from "@ + id + "]"@,
        header_text(SessionEnd::PeekDetached, id, a) == "[detached from "@ + id + "]"@,
        header_text(SessionEnd::Exited(code), id, Some(age)) == "["@ + id + " exited with code "@
            + dec_int(code as int) + " after "@ + age + "]"@,
        header_text(SessionEnd::Exited(code), id, None) == "["@ + id + " exited with code "@
            + dec_int(code as int) + "]"@,
        header_text(SessionEnd::Ended, id, a) == "["@ + id + " session ended]"@,
        header_text(SessionEnd::ConnectionLost, id, a) == "[connection lost to "@ + id + "]"@,
{
}

/// What is suggested at the end: the command that leads back; after an exit only
/// for a session of this machine that is known and kept.
pub proof fn law_suggestions(t: TrailerTarget, code: i32, reap_default: bool)
    ensures
        hint_text(SessionEnd::Detached, t, reap_default) == Some(
            "reattach: "@ + attach_text(t.id@, str_view(t.peer)),
        ),
        hint_text(SessionEnd::PeekDetached, t, reap_default) == Some(
            "reattach: "@ + follow_text(t.id@, str_view(t.peer)),
        ),
        hint_text(SessionEnd::ConnectionLost, t, reap_default) == Some(
            "reconnect: "@ + attach_text(t.id@, str_view(t.peer)),
        ),
        t.peer is None && t.summary is Some && kept(t.summary->0@, reap_default) ==> hint_text(
            SessionEnd::Exited(code),
            t,
            reap_default,
        ) == Some("restart: "@ + attach_text(t.id@, None)),
        t.peer is Some || t.summary is None || !kept(t.summary->0@, reap_default) ==> hint_text(
            SessionEnd::Exited(code),
            t,
            reap_default,
        ) is None,
{
}

/// The trailer: the header on a line of its own, the session's line where it is
/// known, and the suggestion where there is one.
pub proof fn law_trailers(
    end: SessionEnd,
    t: TrailerTarget,
    age: Option<Seq<char>>,
    home: Seq<char>,
    reap_default: bool,
)
    ensures
        t.summary is None && hint_text(end, t, reap_default) is None ==> trailer_text(
            end,
            t,
            age,
            home,
            reap_default,
        ) == "\r\n"@ + header_text(end, t.id@, age) + "\r\n"@,
        t.summary is None && hint_text(end, t, reap_default) is Some ==> trailer_text(
            end,
            t,
            age,
            home,
            reap_default,
        ) == "\r\n"@ + header_text(end, t.id@, age) + "\r\n"@ + ("  "@ + hint_text(
            end,
            t,
            reap_default,
        )->0 + "\r\n"@),
        t.summary is Some && hint_text(end, t, reap_default) is Some ==> trailer_text(
            end,
            t,
            age,
            home,
            reap_default,
        ) == "\r\n"@ + header_text(end, t.id@, age) + "\r\n"@ + (summary_line(
            t.summary->0@,
            "  "@,
            "\x1b[1m"@,
            ""@,
            false,
            home,
        ) + "\r\n"@) + ("  "@ + hint_text(end, t, reap_default)->0 + "\r\n"@),
        t.summary is Some && hint_text(end, t, reap_default) is None ==> trailer_text(
            end,
            t,
            age,
            home,
            reap_default,
        ) == "\r\n"@ + header_text(end, t.id@, age) + "\r\n"@ + (summary_line(
            t.summary->0@,
            "  "@,
            "\x1b[1m"@,
            ""@,
            false,
            home,
        ) + "\r\n"@),
{
    let head = "\r\n"@ + header_text(end, t.id@, age) + "\r\n"@;
    assert(head + Seq::<char>::empty() =~= head);
    if t.summary is Some {
        let line = summary_line(t.summary->0@, "  "@, "\x1b[1m"@, ""@, false, home) + "\r\n"@;
        assert(head + line + Seq::<char>::empty() =~= head + line);
    }
}

/// Two summaries with the same content are the same in every field; an age is
/// shown only of a session that is known.
pub proof fn law_summaries_are_told_apart(a: SessionSummary, b: SessionSummary, t: TrailerTarget, age: &str)
    ensures
        a@ == b@ ==> a.id@ == b.id@ && opt_view(a.display_name) == opt_view(b.display_name)
            && a.cwd@ == b.cwd@ && opt_view(a.command) == opt_view(b.command) && opt_entries(a.tags)
            == opt_entries(b.tags) && opt_view(a.created_at) == opt_view(b.created_at)
            && a.ephemeral == b.ephemeral,
        t.summary is Some ==> shown_age(t, Some(age)) == Some(age@),
        t.summary is None ==> shown_age(t, Some(age)) is None,
        shown_age(t, None) is None,
        str_view(Some(age)) == Some(age@) && str_view(None) is None,
{
}

} // verus!
