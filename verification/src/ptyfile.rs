//! `pty.toml` manifests. A manifest declares named sessions that are started
//! and stopped together:
//!
//! ```toml
//! prefix = "myapp"
//!
//! [sessions.web]
//! command = "node server.js"
//! cwd = ".."
//!
//! [sessions.web.env]
//! PORT = "3000"
//! ```

use crate::manifest::{read_toml, toml_read, Toml, TomlEntries, TomlTable, TomlView};
use crate::maps::{entries, opt_entries, tags_at, tags_insert, tags_len, tags_new, EnvMap, TagMap};
use crate::pairs::{distinct_keys, lemma_key_absent, lookup, put};
use crate::paths::{absolute, is_absolute, normal, normalize, AboveTop};
use crate::registry::metadata::Pairs;
use crate::registry::root::{join_path, under};
use crate::text::{
    dec_int, i64_string, index_from, join, joined, law_finding_a_character, law_joining,
    lemma_views_push, opt_view, to_chars, views,
};
use vstd::prelude::*;

verus! {

/// A single session definition of a manifest.
#[derive(Debug, Clone, PartialEq, Eq)]
pub struct PtySessionDef {
    /// The label: `<prefix>-<name>` by default, or `display_name`.
    pub display_name: String,
    /// The name as written in the manifest.
    pub short_name: String,
    /// The id on disk that `id` asks for.
    pub id: Option<String>,
    pub command: String,
    /// The working directory, resolved against that of the manifest.
    pub cwd: Option<String>,
    /// Tags in the order of the manifest.
    pub tags: Option<TagMap>,
    pub env: Option<EnvMap>,
}

/// The mathematical content of a `PtySessionDef`.
#[verifier::ext_equal]
pub struct SessionDefView {
    pub display_name: Seq<char>,
    pub short_name: Seq<char>,
    pub id: Option<Seq<char>>,
    pub command: Seq<char>,
    pub cwd: Option<Seq<char>>,
    pub tags: Option<Pairs>,
    pub env: Option<Pairs>,
}

impl View for PtySessionDef {
    type V = SessionDefView;

    open spec fn view(&self) -> SessionDefView {
        SessionDefView {
            display_name: self.display_name@,
            short_name: self.short_name@,
            id: opt_view(self.id),
            command: self.command@,
            cwd: opt_view(self.cwd),
            tags: opt_entries(self.tags),
            env: opt_entries(self.env),
        }
    }
}

/// The contents of a list of definitions.
pub open spec fn defs(v: Seq<PtySessionDef>) -> Seq<SessionDefView> {
    Seq::new(v.len(), |i: int| v[i]@)
}

/// A manifest.
#[derive(Debug, Clone)]
pub struct PtyFile {
    pub dir: String,
    pub prefix: Option<String>,
    pub sessions: Vec<PtySessionDef>,
}

/// The mathematical content of a `PtyFile`.
#[verifier::ext_equal]
pub struct PtyFileView {
    pub dir: Seq<char>,
    pub prefix: Option<Seq<char>>,
    pub sessions: Seq<SessionDefView>,
}

impl View for PtyFile {
    type V = PtyFileView;

    open spec fn view(&self) -> PtyFileView {
        PtyFileView {
            dir: self.dir@,
            prefix: opt_view(self.prefix),
            sessions: defs(self.sessions@),
        }
    }
}

/// `p` against `base`: an absolute path stays, a relative one is joined; then
/// `.` and `..` are resolved.
pub open spec fn against(base: Seq<char>, p: Seq<char>) -> Seq<char> {
    normal(
        if absolute(p) {
            p
        } else {
            under(base, p)
        },
        AboveTop::Keep,
    )
}

/// Computes `against`.
pub fn resolve_against(base: &str, p: &str) -> (r: String)
    ensures
        r@ == against(base@, p@),
{
    if is_absolute(p) {
        normalize(p, AboveTop::Keep)
    } else {
        let joined_path = join_path(base, p);
        normalize(joined_path.as_str(), AboveTop::Keep)
    }
}

/// The directory of a manifest: the one asked for, against the current one,
/// or the current one as it stands.
pub open spec fn manifest_dir(dir: Option<Seq<char>>, cwd: Seq<char>) -> Seq<char> {
    match dir {
        Some(d) => against(cwd, d),
        None => cwd,
    }
}

/// The view of an optional directory.
pub open spec fn dir_opt(dir: Option<&str>) -> Option<Seq<char>> {
    match dir {
        Some(d) => Some(d@),
        None => None,
    }
}

/// Computes `manifest_dir`.
pub fn resolve_dir(dir: Option<&str>, cwd: &str) -> (r: String)
    ensures
        r@ == manifest_dir(dir_opt(dir), cwd@),
{
    match dir {
        Some(d) => resolve_against(cwd, d),
        None => cwd.to_owned(),
    }
}

/// The path of the manifest in a directory.
pub fn manifest_path(dir: &str) -> (r: String)
    ensures
        r@ == under(dir@, "pty.toml"@),
{
    join_path(dir, "pty.toml")
}

/// What reading the manifest gave.
#[derive(Debug)]
pub enum ManifestRead {
    /// There is no such file.
    NotFound,
    /// It could not be read, for this reason.
    Failed(String),
    /// Its text.
    Text(String),
}

// ---- the model -----------------------------------------------------------

/// The text of a value that is a string with something in it.
pub open spec fn nonempty_text(v: Option<TomlView>) -> Option<Seq<char>> {
    match v {
        Some(TomlView::Str(s)) if s.len() > 0 => Some(s),
        _ => None,
    }
}

/// A value as text.
pub open spec fn shown_value(v: TomlView) -> Seq<char> {
    match v {
        TomlView::Str(s) => s,
        TomlView::Int(n) => dec_int(n as int),
        TomlView::Bool(b) => if b {
            "true"@
        } else {
            "false"@
        },
        TomlView::Table(_, text) => text,
        TomlView::Other(text) => text,
    }
}

/// The tags of a table: every value as text.
pub open spec fn tags_shown(t: TomlEntries) -> Pairs
    decreases t.len(),
{
    if t.len() == 0 {
        Seq::empty()
    } else {
        put(tags_shown(t.drop_last()), t.last().0, shown_value(t.last().1))
    }
}

/// The start of a message about a session.
pub open spec fn about(display: Seq<char>, file: Seq<char>) -> Seq<char> {
    "Session \""@ + display + "\" in "@ + file
}

/// The environment of a table: every value must be a string.
pub open spec fn env_in(t: TomlEntries, display: Seq<char>, file: Seq<char>) -> Result<
    Pairs,
    Seq<char>,
>
    decreases t.len(),
{
    if t.len() == 0 {
        Ok(Seq::empty())
    } else {
        match env_in(t.drop_last(), display, file) {
            Err(e) => Err(e),
            Ok(before) => match t.last().1 {
                TomlView::Str(s) => Ok(put(before, t.last().0, s)),
                _ => Err(
                    about(display, file) + ": env."@ + t.last().0 + " must be a string"@,
                ),
            },
        }
    }
}

/// The label of a session that sets none.
pub open spec fn default_label(prefix: Option<Seq<char>>, name: Seq<char>) -> Seq<char> {
    match prefix {
        Some(p) => p + "-"@ + name,
        None => name,
    }
}

/// A field that must be a string with something in it where it is there.
pub open spec fn text_field(
    d: TomlEntries,
    key: Seq<char>,
    display: Seq<char>,
    file: Seq<char>,
) -> Result<Option<Seq<char>>, Seq<char>> {
    match lookup(d, key) {
        None => Ok(None),
        Some(v) => match nonempty_text(Some(v)) {
            Some(s) => Ok(Some(s)),
            None => Err(about(display, file) + ": \""@ + key + "\" must be a non-empty string"@),
        },
    }
}

/// The environment of a session.
pub open spec fn env_field(d: TomlEntries, display: Seq<char>, file: Seq<char>) -> Result<
    Option<Pairs>,
    Seq<char>,
> {
    match lookup(d, "env"@) {
        None => Ok(None),
        Some(TomlView::Table(t, _)) => match env_in(t, display, file) {
            Ok(p) => Ok(Some(p)),
            Err(e) => Err(e),
        },
        Some(_) => Err(about(display, file) + ": \"env\" must be a table of string values"@),
    }
}

/// The tags of a session.
pub open spec fn tags_field(d: TomlEntries) -> Option<Pairs> {
    match lookup(d, "tags"@) {
        Some(TomlView::Table(t, _)) => Some(tags_shown(t)),
        _ => None,
    }
}

/// The session that a definition means, or what is wrong with it: the command
/// first, then the label, the id, the environment and the directory.
pub open spec fn session_in(
    name: Seq<char>,
    def: TomlView,
    prefix: Option<Seq<char>>,
    dir: Seq<char>,
    file: Seq<char>,
) -> Result<SessionDefView, Seq<char>> {
    let label = default_label(prefix, name);
    match def {
        TomlView::Table(d, _) => match nonempty_text(lookup(d, "command"@)) {
            None => Err(about(label, file) + " is missing a \"command\" field"@),
            Some(command) => match text_field(d, "display_name"@, label, file) {
                Err(e) => Err(e),
                Ok(display) => match text_field(d, "id"@, label, file) {
                    Err(e) => Err(e),
                    Ok(id) => match env_field(d, label, file) {
                        Err(e) => Err(e),
                        Ok(env) => match text_field(d, "cwd"@, label, file) {
                            Err(e) => Err(e),
                            Ok(cwd) => Ok(
                                SessionDefView {
                                    display_name: match display {
                                        Some(s) => s,
                                        None => label,
                                    },
                                    short_name: name,
                                    id,
                                    command,
                                    cwd: match cwd {
                                        Some(p) => Some(against(dir, p)),
                                        None => None,
                                    },
                                    tags: tags_field(d),
                                    env,
                                },
                            ),
                        },
                    },
                },
            },
        },
        _ => Err("Invalid session \""@ + label + "\" in "@ + file + ": expected a table"@),
    }
}

/// The sessions of a table, or what is wrong with the first bad one.
pub open spec fn sessions_in(
    t: TomlEntries,
    prefix: Option<Seq<char>>,
    dir: Seq<char>,
    file: Seq<char>,
) -> Result<Seq<SessionDefView>, Seq<char>>
    decreases t.len(),
{
    if t.len() == 0 {
        Ok(Seq::empty())
    } else {
        match sessions_in(t.drop_last(), prefix, dir, file) {
            Err(e) => Err(e),
            Ok(before) => match session_in(t.last().0, t.last().1, prefix, dir, file) {
                Err(e) => Err(e),
                Ok(s) => Ok(before.push(s)),
            },
        }
    }
}

/// The sessions that a document declares.
pub open spec fn declared(doc: TomlEntries) -> TomlEntries {
    match lookup(doc, "sessions"@) {
        Some(TomlView::Table(t, _)) => t,
        _ => Seq::empty(),
    }
}

/// The manifest that a document means, or what is wrong with it.
pub open spec fn manifest_in(doc: TomlEntries, dir: Seq<char>) -> Result<PtyFileView, Seq<char>> {
    let file = under(dir, "pty.toml"@);
    let prefix = nonempty_text(lookup(doc, "prefix"@));
    match sessions_in(declared(doc), prefix, dir, file) {
        Err(e) => Err(e),
        Ok(sessions) => if sessions.len() == 0 {
            Err("No sessions defined in "@ + file)
        } else {
            Ok(PtyFileView { dir, prefix, sessions })
        },
    }
}

/// The manifest that a read gave, or what is wrong with it.
pub open spec fn manifest_of(dir: Seq<char>, read: ManifestRead) -> Result<PtyFileView, Seq<char>> {
    match read {
        ManifestRead::NotFound => Err("No pty.toml found in "@ + dir),
        ManifestRead::Failed(e) => Err(e@),
        ManifestRead::Text(text) => match toml_read(text@) {
            Err(e) => Err("Invalid pty.toml in "@ + dir + ": "@ + e),
            Ok(TomlView::Table(doc, _)) => manifest_in(doc, dir),
            Ok(_) => Err("No sessions defined in "@ + under(dir, "pty.toml"@)),
        },
    }
}

// ---- the reader ----------------------------------------------------------

fn filled(v: Option<&Toml>) -> (r: Option<String>)
    ensures
        opt_view(r) == nonempty_text(
            match v {
                Some(t) => Some(t@),
                None => None,
            },
        ),
{
    match v {
        Some(Toml::Str(s)) => if s.as_str().is_empty() {
            None
        } else {
            Some(s.clone())
        },
        _ => None,
    }
}

fn value_to_string(v: &Toml) -> (r: String)
    ensures
        r@ == shown_value(v@),
{
    match v {
        Toml::Str(s) => s.clone(),
        Toml::Int(n) => i64_string(*n),
        Toml::Bool(b) => if *b {
            "true".to_owned()
        } else {
            "false".to_owned()
        },
        Toml::Table(t) => t.text.clone(),
        Toml::Other(s) => s.clone(),
    }
}

fn message(display: &str, file: &str, rest: &str) -> (r: String)
    ensures
        r@ == about(display@, file@) + rest@,
{
    let mut m = "Session \"".to_owned();
    m.append(display);
    m.append("\" in ");
    m.append(file);
    m.append(rest);
    m
}

fn read_tags(t: &TomlTable) -> (r: TagMap)
    ensures
        entries(r) == tags_shown(t@),
{
    let mut m = tags_new();
    let mut i: usize = 0;
    assert(t@.take(0) =~= TomlEntries::empty());
    while i < t.entries.len()
        invariant
            i <= t.entries@.len(),
            t@.len() == t.entries@.len(),
            entries(m) == tags_shown(t@.take(i as int)),
        decreases t.entries.len() - i,
    {
        assert(t@.take(i + 1).drop_last() =~= t@.take(i as int));
        assert(t@[i as int] == (t.entries@[i as int].0@, t.entries@[i as int].1@));
        let value = value_to_string(&t.entries[i].1);
        tags_insert(&mut m, t.entries[i].0.clone(), value);
        i += 1;
    }
    assert(t@.take(t@.len() as int) =~= t@);
    m
}

/// An error of a beginning is that of the whole.
proof fn lemma_env_error(t: TomlEntries, display: Seq<char>, file: Seq<char>, k: int)
    requires
        0 <= k <= t.len(),
        env_in(t.take(k), display, file) is Err,
    ensures
        env_in(t, display, file) == env_in(t.take(k), display, file),
    decreases t.len(),
{
    if k == t.len() {
        assert(t.take(k) =~= t);
    } else {
        assert(t.drop_last().take(k) =~= t.take(k));
        lemma_env_error(t.drop_last(), display, file, k);
    }
}

fn read_env(t: &TomlTable, display: &str, file: &str) -> (r: Result<EnvMap, String>)
    ensures
        match r {
            Ok(m) => env_in(t@, display@, file@) == Ok::<Pairs, Seq<char>>(entries(m)),
            Err(e) => env_in(t@, display@, file@) == Err::<Pairs, Seq<char>>(e@),
        },
{
    let mut m = tags_new();
    let mut i: usize = 0;
    assert(t@.take(0) =~= TomlEntries::empty());
    while i < t.entries.len()
        invariant
            i <= t.entries@.len(),
            t@.len() == t.entries@.len(),
            env_in(t@.take(i as int), display@, file@) == Ok::<Pairs, Seq<char>>(entries(m)),
        decreases t.entries.len() - i,
    {
        assert(t@.take(i + 1).drop_last() =~= t@.take(i as int));
        assert(t@[i as int] == (t.entries@[i as int].0@, t.entries@[i as int].1@));
        match &t.entries[i].1 {
            Toml::Str(s) => tags_insert(&mut m, t.entries[i].0.clone(), s.clone()),
            _ => {
                let mut text = message(display, file, ": env.");
                text.append(t.entries[i].0.as_str());
                text.append(" must be a string");
                proof {
                    lemma_env_error(t@, display@, file@, i + 1);
                }
                return Err(text);
            },
        }
        i += 1;
    }
    assert(t@.take(t@.len() as int) =~= t@);
    Ok(m)
}

fn read_text_field(d: &TomlTable, key: &str, display: &str, file: &str) -> (r: Result<
    Option<String>,
    String,
>)
    ensures
        match r {
            Ok(v) => text_field(d@, key@, display@, file@) == Ok::<Option<Seq<char>>, Seq<char>>(
                opt_view(v),
            ),
            Err(e) => text_field(d@, key@, display@, file@) == Err::<Option<Seq<char>>, Seq<char>>(
                e@,
            ),
        },
{
    match d.get(key) {
        None => Ok(None),
        Some(v) => match filled(Some(v)) {
            Some(s) => Ok(Some(s)),
            None => {
                let mut m = message(display, file, ": \"");
                m.append(key);
                m.append("\" must be a non-empty string");
                Err(m)
            },
        },
    }
}

fn read_env_field(d: &TomlTable, display: &str, file: &str) -> (r: Result<Option<EnvMap>, String>)
    ensures
        match r {
            Ok(v) => env_field(d@, display@, file@) == Ok::<Option<Pairs>, Seq<char>>(
                opt_entries(v),
            ),
            Err(e) => env_field(d@, display@, file@) == Err::<Option<Pairs>, Seq<char>>(e@),
        },
{
    match d.get("env") {
        None => Ok(None),
        Some(Toml::Table(t)) => match read_env(t, display, file) {
            Ok(m) => Ok(Some(m)),
            Err(e) => Err(e),
        },
        Some(_) => Err(message(display, file, ": \"env\" must be a table of string values")),
    }
}

fn label_of(prefix: &Option<String>, name: &str) -> (r: String)
    ensures
        r@ == default_label(opt_view(*prefix), name@),
{
    match prefix {
        Some(p) => {
            let mut s = p.clone();
            s.append("-");
            s.append(name);
            s
        },
        None => name.to_owned(),
    }
}

fn read_session(
    name: &str,
    def: &Toml,
    prefix: &Option<String>,
    dir: &str,
    file: &str,
) -> (r: Result<PtySessionDef, String>)
    ensures
        match r {
            Ok(s) => session_in(name@, def@, opt_view(*prefix), dir@, file@) == Ok::<
                SessionDefView,
                Seq<char>,
            >(s@),
            Err(e) => session_in(name@, def@, opt_view(*prefix), dir@, file@) == Err::<
                SessionDefView,
                Seq<char>,
            >(e@),
        },
{
    let label = label_of(prefix, name);
    let d = match def {
        Toml::Table(t) => t,
        _ => {
            let mut m = "Invalid session \"".to_owned();
            m.append(label.as_str());
            m.append("\" in ");
            m.append(file);
            m.append(": expected a table");
            return Err(m);
        },
    };
    let command = match filled(d.get("command")) {
        Some(c) => c,
        None => {
            return Err(message(label.as_str(), file, " is missing a \"command\" field"));
        },
    };
    let display = match read_text_field(d, "display_name", label.as_str(), file) {
        Ok(v) => v,
        Err(e) => {
            return Err(e);
        },
    };
    let id = match read_text_field(d, "id", label.as_str(), file) {
        Ok(v) => v,
        Err(e) => {
            return Err(e);
        },
    };
    let tags = match d.get("tags") {
        Some(Toml::Table(t)) => Some(read_tags(t)),
        _ => None,
    };
    let env = match read_env_field(d, label.as_str(), file) {
        Ok(v) => v,
        Err(e) => {
            return Err(e);
        },
    };
    let cwd = match read_text_field(d, "cwd", label.as_str(), file) {
        Ok(Some(p)) => Some(resolve_against(dir, p.as_str())),
        Ok(None) => None,
        Err(e) => {
            return Err(e);
        },
    };
    let display_name = match display {
        Some(s) => s,
        None => label,
    };
    Ok(PtySessionDef { display_name, short_name: name.to_owned(), id, command, cwd, tags, env })
}

/// An error of a beginning is that of the whole.
proof fn lemma_sessions_error(
    t: TomlEntries,
    prefix: Option<Seq<char>>,
    dir: Seq<char>,
    file: Seq<char>,
    k: int,
)
    requires
        0 <= k <= t.len(),
        sessions_in(t.take(k), prefix, dir, file) is Err,
    ensures
        sessions_in(t, prefix, dir, file) == sessions_in(t.take(k), prefix, dir, file),
    decreases t.len(),
{
    if k == t.len() {
        assert(t.take(k) =~= t);
    } else {
        assert(t.drop_last().take(k) =~= t.take(k));
        lemma_sessions_error(t.drop_last(), prefix, dir, file, k);
    }
}

fn read_sessions(t: &TomlTable, prefix: &Option<String>, dir: &str, file: &str) -> (r: Result<
    Vec<PtySessionDef>,
    String,
>)
    ensures
        match r {
            Ok(v) => sessions_in(t@, opt_view(*prefix), dir@, file@) == Ok::<
                Seq<SessionDefView>,
                Seq<char>,
            >(defs(v@)),
            Err(e) => sessions_in(t@, opt_view(*prefix), dir@, file@) == Err::<
                Seq<SessionDefView>,
                Seq<char>,
            >(e@),
        },
{
    let mut out: Vec<PtySessionDef> = Vec::new();
    let mut i: usize = 0;
    assert(t@.take(0) =~= TomlEntries::empty());
    assert(defs(out@) =~= Seq::<SessionDefView>::empty());
    while i < t.entries.len()
        invariant
            i <= t.entries@.len(),
            t@.len() == t.entries@.len(),
            sessions_in(t@.take(i as int), opt_view(*prefix), dir@, file@) == Ok::<
                Seq<SessionDefView>,
                Seq<char>,
            >(defs(out@)),
        decreases t.entries.len() - i,
    {
        assert(t@.take(i + 1).drop_last() =~= t@.take(i as int));
        assert(t@[i as int] == (t.entries@[i as int].0@, t.entries@[i as int].1@));
        match read_session(t.entries[i].0.as_str(), &t.entries[i].1, prefix, dir, file) {
            Ok(s) => {
                let ghost before = defs(out@);
                let ghost v = s@;
                out.push(s);
                assert(defs(out@) =~= before.push(v));
            },
            Err(e) => {
                proof {
                    lemma_sessions_error(t@, opt_view(*prefix), dir@, file@, i + 1);
                }
                return Err(e);
            },
        }
        i += 1;
    }
    assert(t@.take(t@.len() as int) =~= t@);
    Ok(out)
}

/// The manifest that a document means, or what is wrong with it.
pub fn read_manifest(doc: &TomlTable, dir: &str) -> (r: Result<PtyFile, String>)
    ensures
        match r {
            Ok(f) => manifest_in(doc@, dir@) == Ok::<PtyFileView, Seq<char>>(f@),
            Err(e) => manifest_in(doc@, dir@) == Err::<PtyFileView, Seq<char>>(e@),
        },
{
    let file = manifest_path(dir);
    let prefix = filled(doc.get("prefix"));
    let mut sessions: Vec<PtySessionDef> = Vec::new();
    assert(defs(sessions@) =~= Seq::<SessionDefView>::empty());
    match doc.get("sessions") {
        Some(Toml::Table(t)) => match read_sessions(t, &prefix, dir, file.as_str()) {
            Ok(v) => {
                sessions = v;
            },
            Err(e) => {
                return Err(e);
            },
        },
        _ => {},
    }
    assert(defs(sessions@).len() == sessions@.len());
    if sessions.len() == 0 {
        let mut m = "No sessions defined in ".to_owned();
        m.append(file.as_str());
        return Err(m);
    }
    Ok(PtyFile { dir: dir.to_owned(), prefix, sessions })
}

/// The manifest in a directory, from what reading the file gave.
pub fn read_pty_file(dir: &str, read: ManifestRead) -> (r: Result<PtyFile, String>)
    ensures
        match r {
            Ok(f) => manifest_of(dir@, read) == Ok::<PtyFileView, Seq<char>>(f@),
            Err(e) => manifest_of(dir@, read) == Err::<PtyFileView, Seq<char>>(e@),
        },
{
    match read {
        ManifestRead::NotFound => {
            let mut m = "No pty.toml found in ".to_owned();
            m.append(dir);
            Err(m)
        },
        ManifestRead::Failed(e) => Err(e),
        ManifestRead::Text(text) => match read_toml(text.as_str()) {
            Ok(doc) => read_manifest(&doc, dir),
            Err(e) => {
                let mut m = "Invalid pty.toml in ".to_owned();
                m.append(dir);
                m.append(": ");
                m.append(e.as_str());
                Err(m)
            },
        },
    }
}

// ---- the shell payload ---------------------------------------------------

/// A text inside single quotes: each single quote closes them, stands behind
/// a backslash, and opens them again.
pub open spec fn quoted(s: Seq<char>) -> Seq<char>
    decreases s.len(),
{
    if s.len() == 0 {
        Seq::empty()
    } else if s.last() == '\'' {
        quoted(s.drop_last()) + "'\\''"@
    } else {
        quoted(s.drop_last()).push(s.last())
    }
}

/// The `export` of each variable.
pub open spec fn exports(env: Pairs) -> Seq<Seq<char>> {
    Seq::new(env.len(), |i: int| "export "@ + env[i].0 + "='"@ + quoted(env[i].1) + "'"@)
}

/// The payload of `/bin/sh -c` for a session.
pub open spec fn payload(s: SessionDefView) -> Seq<char> {
    match s.env {
        Some(env) if env.len() > 0 => joined(exports(env), "; "@) + "; "@ + s.command,
        _ => s.command,
    }
}

fn quote(s: &str) -> (r: String)
    ensures
        r@ == quoted(s@),
{
    let chars = to_chars(s);
    let mut out = String::new();
    let mut i: usize = 0;
    assert(chars@.take(0) =~= Seq::<char>::empty());
    while i < chars.len()
        invariant
            i <= chars@.len(),
            out@ == quoted(chars@.take(i as int)),
        decreases chars.len() - i,
    {
        assert(chars@.take(i + 1).drop_last() =~= chars@.take(i as int));
        if chars[i] == '\'' {
            out.append("'\\''");
        } else {
            out.push(chars[i]);
        }
        i += 1;
    }
    assert(chars@.take(chars@.len() as int) =~= chars@);
    out
}

/// Build the `/bin/sh -c` payload for a session: `export K='V'; ...` from its
/// environment, followed by the command.
pub fn command_with_env_exports(sess: &PtySessionDef) -> (r: String)
    ensures
        r@ == payload(sess@),
{
    let env = match &sess.env {
        Some(e) => e,
        None => {
            return sess.command.clone();
        },
    };
    let n = tags_len(env);
    if n == 0 {
        return sess.command.clone();
    }
    let ghost want = exports(entries(*env));
    let mut parts: Vec<String> = Vec::new();
    let mut i: usize = 0;
    assert(views(parts@) =~= want.take(0));
    while i < n
        invariant
            i <= n,
            n == entries(*env).len(),
            want == exports(entries(*env)),
            views(parts@) == want.take(i as int),
        decreases n - i,
    {
        match tags_at(env, i) {
            Some((k, v)) => {
                let value = quote(v.as_str());
                let mut part = "export ".to_owned();
                part.append(k.as_str());
                part.append("='");
                part.append(value.as_str());
                part.append("'");
                let ghost before = parts@;
                assert(part@ == want[i as int]);
                parts.push(part);
                proof {
                    lemma_views_push(before, part);
                    assert(want.take(i + 1) =~= want.take(i as int).push(want[i as int]));
                }
            },
            None => {},
        }
        i += 1;
    }
    assert(want.take(n as int) =~= want);
    let mut out = join(parts.as_slice(), "; ");
    out.append("; ");
    out.append(sess.command.as_str());
    out
}

// ---- laws ----------------------------------------------------------------

/// A manifest that is accepted has a session, each with a command and a
/// label.
pub proof fn law_accepted_sessions_are_runnable(
    t: TomlEntries,
    prefix: Option<Seq<char>>,
    dir: Seq<char>,
    file: Seq<char>,
)
    requires
        sessions_in(t, prefix, dir, file) is Ok,
    ensures
        sessions_in(t, prefix, dir, file)->Ok_0.len() == t.len(),
        forall|i: int|
            0 <= i < t.len() ==> {
                let s = #[trigger] sessions_in(t, prefix, dir, file)->Ok_0[i];
                s.command.len() > 0 && s.short_name == t[i].0
            },
    decreases t.len(),
{
    if t.len() > 0 {
        law_accepted_sessions_are_runnable(t.drop_last(), prefix, dir, file);
        let before = sessions_in(t.drop_last(), prefix, dir, file)->Ok_0;
        let all = sessions_in(t, prefix, dir, file)->Ok_0;
        assert forall|i: int| 0 <= i < t.len() implies {
            let s = #[trigger] all[i];
            s.command.len() > 0 && s.short_name == t[i].0
        } by {
            if i < t.len() - 1 {
                assert(all[i] == before[i]);
                assert(t.drop_last()[i] == t[i]);
            }
        }
    }
}

/// How a shell reads single quotes: the text that quoting leaves, with the
/// quotes open or not at its end. A backslash outside the quotes keeps the
/// character behind it.
pub open spec fn unquoted(s: Seq<char>, open: bool) -> Seq<char>
    decreases s.len(),
{
    if s.len() == 0 {
        Seq::empty()
    } else if s[0] == '\'' {
        unquoted(s.skip(1), !open)
    } else if !open && s[0] == '\\' && s.len() > 1 {
        seq![s[1]] + unquoted(s.skip(2), open)
    } else {
        seq![s[0]] + unquoted(s.skip(1), open)
    }
}

/// Reading what follows a quoted text.
proof fn lemma_unquoted(s: Seq<char>, rest: Seq<char>)
    ensures
        unquoted(quoted(s) + rest, true) == s + unquoted(rest, true),
    decreases s.len(),
{
    if s.len() == 0 {
        assert(quoted(s) + rest =~= rest);
        assert(s + unquoted(rest, true) =~= unquoted(rest, true));
    } else {
        let c = s.last();
        let before = s.drop_last();
        if c == '\'' {
            reveal_strlit("'\\''");
            let q = "'\\''"@;
            assert(q =~= seq!['\'', '\\', '\'', '\'']);
            let tail = q + rest;
            assert(quoted(s) + rest =~= quoted(before) + tail);
            lemma_unquoted(before, tail);
            let t1 = tail.skip(1);
            let t3 = t1.skip(2);
            let t4 = t3.skip(1);
            assert(t1[0] == '\\' && t1[1] == '\'');
            assert(t3[0] == '\'');
            assert(t4 =~= rest);
            assert(unquoted(t3, false) == unquoted(rest, true));
            assert(unquoted(t1, false) == seq!['\''] + unquoted(rest, true));
            assert(unquoted(tail, true) == seq!['\''] + unquoted(rest, true));
        } else {
            let tail = seq![c] + rest;
            assert(quoted(s) + rest =~= quoted(before) + tail);
            lemma_unquoted(before, tail);
            assert(tail.skip(1) =~= rest);
        }
        assert(before + (seq![c] + unquoted(rest, true)) =~= s + unquoted(rest, true));
    }
}

/// The shell reads the quoted value back as it was, whatever it holds.
pub proof fn law_quoting_is_read_back(s: Seq<char>)
    ensures
        unquoted("'"@ + quoted(s) + "'"@, false) == s,
{
    reveal_strlit("'");
    assert("'"@ =~= seq!['\'']);
    let all = "'"@ + quoted(s) + "'"@;
    assert(all.skip(1) =~= quoted(s) + "'"@);
    lemma_unquoted(s, "'"@);
    assert("'"@.skip(1) =~= Seq::<char>::empty());
    assert(unquoted("'"@.skip(1), false) =~= Seq::<char>::empty());
    assert("'"@[0] == '\'');
    assert(s + Seq::<char>::empty() =~= s);
}

/// A word as a shell reads it, up to a blank or a semicolon outside quotes:
/// what it stands for, and what follows it. A single quote opens or closes
/// quotes; outside them a backslash keeps the character behind it.
pub open spec fn shell_word(s: Seq<char>, open: bool) -> (Seq<char>, Seq<char>)
    decreases s.len(),
{
    if s.len() == 0 || (!open && (s[0] == ';' || s[0] == ' ')) {
        (Seq::empty(), s)
    } else if s[0] == '\'' {
        shell_word(s.skip(1), !open)
    } else if !open && s[0] == '\\' && s.len() > 1 {
        let (word, rest) = shell_word(s.skip(2), open);
        (seq![s[1]] + word, rest)
    } else {
        let (word, rest) = shell_word(s.skip(1), open);
        (seq![s[0]] + word, rest)
    }
}

/// A statement of a shell that puts a variable into the environment of what
/// follows: `export`, a blank, a name, `=`, a word, a semicolon and a blank.
/// The name, the value, and what follows. An assignment without `export` is no
/// such statement.
pub open spec fn export_statement(s: Seq<char>) -> Option<(Seq<char>, Seq<char>, Seq<char>)> {
    let e = seq!['e', 'x', 'p', 'o', 'r', 't', ' '];
    let at = index_from(s, '=', 7);
    if s.len() >= 7 && s.take(7) == e && at < s.len() {
        let (word, rest) = shell_word(s.skip(at + 1), false);
        if rest.len() >= 2 && rest[0] == ';' && rest[1] == ' ' {
            Some((s.subrange(7, at), word, rest.skip(2)))
        } else {
            None
        }
    } else {
        None
    }
}

/// The variables that the first `n` statements of a shell text export, in
/// order, and what follows them.
pub open spec fn exported(s: Seq<char>, n: nat) -> Option<(Pairs, Seq<char>)>
    decreases n,
{
    if n == 0 {
        Some((Seq::empty(), s))
    } else {
        match export_statement(s) {
            Some((name, value, rest)) => match exported(rest, (n - 1) as nat) {
                Some((more, command)) => Some((seq![(name, value)] + more, command)),
                None => None,
            },
            None => None,
        }
    }
}

/// Reading a quoted text as a word.
proof fn lemma_word_quoted(s: Seq<char>, rest: Seq<char>)
    ensures
        shell_word(quoted(s) + rest, true).0 == s + shell_word(rest, true).0,
        shell_word(quoted(s) + rest, true).1 == shell_word(rest, true).1,
    decreases s.len(),
{
    if s.len() == 0 {
        assert(quoted(s) + rest =~= rest);
        assert(s + shell_word(rest, true).0 =~= shell_word(rest, true).0);
    } else {
        let c = s.last();
        let before = s.drop_last();
        if c == '\'' {
            reveal_strlit("'\\''");
            let q = "'\\''"@;
            assert(q =~= seq!['\'', '\\', '\'', '\'']);
            let tail = q + rest;
            assert(quoted(s) + rest =~= quoted(before) + tail);
            lemma_word_quoted(before, tail);
            let t1 = tail.skip(1);
            let t3 = t1.skip(2);
            let t4 = t3.skip(1);
            assert(t1[0] == '\\' && t1[1] == '\'');
            assert(t3[0] == '\'');
            assert(t4 =~= rest);
            assert(shell_word(t3, false) == shell_word(rest, true));
            assert(shell_word(t1, false).0 == seq!['\''] + shell_word(rest, true).0);
            assert(shell_word(tail, true) == shell_word(t1, false));
        } else {
            let tail = seq![c] + rest;
            assert(quoted(s) + rest =~= quoted(before) + tail);
            lemma_word_quoted(before, tail);
            assert(tail.skip(1) =~= rest);
            assert(tail[0] == c);
        }
        assert(before + (seq![c] + shell_word(rest, true).0) =~= s + shell_word(rest, true).0);
    }
}

/// Reading the export of one variable as a statement.
proof fn lemma_export_is_read(name: Seq<char>, value: Seq<char>, rest: Seq<char>)
    requires
        !name.contains('='),
    ensures
        export_statement(
            "export "@ + name + "='"@ + quoted(value) + "'"@ + "; "@ + rest,
        ) == Some((name, value, rest)),
{
    reveal_strlit("export ");
    reveal_strlit("='");
    reveal_strlit("'");
    reveal_strlit("; ");
    let e = "export "@;
    assert(e =~= seq!['e', 'x', 'p', 'o', 'r', 't', ' ']);
    let s = e + name + "='"@ + quoted(value) + "'"@ + "; "@ + rest;
    assert(s.take(7) =~= e);
    let at = 7 + name.len() as int;
    assert(s[at] == '=');
    law_finding_a_character(s, '=', 7);
    let found = index_from(s, '=', 7);
    if found < at {
        assert(s[found] == name[found - 7]);
    }
    assert(found == at) by {
        if found > at {
            assert(s[at] != '=');
        }
    }
    assert(s.subrange(7, at) =~= name);
    let follow = "; "@ + rest;
    let close = "'"@ + follow;
    let word = s.skip(at + 1);
    assert(word =~= seq!['\''] + (quoted(value) + close));
    assert(word[0] == '\'');
    assert(word.skip(1) =~= quoted(value) + close);
    lemma_word_quoted(value, close);
    assert(close[0] == '\'');
    assert(close.skip(1) =~= follow);
    assert(follow[0] == ';' && follow[1] == ' ');
    assert(shell_word(follow, false) == (Seq::<char>::empty(), follow));
    assert(shell_word(close, true) == shell_word(follow, false));
    assert(value + Seq::<char>::empty() =~= value);
    assert(shell_word(word, false) == shell_word(quoted(value) + close, true));
    assert(follow.skip(2) =~= rest);
}

proof fn lemma_exports_are_read(env: Pairs, command: Seq<char>)
    requires
        env.len() > 0,
        forall|i: int| 0 <= i < env.len() ==> !(#[trigger] env[i]).0.contains('='),
    ensures
        exported(joined(exports(env), "; "@) + "; "@ + command, env.len()) == Some((env, command)),
    decreases env.len(),
{
    let (name, value) = env[0];
    let first = "export "@ + name + "='"@ + quoted(value) + "'"@;
    let sep = "; "@;
    let parts = exports(env);
    let text = joined(parts, sep) + sep + command;
    assert(parts[0] == first);
    assert(!env[0].0.contains('='));
    if env.len() == 1 {
        assert(parts =~= seq![first]);
        lemma_export_is_read(name, value, command);
        assert(text =~= first + sep + command);
        assert(exported(command, 0) == Some((Seq::<(Seq<char>, Seq<char>)>::empty(), command)));
        assert(seq![(name, value)] + Seq::<(Seq<char>, Seq<char>)>::empty() =~= env);
    } else {
        let more = env.skip(1);
        assert forall|i: int| 0 <= i < more.len() implies !(#[trigger] more[i]).0.contains(
            '=',
        ) by {
            assert(more[i] == env[i + 1]);
        }
        lemma_exports_are_read(more, command);
        let rest = joined(exports(more), sep) + sep + command;
        lemma_export_is_read(name, value, rest);
        assert(parts =~= seq![first] + exports(more));
        law_joining(seq![first], exports(more), sep, first);
        assert(text =~= first + sep + rest);
        assert(seq![(name, value)] + more =~= env);
    }
}

/// The shell that runs a session reads its payload as one `export` for each
/// variable of the environment, with exactly its value whatever that holds,
/// and then the command as it was written. (A name with an equals sign is left
/// out: a shell ends the name there.)
pub proof fn law_command_runs_in_its_environment(s: SessionDefView)
    requires
        s.env matches Some(env) ==> forall|i: int|
            0 <= i < env.len() ==> !(#[trigger] env[i]).0.contains('='),
    ensures
        s.env matches Some(env) ==> exported(payload(s), env.len()) == Some((env, s.command)),
        s.env is None ==> payload(s) == s.command,
{
    if s.env is Some {
        let env = s.env->0;
        if env.len() > 0 {
            lemma_exports_are_read(env, s.command);
        } else {
            assert(env =~= Seq::<(Seq<char>, Seq<char>)>::empty());
        }
    }
}

/// How a value of a manifest is shown as a tag: a text as it stands, a number
/// in decimal, and truth values in words.
pub proof fn law_values_as_text(s: Seq<char>, n: i64)
    ensures
        shown_value(TomlView::Str(s)) == s,
        shown_value(TomlView::Int(n)) == dec_int(n as int),
        shown_value(TomlView::Bool(true)) == "true"@,
        shown_value(TomlView::Bool(false)) == "false"@,
        shown_value(TomlView::Other(s)) == s,
{
}

/// The tags of a table are its entries, in order, each value as text.
pub proof fn law_tags_of_a_table(t: TomlEntries)
    requires
        distinct_keys(t),
    ensures
        tags_shown(t).len() == t.len(),
        forall|i: int|
            0 <= i < t.len() ==> #[trigger] tags_shown(t)[i] == (t[i].0, shown_value(t[i].1)),
    decreases t.len(),
{
    if t.len() > 0 {
        let before = t.drop_last();
        assert forall|i: int, j: int| 0 <= i < j < before.len() implies (#[trigger] before[i]).0
            != (#[trigger] before[j]).0 by {
            assert(before[i] == t[i] && before[j] == t[j]);
        }
        law_tags_of_a_table(before);
        let tags = tags_shown(before);
        assert forall|i: int| 0 <= i < tags.len() implies (#[trigger] tags[i]).0
            != t.last().0 by {
            assert(before[i] == t[i]);
            assert(t[i].0 != t[t.len() - 1].0);
        }
        lemma_key_absent(tags, t.last().0);
        assert forall|i: int| 0 <= i < t.len() implies #[trigger] tags_shown(t)[i] == (
            t[i].0,
            shown_value(t[i].1),
        ) by {
            if i < t.len() - 1 {
                assert(tags_shown(t)[i] == tags[i]);
                assert(before[i] == t[i]);
            }
        }
    }
}

/// The environment of a table is its entries, in order, and every value must
/// be a text: the first that is not is named in the refusal.
pub proof fn law_environment_of_a_table(t: TomlEntries, display: Seq<char>, file: Seq<char>, k: int)
    requires
        distinct_keys(t),
    ensures
        (forall|i: int| 0 <= i < t.len() ==> (#[trigger] t[i]).1 is Str) ==> (env_in(
            t,
            display,
            file,
        ) matches Ok(env) && env.len() == t.len() && (forall|i: int|
            0 <= i < t.len() ==> (#[trigger] env[i]) == (t[i].0, t[i].1->Str_0))),
        0 <= k < t.len() && !(t[k].1 is Str) && (forall|i: int|
            0 <= i < k ==> (#[trigger] t[i]).1 is Str) ==> env_in(t, display, file) == Err::<
            Pairs,
            Seq<char>,
        >("Session \""@ + display + "\" in "@ + file + ": env."@ + t[k].0 + " must be a string"@),
    decreases t.len(),
{
    if t.len() > 0 {
        let before = t.drop_last();
        assert forall|i: int, j: int| 0 <= i < j < before.len() implies (#[trigger] before[i]).0
            != (#[trigger] before[j]).0 by {
            assert(before[i] == t[i] && before[j] == t[j]);
        }
        law_environment_of_a_table(before, display, file, k);
        assert forall|i: int| 0 <= i < before.len() implies #[trigger] before[i] == t[i] by {}
        if forall|i: int| 0 <= i < t.len() ==> (#[trigger] t[i]).1 is Str {
            assert(forall|i: int| 0 <= i < before.len() ==> (#[trigger] before[i]).1 is Str);
            let env = env_in(before, display, file)->Ok_0;
            assert forall|i: int| 0 <= i < env.len() implies (#[trigger] env[i]).0
                != t.last().0 by {
                assert(env[i].0 == before[i].0);
                assert(t[i].0 != t[t.len() - 1].0);
            }
            lemma_key_absent(env, t.last().0);
            assert(t[t.len() - 1].1 is Str);
            let all = env_in(t, display, file)->Ok_0;
            assert(all == env.push((t.last().0, t.last().1->Str_0)));
            assert forall|i: int| 0 <= i < t.len() implies (#[trigger] all[i]) == (
                t[i].0,
                t[i].1->Str_0,
            ) by {
                if i < t.len() - 1 {
                    assert(all[i] == env[i]);
                    assert(before[i] == t[i]);
                }
            }
        }
        if 0 <= k < t.len() && !(t[k].1 is Str) && (forall|i: int|
            0 <= i < k ==> (#[trigger] t[i]).1 is Str) {
            if k < before.len() {
                assert(before[k] == t[k]);
                assert(forall|i: int| 0 <= i < k ==> (#[trigger] before[i]).1 is Str);
            } else {
                assert(forall|i: int| 0 <= i < before.len() ==> (#[trigger] before[i]).1 is Str);
                assert(env_in(before, display, file) is Ok);
            }
        }
    }
}

/// What a session of a manifest is: its command, id and label are the texts
/// that its table gives, the label of one that gives none is its name behind
/// the prefix and a dash, its directory is that of the table against the
/// manifest's, and its environment and tags are those of the table.
pub proof fn law_session_of_a_table(
    name: Seq<char>,
    d: TomlEntries,
    text: Seq<char>,
    prefix: Option<Seq<char>>,
    dir: Seq<char>,
    file: Seq<char>,
    s: SessionDefView,
)
    requires
        session_in(name, TomlView::Table(d, text), prefix, dir, file) == Ok::<
            SessionDefView,
            Seq<char>,
        >(s),
    ensures
        lookup(d, "command"@) == Some(TomlView::Str(s.command)) && s.command.len() > 0,
        s.short_name == name,
        lookup(d, "display_name"@) is Some ==> lookup(d, "display_name"@) == Some(
            TomlView::Str(s.display_name),
        ) && s.display_name.len() > 0,
        lookup(d, "display_name"@) is None && prefix is Some ==> s.display_name == prefix->0
            + seq!['-'] + name,
        lookup(d, "display_name"@) is None && prefix is None ==> s.display_name == name,
        lookup(d, "id"@) is None <==> s.id is None,
        s.id is Some ==> lookup(d, "id"@) == Some(TomlView::Str(s.id->0)) && s.id->0.len() > 0,
        lookup(d, "cwd"@) is None <==> s.cwd is None,
        s.cwd is Some ==> (lookup(d, "cwd"@) matches Some(TomlView::Str(p)) && p.len() > 0
            && s.cwd == Some(against(dir, p))),
        lookup(d, "env"@) is None <==> s.env is None,
        s.env is Some ==> (lookup(d, "env"@) matches Some(TomlView::Table(t, _)) && env_in(
            t,
            if prefix is Some {
                prefix->0 + seq!['-'] + name
            } else {
                name
            },
            file,
        ) == Ok::<Pairs, Seq<char>>(s.env->0)),
        s.tags is Some <==> (lookup(d, "tags"@) matches Some(TomlView::Table(_, _))),
        s.tags is Some ==> (lookup(d, "tags"@) matches Some(TomlView::Table(t, _)) && s.tags
            == Some(tags_shown(t))),
{
    reveal_strlit("-");
    assert("-"@ =~= seq!['-']);
}

/// When a session of a manifest is refused: without a command that holds
/// something, and with a label, an id or a directory that is no such text.
pub proof fn law_refused_sessions(
    name: Seq<char>,
    def: TomlView,
    prefix: Option<Seq<char>>,
    dir: Seq<char>,
    file: Seq<char>,
    label: Seq<char>,
)
    requires
        label == (if prefix is Some {
            prefix->0 + seq!['-'] + name
        } else {
            name
        }),
    ensures
        !(def is Table) ==> session_in(name, def, prefix, dir, file) == Err::<
            SessionDefView,
            Seq<char>,
        >("Invalid session \""@ + label + "\" in "@ + file + ": expected a table"@),
        def matches TomlView::Table(d, _) && !(lookup(d, "command"@) matches Some(
            TomlView::Str(c),
        ) && c.len() > 0) ==> session_in(name, def, prefix, dir, file) == Err::<
            SessionDefView,
            Seq<char>,
        >("Session \""@ + label + "\" in "@ + file + " is missing a \"command\" field"@),
        def matches TomlView::Table(d, _) && (lookup(d, "cwd"@) is Some && !(lookup(
            d,
            "cwd"@,
        ) matches Some(TomlView::Str(c)) && c.len() > 0)) ==> session_in(
            name,
            def,
            prefix,
            dir,
            file,
        ) is Err,
        def matches TomlView::Table(d, _) && (lookup(d, "id"@) is Some && !(lookup(
            d,
            "id"@,
        ) matches Some(TomlView::Str(c)) && c.len() > 0)) ==> session_in(
            name,
            def,
            prefix,
            dir,
            file,
        ) is Err,
        def matches TomlView::Table(d, _) && (lookup(d, "env"@) is Some && !(lookup(
            d,
            "env"@,
        ) matches Some(TomlView::Table(_, _)))) ==> session_in(name, def, prefix, dir, file) is Err,
{
    reveal_strlit("-");
    assert("-"@ =~= seq!['-']);
}

/// A manifest's sessions are those of its table, in order; the first bad one is
/// what is refused.
pub proof fn law_sessions_of_a_manifest(
    t: TomlEntries,
    prefix: Option<Seq<char>>,
    dir: Seq<char>,
    file: Seq<char>,
    k: int,
)
    ensures
        (forall|i: int|
            0 <= i < t.len() ==> session_in((#[trigger] t[i]).0, t[i].1, prefix, dir, file) is Ok)
            ==> (sessions_in(t, prefix, dir, file) matches Ok(v) && v.len() == t.len() && (forall|
            i: int,
        |
            0 <= i < t.len() ==> session_in(t[i].0, t[i].1, prefix, dir, file) == Ok::<
                SessionDefView,
                Seq<char>,
            >(#[trigger] v[i]))),
        0 <= k < t.len() && session_in(t[k].0, t[k].1, prefix, dir, file) is Err && (forall|i: int|
            0 <= i < k ==> session_in((#[trigger] t[i]).0, t[i].1, prefix, dir, file) is Ok)
            ==> sessions_in(t, prefix, dir, file) is Err && sessions_in(
            t,
            prefix,
            dir,
            file,
        )->Err_0 == session_in(t[k].0, t[k].1, prefix, dir, file)->Err_0,
    decreases t.len(),
{
    if t.len() > 0 {
        let before = t.drop_last();
        law_sessions_of_a_manifest(before, prefix, dir, file, k);
        assert forall|i: int| 0 <= i < before.len() implies #[trigger] before[i] == t[i] by {}
        if forall|i: int|
            0 <= i < t.len() ==> session_in((#[trigger] t[i]).0, t[i].1, prefix, dir, file) is Ok {
            assert(forall|i: int|
                0 <= i < before.len() ==> session_in(
                    (#[trigger] before[i]).0,
                    before[i].1,
                    prefix,
                    dir,
                    file,
                ) is Ok);
            assert(t[t.len() - 1] == t.last());
            let some = sessions_in(before, prefix, dir, file)->Ok_0;
            let all = sessions_in(t, prefix, dir, file)->Ok_0;
            assert forall|i: int| 0 <= i < t.len() implies session_in(
                t[i].0,
                t[i].1,
                prefix,
                dir,
                file,
            ) == Ok::<SessionDefView, Seq<char>>(#[trigger] all[i]) by {
                if i < before.len() {
                    assert(all[i] == some[i]);
                    assert(before[i] == t[i]);
                }
            }
        }
        if 0 <= k < t.len() && session_in(t[k].0, t[k].1, prefix, dir, file) is Err && (forall|
            i: int,
        |
            0 <= i < k ==> session_in((#[trigger] t[i]).0, t[i].1, prefix, dir, file) is Ok) {
            if k < before.len() {
                assert(before[k] == t[k]);
                assert(forall|i: int|
                    0 <= i < k ==> session_in(
                        (#[trigger] before[i]).0,
                        before[i].1,
                        prefix,
                        dir,
                        file,
                    ) is Ok);
            } else {
                assert(forall|i: int|
                    0 <= i < before.len() ==> session_in(
                        (#[trigger] before[i]).0,
                        before[i].1,
                        prefix,
                        dir,
                        file,
                    ) is Ok);
                assert(sessions_in(before, prefix, dir, file) is Ok);
                assert(t[k] == t.last());
            }
        }
    }
}

/// What a document means: its sessions table under its prefix, and a refusal
/// where it declares none.
pub proof fn law_manifest_of_a_document(doc: TomlEntries, dir: Seq<char>, f: PtyFileView)
    requires
        manifest_in(doc, dir) == Ok::<PtyFileView, Seq<char>>(f),
    ensures
        f.dir == dir,
        f.prefix is Some ==> lookup(doc, "prefix"@) == Some(TomlView::Str(f.prefix->0))
            && f.prefix->0.len() > 0,
        lookup(doc, "prefix"@) matches Some(TomlView::Str(p)) && p.len() > 0 ==> f.prefix is Some,
        f.sessions.len() > 0,
        lookup(doc, "sessions"@) matches Some(TomlView::Table(t, _)) && sessions_in(
            t,
            f.prefix,
            dir,
            under(dir, "pty.toml"@),
        ) == Ok::<Seq<SessionDefView>, Seq<char>>(f.sessions),
{
}

/// What is said of a manifest that is not there, cannot be read, cannot be
/// parsed or declares nothing.
pub proof fn law_refused_manifests(dir: Seq<char>, doc: TomlEntries, text: String, e: String)
    ensures
        manifest_of(dir, ManifestRead::NotFound) == Err::<PtyFileView, Seq<char>>(
            "No pty.toml found in "@ + dir,
        ),
        manifest_of(dir, ManifestRead::Failed(e)) == Err::<PtyFileView, Seq<char>>(e@),
        toml_read(text@) is Err ==> manifest_of(dir, ManifestRead::Text(text)) == Err::<
            PtyFileView,
            Seq<char>,
        >("Invalid pty.toml in "@ + dir + ": "@ + toml_read(text@)->Err_0),
        toml_read(text@) matches Ok(TomlView::Table(d, _)) ==> manifest_of(
            dir,
            ManifestRead::Text(text),
        ) == manifest_in(d, dir),
        !(lookup(doc, "sessions"@) matches Some(TomlView::Table(_, _))) ==> manifest_in(doc, dir)
            == Err::<PtyFileView, Seq<char>>("No sessions defined in "@ + under(dir, "pty.toml"@)),
{
}

/// A path of a manifest is taken against its directory: an absolute one stands
/// for itself, a relative one lies under the directory.
pub proof fn law_paths_of_a_manifest(base: Seq<char>, p: Seq<char>, cwd: Seq<char>)
    ensures
        p.len() > 0 && p[0] == '/' ==> against(base, p) == normal(p, AboveTop::Keep),
        p.len() > 0 && p[0] != '/' && base.len() > 0 && base.last() != '/' ==> against(base, p)
            == normal(base + seq!['/'] + p, AboveTop::Keep),
        manifest_dir(None, cwd) == cwd,
        manifest_dir(Some(p), cwd) == against(cwd, p),
{
    crate::paths::law_absolute_paths(p, AboveTop::Keep);
    crate::registry::root::law_paths_under_a_root(base, p);
}

/// Two definitions with the same content are the same in every field.
pub proof fn law_definitions_are_told_apart(a: PtySessionDef, b: PtySessionDef)
    requires
        a@ == b@,
    ensures
        a.display_name@ == b.display_name@ && a.short_name@ == b.short_name@ && opt_view(a.id)
            == opt_view(b.id) && a.command@ == b.command@ && opt_view(a.cwd) == opt_view(b.cwd)
            && opt_entries(a.tags) == opt_entries(b.tags) && opt_entries(a.env) == opt_entries(
            b.env,
        ),
{
}

/// A field that is a text: it may be missing, and where it is there it is a text
/// with something in it.
pub proof fn law_fields_of_a_session(
    d: TomlEntries,
    key: Seq<char>,
    display: Seq<char>,
    file: Seq<char>,
    s: Seq<char>,
)
    ensures
        lookup(d, key) is None ==> text_field(d, key, display, file) == Ok::<
            Option<Seq<char>>,
            Seq<char>,
        >(None),
        lookup(d, key) == Some(TomlView::Str(s)) && s.len() > 0 ==> text_field(
            d,
            key,
            display,
            file,
        ) == Ok::<Option<Seq<char>>, Seq<char>>(Some(s)),
        (lookup(d, key) is Some && !(lookup(d, key)->0 is Str)) || (lookup(d, key) == Some(
            TomlView::Str(s),
        ) && s.len() == 0) ==> text_field(d, key, display, file) == Err::<
            Option<Seq<char>>,
            Seq<char>,
        >(
            "Session \""@ + display + "\" in "@ + file + ": \""@ + key
                + "\" must be a non-empty string"@,
        ),
        lookup(d, "env"@) is None ==> env_field(d, display, file) == Ok::<
            Option<Pairs>,
            Seq<char>,
        >(None),
        lookup(d, "env"@) is Some && !(lookup(d, "env"@)->0 is Table) ==> env_field(
            d,
            display,
            file,
        ) == Err::<Option<Pairs>, Seq<char>>(
            "Session \""@ + display + "\" in "@ + file
                + ": \"env\" must be a table of string values"@,
        ),
{
}

/// Which sessions are accepted: a table with a command, whose other fields are
/// missing or what they should be.
pub proof fn law_accepted_sessions(
    name: Seq<char>,
    d: TomlEntries,
    text: Seq<char>,
    prefix: Option<Seq<char>>,
    dir: Seq<char>,
    file: Seq<char>,
    label: Seq<char>,
)
    requires
        label == (if prefix is Some {
            prefix->0 + seq!['-'] + name
        } else {
            name
        }),
        lookup(d, "command"@) matches Some(TomlView::Str(c)) && c.len() > 0,
        lookup(d, "display_name"@) is None || (lookup(d, "display_name"@) matches Some(
            TomlView::Str(c),
        ) && c.len() > 0),
        lookup(d, "id"@) is None || (lookup(d, "id"@) matches Some(TomlView::Str(c)) && c.len()
            > 0),
        lookup(d, "cwd"@) is None || (lookup(d, "cwd"@) matches Some(TomlView::Str(c)) && c.len()
            > 0),
        lookup(d, "env"@) is None || (lookup(d, "env"@) matches Some(TomlView::Table(t, _))
            && env_in(t, label, file) is Ok),
    ensures
        session_in(name, TomlView::Table(d, text), prefix, dir, file) is Ok,
{
    reveal_strlit("-");
    assert("-"@ =~= seq!['-']);
}

/// Which documents are manifests: those with a table of sessions that are all
/// accepted and at least one; the first that is not says what is wrong.
pub proof fn law_accepted_manifests(doc: TomlEntries, dir: Seq<char>, t: TomlEntries, text: Seq<char>, p: Seq<char>)
    requires
        lookup(doc, "sessions"@) == Some(TomlView::Table(t, text)),
        lookup(doc, "prefix"@) is None || lookup(doc, "prefix"@) == Some(TomlView::Str(p)),
    ensures
        ({
            let prefix = if lookup(doc, "prefix"@) is Some && p.len() > 0 {
                Some(p)
            } else {
                None
            };
            let s = sessions_in(t, prefix, dir, under(dir, "pty.toml"@));
            &&& s is Ok && s->Ok_0.len() > 0 ==> manifest_in(doc, dir) == Ok::<
                PtyFileView,
                Seq<char>,
            >(PtyFileView { dir, prefix, sessions: s->Ok_0 })
            &&& s is Ok && s->Ok_0.len() == 0 ==> manifest_in(doc, dir) == Err::<
                PtyFileView,
                Seq<char>,
            >("No sessions defined in "@ + under(dir, "pty.toml"@))
            &&& s is Err ==> manifest_in(doc, dir) == Err::<PtyFileView, Seq<char>>(s->Err_0)
        }),
{
}

/// A manifest that is read is what it holds, and a table shows its text.
pub proof fn law_manifests_are_told_apart(f: PtyFile, t: TomlEntries, text: Seq<char>, d: &str)
    ensures
        f@.dir == f.dir@ && f@.prefix == opt_view(f.prefix) && f@.sessions.len()
            == f.sessions@.len(),
        forall|i: int| 0 <= i < f.sessions@.len() ==> #[trigger] f@.sessions[i] == f.sessions@[i]@,
        shown_value(TomlView::Table(t, text)) == text,
        dir_opt(Some(d)) == Some(d@) && dir_opt(None) is None,
{
}

} // verus!
