//! The registry root and the per-session file paths under it.
//!
//! `PTY_ROOT` wins, the deprecated `PTY_SESSION_DIR` is honoured with a
//! one-time notice, and everything else lands in `~/.local/state/pty`.

use crate::text::{dec, ends_with, starts_with, begins, ends, u64_string};
use vstd::prelude::*;
use vstd::utf8::encode_utf8;

verus! {

/// Largest socket path the tool guarantees to fit, in bytes. The smallest of
/// the supported systems, so that the same name works everywhere.
pub const SUN_PATH_MAX: usize = 104;

/// The bytes that a socket name adds to a root: `/xxxxxxxx.sock`.
pub const SOCK_SUFFIX_BYTES: usize = 14;

/// A path behind a root: an absolute path replaces the root, and a slash comes
/// in between where the root does not end in one.
pub open spec fn under(root: Seq<char>, part: Seq<char>) -> Seq<char> {
    if begins(part, "/"@) || root.len() == 0 {
        part
    } else if ends(root, "/"@) {
        root + part
    } else {
        root + "/"@ + part
    }
}

/// Computes `under`.
pub fn join_path(root: &str, part: &str) -> (r: String)
    ensures
        r@ == under(root@, part@),
{
    if starts_with(part, "/") || root.is_empty() {
        return part.to_owned();
    }
    let mut out = root.to_owned();
    if !ends_with(root, "/") {
        out.append("/");
    }
    out.append(part);
    out
}

/// The path of a session's file with a given ending.
pub open spec fn session_file(root: Seq<char>, name: Seq<char>, ending: Seq<char>) -> Seq<char> {
    under(root, name + ending)
}

fn session_path(root: &str, name: &str, ending: &str) -> (r: String)
    ensures
        r@ == session_file(root@, name@, ending@),
{
    let mut file = name.to_owned();
    file.append(ending);
    join_path(root, file.as_str())
}

/// Path to a session's unix socket, `<root>/<name>.sock`.
pub fn socket_path(root: &str, name: &str) -> (r: String)
    ensures
        r@ == session_file(root@, name@, ".sock"@),
{
    session_path(root, name, ".sock")
}

/// Path to a session's pid file, `<root>/<name>.pid`.
pub fn pid_path(root: &str, name: &str) -> (r: String)
    ensures
        r@ == session_file(root@, name@, ".pid"@),
{
    session_path(root, name, ".pid")
}

/// Path to a session's metadata, `<root>/<name>.json`.
pub fn metadata_path(root: &str, name: &str) -> (r: String)
    ensures
        r@ == session_file(root@, name@, ".json"@),
{
    session_path(root, name, ".json")
}

/// Path to a session's events log, `<root>/<name>.events.jsonl`.
pub fn events_path(root: &str, name: &str) -> (r: String)
    ensures
        r@ == session_file(root@, name@, ".events.jsonl"@),
{
    session_path(root, name, ".events.jsonl")
}

/// Path to a session's creation and metadata lock, `<root>/<name>.lock`.
pub fn lock_path(root: &str, name: &str) -> (r: String)
    ensures
        r@ == session_file(root@, name@, ".lock"@),
{
    session_path(root, name, ".lock")
}

/// Path to a session's event lock, `<root>/<name>.events.lock`.
pub fn event_lock_path(root: &str, name: &str) -> (r: String)
    ensures
        r@ == session_file(root@, name@, ".events.lock"@),
{
    session_path(root, name, ".events.lock")
}

/// Path to the signed recovery revision,
/// `<root>/.recovery/<name>.revision.json`.
pub fn recovery_revision_path(root: &str, name: &str) -> (r: String)
    ensures
        r@ == session_file(under(root@, ".recovery"@), name@, ".revision.json"@),
{
    let dir = join_path(root, ".recovery");
    session_path(dir.as_str(), name, ".revision.json")
}

/// Path to a session's output activity, `<root>/.activity/<name>.json`.
pub fn output_activity_path(root: &str, name: &str) -> (r: String)
    ensures
        r@ == session_file(under(root@, ".activity"@), name@, ".json"@),
{
    let dir = join_path(root, ".activity");
    session_path(dir.as_str(), name, ".json")
}

/// What the environment says about the root.
#[derive(Debug, Clone, PartialEq, Eq)]
pub struct RootEnv {
    /// `PTY_ROOT`.
    pub root: Option<String>,
    /// `PTY_SESSION_DIR`.
    pub legacy: Option<String>,
    /// `PTY_ROOT_LEGACY_SILENT` is set.
    pub silent: bool,
    /// `HOME`.
    pub home: Option<String>,
}

/// Which of the one-time notices have been given.
#[derive(Debug, Clone, Copy, PartialEq, Eq, Structural)]
pub struct RootNotices {
    pub root_masks_legacy: bool,
    pub legacy_root: bool,
}

/// A variable that is set to something.
pub open spec fn filled(v: Option<String>) -> Option<Seq<char>> {
    match v {
        Some(s) => if s@.len() > 0 {
            Some(s@)
        } else {
            None
        },
        None => None,
    }
}

fn non_empty(v: &Option<String>) -> (r: Option<&str>)
    ensures
        match r {
            Some(s) => filled(*v) == Some(s@),
            None => filled(*v) is None,
        },
{
    match v {
        Some(s) => {
            if s.as_str().is_empty() {
                None
            } else {
                Some(s.as_str())
            }
        },
        None => None,
    }
}

/// `<home>/.local/state/pty`; without a home, under `/tmp`.
pub open spec fn default_root(home: Option<String>) -> Seq<char> {
    let base = match home {
        Some(h) => h@,
        None => "/tmp"@,
    };
    under(under(under(base, ".local"@), "state"@), "pty"@)
}

/// The default registry root.
pub fn default_session_dir(home: &Option<String>) -> (r: String)
    ensures
        r@ == default_root(*home),
{
    let base = match home {
        Some(h) => h.clone(),
        None => "/tmp".to_owned(),
    };
    let local = join_path(base.as_str(), ".local");
    let state = join_path(local.as_str(), "state");
    join_path(state.as_str(), "pty")
}

/// The registry root that an environment selects.
pub open spec fn selected_root(env: RootEnv) -> Seq<char> {
    if filled(env.root) is Some {
        filled(env.root)->0
    } else if filled(env.legacy) is Some {
        filled(env.legacy)->0
    } else {
        default_root(env.home)
    }
}

/// Both variables are set, and nobody has said so yet.
pub open spec fn notes_mask(env: RootEnv, given: RootNotices) -> bool {
    filled(env.root) is Some && filled(env.legacy) is Some && !env.silent
        && !given.root_masks_legacy
}

/// Only the deprecated variable is set, and nobody has said so yet.
pub open spec fn notes_legacy(env: RootEnv, given: RootNotices) -> bool {
    filled(env.root) is None && filled(env.legacy) is Some && !env.silent && !given.legacy_root
}

/// Resolve the session registry directory, with the notice to print, if one
/// is due. Each notice is given once.
pub fn session_dir(env: &RootEnv, given: &mut RootNotices) -> (r: (String, Option<String>))
    ensures
        r.0@ == selected_root(*env),
        match r.1 {
            Some(text) => (notes_mask(*env, *old(given)) && text@
                == "pty: both PTY_ROOT and PTY_SESSION_DIR are set — using PTY_ROOT ("@ + filled(
                env.root,
            )->0 + "); PTY_SESSION_DIR ("@ + filled(env.legacy)->0
                + ") is ignored (deprecated). For isolation, set PTY_ROOT."@) || (notes_legacy(
                *env,
                *old(given),
            ) && text@
                == "pty: PTY_SESSION_DIR is deprecated; use PTY_ROOT (same shape, canonical name)."@),
            None => !notes_mask(*env, *old(given)) && !notes_legacy(*env, *old(given)),
        },
        final(given).root_masks_legacy == (old(given).root_masks_legacy || notes_mask(
            *env,
            *old(given),
        )),
        final(given).legacy_root == (old(given).legacy_root || notes_legacy(*env, *old(given))),
{
    if let Some(root) = non_empty(&env.root) {
        if let Some(legacy) = non_empty(&env.legacy) {
            if !env.silent && !given.root_masks_legacy {
                given.root_masks_legacy = true;
                let mut text =
                    "pty: both PTY_ROOT and PTY_SESSION_DIR are set — using PTY_ROOT (".to_owned();
                text.append(root);
                text.append("); PTY_SESSION_DIR (");
                text.append(legacy);
                text.append(") is ignored (deprecated). For isolation, set PTY_ROOT.");
                return (root.to_owned(), Some(text));
            }
        }
        return (root.to_owned(), None);
    }
    if let Some(legacy) = non_empty(&env.legacy) {
        if !env.silent && !given.legacy_root {
            given.legacy_root = true;
            let text =
                "pty: PTY_SESSION_DIR is deprecated; use PTY_ROOT (same shape, canonical name).".to_owned();
            return (legacy.to_owned(), Some(text));
        }
        return (legacy.to_owned(), None);
    }
    (default_session_dir(&env.home), None)
}

/// The root whose length matters: the one set in the environment.
pub open spec fn configured_root(env: RootEnv) -> Option<Seq<char>> {
    if filled(env.root) is Some {
        filled(env.root)
    } else {
        filled(env.legacy)
    }
}

/// The startup message for a root that leaves no room for a socket name, or
/// `None` where the root fits or none is configured.
pub fn root_length_check(env: &RootEnv) -> (r: Option<String>)
    ensures
        r is Some <==> (configured_root(*env) is Some && encode_utf8(
            configured_root(*env)->0,
        ).len() + SOCK_SUFFIX_BYTES > SUN_PATH_MAX),
        r is Some ==> r->0@ == "pty: PTY_ROOT is too long — "@ + dec(
            encode_utf8(configured_root(*env)->0).len(),
        ) + " bytes; must be ≤ "@ + dec(90) + " bytes for the socket path to fit the "@ + dec(104)
            + "-byte kernel limit.\n  root: "@ + configured_root(*env)->0
            + "\n  Shorten the root (or use `pty --root <shorter-path>` for a one-off)."@,
{
    let resolved = match non_empty(&env.root) {
        Some(s) => s,
        None => match non_empty(&env.legacy) {
            Some(s) => s,
            None => {
                return None;
            },
        },
    };
    let bytes = resolved.as_bytes();
    let root_bytes = bytes.len();
    if root_bytes > SUN_PATH_MAX - SOCK_SUFFIX_BYTES {
        let size = u64_string(root_bytes as u64);
        let usable = u64_string((SUN_PATH_MAX - SOCK_SUFFIX_BYTES) as u64);
        let limit = u64_string(SUN_PATH_MAX as u64);
        let mut text = "pty: PTY_ROOT is too long — ".to_owned();
        text.append(size.as_str());
        text.append(" bytes; must be ≤ ");
        text.append(usable.as_str());
        text.append(" bytes for the socket path to fit the ");
        text.append(limit.as_str());
        text.append("-byte kernel limit.\n  root: ");
        text.append(resolved);
        text.append("\n  Shorten the root (or use `pty --root <shorter-path>` for a one-off).");
        Some(text)
    } else {
        None
    }
}

// ---- laws ----------------------------------------------------------------

/// A relative path lies under its root, with one slash between them; an
/// absolute one stands for itself.
pub proof fn law_paths_under_a_root(root: Seq<char>, part: Seq<char>)
    ensures
        part.len() > 0 && part[0] == '/' ==> under(root, part) == part,
        root.len() > 0 && root.last() != '/' && (part.len() == 0 || part[0] != '/') ==> under(
            root,
            part,
        ) == root + seq!['/'] + part,
        root.len() > 0 && root.last() == '/' && (part.len() == 0 || part[0] != '/') ==> under(
            root,
            part,
        ) == root + part,
        root.len() == 0 ==> under(root, part) == part,
{
    reveal_strlit("/");
    let slash = "/"@;
    assert(slash =~= seq!['/']);
    if part.len() > 0 && part[0] == '/' {
        assert(part.subrange(0, 1) =~= slash);
    } else if part.len() > 0 {
        assert(part.subrange(0, 1)[0] == part[0]);
    }
    if root.len() > 0 {
        assert(root.subrange(root.len() - 1, root.len() as int)[0] == root.last());
        if root.last() == '/' {
            assert(root.subrange(root.len() - 1, root.len() as int) =~= slash);
        }
    }
}

/// The file of a session is its name and the ending, in the root.
pub proof fn law_files_of_a_session(root: Seq<char>, name: Seq<char>, ending: Seq<char>)
    requires
        root.len() > 0,
        root.last() != '/',
        name.len() > 0,
        name[0] != '/',
    ensures
        session_file(root, name, ending) == root + seq!['/'] + name + ending,
{
    law_paths_under_a_root(root, name + ending);
    assert((name + ending)[0] == name[0]);
    assert(root + seq!['/'] + (name + ending) =~= root + seq!['/'] + name + ending);
}

/// Two sessions share no file, and two kinds of file of one session are two
/// files.
pub proof fn law_files_are_told_apart(root: Seq<char>, a: Seq<char>, b: Seq<char>, x: Seq<char>, y: Seq<char>)
    requires
        root.len() > 0,
        root.last() != '/',
        a.len() > 0 && a[0] != '/',
        b.len() > 0 && b[0] != '/',
    ensures
        session_file(root, a, x) == session_file(root, b, x) ==> a == b,
        session_file(root, a, x) == session_file(root, a, y) ==> x == y,
{
    law_files_of_a_session(root, a, x);
    law_files_of_a_session(root, b, x);
    law_files_of_a_session(root, a, y);
    let slash = seq!['/'];
    assert((root + slash + a + x).len() == root.len() + 1 + a.len() + x.len());
    assert((root + slash + b + x).len() == root.len() + 1 + b.len() + x.len());
    let n = root.len() + 1;
    if session_file(root, a, x) == session_file(root, b, x) {
        let s = session_file(root, a, x);
        assert(a.len() == b.len());
        assert(s.subrange(n as int, (n + a.len()) as int) =~= a);
        assert(s.subrange(n as int, (n + a.len()) as int) =~= b);
    }
    if session_file(root, a, x) == session_file(root, a, y) {
        let s = session_file(root, a, x);
        let m = n + a.len();
        assert(s.skip(m as int) =~= x);
        assert(s.skip(m as int) =~= y);
    }
}

/// Which root an environment selects: the first variable where it holds
/// something, else the deprecated one, else the place under the home.
pub proof fn law_selected_root(env: RootEnv)
    ensures
        env.root is Some && env.root->0@.len() > 0 ==> selected_root(env) == env.root->0@,
        (env.root is None || env.root->0@.len() == 0) && env.legacy is Some
            && env.legacy->0@.len() > 0 ==> selected_root(env) == env.legacy->0@,
        (env.root is None || env.root->0@.len() == 0) && (env.legacy is None
            || env.legacy->0@.len() == 0) && env.home is Some && env.home->0@.len() > 0
            && env.home->0@.last() != '/' ==> selected_root(env) == env.home->0@
            + "/.local/state/pty"@,
        (env.root is None || env.root->0@.len() == 0) && (env.legacy is None
            || env.legacy->0@.len() == 0) && env.home is None ==> selected_root(env)
            == "/tmp/.local/state/pty"@,
        env.root is Some && env.root->0@.len() > 0 ==> configured_root(env) == Some(env.root->0@),
        (env.root is None || env.root->0@.len() == 0) && (env.legacy is None
            || env.legacy->0@.len() == 0) ==> configured_root(env) is None,
{
    reveal_strlit("/.local/state/pty");
    reveal_strlit("/tmp/.local/state/pty");
    reveal_strlit("/tmp");
    reveal_strlit(".local");
    reveal_strlit("state");
    reveal_strlit("pty");
    let base = match env.home {
        Some(h) => h@,
        None => "/tmp"@,
    };
    if base.len() > 0 && base.last() != '/' {
        let local = base + seq!['/'] + ".local"@;
        law_paths_under_a_root(base, ".local"@);
        let state = local + seq!['/'] + "state"@;
        law_paths_under_a_root(local, "state"@);
        law_paths_under_a_root(state, "pty"@);
        assert(default_root(env.home) =~= base + "/.local/state/pty"@);
        assert("/tmp"@ + "/.local/state/pty"@ =~= "/tmp/.local/state/pty"@);
    }
}

/// A notice is given once: where it was given it is not due, and a silent
/// environment gives none.
pub proof fn law_notices_are_given_once(env: RootEnv, given: RootNotices)
    ensures
        given.root_masks_legacy || env.silent ==> !notes_mask(env, given),
        given.legacy_root || env.silent ==> !notes_legacy(env, given),
        !(notes_mask(env, given) && notes_legacy(env, given)),
        !env.silent && !given.root_masks_legacy && env.root is Some && env.root->0@.len() > 0
            && env.legacy is Some && env.legacy->0@.len() > 0 ==> notes_mask(env, given),
        !env.silent && !given.legacy_root && (env.root is None || env.root->0@.len() == 0)
            && env.legacy is Some && env.legacy->0@.len() > 0 ==> notes_legacy(env, given),
{
}

} // verus!
