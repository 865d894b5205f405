//! Session ids and display names: validation texts, random ids, the automatic
//! display name, and the small presentation helpers of a listing.

use super::root::{session_file, socket_path, SUN_PATH_MAX};
use super::time::{iso_ms, parse_iso8601_ms};
use crate::text::{
    begins, code_point, dec, dec_int, end_without, from_chars, i64_string, last_index, rfind,
    slice_of, start_without, starts_with, str_eq, strip_prefix, substring, to_chars, trim_end, trim_start,
    u64_string, utf16_exceeds, utf16_len, views,
};
use vstd::arithmetic::div_mod::lemma_fundamental_div_mod_converse;
use vstd::prelude::*;
use vstd::utf8::encode_utf8;

verus! {

/// A character that a session id may hold.
pub open spec fn name_char(c: char) -> bool {
    ('a' <= c && c <= 'z') || ('A' <= c && c <= 'Z') || ('0' <= c && c <= '9') || c == '.' || c
        == '_' || c == '-'
}

/// Whether every character may stand in a session id.
pub open spec fn all_name_chars(s: Seq<char>) -> bool {
    forall|i: int| 0 <= i < s.len() ==> name_char(#[trigger] s[i])
}

fn is_name_char(c: char) -> (r: bool)
    ensures
        r == name_char(c),
{
    ('a' <= c && c <= 'z') || ('A' <= c && c <= 'Z') || ('0' <= c && c <= '9') || c == '.' || c
        == '_' || c == '-'
}

fn are_name_chars(s: &[char]) -> (r: bool)
    ensures
        r == all_name_chars(s@),
{
    let mut i: usize = 0;
    while i < s.len()
        invariant
            i <= s@.len(),
            forall|j: int| 0 <= j < i ==> name_char(#[trigger] s@[j]),
        decreases s.len() - i,
    {
        if !is_name_char(s[i]) {
            assert(!name_char(s@[i as int]));
            return false;
        }
        i += 1;
    }
    true
}

/// The length of a session's socket path, in bytes.
pub open spec fn socket_bytes(root: Seq<char>, name: Seq<char>) -> nat {
    encode_utf8(session_file(root, name, ".sock"@)).len()
}

/// Why a session id is refused under a root, or `None` where it is accepted.
/// The rules are tried in this order.
pub open spec fn name_error(root: Seq<char>, name: Seq<char>) -> Option<Seq<char>> {
    if name.len() == 0 {
        Some("Session name cannot be empty."@)
    } else if name == "."@ || name == ".."@ {
        Some("Invalid session name \""@ + name + "\". Names cannot be \".\" or \"..\"."@)
    } else if utf16_len(name) > 255 {
        Some("Session name too long (max 255 characters)."@)
    } else if !all_name_chars(name) {
        Some(
            "Invalid session name \""@ + name
                + "\". Names may only contain letters, numbers, dots, hyphens, and underscores."@,
        )
    } else if socket_bytes(root, name) > SUN_PATH_MAX {
        Some(
            "Session name \""@ + name + "\" produces a socket path of "@ + dec(
                socket_bytes(root, name),
            ) + " bytes, which exceeds the "@ + dec(SUN_PATH_MAX as nat)
                + "-byte kernel limit by "@ + dec(
                (socket_bytes(root, name) - SUN_PATH_MAX) as nat,
            ) + ". Shorten the name or set PTY_SESSION_DIR to a shorter path."@,
        )
    } else {
        None
    }
}

/// Validate a stable session id under a registry root.
pub fn validate_name(root: &str, name: &str) -> (r: Result<(), String>)
    ensures
        match r {
            Ok(_) => name_error(root@, name@) is None,
            Err(e) => name_error(root@, name@) == Some(e@),
        },
{
    if name.is_empty() {
        return Err("Session name cannot be empty.".to_owned());
    }
    if str_eq(name, ".") || str_eq(name, "..") {
        let mut m = "Invalid session name \"".to_owned();
        m.append(name);
        m.append("\". Names cannot be \".\" or \"..\".");
        return Err(m);
    }
    let chars = to_chars(name);
    if utf16_exceeds(chars.as_slice(), 255) {
        return Err("Session name too long (max 255 characters).".to_owned());
    }
    if !are_name_chars(chars.as_slice()) {
        let mut m = "Invalid session name \"".to_owned();
        m.append(name);
        m.append("\". Names may only contain letters, numbers, dots, hyphens, and underscores.");
        return Err(m);
    }
    let path = socket_path(root, name);
    let bytes = path.as_str().as_bytes();
    let byte_len = bytes.len();
    if byte_len > SUN_PATH_MAX {
        let size = u64_string(byte_len as u64);
        let limit = u64_string(SUN_PATH_MAX as u64);
        let overflow = u64_string((byte_len - SUN_PATH_MAX) as u64);
        let mut m = "Session name \"".to_owned();
        m.append(name);
        m.append("\" produces a socket path of ");
        m.append(size.as_str());
        m.append(" bytes, which exceeds the ");
        m.append(limit.as_str());
        m.append("-byte kernel limit by ");
        m.append(overflow.as_str());
        m.append(". Shorten the name or set PTY_SESSION_DIR to a shorter path.");
        return Err(m);
    }
    Ok(())
}

/// White space and line terminators, as JavaScript's `trim` has them.
pub open spec fn js_space(c: char) -> bool {
    let n = c as int;
    9 <= n <= 13 || n == 0x20 || n == 0xA0 || n == 0x1680 || 0x2000 <= n <= 0x200A || n == 0x2028
        || n == 0x2029 || n == 0x202F || n == 0x205F || n == 0x3000 || n == 0xFEFF
}

/// Decides `js_space`.
pub(crate) fn is_js_whitespace(c: char) -> (r: bool)
    ensures
        r == js_space(c),
{
    let n: u32 = c as u32;
    (9 <= n && n <= 13) || n == 0x20 || n == 0xA0 || n == 0x1680 || (0x2000 <= n && n <= 0x200A)
        || n == 0x2028 || n == 0x2029 || n == 0x202F || n == 0x205F || n == 0x3000 || n == 0xFEFF
}

/// `s` without white space at its end.
pub open spec fn js_trim_end(s: Seq<char>) -> Seq<char>
    decreases s.len(),
{
    if s.len() > 0 && js_space(s.last()) {
        js_trim_end(s.drop_last())
    } else {
        s
    }
}

/// `s` without white space at its beginning.
pub open spec fn js_trim_start(s: Seq<char>) -> Seq<char>
    decreases s.len(),
{
    if s.len() > 0 && js_space(s[0]) {
        js_trim_start(s.skip(1))
    } else {
        s
    }
}

/// `s` without white space at either end.
pub open spec fn js_trimmed(s: Seq<char>) -> Seq<char> {
    js_trim_end(js_trim_start(s))
}

/// Computes `js_trimmed`.
pub(crate) fn js_trim(s: &str) -> (r: String)
    ensures
        r@ == js_trimmed(s@),
{
    let chars = to_chars(s);
    let v = chars.as_slice();
    let mut from: usize = 0;
    assert(v@.skip(0) =~= v@);
    while from < v.len() && is_js_whitespace(v[from])
        invariant
            from <= v@.len(),
            js_trim_start(v@.skip(from as int)) == js_trim_start(v@),
        decreases v.len() - from,
    {
        assert(v@.skip(from as int).skip(1) =~= v@.skip(from + 1));
        from += 1;
    }
    let ghost rest = v@.skip(from as int);
    assert(rest == js_trim_start(v@));
    let mut to: usize = v.len();
    assert(v@.subrange(from as int, to as int) =~= rest);
    while to > from && is_js_whitespace(v[to - 1])
        invariant
            from <= to <= v@.len(),
            js_trim_end(v@.subrange(from as int, to as int)) == js_trim_end(rest),
        decreases to,
    {
        assert(v@.subrange(from as int, to as int).drop_last() =~= v@.subrange(
            from as int,
            to - 1,
        ));
        assert(v@.subrange(from as int, to as int).last() == v@[to - 1]);
        to -= 1;
    }
    assert(v@.subrange(from as int, to as int).len() > 0 ==> v@.subrange(
        from as int,
        to as int,
    ).last() == v@[to - 1]);
    substring(v, from, to)
}

/// Control characters (general category `Cc`).
pub open spec fn control(c: char) -> bool {
    c as int <= 0x1f || 0x7f <= c as int <= 0x9f
}

/// A character that may not stand in a display name.
pub open spec fn breaks_line(c: char) -> bool {
    control(c) || c as int == 0x2028 || c as int == 0x2029
}

/// Why a display name is refused, or `None` where it is accepted.
pub open spec fn display_name_error(name: Seq<char>) -> Option<Seq<char>> {
    if name.len() == 0 {
        Some("Display name cannot be empty."@)
    } else if name != js_trimmed(name) {
        Some("Display name must be trimmed."@)
    } else if name.len() > 160 {
        Some("Display name too long (max 160 Unicode scalars)."@)
    } else if exists|i: int| 0 <= i < name.len() && breaks_line(#[trigger] name[i]) {
        Some("Display name must be single-line and contain no control characters."@)
    } else {
        None
    }
}

fn holds_break(s: &[char]) -> (r: bool)
    ensures
        r == exists|i: int| 0 <= i < s@.len() && breaks_line(#[trigger] s@[i]),
{
    let mut i: usize = 0;
    while i < s.len()
        invariant
            i <= s@.len(),
            forall|j: int| 0 <= j < i ==> !breaks_line(#[trigger] s@[j]),
        decreases s.len() - i,
    {
        let n: u32 = code_point(s[i]);
        if n <= 0x1f || (0x7f <= n && n <= 0x9f) || n == 0x2028 || n == 0x2029 {
            assert(breaks_line(s@[i as int]));
            return true;
        }
        i += 1;
    }
    false
}

/// Validate a mutable display name: non-empty, trimmed, at most 160 Unicode
/// scalars, no control characters and no line separators.
pub fn validate_display_name(name: &str) -> (r: Result<(), String>)
    ensures
        match r {
            Ok(_) => display_name_error(name@) is None,
            Err(e) => display_name_error(name@) == Some(e@),
        },
{
    if name.is_empty() {
        return Err("Display name cannot be empty.".to_owned());
    }
    let trimmed = js_trim(name);
    if !str_eq(name, trimmed.as_str()) {
        return Err("Display name must be trimmed.".to_owned());
    }
    let chars = to_chars(name);
    if chars.len() > 160 {
        return Err("Display name too long (max 160 Unicode scalars).".to_owned());
    }
    if holds_break(chars.as_slice()) {
        return Err(
            "Display name must be single-line and contain no control characters.".to_owned(),
        );
    }
    Ok(())
}

/// The alphabet random ids draw from: no `0 1 o i l`.
pub const SESSION_ID_ALPHABET: &'static str = "23456789abcdefghjkmnpqrstuvwxyz";

/// The number of attempts at a random id that nobody has.
pub const SESSION_ID_ATTEMPTS: usize = 8;

/// The id that random bytes select: each byte, modulo 31, picks a character.
pub open spec fn id_of_bytes(bytes: Seq<u8>) -> Seq<char> {
    Seq::new(bytes.len(), |i: int| SESSION_ID_ALPHABET@[(bytes[i] % 31) as int])
}

/// A session id from random bytes (eight, for the usual length).
pub fn random_session_name(bytes: &[u8]) -> (s: String)
    ensures
        s@ == id_of_bytes(bytes@),
{
    let alphabet = to_chars(SESSION_ID_ALPHABET);
    proof {
        reveal_strlit("23456789abcdefghjkmnpqrstuvwxyz");
    }
    assert(alphabet@.len() == 31);
    let mut s = String::new();
    let mut i: usize = 0;
    while i < bytes.len()
        invariant
            i <= bytes@.len(),
            alphabet@ == SESSION_ID_ALPHABET@,
            alphabet@.len() == 31,
            s@ == id_of_bytes(bytes@).take(i as int),
        decreases bytes.len() - i,
    {
        let pick: usize = (bytes[i] % 31) as usize;
        s.push(alphabet[pick]);
        assert(id_of_bytes(bytes@).take(i + 1) =~= id_of_bytes(bytes@).take(i as int).push(
            SESSION_ID_ALPHABET@[(bytes@[i as int] % 31) as int],
        ));
        i += 1;
    }
    assert(id_of_bytes(bytes@).take(bytes@.len() as int) =~= id_of_bytes(bytes@));
    s
}

/// A fresh session id from random bytes.
pub fn generate_id(bytes: &[u8]) -> (s: String)
    ensures
        s@ == id_of_bytes(bytes@),
{
    random_session_name(bytes)
}

/// A random id is always an accepted name, where the root leaves room for it.
pub proof fn law_random_id_is_accepted(root: Seq<char>, bytes: Seq<u8>)
    requires
        1 <= bytes.len() <= 255,
        socket_bytes(root, id_of_bytes(bytes)) <= SUN_PATH_MAX,
    ensures
        name_error(root, id_of_bytes(bytes)) is None,
{
    let id = id_of_bytes(bytes);
    reveal_strlit("23456789abcdefghjkmnpqrstuvwxyz");
    reveal_strlit(".");
    reveal_strlit("..");
    assert forall|i: int| 0 <= i < id.len() implies name_char(#[trigger] id[i]) && id[i] != '.' by {
        let k = (bytes[i] % 31) as int;
        let c = SESSION_ID_ALPHABET@[k];
        assert(('a' <= c && c <= 'z') || ('0' <= c && c <= '9'));
    }
    lemma_ascii_utf16(id);
    assert(id[0] != '.');
    assert("."@[0] == '.' && ".."@[0] == '.');
}

proof fn lemma_ascii_utf16(s: Seq<char>)
    requires
        all_name_chars(s),
    ensures
        utf16_len(s) == s.len(),
    decreases s.len(),
{
    if s.len() > 0 {
        assert(name_char(s[s.len() - 1]));
        assert(all_name_chars(s.drop_last()));
        lemma_ascii_utf16(s.drop_last());
    }
}

/// The error of a run whose random ids all collide.
pub fn unique_id_failure_message() -> (s: String)
    ensures
        s@ == "Could not generate a unique session id after "@ + dec(SESSION_ID_ATTEMPTS as nat)
            + " attempts."@,
{
    let mut s = "Could not generate a unique session id after ".to_owned();
    let n = u64_string(SESSION_ID_ATTEMPTS as u64);
    s.append(n.as_str());
    s.append(" attempts.");
    s
}

/// The last component of a path that is not empty.
pub open spec fn base_of(p: Seq<char>) -> Seq<char> {
    let t = trim_end(p, '/');
    t.skip(last_index(t, '/') + 1)
}

fn basename(p: &[char]) -> (r: Vec<char>)
    ensures
        r@ == base_of(p@),
{
    let end = end_without(p, '/');
    let t = slice_of(p, 0, end);
    assert(t@ =~= p@.take(end as int));
    let from: usize = match rfind(t.as_slice(), '/') {
        Some(i) => i + 1,
        None => 0,
    };
    let r = slice_of(t.as_slice(), from, t.len());
    assert(r@ =~= t@.skip(from as int));
    r
}

/// A name without its extension: a final dot with at least one character
/// behind it starts one.
pub open spec fn without_extension(base: Seq<char>) -> Seq<char> {
    let dot = last_index(base, '.');
    if dot >= 0 && dot + 1 < base.len() {
        base.take(dot)
    } else {
        base
    }
}

/// An argument that can lend its name: no option, and shorter than 30 UTF-16
/// code units.
pub open spec fn lends_name(arg: Seq<char>) -> bool {
    !begins(arg, "-"@) && utf16_len(arg) < 30
}

/// The first argument that can lend its name, or the length.
pub open spec fn first_lender(args: Seq<Seq<char>>, from: int) -> int
    decreases args.len() - from,
{
    if 0 <= from < args.len() && !lends_name(args[from]) {
        first_lender(args, from + 1)
    } else {
        from
    }
}

/// The command part of an automatic display name: the command, and behind a
/// dash the first argument that lends a name, when that name is a plain one.
pub open spec fn command_part(cmd: Seq<char>, args: Seq<Seq<char>>) -> Seq<char> {
    let k = first_lender(args, 0);
    if k < args.len() {
        let a = without_extension(base_of(args[k]));
        if a.len() > 0 && all_name_chars(a) {
            base_of(cmd) + "-"@ + a
        } else {
            base_of(cmd)
        }
    } else {
        base_of(cmd)
    }
}

/// `s` with every character that no name may hold turned into a dash, and
/// runs of dashes made one.
pub open spec fn dashed(s: Seq<char>) -> Seq<char>
    decreases s.len(),
{
    if s.len() == 0 {
        s
    } else {
        let before = dashed(s.drop_last());
        let c = if name_char(s.last()) {
            s.last()
        } else {
            '-'
        };
        if c == '-' && before.len() > 0 && before.last() == '-' {
            before
        } else {
            before.push(c)
        }
    }
}

/// `dashed`, without dashes at the ends.
pub open spec fn sanitized(s: Seq<char>) -> Seq<char> {
    trim_end(trim_start(dashed(s), '-'), '-')
}

/// The sanitize step of the automatic display name.
pub fn sanitize_display_name(candidate: &str) -> (r: String)
    ensures
        r@ == sanitized(candidate@),
{
    let chars = to_chars(candidate);
    let mut out: Vec<char> = Vec::new();
    let mut i: usize = 0;
    assert(out@ =~= dashed(chars@.take(0)));
    while i < chars.len()
        invariant
            i <= chars@.len(),
            out@ == dashed(chars@.take(i as int)),
        decreases chars.len() - i,
    {
        assert(chars@.take(i + 1).drop_last() =~= chars@.take(i as int));
        let c = if is_name_char(chars[i]) {
            chars[i]
        } else {
            '-'
        };
        let skip = c == '-' && out.len() > 0 && out[out.len() - 1] == '-';
        if !skip {
            out.push(c);
        }
        i += 1;
    }
    assert(chars@.take(i as int) =~= chars@);
    let from = start_without(out.as_slice(), '-');
    let tail = slice_of(out.as_slice(), from, out.len());
    assert(tail@ =~= out@.skip(from as int));
    let end = end_without(tail.as_slice(), '-');
    let r = substring(tail.as_slice(), 0, end);
    assert(r@ =~= tail@.take(end as int));
    r
}

/// The automatic display name of a run without a name of its own:
/// `<basename(cwd)>-<basename(cmd)>[-<first argument>]`, sanitized.
pub fn auto_display_name(cwd: &str, cmd: &str, args: &[String]) -> (r: String)
    ensures
        r@ == sanitized(base_of(cwd@) + "-"@ + command_part(cmd@, views(args@))),
{
    let cwd_chars = to_chars(cwd);
    let cmd_chars = to_chars(cmd);
    let dir_part = basename(cwd_chars.as_slice());
    let cmd_base = basename(cmd_chars.as_slice());
    let mut k: usize = 0;
    let mut found = false;
    while k < args.len() && !found
        invariant
            k <= args@.len(),
            found ==> k < args@.len(),
            found ==> lends_name(views(args@)[k as int]),
            first_lender(views(args@), 0) == first_lender(views(args@), k as int),
        decreases
                args.len() - k,
                (if found {
                    0int
                } else {
                    1int
                }),
    {
        let arg = to_chars(args[k].as_str());
        if !starts_with(args[k].as_str(), "-") && !utf16_exceeds(arg.as_slice(), 29) {
            found = true;
        } else {
            k += 1;
        }
    }
    assert(k == first_lender(views(args@), 0));
    let mut name = from_chars(dir_part.as_slice());
    name.append("-");
    let mut cmd_part = from_chars(cmd_base.as_slice());
    if k < args.len() {
        let arg = to_chars(args[k].as_str());
        assert(arg@ == views(args@)[k as int]);
        let base = basename(arg.as_slice());
        let end: usize = match rfind(base.as_slice(), '.') {
            Some(dot) => {
                if dot < base.len() - 1 {
                    dot
                } else {
                    base.len()
                }
            },
            None => base.len(),
        };
        let arg_base = slice_of(base.as_slice(), 0, end);
        assert(arg_base@ =~= without_extension(base@));
        if arg_base.len() > 0 && are_name_chars(arg_base.as_slice()) {
            cmd_part.append("-");
            let text = from_chars(arg_base.as_slice());
            cmd_part.append(text.as_str());
        }
    }
    name.append(cmd_part.as_str());
    sanitize_display_name(name.as_str())
}

/// No two dashes in a row.
pub open spec fn single_dashes(s: Seq<char>) -> bool {
    forall|i: int| 0 <= i < s.len() - 1 ==> !((#[trigger] s[i]) == '-' && s[i + 1] == '-')
}

/// A text that sanitizing leaves as it is.
pub open spec fn tidy(s: Seq<char>) -> bool {
    all_name_chars(s) && single_dashes(s) && (s.len() > 0 ==> s[0] != '-' && s.last() != '-')
}

proof fn lemma_dashed(s: Seq<char>)
    ensures
        all_name_chars(dashed(s)),
        single_dashes(dashed(s)),
    decreases s.len(),
{
    if s.len() > 0 {
        lemma_dashed(s.drop_last());
    }
}

proof fn lemma_trim_keeps(s: Seq<char>)
    requires
        all_name_chars(s),
        single_dashes(s),
    ensures
        tidy(trim_end(trim_start(s, '-'), '-')),
{
    lemma_trim_start_keeps(s);
    lemma_trim_end_keeps(trim_start(s, '-'));
}

proof fn lemma_trim_start_keeps(s: Seq<char>)
    requires
        all_name_chars(s),
        single_dashes(s),
    ensures
        all_name_chars(trim_start(s, '-')),
        single_dashes(trim_start(s, '-')),
        trim_start(s, '-').len() > 0 ==> trim_start(s, '-')[0] != '-',
    decreases s.len(),
{
    if s.len() > 0 && s[0] == '-' {
        let t = s.skip(1);
        assert forall|i: int| 0 <= i < t.len() implies name_char(#[trigger] t[i]) by {
            assert(name_char(s[i + 1]));
        }
        assert forall|i: int| 0 <= i < t.len() - 1 implies !((#[trigger] t[i]) == '-' && t[i + 1]
            == '-') by {
            assert(s[i + 1] == t[i]);
        }
        lemma_trim_start_keeps(t);
    }
}

proof fn lemma_trim_end_keeps(s: Seq<char>)
    requires
        all_name_chars(s),
        single_dashes(s),
        s.len() > 0 ==> s[0] != '-',
    ensures
        tidy(trim_end(s, '-')),
    decreases s.len(),
{
    if s.len() > 0 && s.last() == '-' {
        let t = s.drop_last();
        assert forall|i: int| 0 <= i < t.len() - 1 implies !((#[trigger] t[i]) == '-' && t[i + 1]
            == '-') by {
            assert(s[i] == t[i]);
        }
        lemma_trim_end_keeps(t);
    }
}

proof fn lemma_tidy_dashed(s: Seq<char>)
    requires
        all_name_chars(s),
        single_dashes(s),
    ensures
        dashed(s) == s,
    decreases s.len(),
{
    if s.len() > 0 {
        let t = s.drop_last();
        assert forall|i: int| 0 <= i < t.len() - 1 implies !((#[trigger] t[i]) == '-' && t[i + 1]
            == '-') by {
            assert(s[i] == t[i]);
        }
        lemma_tidy_dashed(t);
        assert(name_char(s[s.len() - 1]));
        if t.len() > 0 {
            assert(!(s[s.len() - 2] == '-' && s[s.len() - 1] == '-'));
        }
        assert(t.push(s.last()) =~= s);
    }
}

/// A sanitized name holds only name characters, no run of dashes and no dash
/// at either end.
pub proof fn law_sanitized_is_tidy(s: Seq<char>)
    ensures
        tidy(sanitized(s)),
{
    lemma_dashed(s);
    lemma_trim_keeps(dashed(s));
}

/// Sanitizing a tidy name changes nothing.
pub proof fn law_tidy_is_kept(s: Seq<char>)
    requires
        tidy(s),
    ensures
        sanitized(s) == s,
{
    lemma_tidy_dashed(s);
}

/// Sanitizing twice is sanitizing once.
pub proof fn law_sanitize_is_idempotent(s: Seq<char>)
    ensures
        sanitized(sanitized(s)) == sanitized(s),
{
    law_sanitized_is_tidy(s);
    law_tidy_is_kept(sanitized(s));
}

/// The characters of a text that a name may hold, without dashes, in order.
pub open spec fn beside_dashes(s: Seq<char>) -> Seq<char>
    decreases s.len(),
{
    if s.len() == 0 {
        s
    } else if name_char(s.last()) && s.last() != '-' {
        beside_dashes(s.drop_last()).push(s.last())
    } else {
        beside_dashes(s.drop_last())
    }
}

proof fn lemma_beside_first_dash(s: Seq<char>)
    requires
        s.len() > 0,
        s[0] == '-',
    ensures
        beside_dashes(s.skip(1)) == beside_dashes(s),
    decreases s.len(),
{
    if s.len() > 1 {
        lemma_beside_first_dash(s.drop_last());
        assert(s.skip(1).drop_last() =~= s.drop_last().skip(1));
        assert(s.skip(1).last() == s.last());
    } else {
        assert(s.drop_last() =~= Seq::<char>::empty());
        assert(s.skip(1) =~= Seq::<char>::empty());
    }
}

proof fn lemma_beside_dashed(s: Seq<char>)
    ensures
        beside_dashes(dashed(s)) == beside_dashes(s),
    decreases s.len(),
{
    if s.len() > 0 {
        let before = dashed(s.drop_last());
        lemma_beside_dashed(s.drop_last());
        let c = if name_char(s.last()) {
            s.last()
        } else {
            '-'
        };
        assert(before.push(c).drop_last() =~= before);
    }
}

proof fn lemma_beside_trim_start(s: Seq<char>)
    ensures
        beside_dashes(trim_start(s, '-')) == beside_dashes(s),
    decreases s.len(),
{
    if s.len() > 0 && s[0] == '-' {
        lemma_beside_first_dash(s);
        lemma_beside_trim_start(s.skip(1));
    }
}

proof fn lemma_beside_trim_end(s: Seq<char>)
    ensures
        beside_dashes(trim_end(s, '-')) == beside_dashes(s),
    decreases s.len(),
{
    if s.len() > 0 && s.last() == '-' {
        lemma_beside_trim_end(s.drop_last());
    }
}

/// Sanitizing loses and adds nothing but dashes: the other characters that a
/// name may hold stay, each as often as it was there and in the same order.
pub proof fn law_sanitizing_touches_only_dashes(s: Seq<char>)
    ensures
        beside_dashes(sanitized(s)) == beside_dashes(s),
{
    lemma_beside_dashed(s);
    lemma_beside_trim_start(dashed(s));
    lemma_beside_trim_end(trim_start(dashed(s), '-'));
}

/// `p` with a leading home directory written `~`.
pub open spec fn home_relative(p: Seq<char>, home: Seq<char>) -> Seq<char> {
    if home.len() == 0 {
        p
    } else if p == home {
        "~"@
    } else if begins(p, home + "/"@) {
        "~/"@ + p.skip((home + "/"@).len() as int)
    } else {
        p
    }
}

/// Replace a leading home directory with `~`. An empty `home` is none.
pub fn short_path(p: &str, home: &str) -> (r: String)
    ensures
        r@ == home_relative(p@, home@),
{
    if home.is_empty() {
        return p.to_owned();
    }
    if str_eq(p, home) {
        return "~".to_owned();
    }
    let mut prefix = home.to_owned();
    prefix.append("/");
    match strip_prefix(p, prefix.as_str()) {
        Some(rest) => {
            let mut out = "~/".to_owned();
            out.append(rest.as_str());
            out
        },
        None => p.to_owned(),
    }
}

/// `Ns ago`, `Nm ago`, `Nh ago` or `Nd ago` for an age in seconds.
pub open spec fn ago_text(seconds: int) -> Seq<char> {
    if seconds < 60 {
        dec_int(seconds) + "s ago"@
    } else if seconds < 3600 {
        dec_int(seconds / 60) + "m ago"@
    } else if seconds < 86400 {
        dec_int(seconds / 3600) + "h ago"@
    } else {
        dec_int(seconds / 86400) + "d ago"@
    }
}

/// Computes `ago_text`.
pub fn time_ago_from_seconds(seconds: i64) -> (r: String)
    ensures
        r@ == ago_text(seconds as int),
{
    if seconds < 60 {
        let mut out = i64_string(seconds);
        out.append("s ago");
        return out;
    }
    let minutes: i64 = seconds / 60;
    if minutes < 60 {
        let mut out = i64_string(minutes);
        out.append("m ago");
        return out;
    }
    let hours: i64 = minutes / 60;
    assert(hours == seconds as int / 3600);
    if hours < 24 {
        let mut out = i64_string(hours);
        out.append("h ago");
        return out;
    }
    assert(hours as int / 24 == seconds as int / 86400);
    let mut out = i64_string(hours / 24);
    out.append("d ago");
    out
}

/// How long ago a timestamp was, seen from `now_ms`; `? ago` for a
/// timestamp that cannot be read.
pub fn time_ago(iso: &str, now_ms: i64) -> (r: String)
    ensures
        r@ == (match iso_ms(iso@) {
            Some(then) => ago_text((now_ms - then) / 1000),
            None => "? ago"@,
        }),
{
    match parse_iso8601_ms(iso) {
        Some(then) => {
            let age: i128 = now_ms as i128 - then as i128;
            let seconds: i64 = if age >= 0 {
                (age / 1000) as i64
            } else {
                let k: i128 = -(age + 1);
                let q: i128 = -(k / 1000) - 1;
                proof {
                    let r = 999 - k as int % 1000;
                    assert(age == q * 1000 + r && 0 <= r < 1000);
                    lemma_fundamental_div_mod_converse(age as int, 1000, q as int, r);
                }
                q as i64
            };
            assert(seconds == (now_ms - then) / 1000);
            time_ago_from_seconds(seconds)
        },
        None => "? ago".to_owned(),
    }
}

/// Which names a session may have: at most 255 letters, digits, dots, dashes
/// and underscores, not only one or two dots, and so short that its socket's
/// path has room.
pub proof fn law_names_of_sessions(root: Seq<char>, name: Seq<char>)
    ensures
        name_error(root, name) is None <==> 0 < name.len() && utf16_len(name) <= 255 && name
            != "."@ && name != ".."@ && (forall|i: int|
            0 <= i < name.len() ==> ('a' <= (#[trigger] name[i]) && name[i] <= 'z') || ('A'
                <= name[i] && name[i] <= 'Z') || ('0' <= name[i] && name[i] <= '9') || name[i]
                == '.' || name[i] == '_' || name[i] == '-') && encode_utf8(
            session_file(root, name, ".sock"@),
        ).len() <= 104,
{
    assert(all_name_chars(name) <==> forall|i: int|
        0 <= i < name.len() ==> name_char(#[trigger] name[i]));
    if name_error(root, name) is None {
        assert forall|i: int| 0 <= i < name.len() implies ('a' <= (#[trigger] name[i]) && name[i]
            <= 'z') || ('A' <= name[i] && name[i] <= 'Z') || ('0' <= name[i] && name[i] <= '9')
            || name[i] == '.' || name[i] == '_' || name[i] == '-' by {
            assert(name_char(name[i]));
        }
    }
}

/// What is said about a name that a session may not have: the first thing that
/// is wrong with it, in this order.
pub proof fn law_refused_names(root: Seq<char>, name: Seq<char>)
    ensures
        name.len() == 0 ==> name_error(root, name) == Some("Session name cannot be empty."@),
        name.len() > 0 && (name == "."@ || name == ".."@) ==> name_error(root, name) == Some(
            "Invalid session name \""@ + name + "\". Names cannot be \".\" or \"..\"."@,
        ),
        name.len() > 0 && name != "."@ && name != ".."@ && utf16_len(name) > 255 ==> name_error(
            root,
            name,
        ) == Some("Session name too long (max 255 characters)."@),
        name.len() > 0 && utf16_len(name) <= 255 && !all_name_chars(name) && name != "."@ && name
            != ".."@ ==> name_error(root, name) == Some(
            "Invalid session name \""@ + name
                + "\". Names may only contain letters, numbers, dots, hyphens, and underscores."@,
        ),
        name.len() > 0 && utf16_len(name) <= 255 && all_name_chars(name) && name != "."@ && name
            != ".."@ && socket_bytes(root, name) > 104 ==> name_error(root, name) == Some(
            "Session name \""@ + name + "\" produces a socket path of "@ + dec(
                socket_bytes(root, name),
            ) + " bytes, which exceeds the "@ + dec(104) + "-byte kernel limit by "@ + dec(
                (socket_bytes(root, name) - 104) as nat,
            ) + ". Shorten the name or set PTY_SESSION_DIR to a shorter path."@,
        ),
{
}

/// White space, and what may not stand in a display name.
pub proof fn law_characters_by_kind(c: char)
    ensures
        js_space(c) <==> c == ' ' || c == '\t' || c == '\n' || c == '\r' || c == '\x0b' || c
            == '\x0c' || c == '\u{a0}' || c == '\u{1680}' || ('\u{2000}' <= c && c <= '\u{200a}')
            || c == '\u{2028}' || c == '\u{2029}' || c == '\u{202f}' || c == '\u{205f}' || c
            == '\u{3000}' || c == '\u{feff}',
        breaks_line(c) <==> c < ' ' || ('\x7f' <= c && c <= '\u{9f}') || c == '\u{2028}' || c
            == '\u{2029}',
        control(c) <==> c < ' ' || ('\x7f' <= c && c <= '\u{9f}'),
{
}

/// Trimming takes the white space off both ends and nothing else.
pub proof fn law_trimmed_names(a: Seq<char>, s: Seq<char>, b: Seq<char>)
    requires
        forall|i: int| 0 <= i < a.len() ==> js_space(#[trigger] a[i]),
        forall|i: int| 0 <= i < b.len() ==> js_space(#[trigger] b[i]),
        s.len() > 0,
        !js_space(s[0]) && !js_space(s.last()),
    ensures
        js_trimmed(a + s + b) == s,
{
    assert(a + s + b =~= a + (s + b));
    assert((s + b)[0] == s[0]);
    lemma_js_front(a, s + b);
    lemma_js_back(s, b);
}

proof fn lemma_js_front(a: Seq<char>, s: Seq<char>)
    requires
        forall|i: int| 0 <= i < a.len() ==> js_space(#[trigger] a[i]),
        s.len() > 0,
        !js_space(s[0]),
    ensures
        js_trim_start(a + s) == s,
    decreases a.len(),
{
    if a.len() > 0 {
        assert((a + s)[0] == a[0]);
        assert((a + s).skip(1) =~= a.skip(1) + s);
        assert forall|i: int| 0 <= i < a.skip(1).len() implies js_space(#[trigger] a.skip(1)[i]) by {
            assert(a.skip(1)[i] == a[i + 1]);
        }
        lemma_js_front(a.skip(1), s);
    } else {
        assert(a + s =~= s);
    }
}

proof fn lemma_js_back(s: Seq<char>, b: Seq<char>)
    requires
        forall|i: int| 0 <= i < b.len() ==> js_space(#[trigger] b[i]),
        s.len() > 0,
        !js_space(s.last()),
    ensures
        js_trim_end(s + b) == s,
    decreases b.len(),
{
    if b.len() > 0 {
        assert((s + b).last() == b.last());
        assert((s + b).drop_last() =~= s + b.drop_last());
        assert forall|i: int| 0 <= i < b.drop_last().len() implies js_space(
            #[trigger] b.drop_last()[i],
        ) by {
            assert(b.drop_last()[i] == b[i]);
        }
        lemma_js_back(s, b.drop_last());
    } else {
        assert(s + b =~= s);
    }
}

/// Which display names there are, and what is said about the others.
pub proof fn law_display_names(name: Seq<char>)
    ensures
        display_name_error(name) is None <==> 0 < name.len() <= 160 && js_trimmed(name) == name
            && forall|i: int| 0 <= i < name.len() ==> !breaks_line(#[trigger] name[i]),
        name.len() == 0 ==> display_name_error(name) == Some("Display name cannot be empty."@),
        name.len() > 0 && js_trimmed(name) != name ==> display_name_error(name) == Some(
            "Display name must be trimmed."@,
        ),
        name.len() > 160 && js_trimmed(name) == name ==> display_name_error(name) == Some(
            "Display name too long (max 160 Unicode scalars)."@,
        ),
        0 < name.len() <= 160 && js_trimmed(name) == name && display_name_error(name) is Some
            ==> display_name_error(name) == Some(
            "Display name must be single-line and contain no control characters."@,
        ),
{
}

/// A random id has one character for each byte, out of the 31 digits and small
/// letters that are not mistaken for one another.
pub proof fn law_characters_of_an_id(bytes: Seq<u8>, i: int)
    requires
        0 <= i < bytes.len(),
    ensures
        id_of_bytes(bytes).len() == bytes.len(),
        SESSION_ID_ALPHABET@ == "23456789abcdefghjkmnpqrstuvwxyz"@,
        SESSION_ID_ALPHABET@.len() == 31,
        id_of_bytes(bytes)[i] == SESSION_ID_ALPHABET@[bytes[i] as int % 31],
        SESSION_ID_ATTEMPTS == 8,
{
    reveal_strlit("23456789abcdefghjkmnpqrstuvwxyz");
}

/// The base of a path is what stands behind its last slash, slashes at the end
/// left out.
pub proof fn law_base_of_a_path(dir: Seq<char>, name: Seq<char>, slashes: Seq<char>)
    requires
        name.len() > 0,
        !name.contains('/'),
        forall|i: int| 0 <= i < slashes.len() ==> (#[trigger] slashes[i]) == '/',
    ensures
        base_of(dir + seq!['/'] + name + slashes) == name,
        base_of(name + slashes) == name,
{
    lemma_trimmed_slashes(dir + seq!['/'] + name, slashes);
    lemma_trimmed_slashes(name, slashes);
    let t = dir + seq!['/'] + name;
    assert(t.last() == name.last());
    assert(name.contains(name.last()));
    crate::text::law_finding_a_character(t, '/', 0);
    crate::text::law_finding_a_character(name, '/', 0);
    assert(t[dir.len() as int] == '/');
    let k = last_index(t, '/');
    if k > dir.len() {
        assert(t[k] == name[k - dir.len() - 1]);
        assert(name.contains('/'));
    }
    assert(k == dir.len());
    assert(t.skip(k + 1) =~= name);
    let j = last_index(name, '/');
    if j >= 0 {
        assert(name.contains('/'));
    }
    assert(name.skip(0) =~= name);
}

proof fn lemma_trimmed_slashes(t: Seq<char>, slashes: Seq<char>)
    requires
        t.len() > 0,
        t.last() != '/',
        forall|i: int| 0 <= i < slashes.len() ==> (#[trigger] slashes[i]) == '/',
    ensures
        trim_end(t + slashes, '/') == t,
    decreases slashes.len(),
{
    if slashes.len() > 0 {
        assert((t + slashes).last() == slashes[slashes.len() - 1]);
        assert((t + slashes).drop_last() =~= t + slashes.drop_last());
        assert forall|i: int| 0 <= i < slashes.drop_last().len() implies (
        #[trigger] slashes.drop_last()[i]) == '/' by {
            assert(slashes.drop_last()[i] == slashes[i]);
        }
        lemma_trimmed_slashes(t, slashes.drop_last());
    } else {
        assert(t + slashes =~= t);
    }
}

/// An extension is what stands behind the last dot, if anything does.
pub proof fn law_extension_of_a_name(base: Seq<char>, ext: Seq<char>)
    requires
        !ext.contains('.'),
    ensures
        ext.len() > 0 ==> without_extension(base + seq!['.'] + ext) == base,
        without_extension(base + seq!['.']) == base + seq!['.'],
        without_extension(ext) == ext,
{
    let f = base + seq!['.'] + ext;
    crate::text::law_finding_a_character(f, '.', 0);
    assert(f[base.len() as int] == '.');
    let k = last_index(f, '.');
    if k > base.len() {
        assert(f[k] == ext[k - base.len() - 1]);
        assert(ext.contains('.'));
    }
    assert(f.take(base.len() as int) =~= base);
    let g = base + seq!['.'];
    crate::text::law_finding_a_character(g, '.', 0);
    assert(g[base.len() as int] == '.');
    crate::text::law_finding_a_character(ext, '.', 0);
    if last_index(ext, '.') >= 0 {
        assert(ext.contains('.'));
    }
}

/// The first argument that is short and no option lends its name to the
/// command's, where that name is plain.
pub proof fn law_name_of_a_command(cmd: Seq<char>, args: Seq<Seq<char>>, k: int)
    requires
        0 <= k <= args.len(),
        forall|i: int|
            0 <= i < k ==> begins(#[trigger] args[i], "-"@) || utf16_len(args[i]) >= 30,
        k < args.len() ==> !begins(args[k], "-"@) && utf16_len(args[k]) < 30,
    ensures
        k == args.len() ==> command_part(cmd, args) == base_of(cmd),
        k < args.len() ==> ({
            let a = without_extension(base_of(args[k]));
            command_part(cmd, args) == (if a.len() > 0 && all_name_chars(a) {
                base_of(cmd) + "-"@ + a
            } else {
                base_of(cmd)
            })
        }),
{
    lemma_first_lender(args, 0, k);
}

proof fn lemma_first_lender(args: Seq<Seq<char>>, from: int, k: int)
    requires
        0 <= from <= k <= args.len(),
        forall|i: int|
            from <= i < k ==> begins(#[trigger] args[i], "-"@) || utf16_len(args[i]) >= 30,
        k < args.len() ==> !begins(args[k], "-"@) && utf16_len(args[k]) < 30,
    ensures
        first_lender(args, from) == k,
    decreases k - from,
{
    if from < k {
        assert(!lends_name(args[from]));
        lemma_first_lender(args, from + 1, k);
    }
}

/// A path in the home directory is shown with a tilde, any other as it is.
pub proof fn law_paths_at_home(home: Seq<char>, rest: Seq<char>, p: Seq<char>)
    requires
        home.len() > 0,
    ensures
        home_relative(home, home) == "~"@,
        home_relative(home + "/"@ + rest, home) == "~/"@ + rest,
        p != home && !begins(p, home + "/"@) ==> home_relative(p, home) == p,
        home_relative(p, Seq::empty()) == p,
{
    let q = home + "/"@ + rest;
    reveal_strlit("/");
    assert("/"@.len() == 1);
    assert(q != home) by {
        assert(q.len() > home.len());
    }
    assert(q.subrange(0, (home + "/"@).len() as int) =~= home + "/"@);
    assert(q.skip((home + "/"@).len() as int) =~= rest);
}

/// How long ago something was, in the largest unit that is full.
pub proof fn law_how_long_ago(n: int)
    ensures
        n < 60 ==> ago_text(n) == dec_int(n) + "s ago"@,
        1 <= n < 60 ==> ago_text(60 * n) == dec_int(n) + "m ago"@ && ago_text(60 * n + 59)
            == dec_int(n) + "m ago"@,
        1 <= n < 24 ==> ago_text(3600 * n) == dec_int(n) + "h ago"@ && ago_text(3600 * n + 3599)
            == dec_int(n) + "h ago"@,
        1 <= n ==> ago_text(86400 * n) == dec_int(n) + "d ago"@ && ago_text(86400 * n + 86399)
            == dec_int(n) + "d ago"@,
{
}

} // verus!
