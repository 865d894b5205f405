//! Named-key resolution.
//!
//! Turns key specs like `ctrl+c`, `return`, `alt+x`, `shift+tab` into the
//! characters that a real terminal would send. Modifier combinations use the
//! xterm modifier-parameter encoding; control characters use CSI-u.

use crate::input::{
    csi, events_from, law_modified_control_key, law_modified_cursor_key, lemma_one_event,
    named_view, step,
};
use crate::text::{
    ascii_lower, begins, char_string, dec, lemma_lowered_ascii, lemma_pieces_nonempty,
    lemma_views_push, lower_text, lowered, pieces, split_on, str_eq, strip_prefix, to_chars,
    to_lowercase, u64_string, views,
};
use vstd::prelude::*;
use vstd::utf8::is_ascii_chars;

verus! {

/// Error returned when a key spec references an unknown key or modifier.
#[derive(Debug, Clone, PartialEq, Eq)]
pub struct KeyError(pub String);

impl KeyError {
    /// The sentence to show.
    pub fn message(&self) -> (m: String)
        ensures
            m@ == self.0@,
    {
        self.0.clone()
    }
}

/// The sentence every key-spec error ends with.
pub const KEY_SPEC_HELP: &'static str =
    "Use ctrl+u, ctrl-u, ctrl_u, or C-u; supported modifiers are ctrl, alt, and shift; supported keys are a-z, backspace, delete, down, end, enter, esc, escape, home, left, pagedown, pageup, return, right, space, tab, up.";

// ---- the model -----------------------------------------------------------

/// `+`, `_` and `-` all separate a modifier from what follows it.
pub open spec fn separators() -> Seq<char> {
    seq!['+', '_', '-']
}

/// What each named key sends when no modifier is held.
pub open spec fn key_text(name: Seq<char>) -> Option<Seq<char>> {
    if name == "return"@ || name == "enter"@ {
        Some("\r"@)
    } else if name == "tab"@ {
        Some("\t"@)
    } else if name == "escape"@ || name == "esc"@ {
        Some("\x1b"@)
    } else if name == "space"@ {
        Some(" "@)
    } else if name == "backspace"@ {
        Some("\x7f"@)
    } else if name == "delete"@ {
        Some("\x1b[3~"@)
    } else if name == "up"@ {
        Some("\x1b[A"@)
    } else if name == "down"@ {
        Some("\x1b[B"@)
    } else if name == "right"@ {
        Some("\x1b[C"@)
    } else if name == "left"@ {
        Some("\x1b[D"@)
    } else if name == "home"@ {
        Some("\x1b[H"@)
    } else if name == "end"@ {
        Some("\x1b[F"@)
    } else if name == "pageup"@ {
        Some("\x1b[5~"@)
    } else if name == "pagedown"@ {
        Some("\x1b[6~"@)
    } else {
        None
    }
}

/// The CSI-u code of a control-character key.
pub open spec fn csi_u_code(name: Seq<char>) -> Option<nat> {
    if name == "return"@ || name == "enter"@ {
        Some(13nat)
    } else if name == "tab"@ {
        Some(9nat)
    } else if name == "escape"@ || name == "esc"@ {
        Some(27nat)
    } else if name == "space"@ {
        Some(32nat)
    } else if name == "backspace"@ {
        Some(127nat)
    } else {
        None
    }
}

/// The number of a key that sends `ESC [ <number> ~`.
pub open spec fn tilde_code(name: Seq<char>) -> Option<Seq<char>> {
    if name == "delete"@ {
        Some("3"@)
    } else if name == "pageup"@ {
        Some("5"@)
    } else if name == "pagedown"@ {
        Some("6"@)
    } else {
        None
    }
}

/// The letter of a key that sends `ESC [ <letter>`.
pub open spec fn letter_code(name: Seq<char>) -> Option<Seq<char>> {
    if name == "up"@ {
        Some("A"@)
    } else if name == "down"@ {
        Some("B"@)
    } else if name == "right"@ {
        Some("C"@)
    } else if name == "left"@ {
        Some("D"@)
    } else if name == "home"@ {
        Some("H"@)
    } else if name == "end"@ {
        Some("F"@)
    } else {
        None
    }
}

/// The three modifiers.
pub open spec fn modifier_name(m: Seq<char>) -> bool {
    m == "ctrl"@ || m == "alt"@ || m == "shift"@
}

/// A key that is one letter, `a` to `z`.
pub open spec fn letter_key(base: Seq<char>) -> bool {
    base.len() == 1 && 'a' <= base[0] && base[0] <= 'z'
}

/// `C-` at the beginning of a spec, in either case.
pub open spec fn leading_c_dash(spec: Seq<char>) -> bool {
    spec.len() >= 2 && (spec[0] == 'c' || spec[0] == 'C') && spec[1] == '-'
}

/// The modifiers that a spec writes: every part but the last, where a leading
/// `C-` spells `ctrl`.
pub open spec fn modifiers_of(parts: Seq<Seq<char>>, spec: Seq<char>) -> Seq<Seq<char>> {
    Seq::new(
        (parts.len() - 1) as nat,
        |i: int|
            if i == 0 && parts[0] == "c"@ && leading_c_dash(spec) {
                "ctrl"@
            } else {
                parts[i]
            },
    )
}

/// The first of the modifiers that is none of the three, or the length.
pub open spec fn first_unknown(mods: Seq<Seq<char>>, from: int) -> int
    decreases mods.len() - from,
{
    if 0 <= from < mods.len() && modifier_name(mods[from]) {
        first_unknown(mods, from + 1)
    } else {
        from
    }
}

/// The xterm modifier parameter.
pub open spec fn modifier_parameter(mods: Seq<Seq<char>>) -> nat {
    1 + (if mods.contains("shift"@) {
        1nat
    } else {
        0
    }) + (if mods.contains("alt"@) {
        2nat
    } else {
        0
    }) + (if mods.contains("ctrl"@) {
        4nat
    } else {
        0
    })
}

/// What a letter sends under modifiers: control wins over shift, and alt puts
/// an escape in front.
pub open spec fn letter_text(c: char, mods: Seq<Seq<char>>) -> Seq<char> {
    let sent = if mods.contains("ctrl"@) {
        (c as int - 96) as char
    } else if mods.contains("shift"@) {
        (c as int - 32) as char
    } else {
        c
    };
    if mods.contains("alt"@) {
        seq!['\x1b', sent]
    } else {
        seq![sent]
    }
}

/// What a named key sends under at least one modifier.
pub open spec fn modified_text(base: Seq<char>, mods: Seq<Seq<char>>) -> Seq<char> {
    let p = modifier_parameter(mods);
    if base == "tab"@ && p == 2 {
        "\x1b[Z"@
    } else if tilde_code(base) is Some {
        "\x1b["@ + tilde_code(base)->0 + ";"@ + dec(p) + "~"@
    } else if letter_code(base) is Some {
        "\x1b[1;"@ + dec(p) + letter_code(base)->0
    } else {
        "\x1b["@ + dec(csi_u_code(base)->0) + ";"@ + dec(p) + "u"@
    }
}

/// Whether the parts form a chord: known modifiers in front of a known key.
pub open spec fn valid_chord(parts: Seq<Seq<char>>, spec: Seq<char>) -> bool {
    let base = parts.last();
    let mods = modifiers_of(parts, spec);
    base.len() > 0 && mods.len() > 0 && first_unknown(mods, 0) == mods.len() && (key_text(
        base,
    ) is Some || letter_key(base))
}

/// What the key spec `spec`, whose lower-case form is `lower`, resolves to:
/// the characters sent, or the sentence of the error.
pub open spec fn resolved(spec: Seq<char>, lower: Seq<char>) -> Result<Seq<char>, Seq<char>> {
    let parts = pieces(lower, separators());
    let base = parts.last();
    let mods = modifiers_of(parts, spec);
    let unknown = first_unknown(mods, 0);
    if parts.len() > 1 && key_text(lower) is Some && valid_chord(parts, spec) {
        Err(
            "Ambiguous key spec \""@ + spec
                + "\": it is both a named key and a modifier chord. "@ + KEY_SPEC_HELP@,
        )
    } else if key_text(lower) is Some && !valid_chord(parts, spec) {
        Ok(key_text(lower)->0)
    } else if base.len() == 0 || (exists|i: int|
        0 <= i < parts.len() - 1 && #[trigger] parts[i].len() == 0) {
        Err("Incomplete key spec \""@ + spec + "\". "@ + KEY_SPEC_HELP@)
    } else if unknown < mods.len() {
        Err(
            "Unknown modifier: \""@ + mods[unknown] + "\" in key spec \""@ + spec + "\". "@
                + KEY_SPEC_HELP@,
        )
    } else if letter_key(base) {
        Ok(letter_text(base[0], mods))
    } else if key_text(base) is None {
        Err(
            "Unknown key: \""@ + base + "\" in key spec \""@ + spec + "\". "@ + KEY_SPEC_HELP@,
        )
    } else if mods.len() == 0 {
        Ok(key_text(base)->0)
    } else {
        Ok(modified_text(base, mods))
    }
}

/// Whether a returned value is the expected one.
pub open spec fn outcome(r: Result<String, KeyError>, e: Result<Seq<char>, Seq<char>>) -> bool {
    match r {
        Ok(s) => e == Ok::<Seq<char>, Seq<char>>(s@),
        Err(k) => e == Err::<Seq<char>, Seq<char>>(k.0@),
    }
}

// ---- the resolver --------------------------------------------------------

fn key_map(name: &str) -> (r: Option<&'static str>)
    ensures
        match r {
            Some(t) => key_text(name@) == Some(t@),
            None => key_text(name@) is None,
        },
{
    if str_eq(name, "return") || str_eq(name, "enter") {
        Some("\r")
    } else if str_eq(name, "tab") {
        Some("\t")
    } else if str_eq(name, "escape") || str_eq(name, "esc") {
        Some("\x1b")
    } else if str_eq(name, "space") {
        Some(" ")
    } else if str_eq(name, "backspace") {
        Some("\x7f")
    } else if str_eq(name, "delete") {
        Some("\x1b[3~")
    } else if str_eq(name, "up") {
        Some("\x1b[A")
    } else if str_eq(name, "down") {
        Some("\x1b[B")
    } else if str_eq(name, "right") {
        Some("\x1b[C")
    } else if str_eq(name, "left") {
        Some("\x1b[D")
    } else if str_eq(name, "home") {
        Some("\x1b[H")
    } else if str_eq(name, "end") {
        Some("\x1b[F")
    } else if str_eq(name, "pageup") {
        Some("\x1b[5~")
    } else if str_eq(name, "pagedown") {
        Some("\x1b[6~")
    } else {
        None
    }
}

fn csi_u_keycode(name: &str) -> (r: Option<u64>)
    ensures
        match r {
            Some(n) => csi_u_code(name@) == Some(n as nat),
            None => csi_u_code(name@) is None,
        },
{
    if str_eq(name, "return") || str_eq(name, "enter") {
        Some(13)
    } else if str_eq(name, "tab") {
        Some(9)
    } else if str_eq(name, "escape") || str_eq(name, "esc") {
        Some(27)
    } else if str_eq(name, "space") {
        Some(32)
    } else if str_eq(name, "backspace") {
        Some(127)
    } else {
        None
    }
}

fn tilde_number(name: &str) -> (r: Option<&'static str>)
    ensures
        match r {
            Some(t) => tilde_code(name@) == Some(t@),
            None => tilde_code(name@) is None,
        },
{
    if str_eq(name, "delete") {
        Some("3")
    } else if str_eq(name, "pageup") {
        Some("5")
    } else if str_eq(name, "pagedown") {
        Some("6")
    } else {
        None
    }
}

fn final_letter(name: &str) -> (r: Option<&'static str>)
    ensures
        match r {
            Some(t) => letter_code(name@) == Some(t@),
            None => letter_code(name@) is None,
        },
{
    if str_eq(name, "up") {
        Some("A")
    } else if str_eq(name, "down") {
        Some("B")
    } else if str_eq(name, "right") {
        Some("C")
    } else if str_eq(name, "left") {
        Some("D")
    } else if str_eq(name, "home") {
        Some("H")
    } else if str_eq(name, "end") {
        Some("F")
    } else {
        None
    }
}

fn is_modifier(m: &str) -> (r: bool)
    ensures
        r == modifier_name(m@),
{
    str_eq(m, "ctrl") || str_eq(m, "alt") || str_eq(m, "shift")
}

fn is_letter(base: &[char]) -> (r: bool)
    ensures
        r == letter_key(base@),
{
    base.len() == 1 && 'a' <= base[0] && base[0] <= 'z'
}

fn has_name(mods: &[String], name: &str) -> (r: bool)
    ensures
        r == views(mods@).contains(name@),
{
    let mut i: usize = 0;
    while i < mods.len()
        invariant
            i <= mods.len(),
            forall|j: int| 0 <= j < i ==> views(mods@)[j] != name@,
        decreases mods.len() - i,
    {
        if str_eq(mods[i].as_str(), name) {
            assert(views(mods@)[i as int] == name@);
            return true;
        }
        i += 1;
    }
    false
}

fn modifier_param(mods: &[String]) -> (r: u64)
    ensures
        r == modifier_parameter(views(mods@)),
{
    let shift: u64 = if has_name(mods, "shift") {
        1
    } else {
        0
    };
    let alt: u64 = if has_name(mods, "alt") {
        2
    } else {
        0
    };
    let ctrl: u64 = if has_name(mods, "ctrl") {
        4
    } else {
        0
    };
    1 + shift + alt + ctrl
}

/// Every part but the last, with a leading `C-` read as `ctrl`.
fn take_modifiers(parts: &[String], spec: &[char]) -> (mods: Vec<String>)
    requires
        parts@.len() >= 1,
    ensures
        views(mods@) == modifiers_of(views(parts@), spec@),
{
    let c_dash = spec.len() >= 2 && (spec[0] == 'c' || spec[0] == 'C') && spec[1] == '-';
    let mut mods: Vec<String> = Vec::new();
    let ghost want = modifiers_of(views(parts@), spec@);
    let mut i: usize = 0;
    while i + 1 < parts.len()
        invariant
            parts@.len() >= 1,
            i + 1 <= parts.len(),
            c_dash == leading_c_dash(spec@),
            want == modifiers_of(views(parts@), spec@),
            views(mods@) == want.take(i as int),
        decreases parts.len() - i,
    {
        let ghost before = mods@;
        if i == 0 && str_eq(parts[i].as_str(), "c") && c_dash {
            mods.push("ctrl".to_owned());
        } else {
            mods.push(parts[i].clone());
        }
        assert(mods@.last()@ == want[i as int]);
        proof {
            lemma_views_push(before, mods@.last());
            assert(mods@ =~= before.push(mods@.last()));
            assert(want.take(i + 1) =~= want.take(i as int).push(want[i as int]));
        }
        i += 1;
    }
    assert(want.take(want.len() as int) =~= want);
    mods
}

fn find_unknown(mods: &[String]) -> (r: usize)
    ensures
        r == first_unknown(views(mods@), 0),
        r <= mods@.len(),
{
    let mut i: usize = 0;
    while i < mods.len() && is_modifier(mods[i].as_str())
        invariant
            i <= mods.len(),
            first_unknown(views(mods@), 0) == first_unknown(views(mods@), i as int),
        decreases mods.len() - i,
    {
        i += 1;
    }
    i
}

fn any_empty(parts: &[String], upto: usize) -> (r: bool)
    requires
        upto <= parts@.len(),
    ensures
        r == exists|i: int| 0 <= i < upto && #[trigger] views(parts@)[i].len() == 0,
{
    let mut i: usize = 0;
    while i < upto
        invariant
            i <= upto <= parts.len(),
            forall|j: int| 0 <= j < i ==> #[trigger] views(parts@)[j].len() != 0,
        decreases upto - i,
    {
        if parts[i].as_str().is_empty() {
            assert(views(parts@)[i as int].len() == 0);
            return true;
        }
        i += 1;
    }
    false
}

fn letter_sends(c: char, mods: &[String]) -> (r: String)
    requires
        'a' <= c && c <= 'z',
    ensures
        r@ == letter_text(c, views(mods@)),
{
    let code: u8 = c as u8;
    let sent = if has_name(mods, "ctrl") {
        (code - 96) as char
    } else if has_name(mods, "shift") {
        (code - 32) as char
    } else {
        c
    };
    if has_name(mods, "alt") {
        let mut s = char_string('\x1b');
        s.push(sent);
        assert(s@ =~= seq!['\x1b', sent]);
        s
    } else {
        char_string(sent)
    }
}

fn modified_sends(base: &str, mods: &[String]) -> (r: String)
    requires
        key_text(base@) is Some,
    ensures
        r@ == modified_text(base@, views(mods@)),
{
    let p = modifier_param(mods);
    if str_eq(base, "tab") && p == 2 {
        return "\x1b[Z".to_owned();
    }
    let digits = u64_string(p);
    if let Some(n) = tilde_number(base) {
        let mut s = "\x1b[".to_owned();
        s.append(n);
        s.append(";");
        s.append(digits.as_str());
        s.append("~");
        return s;
    }
    if let Some(letter) = final_letter(base) {
        let mut s = "\x1b[1;".to_owned();
        s.append(digits.as_str());
        s.append(letter);
        return s;
    }
    match csi_u_keycode(base) {
        Some(code) => {
            let code_digits = u64_string(code);
            let mut s = "\x1b[".to_owned();
            s.append(code_digits.as_str());
            s.append(";");
            s.append(digits.as_str());
            s.append("u");
            s
        },
        None => {
            assert(false);
            String::new()
        },
    }
}

/// An error sentence about the whole spec.
fn spec_error(label: &str, spec: &str, rest: &str) -> (e: KeyError)
    ensures
        e.0@ == label@ + spec@ + rest@ + KEY_SPEC_HELP@,
{
    let mut s = label.to_owned();
    s.append(spec);
    s.append(rest);
    s.append(KEY_SPEC_HELP);
    KeyError(s)
}

/// An error sentence about one part of the spec.
fn part_error(label: &str, part: &str, spec: &str) -> (e: KeyError)
    ensures
        e.0@ == label@ + part@ + "\" in key spec \""@ + spec@ + "\". "@ + KEY_SPEC_HELP@,
{
    let mut s = label.to_owned();
    s.append(part);
    s.append("\" in key spec \"");
    s.append(spec);
    s.append("\". ");
    s.append(KEY_SPEC_HELP);
    KeyError(s)
}

/// Resolve the key spec `spec`, whose lower-case form is `lower`.
pub fn resolve_lowered(spec: &str, lower: &str) -> (r: Result<String, KeyError>)
    ensures
        outcome(r, resolved(spec@, lower@)),
{
    let spec_chars = to_chars(spec);
    let lower_chars = to_chars(lower);
    let seps: [char; 3] = ['+', '_', '-'];
    assert(seps@ =~= separators());
    let parts = split_on(lower_chars.as_slice(), &seps);
    let last = parts.len() - 1;
    let base = parts[last].as_str();
    let base_chars = to_chars(base);
    let mods = take_modifiers(parts.as_slice(), spec_chars.as_slice());
    assert(views(parts@).last() == base@);
    let unknown = find_unknown(mods.as_slice());
    let whole = key_map(lower);
    let mapped = key_map(base);
    let letter = is_letter(base_chars.as_slice());
    let chord = base_chars.len() > 0 && mods.len() > 0 && unknown == mods.len()
        && (mapped.is_some() || letter);
    assert(chord == valid_chord(views(parts@), spec@));
    // A name with a separator could be both a named key and a chord. Refuse
    // the collision rather than silently pick one.
    if parts.len() > 1 && whole.is_some() && chord {
        return Err(
            spec_error(
                "Ambiguous key spec \"",
                spec,
                "\": it is both a named key and a modifier chord. ",
            ),
        );
    }
    if whole.is_some() && !chord {
        return Ok(whole.unwrap().to_owned());
    }
    if base_chars.len() == 0 || any_empty(parts.as_slice(), last) {
        return Err(spec_error("Incomplete key spec \"", spec, "\". "));
    }
    if unknown < mods.len() {
        assert(views(mods@)[unknown as int] == mods@[unknown as int]@);
        return Err(part_error("Unknown modifier: \"", mods[unknown].as_str(), spec));
    }
    if letter {
        return Ok(letter_sends(base_chars[0], mods.as_slice()));
    }
    match mapped {
        None => Err(part_error("Unknown key: \"", base, spec)),
        Some(text) => {
            if mods.len() == 0 {
                Ok(text.to_owned())
            } else {
                Ok(modified_sends(base, mods.as_slice()))
            }
        },
    }
}

/// Resolve a key spec like `ctrl+c`, `return`, `alt+x` into the characters a
/// terminal would send, or an error for an unknown modifier or key.
pub fn resolve_key(spec: &str) -> (r: Result<String, KeyError>)
    ensures
        outcome(r, resolved(spec@, lower_text(spec@))),
{
    let lower = to_lowercase(spec);
    resolve_lowered(spec, lower.as_str())
}

/// If `value` starts with `key:`, resolve the key name; otherwise it is the
/// literal text.
pub fn parse_seq_value(value: &str) -> (r: Result<String, KeyError>)
    ensures
        begins(value@, "key:"@) ==> ({
            let name = value@.skip("key:"@.len() as int);
            outcome(r, resolved(name, lower_text(name)))
        }),
        !begins(value@, "key:"@) ==> r is Ok && r->Ok_0@ == value@,
{
    match strip_prefix(value, "key:") {
        Some(rest) => resolve_key(rest.as_str()),
        None => Ok(value.to_owned()),
    }
}

// ---- laws ----------------------------------------------------------------

/// Two texts that differ, if at all, only in which separator stands where.
pub open spec fn same_but_separators(a: Seq<char>, b: Seq<char>) -> bool {
    &&& a.len() == b.len()
    &&& forall|i: int|
        0 <= i < a.len() ==> (#[trigger] a[i]) == b[i] || (separators().contains(a[i])
            && separators().contains(b[i]))
}

proof fn lemma_same_pieces(a: Seq<char>, b: Seq<char>)
    requires
        same_but_separators(a, b),
    ensures
        pieces(a, separators()) == pieces(b, separators()),
    decreases a.len(),
{
    if a.len() > 0 {
        assert forall|i: int| 0 <= i < a.drop_last().len() implies (#[trigger] a.drop_last()[i])
            == b.drop_last()[i] || (separators().contains(a.drop_last()[i])
            && separators().contains(b.drop_last()[i])) by {
            assert(a[i] == b[i] || separators().contains(a[i]));
        }
        lemma_same_pieces(a.drop_last(), b.drop_last());
        assert(a.last() == a[a.len() - 1]);
    }
}

proof fn lemma_names_hold_no_separator(name: Seq<char>)
    requires
        key_text(name) is Some,
    ensures
        forall|i: int| 0 <= i < name.len() ==> !separators().contains(#[trigger] name[i]),
{
    reveal_strlit("return");
    reveal_strlit("enter");
    reveal_strlit("tab");
    reveal_strlit("escape");
    reveal_strlit("esc");
    reveal_strlit("space");
    reveal_strlit("backspace");
    reveal_strlit("delete");
    reveal_strlit("up");
    reveal_strlit("down");
    reveal_strlit("right");
    reveal_strlit("left");
    reveal_strlit("home");
    reveal_strlit("end");
    reveal_strlit("pageup");
    reveal_strlit("pagedown");
    assert forall|i: int| 0 <= i < name.len() implies !separators().contains(
        #[trigger] name[i],
    ) by {
        assert(name[i] != '+' && name[i] != '_' && name[i] != '-');
    }
}

/// The separators `+`, `_` and `-` mean the same: a spec that resolves keeps
/// its meaning when one stands in another's place. (A leading `C-` is a
/// spelling of its own and is left out.)
pub proof fn law_separators_are_equivalent(
    s: Seq<char>,
    a: Seq<char>,
    t: Seq<char>,
    b: Seq<char>,
)
    requires
        same_but_separators(a, b),
        !leading_c_dash(s),
        !leading_c_dash(t),
    ensures
        resolved(s, a) is Ok <==> resolved(t, b) is Ok,
        resolved(s, a) is Ok ==> resolved(s, a) == resolved(t, b),
{
    lemma_same_pieces(a, b);
    let parts = pieces(a, separators());
    assert(modifiers_of(parts, s) =~= modifiers_of(parts, t));
    if key_text(a) is Some {
        lemma_names_hold_no_separator(a);
        assert(a =~= b);
    }
    if key_text(b) is Some {
        lemma_names_hold_no_separator(b);
        assert(a =~= b);
    }
}

/// `C-` in front of a letter spells the control key of that letter, as
/// `ctrl+` does.
pub proof fn law_readline_spelling(c: char)
    requires
        'a' <= c && c <= 'z',
    ensures
        resolved(seq!['C', '-', c], seq!['c', '-', c]) == Ok::<Seq<char>, Seq<char>>(
            seq![(c as int - 96) as char],
        ),
        resolved("ctrl+"@.push(c), "ctrl+"@.push(c)) == Ok::<Seq<char>, Seq<char>>(
            seq![(c as int - 96) as char],
        ),
{
    reveal_strlit("c");
    reveal_strlit("ctrl");
    reveal_strlit("ctrl+");
    reveal_strlit("alt");
    let seps = separators();
    assert(seps[0] == '+' && seps[1] == '_' && seps[2] == '-');
    let short = seq!['c', '-', c];
    reveal_with_fuel(pieces, 4);
    assert(short.drop_last() =~= seq!['c', '-']);
    assert(seq!['c', '-'].drop_last() =~= seq!['c']);
    assert(seq!['c'].drop_last() =~= Seq::<char>::empty());
    assert(pieces(seq!['c'], seps) =~= seq![seq!['c']]) by {
        assert(Seq::<char>::empty().push('c') =~= seq!['c']);
    }
    assert(pieces(seq!['c', '-'], seps) =~= seq![seq!['c'], Seq::<char>::empty()]);
    let parts = seq![seq!['c'], seq![c]];
    assert(pieces(short, seps) =~= parts) by {
        assert(Seq::<char>::empty().push(c) =~= seq![c]);
    }
    let mods = modifiers_of(parts, seq!['C', '-', c]);
    assert("c"@ =~= seq!['c']);
    assert(mods =~= seq!["ctrl"@]);
    assert(mods[0] == "ctrl"@);
    reveal_with_fuel(first_unknown, 2);
    if key_text(short) is Some {
        lemma_names_hold_no_separator(short);
        assert(short[1] == '-');
    }
    assert(mods.contains("ctrl"@));
    assert(!mods.contains("alt"@)) by {
        assert("alt"@.len() == 3 && "ctrl"@.len() == 4);
    }
    let long = "ctrl+"@.push(c);
    assert("ctrl+"@ =~= seq!['c', 't', 'r', 'l', '+']);
    lemma_pieces_word(seq!['c', 't', 'r', 'l'], seps);
    assert(long.drop_last() =~= seq!['c', 't', 'r', 'l', '+']);
    assert(seq!['c', 't', 'r', 'l', '+'].drop_last() =~= seq!['c', 't', 'r', 'l']);
    let long_parts = seq!["ctrl"@, seq![c]];
    assert("ctrl"@ =~= seq!['c', 't', 'r', 'l']);
    assert(pieces(long, seps) =~= long_parts) by {
        assert(Seq::<char>::empty().push(c) =~= seq![c]);
    }
    let long_mods = modifiers_of(long_parts, long);
    assert(long_mods =~= seq!["ctrl"@]);
    if key_text(long) is Some {
        lemma_names_hold_no_separator(long);
        assert(long[4] == '+');
    }
    assert(long_mods =~= mods);
}

/// A text without separators is one piece.
proof fn lemma_pieces_word(s: Seq<char>, seps: Seq<char>)
    requires
        forall|i: int| 0 <= i < s.len() ==> !seps.contains(#[trigger] s[i]),
    ensures
        pieces(s, seps) == seq![s],
    decreases s.len(),
{
    if s.len() > 0 {
        assert forall|i: int| 0 <= i < s.drop_last().len() implies !seps.contains(
            #[trigger] s.drop_last()[i],
        ) by {
            assert(!seps.contains(s[i]));
        }
        lemma_pieces_word(s.drop_last(), seps);
        assert(!seps.contains(s[s.len() - 1]));
        assert(s.drop_last().push(s.last()) =~= s);
        assert(pieces(s, seps) =~= seq![s]);
    } else {
        assert(s =~= Seq::<char>::empty());
    }
}

/// Words that are each followed by a separator.
pub open spec fn prefixed(words: Seq<Seq<char>>, seps: Seq<char>) -> Seq<char>
    decreases words.len(),
{
    if words.len() == 0 {
        Seq::empty()
    } else {
        (prefixed(words.drop_last(), seps.drop_last()) + words.last()).push(seps.last())
    }
}

/// A chord as it is written: modifiers, each with the separator behind it, in
/// front of a key.
pub open spec fn spelled(words: Seq<Seq<char>>, seps: Seq<char>, base: Seq<char>) -> Seq<char> {
    prefixed(words, seps) + base
}

/// The words in lower case.
pub open spec fn all_lowered(words: Seq<Seq<char>>) -> Seq<Seq<char>> {
    Seq::new(words.len(), |i: int| lowered(words[i]))
}

/// At least one modifier in any case, a separator behind each, and a key.
pub open spec fn is_chord(words: Seq<Seq<char>>, seps: Seq<char>, base: Seq<char>) -> bool {
    &&& words.len() > 0
    &&& seps.len() == words.len()
    &&& forall|i: int| 0 <= i < words.len() ==> modifier_name(lowered(#[trigger] words[i]))
    &&& forall|i: int| 0 <= i < seps.len() ==> separators().contains(#[trigger] seps[i])
    &&& key_text(lowered(base)) is Some || letter_key(lowered(base))
}

proof fn lemma_pieces_append(x: Seq<char>, w: Seq<char>, seps: Seq<char>)
    requires
        forall|i: int| 0 <= i < w.len() ==> !seps.contains(#[trigger] w[i]),
    ensures
        pieces(x, seps).len() >= 1,
        pieces(x + w, seps) == pieces(x, seps).drop_last().push(pieces(x, seps).last() + w),
    decreases w.len(),
{
    lemma_pieces_nonempty(x, seps);
    if w.len() > 0 {
        let v = w.drop_last();
        assert forall|i: int| 0 <= i < v.len() implies !seps.contains(#[trigger] v[i]) by {
            assert(!seps.contains(w[i]));
        }
        lemma_pieces_append(x, v, seps);
        assert((x + w).drop_last() =~= x + v);
        assert(!seps.contains(w[w.len() - 1]));
        let before = pieces(x + v, seps);
        assert(before.last().push(w.last()) =~= pieces(x, seps).last() + w);
        assert(before.drop_last() =~= pieces(x, seps).drop_last());
    } else {
        assert(x + w =~= x);
        assert(pieces(x, seps).last() + w =~= pieces(x, seps).last());
        assert(pieces(x, seps).drop_last().push(pieces(x, seps).last()) =~= pieces(x, seps));
    }
}

proof fn lemma_modifier_words(m: Seq<char>)
    requires
        modifier_name(m),
    ensures
        m.len() >= 3,
        forall|i: int| 0 <= i < m.len() ==> !separators().contains(#[trigger] m[i]),
        is_ascii_chars(m),
{
    reveal_strlit("ctrl");
    reveal_strlit("alt");
    reveal_strlit("shift");
    assert forall|i: int| 0 <= i < m.len() implies !separators().contains(#[trigger] m[i]) by {
        assert(m[i] != '+' && m[i] != '_' && m[i] != '-');
    }
}

proof fn lemma_base_words(base: Seq<char>)
    requires
        key_text(base) is Some || letter_key(base),
    ensures
        base.len() > 0,
        forall|i: int| 0 <= i < base.len() ==> !separators().contains(#[trigger] base[i]),
        is_ascii_chars(base),
{
    if key_text(base) is Some {
        lemma_names_hold_no_separator(base);
        reveal_strlit("return");
        reveal_strlit("enter");
        reveal_strlit("tab");
        reveal_strlit("escape");
        reveal_strlit("esc");
        reveal_strlit("space");
        reveal_strlit("backspace");
        reveal_strlit("delete");
        reveal_strlit("up");
        reveal_strlit("down");
        reveal_strlit("right");
        reveal_strlit("left");
        reveal_strlit("home");
        reveal_strlit("end");
        reveal_strlit("pageup");
        reveal_strlit("pagedown");
    } else {
        assert forall|i: int| 0 <= i < base.len() implies !separators().contains(
            #[trigger] base[i],
        ) by {
            assert(base[i] != '+' && base[i] != '_' && base[i] != '-');
        }
    }
}

proof fn lemma_prefixed(words: Seq<Seq<char>>, seps: Seq<char>)
    requires
        seps.len() == words.len(),
        forall|i: int| 0 <= i < words.len() ==> modifier_name(lowered(#[trigger] words[i])),
        forall|i: int| 0 <= i < seps.len() ==> separators().contains(#[trigger] seps[i]),
    ensures
        pieces(lowered(prefixed(words, seps)), separators()) == all_lowered(words).push(
            Seq::empty(),
        ),
        is_ascii_chars(prefixed(words, seps)),
        words.len() > 0 ==> prefixed(words, seps).len() > 0 && separators().contains(
            prefixed(words, seps).last(),
        ),
    decreases words.len(),
{
    if words.len() > 0 {
        let before = words.drop_last();
        let marks = seps.drop_last();
        assert forall|i: int| 0 <= i < before.len() implies modifier_name(
            lowered(#[trigger] before[i]),
        ) by {
            assert(before[i] == words[i]);
        }
        assert forall|i: int| 0 <= i < marks.len() implies separators().contains(
            #[trigger] marks[i],
        ) by {
            assert(marks[i] == seps[i]);
        }
        lemma_prefixed(before, marks);
        let w = words.last();
        let sep = seps.last();
        assert(words[words.len() - 1] == w && seps[seps.len() - 1] == sep);
        lemma_modifier_words(lowered(w));
        lemma_lowered_ascii(w);
        let x = prefixed(before, marks);
        let whole = prefixed(words, seps);
        assert(separators()[0] == '+' && separators()[1] == '_' && separators()[2] == '-');
        assert(ascii_lower(sep) == sep && '\0' <= sep <= '\u{7f}');
        lemma_pieces_append(lowered(x), lowered(w), separators());
        assert(lowered(whole).drop_last() =~= lowered(x) + lowered(w));
        assert(lowered(whole).last() == sep);
        assert(Seq::<char>::empty() + lowered(w) =~= lowered(w));
        let parts = all_lowered(before).push(Seq::<char>::empty());
        assert(parts.drop_last() =~= all_lowered(before));
        assert(all_lowered(words) =~= all_lowered(before).push(lowered(w)));
        assert forall|i: int| 0 <= i < whole.len() implies '\0' <= #[trigger] whole[i]
            <= '\u{7f}' by {
            if i < x.len() {
                assert(whole[i] == x[i]);
            } else if i < x.len() + w.len() {
                assert(whole[i] == w[i - x.len()]);
            }
        }
    } else {
        assert(lowered(prefixed(words, seps)) =~= Seq::<char>::empty());
        assert(all_lowered(words).push(Seq::<char>::empty()) =~= seq![Seq::<char>::empty()]);
    }
}

proof fn lemma_all_known(mods: Seq<Seq<char>>, from: int)
    requires
        0 <= from <= mods.len(),
        forall|i: int| 0 <= i < mods.len() ==> modifier_name(#[trigger] mods[i]),
    ensures
        first_unknown(mods, from) == mods.len(),
    decreases mods.len() - from,
{
    if from < mods.len() {
        lemma_all_known(mods, from + 1);
    }
}

/// A chord resolves: its letter, or the sequence of its named key, under the
/// modifiers that stand in front, whatever their case and separators.
pub proof fn law_chord_resolves(words: Seq<Seq<char>>, seps: Seq<char>, base: Seq<char>)
    requires
        is_chord(words, seps, base),
    ensures
        ({
            let s = spelled(words, seps, base);
            let key = lowered(base);
            &&& is_ascii_chars(s)
            &&& resolved(s, lower_text(s)) == Ok::<Seq<char>, Seq<char>>(
                if letter_key(key) {
                    letter_text(key[0], all_lowered(words))
                } else {
                    modified_text(key, all_lowered(words))
                },
            )
        }),
{
    let x = prefixed(words, seps);
    let s = spelled(words, seps, base);
    let key = lowered(base);
    let mods = all_lowered(words);
    lemma_prefixed(words, seps);
    lemma_base_words(key);
    lemma_lowered_ascii(base);
    lemma_pieces_append(lowered(x), key, separators());
    assert(lowered(s) =~= lowered(x) + key);
    let parts = pieces(lowered(s), separators());
    assert(Seq::<char>::empty() + key =~= key);
    assert(mods.push(Seq::<char>::empty()).drop_last() =~= mods);
    assert(parts == mods.push(key));
    assert forall|i: int| 0 <= i < mods.len() implies modifier_name(#[trigger] mods[i])
        && mods[i].len() >= 3 by {
        assert(modifier_name(lowered(words[i])));
        lemma_modifier_words(mods[i]);
    }
    reveal_strlit("c");
    assert(modifiers_of(parts, s) =~= mods) by {
        assert(parts[0] == mods[0]);
        assert(parts[0].len() >= 3);
    }
    lemma_all_known(mods, 0);
    if key_text(lowered(s)) is Some {
        lemma_names_hold_no_separator(lowered(s));
        let at = x.len() - 1;
        assert(separators()[0] == '+' && separators()[1] == '_' && separators()[2] == '-');
        assert(lowered(s)[at] == ascii_lower(x.last()));
        assert(separators().contains(lowered(s)[at]));
    }
    assert forall|i: int| 0 <= i < parts.len() - 1 implies #[trigger] parts[i].len() != 0 by {
        assert(parts[i] == mods[i]);
    }
    assert forall|i: int| 0 <= i < s.len() implies '\0' <= #[trigger] s[i] <= '\u{7f}' by {
        if i < x.len() {
            assert(s[i] == x[i]);
        } else {
            assert(s[i] == base[i - x.len()]);
        }
    }
}

/// The modifiers of a chord are a set: two chords of one key under the same
/// modifiers resolve, and to the same characters, whatever the order in which
/// the modifiers stand, how often each is written, the case of the letters,
/// and which separators stand between.
pub proof fn law_modifiers_are_a_set(
    words: Seq<Seq<char>>,
    seps: Seq<char>,
    base: Seq<char>,
    words2: Seq<Seq<char>>,
    seps2: Seq<char>,
    base2: Seq<char>,
)
    requires
        is_chord(words, seps, base),
        is_chord(words2, seps2, base2),
        lowered(base) == lowered(base2),
        all_lowered(words).to_set() == all_lowered(words2).to_set(),
    ensures
        ({
            let s = spelled(words, seps, base);
            let t = spelled(words2, seps2, base2);
            resolved(s, lower_text(s)) is Ok && resolved(s, lower_text(s)) == resolved(t, lower_text(t))
        }),
{
    law_chord_resolves(words, seps, base);
    law_chord_resolves(words2, seps2, base2);
    let a = all_lowered(words);
    let b = all_lowered(words2);
    assert forall|m: Seq<char>| a.contains(m) == #[trigger] b.contains(m) by {
        assert(a.to_set().contains(m) == a.contains(m));
        assert(b.to_set().contains(m) == b.contains(m));
    }
    assert(a.contains("ctrl"@) == b.contains("ctrl"@));
    assert(a.contains("alt"@) == b.contains("alt"@));
    assert(a.contains("shift"@) == b.contains("shift"@));
}

/// The name of a key, in any case, resolves to what the key sends alone.
pub proof fn law_named_key_resolves(base: Seq<char>)
    requires
        key_text(lowered(base)) is Some,
    ensures
        resolved(base, lower_text(base)) == Ok::<Seq<char>, Seq<char>>(
            key_text(lowered(base))->0,
        ),
{
    let key = lowered(base);
    lemma_base_words(key);
    lemma_lowered_ascii(base);
    lemma_pieces_word(key, separators());
    assert(pieces(key, separators()).len() == 1);
    assert(modifiers_of(pieces(key, separators()), base).len() == 0);
}

/// The keys whose sequence says which key it was, under any modifiers.
pub open spec fn tells_its_name(key: Seq<char>) -> bool {
    letter_code(key) is Some || key == "return"@ || key == "escape"@ || key == "backspace"@
}

/// What a key sends alone is read as that key.
proof fn lemma_plain_key_is_read(key: Seq<char>)
    requires
        tells_its_name(key),
    ensures
        key_text(key) is Some,
        events_from(key_text(key)->0, 0) == seq![named_view(key, false, false, false)],
{
    lemma_key_words();
    reveal_strlit("\r");
    reveal_strlit("\x1b");
    reveal_strlit("\x7f");
    reveal_strlit("\x1b[A");
    reveal_strlit("\x1b[B");
    reveal_strlit("\x1b[C");
    reveal_strlit("\x1b[D");
    reveal_strlit("\x1b[H");
    reveal_strlit("\x1b[F");
    let s = key_text(key)->0;
    if letter_code(key) is Some {
        assert(s.len() == 3 && s[0] == '\x1b' && s[1] == '[');
        assert(step(s, 0) == csi(s, 2));
    }
    lemma_one_event(s, named_view(key, false, false, false));
}

/// The names of the keys differ.
proof fn lemma_key_words()
    ensures
        "up"@.len() == 2,
        "end"@.len() == 3,
        "home"@.len() == 4,
        "down"@.len() == 4,
        "left"@.len() == 4,
        "right"@.len() == 5,
        "return"@.len() == 6,
        "escape"@.len() == 6,
        "backspace"@.len() == 9,
        "tab"@.len() == 3,
        "esc"@.len() == 3,
        "enter"@.len() == 5,
        "space"@.len() == 5,
        "delete"@.len() == 6,
        "pageup"@.len() == 6,
        "pagedown"@.len() == 8,
        "up"@[0] == 'u',
        "end"@[1] == 'n',
        "tab"@[1] == 'a',
        "esc"@[1] == 's',
        "home"@[0] == 'h',
        "down"@[0] == 'd',
        "left"@[0] == 'l',
        "right"@[0] == 'r',
        "enter"@[0] == 'e',
        "space"@[0] == 's',
        "return"@[0] == 'r',
        "escape"@[0] == 'e',
        "delete"@[0] == 'd',
        "pageup"@[0] == 'p',
{
    reveal_strlit("return");
    reveal_strlit("enter");
    reveal_strlit("tab");
    reveal_strlit("escape");
    reveal_strlit("esc");
    reveal_strlit("space");
    reveal_strlit("backspace");
    reveal_strlit("delete");
    reveal_strlit("up");
    reveal_strlit("down");
    reveal_strlit("right");
    reveal_strlit("left");
    reveal_strlit("home");
    reveal_strlit("end");
    reveal_strlit("pageup");
    reveal_strlit("pagedown");
}

/// What a key sends under modifiers is read as that key with them.
proof fn lemma_modified_key_is_read(key: Seq<char>, mods: Seq<Seq<char>>)
    requires
        tells_its_name(key),
        modifier_parameter(mods) >= 2,
    ensures
        !letter_key(key),
        key_text(key) is Some,
        events_from(modified_text(key, mods), 0) == seq![
            named_view(
                key,
                mods.contains("ctrl"@),
                mods.contains("alt"@),
                mods.contains("shift"@),
            ),
        ],
{
    lemma_key_words();
    let p = modifier_parameter(mods);
    if letter_code(key) is Some {
        reveal_strlit("A");
        reveal_strlit("B");
        reveal_strlit("C");
        reveal_strlit("D");
        reveal_strlit("H");
        reveal_strlit("F");
        let c = letter_code(key)->0[0];
        assert(letter_code(key)->0 =~= seq![c]);
        law_modified_cursor_key(p, c);
    } else {
        law_modified_control_key(csi_u_code(key)->0, p);
    }
}

/// A key that tells its name, pressed alone or under any modifiers, is read
/// back as exactly that one key press: what its spec resolves to decodes to
/// one event with the name of the key, no text, and the modifiers of the spec.
pub proof fn law_resolved_key_is_read_back(
    words: Seq<Seq<char>>,
    seps: Seq<char>,
    base: Seq<char>,
)
    requires
        tells_its_name(lowered(base)),
        words.len() == 0 || is_chord(words, seps, base),
    ensures
        ({
            let s = spelled(words, seps, base);
            let mods = all_lowered(words);
            &&& is_ascii_chars(s)
            &&& resolved(s, lower_text(s)) is Ok
            &&& events_from(resolved(s, lower_text(s))->Ok_0, 0) == seq![
                named_view(
                    lowered(base),
                    mods.contains("ctrl"@),
                    mods.contains("alt"@),
                    mods.contains("shift"@),
                ),
            ]
        }),
{
    let s = spelled(words, seps, base);
    let key = lowered(base);
    let mods = all_lowered(words);
    if words.len() == 0 {
        assert(s =~= base);
        lemma_plain_key_is_read(key);
        lemma_base_words(key);
        lemma_lowered_ascii(base);
        law_named_key_resolves(base);
    } else {
        assert(modifier_name(lowered(words[0])));
        assert(mods[0] == lowered(words[0]));
        assert(mods.contains(mods[0]));
        lemma_modified_key_is_read(key, mods);
        law_chord_resolves(words, seps, base);
    }
}

/// The separators are `+`, `_` and `-`, and no others.
pub proof fn law_separators(c: char)
    ensures
        separators().contains(c) <==> c == '+' || c == '_' || c == '-',
{
    assert(separators()[0] == '+' && separators()[1] == '_' && separators()[2] == '-');
}

/// The modifiers are `ctrl`, `alt` and `shift`, and no others.
pub proof fn law_modifiers(m: Seq<char>)
    ensures
        modifier_name(m) <==> m == seq!['c', 't', 'r', 'l'] || m == seq!['a', 'l', 't'] || m
            == seq!['s', 'h', 'i', 'f', 't'],
{
    reveal_strlit("ctrl");
    reveal_strlit("alt");
    reveal_strlit("shift");
    assert("ctrl"@ =~= seq!['c', 't', 'r', 'l']);
    assert("alt"@ =~= seq!['a', 'l', 't']);
    assert("shift"@ =~= seq!['s', 'h', 'i', 'f', 't']);
}

/// The characters that a terminal sends for a key, whatever the case in which
/// its name is written: the cursor keys ESC [ and a letter, the others that a
/// terminal sends for them.
pub proof fn law_characters_of_named_keys(base: Seq<char>)
    ensures
        ({
            let key = lowered(base);
            let r = resolved(base, lower_text(base));
            &&& key == "up"@ ==> r == Ok::<Seq<char>, Seq<char>>(seq!['\x1b', '[', 'A'])
            &&& key == "down"@ ==> r == Ok::<Seq<char>, Seq<char>>(seq!['\x1b', '[', 'B'])
            &&& key == "right"@ ==> r == Ok::<Seq<char>, Seq<char>>(seq!['\x1b', '[', 'C'])
            &&& key == "left"@ ==> r == Ok::<Seq<char>, Seq<char>>(seq!['\x1b', '[', 'D'])
            &&& key == "home"@ ==> r == Ok::<Seq<char>, Seq<char>>(seq!['\x1b', '[', 'H'])
            &&& key == "end"@ ==> r == Ok::<Seq<char>, Seq<char>>(seq!['\x1b', '[', 'F'])
            &&& key == "delete"@ ==> r == Ok::<Seq<char>, Seq<char>>(seq!['\x1b', '[', '3', '~'])
            &&& key == "pageup"@ ==> r == Ok::<Seq<char>, Seq<char>>(seq!['\x1b', '[', '5', '~'])
            &&& key == "pagedown"@ ==> r == Ok::<Seq<char>, Seq<char>>(
                seq!['\x1b', '[', '6', '~'],
            )
            &&& key == "return"@ || key == "enter"@ ==> r == Ok::<Seq<char>, Seq<char>>(seq!['\r'])
            &&& key == "tab"@ ==> r == Ok::<Seq<char>, Seq<char>>(seq!['\t'])
            &&& key == "escape"@ || key == "esc"@ ==> r == Ok::<Seq<char>, Seq<char>>(
                seq!['\x1b'],
            )
            &&& key == "space"@ ==> r == Ok::<Seq<char>, Seq<char>>(seq![' '])
            &&& key == "backspace"@ ==> r == Ok::<Seq<char>, Seq<char>>(seq!['\x7f'])
        }),
{
    lemma_key_words();
    lemma_key_letters();
    let key = lowered(base);
    if key_text(key) is Some {
        law_named_key_resolves(base);
    }
    lemma_key_texts();
}

/// More characters that tell the names apart.
proof fn lemma_key_letters()
    ensures
        "home"@[1] == 'o',
        "down"@[1] == 'o',
        "left"@[1] == 'e',
        "right"@[1] == 'i',
        "enter"@[1] == 'n',
        "space"@[1] == 'p',
{
    reveal_strlit("home");
    reveal_strlit("down");
    reveal_strlit("left");
    reveal_strlit("right");
    reveal_strlit("enter");
    reveal_strlit("space");
}

proof fn lemma_key_texts()
    ensures
        "\r"@ == seq!['\r'],
        "\t"@ == seq!['\t'],
        "\x1b"@ == seq!['\x1b'],
        " "@ == seq![' '],
        "\x7f"@ == seq!['\x7f'],
        "\x1b[3~"@ == seq!['\x1b', '[', '3', '~'],
        "\x1b[5~"@ == seq!['\x1b', '[', '5', '~'],
        "\x1b[6~"@ == seq!['\x1b', '[', '6', '~'],
        "\x1b[A"@ == seq!['\x1b', '[', 'A'],
        "\x1b[B"@ == seq!['\x1b', '[', 'B'],
        "\x1b[C"@ == seq!['\x1b', '[', 'C'],
        "\x1b[D"@ == seq!['\x1b', '[', 'D'],
        "\x1b[H"@ == seq!['\x1b', '[', 'H'],
        "\x1b[F"@ == seq!['\x1b', '[', 'F'],
        "\x1b[Z"@ == seq!['\x1b', '[', 'Z'],
{
    reveal_strlit("\r");
    reveal_strlit("\t");
    reveal_strlit("\x1b");
    reveal_strlit(" ");
    reveal_strlit("\x7f");
    reveal_strlit("\x1b[3~");
    reveal_strlit("\x1b[5~");
    reveal_strlit("\x1b[6~");
    reveal_strlit("\x1b[A");
    reveal_strlit("\x1b[B");
    reveal_strlit("\x1b[C");
    reveal_strlit("\x1b[D");
    reveal_strlit("\x1b[H");
    reveal_strlit("\x1b[F");
    reveal_strlit("\x1b[Z");
    assert("\r"@ =~= seq!['\r']);
    assert("\t"@ =~= seq!['\t']);
    assert("\x1b"@ =~= seq!['\x1b']);
    assert(" "@ =~= seq![' ']);
    assert("\x7f"@ =~= seq!['\x7f']);
    assert("\x1b[3~"@ =~= seq!['\x1b', '[', '3', '~']);
    assert("\x1b[5~"@ =~= seq!['\x1b', '[', '5', '~']);
    assert("\x1b[6~"@ =~= seq!['\x1b', '[', '6', '~']);
    assert("\x1b[A"@ =~= seq!['\x1b', '[', 'A']);
    assert("\x1b[B"@ =~= seq!['\x1b', '[', 'B']);
    assert("\x1b[C"@ =~= seq!['\x1b', '[', 'C']);
    assert("\x1b[D"@ =~= seq!['\x1b', '[', 'D']);
    assert("\x1b[H"@ =~= seq!['\x1b', '[', 'H']);
    assert("\x1b[F"@ =~= seq!['\x1b', '[', 'F']);
    assert("\x1b[Z"@ =~= seq!['\x1b', '[', 'Z']);
}

/// The modifier parameter of xterm, as a digit: 1, and 1 more for shift, 2 for
/// alt and 4 for ctrl, each counted once.
pub open spec fn xterm_digit(words: Seq<Seq<char>>) -> char {
    let shift: int = if all_lowered(words).contains("shift"@) {
        1
    } else {
        0
    };
    let alt: int = if all_lowered(words).contains("alt"@) {
        2
    } else {
        0
    };
    let ctrl: int = if all_lowered(words).contains("ctrl"@) {
        4
    } else {
        0
    };
    seq!['1', '2', '3', '4', '5', '6', '7', '8'][shift + alt + ctrl]
}

/// The characters that a terminal sends for a key under modifiers: ESC [ 1 ;
/// the parameter and the letter of a cursor key, ESC [ the number ; the
/// parameter and a tilde of a key that sends one, and ESC [ the code ; the
/// parameter and a `u` of a control character; shift and tab alone send
/// ESC [ Z.
pub proof fn law_characters_of_modified_keys(
    words: Seq<Seq<char>>,
    seps: Seq<char>,
    base: Seq<char>,
)
    requires
        is_chord(words, seps, base),
    ensures
        ({
            let s = spelled(words, seps, base);
            let r = resolved(s, lower_text(s));
            let key = lowered(base);
            let p = xterm_digit(words);
            let csi = seq!['\x1b', '['];
            &&& key == "up"@ ==> r == Ok::<Seq<char>, Seq<char>>(csi + seq!['1', ';', p, 'A'])
            &&& key == "down"@ ==> r == Ok::<Seq<char>, Seq<char>>(csi + seq!['1', ';', p, 'B'])
            &&& key == "right"@ ==> r == Ok::<Seq<char>, Seq<char>>(csi + seq!['1', ';', p, 'C'])
            &&& key == "left"@ ==> r == Ok::<Seq<char>, Seq<char>>(csi + seq!['1', ';', p, 'D'])
            &&& key == "home"@ ==> r == Ok::<Seq<char>, Seq<char>>(csi + seq!['1', ';', p, 'H'])
            &&& key == "end"@ ==> r == Ok::<Seq<char>, Seq<char>>(csi + seq!['1', ';', p, 'F'])
            &&& key == "delete"@ ==> r == Ok::<Seq<char>, Seq<char>>(csi + seq!['3', ';', p, '~'])
            &&& key == "pageup"@ ==> r == Ok::<Seq<char>, Seq<char>>(csi + seq!['5', ';', p, '~'])
            &&& key == "pagedown"@ ==> r == Ok::<Seq<char>, Seq<char>>(
                csi + seq!['6', ';', p, '~'],
            )
            &&& key == "return"@ || key == "enter"@ ==> r == Ok::<Seq<char>, Seq<char>>(
                csi + seq!['1', '3', ';', p, 'u'],
            )
            &&& key == "escape"@ || key == "esc"@ ==> r == Ok::<Seq<char>, Seq<char>>(
                csi + seq!['2', '7', ';', p, 'u'],
            )
            &&& key == "space"@ ==> r == Ok::<Seq<char>, Seq<char>>(
                csi + seq!['3', '2', ';', p, 'u'],
            )
            &&& key == "backspace"@ ==> r == Ok::<Seq<char>, Seq<char>>(
                csi + seq!['1', '2', '7', ';', p, 'u'],
            )
            &&& key == "tab"@ && p != '2' ==> r == Ok::<Seq<char>, Seq<char>>(
                csi + seq!['9', ';', p, 'u'],
            )
            &&& key == "tab"@ && p == '2' ==> r == Ok::<Seq<char>, Seq<char>>(csi + seq!['Z'])
        }),
{
    law_chord_resolves(words, seps, base);
    let mods = all_lowered(words);
    let key = lowered(base);
    let p = xterm_digit(words);
    lemma_key_words();
    if key_text(key) is Some {
        lemma_modified_form(key, mods, p);
        lemma_code_table(p);
    }
}

/// What a key sends under modifiers, by its code.
proof fn lemma_modified_form(key: Seq<char>, mods: Seq<Seq<char>>, p: char)
    requires
        key_text(key) is Some,
        p as int == 48 + modifier_parameter(mods),
    ensures
        ({
            let csi = seq!['\x1b', '['];
            let sent = modified_text(key, mods);
            &&& key == "tab"@ && p == '2' ==> sent == csi + seq!['Z']
            &&& tilde_code(key) is Some && key != "tab"@ ==> sent == csi + (tilde_code(key)->0
                + seq![';', p, '~'])
            &&& letter_code(key) is Some && tilde_code(key) is None && key != "tab"@ ==> sent
                == csi + (seq!['1', ';', p] + letter_code(key)->0)
            &&& letter_code(key) is None && tilde_code(key) is None && !(key == "tab"@ && p == '2')
                ==> sent == csi + (dec(csi_u_code(key)->0) + seq![';', p, 'u'])
        }),
{
    let n = modifier_parameter(mods);
    let csi = seq!['\x1b', '['];
    let sent = modified_text(key, mods);
    assert(1 <= n <= 8);
    assert(dec(n) =~= seq![p]) by {
        assert(dec(n)[0] as int == 48 + n);
    }
    reveal_strlit("\x1b[");
    reveal_strlit("\x1b[1;");
    reveal_strlit(";");
    reveal_strlit("~");
    reveal_strlit("u");
    lemma_key_texts();
    lemma_key_words();
    if key == "tab"@ && p == '2' {
        assert(sent =~= csi + seq!['Z']);
    } else if tilde_code(key) is Some {
        assert(sent =~= csi + (tilde_code(key)->0 + seq![';', p, '~']));
    } else if letter_code(key) is Some {
        assert(sent =~= csi + (seq!['1', ';', p] + letter_code(key)->0));
    } else {
        assert(sent =~= csi + (dec(csi_u_code(key)->0) + seq![';', p, 'u']));
    }
}

/// The codes of the keys, and how they stand in front of a parameter.
proof fn lemma_code_table(p: char)
    ensures
        letter_code("up"@) == Some(seq!['A']),
        letter_code("down"@) == Some(seq!['B']),
        letter_code("right"@) == Some(seq!['C']),
        letter_code("left"@) == Some(seq!['D']),
        letter_code("home"@) == Some(seq!['H']),
        letter_code("end"@) == Some(seq!['F']),
        tilde_code("delete"@) == Some(seq!['3']),
        tilde_code("pageup"@) == Some(seq!['5']),
        tilde_code("pagedown"@) == Some(seq!['6']),
        csi_u_code("return"@) == Some(13nat) && csi_u_code("enter"@) == Some(13nat),
        csi_u_code("escape"@) == Some(27nat) && csi_u_code("esc"@) == Some(27nat),
        csi_u_code("space"@) == Some(32nat),
        csi_u_code("backspace"@) == Some(127nat),
        csi_u_code("tab"@) == Some(9nat),
        dec(9) + seq![';', p, 'u'] == seq!['9', ';', p, 'u'],
        dec(13) + seq![';', p, 'u'] == seq!['1', '3', ';', p, 'u'],
        dec(27) + seq![';', p, 'u'] == seq!['2', '7', ';', p, 'u'],
        dec(32) + seq![';', p, 'u'] == seq!['3', '2', ';', p, 'u'],
        dec(127) + seq![';', p, 'u'] == seq!['1', '2', '7', ';', p, 'u'],
        seq!['1', ';', p] + seq!['A'] == seq!['1', ';', p, 'A'],
        seq!['1', ';', p] + seq!['B'] == seq!['1', ';', p, 'B'],
        seq!['1', ';', p] + seq!['C'] == seq!['1', ';', p, 'C'],
        seq!['1', ';', p] + seq!['D'] == seq!['1', ';', p, 'D'],
        seq!['1', ';', p] + seq!['H'] == seq!['1', ';', p, 'H'],
        seq!['1', ';', p] + seq!['F'] == seq!['1', ';', p, 'F'],
        seq!['3'] + seq![';', p, '~'] == seq!['3', ';', p, '~'],
        seq!['5'] + seq![';', p, '~'] == seq!['5', ';', p, '~'],
        seq!['6'] + seq![';', p, '~'] == seq!['6', ';', p, '~'],
{
    lemma_key_words();
    lemma_key_letters();
    reveal_strlit("3");
    reveal_strlit("5");
    reveal_strlit("6");
    reveal_strlit("A");
    reveal_strlit("B");
    reveal_strlit("C");
    reveal_strlit("D");
    reveal_strlit("H");
    reveal_strlit("F");
    assert("3"@ =~= seq!['3']);
    assert("5"@ =~= seq!['5']);
    assert("6"@ =~= seq!['6']);
    assert("A"@ =~= seq!['A']);
    assert("B"@ =~= seq!['B']);
    assert("C"@ =~= seq!['C']);
    assert("D"@ =~= seq!['D']);
    assert("H"@ =~= seq!['H']);
    assert("F"@ =~= seq!['F']);
    reveal_with_fuel(dec, 4);
    assert(dec(9) =~= seq!['9']);
    assert(dec(13) =~= seq!['1', '3']);
    assert(dec(27) =~= seq!['2', '7']);
    assert(dec(32) =~= seq!['3', '2']);
    assert(dec(127) =~= seq!['1', '2', '7']);
    let u = seq![';', p, 'u'];
    assert(seq!['9'] + u =~= seq!['9', ';', p, 'u']);
    assert(seq!['1', '3'] + u =~= seq!['1', '3', ';', p, 'u']);
    assert(seq!['2', '7'] + u =~= seq!['2', '7', ';', p, 'u']);
    assert(seq!['3', '2'] + u =~= seq!['3', '2', ';', p, 'u']);
    assert(seq!['1', '2', '7'] + u =~= seq!['1', '2', '7', ';', p, 'u']);
}

/// The characters that a letter sends under modifiers: with ctrl the control
/// character, with shift alone the capital, and with alt an escape in front.
pub proof fn law_characters_of_modified_letters(
    words: Seq<Seq<char>>,
    seps: Seq<char>,
    base: Seq<char>,
)
    requires
        is_chord(words, seps, base),
        letter_key(lowered(base)),
    ensures
        ({
            let s = spelled(words, seps, base);
            let c = lowered(base)[0] as int;
            let mods = all_lowered(words);
            let sent = if mods.contains("ctrl"@) {
                (c - 'a' as int + 1) as char
            } else if mods.contains("shift"@) {
                (c - 'a' as int + 'A' as int) as char
            } else {
                c as char
            };
            resolved(s, lower_text(s)) == Ok::<Seq<char>, Seq<char>>(
                if mods.contains("alt"@) {
                    seq!['\x1b', sent]
                } else {
                    seq![sent]
                },
            )
        }),
{
    law_chord_resolves(words, seps, base);
}

/// A letter alone sends itself, in lower case.
pub proof fn law_letter_alone(c: char)
    requires
        ('a' <= c && c <= 'z') || ('A' <= c && c <= 'Z'),
    ensures
        resolved(seq![c], lower_text(seq![c])) == Ok::<Seq<char>, Seq<char>>(
            seq![
                (if c <= 'Z' {
                    c as int + 32
                } else {
                    c as int
                }) as char,
            ],
        ),
{
    let s = seq![c];
    let low = lowered(s);
    assert(is_ascii_chars(s));
    assert(low[0] == ascii_lower(c));
    assert(low =~= seq![ascii_lower(c)]);
    assert(letter_key(low));
    lemma_base_words(low);
    lemma_pieces_word(low, separators());
    let parts = pieces(low, separators());
    assert(parts =~= seq![low]);
    let mods = modifiers_of(parts, s);
    assert(mods =~= Seq::<Seq<char>>::empty());
    if key_text(low) is Some {
        lemma_key_words();
        assert(low.len() == 1);
    }
}

/// What cannot be resolved is refused with the reason: a key nobody knows by
/// itself, and a modifier nobody knows in front of a key.
pub proof fn law_refused_keys(s: Seq<char>)
    requires
        is_ascii_chars(s),
        lowered(s).len() > 0,
        forall|i: int| 0 <= i < lowered(s).len() ==> !separators().contains(#[trigger] lowered(s)[i]),
    ensures
        key_text(lowered(s)) is None && !letter_key(lowered(s)) ==> resolved(s, lower_text(s))
            == Err::<Seq<char>, Seq<char>>(
            "Unknown key: \""@ + lowered(s) + "\" in key spec \""@ + s + "\". "@ + KEY_SPEC_HELP@,
        ),
        resolved(Seq::empty(), Seq::empty()) == Err::<Seq<char>, Seq<char>>(
            "Incomplete key spec \""@ + Seq::empty() + "\". "@ + KEY_SPEC_HELP@,
        ),
{
    let low = lowered(s);
    lemma_pieces_word(low, separators());
    let parts = pieces(low, separators());
    assert(parts =~= seq![low]);
    assert(modifiers_of(parts, s) =~= Seq::<Seq<char>>::empty());
    let none = Seq::<char>::empty();
    lemma_key_words();
    assert(pieces(none, separators()) =~= seq![none]);
    assert(modifiers_of(seq![none], none) =~= Seq::<Seq<char>>::empty());
}

/// A chord with a word in front that is no modifier is refused, and the word
/// named.
pub proof fn law_unknown_modifier_is_refused(word: Seq<char>, sep: char, base: Seq<char>)
    requires
        word.len() >= 2,
        sep == '+' || sep == '_' || sep == '-',
        is_ascii_chars(word) && lowered(word) == word && !modifier_name(word),
        forall|i: int| 0 <= i < word.len() ==> !separators().contains(#[trigger] word[i]),
        key_text(base) is Some || letter_key(base),
        lowered(base) == base,
    ensures
        ({
            let s = word.push(sep) + base;
            resolved(s, lower_text(s)) == Err::<Seq<char>, Seq<char>>(
                "Unknown modifier: \""@ + word + "\" in key spec \""@ + s + "\". "@
                    + KEY_SPEC_HELP@,
            )
        }),
{
    let seps = separators();
    law_separators(sep);
    let s = word.push(sep) + base;
    lemma_base_words(base);
    assert(ascii_lower(sep) == sep);
    assert(lowered(s) =~= s) by {
        assert forall|i: int| 0 <= i < s.len() implies lowered(s)[i] == s[i] by {
            if i < word.len() {
                assert(lowered(word)[i] == word[i]);
            } else if i > word.len() {
                assert(lowered(base)[i - word.len() - 1] == base[i - word.len() - 1]);
            }
        }
    }
    assert(is_ascii_chars(s));
    lemma_pieces_word(word, seps);
    let front = word.push(sep);
    assert(front.drop_last() =~= word);
    assert(pieces(front, seps) =~= seq![word, Seq::<char>::empty()]);
    lemma_pieces_append(front, base, seps);
    assert(Seq::<char>::empty() + base =~= base);
    let parts = pieces(s, seps);
    assert(parts =~= seq![word, base]);
    let mods = modifiers_of(parts, s);
    reveal_strlit("c");
    assert(mods =~= seq![word]);
    assert(first_unknown(mods, 0) == 0);
    if key_text(s) is Some {
        lemma_names_hold_no_separator(s);
        assert(s[word.len() as int] == sep);
    }
    assert forall|i: int| 0 <= i < parts.len() - 1 implies #[trigger] parts[i].len() != 0 by {}
}

} // verus!
