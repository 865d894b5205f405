//! Raw terminal input: a chunk of bytes read from a terminal becomes an
//! ordered list of keyboard and mouse events.
//!
//! Legacy xterm encodings, modified arrows, SGR mouse reports and the Kitty
//! keyboard protocol (CSI-u) are understood.

use crate::text::{
    char_is_digit, char_string, dec, digit_char, digits_end, digits_value, is_digit,
    lemma_digits_end, lemma_number_dec, number, text_of, to_chars, utf8_lossy,
};
use vstd::prelude::*;
use vstd::utf8::is_scalar;

verus! {

/// A decoded keyboard event.
#[derive(Debug, Clone, PartialEq, Eq)]
pub struct KeyEvent {
    pub name: String,
    /// The literal character, when the key produced printable text.
    pub char: Option<String>,
    pub ctrl: bool,
    pub alt: bool,
    pub shift: bool,
}

/// Mouse button identity.
#[derive(Debug, Clone, Copy, PartialEq, Eq, Structural)]
pub enum MouseButton {
    Left,
    Middle,
    Right,
    /// No button: motion or the wheel.
    NoButton,
}

/// Mouse action kind.
#[derive(Debug, Clone, Copy, PartialEq, Eq, Structural)]
pub enum MouseAction {
    Press,
    Release,
    Drag,
    Move,
    ScrollUp,
    ScrollDown,
}

/// A decoded mouse event. `x` and `y` are 0-based cell coordinates.
#[derive(Debug, Clone, Copy, PartialEq, Eq, Structural)]
pub struct MouseEvent {
    pub action: MouseAction,
    pub button: MouseButton,
    pub x: i32,
    pub y: i32,
    pub ctrl: bool,
    pub alt: bool,
    pub shift: bool,
}

/// A key or mouse event.
#[derive(Debug, Clone, PartialEq, Eq)]
pub enum InputEvent {
    Key(KeyEvent),
    Mouse(MouseEvent),
}

/// The mathematical content of a `KeyEvent`.
#[verifier::ext_equal]
pub struct KeyView {
    pub name: Seq<char>,
    pub char: Option<Seq<char>>,
    pub ctrl: bool,
    pub alt: bool,
    pub shift: bool,
}

/// The mathematical content of an `InputEvent`.
#[verifier::ext_equal]
pub enum EventView {
    Key(KeyView),
    Mouse(MouseEvent),
}

impl View for KeyEvent {
    type V = KeyView;

    open spec fn view(&self) -> KeyView {
        KeyView {
            name: self.name@,
            char: match self.char {
                Some(c) => Some(c@),
                None => None,
            },
            ctrl: self.ctrl,
            alt: self.alt,
            shift: self.shift,
        }
    }
}

impl View for InputEvent {
    type V = EventView;

    open spec fn view(&self) -> EventView {
        match self {
            InputEvent::Key(k) => EventView::Key(k@),
            InputEvent::Mouse(m) => EventView::Mouse(*m),
        }
    }
}

/// The contents of a list of events.
pub open spec fn event_views(v: Seq<InputEvent>) -> Seq<EventView> {
    Seq::new(v.len(), |i: int| v[i]@)
}

/// The contents of a list of key events.
pub open spec fn key_views(v: Seq<KeyEvent>) -> Seq<KeyView> {
    Seq::new(v.len(), |i: int| v[i]@)
}

/// Is this a mouse event?
pub fn is_mouse_event(e: &InputEvent) -> (r: bool)
    ensures
        r == (e is Mouse),
{
    match e {
        InputEvent::Mouse(_) => true,
        InputEvent::Key(_) => false,
    }
}

/// ANSI sequences to enable SGR mouse reporting.
pub const MOUSE_ENABLE_SGR: &'static str = "\x1b[?1002h\x1b[?1006h";

/// ANSI sequences to disable SGR mouse reporting.
pub const MOUSE_DISABLE_SGR: &'static str = "\x1b[?1006l\x1b[?1002l";

// ---- the model -----------------------------------------------------------

/// A key known by name, with no text of its own.
pub open spec fn named_view(name: Seq<char>, ctrl: bool, alt: bool, shift: bool) -> EventView {
    EventView::Key(KeyView { name, char: None, ctrl, alt, shift })
}

/// A key that types the character `c`.
pub open spec fn printable_view(c: char, ctrl: bool, alt: bool, shift: bool) -> EventView {
    EventView::Key(KeyView { name: seq![c], char: Some(seq![c]), ctrl, alt, shift })
}

/// The number that the run of digits at `j` writes: `None` where there is no
/// digit or the number needs more than 32 bits.
pub open spec fn digits_at(s: Seq<char>, j: int) -> Option<u32> {
    let n = number(s.subrange(j, digits_end(s, j)));
    if digits_end(s, j) == j || n > u32::MAX {
        None
    } else {
        Some(n as u32)
    }
}

/// Whether `s[i]` exists and is `c`.
pub open spec fn char_at(s: Seq<char>, i: int, c: char) -> bool {
    0 <= i < s.len() && s[i] == c
}

/// The 0-based cell of a 1-based coordinate that is kept in 32 bits: what
/// exceeds 31 bits counts as negative, and the coordinate wraps at the lowest
/// value.
pub open spec fn cell(n: u32) -> i32 {
    if n == 0x8000_0000 {
        i32::MAX
    } else if n == 0 || n > 0x8000_0000 {
        0
    } else {
        (n - 1) as i32
    }
}

/// The button that the two low bits of a button code name.
pub open spec fn button_of(low: u32) -> MouseButton {
    if low == 0 {
        MouseButton::Left
    } else if low == 1 {
        MouseButton::Middle
    } else if low == 2 {
        MouseButton::Right
    } else {
        MouseButton::NoButton
    }
}

/// What an SGR mouse report means.
pub open spec fn mouse_view(code: u32, x: u32, y: u32, release: bool) -> MouseEvent {
    let wheel = code & 0x40 != 0;
    let low = code & 0x03;
    let button = if wheel {
        MouseButton::NoButton
    } else {
        button_of(low)
    };
    MouseEvent {
        action: if wheel {
            if low == 0 {
                MouseAction::ScrollUp
            } else {
                MouseAction::ScrollDown
            }
        } else if release {
            MouseAction::Release
        } else if code & 0x20 != 0 {
            if button == MouseButton::NoButton {
                MouseAction::Move
            } else {
                MouseAction::Drag
            }
        } else {
            MouseAction::Press
        },
        button,
        x: cell(x),
        y: cell(y),
        ctrl: code & 0x10 != 0,
        alt: code & 0x08 != 0,
        shift: code & 0x04 != 0,
    }
}

/// An SGR mouse report `< b ; x ; y M` or `< b ; x ; y m` at `p`, with the
/// position behind it.
pub open spec fn mouse_report(s: Seq<char>, p: int) -> Option<(MouseEvent, int)> {
    let q1 = digits_end(s, p + 1);
    let q2 = digits_end(s, q1 + 1);
    let q3 = digits_end(s, q2 + 1);
    if char_at(s, p, '<') && digits_at(s, p + 1) is Some && char_at(s, q1, ';') && digits_at(
        s,
        q1 + 1,
    ) is Some && char_at(s, q2, ';') && digits_at(s, q2 + 1) is Some && (char_at(s, q3, 'M')
        || char_at(s, q3, 'm')) {
        Some(
            (
                mouse_view(
                    digits_at(s, p + 1)->0,
                    digits_at(s, q1 + 1)->0,
                    digits_at(s, q2 + 1)->0,
                    char_at(s, q3, 'm'),
                ),
                q3 + 1,
            ),
        )
    } else {
        None
    }
}

/// The cursor key that a final letter names.
pub open spec fn arrow_name(c: char) -> Option<Seq<char>> {
    if c == 'A' {
        Some("up"@)
    } else if c == 'B' {
        Some("down"@)
    } else if c == 'C' {
        Some("right"@)
    } else if c == 'D' {
        Some("left"@)
    } else if c == 'H' {
        Some("home"@)
    } else if c == 'F' {
        Some("end"@)
    } else {
        None
    }
}

/// The key of `ESC [ <c> ~`.
pub open spec fn tilde_name(c: char) -> Option<Seq<char>> {
    if c == '3' {
        Some("delete"@)
    } else if c == '5' {
        Some("pageup"@)
    } else if c == '6' {
        Some("pagedown"@)
    } else {
        None
    }
}

/// The named key of a Kitty code point.
pub open spec fn kitty_name(code: u32) -> Option<Seq<char>> {
    if code == 27 {
        Some("escape"@)
    } else if code == 13 {
        Some("return"@)
    } else if code == 9 {
        Some("tab"@)
    } else if code == 127 {
        Some("backspace"@)
    } else {
        None
    }
}

/// The modifier bits of an xterm modifier parameter.
pub open spec fn modifier_bits(wire: u32) -> u32 {
    if wire == 0 {
        0
    } else {
        (wire - 1) as u32
    }
}

/// The event of a Kitty report; a code that is no character gives none.
pub open spec fn kitty_view(code: u32, wire: u32) -> Option<EventView> {
    let mods = modifier_bits(wire);
    let shift = mods & 0x01 != 0;
    let alt = mods & 0x02 != 0;
    let ctrl = mods & 0x04 != 0;
    if code == 9 && shift {
        Some(named_view("backtab"@, ctrl, alt, shift))
    } else if kitty_name(code) is Some {
        Some(named_view(kitty_name(code)->0, ctrl, alt, shift))
    } else if is_scalar(code) {
        Some(printable_view(code as char, ctrl, alt, shift))
    } else {
        None
    }
}

/// The modifier parameter of a Kitty report whose code ends at `q`, and the
/// position behind it.
pub open spec fn kitty_wire(s: Seq<char>, q: int) -> (Option<u32>, int) {
    if char_at(s, q, ';') {
        (digits_at(s, q + 1), digits_end(s, q + 1))
    } else {
        (Some(1u32), q)
    }
}

/// Whether a Kitty report `<code> [; <mods>] u` stands at `p`.
pub open spec fn is_kitty(s: Seq<char>, p: int) -> bool {
    let (wire, q) = kitty_wire(s, digits_end(s, p));
    digits_at(s, p) is Some && wire is Some && char_at(s, q, 'u')
}

/// Whether `1 ; <mods> <letter>` stands at `p`, for a letter that names a
/// cursor key.
pub open spec fn is_modified_arrow(s: Seq<char>, p: int) -> bool {
    let q = digits_end(s, p + 2);
    char_at(s, p, '1') && char_at(s, p + 1, ';') && digits_at(s, p + 2) is Some && q < s.len()
        && arrow_name(s[q]) is Some
}

/// Where the first final byte (`@` to `~`) at or after `k` stands, or the
/// length.
pub open spec fn final_byte(s: Seq<char>, k: int) -> int
    decreases s.len() - k,
{
    if 0 <= k < s.len() && !('@' <= s[k] && s[k] <= '~') {
        final_byte(s, k + 1)
    } else {
        k
    }
}

/// The event of a control sequence whose parameters start at `p` (behind
/// `ESC [`), and the position where input goes on.
pub open spec fn csi(s: Seq<char>, p: int) -> (Option<EventView>, int) {
    if mouse_report(s, p) is Some {
        let (event, next) = mouse_report(s, p)->0;
        (Some(EventView::Mouse(event)), next)
    } else if p < s.len() && arrow_name(s[p]) is Some {
        (Some(named_view(arrow_name(s[p])->0, false, false, false)), p + 1)
    } else if is_modified_arrow(s, p) {
        let q = digits_end(s, p + 2);
        let mods = modifier_bits(digits_at(s, p + 2)->0);
        (
            Some(
                named_view(
                    arrow_name(s[q])->0,
                    mods & 0x04 != 0,
                    mods & 0x02 != 0,
                    mods & 0x01 != 0,
                ),
            ),
            q + 1,
        )
    } else if char_at(s, p, 'Z') {
        (Some(named_view("backtab"@, false, false, true)), p + 1)
    } else if p < s.len() && char_at(s, p + 1, '~') && tilde_name(s[p]) is Some {
        (Some(named_view(tilde_name(s[p])->0, false, false, false)), p + 2)
    } else if is_kitty(s, p) {
        let (wire, q) = kitty_wire(s, digits_end(s, p));
        (kitty_view(digits_at(s, p)->0, wire->0), q + 1)
    } else {
        (
            None,
            if final_byte(s, p) < s.len() {
                final_byte(s, p) + 1
            } else {
                s.len() as int
            },
        )
    }
}

/// The event of one character that does not start an escape sequence.
pub open spec fn plain(c: char) -> Option<EventView> {
    let code = c as int;
    if code == 0x0d {
        Some(named_view("return"@, false, false, false))
    } else if code == 0x09 {
        Some(named_view("tab"@, false, false, false))
    } else if code == 0x7f {
        Some(named_view("backspace"@, false, false, false))
    } else if code == 0x1c {
        Some(named_view("\\"@, true, false, false))
    } else if 1 <= code <= 0x1a {
        Some(named_view(seq![(code + 0x60) as char], true, false, false))
    } else if code >= 0x20 {
        Some(printable_view(c, false, false, false))
    } else {
        None
    }
}

/// The event that starts at `i`, if any, and the position where input goes
/// on.
pub open spec fn step(s: Seq<char>, i: int) -> (Option<EventView>, int) {
    if s[i] == '\x1b' {
        if char_at(s, i + 1, '[') {
            csi(s, i + 2)
        } else if i + 1 < s.len() && s[i + 1] >= ' ' {
            (Some(printable_view(s[i + 1], false, true, false)), i + 2)
        } else {
            (Some(named_view("escape"@, false, false, false)), i + 1)
        }
    } else {
        (plain(s[i]), i + 1)
    }
}

/// The events of the input from `i` on.
pub open spec fn events_from(s: Seq<char>, i: int) -> Seq<EventView>
    decreases s.len() - i,
{
    if 0 <= i < s.len() {
        proof {
            lemma_step_advances(s, i);
        }
        let (event, next) = step(s, i);
        match event {
            Some(e) => seq![e] + events_from(s, next),
            None => events_from(s, next),
        }
    } else {
        Seq::<EventView>::empty()
    }
}

/// The keyboard events among `v`, in order.
pub open spec fn keys_of(v: Seq<EventView>) -> Seq<KeyView>
    decreases v.len(),
{
    if v.len() == 0 {
        Seq::<KeyView>::empty()
    } else {
        match v.last() {
            EventView::Key(k) => keys_of(v.drop_last()).push(k),
            EventView::Mouse(_) => keys_of(v.drop_last()),
        }
    }
}

proof fn lemma_final_byte(s: Seq<char>, k: int)
    requires
        0 <= k,
    ensures
        k <= final_byte(s, k),
        k <= s.len() ==> final_byte(s, k) <= s.len(),
    decreases s.len() - k,
{
    if k < s.len() && !('@' <= s[k] && s[k] <= '~') {
        lemma_final_byte(s, k + 1);
    }
}

proof fn lemma_csi_advances(s: Seq<char>, p: int)
    requires
        1 <= p <= s.len(),
    ensures
        p <= csi(s, p).1 <= s.len(),
{
    lemma_digits_end(s, p);
    lemma_digits_end(s, p + 1);
    lemma_digits_end(s, p + 2);
    let q1 = digits_end(s, p + 1);
    lemma_digits_end(s, q1 + 1);
    let q2 = digits_end(s, q1 + 1);
    lemma_digits_end(s, q2 + 1);
    lemma_digits_end(s, digits_end(s, p) + 1);
    lemma_final_byte(s, p);
}

/// Decoding always moves forward and never past the end.
pub proof fn lemma_step_advances(s: Seq<char>, i: int)
    requires
        0 <= i < s.len(),
    ensures
        i < step(s, i).1 <= s.len(),
{
    if s[i] == '\x1b' && char_at(s, i + 1, '[') {
        lemma_csi_advances(s, i + 2);
    }
}

// ---- the decoder ---------------------------------------------------------

fn named(name: &str, ctrl: bool, alt: bool, shift: bool) -> (r: InputEvent)
    ensures
        r@ == named_view(name@, ctrl, alt, shift),
{
    InputEvent::Key(KeyEvent { name: name.to_owned(), char: None, ctrl, alt, shift })
}

fn printable(c: char, ctrl: bool, alt: bool, shift: bool) -> (r: InputEvent)
    ensures
        r@ == printable_view(c, ctrl, alt, shift),
{
    InputEvent::Key(
        KeyEvent { name: char_string(c), char: Some(char_string(c)), ctrl, alt, shift },
    )
}

fn zero_based(n: u32) -> (r: i32)
    ensures
        r == cell(n),
{
    if n == 0x8000_0000 {
        i32::MAX
    } else if n == 0 || n > 0x8000_0000 {
        0
    } else {
        (n - 1) as i32
    }
}

fn decode_mouse(button_code: u32, x: u32, y: u32, is_release: bool) -> (r: MouseEvent)
    ensures
        r == mouse_view(button_code, x, y, is_release),
{
    let shift = button_code & 0x04 != 0;
    let alt = button_code & 0x08 != 0;
    let ctrl = button_code & 0x10 != 0;
    let motion = button_code & 0x20 != 0;
    let wheel = button_code & 0x40 != 0;
    let low: u32 = button_code & 0x03;
    let cx = zero_based(x);
    let cy = zero_based(y);
    if wheel {
        return MouseEvent {
            action: if low == 0 {
                MouseAction::ScrollUp
            } else {
                MouseAction::ScrollDown
            },
            button: MouseButton::NoButton,
            x: cx,
            y: cy,
            ctrl,
            alt,
            shift,
        };
    }
    let button = if low == 0 {
        MouseButton::Left
    } else if low == 1 {
        MouseButton::Middle
    } else if low == 2 {
        MouseButton::Right
    } else {
        MouseButton::NoButton
    };
    let action = if is_release {
        MouseAction::Release
    } else if motion {
        if button == MouseButton::NoButton {
            MouseAction::Move
        } else {
            MouseAction::Drag
        }
    } else {
        MouseAction::Press
    };
    MouseEvent { action, button, x: cx, y: cy, ctrl, alt, shift }
}

fn arrow(c: char) -> (r: Option<&'static str>)
    ensures
        match r {
            Some(n) => arrow_name(c) == Some(n@),
            None => arrow_name(c) is None,
        },
{
    match c {
        'A' => Some("up"),
        'B' => Some("down"),
        'C' => Some("right"),
        'D' => Some("left"),
        'H' => Some("home"),
        'F' => Some("end"),
        _ => None,
    }
}

fn tilde(c: char) -> (r: Option<&'static str>)
    ensures
        match r {
            Some(n) => tilde_name(c) == Some(n@),
            None => tilde_name(c) is None,
        },
{
    match c {
        '3' => Some("delete"),
        '5' => Some("pageup"),
        '6' => Some("pagedown"),
        _ => None,
    }
}

fn kitty_codepoint_name(code: u32) -> (r: Option<&'static str>)
    ensures
        match r {
            Some(n) => kitty_name(code) == Some(n@),
            None => kitty_name(code) is None,
        },
{
    match code {
        27 => Some("escape"),
        13 => Some("return"),
        9 => Some("tab"),
        127 => Some("backspace"),
        _ => None,
    }
}

fn is_char(s: &[char], i: usize, c: char) -> (r: bool)
    ensures
        r == char_at(s@, i as int, c),
{
    i < s.len() && s[i] == c
}

/// Consume a run of ASCII digits starting at `j`: the value, if there is one
/// that fits, and the index past the run.
fn take_digits(s: &[char], j: usize) -> (r: (Option<u32>, usize))
    requires
        j <= s@.len(),
    ensures
        r.0 == digits_at(s@, j as int),
        r.1 == digits_end(s@, j as int),
        j <= r.1 <= s@.len(),
{
    let mut k: usize = j;
    while k < s.len() && char_is_digit(s[k])
        invariant
            j <= k <= s@.len(),
            digits_end(s@, j as int) == digits_end(s@, k as int),
        decreases s.len() - k,
    {
        k += 1;
    }
    proof {
        lemma_digits_end(s@, j as int);
    }
    if k == j {
        return (None, j);
    }
    let value = match digits_value(s, j, k, u32::MAX as u64) {
        Some(n) => Some(n as u32),
        None => None,
    };
    (value, k)
}

fn take_mouse(s: &[char], p: usize) -> (r: Option<(MouseEvent, usize)>)
    requires
        p <= s@.len(),
    ensures
        match r {
            Some(m) => mouse_report(s@, p as int) == Some((m.0, m.1 as int)),
            None => mouse_report(s@, p as int) is None,
        },
{
    let len = s.len();
    assert(len == s@.len());
    if !is_char(s, p, '<') {
        return None;
    }
    let (b, q1) = take_digits(s, p + 1);
    if b.is_none() || !is_char(s, q1, ';') {
        return None;
    }
    let (x, q2) = take_digits(s, q1 + 1);
    if x.is_none() || !is_char(s, q2, ';') {
        return None;
    }
    let (y, q3) = take_digits(s, q2 + 1);
    if y.is_none() {
        return None;
    }
    let release = is_char(s, q3, 'm');
    if release || is_char(s, q3, 'M') {
        Some((decode_mouse(b.unwrap(), x.unwrap(), y.unwrap(), release), q3 + 1))
    } else {
        None
    }
}

fn kitty_event(code: u32, wire: u32) -> (r: Option<InputEvent>)
    ensures
        match r {
            Some(e) => kitty_view(code, wire) == Some(e@),
            None => kitty_view(code, wire) is None,
        },
{
    let mods: u32 = if wire == 0 {
        0
    } else {
        wire - 1
    };
    let shift = mods & 0x01 != 0;
    let alt = mods & 0x02 != 0;
    let ctrl = mods & 0x04 != 0;
    if code == 0x09 && shift {
        return Some(named("backtab", ctrl, alt, shift));
    }
    match kitty_codepoint_name(code) {
        Some(name) => Some(named(name, ctrl, alt, shift)),
        None => match char::from_u32(code) {
            Some(c) => Some(printable(c, ctrl, alt, shift)),
            None => None,
        },
    }
}

fn take_csi(s: &[char], p: usize) -> (r: (Option<InputEvent>, usize))
    requires
        1 <= p <= s@.len(),
    ensures
        match r.0 {
            Some(e) => csi(s@, p as int).0 == Some(e@),
            None => csi(s@, p as int).0 is None,
        },
        r.1 == csi(s@, p as int).1,
{
    proof {
        lemma_csi_advances(s@, p as int);
        lemma_digits_end(s@, p as int);
    }
    let len = s.len();
    if let Some((m, next)) = take_mouse(s, p) {
        return (Some(InputEvent::Mouse(m)), next);
    }
    // Arrow keys, home and end without modifiers.
    if p < len {
        if let Some(name) = arrow(s[p]) {
            return (Some(named(name, false, false, false)), p + 1);
        }
    }
    // Modified arrows: ESC [ 1 ; <mods> <letter>.
    if is_char(s, p, '1') && is_char(s, p + 1, ';') {
        let (mods_raw, q) = take_digits(s, p + 2);
        if mods_raw.is_some() && q < len {
            if let Some(name) = arrow(s[q]) {
                let wire: u32 = mods_raw.unwrap();
                let mods: u32 = if wire == 0 {
                    0
                } else {
                    wire - 1
                };
                let shift = mods & 0x01 != 0;
                let alt = mods & 0x02 != 0;
                let ctrl = mods & 0x04 != 0;
                return (Some(named(name, ctrl, alt, shift)), q + 1);
            }
        }
    }
    // Shift+Tab (legacy): ESC [ Z.
    if is_char(s, p, 'Z') {
        return (Some(named("backtab", false, false, true)), p + 1);
    }
    // ESC [ 3~ / 5~ / 6~.
    if p < len && is_char(s, p + 1, '~') {
        if let Some(name) = tilde(s[p]) {
            return (Some(named(name, false, false, false)), p + 2);
        }
    }
    // Kitty keyboard protocol: ESC [ <code> [; <mods>] u.
    let (code, q1) = take_digits(s, p);
    if code.is_some() {
        let (wire, q2) = if is_char(s, q1, ';') {
            take_digits(s, q1 + 1)
        } else {
            (Some(1u32), q1)
        };
        if wire.is_some() && is_char(s, q2, 'u') {
            return (kitty_event(code.unwrap(), wire.unwrap()), q2 + 1);
        }
    }
    // Unknown control sequence: skip past its final byte.
    let mut k: usize = p;
    while k < len && !('@' <= s[k] && s[k] <= '~')
        invariant
            p <= k <= len,
            len == s@.len(),
            final_byte(s@, p as int) == final_byte(s@, k as int),
        decreases len - k,
    {
        k += 1;
    }
    let next: usize = if k < len {
        k + 1
    } else {
        len
    };
    (None, next)
}

fn plain_event(c: char) -> (r: Option<InputEvent>)
    ensures
        match r {
            Some(e) => plain(c) == Some(e@),
            None => plain(c) is None,
        },
{
    let code: u32 = c as u32;
    if code == 0x0d {
        Some(named("return", false, false, false))
    } else if code == 0x09 {
        Some(named("tab", false, false, false))
    } else if code == 0x7f {
        Some(named("backspace", false, false, false))
    } else if code == 0x1c {
        Some(named("\\", true, false, false))
    } else if 0x01 <= code && code <= 0x1a {
        let letter = char_string((code as u8 + 0x60) as char);
        Some(named(letter.as_str(), true, false, false))
    } else if code >= 0x20 {
        Some(printable(c, false, false, false))
    } else {
        None
    }
}

fn take_event(s: &[char], i: usize) -> (r: (Option<InputEvent>, usize))
    requires
        i < s@.len(),
    ensures
        match r.0 {
            Some(e) => step(s@, i as int).0 == Some(e@),
            None => step(s@, i as int).0 is None,
        },
        r.1 == step(s@, i as int).1,
        i < r.1 <= s@.len(),
{
    proof {
        lemma_step_advances(s@, i as int);
    }
    if s[i] == '\x1b' {
        if is_char(s, i + 1, '[') {
            take_csi(s, i + 2)
        } else if i + 1 < s.len() && s[i + 1] >= ' ' {
            (Some(printable(s[i + 1], false, true, false)), i + 2)
        } else {
            (Some(named("escape", false, false, false)), i + 1)
        }
    } else {
        (plain_event(s[i]), i + 1)
    }
}

/// Decode a chunk of terminal input that has been read as characters.
pub fn parse_input_chars(s: &[char]) -> (events: Vec<InputEvent>)
    ensures
        event_views(events@) == events_from(s@, 0),
{
    let mut events: Vec<InputEvent> = Vec::new();
    let mut i: usize = 0;
    assert(event_views(events@) + events_from(s@, 0) =~= events_from(s@, 0));
    while i < s.len()
        invariant
            i <= s@.len(),
            event_views(events@) + events_from(s@, i as int) == events_from(s@, 0),
        decreases s.len() - i,
    {
        let ghost before = event_views(events@);
        let (event, next) = take_event(s, i);
        match event {
            Some(e) => {
                let ghost v = e@;
                events.push(e);
                assert(event_views(events@) =~= before.push(v));
                assert(before + (seq![v] + events_from(s@, next as int)) =~= before.push(v)
                    + events_from(s@, next as int));
            },
            None => {},
        }
        i = next;
    }
    assert(event_views(events@) + events_from(s@, i as int) =~= event_views(events@));
    events
}

/// Decode a chunk of terminal input into an ordered list of keyboard and
/// mouse events.
pub fn parse_input(data: &[u8]) -> (events: Vec<InputEvent>)
    ensures
        event_views(events@) == events_from(text_of(data@), 0),
{
    let s = utf8_lossy(data);
    let chars = to_chars(s.as_str());
    parse_input_chars(chars.as_slice())
}

/// Decode a chunk of terminal input, keeping the keyboard events only.
pub fn parse_key(data: &[u8]) -> (keys: Vec<KeyEvent>)
    ensures
        key_views(keys@) == keys_of(events_from(text_of(data@), 0)),
{
    let events = parse_input(data);
    let ghost all = event_views(events@);
    let mut keys: Vec<KeyEvent> = Vec::new();
    let mut i: usize = 0;
    assert(key_views(keys@) =~= keys_of(all.take(0)));
    while i < events.len()
        invariant
            i <= events.len(),
            all == event_views(events@),
            key_views(keys@) == keys_of(all.take(i as int)),
        decreases events.len() - i,
    {
        let ghost before = key_views(keys@);
        assert(all.take(i + 1).drop_last() =~= all.take(i as int));
        assert(all.take(i + 1).last() == events@[i as int]@);
        match &events[i] {
            InputEvent::Key(k) => {
                let copy = KeyEvent {
                    name: k.name.clone(),
                    char: match &k.char {
                        Some(c) => Some(c.clone()),
                        None => None,
                    },
                    ctrl: k.ctrl,
                    alt: k.alt,
                    shift: k.shift,
                };
                assert(copy@ == k@);
                keys.push(copy);
                assert(key_views(keys@) =~= before.push(k@));
            },
            InputEvent::Mouse(_) => {},
        }
        i += 1;
    }
    assert(all.take(all.len() as int) =~= all);
    keys
}

// ---- laws ----------------------------------------------------------------

/// A character that types itself: printable, and not the delete key.
pub open spec fn types_itself(c: char) -> bool {
    c as int >= 0x20 && c as int != 0x7f
}

/// Printable text decodes to one key press per character, in order, with no
/// modifier.
pub proof fn law_text_is_typed(s: Seq<char>, i: int)
    requires
        0 <= i <= s.len(),
        forall|j: int| 0 <= j < s.len() ==> types_itself(#[trigger] s[j]),
    ensures
        events_from(s, i).len() == s.len() - i,
        forall|j: int|
            i <= j < s.len() ==> #[trigger] events_from(s, i)[j - i] == printable_view(
                s[j],
                false,
                false,
                false,
            ),
    decreases s.len() - i,
{
    if i < s.len() {
        law_text_is_typed(s, i + 1);
        assert(types_itself(s[i]));
        let rest = events_from(s, i + 1);
        assert(events_from(s, i) =~= seq![printable_view(s[i], false, false, false)] + rest);
        assert forall|j: int| i <= j < s.len() implies #[trigger] events_from(s, i)[j - i]
            == printable_view(s[j], false, false, false) by {
            if j > i {
                assert(events_from(s, i)[j - i] == rest[j - (i + 1)]);
            }
        }
    }
}

/// A run of digits ends at the same place when text stands in front.
proof fn lemma_digits_behind(t: Seq<char>, s: Seq<char>, j: int)
    requires
        0 <= j,
    ensures
        digits_end(t + s, t.len() + j) == t.len() + digits_end(s, j),
        j <= s.len() ==> digits_at(t + s, t.len() + j) == digits_at(s, j),
    decreases s.len() - j,
{
    lemma_digits_end(s, j);
    if j < s.len() {
        assert((t + s)[t.len() + j] == s[j]);
        if is_digit(s[j]) {
            lemma_digits_behind(t, s, j + 1);
        }
    }
    let end = digits_end(s, j);
    if j <= s.len() {
        assert((t + s).subrange(t.len() + j, t.len() + end) =~= s.subrange(j, end));
    }
}

proof fn lemma_final_behind(t: Seq<char>, s: Seq<char>, k: int)
    requires
        0 <= k,
    ensures
        final_byte(t + s, t.len() + k) == t.len() + final_byte(s, k),
    decreases s.len() - k,
{
    if k < s.len() {
        assert((t + s)[t.len() + k] == s[k]);
        if !('@' <= s[k] && s[k] <= '~') {
            lemma_final_behind(t, s, k + 1);
        }
    }
}

proof fn lemma_char_behind(t: Seq<char>, s: Seq<char>, i: int, c: char)
    requires
        0 <= i,
    ensures
        char_at(t + s, t.len() + i, c) == char_at(s, i, c),
{
}

proof fn lemma_mouse_behind(t: Seq<char>, s: Seq<char>, p: int)
    requires
        0 <= p <= s.len(),
    ensures
        mouse_report(t + s, t.len() + p) == (match mouse_report(s, p) {
            Some((e, next)) => Some((e, t.len() + next)),
            None => None,
        }),
{
    let q1 = digits_end(s, p + 1);
    let q2 = digits_end(s, q1 + 1);
    let q3 = digits_end(s, q2 + 1);
    lemma_digits_end(s, p + 1);
    lemma_digits_end(s, q1 + 1);
    lemma_digits_end(s, q2 + 1);
    lemma_digits_behind(t, s, p + 1);
    lemma_digits_behind(t, s, q1 + 1);
    lemma_digits_behind(t, s, q2 + 1);
    lemma_char_behind(t, s, p, '<');
    lemma_char_behind(t, s, q1, ';');
    lemma_char_behind(t, s, q2, ';');
    lemma_char_behind(t, s, q3, 'M');
    lemma_char_behind(t, s, q3, 'm');
}

proof fn lemma_arrow_behind(t: Seq<char>, s: Seq<char>, p: int)
    requires
        0 <= p <= s.len(),
    ensures
        is_modified_arrow(t + s, t.len() + p) == is_modified_arrow(s, p),
{
    let q = digits_end(s, p + 2);
    lemma_digits_end(s, p + 2);
    lemma_digits_behind(t, s, p + 2);
    lemma_char_behind(t, s, p, '1');
    lemma_char_behind(t, s, p + 1, ';');
    if q < s.len() {
        assert((t + s)[t.len() + q] == s[q]);
    }
}

proof fn lemma_kitty_behind(t: Seq<char>, s: Seq<char>, p: int)
    requires
        0 <= p <= s.len(),
    ensures
        digits_at(t + s, t.len() + p) == digits_at(s, p),
        ({
            let (wire, end) = kitty_wire(s, digits_end(s, p));
            kitty_wire(t + s, digits_end(t + s, t.len() + p)) == (wire, t.len() + end)
        }),
        is_kitty(t + s, t.len() + p) == is_kitty(s, p),
{
    let q = digits_end(s, p);
    lemma_digits_end(s, p);
    lemma_digits_end(s, q + 1);
    lemma_digits_behind(t, s, p);
    lemma_digits_behind(t, s, q + 1);
    lemma_char_behind(t, s, q, ';');
    lemma_char_behind(t, s, kitty_wire(s, q).1, 'u');
}

/// A control sequence means the same when text stands in front of it.
proof fn lemma_csi_behind(t: Seq<char>, s: Seq<char>, p: int)
    requires
        0 <= p <= s.len(),
    ensures
        csi(t + s, t.len() + p) == (csi(s, p).0, t.len() + csi(s, p).1),
{
    lemma_mouse_behind(t, s, p);
    lemma_arrow_behind(t, s, p);
    lemma_kitty_behind(t, s, p);
    lemma_final_behind(t, s, p);
    lemma_final_byte(s, p);
    lemma_digits_behind(t, s, p + 2);
    lemma_char_behind(t, s, p, 'Z');
    lemma_char_behind(t, s, p + 1, '~');
    if p < s.len() {
        assert((t + s)[t.len() + p] == s[p]);
    }
    if is_modified_arrow(s, p) {
        let q = digits_end(s, p + 2);
        lemma_digits_end(s, p + 2);
        assert((t + s)[t.len() + q] == s[q]);
    }
}

proof fn lemma_step_behind(t: Seq<char>, s: Seq<char>, i: int)
    requires
        0 <= i < s.len(),
    ensures
        step(t + s, t.len() + i) == (step(s, i).0, t.len() + step(s, i).1),
{
    let all = t + s;
    assert(all[t.len() + i] == s[i]);
    if i + 1 < s.len() {
        assert(all[t.len() + i + 1] == s[i + 1]);
    }
    if s[i] == '\x1b' && char_at(s, i + 1, '[') {
        lemma_csi_behind(t, s, i + 2);
    }
}

/// Input decodes the same when text stands in front of it.
proof fn lemma_events_behind(t: Seq<char>, s: Seq<char>, i: int)
    requires
        0 <= i <= s.len(),
    ensures
        events_from(t + s, t.len() + i) == events_from(s, i),
    decreases s.len() - i,
{
    if i < s.len() {
        lemma_step_behind(t, s, i);
        lemma_step_advances(s, i);
        lemma_events_behind(t, s, step(s, i).1);
    }
}

proof fn lemma_text_in_front(t: Seq<char>, s: Seq<char>, i: int)
    requires
        0 <= i <= t.len(),
        forall|j: int| 0 <= j < t.len() ==> types_itself(#[trigger] t[j]),
    ensures
        events_from(t + s, i) == events_from(t, i) + events_from(s, 0),
    decreases t.len() - i,
{
    if i < t.len() {
        lemma_text_in_front(t, s, i + 1);
        assert(types_itself(t[i]));
        assert((t + s)[i] == t[i]);
        let e = printable_view(t[i], false, false, false);
        assert(step(t, i) == (Some(e), i + 1));
        assert(step(t + s, i) == (Some(e), i + 1));
        assert(seq![e] + (events_from(t, i + 1) + events_from(s, 0)) =~= (seq![e] + events_from(
            t,
            i + 1,
        )) + events_from(s, 0));
    } else {
        lemma_events_behind(t, s, 0);
        assert(events_from(t, i) =~= Seq::<EventView>::empty());
        assert(events_from(t, i) + events_from(s, 0) =~= events_from(s, 0));
    }
}

/// Printable text and what follows it decode one after the other: the events
/// of the whole are those of the text and those of the rest.
pub proof fn law_text_and_the_rest(t: Seq<char>, s: Seq<char>)
    requires
        forall|j: int| 0 <= j < t.len() ==> types_itself(#[trigger] t[j]),
    ensures
        events_from(t + s, 0) == events_from(t, 0) + events_from(s, 0),
{
    lemma_text_in_front(t, s, 0);
}

/// Input that is used up by its first event holds that event alone.
pub proof fn lemma_one_event(s: Seq<char>, e: EventView)
    requires
        s.len() > 0,
        step(s, 0) == (Some(e), s.len() as int),
    ensures
        events_from(s, 0) == seq![e],
{
    assert(events_from(s, s.len() as int) =~= Seq::<EventView>::empty());
    assert(seq![e] + Seq::<EventView>::empty() =~= seq![e]);
}

proof fn lemma_bits(b: u32)
    by (bit_vector)
    requires
        b < 8,
    ensures
        (b & 1 != 0) == (b % 2 == 1),
        (b & 2 != 0) == (b / 2 % 2 == 1),
        (b & 4 != 0) == (b / 4 == 1),
{
}

/// One digit between characters that are none is a number.
proof fn lemma_digit_at(s: Seq<char>, j: int, d: int)
    requires
        0 <= j < s.len() - 1,
        0 <= d <= 9,
        s[j] == digit_char(d),
        !is_digit(s[j + 1]),
    ensures
        digits_end(s, j) == j + 1,
        digits_at(s, j) == Some(d as u32),
{
    reveal_with_fuel(digits_end, 2);
    let run = s.subrange(j, j + 1);
    assert(run.drop_last() =~= Seq::<char>::empty());
    assert(number(run.drop_last()) == 0);
    assert(number(run) == d);
}

/// A cursor key under modifiers is one key press with those modifiers.
pub proof fn law_modified_cursor_key(p: nat, c: char)
    requires
        2 <= p <= 8,
        arrow_name(c) is Some,
    ensures
        events_from("\x1b[1;"@ + dec(p) + seq![c], 0) == seq![
            named_view(
                arrow_name(c)->0,
                (p - 1) / 4 == 1,
                (p - 1) / 2 % 2 == 1,
                (p - 1) % 2 == 1,
            ),
        ],
{
    reveal_strlit("\x1b[1;");
    let s = "\x1b[1;"@ + dec(p) + seq![c];
    assert(s =~= seq!['\x1b', '[', '1', ';', digit_char(p as int), c]);
    lemma_digit_at(s, 4, p as int);
    lemma_bits((p - 1) as u32);
    assert(is_modified_arrow(s, 2));
    lemma_one_event(s, csi(s, 2).0->0);
}

/// A control-character key under modifiers is one key press with those
/// modifiers.
pub proof fn law_modified_control_key(code: nat, p: nat)
    requires
        2 <= p <= 8,
        code == 13 || code == 27 || code == 127,
    ensures
        events_from("\x1b["@ + dec(code) + ";"@ + dec(p) + "u"@, 0) == seq![
            named_view(
                kitty_name(code as u32)->0,
                (p - 1) / 4 == 1,
                (p - 1) / 2 % 2 == 1,
                (p - 1) % 2 == 1,
            ),
        ],
{
    reveal_strlit("\x1b[");
    reveal_strlit(";");
    reveal_strlit("u");
    let s = "\x1b["@ + dec(code) + ";"@ + dec(p) + "u"@;
    let digits = dec(code);
    let n = digits.len() as int;
    lemma_number_dec(code);
    reveal_with_fuel(dec, 4);
    assert(n == 2 || n == 3);
    assert(s.len() == n + 5);
    assert(s[0] == '\x1b' && s[1] == '[' && s[n + 2] == ';' && s[n + 3] == digit_char(p as int)
        && s[n + 4] == 'u');
    assert(forall|i: int| 0 <= i < n ==> s[i + 2] == #[trigger] digits[i]);
    assert(s[2] == digits[0] && s[3] == digits[1]);
    assert(is_digit(digits[0]) && is_digit(digits[1]));
    if n == 3 {
        assert(s[4] == digits[2] && is_digit(digits[2]));
    }
    reveal_with_fuel(digits_end, 4);
    assert(digits_end(s, 2) == n + 2);
    assert(s.subrange(2, n + 2) =~= digits);
    lemma_digit_at(s, n + 3, p as int);
    lemma_bits((p - 1) as u32);
    assert(is_kitty(s, 2));
    lemma_one_event(s, csi(s, 2).0->0);
}

/// An event at the beginning of the input is the first of its events, and what
/// follows it decodes as if it stood alone.
proof fn lemma_event_in_front(t: Seq<char>, rest: Seq<char>, e: EventView)
    requires
        t.len() > 0,
        step(t + rest, 0) == (Some(e), t.len() as int),
    ensures
        events_from(t + rest, 0) == seq![e] + events_from(rest, 0),
{
    lemma_events_behind(t, rest, 0);
}

/// The cursor keys: ESC [ and A, B, C, D, H or F is up, down, right, left, home
/// or end, without modifiers, and what follows is read on its own.
pub proof fn law_cursor_keys_are_read(c: char, rest: Seq<char>)
    requires
        c == 'A' || c == 'B' || c == 'C' || c == 'D' || c == 'H' || c == 'F',
    ensures
        events_from(seq!['\x1b', '[', c] + rest, 0) == seq![
            EventView::Key(
                KeyView {
                    name: if c == 'A' {
                        "up"@
                    } else if c == 'B' {
                        "down"@
                    } else if c == 'C' {
                        "right"@
                    } else if c == 'D' {
                        "left"@
                    } else if c == 'H' {
                        "home"@
                    } else {
                        "end"@
                    },
                    char: None,
                    ctrl: false,
                    alt: false,
                    shift: false,
                },
            ),
        ] + events_from(rest, 0),
{
    let t = seq!['\x1b', '[', c];
    let s = t + rest;
    assert(s[0] == '\x1b' && s[1] == '[' && s[2] == c);
    assert(mouse_report(s, 2) is None);
    lemma_event_in_front(t, rest, named_view(arrow_name(c)->0, false, false, false));
}

/// The keys that send ESC [, a number and a tilde: 3 is delete, 5 page up and 6
/// page down; ESC [ Z is the back tab.
pub proof fn law_other_keys_are_read(c: char, rest: Seq<char>)
    requires
        c == '3' || c == '5' || c == '6',
    ensures
        events_from(seq!['\x1b', '[', c, '~'] + rest, 0) == seq![
            named_view(
                if c == '3' {
                    "delete"@
                } else if c == '5' {
                    "pageup"@
                } else {
                    "pagedown"@
                },
                false,
                false,
                false,
            ),
        ] + events_from(rest, 0),
        events_from(seq!['\x1b', '[', 'Z'] + rest, 0) == seq![
            named_view("backtab"@, false, false, true),
        ] + events_from(rest, 0),
{
    let t = seq!['\x1b', '[', c, '~'];
    let s = t + rest;
    assert(s[0] == '\x1b' && s[1] == '[' && s[2] == c && s[3] == '~');
    assert(mouse_report(s, 2) is None);
    assert(!is_modified_arrow(s, 2));
    lemma_event_in_front(t, rest, named_view(tilde_name(c)->0, false, false, false));
    let z = seq!['\x1b', '[', 'Z'];
    let u = z + rest;
    assert(u[0] == '\x1b' && u[1] == '[' && u[2] == 'Z');
    assert(mouse_report(u, 2) is None);
    assert(!is_modified_arrow(u, 2));
    lemma_event_in_front(z, rest, named_view("backtab"@, false, false, true));
}

/// The characters that stand for keys: carriage return, tab and delete are
/// return, tab and backspace; the others below 27 are control and a letter,
/// 28 is control and a backslash; what is printed is typed.
pub proof fn law_single_characters_are_read(c: char, rest: Seq<char>)
    requires
        c != '\x1b',
    ensures
        ({
            let e = events_from(seq![c] + rest, 0);
            let more = events_from(rest, 0);
            &&& c == '\r' ==> e == seq![named_view("return"@, false, false, false)] + more
            &&& c == '\t' ==> e == seq![named_view("tab"@, false, false, false)] + more
            &&& c == '\x7f' ==> e == seq![named_view("backspace"@, false, false, false)] + more
            &&& c == '\x1c' ==> e == seq![named_view(seq!['\\'], true, false, false)] + more
            &&& 1 <= c as int <= 26 && c != '\r' && c != '\t' ==> e == seq![
                named_view(seq![('a' as int + c as int - 1) as char], true, false, false),
            ] + more
            &&& c >= ' ' && c != '\x7f' ==> e == seq![
                EventView::Key(
                    KeyView {
                        name: seq![c],
                        char: Some(seq![c]),
                        ctrl: false,
                        alt: false,
                        shift: false,
                    },
                ),
            ] + more
            &&& c == '\0' || ('\x1d' <= c && c <= '\x1f') ==> e == more
        }),
{
    let t = seq![c];
    let s = t + rest;
    assert(s[0] == c);
    reveal_strlit("\\");
    assert("\\"@ =~= seq!['\\']);
    match plain(c) {
        Some(e) => {
            lemma_event_in_front(t, rest, e);
        },
        None => {
            lemma_events_behind(t, rest, 0);
        },
    }
}

/// An escape in front of a printed character is alt and that character; an
/// escape alone is the escape key.
pub proof fn law_alt_is_read(c: char, rest: Seq<char>)
    requires
        c >= ' ',
        c != '[',
    ensures
        events_from(seq!['\x1b', c] + rest, 0) == seq![
            EventView::Key(
                KeyView {
                    name: seq![c],
                    char: Some(seq![c]),
                    ctrl: false,
                    alt: true,
                    shift: false,
                },
            ),
        ] + events_from(rest, 0),
        events_from(seq!['\x1b'], 0) == seq![named_view("escape"@, false, false, false)],
{
    let t = seq!['\x1b', c];
    let s = t + rest;
    assert(s[0] == '\x1b' && s[1] == c);
    lemma_event_in_front(t, rest, printable_view(c, false, true, false));
    let e = seq!['\x1b'];
    lemma_one_event(e, named_view("escape"@, false, false, false));
}

/// The decimal rendering of a number, in front of something that is no digit,
/// is read as that number.
proof fn lemma_number_is_read(t: Seq<char>, n: u32, c: char, rest: Seq<char>)
    requires
        !is_digit(c),
    ensures
        ({
            let s = t + (dec(n as nat) + (seq![c] + rest));
            let j = t.len() as int;
            &&& digits_end(s, j) == j + dec(n as nat).len()
            &&& digits_at(s, j) == Some(n)
            &&& dec(n as nat).len() >= 1
        }),
{
    let d = dec(n as nat);
    let s = t + (d + (seq![c] + rest));
    let j = t.len() as int;
    lemma_number_dec(n as nat);
    lemma_digits_run(s, j, d.len() as int);
    assert(s.subrange(j, j + d.len()) =~= d);
}

proof fn lemma_digits_run(s: Seq<char>, j: int, n: int)
    requires
        0 <= j,
        0 <= n,
        j + n < s.len(),
        forall|i: int| j <= i < j + n ==> is_digit(#[trigger] s[i]),
        !is_digit(s[j + n]),
    ensures
        digits_end(s, j) == j + n,
    decreases n,
{
    if n > 0 {
        assert(is_digit(s[j]));
        lemma_digits_run(s, j + 1, n - 1);
    }
}

/// The parts of a mouse report, by where they stand.
proof fn lemma_mouse_report(
    s: Seq<char>,
    code: u32,
    x: u32,
    y: u32,
    q1: int,
    q2: int,
    q3: int,
    release: bool,
)
    requires
        3 < q1 && q1 + 1 < q2 && q2 + 1 < q3 && q3 < s.len(),
        s[2] == '<',
        digits_end(s, 3) == q1,
        digits_at(s, 3) == Some(code),
        s[q1] == ';',
        digits_end(s, q1 + 1) == q2,
        digits_at(s, q1 + 1) == Some(x),
        s[q2] == ';',
        digits_end(s, q2 + 1) == q3,
        digits_at(s, q2 + 1) == Some(y),
        s[q3] == (if release {
            'm'
        } else {
            'M'
        }),
    ensures
        mouse_report(s, 2) == Some((mouse_view(code, x, y, release), q3 + 1)),
{
}

/// A mouse report is read as one event: ESC [ < the button code ; the column ;
/// the row and M, or m for a release.
pub proof fn law_mouse_reports_are_read(
    code: u32,
    x: u32,
    y: u32,
    release: bool,
    rest: Seq<char>,
)
    ensures
        ({
            let end = if release {
                'm'
            } else {
                'M'
            };
            let s = seq!['\x1b', '[', '<'] + (dec(code as nat) + (seq![';'] + (dec(x as nat) + (
            seq![';'] + (dec(y as nat) + (seq![end] + rest))))));
            events_from(s, 0) == seq![EventView::Mouse(mouse_view(code, x, y, release))]
                + events_from(rest, 0)
        }),
{
    let end = if release {
        'm'
    } else {
        'M'
    };
    let (a, b, c) = (dec(code as nat), dec(x as nat), dec(y as nat));
    let lead = seq!['\x1b', '[', '<'];
    let r3 = seq![end] + rest;
    let r2 = seq![';'] + (c + r3);
    let r1 = seq![';'] + (b + r2);
    let s = lead + (a + r1);
    let q1 = 3 + a.len() as int;
    let q2 = q1 + 1 + b.len();
    let q3 = q2 + 1 + c.len();
    let t2 = lead + a + seq![';'];
    let t3 = t2 + b + seq![';'];
    let t = t3 + c + seq![end];
    assert(s =~= t2 + (b + r2));
    assert(s =~= t3 + (c + r3));
    assert(s =~= t + rest);
    assert(t.len() == q3 + 1);
    assert(s[0] == '\x1b' && s[1] == '[' && s[2] == '<');
    assert(s[q1] == ';' && s[q2] == ';' && s[q3] == end);
    assert(mouse_report(s, 2) == Some((mouse_view(code, x, y, release), q3 + 1))) by {
        lemma_number_is_read(lead, code, ';', b + r2);
        lemma_number_is_read(t2, x, ';', c + r3);
        lemma_number_is_read(t3, y, end, rest);
        lemma_mouse_report(s, code, x, y, q1, q2, q3, release);
    }
    lemma_event_in_front(t, rest, EventView::Mouse(mouse_view(code, x, y, release)));
}

proof fn lemma_button_code(low: u32, shift: u32, alt: u32, ctrl: u32, motion: u32, wheel: u32)
    by (bit_vector)
    requires
        low < 4,
        shift < 2,
        alt < 2,
        ctrl < 2,
        motion < 2,
        wheel < 2,
    ensures
        ((low + 4 * shift + 8 * alt + 16 * ctrl + 32 * motion + 64 * wheel) as u32) & 0x03 == low,
        (((low + 4 * shift + 8 * alt + 16 * ctrl + 32 * motion + 64 * wheel) as u32) & 0x04 != 0)
            == (shift == 1),
        (((low + 4 * shift + 8 * alt + 16 * ctrl + 32 * motion + 64 * wheel) as u32) & 0x08 != 0)
            == (alt == 1),
        (((low + 4 * shift + 8 * alt + 16 * ctrl + 32 * motion + 64 * wheel) as u32) & 0x10 != 0)
            == (ctrl == 1),
        (((low + 4 * shift + 8 * alt + 16 * ctrl + 32 * motion + 64 * wheel) as u32) & 0x20 != 0)
            == (motion == 1),
        (((low + 4 * shift + 8 * alt + 16 * ctrl + 32 * motion + 64 * wheel) as u32) & 0x40 != 0)
            == (wheel == 1),
{
}

/// What a mouse report means: the two low bits of its code are the button, 4
/// is shift, 8 alt, 16 ctrl, 32 motion and 64 the wheel; columns and rows are
/// counted from 1 in the report and from 0 in the event.
pub proof fn law_mouse_codes(
    low: u32,
    shift: u32,
    alt: u32,
    ctrl: u32,
    motion: u32,
    wheel: u32,
    x: u32,
    y: u32,
    release: bool,
)
    requires
        low < 4,
        shift < 2,
        alt < 2,
        ctrl < 2,
        motion < 2,
        wheel < 2,
        1 <= x < 0x8000_0000,
        1 <= y < 0x8000_0000,
    ensures
        ({
            let code = (low + 4 * shift + 8 * alt + 16 * ctrl + 32 * motion + 64 * wheel) as u32;
            let e = mouse_view(code, x, y, release);
            &&& e.x == x - 1 && e.y == y - 1
            &&& e.shift == (shift == 1) && e.alt == (alt == 1) && e.ctrl == (ctrl == 1)
            &&& wheel == 1 ==> e.button == MouseButton::NoButton && e.action == (if low == 0 {
                MouseAction::ScrollUp
            } else {
                MouseAction::ScrollDown
            })
            &&& wheel == 0 ==> e.button == (if low == 0 {
                MouseButton::Left
            } else if low == 1 {
                MouseButton::Middle
            } else if low == 2 {
                MouseButton::Right
            } else {
                MouseButton::NoButton
            })
            &&& wheel == 0 && release ==> e.action == MouseAction::Release
            &&& wheel == 0 && !release && motion == 0 ==> e.action == MouseAction::Press
            &&& wheel == 0 && !release && motion == 1 ==> e.action == (if low == 3 {
                MouseAction::Move
            } else {
                MouseAction::Drag
            })
        }),
{
    lemma_button_code(low, shift, alt, ctrl, motion, wheel);
}

/// A keyboard report, ESC [ the code ; the parameter and `u`, is one key press:
/// 27, 13, 9 and 127 are escape, return, tab and backspace, any other code is
/// the character it is, and the parameter less one holds shift, alt and ctrl
/// in its low bits.
pub proof fn law_keyboard_reports_are_read(code: u32, p: u32, rest: Seq<char>)
    requires
        1 <= p <= 8,
        is_scalar(code),
    ensures
        ({
            let s = seq!['\x1b', '['] + (dec(code as nat) + (seq![';'] + (dec(p as nat) + (
            seq!['u'] + rest))));
            let (ctrl, alt, shift) = ((p - 1) / 4 == 1, (p - 1) / 2 % 2 == 1, (p - 1) % 2 == 1);
            let e = if code == 27 {
                named_view("escape"@, ctrl, alt, shift)
            } else if code == 13 {
                named_view("return"@, ctrl, alt, shift)
            } else if code == 127 {
                named_view("backspace"@, ctrl, alt, shift)
            } else if code == 9 && shift {
                named_view("backtab"@, ctrl, alt, shift)
            } else if code == 9 {
                named_view("tab"@, ctrl, alt, shift)
            } else {
                printable_view(code as char, ctrl, alt, shift)
            };
            events_from(s, 0) == seq![e] + events_from(rest, 0)
        }),
{
    let (a, b) = (dec(code as nat), dec(p as nat));
    let lead = seq!['\x1b', '['];
    let r2 = seq!['u'] + rest;
    let s = lead + (a + (seq![';'] + (b + r2)));
    lemma_number_is_read(lead, code, ';', b + r2);
    let t2 = lead + a + seq![';'];
    assert(s =~= t2 + (b + r2));
    lemma_number_is_read(t2, p, 'u', rest);
    lemma_number_dec(code as nat);
    assert(is_digit(a[0]));
    assert(s[0] == '\x1b' && s[1] == '[' && s[2] == a[0]);
    let q = 2 + a.len() as int;
    let w = q + 1 + b.len();
    assert(s[q] == ';');
    assert(s[w] == 'u');
    assert(mouse_report(s, 2) is None);
    assert(!is_modified_arrow(s, 2)) by {
        if char_at(s, 2, '1') && char_at(s, 3, ';') {
            lemma_digits_end(s, 3);
            assert(q == 3) by {
                if a.len() > 1 {
                    assert(s[3] == a[1]);
                    assert(is_digit(a[1]));
                }
            }
            assert(digits_end(s, 4) == w);
        }
    }
    assert(!char_at(s, 3, '~')) by {
        if a.len() > 1 {
            assert(s[3] == a[1]);
            assert(is_digit(a[1]));
        }
    }
    assert(is_kitty(s, 2));
    lemma_bits((p - 1) as u32);
    let t = t2 + b + seq!['u'];
    assert(s =~= t + rest);
    assert(t.len() == w + 1);
    lemma_event_in_front(t, rest, kitty_view(code, p)->0);
}

/// The keyboard events are those among the events, in order: a key is kept and
/// a mouse event is not.
pub proof fn law_keys_of_events(v: Seq<EventView>, k: KeyView, m: MouseEvent)
    ensures
        keys_of(Seq::empty()).len() == 0,
        keys_of(v.push(EventView::Key(k))) == keys_of(v).push(k),
        keys_of(v.push(EventView::Mouse(m))) == keys_of(v),
{
    assert(v.push(EventView::Key(k)).drop_last() =~= v);
    assert(v.push(EventView::Mouse(m)).drop_last() =~= v);
}

/// Two key events with the same content are the same in every field, and a key
/// is no mouse event.
pub proof fn law_events_are_told_apart(a: KeyEvent, b: KeyEvent, m: MouseEvent)
    ensures
        a@ == b@ ==> a.name@ == b.name@ && a.ctrl == b.ctrl && a.alt == b.alt && a.shift
            == b.shift && (a.char is Some <==> b.char is Some) && (a.char is Some ==> a.char->0@
            == b.char->0@),
        InputEvent::Key(a)@ == EventView::Key(a@),
        InputEvent::Mouse(m)@ == EventView::Mouse(m),
{
}

/// The views that the laws speak of.
pub proof fn law_event_views(name: Seq<char>, c: char, ctrl: bool, alt: bool, shift: bool)
    ensures
        named_view(name, ctrl, alt, shift) == EventView::Key(
            KeyView { name, char: None, ctrl, alt, shift },
        ),
        printable_view(c, ctrl, alt, shift) == EventView::Key(
            KeyView { name: seq![c], char: Some(seq![c]), ctrl, alt, shift },
        ),
{
}

/// A control sequence that means no key and no mouse report is skipped up to
/// its final character, and what follows is read on its own.
pub proof fn law_unknown_sequences_are_skipped(params: Seq<char>, end: char, rest: Seq<char>)
    requires
        params.len() > 0,
        forall|i: int|
            0 <= i < params.len() ==> (#[trigger] params[i]) < '@' && params[i] != '<'
                && !is_digit(params[i]),
        '@' <= end && end <= '~',
    ensures
        events_from(seq!['\x1b', '['] + (params + (seq![end] + rest)), 0) == events_from(rest, 0),
{
    let s = seq!['\x1b', '['] + (params + (seq![end] + rest));
    assert(s[0] == '\x1b' && s[1] == '[');
    assert(s[2] == params[0]);
    assert(params[0] != '<' && params[0] < '@' && !is_digit(params[0]));
    let n = 2 + params.len() as int;
    assert(s[n] == end);
    assert forall|i: int| 2 <= i < n implies (#[trigger] s[i]) < '@' by {
        assert(s[i] == params[i - 2]);
    }
    lemma_final_run(s, 2, n);
    assert(mouse_report(s, 2) is None);
    assert(digits_at(s, 2) is None);
    assert(!is_kitty(s, 2));
    assert(csi(s, 2) == (None::<EventView>, n + 1));
    let t = seq!['\x1b', '['] + params + seq![end];
    assert(s =~= t + rest);
    lemma_events_behind(t, rest, 0);
}

proof fn lemma_final_run(s: Seq<char>, k: int, n: int)
    requires
        0 <= k <= n < s.len(),
        forall|i: int| k <= i < n ==> (#[trigger] s[i]) < '@',
        '@' <= s[n] && s[n] <= '~',
    ensures
        final_byte(s, k) == n,
    decreases n - k,
{
    if k < n {
        assert(s[k] < '@');
        lemma_final_run(s, k + 1, n);
    }
}

/// A cursor key with modifiers, ESC [ 1 ; the parameter and the letter, is one
/// key press: the parameter less one holds shift, alt and ctrl in its low bits.
pub proof fn law_modified_cursor_keys_are_read(p: u32, c: char, rest: Seq<char>)
    requires
        1 <= p <= 8,
        c == 'A' || c == 'B' || c == 'C' || c == 'D' || c == 'H' || c == 'F',
    ensures
        ({
            let s = seq!['\x1b', '[', '1', ';'] + (dec(p as nat) + (seq![c] + rest));
            let (ctrl, alt, shift) = ((p - 1) / 4 == 1, (p - 1) / 2 % 2 == 1, (p - 1) % 2 == 1);
            let name = if c == 'A' {
                "up"@
            } else if c == 'B' {
                "down"@
            } else if c == 'C' {
                "right"@
            } else if c == 'D' {
                "left"@
            } else if c == 'H' {
                "home"@
            } else {
                "end"@
            };
            events_from(s, 0) == seq![named_view(name, ctrl, alt, shift)] + events_from(rest, 0)
        }),
{
    let b = dec(p as nat);
    let lead = seq!['\x1b', '[', '1', ';'];
    let s = lead + (b + (seq![c] + rest));
    lemma_number_is_read(lead, p, c, rest);
    let q = 4 + b.len() as int;
    assert(s[0] == '\x1b' && s[1] == '[' && s[2] == '1' && s[3] == ';' && s[q] == c);
    assert(mouse_report(s, 2) is None);
    assert(is_modified_arrow(s, 2));
    lemma_bits((p - 1) as u32);
    let mods = (p - 1) as u32;
    let t = lead + b + seq![c];
    assert(s =~= t + rest);
    lemma_event_in_front(
        t,
        rest,
        named_view(arrow_name(c)->0, mods & 0x04 != 0, mods & 0x02 != 0, mods & 0x01 != 0),
    );
}

/// A keyboard report without a parameter has no modifiers, and one whose code
/// is no character gives no event.
pub proof fn law_plain_keyboard_reports_are_read(code: u32, rest: Seq<char>)
    ensures
        ({
            let s = seq!['\x1b', '['] + (dec(code as nat) + (seq!['u'] + rest));
            let more = events_from(rest, 0);
            &&& code == 27 ==> events_from(s, 0) == seq![named_view("escape"@, false, false, false)]
                + more
            &&& code == 13 ==> events_from(s, 0) == seq![named_view("return"@, false, false, false)]
                + more
            &&& code == 9 ==> events_from(s, 0) == seq![named_view("tab"@, false, false, false)]
                + more
            &&& code == 127 ==> events_from(s, 0) == seq![
                named_view("backspace"@, false, false, false),
            ] + more
            &&& is_scalar(code) && code != 27 && code != 13 && code != 9 && code != 127
                ==> events_from(s, 0) == seq![printable_view(code as char, false, false, false)]
                + more
            &&& !is_scalar(code) ==> events_from(s, 0) == more
        }),
{
    let a = dec(code as nat);
    let lead = seq!['\x1b', '['];
    let s = lead + (a + (seq!['u'] + rest));
    lemma_number_is_read(lead, code, 'u', rest);
    lemma_number_dec(code as nat);
    assert(is_digit(a[0]));
    assert(s[0] == '\x1b' && s[1] == '[' && s[2] == a[0]);
    let q = 2 + a.len() as int;
    assert(s[q] == 'u');
    assert(mouse_report(s, 2) is None);
    assert(!char_at(s, 3, '~') && !char_at(s, 3, ';')) by {
        if a.len() > 1 {
            assert(s[3] == a[1]);
            assert(is_digit(a[1]));
        }
    }
    assert(is_kitty(s, 2));
    lemma_bits(0);
    let t = lead + a + seq!['u'];
    assert(s =~= t + rest);
    lemma_events_behind(t, rest, 0);
}

/// A character may stand anywhere but among the surrogates and above the last
/// code point.
pub proof fn law_characters_by_code(code: u32)
    ensures
        is_scalar(code) <==> code < 0xd800 || 0xe000 <= code <= 0x10ffff,
{
}

/// Coordinates beyond what a screen has: nothing and what exceeds 31 bits count
/// as the first cell, but for the lowest such number, which wraps. A parameter
/// of 0 means no modifiers.
pub proof fn law_odd_numbers_in_reports(n: u32)
    ensures
        1 <= n < 0x8000_0000 ==> cell(n) == n - 1,
        n == 0 || n > 0x8000_0000 ==> cell(n) == 0,
        n == 0x8000_0000 ==> cell(n) == i32::MAX,
        modifier_bits(0) == 0,
        n > 0 ==> modifier_bits(n) == n - 1,
        MOUSE_ENABLE_SGR@ == "\x1b[?1002h\x1b[?1006h"@,
        MOUSE_DISABLE_SGR@ == "\x1b[?1006l\x1b[?1002l"@,
{
}

/// Lists of events and keys are what they hold.
pub proof fn law_lists_of_events(v: Seq<InputEvent>, w: Seq<KeyEvent>, i: int)
    ensures
        event_views(v).len() == v.len() && key_views(w).len() == w.len(),
        0 <= i < v.len() ==> event_views(v)[i] == v[i]@,
        0 <= i < w.len() ==> key_views(w)[i] == w[i]@,
{
}

} // verus!
