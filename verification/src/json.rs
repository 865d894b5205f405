//! JSON values: a tree of the library's own, which `serde_json` reads from
//! text and writes to text.

use crate::pairs::{
    distinct_keys, has_key, key_index, law_put_then_lookup, law_without_then_lookup,
    lemma_key_absent, lookup, put, without,
};
use crate::text::{
    joined, lemma_views_push, str_eq, substring, to_chars, utf8_text, views,
};
use serde_json::Value;
use vstd::prelude::*;
use vstd::utf8::{decode_utf8, valid_utf8};

verus! {

/// A number that is not an integer, by the text that `serde_json` writes for
/// it.
#[derive(Debug, Clone, PartialEq, Eq)]
pub struct JsonFloat {
    text: String,
}

/// A JSON value.
#[derive(Debug, PartialEq, Eq)]
pub enum Json {
    Null,
    Bool(bool),
    /// An integer from 0 up.
    PosInt(u64),
    /// An integer that needs a sign.
    NegInt(i64),
    /// Any other number.
    Float(JsonFloat),
    Str(String),
    Array(Vec<Json>),
    Object(JsonMap),
}

/// The members of a JSON object, in the order in which they were added. No
/// key occurs twice.
#[derive(Debug, PartialEq, Eq)]
pub struct JsonMap {
    entries: Vec<(String, Json)>,
}

/// The mathematical content of a JSON value.
pub enum JsonView {
    Null,
    Bool(bool),
    Int(int),
    Float(Seq<char>),
    Str(Seq<char>),
    Array(Seq<JsonView>),
    Object(Seq<(Seq<char>, JsonView)>),
}

/// The members of an object, as pairs of key and value.
pub type Members = Seq<(Seq<char>, JsonView)>;

impl JsonFloat {
    pub closed spec fn view(&self) -> Seq<char> {
        self.text@
    }

    /// The text of the number.
    pub fn text(&self) -> (t: &str)
        ensures
            t@ == self@,
    {
        self.text.as_str()
    }

    /// The same number.
    pub fn copy(&self) -> (r: JsonFloat)
        ensures
            r@ == self@,
    {
        JsonFloat { text: self.text.clone() }
    }
}

impl Json {
    pub open spec fn view(&self) -> JsonView
        decreases self,
    {
        match self {
            Json::Null => JsonView::Null,
            Json::Bool(b) => JsonView::Bool(*b),
            Json::PosInt(n) => JsonView::Int(*n as int),
            Json::NegInt(n) => JsonView::Int(*n as int),
            Json::Float(f) => JsonView::Float(f@),
            Json::Str(s) => JsonView::Str(s@),
            Json::Array(v) => JsonView::Array(
                Seq::new(
                    v@.len(),
                    |i: int|
                        if 0 <= i < v@.len() {
                            v@[i].view()
                        } else {
                            JsonView::Null
                        },
                ),
            ),
            Json::Object(m) => JsonView::Object(m.view()),
        }
    }
}

impl JsonMap {
    pub closed spec fn view(&self) -> Members
        decreases self,
    {
        Seq::new(
            self.entries@.len(),
            |i: int|
                if 0 <= i < self.entries@.len() {
                    (self.entries@[i].0@, self.entries@[i].1.view())
                } else {
                    (Seq::<char>::empty(), JsonView::Null)
                },
        )
    }

    #[verifier::type_invariant]
    spec fn keys_once(self) -> bool {
        entries_once(self.entries@)
    }

    proof fn lemma_view_once(&self)
        requires
            self.keys_once(),
        ensures
            distinct_keys(self@),
    {
        assert forall|i: int, j: int| 0 <= i < j < self@.len() implies (#[trigger] self@[i]).0 != (
        #[trigger] self@[j]).0 by {
            assert(self.entries@[i].0@ != self.entries@[j].0@);
        }
    }
}

/// No key of the entries occurs twice.
spec fn entries_once(v: Seq<(String, Json)>) -> bool {
    forall|i: int, j: int| 0 <= i < j < v.len() ==> (#[trigger] v[i]).0@ != (#[trigger] v[j]).0@
}

proof fn lemma_entries_once(v: Seq<(String, Json)>, m: Members)
    requires
        distinct_keys(m),
        v.len() == m.len(),
        forall|i: int| 0 <= i < v.len() ==> (#[trigger] v[i]).0@ == m[i].0,
    ensures
        entries_once(v),
{
    assert forall|i: int, j: int| 0 <= i < j < v.len() implies (#[trigger] v[i]).0@ != (
    #[trigger] v[j]).0@ by {
        assert(m[i].0 != m[j].0);
    }
}

impl JsonMap {
    /// An object without members.
    pub fn new() -> (m: JsonMap)
        ensures
            m@ == Members::empty(),
    {
        let m = JsonMap { entries: Vec::new() };
        assert(m@ =~= Members::empty());
        m
    }

    /// The number of members. No key occurs twice.
    pub fn len(&self) -> (n: usize)
        ensures
            n == self@.len(),
            distinct_keys(self@),
    {
        proof {
            use_type_invariant(self);
            self.lemma_view_once();
        }
        self.entries.len()
    }

    fn position(&self, key: &str) -> (i: usize)
        ensures
            i == key_index(self@, key@, 0),
            i <= self@.len(),
            self@.len() == self.entries@.len(),
    {
        let mut i: usize = 0;
        while i < self.entries.len()
            invariant
                i <= self.entries.len(),
                self@.len() == self.entries@.len(),
                key_index(self@, key@, 0) == key_index(self@, key@, i as int),
            decreases self.entries.len() - i,
        {
            assert(self@[i as int].0 == self.entries@[i as int].0@);
            if str_eq(self.entries[i].0.as_str(), key) {
                return i;
            }
            i += 1;
        }
        i
    }

    /// The value of a key.
    pub fn get(&self, key: &str) -> (r: Option<&Json>)
        ensures
            match r {
                Some(j) => lookup(self@, key@) == Some(j@),
                None => lookup(self@, key@) is None,
            },
    {
        let i = self.position(key);
        if i < self.entries.len() {
            assert(self@[i as int].1 == self.entries@[i as int].1@);
            Some(&self.entries[i].1)
        } else {
            None
        }
    }

    /// Whether the object has the key.
    pub fn contains_key(&self, key: &str) -> (r: bool)
        ensures
            r == has_key(self@, key@),
    {
        self.position(key) < self.entries.len()
    }

    /// The key of a member.
    pub fn key_at(&self, i: usize) -> (k: &str)
        requires
            i < self@.len(),
        ensures
            k@ == self@[i as int].0,
    {
        self.entries[i].0.as_str()
    }

    /// The value of a member.
    pub fn value_at(&self, i: usize) -> (v: &Json)
        requires
            i < self@.len(),
        ensures
            v@ == self@[i as int].1,
    {
        &self.entries[i].1
    }

    /// Put `value` under `key`.
    pub fn insert(&mut self, key: String, value: Json)
        ensures
            final(self)@ == put(old(self)@, key@, value@),
    {
        proof {
            use_type_invariant(&*self);
            self.lemma_view_once();
            law_put_then_lookup(self@, key@, value@, key@);
        }
        let ghost before = self@;
        let i = self.position(key.as_str());
        let mut entries: Vec<(String, Json)> = Vec::new();
        std::mem::swap(&mut entries, &mut self.entries);
        let ghost old_entries = entries@;
        assert forall|j: int| 0 <= j < before.len() implies before[j] == (
            old_entries[j].0@,
            old_entries[j].1@,
        ) by {}
        let ghost k = key@;
        let ghost v = value@;
        if i < entries.len() {
            entries.set(i, (key, value));
        } else {
            entries.push((key, value));
        }
        let ghost have = Members::new(entries@.len(), |j: int| (entries@[j].0@, entries@[j].1@));
        assert(have =~= put(before, k, v));
        proof {
            lemma_entries_once(entries@, have);
        }
        let made = JsonMap { entries };
        assert(made@ =~= have);
        *self = made;
    }

    /// Add a member under a key that is not there yet.
    pub fn add_member(&mut self, key: &str, value: Json)
        requires
            forall|i: int| 0 <= i < old(self)@.len() ==> (#[trigger] old(self)@[i]).0 != key@,
        ensures
            final(self)@ == old(self)@.push((key@, value@)),
    {
        proof {
            lemma_key_absent(self@, key@);
        }
        self.insert(key.to_owned(), value);
    }

    /// Take `key` out, keeping the order of the rest.
    pub fn remove(&mut self, key: &str)
        ensures
            final(self)@ == without(old(self)@, key@),
    {
        proof {
            use_type_invariant(&*self);
            self.lemma_view_once();
            law_without_then_lookup(self@, key@, key@);
        }
        let ghost before = self@;
        let i = self.position(key);
        let mut entries: Vec<(String, Json)> = Vec::new();
        std::mem::swap(&mut entries, &mut self.entries);
        let ghost old_entries = entries@;
        assert forall|j: int| 0 <= j < before.len() implies before[j] == (
            old_entries[j].0@,
            old_entries[j].1@,
        ) by {}
        if i < entries.len() {
            let _ = entries.remove(i);
        }
        let ghost have = Members::new(entries@.len(), |j: int| (entries@[j].0@, entries@[j].1@));
        assert(have =~= without(before, key@));
        proof {
            lemma_entries_once(entries@, have);
        }
        let made = JsonMap { entries };
        assert(made@ =~= have);
        *self = made;
    }

    /// A copy with the same members.
    pub fn copy(&self) -> (r: JsonMap)
        ensures
            r@ == self@,
        decreases self,
    {
        proof {
            use_type_invariant(self);
            self.lemma_view_once();
        }
        let mut entries: Vec<(String, Json)> = Vec::new();
        let mut i: usize = 0;
        while i < self.entries.len()
            invariant
                i <= self.entries.len(),
                entries@.len() == i,
                self@.len() == self.entries@.len(),
                forall|j: int|
                    0 <= j < i ==> (#[trigger] entries@[j]).0@ == self@[j].0 && entries@[j].1@
                        == self@[j].1,
            decreases self.entries.len() - i,
        {
            let value = self.entries[i].1.copy();
            entries.push((self.entries[i].0.clone(), value));
            i += 1;
        }
        let ghost want = self@;
        let ghost have = Members::new(
            entries@.len(),
            |j: int| (entries@[j].0@, entries@[j].1@),
        );
        assert(have =~= want);
        proof {
            lemma_entries_once(entries@, have);
        }
        let made = JsonMap { entries };
        assert(made@ =~= want);
        made
    }
}

impl Json {
    /// A copy with the same content.
    pub fn copy(&self) -> (r: Json)
        ensures
            r@ == self@,
        decreases self,
    {
        match self {
            Json::Null => Json::Null,
            Json::Bool(b) => Json::Bool(*b),
            Json::PosInt(n) => Json::PosInt(*n),
            Json::NegInt(n) => Json::NegInt(*n),
            Json::Float(f) => Json::Float(JsonFloat { text: f.text.clone() }),
            Json::Str(s) => Json::Str(s.clone()),
            Json::Array(v) => {
                let mut out: Vec<Json> = Vec::new();
                let mut i: usize = 0;
                while i < v.len()
                    invariant
                        i <= v.len(),
                        self is Array,
                        self->Array_0 == *v,
                        out@.len() == i,
                        forall|j: int| 0 <= j < i ==> (#[trigger] out@[j])@ == v@[j]@,
                    decreases v.len() - i,
                {
                    let item = v[i].copy();
                    out.push(item);
                    i += 1;
                }
                let r = Json::Array(out);
                assert(r@->Array_0 =~= self@->Array_0);
                r
            },
            Json::Object(m) => Json::Object(m.copy()),
        }
    }
}

impl Clone for Json {
    fn clone(&self) -> (r: Json)
        ensures
            r@ == self@,
    {
        self.copy()
    }
}

impl Clone for JsonMap {
    fn clone(&self) -> (r: JsonMap)
        ensures
            r@ == self@,
    {
        self.copy()
    }
}

/// The whole number of a `JsonFloat`, towards zero and kept in 64 bits.
pub uninterp spec fn truncated(text: Seq<char>) -> i64;

/// Calls `serde_json::Number::as_f64` and casts: the whole part of the number,
/// or the nearest 64-bit value where it does not fit.
#[verifier::external_body]
pub(crate) fn truncate_float(x: &JsonFloat) -> (n: i64)
    ensures
        n == truncated(x@),
{
    serde_json::Number::from_f64(x.text.parse().unwrap_or_default()).and_then(
        |n| n.as_f64(),
    ).map_or(0, |f| f as i64)
}

// ---- equality ------------------------------------------------------------

/// The texts of the two zeros.
pub open spec fn zero_text(t: Seq<char>) -> bool {
    t == "0.0"@ || t == "-0.0"@
}

/// Whether two values are equal. The order of members does not matter, and
/// the two zeros are equal.
pub open spec fn same(a: JsonView, b: JsonView) -> bool
    decreases a,
{
    match (a, b) {
        (JsonView::Null, JsonView::Null) => true,
        (JsonView::Bool(x), JsonView::Bool(y)) => x == y,
        (JsonView::Int(x), JsonView::Int(y)) => x == y,
        (JsonView::Float(x), JsonView::Float(y)) => x == y || (zero_text(x) && zero_text(y)),
        (JsonView::Str(x), JsonView::Str(y)) => x == y,
        (JsonView::Array(x), JsonView::Array(y)) => x.len() == y.len() && forall|i: int|
            0 <= i < x.len() ==> same(#[trigger] x[i], y[i]),
        (JsonView::Object(x), JsonView::Object(y)) => x.len() == y.len() && forall|i: int|
            0 <= i < x.len() ==> (#[trigger] has_key(y, x[i].0)) && same(
                x[i].1,
                lookup(y, x[i].0)->0,
            ),
        _ => false,
    }
}

/// Whether two objects have equal members.
pub open spec fn same_members(a: Members, b: Members) -> bool {
    same(JsonView::Object(a), JsonView::Object(b))
}

fn is_zero_text(t: &str) -> (r: bool)
    ensures
        r == zero_text(t@),
{
    str_eq(t, "0.0") || str_eq(t, "-0.0")
}

impl JsonMap {
    /// Decides `same_members`.
    pub fn same_as(&self, other: &JsonMap) -> (r: bool)
        ensures
            r == same_members(self@, other@),
        decreases self,
    {
        if self.entries.len() != other.entries.len() {
            return false;
        }
        let mut i: usize = 0;
        while i < self.entries.len()
            invariant
                i <= self.entries.len(),
                self.entries@.len() == self@.len() == other@.len(),
                forall|j: int|
                    0 <= j < i ==> (#[trigger] has_key(other@, self@[j].0)) && same(
                        self@[j].1,
                        lookup(other@, self@[j].0)->0,
                    ),
            decreases self.entries.len() - i,
        {
            assert(self@[i as int] == (self.entries@[i as int].0@, self.entries@[i as int].1@));
            match other.get(self.entries[i].0.as_str()) {
                Some(v) => {
                    if !self.entries[i].1.same_as(v) {
                        assert(has_key(other@, self@[i as int].0));
                        return false;
                    }
                },
                None => {
                    assert(!has_key(other@, self@[i as int].0));
                    return false;
                },
            }
            i += 1;
        }
        true
    }
}

impl Json {
    /// Decides `same`.
    pub fn same_as(&self, other: &Json) -> (r: bool)
        ensures
            r == same(self@, other@),
        decreases self,
    {
        match (self, other) {
            (Json::Null, Json::Null) => true,
            (Json::Bool(x), Json::Bool(y)) => *x == *y,
            (Json::PosInt(x), Json::PosInt(y)) => *x == *y,
            (Json::NegInt(x), Json::NegInt(y)) => *x == *y,
            (Json::PosInt(x), Json::NegInt(y)) => *y >= 0 && *x == *y as u64,
            (Json::NegInt(x), Json::PosInt(y)) => *x >= 0 && *y == *x as u64,
            (Json::Float(x), Json::Float(y)) => str_eq(x.text(), y.text()) || (is_zero_text(
                x.text(),
            ) && is_zero_text(y.text())),
            (Json::Str(x), Json::Str(y)) => str_eq(x.as_str(), y.as_str()),
            (Json::Array(x), Json::Array(y)) => {
                if x.len() != y.len() {
                    return false;
                }
                let mut i: usize = 0;
                while i < x.len()
                    invariant
                        i <= x.len(),
                        x.len() == y.len(),
                        self is Array,
                        self->Array_0 == *x,
                        other is Array,
                        other->Array_0 == *y,
                        forall|j: int|
                            0 <= j < i ==> same(
                                #[trigger] self@->Array_0[j],
                                other@->Array_0[j],
                            ),
                    decreases x.len() - i,
                {
                    assert(self@->Array_0[i as int] == x@[i as int]@);
                    assert(other@->Array_0[i as int] == y@[i as int]@);
                    if !x[i].same_as(&y[i]) {
                        return false;
                    }
                    i += 1;
                }
                true
            },
            (Json::Object(x), Json::Object(y)) => x.same_as(y),
            _ => false,
        }
    }
}

// ---- text ----------------------------------------------------------------

/// A value of `serde_json`.
#[verifier::external_type_specification]
#[verifier::external_body]
pub struct ExValue(serde_json::Value);

/// What a `serde_json` value holds. A number that is not an integer is known
/// by its text.
pub uninterp spec fn value_view(v: serde_json::Value) -> JsonView;

/// The value that `serde_json` reads from a text, or `None` where it refuses
/// the text.
pub uninterp spec fn parsed(text: Seq<char>) -> Option<JsonView>;

/// The text that `serde_json` writes for a value, without white space.
pub uninterp spec fn compact(v: JsonView) -> Seq<char>;

/// One member of an object as `serde_json` writes it on one line.
pub open spec fn member_text(m: (Seq<char>, JsonView)) -> Seq<char> {
    compact(JsonView::Str(m.0)) + ":"@ + compact(m.1)
}

/// The members of an object as `serde_json` writes them on one line.
pub open spec fn object_text(m: Members) -> Seq<char> {
    "{"@ + joined(Seq::new(m.len(), |i: int| member_text(m[i])), ","@) + "}"@
}

/// The text that `serde_json` writes for a value, indented by two spaces.
pub uninterp spec fn pretty(v: JsonView) -> Seq<char>;

/// Values that survive being written and read: no number but integers of
/// 64 bits, and at most `room` levels of nesting.
pub open spec fn readable(v: JsonView, room: nat) -> bool
    decreases v,
{
    match v {
        JsonView::Int(n) => i64::MIN <= n <= u64::MAX,
        JsonView::Float(_) => false,
        JsonView::Array(a) => room > 0 && forall|i: int|
            0 <= i < a.len() ==> readable(#[trigger] a[i], (room - 1) as nat),
        JsonView::Object(m) => room > 0 && distinct_keys(m) && forall|i: int|
            0 <= i < m.len() ==> readable((#[trigger] m[i]).1, (room - 1) as nat),
        _ => true,
    }
}

/// The deepest nesting that `serde_json` reads.
pub open spec fn max_nesting() -> nat {
    127
}

/// An object of texts, integers, truth values and nulls survives being written
/// and read.
pub proof fn lemma_flat_object_is_readable(m: Members, room: nat)
    requires
        room > 0,
        distinct_keys(m),
        forall|i: int|
            0 <= i < m.len() ==> ((#[trigger] m[i]).1 is Str || m[i].1 is Null || m[i].1 is Bool || (
            m[i].1 matches JsonView::Int(n) && i64::MIN <= n <= u64::MAX)),
    ensures
        readable(JsonView::Object(m), room),
{
    assert forall|i: int| 0 <= i < m.len() implies readable(
        (#[trigger] m[i]).1,
        (room - 1) as nat,
    ) by {}
}

/// White space between the tokens of a JSON text.
pub open spec fn json_space(c: char) -> bool {
    c == ' ' || c == '\n' || c == '\r' || c == '\t'
}

/// Whether a colon is the next token at `i`.
pub open spec fn colon_follows(t: Seq<char>, i: int) -> bool
    decreases t.len() - i,
{
    if 0 <= i < t.len() {
        t[i] == ':' || (json_space(t[i]) && colon_follows(t, i + 1))
    } else {
        false
    }
}

/// The string literals before colons that stand one level deep in a JSON text,
/// from `i` on: at that level `depth` is 1, `open` is where the literal around
/// `i` starts, and `escaped` is whether a backslash came just before.
pub open spec fn key_literals(
    t: Seq<char>,
    i: int,
    depth: int,
    open: Option<int>,
    escaped: bool,
) -> Seq<Seq<char>>
    decreases t.len() - i,
{
    if !(0 <= i < t.len()) {
        Seq::empty()
    } else {
        match open {
            Some(start) => if !escaped && t[i] == '"' {
                let rest = key_literals(t, i + 1, depth, None, false);
                if depth == 1 && colon_follows(t, i + 1) {
                    seq![t.subrange(start, i + 1)] + rest
                } else {
                    rest
                }
            } else {
                key_literals(t, i + 1, depth, open, !escaped && t[i] == '\\')
            },
            None => if t[i] == '"' {
                key_literals(t, i + 1, depth, Some(i), false)
            } else if t[i] == '{' || t[i] == '[' {
                key_literals(t, i + 1, depth + 1, None, false)
            } else if t[i] == '}' || t[i] == ']' {
                key_literals(t, i + 1, depth - 1, None, false)
            } else {
                key_literals(t, i + 1, depth, None, false)
            },
        }
    }
}

/// The keys that the object in a JSON text spells out, each as often as it
/// stands there.
pub open spec fn spelled_keys(t: Seq<char>) -> Seq<Option<Seq<char>>> {
    let literals = key_literals(t, 0, 0, None, false);
    Seq::new(literals.len(), |i: int| as_text(parsed(literals[i])))
}

/// The keys of members, in their order.
pub open spec fn keys_of(m: Members) -> Seq<Option<Seq<char>>> {
    Seq::new(m.len(), |i: int| Some(m[i].0))
}

/// Whether the object in a JSON text spells a key out more than once.
pub open spec fn repeats_key(t: Seq<char>, key: Seq<char>) -> bool {
    exists|i: int, j: int|
        0 <= i < j < spelled_keys(t).len() && (#[trigger] spelled_keys(t)[i]) == Some(key) && (
        #[trigger] spelled_keys(t)[j]) == Some(key)
}

/// Calls `serde_json::from_str` for a `serde_json::Value`.
#[verifier::external_body]
fn value_from_str(text: &str) -> (r: Option<serde_json::Value>)
    ensures
        match r {
            Some(v) => parsed(text@) == Some(value_view(v)),
            None => parsed(text@) is None,
        },
{
    serde_json::from_str(text).ok()
}

/// Takes a `Value` apart, variant by variant.
#[verifier::external_body]
fn from_value(v: Value) -> (j: Json)
    ensures
        j@ == value_view(v),
{
    match v {
        Value::Null => Json::Null,
        Value::Bool(b) => Json::Bool(b),
        Value::Number(n) => match (n.as_u64(), n.as_i64()) {
            (Some(u), _) => Json::PosInt(u),
            (None, Some(i)) => Json::NegInt(i),
            (None, None) => Json::Float(JsonFloat { text: n.to_string() }),
        },
        Value::String(s) => Json::Str(s),
        Value::Array(a) => Json::Array(a.into_iter().map(from_value).collect()),
        Value::Object(m) => Json::Object(
            JsonMap { entries: m.into_iter().map(|(k, v)| (k, from_value(v))).collect() },
        ),
    }
}

/// Builds a `Value`, variant by variant. A `JsonFloat` only ever
/// holds the text of a finite number, so its parse succeeds.
#[verifier::external_body]
fn to_value(j: &Json) -> (v: Value)
    ensures
        value_view(v) == j@,
{
    match j {
        Json::Null => Value::Null,
        Json::Bool(b) => Value::from(*b),
        Json::PosInt(n) => Value::from(*n),
        Json::NegInt(n) => Value::from(*n),
        Json::Float(x) => serde_json::Number::from_f64(x.text.parse().unwrap_or_default()).into(),
        Json::Str(s) => Value::from(s.as_str()),
        Json::Array(a) => a.iter().map(to_value).collect(),
        Json::Object(m) => m.entries.iter().map(|(k, v)| (k.clone(), to_value(v))).collect(),
    }
}

/// Calls `serde_json::to_string`. Control characters are escaped, so the text
/// is one line; the members of an object stand between braces, a comma between
/// them, and each spells its key out once; a readable value is read back from
/// the text.
#[verifier::external_body]
fn value_to_string(v: &Value) -> (r: String)
    ensures
        r@ == compact(value_view(*v)),
        !r@.contains('\n'),
        !r@.contains('\r'),
        value_view(*v) is Object ==> r@ == object_text(value_view(*v)->Object_0),
        value_view(*v) is Object ==> spelled_keys(r@) == keys_of(value_view(*v)->Object_0),
        readable(value_view(*v), max_nesting()) ==> parsed(r@) == Some(value_view(*v)),
{
    serde_json::to_string(v).unwrap_or_default()
}

/// Calls `serde_json::to_string_pretty`. A readable value is read back from
/// the text.
#[verifier::external_body]
fn value_to_string_pretty(v: &serde_json::Value) -> (r: String)
    ensures
        r@ == pretty(value_view(*v)),
        readable(value_view(*v), max_nesting()) ==> parsed(r@) == Some(value_view(*v)),
{
    serde_json::to_string_pretty(v).unwrap_or_default()
}

/// What a value of `serde_json` holds.
pub fn json_of_value(v: Value) -> (j: Json)
    ensures
        j@ == value_view(v),
{
    from_value(v)
}

/// The value of `serde_json` that holds this.
pub fn value_of_json(j: &Json) -> (v: Value)
    ensures
        value_view(v) == j@,
{
    to_value(j)
}

/// Read a JSON text.
pub fn parse_json(text: &str) -> (r: Option<Json>)
    ensures
        match r {
            Some(j) => parsed(text@) == Some(j@),
            None => parsed(text@) is None,
        },
{
    match value_from_str(text) {
        Some(v) => Some(from_value(v)),
        None => None,
    }
}

/// Write a value on one line.
pub fn to_json_text(j: &Json) -> (r: String)
    ensures
        r@ == compact(j@),
        !r@.contains('\n'),
        !r@.contains('\r'),
        j@ is Object ==> r@ == object_text(j@->Object_0),
        j@ is Object ==> spelled_keys(r@) == keys_of(j@->Object_0),
        readable(j@, max_nesting()) ==> parsed(r@) == Some(j@),
{
    let v = to_value(j);
    value_to_string(&v)
}

/// Write a value over several lines.
pub fn to_pretty_text(j: &Json) -> (r: String)
    ensures
        r@ == pretty(j@),
        readable(j@, max_nesting()) ==> parsed(r@) == Some(j@),
{
    let v = to_value(j);
    value_to_string_pretty(&v)
}

fn has_colon(t: &[char], from: usize) -> (r: bool)
    requires
        from <= t@.len(),
    ensures
        r == colon_follows(t@, from as int),
{
    let mut i: usize = from;
    while i < t.len() && (t[i] == ' ' || t[i] == '\n' || t[i] == '\r' || t[i] == '\t')
        invariant
            from <= i <= t@.len(),
            colon_follows(t@, from as int) == colon_follows(t@, i as int),
        decreases t.len() - i,
    {
        i += 1;
    }
    i < t.len() && t[i] == ':'
}

/// Computes `key_literals` of a whole text.
fn literals_before_colons(t: &[char]) -> (r: Vec<String>)
    ensures
        views(r@) == key_literals(t@, 0, 0, None, false),
{
    let ghost want = key_literals(t@, 0, 0, None, false);
    let mut out: Vec<String> = Vec::new();
    let mut i: usize = 0;
    let mut depth: i128 = 0;
    let mut inside: bool = false;
    let mut start: usize = 0;
    let mut escaped: bool = false;
    assert(views(out@) + want =~= want);
    while i < t.len()
        invariant
            i <= t@.len(),
            -(i as int) <= depth <= i,
            inside ==> start < i,
            !inside ==> !escaped,
            views(out@) + key_literals(
                t@,
                i as int,
                depth as int,
                if inside {
                    Some(start as int)
                } else {
                    None
                },
                escaped,
            ) == want,
        decreases t.len() - i,
    {
        let c = t[i];
        let ghost before = out@;
        if inside {
            if !escaped && c == '"' {
                if depth == 1 && has_colon(t, i + 1) {
                    let literal = substring(t, start, i + 1);
                    out.push(literal);
                    proof {
                        lemma_views_push(before, literal);
                        let rest = key_literals(t@, i + 1, depth as int, None, false);
                        assert(views(before) + (seq![t@.subrange(start as int, i + 1)] + rest)
                            =~= views(before).push(t@.subrange(start as int, i + 1)) + rest);
                    }
                }
                inside = false;
            } else {
                escaped = !escaped && c == '\\';
            }
        } else if c == '"' {
            inside = true;
            start = i;
        } else if c == '{' || c == '[' {
            depth = depth + 1;
        } else if c == '}' || c == ']' {
            depth = depth - 1;
        }
        i += 1;
    }
    assert(views(out@) + Seq::<Seq<char>>::empty() =~= views(out@));
    out
}

/// Decides `repeats_key`.
pub fn spells_twice(text: &str, key: &str) -> (r: bool)
    ensures
        r == repeats_key(text@, key@),
{
    let chars = to_chars(text);
    let literals = literals_before_colons(chars.as_slice());
    let ghost keys = spelled_keys(text@);
    let mut seen: bool = false;
    let mut i: usize = 0;
    while i < literals.len()
        invariant
            i <= literals@.len(),
            keys == spelled_keys(text@),
            views(literals@) == key_literals(text@, 0, 0, None, false),
            keys.len() == literals@.len(),
            seen == exists|j: int| 0 <= j < i && (#[trigger] keys[j]) == Some(key@),
            forall|j: int, k: int|
                0 <= j < k < i ==> !((#[trigger] keys[j]) == Some(key@) && (#[trigger] keys[k])
                    == Some(key@)),
        decreases literals.len() - i,
    {
        assert(views(literals@)[i as int] == literals@[i as int]@);
        let same = match parse_json(literals[i].as_str()) {
            Some(Json::Str(s)) => str_eq(s.as_str(), key),
            _ => false,
        };
        assert(same == (keys[i as int] == Some(key@)));
        if same {
            if seen {
                proof {
                    let j = choose|j: int| 0 <= j < i && (#[trigger] keys[j]) == Some(key@);
                    assert(spelled_keys(text@)[j] == Some(key@));
                    assert(spelled_keys(text@)[i as int] == Some(key@));
                }
                return true;
            }
            seen = true;
        }
        i += 1;
    }
    false
}

/// The value that `serde_json` reads from bytes: bytes that are not well-formed
/// UTF-8 are refused.
pub open spec fn parsed_bytes(bytes: Seq<u8>) -> Option<JsonView> {
    if valid_utf8(bytes) {
        parsed(decode_utf8(bytes))
    } else {
        None
    }
}

/// Read JSON from bytes.
pub fn parse_json_bytes(bytes: &[u8]) -> (r: Option<Json>)
    ensures
        match r {
            Some(j) => parsed_bytes(bytes@) == Some(j@),
            None => parsed_bytes(bytes@) is None,
        },
{
    match utf8_text(bytes) {
        Some(text) => parse_json(text.as_str()),
        None => None,
    }
}

/// The members of a value that is an object.
pub open spec fn as_members(v: Option<JsonView>) -> Option<Members> {
    match v {
        Some(JsonView::Object(m)) => Some(m),
        _ => None,
    }
}

/// The text of a value that is a string.
pub open spec fn as_text(v: Option<JsonView>) -> Option<Seq<char>> {
    match v {
        Some(JsonView::Str(s)) => Some(s),
        _ => None,
    }
}

impl JsonMap {
    /// The string under a key, if there is one.
    pub fn get_str(&self, key: &str) -> (r: Option<&str>)
        ensures
            match r {
                Some(s) => as_text(lookup(self@, key@)) == Some(s@),
                None => as_text(lookup(self@, key@)) is None,
            },
    {
        match self.get(key) {
            Some(Json::Str(s)) => Some(s.as_str()),
            _ => None,
        }
    }
}

/// What the values of the library stand for.
pub proof fn law_values_by_kind(b: bool, p: u64, n: i64, s: String, v: Vec<Json>, i: int)
    ensures
        Json::Null@ == JsonView::Null,
        Json::Bool(b)@ == JsonView::Bool(b),
        Json::PosInt(p)@ == JsonView::Int(p as int),
        Json::NegInt(n)@ == JsonView::Int(n as int),
        Json::Str(s)@ == JsonView::Str(s@),
        Json::Array(v)@ is Array && Json::Array(v)@->Array_0.len() == v@.len(),
        0 <= i < v@.len() ==> Json::Array(v)@->Array_0[i] == v@[i]@,
{
}

/// Equality of values: two numbers, texts or truth values are equal when they
/// are the same, a list is equal to one with equal items at the same places,
/// an object to one with equal values under the same keys in any order, and
/// values of different kinds are never equal.
pub proof fn law_equality(
    x: Seq<char>,
    y: Seq<char>,
    a: int,
    b: int,
    v: Seq<JsonView>,
    w: Seq<JsonView>,
    item: JsonView,
    other: JsonView,
)
    ensures
        same(JsonView::Null, JsonView::Null),
        same(JsonView::Str(x), JsonView::Str(y)) <==> x == y,
        same(JsonView::Int(a), JsonView::Int(b)) <==> a == b,
        same(JsonView::Bool(x == y), JsonView::Bool(a == b)) <==> ((x == y) == (a == b)),
        same(JsonView::Float(x), JsonView::Float(y)) <==> x == y || ((x == "0.0"@ || x == "-0.0"@)
            && (y == "0.0"@ || y == "-0.0"@)),
        !same(JsonView::Str(x), JsonView::Int(a)) && !same(JsonView::Int(a), JsonView::Str(x)),
        !same(JsonView::Null, JsonView::Str(x)) && !same(JsonView::Str(x), JsonView::Null),
        !same(JsonView::Int(a), JsonView::Float(x)) && !same(JsonView::Float(x), JsonView::Int(a)),
        !same(JsonView::Array(v), JsonView::Object(Seq::empty())),
        v.len() == w.len() ==> (same(JsonView::Array(v.push(item)), JsonView::Array(w.push(other)))
            <==> same(JsonView::Array(v), JsonView::Array(w)) && same(item, other)),
        v.len() != w.len() ==> !same(JsonView::Array(v), JsonView::Array(w)),
{
    if v.len() == w.len() {
        let (p, q) = (v.push(item), w.push(other));
        assert(p[v.len() as int] == item && q[w.len() as int] == other);
        assert(forall|i: int| 0 <= i < v.len() ==> #[trigger] p[i] == v[i] && q[i] == w[i]);
        if same(JsonView::Array(p), JsonView::Array(q)) {
            assert forall|i: int| 0 <= i < v.len() implies same(#[trigger] v[i], w[i]) by {
                assert(p[i] == v[i]);
            }
        }
        if same(JsonView::Array(v), JsonView::Array(w)) && same(item, other) {
            assert forall|i: int| 0 <= i < p.len() implies same(#[trigger] p[i], q[i]) by {
                if i < v.len() {
                    assert(same(v[i], w[i]));
                }
            }
        }
    }
}

/// Objects are equal when each has as many members as the other and every
/// member of the first is equal to the one that the second has under its key.
pub proof fn law_equality_of_objects(a: Members, b: Members)
    ensures
        same_members(a, b) <==> a.len() == b.len() && forall|i: int|
            0 <= i < a.len() ==> (#[trigger] has_key(b, a[i].0)) && same(
                a[i].1,
                lookup(b, a[i].0)->0,
            ),
{
}

/// A value is taken as a text or as an object only where it is one.
pub proof fn law_text_or_object(v: JsonView, s: Seq<char>, m: Members)
    ensures
        as_text(Some(JsonView::Str(s))) == Some(s),
        !(v is Str) ==> as_text(Some(v)) is None,
        as_text(None) is None,
        as_members(Some(JsonView::Object(m))) == Some(m),
        !(v is Object) ==> as_members(Some(v)) is None,
        as_members(None) is None,
{
}

/// How an object is written: its members between braces with commas between
/// them, each the key as a string, a colon and the value.
pub proof fn law_written_objects(m: Members, key: Seq<char>, v: JsonView)
    ensures
        member_text((key, v)) == compact(JsonView::Str(key)) + ":"@ + compact(v),
        object_text(Seq::empty()) == "{"@ + "}"@,
        object_text(seq![(key, v)]) == "{"@ + compact(JsonView::Str(key)) + ":"@ + compact(v)
            + "}"@,
        object_text(m) == "{"@ + joined(Seq::new(m.len(), |i: int| member_text(m[i])), ","@) + "}"@,
{
    let none = Seq::<(Seq<char>, JsonView)>::empty();
    assert(Seq::new(none.len(), |i: int| member_text(none[i])) =~= Seq::<Seq<char>>::empty());
    let one = seq![(key, v)];
    assert(Seq::new(one.len(), |i: int| member_text(one[i])) =~= seq![member_text((key, v))]);
    assert(seq![member_text((key, v))].drop_last() =~= Seq::<Seq<char>>::empty());
    assert(joined(seq![member_text((key, v))], ","@) =~= member_text((key, v)));
    assert("{"@ + member_text((key, v)) + "}"@ =~= "{"@ + compact(JsonView::Str(key)) + ":"@
        + compact(v) + "}"@);
    assert("{"@ + joined(Seq::<Seq<char>>::empty(), ","@) + "}"@ =~= "{"@ + "}"@);
}

/// How the keys of a text are found: a string in quotes at the depth of the
/// outermost object, with a colon behind it; brackets and braces change the
/// depth, a backslash takes the next character with it, and nothing else
/// counts.
pub proof fn law_spelled_keys(t: Seq<char>, i: int, j: int, depth: int)
    requires
        0 <= i < j < t.len(),
        t[i] == '"',
        t[j] == '"',
        forall|k: int| i < k < j ==> (#[trigger] t[k]) != '"' && t[k] != '\\',
    ensures
        key_literals(t, i, depth, None, false) == (if depth == 1 && colon_follows(t, j + 1) {
            seq![t.subrange(i, j + 1)]
        } else {
            Seq::empty()
        }) + key_literals(t, j + 1, depth, None, false),
{
    lemma_literal_run(t, i, i + 1, j, depth);
    let rest = key_literals(t, j + 1, depth, None, false);
    assert(Seq::<Seq<char>>::empty() + rest =~= rest);
}

proof fn lemma_literal_run(t: Seq<char>, i: int, k: int, j: int, depth: int)
    requires
        0 <= i < k <= j < t.len(),
        t[j] == '"',
        forall|n: int| k <= n < j ==> (#[trigger] t[n]) != '"' && t[n] != '\\',
    ensures
        key_literals(t, k, depth, Some(i), false) == key_literals(t, j, depth, Some(i), false),
    decreases j - k,
{
    if k < j {
        assert(t[k] != '"' && t[k] != '\\');
        lemma_literal_run(t, i, k + 1, j, depth);
    }
}

/// How the other characters count while keys are looked for.
pub proof fn law_characters_between_keys(t: Seq<char>, i: int, depth: int, start: int)
    requires
        0 <= i < t.len(),
    ensures
        t[i] == '{' || t[i] == '[' ==> key_literals(t, i, depth, None, false) == key_literals(
            t,
            i + 1,
            depth + 1,
            None,
            false,
        ),
        t[i] == '}' || t[i] == ']' ==> key_literals(t, i, depth, None, false) == key_literals(
            t,
            i + 1,
            depth - 1,
            None,
            false,
        ),
        t[i] != '"' && t[i] != '{' && t[i] != '[' && t[i] != '}' && t[i] != ']' ==> key_literals(
            t,
            i,
            depth,
            None,
            false,
        ) == key_literals(t, i + 1, depth, None, false),
        t[i] == '\\' && i + 1 < t.len() ==> key_literals(t, i, depth, Some(start), false)
            == key_literals(t, i + 2, depth, Some(start), false),
        key_literals(t, t.len() as int, depth, None, false).len() == 0,
        colon_follows(t, i) <==> t[i] == ':' || ((t[i] == ' ' || t[i] == '\n' || t[i] == '\r'
            || t[i] == '\t') && colon_follows(t, i + 1)),
        !colon_follows(t, t.len() as int),
{
    reveal_with_fuel(key_literals, 3);
}

/// A key is repeated where it is spelled at two places.
pub proof fn law_repeated_keys(t: Seq<char>, key: Seq<char>)
    ensures
        repeats_key(t, key) <==> exists|i: int, j: int|
            0 <= i < j < spelled_keys(t).len() && (#[trigger] spelled_keys(t)[i]) == Some(key) && (
            #[trigger] spelled_keys(t)[j]) == Some(key),
        spelled_keys(t).len() == key_literals(t, 0, 0, None, false).len(),
        forall|i: int|
            0 <= i < spelled_keys(t).len() ==> #[trigger] spelled_keys(t)[i] == as_text(
                parsed(key_literals(t, 0, 0, None, false)[i]),
            ),
{
}

/// What can be read back: no fractions, no whole numbers beyond 64 bits, no key
/// twice, and no more than 127 levels.
pub proof fn law_readable_values(s: Seq<char>, n: int, a: Seq<JsonView>, m: Members, room: nat)
    ensures
        readable(JsonView::Null, room) && readable(JsonView::Str(s), room),
        readable(JsonView::Int(n), room) <==> i64::MIN <= n <= u64::MAX,
        !readable(JsonView::Float(s), room),
        !readable(JsonView::Array(a), 0),
        readable(JsonView::Object(m), room) <==> room > 0 && distinct_keys(m) && forall|i: int|
            0 <= i < m.len() ==> readable((#[trigger] m[i]).1, (room - 1) as nat),
        max_nesting() == 127,
{
}

} // verus!
