//! TOML documents: the values that a manifest can hold.

use crate::pairs::{key_index, lookup};
use crate::text::str_eq;
use vstd::prelude::*;

verus! {

/// A TOML value. Values that the manifest only ever shows are kept as the
/// text that shows them; so is, beside its entries, a table.
#[derive(Debug)]
pub enum Toml {
    Str(String),
    Int(i64),
    Bool(bool),
    Table(TomlTable),
    /// A float, a date or an array, as it is shown.
    Other(String),
}

/// A TOML table in the order of the document.
#[derive(Debug)]
pub struct TomlTable {
    pub entries: Vec<(String, Toml)>,
    /// The table as it is shown inside another value.
    pub text: String,
}

/// The mathematical content of a `Toml`.
#[verifier::ext_equal]
pub enum TomlView {
    Str(Seq<char>),
    Int(i64),
    Bool(bool),
    Table(Seq<(Seq<char>, TomlView)>, Seq<char>),
    Other(Seq<char>),
}

/// The entries of a table.
pub type TomlEntries = Seq<(Seq<char>, TomlView)>;

impl Toml {
    /// The content.
    pub open spec fn view(&self) -> TomlView
        decreases self,
    {
        match self {
            Toml::Str(s) => TomlView::Str(s@),
            Toml::Int(n) => TomlView::Int(*n),
            Toml::Bool(b) => TomlView::Bool(*b),
            Toml::Table(t) => TomlView::Table(t.view(), t.text@),
            Toml::Other(s) => TomlView::Other(s@),
        }
    }
}

impl TomlTable {
    /// The content.
    pub open spec fn view(&self) -> TomlEntries
        decreases self,
    {
        Seq::new(
            self.entries@.len(),
            |i: int|
                if 0 <= i < self.entries@.len() {
                    (self.entries@[i].0@, self.entries@[i].1.view())
                } else {
                    (Seq::empty(), TomlView::Int(0))
                },
        )
    }

    /// The value under a key.
    pub fn get(&self, key: &str) -> (r: Option<&Toml>)
        ensures
            match r {
                Some(v) => lookup(self@, key@) == Some(v@),
                None => lookup(self@, key@) is None,
            },
    {
        let mut i: usize = 0;
        while i < self.entries.len()
            invariant
                i <= self.entries@.len(),
                key_index(self@, key@, i as int) == key_index(self@, key@, 0),
            decreases self.entries.len() - i,
        {
            assert(self@[i as int] == (self.entries@[i as int].0@, self.entries@[i as int].1@));
            if str_eq(self.entries[i].0.as_str(), key) {
                return Some(&self.entries[i].1);
            }
            i += 1;
        }
        None
    }
}

/// The outside crate's value.
#[verifier::external_type_specification]
#[verifier::external_body]
pub struct ExTomlValue(toml::Value);

/// What a `toml::Value` holds.
pub uninterp spec fn toml_view(v: toml::Value) -> TomlView;

/// What `toml` reads from a document, or what it says against it.
pub uninterp spec fn toml_read(text: Seq<char>) -> Result<TomlView, Seq<char>>;

/// Parses a document with the `FromStr` of `toml::Table`; the error is shown
/// by its `Display`. What is read is a table.
#[verifier::external_body]
fn parse_document(text: &str) -> (r: Result<toml::Value, String>)
    ensures
        match r {
            Ok(v) => toml_read(text@) == Ok::<TomlView, Seq<char>>(toml_view(v)) && toml_view(v)
                is Table,
            Err(e) => toml_read(text@) == Err::<TomlView, Seq<char>>(e@),
        },
{
    text.parse::<toml::Table>().map(toml::Value::Table).map_err(|e| e.to_string())
}

/// Takes a `toml::Value` apart, variant by variant; the texts are those of the
/// `Display` of `f64` and of `toml::Value`.
#[verifier::external_body]
fn from_toml(v: &toml::Value) -> (r: Toml)
    ensures
        r@ == toml_view(*v),
{
    match v {
        toml::Value::String(s) => Toml::Str(s.clone()),
        toml::Value::Integer(n) => Toml::Int(*n),
        toml::Value::Boolean(b) => Toml::Bool(*b),
        toml::Value::Float(x) => Toml::Other(x.to_string()),
        toml::Value::Table(t) => Toml::Table(
            TomlTable {
                entries: t.iter().map(|(k, x)| (k.clone(), from_toml(x))).collect(),
                text: v.to_string(),
            },
        ),
        other => Toml::Other(other.to_string()),
    }
}

/// Read a TOML document.
pub fn read_toml(text: &str) -> (r: Result<TomlTable, String>)
    ensures
        match r {
            Ok(t) => toml_read(text@) == Ok::<TomlView, Seq<char>>(TomlView::Table(t@, t.text@)),
            Err(e) => toml_read(text@) == Err::<TomlView, Seq<char>>(e@),
        },
{
    match parse_document(text) {
        Ok(v) => match from_toml(&v) {
            Toml::Table(t) => Ok(t),
            _ => {
                // A document is always a table.
                assert(false);
                Err(String::new())
            },
        },
        Err(e) => Err(e),
    }
}

/// What the values of a document stand for.
pub proof fn law_toml_values(s: String, n: i64, b: bool, t: TomlTable, i: int)
    ensures
        Toml::Str(s)@ == TomlView::Str(s@),
        Toml::Int(n)@ == TomlView::Int(n),
        Toml::Bool(b)@ == TomlView::Bool(b),
        Toml::Other(s)@ == TomlView::Other(s@),
        Toml::Table(t)@ == TomlView::Table(t@, t.text@),
        t@.len() == t.entries@.len(),
        0 <= i < t@.len() ==> t@[i] == (t.entries@[i].0@, t.entries@[i].1@),
{
}

} // verus!
