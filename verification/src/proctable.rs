//! One reader for the process table.
//!
//! Two rules carry the weight. One read, not one per caller: a `ProcTable` is
//! a snapshot of every process. And silence is its own answer: every query
//! returns an `Answer`, which separates "the table says this process is not
//! there" from "I could not find out". There is deliberately no default and no
//! conversion that would let the second quietly become the first.

use crate::text::{
    begins, char_is_digit, digits_end, int_within, is_space, last_index, lines, lower_char,
    lowered, parse_i32, parse_u64, rfind, slice_of, space, spaceless_start, split_lines,
    split_whitespace, start_without, starts_with, str_eq, substring, to_chars, trim, trim_front,
    trim_start, trimmed, views, words,
};
use std::collections::HashMap;
use vstd::prelude::*;
use vstd::std_specs::hash::spec_keys_iter;
use vstd::std_specs::iter::IteratorSpec;

verus! {

broadcast use vstd::std_specs::hash::group_hash_axioms;

/// Why a fact is not available. None of these mean the process is gone.
#[derive(Debug, Clone, Copy, PartialEq, Eq, Structural)]
pub enum Unknown {
    /// The table could not be read at all: nothing came back, or something
    /// that did not contain this very process.
    TableUnreadable,
    /// The table has the process, but this column was empty.
    FieldEmpty,
    /// The table has the process and the column, and it did not parse.
    FieldUnparsable,
}

/// What the process table said about one thing. `Unknown` is not
/// `NotPresent`.
#[must_use]
#[derive(Debug, Clone, PartialEq, Eq)]
pub enum Answer<T> {
    Known(T),
    /// The table was read successfully and this process was not in it. This
    /// is a fact: the process is gone.
    NotPresent,
    Unknown(Unknown),
}

impl<T> Answer<T> {
    /// The value if the table knew it. Silence and absence both yield `None`.
    pub fn known(self) -> (r: Option<T>)
        ensures
            r == (match self {
                Answer::Known(v) => Some(v),
                _ => None,
            }),
    {
        match self {
            Answer::Known(v) => Some(v),
            _ => None,
        }
    }

    /// Is the process definitely gone? Only `NotPresent` says so.
    pub fn is_definitely_absent(&self) -> (r: bool)
        ensures
            r == (self is NotPresent),
    {
        match self {
            Answer::NotPresent => true,
            _ => false,
        }
    }

    /// Could it not be found out?
    pub fn is_unknown(&self) -> (r: bool)
        ensures
            r == (self is Unknown),
    {
        match self {
            Answer::Unknown(_) => true,
            _ => false,
        }
    }

    /// Deliberately treat silence as absence.
    pub fn or_absent_when_unknown(self) -> (r: Answer<T>)
        ensures
            r == (match self {
                Answer::Unknown(_) => Answer::NotPresent,
                other => other,
            }),
    {
        match self {
            Answer::Unknown(_) => Answer::NotPresent,
            other => other,
        }
    }

    /// The answer with `f` applied to a known value; absence and silence stay
    /// what they are.
    pub fn map<U, F: FnOnce(T) -> U>(self, f: F) -> (r: Answer<U>)
        requires
            self matches Answer::Known(v) ==> call_requires(f, (v,)),
        ensures
            match self {
                Answer::Known(v) => r is Known && call_ensures(f, (v,), r->Known_0),
                Answer::NotPresent => r is NotPresent,
                Answer::Unknown(u) => r == Answer::<U>::Unknown(u),
            },
    {
        match self {
            Answer::Known(v) => Answer::Known(f(v)),
            Answer::NotPresent => Answer::NotPresent,
            Answer::Unknown(u) => Answer::Unknown(u),
        }
    }
}

/// A process identity that is only ever compared with another one taken from
/// the same run. It is never the start token that session metadata holds.
#[derive(Debug, Clone, PartialEq, Eq)]
pub struct LiveIdentity(String);

impl LiveIdentity {
    pub closed spec fn view(&self) -> Seq<char> {
        self.0@
    }

    /// An identity from its text.
    pub fn new(value: &str) -> (r: LiveIdentity)
        ensures
            r@ == value@,
    {
        LiveIdentity(value.to_owned())
    }

    fn copy(&self) -> (r: LiveIdentity)
        ensures
            r@ == self@,
    {
        LiveIdentity(self.0.clone())
    }
}

/// One process, as the table saw it.
#[derive(Debug, Clone, PartialEq, Eq)]
pub struct Row {
    pub pid: i32,
    pub ppid: i32,
    pub pgid: i32,
    /// State letters. Empty when the source did not give any.
    pub state: String,
    pub rss_kb: Option<u64>,
    /// Processor share in percent, as the text of a decimal number.
    pub cpu_percent: Option<String>,
    /// Proof of identity for the length of one command.
    pub identity: Option<LiveIdentity>,
}

/// The mathematical content of a `Row`.
#[verifier::ext_equal]
pub struct RowView {
    pub pid: i32,
    pub ppid: i32,
    pub pgid: i32,
    pub state: Seq<char>,
    pub rss_kb: Option<u64>,
    pub cpu_percent: Option<Seq<char>>,
    pub identity: Option<Seq<char>>,
}

impl View for Row {
    type V = RowView;

    open spec fn view(&self) -> RowView {
        RowView {
            pid: self.pid,
            ppid: self.ppid,
            pgid: self.pgid,
            state: self.state@,
            rss_kb: self.rss_kb,
            cpu_percent: match self.cpu_percent {
                Some(c) => Some(c@),
                None => None,
            },
            identity: match self.identity {
                Some(i) => Some(i@),
                None => None,
            },
        }
    }
}

/// A dead process that still has a row.
pub open spec fn zombie(r: RowView) -> bool {
    begins(r.state, "Z"@)
}

impl Row {
    /// A zombie is a dead process that still has a row, still has a process
    /// group, and still answers a probe.
    pub fn is_zombie(&self) -> (r: bool)
        ensures
            r == zombie(self@),
    {
        starts_with(self.state.as_str(), "Z")
    }

    /// A copy of the row.
    pub fn copy(&self) -> (r: Row)
        ensures
            r@ == self@,
    {
        Row {
            pid: self.pid,
            ppid: self.ppid,
            pgid: self.pgid,
            state: self.state.clone(),
            rss_kb: self.rss_kb,
            cpu_percent: match &self.cpu_percent {
                Some(c) => Some(c.clone()),
                None => None,
            },
            identity: match &self.identity {
                Some(i) => Some(i.copy()),
                None => None,
            },
        }
    }
}

/// The contents of a list of rows.
pub open spec fn row_views(v: Seq<Row>) -> Seq<RowView> {
    Seq::new(v.len(), |i: int| v[i]@)
}

/// The last of the rows of a process, if it has one.
pub open spec fn row_of(rows: Seq<RowView>, pid: i32) -> Option<RowView>
    decreases rows.len(),
{
    if rows.len() == 0 {
        None
    } else if rows.last().pid == pid {
        Some(rows.last())
    } else {
        row_of(rows.drop_last(), pid)
    }
}

/// A snapshot of the process table.
#[derive(Debug, Clone)]
pub struct ProcTable {
    rows: HashMap<i32, Row>,
    readable: bool,
}

impl ProcTable {
    /// Whether the table could be read.
    pub closed spec fn known(&self) -> bool {
        self.readable
    }

    /// The row of a process.
    pub closed spec fn at(&self, pid: i32) -> Option<RowView> {
        if self.rows@.contains_key(pid) {
            Some(self.rows@[pid]@)
        } else {
            None
        }
    }

    /// The answer about a row: what the table holds, or silence where it could
    /// not be read.
    pub open spec fn answer(&self, pid: i32) -> Answer<RowView> {
        if !self.known() {
            Answer::Unknown(Unknown::TableUnreadable)
        } else {
            match self.at(pid) {
                Some(r) => Answer::Known(r),
                None => Answer::NotPresent,
            }
        }
    }

    /// The rows are those of the processes, each process once and none left
    /// out.
    pub open spec fn listed(&self, pids: Seq<i32>, rows: Seq<&Row>) -> bool {
        &&& pids.no_duplicates()
        &&& pids.len() == rows.len()
        &&& forall|i: int| 0 <= i < rows.len() ==> self.at(pids[i]) == Some((*#[trigger] rows[i])@)
        &&& forall|pid: i32| (#[trigger] self.at(pid)) is Some ==> pids.contains(pid)
    }

    /// A table that could not be read.
    pub fn unreadable() -> (t: ProcTable)
        ensures
            !t.known(),
            forall|pid: i32| #[trigger] t.at(pid) is None,
    {
        ProcTable { rows: HashMap::new(), readable: false }
    }

    /// The rows of the table, each process once, in no particular order.
    pub fn rows(&self) -> (r: Vec<&Row>)
        ensures
            exists|pids: Seq<i32>| self.listed(pids, r@),
    {
        let mut pids: Vec<i32> = Vec::new();
        let ghost all = spec_keys_iter(&self.rows).remaining().unref();
        for k in it: self.rows.keys()
            invariant
                it.seq().unref() == all,
                pids@ == all.take(it.index() as int),
        {
            assert(all.take(it.index() + 1) =~= all.take(it.index() as int).push(
                all[it.index() as int],
            ));
            pids.push(*k);
        }
        assert(pids@ =~= all);
        assert(all.to_set() == self.rows@.dom());
        proof {
            let refs = spec_keys_iter(&self.rows).remaining();
            assert(refs.no_duplicates());
            assert forall|i: int, j: int| 0 <= i < j < pids@.len() implies pids@[i] != pids@[j] by {
                assert(refs[i] != refs[j]);
            }
        }
        let mut out: Vec<&Row> = Vec::new();
        let mut i: usize = 0;
        while i < pids.len()
            invariant
                i <= pids@.len(),
                pids@.to_set() == self.rows@.dom(),
                pids@.no_duplicates(),
                out@.len() == i,
                forall|j: int|
                    0 <= j < i ==> self.rows@.contains_key(pids@[j]) && *#[trigger] out@[j]
                        == self.rows@[pids@[j]],
            decreases pids.len() - i,
        {
            assert(pids@.to_set().contains(pids@[i as int]));
            match self.rows.get(&pids[i]) {
                Some(row) => {
                    out.push(row);
                },
                None => {},
            }
            i += 1;
        }
        proof {
            assert forall|pid: i32| (#[trigger] self.at(pid)) is Some implies pids@.contains(
                pid,
            ) by {
                assert(pids@.to_set().contains(pid));
            }
            assert(self.listed(pids@, out@));
        }
        out
    }

    /// A table of rows that are already known good. The last row of a process
    /// counts.
    pub fn from_rows(rows: Vec<Row>) -> (t: ProcTable)
        ensures
            t.known(),
            forall|pid: i32| #[trigger] t.at(pid) == row_of(row_views(rows@), pid),
    {
        let ghost all = row_views(rows@);
        let mut map: HashMap<i32, Row> = HashMap::new();
        let mut i: usize = 0;
        assert(all.take(0) =~= Seq::<RowView>::empty());
        while i < rows.len()
            invariant
                i <= rows@.len(),
                all == row_views(rows@),
                forall|pid: i32|
                    (#[trigger] map@.contains_key(pid)) == (row_of(all.take(i as int), pid)
                        is Some),
                forall|pid: i32|
                    map@.contains_key(pid) ==> row_of(all.take(i as int), pid) == Some(
                        (#[trigger] map@[pid])@,
                    ),
            decreases rows.len() - i,
        {
            let row = rows[i].copy();
            let pid = row.pid;
            assert(all.take(i + 1).drop_last() =~= all.take(i as int));
            assert(all.take(i + 1).last() == row@);
            map.insert(pid, row);
            i += 1;
        }
        assert(all.take(rows@.len() as int) =~= all);
        let t = ProcTable { rows: map, readable: true };
        assert forall|pid: i32| #[trigger] t.at(pid) == row_of(all, pid) by {
            if map@.contains_key(pid) {
                assert(row_of(all, pid) == Some(map@[pid]@));
            }
        }
        t
    }

    /// A table of rows, unless the reader's own process is missing from them:
    /// such a listing was cut short, and is no listing of an empty machine.
    pub fn from_rows_checked(rows: Vec<Row>, must_contain: i32) -> (t: ProcTable)
        ensures
            t.known() == (row_of(row_views(rows@), must_contain) is Some),
            t.known() ==> forall|pid: i32|
                #[trigger] t.at(pid) == row_of(row_views(rows@), pid),
            !t.known() ==> forall|pid: i32| #[trigger] t.at(pid) is None,
    {
        let mut found = false;
        let mut i: usize = 0;
        let ghost all = row_views(rows@);
        assert(all.take(0) =~= Seq::<RowView>::empty());
        while i < rows.len()
            invariant
                i <= rows@.len(),
                all == row_views(rows@),
                found == (row_of(all.take(i as int), must_contain) is Some),
            decreases rows.len() - i,
        {
            assert(all.take(i + 1).drop_last() =~= all.take(i as int));
            assert(all.take(i + 1).last() == rows@[i as int]@);
            if rows[i].pid == must_contain {
                found = true;
            }
            i += 1;
        }
        assert(all.take(rows@.len() as int) =~= all);
        if found {
            ProcTable::from_rows(rows)
        } else {
            ProcTable::unreadable()
        }
    }

    /// Parse a listing of `pid ppid pgid state rss pcpu lstart` lines, which
    /// must contain the reader's own process.
    pub fn from_ps_listing_checked(listing: &str, must_contain: i32) -> (t: ProcTable)
        ensures
            t.known() == (row_of(ps_rows(lines(listing@)), must_contain) is Some),
            t.known() ==> forall|pid: i32|
                #[trigger] t.at(pid) == row_of(ps_rows(lines(listing@)), pid),
            !t.known() ==> forall|pid: i32| #[trigger] t.at(pid) is None,
    {
        let all = split_lines(listing);
        let ghost ls = lines(listing@);
        let mut rows: Vec<Row> = Vec::new();
        let mut i: usize = 0;
        assert(row_views(rows@) =~= ps_rows(ls.take(0)));
        while i < all.len()
            invariant
                i <= all@.len(),
                views(all@) == ls,
                row_views(rows@) == ps_rows(ls.take(i as int)),
            decreases all.len() - i,
        {
            assert(ls.take(i + 1).drop_last() =~= ls.take(i as int));
            assert(ls.take(i + 1).last() == all@[i as int]@);
            let ghost before = row_views(rows@);
            match parse_ps_row(all[i].as_str()) {
                Some(row) => {
                    let ghost v = row@;
                    rows.push(row);
                    assert(row_views(rows@) =~= before.push(v));
                },
                None => {},
            }
            i += 1;
        }
        assert(ls.take(all@.len() as int) =~= ls);
        ProcTable::from_rows_checked(rows, must_contain)
    }

    /// Parse a listing on behalf of the process `own_pid`.
    pub fn from_ps_listing(listing: &str, own_pid: i32) -> (t: ProcTable)
        ensures
            t.known() == (row_of(ps_rows(lines(listing@)), own_pid) is Some),
            t.known() ==> forall|pid: i32|
                #[trigger] t.at(pid) == row_of(ps_rows(lines(listing@)), pid),
            !t.known() ==> forall|pid: i32| #[trigger] t.at(pid) is None,
    {
        ProcTable::from_ps_listing_checked(listing, own_pid)
    }

    /// Could the table be read?
    pub fn is_readable(&self) -> (r: bool)
        ensures
            r == self.known(),
    {
        self.readable
    }

    /// The row of a process.
    pub fn row(&self, pid: i32) -> (r: Answer<&Row>)
        ensures
            match r {
                Answer::Known(row) => self.answer(pid) == Answer::Known(row@),
                Answer::NotPresent => self.answer(pid) is NotPresent,
                Answer::Unknown(u) => self.answer(pid) == Answer::<RowView>::Unknown(u),
            },
    {
        if !self.readable {
            return Answer::Unknown(Unknown::TableUnreadable);
        }
        match self.rows.get(&pid) {
            Some(r) => Answer::Known(r),
            None => Answer::NotPresent,
        }
    }

    /// Is this process alive and not a corpse awaiting reaping?
    pub fn is_running(&self, pid: i32) -> (r: Answer<bool>)
        ensures
            r == (match self.answer(pid) {
                Answer::Known(row) => Answer::Known(!zombie(row)),
                Answer::NotPresent => Answer::NotPresent,
                Answer::Unknown(u) => Answer::Unknown(u),
            }),
    {
        match self.row(pid) {
            Answer::Known(row) => Answer::Known(!row.is_zombie()),
            Answer::NotPresent => Answer::NotPresent,
            Answer::Unknown(u) => Answer::Unknown(u),
        }
    }

    /// The identity of a process; a row without one is silence, not absence.
    pub fn identity(&self, pid: i32) -> (r: Answer<LiveIdentity>)
        ensures
            match self.answer(pid) {
                Answer::Known(row) => match row.identity {
                    Some(i) => r is Known && r->Known_0@ == i,
                    None => r == Answer::<LiveIdentity>::Unknown(Unknown::FieldEmpty),
                },
                Answer::NotPresent => r is NotPresent,
                Answer::Unknown(u) => r == Answer::<LiveIdentity>::Unknown(u),
            },
    {
        match self.row(pid) {
            Answer::Known(row) => match &row.identity {
                Some(i) => Answer::Known(i.copy()),
                None => Answer::Unknown(Unknown::FieldEmpty),
            },
            Answer::NotPresent => Answer::NotPresent,
            Answer::Unknown(u) => Answer::Unknown(u),
        }
    }

    /// The memory and the processor share of a process; a row without either
    /// is silence, not absence.
    pub fn resources(&self, pid: i32) -> (r: Answer<(u64, String)>)
        ensures
            match self.answer(pid) {
                Answer::Known(row) => if row.rss_kb is Some && row.cpu_percent is Some {
                    r is Known && (r->Known_0).0 == row.rss_kb->0 && (r->Known_0).1@
                        == row.cpu_percent->0
                } else {
                    r == Answer::<(u64, String)>::Unknown(Unknown::FieldEmpty)
                },
                Answer::NotPresent => r is NotPresent,
                Answer::Unknown(u) => r == Answer::<(u64, String)>::Unknown(u),
            },
    {
        match self.row(pid) {
            Answer::Known(row) => match (row.rss_kb, &row.cpu_percent) {
                (Some(rss), Some(cpu)) => Answer::Known((rss, cpu.clone())),
                _ => Answer::Unknown(Unknown::FieldEmpty),
            },
            Answer::NotPresent => Answer::NotPresent,
            Answer::Unknown(u) => Answer::Unknown(u),
        }
    }
}

// ---- rows from text ------------------------------------------------------

/// Where the word at the beginning of `s` ends.
pub open spec fn word_end(s: Seq<char>, i: int) -> int
    decreases s.len() - i,
{
    if 0 <= i < s.len() && !space(s[i]) {
        word_end(s, i + 1)
    } else {
        i
    }
}

/// The first `n` words of a line, and the rest of the line with its spacing,
/// spaces in front of it left out.
pub open spec fn leading_fields(s: Seq<char>, n: nat) -> (Seq<Seq<char>>, Seq<char>)
    decreases n,
{
    if n == 0 {
        (Seq::empty(), trim_start(s, ' '))
    } else {
        let r = spaceless_start(s);
        let e = word_end(r, 0);
        if e == r.len() {
            (
                if r.len() > 0 {
                    seq![r]
                } else {
                    Seq::empty()
                },
                Seq::empty(),
            )
        } else {
            let (f, t) = leading_fields(r.skip(e), (n - 1) as nat);
            (seq![r.take(e)] + f, t)
        }
    }
}

fn find_word_end(s: &[char]) -> (e: usize)
    ensures
        e == word_end(s@, 0),
        e <= s@.len(),
{
    let mut i: usize = 0;
    while i < s.len() && !is_space(s[i])
        invariant
            i <= s@.len(),
            word_end(s@, 0) == word_end(s@, i as int),
        decreases s.len() - i,
    {
        i += 1;
    }
    i
}

fn split_leading_fields(line: &[char], n: usize) -> (r: (Vec<String>, String))
    ensures
        views(r.0@) == leading_fields(line@, n as nat).0,
        r.1@ == leading_fields(line@, n as nat).1,
    decreases n,
{
    if n == 0 {
        let from = start_without(line, ' ');
        let rest = substring(line, from, line.len());
        assert(rest@ =~= line@.skip(from as int));
        let fields: Vec<String> = Vec::new();
        assert(views(fields@) =~= Seq::<Seq<char>>::empty());
        return (fields, rest);
    }
    let from = trim_front(line);
    let rest = slice_of(line, from, line.len());
    assert(rest@ =~= line@.skip(from as int));
    let end = find_word_end(rest.as_slice());
    let word = substring(rest.as_slice(), 0, end);
    assert(word@ =~= rest@.take(end as int));
    let mut fields: Vec<String> = Vec::new();
    if end == rest.len() {
        assert(rest@.take(end as int) =~= rest@);
        if end > 0 {
            fields.push(word);
        }
        assert(views(fields@) =~= leading_fields(line@, n as nat).0);
        return (fields, String::new());
    }
    let tail = slice_of(rest.as_slice(), end, rest.len());
    assert(tail@ =~= rest@.skip(end as int));
    let (mut more, last) = split_leading_fields(tail.as_slice(), n - 1);
    let ghost more0 = views(more@);
    more.insert(0, word);
    assert(views(more@) =~= seq![word@] + more0);
    (more, last)
}

/// Where the exponent of a number ends, or where it would start.
pub open spec fn exponent_end(s: Seq<char>, i: int) -> int {
    let d = if i + 1 < s.len() && (s[i + 1] == '+' || s[i + 1] == '-') {
        i + 2
    } else {
        i + 1
    };
    if 0 <= i < s.len() && (s[i] == 'e' || s[i] == 'E') && digits_end(s, d) > d {
        digits_end(s, d)
    } else {
        i
    }
}

/// Whether `s` is a decimal number without a sign: digits with a point among
/// them, in front of them or behind them, and an optional exponent.
pub open spec fn plain_number(s: Seq<char>) -> bool {
    let a = digits_end(s, 0);
    let point = a < s.len() && s[a] == '.';
    let b = if point {
        digits_end(s, a + 1)
    } else {
        a
    };
    let digits = if point {
        b - 1
    } else {
        b
    };
    digits > 0 && exponent_end(s, b) == s.len()
}

/// Whether `s` is one of the words for a number that is none or is endless,
/// in any case.
pub open spec fn special_number(s: Seq<char>) -> bool {
    let l = lowered(s);
    l == "inf"@ || l == "infinity"@ || l == "nan"@
}

/// Whether a text reads as a decimal number: an optional sign, and a plain
/// number or a special one.
pub open spec fn decimal_text(s: Seq<char>) -> bool {
    let body = if s.len() > 0 && (s[0] == '+' || s[0] == '-') {
        s.skip(1)
    } else {
        s
    };
    plain_number(body) || special_number(body)
}

fn run_end(s: &[char], from: usize) -> (k: usize)
    requires
        from <= s@.len(),
    ensures
        k == digits_end(s@, from as int),
        from <= k <= s@.len(),
{
    let mut k: usize = from;
    while k < s.len() && char_is_digit(s[k])
        invariant
            from <= k <= s@.len(),
            digits_end(s@, from as int) == digits_end(s@, k as int),
        decreases s.len() - k,
    {
        k += 1;
    }
    k
}

fn is_plain_number(s: &[char]) -> (r: bool)
    ensures
        r == plain_number(s@),
{
    let a = run_end(s, 0);
    let point = a < s.len() && s[a] == '.';
    let b: usize = if point {
        run_end(s, a + 1)
    } else {
        a
    };
    let digits: usize = if point {
        b - 1
    } else {
        b
    };
    if digits == 0 {
        return false;
    }
    if b == s.len() {
        return true;
    }
    if s[b] != 'e' && s[b] != 'E' {
        return false;
    }
    let d: usize = if b + 1 < s.len() && (s[b + 1] == '+' || s[b + 1] == '-') {
        b + 2
    } else {
        b + 1
    };
    let end = run_end(s, d);
    end > d && end == s.len()
}

fn lower_ascii(s: &[char]) -> (r: String)
    ensures
        r@ == lowered(s@),
{
    let mut out = String::new();
    let mut i: usize = 0;
    let ghost want = lowered(s@);
    while i < s.len()
        invariant
            i <= s@.len(),
            want == lowered(s@),
            out@ == want.take(i as int),
        decreases s.len() - i,
    {
        let c = lower_char(s[i]);
        out.push(c);
        assert(want.take(i + 1) =~= want.take(i as int).push(want[i as int]));
        i += 1;
    }
    assert(want.take(s@.len() as int) =~= want);
    out
}

fn is_decimal_text(text: &str) -> (r: bool)
    ensures
        r == decimal_text(text@),
{
    let s = to_chars(text);
    let from: usize = if s.len() > 0 && (s[0] == '+' || s[0] == '-') {
        1
    } else {
        0
    };
    let body = slice_of(s.as_slice(), from, s.len());
    assert(from == 1 ==> body@ =~= s@.skip(1));
    assert(from == 0 ==> body@ =~= s@);
    if is_plain_number(body.as_slice()) {
        return true;
    }
    let l = lower_ascii(body.as_slice());
    str_eq(l.as_str(), "inf") || str_eq(l.as_str(), "infinity") || str_eq(l.as_str(), "nan")
}

/// A 32-bit number in a text.
pub open spec fn pid_text(s: Seq<char>) -> Option<int> {
    int_within(s, true, i32::MIN as int, i32::MAX as int)
}

/// The row that a line `pid ppid pgid state rss pcpu lstart` describes. The
/// start time comes last because it is the only column with spaces in it, and
/// its spacing is kept.
pub open spec fn ps_row(line: Seq<char>) -> Option<RowView> {
    let (f, tail) = leading_fields(line, 6);
    if f.len() < 3 || pid_text(f[0]) is None || pid_text(f[1]) is None || pid_text(f[2]) is None {
        None
    } else {
        Some(
            RowView {
                pid: pid_text(f[0])->0 as i32,
                ppid: pid_text(f[1])->0 as i32,
                pgid: pid_text(f[2])->0 as i32,
                state: if f.len() > 3 {
                    f[3]
                } else {
                    Seq::empty()
                },
                rss_kb: if f.len() > 4 && int_within(f[4], false, 0, u64::MAX as int) is Some {
                    Some(int_within(f[4], false, 0, u64::MAX as int)->0 as u64)
                } else {
                    None
                },
                cpu_percent: if f.len() > 5 && decimal_text(f[5]) {
                    Some(f[5])
                } else {
                    None
                },
                identity: if trimmed(tail).len() > 0 {
                    Some("darwin:"@ + trimmed(tail))
                } else {
                    None
                },
            },
        )
    }
}

/// The rows of the lines that describe one.
pub open spec fn ps_rows(ls: Seq<Seq<char>>) -> Seq<RowView>
    decreases ls.len(),
{
    if ls.len() == 0 {
        Seq::empty()
    } else {
        match ps_row(ls.last()) {
            Some(r) => ps_rows(ls.drop_last()).push(r),
            None => ps_rows(ls.drop_last()),
        }
    }
}

fn parse_ps_row(line: &str) -> (r: Option<Row>)
    ensures
        match r {
            Some(row) => ps_row(line@) == Some(row@),
            None => ps_row(line@) is None,
        },
{
    let chars = to_chars(line);
    let (f, tail) = split_leading_fields(chars.as_slice(), 6);
    let ghost fv = leading_fields(line@, 6).0;
    assert(views(f@) == fv);
    assert(f@.len() == fv.len());
    if f.len() < 3 {
        return None;
    }
    assert(fv[0] == f@[0]@ && fv[1] == f@[1]@ && fv[2] == f@[2]@);
    let pid = match parse_i32(f[0].as_str()) {
        Some(n) => n,
        None => {
            return None;
        },
    };
    let ppid = match parse_i32(f[1].as_str()) {
        Some(n) => n,
        None => {
            return None;
        },
    };
    let pgid = match parse_i32(f[2].as_str()) {
        Some(n) => n,
        None => {
            return None;
        },
    };
    let state = if f.len() > 3 {
        f[3].clone()
    } else {
        String::new()
    };
    let rss_kb = if f.len() > 4 {
        parse_u64(f[4].as_str())
    } else {
        None
    };
    let cpu_percent = if f.len() > 5 && is_decimal_text(f[5].as_str()) {
        Some(f[5].clone())
    } else {
        None
    };
    let started = trim(tail.as_str());
    let identity = if started.as_str().is_empty() {
        None
    } else {
        let mut text = "darwin:".to_owned();
        text.append(started.as_str());
        Some(LiveIdentity::new(text.as_str()))
    };
    Some(Row { pid, ppid, pgid, state, rss_kb, cpu_percent, identity })
}

/// The row that `/proc/<pid>/stat` describes. The second field is the command
/// in parentheses and may hold spaces and brackets, so everything is read
/// behind the last `)`. The resident pages are counted in `page_kb` and the
/// product is kept in 64 bits.
pub open spec fn stat_row(pid: i32, stat: Seq<char>, page_kb: u64) -> Option<RowView> {
    let close = last_index(stat, ')');
    let f = words(stat.skip(close + 1));
    if close < 0 || f.len() < 20 || pid_text(f[1]) is None || pid_text(f[2]) is None {
        None
    } else {
        let pages = if f.len() > 21 && int_within(f[21], false, 0, u64::MAX as int) is Some {
            int_within(f[21], false, 0, u64::MAX as int)->0
        } else {
            0
        };
        Some(
            RowView {
                pid,
                ppid: pid_text(f[1])->0 as i32,
                pgid: pid_text(f[2])->0 as i32,
                state: f[0],
                rss_kb: Some(((pages * page_kb) % 0x1_0000_0000_0000_0000) as u64),
                cpu_percent: None,
                identity: Some("linux:"@ + f[19]),
            },
        )
    }
}

/// Computes `stat_row`.
pub fn parse_proc_stat(pid: i32, stat: &str, page_kb: u64) -> (r: Option<Row>)
    ensures
        match r {
            Some(row) => stat_row(pid, stat@, page_kb) == Some(row@),
            None => stat_row(pid, stat@, page_kb) is None,
        },
{
    let chars = to_chars(stat);
    let close = match rfind(chars.as_slice(), ')') {
        Some(i) => i,
        None => {
            return None;
        },
    };
    let n = chars.len();
    let tail = slice_of(chars.as_slice(), close + 1, n);
    assert(tail@ =~= stat@.skip(close + 1));
    let f = split_whitespace(tail.as_slice());
    let ghost fv = words(tail@);
    assert(f@.len() == fv.len());
    if f.len() < 20 {
        return None;
    }
    assert(fv[0] == f@[0]@ && fv[1] == f@[1]@ && fv[2] == f@[2]@ && fv[19] == f@[19]@);
    let ppid = match parse_i32(f[1].as_str()) {
        Some(n) => n,
        None => {
            return None;
        },
    };
    let pgid = match parse_i32(f[2].as_str()) {
        Some(n) => n,
        None => {
            return None;
        },
    };
    let pages: u64 = if f.len() > 21 {
        match parse_u64(f[21].as_str()) {
            Some(n) => n,
            None => 0,
        }
    } else {
        0
    };
    assert(0 <= pages * page_kb <= 0xffff_ffff_ffff_ffff * 0xffff_ffff_ffff_ffff)
        by (nonlinear_arith)
        requires
            0 <= pages <= 0xffff_ffff_ffff_ffff,
            0 <= page_kb <= 0xffff_ffff_ffff_ffff,
    ;
    let wide: u128 = pages as u128 * page_kb as u128;
    assert(wide == pages * page_kb);
    let rss: u64 = (wide % 0x1_0000_0000_0000_0000) as u64;
    let mut identity = "linux:".to_owned();
    identity.append(f[19].as_str());
    Some(
        Row {
            pid,
            ppid,
            pgid,
            state: f[0].clone(),
            rss_kb: Some(rss),
            cpu_percent: None,
            identity: Some(LiveIdentity::new(identity.as_str())),
        },
    )
}

/// What came of reading one process's entry.
#[derive(Debug, Clone, PartialEq, Eq)]
pub enum StatRead {
    /// The text of the entry.
    Text(String),
    /// There is no such entry.
    NotFound,
    /// The entry could not be read.
    Unreadable,
}

/// The answer about one process, from its entry alone.
pub open spec fn process_answer(pid: i32, read: StatRead, page_kb: u64) -> Answer<RowView> {
    if pid <= 0 {
        Answer::NotPresent
    } else {
        match read {
            StatRead::Text(stat) => match stat_row(pid, stat@, page_kb) {
                Some(r) => Answer::Known(r),
                None => Answer::Unknown(Unknown::FieldUnparsable),
            },
            StatRead::NotFound => Answer::NotPresent,
            StatRead::Unreadable => Answer::Unknown(Unknown::TableUnreadable),
        }
    }
}

/// One process, without reading the whole table.
pub fn process(pid: i32, read: &StatRead, page_kb: u64) -> (r: Answer<Row>)
    ensures
        match process_answer(pid, *read, page_kb) {
            Answer::Known(v) => r is Known && r->Known_0@ == v,
            Answer::NotPresent => r is NotPresent,
            Answer::Unknown(u) => r == Answer::<Row>::Unknown(u),
        },
{
    if pid <= 0 {
        return Answer::NotPresent;
    }
    match read {
        StatRead::Text(stat) => match parse_proc_stat(pid, stat.as_str(), page_kb) {
            Some(row) => Answer::Known(row),
            None => Answer::Unknown(Unknown::FieldUnparsable),
        },
        StatRead::NotFound => Answer::NotPresent,
        StatRead::Unreadable => Answer::Unknown(Unknown::TableUnreadable),
    }
}

/// Is a process gone, as far as reaping is concerned? A zombie counts as gone.
pub fn has_exited(pid: i32, read: &StatRead, page_kb: u64) -> (r: Answer<bool>)
    ensures
        r == (match process_answer(pid, *read, page_kb) {
            Answer::Known(v) => Answer::Known(zombie(v)),
            Answer::NotPresent => Answer::NotPresent,
            Answer::Unknown(u) => Answer::Unknown(u),
        }),
{
    match process(pid, read, page_kb) {
        Answer::Known(row) => Answer::Known(row.is_zombie()),
        Answer::NotPresent => Answer::NotPresent,
        Answer::Unknown(u) => Answer::Unknown(u),
    }
}

/// The row of a line `pid ppid pgid [state [identity]]`: a dash is an
/// identity that could not be had, and a missing one is made of the pid.
pub open spec fn shape_row(line: Seq<char>) -> Option<RowView> {
    let f = words(line);
    if f.len() < 3 || pid_text(f[0]) is None || pid_text(f[1]) is None || pid_text(f[2]) is None {
        None
    } else {
        Some(
            RowView {
                pid: pid_text(f[0])->0 as i32,
                ppid: pid_text(f[1])->0 as i32,
                pgid: pid_text(f[2])->0 as i32,
                state: if f.len() > 3 {
                    f[3]
                } else {
                    "S"@
                },
                rss_kb: None,
                cpu_percent: None,
                identity: if f.len() <= 4 {
                    Some("tok:"@ + f[0])
                } else if f[4] == "-"@ {
                    None
                } else {
                    Some(f[4])
                },
            },
        )
    }
}

/// The rows of the lines that describe a shape.
pub open spec fn shape_rows(ls: Seq<Seq<char>>) -> Seq<RowView>
    decreases ls.len(),
{
    if ls.len() == 0 {
        Seq::empty()
    } else {
        match shape_row(ls.last()) {
            Some(r) => shape_rows(ls.drop_last()).push(r),
            None => shape_rows(ls.drop_last()),
        }
    }
}

fn parse_shape_row(line: &str) -> (r: Option<Row>)
    ensures
        match r {
            Some(row) => shape_row(line@) == Some(row@),
            None => shape_row(line@) is None,
        },
{
    let chars = to_chars(line);
    let f = split_whitespace(chars.as_slice());
    let ghost fv = words(line@);
    assert(f@.len() == fv.len());
    if f.len() < 3 {
        return None;
    }
    assert(fv[0] == f@[0]@ && fv[1] == f@[1]@ && fv[2] == f@[2]@);
    let pid = match parse_i32(f[0].as_str()) {
        Some(n) => n,
        None => {
            return None;
        },
    };
    let ppid = match parse_i32(f[1].as_str()) {
        Some(n) => n,
        None => {
            return None;
        },
    };
    let pgid = match parse_i32(f[2].as_str()) {
        Some(n) => n,
        None => {
            return None;
        },
    };
    let state = if f.len() > 3 {
        f[3].clone()
    } else {
        "S".to_owned()
    };
    let identity = if f.len() <= 4 {
        let mut text = "tok:".to_owned();
        text.append(f[0].as_str());
        Some(LiveIdentity::new(text.as_str()))
    } else if str_eq(f[4].as_str(), "-") {
        None
    } else {
        Some(LiveIdentity::new(f[4].as_str()))
    };
    Some(Row { pid, ppid, pgid, state, rss_kb: None, cpu_percent: None, identity })
}

/// A table built from `pid ppid pgid state identity` lines.
pub fn table_from_shape(spec_text: &str) -> (t: ProcTable)
    ensures
        t.known(),
        forall|pid: i32| #[trigger] t.at(pid) == row_of(shape_rows(lines(spec_text@)), pid),
{
    let all = split_lines(spec_text);
    let ghost ls = lines(spec_text@);
    let mut rows: Vec<Row> = Vec::new();
    let mut i: usize = 0;
    assert(row_views(rows@) =~= shape_rows(ls.take(0)));
    while i < all.len()
        invariant
            i <= all@.len(),
            views(all@) == ls,
            row_views(rows@) == shape_rows(ls.take(i as int)),
        decreases all.len() - i,
    {
        assert(ls.take(i + 1).drop_last() =~= ls.take(i as int));
        assert(ls.take(i + 1).last() == all@[i as int]@);
        let ghost before = row_views(rows@);
        match parse_shape_row(all[i].as_str()) {
            Some(row) => {
                let ghost v = row@;
                rows.push(row);
                assert(row_views(rows@) =~= before.push(v));
            },
            None => {},
        }
        i += 1;
    }
    assert(ls.take(all@.len() as int) =~= ls);
    ProcTable::from_rows(rows)
}

// ---- laws ----------------------------------------------------------------

/// An unreadable table never proves a process is gone: it answers every
/// question with silence.
pub proof fn law_unreadable_is_silent(t: ProcTable, pid: i32)
    requires
        !t.known(),
    ensures
        t.answer(pid) is Unknown,
        !(t.answer(pid) is NotPresent),
{
}

/// A zombie is present in the table; it is just not running.
pub proof fn law_zombie_is_present(t: ProcTable, pid: i32, row: RowView)
    requires
        t.known(),
        t.at(pid) == Some(row),
        zombie(row),
    ensures
        t.answer(pid) == Answer::Known(row),
{
}

/// A process that has exited and not been waited for is in a state that begins
/// with `Z`.
pub proof fn law_zombies(r: RowView)
    ensures
        zombie(r) <==> r.state.len() > 0 && r.state[0] == 'Z',
{
    reveal_strlit("Z");
    assert("Z"@ =~= seq!['Z']);
    if r.state.len() > 0 {
        assert(r.state.subrange(0, 1) =~= seq![r.state[0]]);
        if r.state[0] != 'Z' {
            assert(seq![r.state[0]][0] != seq!['Z'][0]);
        }
    }
}

/// Of several rows for a process the last one counts.
pub proof fn law_last_row_counts(rows: Seq<RowView>, r: RowView, pid: i32)
    ensures
        row_of(Seq::empty(), pid) is None,
        row_of(rows.push(r), r.pid) == Some(r),
        pid != r.pid ==> row_of(rows.push(r), pid) == row_of(rows, pid),
        row_of(rows, pid) is Some ==> row_of(rows, pid)->0.pid == pid,
    decreases rows.len(),
{
    assert(rows.push(r).drop_last() =~= rows);
    assert(rows.push(r).last() == r);
    if rows.len() > 0 {
        law_last_row_counts(rows.drop_last(), rows.last(), pid);
        assert(rows.drop_last().push(rows.last()) =~= rows);
    }
}

/// Each line that is a row gives it, in order, and the others give nothing.
pub proof fn law_rows_of_lines(ls: Seq<Seq<char>>, line: Seq<char>)
    ensures
        ps_rows(Seq::empty()).len() == 0 && shape_rows(Seq::empty()).len() == 0,
        ps_row(line) is Some ==> ps_rows(ls.push(line)) == ps_rows(ls).push(ps_row(line)->0),
        ps_row(line) is None ==> ps_rows(ls.push(line)) == ps_rows(ls),
        shape_row(line) is Some ==> shape_rows(ls.push(line)) == shape_rows(ls).push(
            shape_row(line)->0,
        ),
        shape_row(line) is None ==> shape_rows(ls.push(line)) == shape_rows(ls),
{
    assert(ls.push(line).drop_last() =~= ls);
    assert(ls.push(line).last() == line);
}

/// The first fields of a line are its words, and what follows them is left with
/// its inner blanks.
pub proof fn law_leading_fields(w: Seq<char>, c: char, rest: Seq<char>, n: nat)
    requires
        w.len() > 0,
        forall|i: int| 0 <= i < w.len() ==> !space(#[trigger] w[i]),
        space(c),
    ensures
        ({
            let (f, t) = leading_fields(seq![c] + rest, n);
            leading_fields(w + (seq![c] + rest), n + 1) == (seq![w] + f, t)
        }),
        leading_fields(seq![c] + rest, n + 1) == leading_fields(rest, n + 1),
        leading_fields(rest, 0) == (Seq::<Seq<char>>::empty(), trim_start(rest, ' ')),
        leading_fields(w, n + 1) == (seq![w], Seq::<char>::empty()),
{
    let s = w + (seq![c] + rest);
    assert(s[0] == w[0]);
    assert(spaceless_start(s) == s);
    assert(s[w.len() as int] == c);
    lemma_word_end(s, 0, w.len() as int);
    assert(s.take(w.len() as int) =~= w);
    assert(s.skip(w.len() as int) =~= seq![c] + rest);
    assert((seq![c] + rest)[0] == c);
    assert((seq![c] + rest).skip(1) =~= rest);
    assert(spaceless_start(seq![c] + rest) == spaceless_start(rest));
    assert(spaceless_start(w) == w);
    lemma_word_end(w, 0, w.len() as int);
}

proof fn lemma_word_end(s: Seq<char>, i: int, n: int)
    requires
        0 <= i <= n <= s.len(),
        forall|j: int| i <= j < n ==> !space(#[trigger] s[j]),
        n < s.len() ==> space(s[n]),
    ensures
        word_end(s, i) == n,
    decreases n - i,
{
    if i < n {
        lemma_word_end(s, i + 1, n);
    }
}

/// What a line of the listing says: pid, parent, group, state, memory,
/// processor time, and when the process started.
pub proof fn law_row_of_the_listing(line: Seq<char>, f: Seq<Seq<char>>, tail: Seq<char>)
    requires
        leading_fields(line, 6) == (f, tail),
    ensures
        f.len() < 3 ==> ps_row(line) is None,
        f.len() >= 3 ==> (ps_row(line) is Some <==> pid_text(f[0]) is Some && pid_text(f[1])
            is Some && pid_text(f[2]) is Some),
        ps_row(line) matches Some(r) ==> {
            &&& r.pid == pid_text(f[0])->0 && r.ppid == pid_text(f[1])->0 && r.pgid == pid_text(
                f[2],
            )->0
            &&& f.len() > 3 ==> r.state == f[3]
            &&& f.len() <= 3 ==> r.state.len() == 0
            &&& f.len() > 4 ==> (r.rss_kb is Some <==> int_within(f[4], false, 0, u64::MAX as int)
                is Some)
            &&& r.rss_kb is Some ==> f.len() > 4 && r.rss_kb->0 == int_within(
                f[4],
                false,
                0,
                u64::MAX as int,
            )->0
            &&& r.cpu_percent is Some <==> f.len() > 5 && decimal_text(f[5])
            &&& r.cpu_percent is Some ==> r.cpu_percent->0 == f[5]
            &&& trimmed(tail).len() > 0 ==> r.identity == Some("darwin:"@ + trimmed(tail))
            &&& trimmed(tail).len() == 0 ==> r.identity is None
        },
{
    crate::text::law_integers_in_a_range(f[0], true, i32::MIN as int, i32::MAX as int);
    crate::text::law_integers_in_a_range(f[1], true, i32::MIN as int, i32::MAX as int);
    crate::text::law_integers_in_a_range(f[2], true, i32::MIN as int, i32::MAX as int);
    if f.len() > 4 {
        crate::text::law_integers_in_a_range(f[4], false, 0, u64::MAX as int);
    }
}

/// What the kernel's line of a process says behind the name in brackets, which
/// may hold brackets itself: the state, the parent, the group, and further on
/// when it started and how many pages it holds.
pub proof fn law_row_of_the_kernel(pid: i32, name: Seq<char>, rest: Seq<char>, page_kb: u64)
    requires
        !rest.contains(')'),
    ensures
        ({
            let f = words(rest);
            let r = stat_row(pid, name + seq![')'] + rest, page_kb);
            &&& r is Some <==> f.len() >= 20 && pid_text(f[1]) is Some && pid_text(f[2]) is Some
            &&& r is Some ==> r->0.pid == pid && r->0.state == f[0] && r->0.ppid == pid_text(
                f[1],
            )->0 && r->0.pgid == pid_text(f[2])->0 && r->0.cpu_percent is None && r->0.identity
                == Some("linux:"@ + f[19]) && r->0.rss_kb is Some
            &&& r is Some && f.len() <= 21 ==> r->0.rss_kb == Some(0u64)
            &&& r is Some && f.len() > 21 && int_within(f[21], false, 0, u64::MAX as int) is Some
                ==> r->0.rss_kb->0 == (int_within(f[21], false, 0, u64::MAX as int)->0 * page_kb)
                % 0x1_0000_0000_0000_0000
        }),
        !name.contains(')') ==> stat_row(pid, name, page_kb) is None,
{
    let s = name + seq![')'] + rest;
    crate::text::law_finding_a_character(s, ')', 0);
    crate::text::law_finding_a_character(name, ')', 0);
    let k = last_index(s, ')');
    assert(s[name.len() as int] == ')');
    if k > name.len() {
        assert(s[k] == rest[k - name.len() - 1]);
        assert(rest.contains(')'));
    }
    assert(s.skip(k + 1) =~= rest);
    if last_index(name, ')') >= 0 {
        assert(name.contains(')'));
    }
    let f = words(rest);
    if f.len() >= 20 {
        crate::text::law_integers_in_a_range(f[1], true, i32::MIN as int, i32::MAX as int);
        crate::text::law_integers_in_a_range(f[2], true, i32::MIN as int, i32::MAX as int);
    }
    assert((0 * page_kb) % 0x1_0000_0000_0000_0000 == 0) by (nonlinear_arith);
}

/// What a line of a drawn table says: pid, parent and group, and where they are
/// given the state and the identity.
pub proof fn law_row_of_a_shape(line: Seq<char>)
    ensures
        ({
            let f = words(line);
            let r = shape_row(line);
            &&& r is Some <==> f.len() >= 3 && pid_text(f[0]) is Some && pid_text(f[1]) is Some
                && pid_text(f[2]) is Some
            &&& r is Some ==> r->0.pid == pid_text(f[0])->0 && r->0.ppid == pid_text(f[1])->0
                && r->0.pgid == pid_text(f[2])->0 && r->0.rss_kb is None && r->0.cpu_percent
                is None
            &&& r is Some && f.len() == 3 ==> r->0.state == "S"@
            &&& r is Some && f.len() > 3 ==> r->0.state == f[3]
            &&& r is Some && f.len() <= 4 ==> r->0.identity == Some("tok:"@ + f[0])
            &&& r is Some && f.len() > 4 && f[4] == "-"@ ==> r->0.identity is None
            &&& r is Some && f.len() > 4 && f[4] != "-"@ ==> r->0.identity == Some(f[4])
        }),
{
    let f = words(line);
    if f.len() >= 3 {
        crate::text::law_integers_in_a_range(f[0], true, i32::MIN as int, i32::MAX as int);
        crate::text::law_integers_in_a_range(f[1], true, i32::MIN as int, i32::MAX as int);
        crate::text::law_integers_in_a_range(f[2], true, i32::MIN as int, i32::MAX as int);
    }
}

/// What is known of one process: no pid below 1 is there, a line that is none is
/// not understood, and what could not be read is not known.
pub proof fn law_what_is_known_of_a_process(pid: i32, s: String, read: StatRead, page_kb: u64)
    ensures
        pid <= 0 ==> process_answer(pid, read, page_kb) is NotPresent,
        pid > 0 ==> process_answer(pid, StatRead::NotFound, page_kb) is NotPresent,
        pid > 0 ==> process_answer(pid, StatRead::Unreadable, page_kb) == Answer::<
            RowView,
        >::Unknown(Unknown::TableUnreadable),
        pid > 0 && stat_row(pid, s@, page_kb) is Some ==> process_answer(
            pid,
            StatRead::Text(s),
            page_kb,
        ) == Answer::Known(stat_row(pid, s@, page_kb)->0),
        pid > 0 && stat_row(pid, s@, page_kb) is None ==> process_answer(
            pid,
            StatRead::Text(s),
            page_kb,
        ) == Answer::<RowView>::Unknown(Unknown::FieldUnparsable),
{
}

/// What a table answers: nothing where it could not be read, and otherwise the
/// row or that there is none.
pub proof fn law_answers_of_a_table(t: ProcTable, pid: i32)
    ensures
        !t.known() ==> t.answer(pid) == Answer::<RowView>::Unknown(Unknown::TableUnreadable),
        t.known() && t.at(pid) is None ==> t.answer(pid) is NotPresent,
        t.known() && t.at(pid) is Some ==> t.answer(pid) == Answer::Known(t.at(pid)->0),
{
}

/// A pid is a decimal number of 32 bits, with a sign or without one.
pub proof fn law_pid_as_text(n: nat)
    requires
        n <= i32::MAX,
    ensures
        pid_text(crate::text::dec(n)) == Some(n as int),
        pid_text(Seq::empty()) is None,
{
    crate::text::law_reading_integers(n, crate::text::dec(n));
    crate::text::lemma_number_dec(n);
    crate::text::law_integers_in_a_range(
        crate::text::dec(n),
        true,
        i32::MIN as int,
        i32::MAX as int,
    );
    crate::text::law_integers_in_a_range(Seq::empty(), true, i32::MIN as int, i32::MAX as int);
}

/// Two rows with the same content are the same in every field.
pub proof fn law_rows_are_told_apart(a: Row, b: Row, v: Seq<Row>)
    ensures
        a@ == b@ ==> a.pid == b.pid && a.ppid == b.ppid && a.pgid == b.pgid && a.state@ == b.state@
            && a.rss_kb == b.rss_kb && (a.cpu_percent is Some <==> b.cpu_percent is Some) && (
        a.cpu_percent is Some ==> a.cpu_percent->0@ == b.cpu_percent->0@) && (a.identity is Some
            <==> b.identity is Some) && (a.identity is Some ==> a.identity->0@ == b.identity->0@),
        row_views(v).len() == v.len(),
        forall|i: int| 0 <= i < v.len() ==> #[trigger] row_views(v)[i] == v[i]@,
{
}

/// Which texts are decimal numbers: digits, or digits with a point among or
/// beside them, with a sign or without one; and no text without a digit but
/// the three words.
pub proof fn law_decimal_texts(a: Seq<char>, b: Seq<char>)
    requires
        forall|i: int| 0 <= i < a.len() ==> crate::text::is_digit(#[trigger] a[i]),
        forall|i: int| 0 <= i < b.len() ==> crate::text::is_digit(#[trigger] b[i]),
    ensures
        a.len() > 0 ==> decimal_text(a) && decimal_text(seq!['-'] + a) && decimal_text(
            seq!['+'] + a,
        ),
        a.len() + b.len() > 0 ==> decimal_text(a + seq!['.'] + b),
        !plain_number(seq!['.']) && !plain_number(Seq::empty()),
{
    if a.len() > 0 {
        lemma_digits_of(a, 0, a.len() as int);
        assert(plain_number(a));
        assert((seq!['-'] + a).skip(1) =~= a && (seq!['+'] + a).skip(1) =~= a);
        assert((seq!['-'] + a)[0] == '-' && (seq!['+'] + a)[0] == '+');
        assert(crate::text::is_digit(a[0]));
    }
    let s = a + seq!['.'] + b;
    let n = a.len() as int;
    assert(s[n] == '.');
    assert forall|i: int| 0 <= i < n implies crate::text::is_digit(#[trigger] s[i]) by {
        assert(s[i] == a[i]);
    }
    lemma_digits_of(s, 0, n);
    assert forall|i: int| n + 1 <= i < s.len() implies crate::text::is_digit(#[trigger] s[i]) by {
        assert(s[i] == b[i - n - 1]);
    }
    lemma_digits_of(s, n + 1, s.len() as int);
    if a.len() + b.len() > 0 {
        assert(plain_number(s));
        assert(s[0] != '+' && s[0] != '-') by {
            if n > 0 {
                assert(crate::text::is_digit(s[0]));
            }
        }
    }
    let p = seq!['.'];
    assert(digits_end(p, 0) == 0);
    assert(digits_end(p, 1) == 1);
}

proof fn lemma_digits_of(s: Seq<char>, i: int, n: int)
    requires
        0 <= i <= n <= s.len(),
        forall|j: int| i <= j < n ==> crate::text::is_digit(#[trigger] s[j]),
        n < s.len() ==> !crate::text::is_digit(s[n]),
    ensures
        digits_end(s, i) == n,
    decreases n - i,
{
    if i < n {
        lemma_digits_of(s, i + 1, n);
    }
}

/// A decimal number may have an exponent: `e` and digits, with a sign or without
/// one; without digits it is none.
pub proof fn law_exponents(a: Seq<char>, e: char, b: Seq<char>)
    requires
        a.len() > 0,
        forall|i: int| 0 <= i < a.len() ==> crate::text::is_digit(#[trigger] a[i]),
        e == 'e' || e == 'E',
        forall|i: int| 0 <= i < b.len() ==> crate::text::is_digit(#[trigger] b[i]),
    ensures
        plain_number(a + seq![e] + b) <==> b.len() > 0,
        plain_number(a + seq![e, '-'] + b) <==> b.len() > 0,
        plain_number(a + seq![e, '+'] + b) <==> b.len() > 0,
{
    lemma_exponent(a, seq![e], b);
    lemma_exponent(a, seq![e, '-'], b);
    lemma_exponent(a, seq![e, '+'], b);
}

proof fn lemma_exponent(a: Seq<char>, mid: Seq<char>, b: Seq<char>)
    requires
        a.len() > 0,
        forall|i: int| 0 <= i < a.len() ==> crate::text::is_digit(#[trigger] a[i]),
        forall|i: int| 0 <= i < b.len() ==> crate::text::is_digit(#[trigger] b[i]),
        mid.len() == 1 || (mid.len() == 2 && (mid[1] == '-' || mid[1] == '+')),
        mid[0] == 'e' || mid[0] == 'E',
    ensures
        plain_number(a + mid + b) <==> b.len() > 0,
{
    let s = a + mid + b;
    let n = a.len() as int;
    let k = n + mid.len();
    assert(s[n] == mid[0]);
    assert forall|i: int| 0 <= i < n implies crate::text::is_digit(#[trigger] s[i]) by {
        assert(s[i] == a[i]);
    }
    lemma_digits_of(s, 0, n);
    assert forall|i: int| k <= i < s.len() implies crate::text::is_digit(#[trigger] s[i]) by {
        assert(s[i] == b[i - k]);
    }
    lemma_digits_of(s, k, s.len() as int);
    if mid.len() == 2 {
        assert(s[n + 1] == mid[1]);
    } else if b.len() > 0 {
        assert(crate::text::is_digit(s[n + 1]));
    }
}

/// The three words that are numbers, in capitals or not.
pub proof fn law_words_for_numbers(s: Seq<char>)
    ensures
        special_number(s) <==> lowered(s) == "inf"@ || lowered(s) == "infinity"@ || lowered(s)
            == "nan"@,
{
}

} // verus!
