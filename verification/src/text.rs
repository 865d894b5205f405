//! Strings as sequences of characters: the operations that the rest of the
//! library builds on, each stated over `Seq<char>`.

use vstd::prelude::*;
use vstd::utf8::*;

verus! {

/// `String::push` appends one character to the end of the string.
pub assume_specification[ String::push ](s: &mut String, c: char)
    ensures
        final(s)@ == old(s)@.push(c),
;

/// `char::from_u32` gives the character with the code point `i`, or `None`
/// where `i` is not a Unicode scalar value.
pub assume_specification[ char::from_u32 ](i: u32) -> (r: Option<char>)
    ensures
        match r {
            Some(c) => is_scalar(i) && c == i as char && c as u32 == i,
            None => !is_scalar(i),
        },
;

/// The text that `String::from_utf8_lossy` reads from bytes: each ill-formed
/// piece becomes a replacement character.
pub uninterp spec fn lossy(bytes: Seq<u8>) -> Seq<char>;

/// Calls `String::from_utf8_lossy`. Well-formed bytes are decoded as they
/// stand; what an ill-formed piece turns into is not spelled out here.
#[verifier::external_body]
pub(crate) fn utf8_lossy(bytes: &[u8]) -> (s: String)
    ensures
        s@ == lossy(bytes@),
        valid_utf8(bytes@) ==> s@ == decode_utf8(bytes@),
{
    String::from_utf8_lossy(bytes).into_owned()
}

/// The text of bytes: what they encode where they are well-formed, and what
/// `lossy` reads from them where they are not.
pub open spec fn text_of(bytes: Seq<u8>) -> Seq<char> {
    if valid_utf8(bytes) {
        decode_utf8(bytes)
    } else {
        lossy(bytes)
    }
}

/// Calls `std::str::from_utf8`: the text of well-formed bytes, and nothing for
/// others.
#[verifier::external_body]
pub(crate) fn utf8_text(bytes: &[u8]) -> (r: Option<String>)
    ensures
        match r {
            Some(s) => valid_utf8(bytes@) && s@ == decode_utf8(bytes@),
            None => !valid_utf8(bytes@),
        },
{
    std::str::from_utf8(bytes).ok().map(str::to_owned)
}

/// The lower-case form that `str::to_lowercase` gives a text.
pub uninterp spec fn lowercase(s: Seq<char>) -> Seq<char>;

/// The lower-case form of an ASCII letter; other characters stay.
pub open spec fn ascii_lower(c: char) -> char {
    if 'A' <= c && c <= 'Z' {
        (c as int + 32) as char
    } else {
        c
    }
}

/// Computes `ascii_lower`.
pub fn lower_char(c: char) -> (r: char)
    ensures
        r == ascii_lower(c),
{
    if 'A' <= c && c <= 'Z' {
        (c as u8 + 32) as char
    } else {
        c
    }
}

/// A text with its ASCII letters in lower case.
pub open spec fn lowered(s: Seq<char>) -> Seq<char> {
    s.map_values(|c: char| ascii_lower(c))
}

/// A text in lower case: of ASCII text the letters A to Z change, and other
/// text becomes what `lowercase` gives.
pub open spec fn lower_text(s: Seq<char>) -> Seq<char> {
    if is_ascii_chars(s) {
        lowered(s)
    } else {
        lowercase(s)
    }
}

/// Calls `str::to_lowercase`. On ASCII text only the letters A to Z change;
/// the mapping of other characters is Unicode's and is not spelled out here.
#[verifier::external_body]
pub(crate) fn to_lowercase(s: &str) -> (r: String)
    ensures
        r@ == lowercase(s@),
        is_ascii_chars(s@) ==> r@ == lowered(s@),
{
    s.to_lowercase()
}

/// A text is ASCII where its lower-case form is.
pub proof fn lemma_lowered_ascii(s: Seq<char>)
    ensures
        is_ascii_chars(lowered(s)) ==> is_ascii_chars(s),
{
    if is_ascii_chars(lowered(s)) {
        assert forall|i: int| 0 <= i < s.len() implies '\0' <= #[trigger] s[i] <= '\u{7f}' by {
            assert('\0' <= lowered(s)[i] <= '\u{7f}');
        }
    }
}

/// The code point of a character.
pub fn code_point(c: char) -> (n: u32)
    ensures
        n as int == c as int,
{
    c as u32
}

/// The characters of a string, in order.
pub fn to_chars(s: &str) -> (v: Vec<char>)
    ensures
        v@ == s@,
{
    let mut v: Vec<char> = Vec::new();
    for c in it: s.chars()
        invariant
            v@ == s@.take(it.index() as int),
            it.seq() == s@,
    {
        v.push(c);
        assert(s@.take(it.index() + 1) =~= s@.take(it.index() as int).push(c));
    }
    assert(s@.take(s@.len() as int) =~= s@);
    v
}

/// The string made of a slice of characters.
pub fn from_chars(v: &[char]) -> (s: String)
    ensures
        s@ == v@,
{
    substring(v, 0, v.len())
}

/// The string made of the characters of `v` from `from` up to `to`.
pub fn substring(v: &[char], from: usize, to: usize) -> (s: String)
    requires
        from <= to <= v@.len(),
    ensures
        s@ == v@.subrange(from as int, to as int),
{
    let mut s = String::new();
    let mut i: usize = from;
    while i < to
        invariant
            from <= i <= to <= v@.len(),
            s@ == v@.subrange(from as int, i as int),
        decreases to - i,
    {
        s.push(v[i]);
        assert(v@.subrange(from as int, i + 1) =~= v@.subrange(from as int, i as int).push(
            v@[i as int],
        ));
        i += 1;
    }
    s
}

/// A string of one character.
pub fn char_string(c: char) -> (s: String)
    ensures
        s@ == seq![c],
{
    let mut s = String::new();
    s.push(c);
    assert(s@ =~= seq![c]);
    s
}

/// Whether two slices hold the same characters.
pub fn chars_eq(a: &[char], b: &[char]) -> (r: bool)
    ensures
        r == (a@ == b@),
{
    if a.len() != b.len() {
        return false;
    }
    let mut i: usize = 0;
    while i < a.len()
        invariant
            a@.len() == b@.len(),
            i <= a.len(),
            forall|j: int| 0 <= j < i ==> a@[j] == b@[j],
        decreases a.len() - i,
    {
        if a[i] != b[i] {
            assert(a@[i as int] != b@[i as int]);
            return false;
        }
        i += 1;
    }
    assert(a@ =~= b@);
    true
}

/// Whether two strings hold the same characters.
pub fn str_eq(a: &str, b: &str) -> (r: bool)
    ensures
        r == (a@ == b@),
{
    let x = to_chars(a);
    let y = to_chars(b);
    chars_eq(x.as_slice(), y.as_slice())
}

/// The views of a list of strings.
pub open spec fn views(v: Seq<String>) -> Seq<Seq<char>> {
    Seq::new(v.len(), |i: int| v[i]@)
}

/// Adding a string adds its view.
pub proof fn lemma_views_push(v: Seq<String>, s: String)
    ensures
        views(v.push(s)) == views(v).push(s@),
{
    assert(views(v.push(s)) =~= views(v).push(s@));
}

/// The view of an optional string.
pub open spec fn opt_view(o: Option<String>) -> Option<Seq<char>> {
    match o {
        Some(s) => Some(s@),
        None => None,
    }
}

/// Whether `v` holds, from position `at` on, the characters of `p`.
pub open spec fn matches_at(v: Seq<char>, at: int, p: Seq<char>) -> bool {
    0 <= at && at + p.len() <= v.len() && v.subrange(at, at + p.len()) == p
}

/// Decides `matches_at`.
pub fn has_at(v: &[char], at: usize, p: &[char]) -> (r: bool)
    ensures
        r == matches_at(v@, at as int, p@),
{
    if at > v.len() || v.len() - at < p.len() {
        return false;
    }
    let mut i: usize = 0;
    while i < p.len()
        invariant
            at + p.len() <= v.len(),
            i <= p.len(),
            forall|j: int| 0 <= j < i ==> v@[at + j] == p@[j],
        decreases p.len() - i,
    {
        if v[at + i] != p[i] {
            assert(v@.subrange(at as int, at + p@.len())[i as int] != p@[i as int]);
            return false;
        }
        i += 1;
    }
    assert(v@.subrange(at as int, at + p@.len()) =~= p@);
    true
}

/// Whether `s` begins with `p`.
pub open spec fn begins(s: Seq<char>, p: Seq<char>) -> bool {
    matches_at(s, 0, p)
}

/// Whether `s` ends in `p`.
pub open spec fn ends(s: Seq<char>, p: Seq<char>) -> bool {
    matches_at(s, s.len() - p.len(), p)
}

/// What is left of `s` behind the prefix `p`, or `None` where `s` does not
/// begin with it.
pub fn strip_prefix(s: &str, p: &str) -> (r: Option<String>)
    ensures
        match r {
            Some(rest) => begins(s@, p@) && rest@ == s@.skip(p@.len() as int),
            None => !begins(s@, p@),
        },
{
    let v = to_chars(s);
    let q = to_chars(p);
    if has_at(v.as_slice(), 0, q.as_slice()) {
        let rest = substring(v.as_slice(), q.len(), v.len());
        assert(rest@ =~= s@.skip(p@.len() as int));
        Some(rest)
    } else {
        None
    }
}

/// What is left of `s` before the suffix `p`, or `None` where `s` does not
/// end in it.
pub fn strip_suffix(s: &str, p: &str) -> (r: Option<String>)
    ensures
        match r {
            Some(rest) => ends(s@, p@) && rest@ == s@.take(s@.len() - p@.len()),
            None => !ends(s@, p@),
        },
{
    let v = to_chars(s);
    let q = to_chars(p);
    if q.len() > v.len() {
        return None;
    }
    if has_at(v.as_slice(), v.len() - q.len(), q.as_slice()) {
        let rest = substring(v.as_slice(), 0, v.len() - q.len());
        assert(rest@ =~= s@.take(s@.len() - p@.len()));
        Some(rest)
    } else {
        None
    }
}

/// Whether `s` begins with `p`.
pub fn starts_with(s: &str, p: &str) -> (r: bool)
    ensures
        r == begins(s@, p@),
{
    strip_prefix(s, p).is_some()
}

/// Whether `s` ends in `p`.
pub fn ends_with(s: &str, p: &str) -> (r: bool)
    ensures
        r == ends(s@, p@),
{
    strip_suffix(s, p).is_some()
}

/// Whether `c` occurs in `s`.
pub fn slice_contains(s: &[char], c: char) -> (r: bool)
    ensures
        r == s@.contains(c),
{
    let mut i: usize = 0;
    while i < s.len()
        invariant
            i <= s.len(),
            forall|j: int| 0 <= j < i ==> s@[j] != c,
        decreases s.len() - i,
    {
        if s[i] == c {
            assert(s@[i as int] == c);
            return true;
        }
        i += 1;
    }
    false
}

/// The first position at or after `from` whose character is `c`, or the
/// length where there is none.
pub open spec fn index_from(s: Seq<char>, c: char, from: int) -> int
    decreases s.len() - from,
{
    if from >= s.len() || from < 0 {
        s.len() as int
    } else if s[from] == c {
        from
    } else {
        index_from(s, c, from + 1)
    }
}

/// Computes `index_from`.
pub fn find_from(s: &[char], c: char, from: usize) -> (r: usize)
    requires
        from <= s@.len(),
    ensures
        r == index_from(s@, c, from as int),
        from <= r <= s@.len(),
{
    let mut i: usize = from;
    while i < s.len() && s[i] != c
        invariant
            from <= i <= s@.len(),
            index_from(s@, c, from as int) == index_from(s@, c, i as int),
        decreases s.len() - i,
    {
        i += 1;
    }
    i
}

/// The pieces of `s` between the characters that occur in `seps`.
pub open spec fn pieces(s: Seq<char>, seps: Seq<char>) -> Seq<Seq<char>>
    decreases s.len(),
{
    if s.len() == 0 {
        seq![Seq::<char>::empty()]
    } else {
        let before = pieces(s.drop_last(), seps);
        if seps.contains(s.last()) {
            before.push(Seq::<char>::empty())
        } else {
            before.drop_last().push(before.last().push(s.last()))
        }
    }
}

/// There is always one piece.
pub proof fn lemma_pieces_nonempty(s: Seq<char>, seps: Seq<char>)
    ensures
        pieces(s, seps).len() >= 1,
    decreases s.len(),
{
    if s.len() > 0 {
        lemma_pieces_nonempty(s.drop_last(), seps);
    }
}

/// Computes `pieces`.
pub fn split_on(s: &[char], seps: &[char]) -> (r: Vec<String>)
    ensures
        views(r@) == pieces(s@, seps@),
        r@.len() >= 1,
{
    let mut done: Vec<String> = Vec::new();
    let mut cur = String::new();
    let mut i: usize = 0;
    assert(s@.take(0) =~= Seq::<char>::empty());
    assert(views(done@).push(cur@) =~= pieces(s@.take(0), seps@));
    while i < s.len()
        invariant
            i <= s.len(),
            views(done@).push(cur@) == pieces(s@.take(i as int), seps@),
        decreases s.len() - i,
    {
        let c = s[i];
        let ghost upto = s@.take(i + 1);
        let ghost before = pieces(s@.take(i as int), seps@);
        let ghost done0 = done@;
        assert(upto.drop_last() =~= s@.take(i as int));
        assert(upto.last() == c);
        if slice_contains(seps, c) {
            done.push(cur);
            assert(views(done@) =~= before);
            cur = String::new();
        } else {
            cur.push(c);
            assert(views(done@) =~= before.drop_last());
        }
        assert(views(done@).push(cur@) =~= pieces(upto, seps@));
        i += 1;
    }
    assert(s@.take(s@.len() as int) =~= s@);
    let ghost done0 = done@;
    let ghost last = cur@;
    done.push(cur);
    assert(views(done@) =~= views(done0).push(last));
    done
}

/// The strings of `v` with `sep` between them.
pub open spec fn joined(v: Seq<Seq<char>>, sep: Seq<char>) -> Seq<char>
    decreases v.len(),
{
    if v.len() == 0 {
        Seq::<char>::empty()
    } else if v.len() == 1 {
        v[0]
    } else {
        joined(v.drop_last(), sep) + sep + v.last()
    }
}

/// Computes `joined`.
pub fn join(v: &[String], sep: &str) -> (r: String)
    ensures
        r@ == joined(views(v@), sep@),
{
    let mut out = String::new();
    let mut i: usize = 0;
    while i < v.len()
        invariant
            i <= v.len(),
            out@ == joined(views(v@).take(i as int), sep@),
        decreases v.len() - i,
    {
        let ghost upto = views(v@).take(i + 1);
        assert(upto.drop_last() =~= views(v@).take(i as int));
        if i > 0 {
            out.append(sep);
        }
        out.append(v[i].as_str());
        assert(out@ =~= joined(upto, sep@));
        i += 1;
    }
    assert(views(v@).take(v@.len() as int) =~= views(v@));
    out
}

/// `s` without the characters `c` at its end.
pub open spec fn trim_end(s: Seq<char>, c: char) -> Seq<char>
    decreases s.len(),
{
    if s.len() > 0 && s.last() == c {
        trim_end(s.drop_last(), c)
    } else {
        s
    }
}

/// `s` without the characters `c` at its beginning.
pub open spec fn trim_start(s: Seq<char>, c: char) -> Seq<char>
    decreases s.len(),
{
    if s.len() > 0 && s[0] == c {
        trim_start(s.skip(1), c)
    } else {
        s
    }
}

/// Computes where `trim_end` ends.
pub fn end_without(s: &[char], c: char) -> (n: usize)
    ensures
        n <= s@.len(),
        s@.take(n as int) == trim_end(s@, c),
{
    let mut n: usize = s.len();
    assert(s@.take(n as int) =~= s@);
    while n > 0 && s[n - 1] == c
        invariant
            n <= s@.len(),
            trim_end(s@.take(n as int), c) == trim_end(s@, c),
        decreases n,
    {
        assert(s@.take(n as int).drop_last() =~= s@.take(n - 1));
        n -= 1;
    }
    n
}

/// Computes where `trim_start` starts.
pub fn start_without(s: &[char], c: char) -> (n: usize)
    ensures
        n <= s@.len(),
        s@.skip(n as int) == trim_start(s@, c),
{
    let mut n: usize = 0;
    assert(s@.skip(0) =~= s@);
    while n < s.len() && s[n] == c
        invariant
            n <= s@.len(),
            trim_start(s@.skip(n as int), c) == trim_start(s@, c),
        decreases s.len() - n,
    {
        assert(s@.skip(n as int).skip(1) =~= s@.skip(n + 1));
        n += 1;
    }
    n
}

/// White space, as Unicode has it.
pub open spec fn space(c: char) -> bool {
    let n = c as int;
    9 <= n <= 13 || n == 0x20 || n == 0x85 || n == 0xA0 || n == 0x1680 || 0x2000 <= n <= 0x200A
        || n == 0x2028 || n == 0x2029 || n == 0x202F || n == 0x205F || n == 0x3000
}

/// Decides `space`.
pub fn is_space(c: char) -> (r: bool)
    ensures
        r == space(c),
{
    let n: u32 = c as u32;
    (9 <= n && n <= 13) || n == 0x20 || n == 0x85 || n == 0xA0 || n == 0x1680 || (0x2000 <= n && n
        <= 0x200A) || n == 0x2028 || n == 0x2029 || n == 0x202F || n == 0x205F || n == 0x3000
}

/// `s` without white space at its end.
pub open spec fn spaceless_end(s: Seq<char>) -> Seq<char>
    decreases s.len(),
{
    if s.len() > 0 && space(s.last()) {
        spaceless_end(s.drop_last())
    } else {
        s
    }
}

/// `s` without white space at its beginning.
pub open spec fn spaceless_start(s: Seq<char>) -> Seq<char>
    decreases s.len(),
{
    if s.len() > 0 && space(s[0]) {
        spaceless_start(s.skip(1))
    } else {
        s
    }
}

/// `s` without white space at either end.
pub open spec fn trimmed(s: Seq<char>) -> Seq<char> {
    spaceless_end(spaceless_start(s))
}

/// Computes `spaceless_start`.
pub fn trim_front(s: &[char]) -> (n: usize)
    ensures
        n <= s@.len(),
        s@.skip(n as int) == spaceless_start(s@),
{
    let mut from: usize = 0;
    assert(s@.skip(0) =~= s@);
    while from < s.len() && is_space(s[from])
        invariant
            from <= s@.len(),
            spaceless_start(s@.skip(from as int)) == spaceless_start(s@),
        decreases s.len() - from,
    {
        assert(s@.skip(from as int).skip(1) =~= s@.skip(from + 1));
        from += 1;
    }
    from
}

/// Computes `spaceless_end`.
pub fn trim_back(s: &[char]) -> (n: usize)
    ensures
        n <= s@.len(),
        s@.take(n as int) == spaceless_end(s@),
{
    let mut to: usize = s.len();
    assert(s@.take(to as int) =~= s@);
    while to > 0 && is_space(s[to - 1])
        invariant
            to <= s@.len(),
            spaceless_end(s@.take(to as int)) == spaceless_end(s@),
        decreases to,
    {
        assert(s@.take(to as int).drop_last() =~= s@.take(to - 1));
        to -= 1;
    }
    to
}

/// Computes `trimmed`.
pub fn trim(s: &str) -> (r: String)
    ensures
        r@ == trimmed(s@),
{
    let v = to_chars(s);
    let from = trim_front(v.as_slice());
    let rest = slice_of(v.as_slice(), from, v.len());
    assert(rest@ =~= v@.skip(from as int));
    let to = trim_back(rest.as_slice());
    let r = substring(rest.as_slice(), 0, to);
    assert(r@ =~= rest@.take(to as int));
    r
}

/// The characters of a range.
pub fn slice_of(s: &[char], from: usize, to: usize) -> (r: Vec<char>)
    requires
        from <= to <= s@.len(),
    ensures
        r@ == s@.subrange(from as int, to as int),
{
    let mut r: Vec<char> = Vec::new();
    let mut i: usize = from;
    while i < to
        invariant
            from <= i <= to <= s@.len(),
            r@ == s@.subrange(from as int, i as int),
        decreases to - i,
    {
        r.push(s[i]);
        assert(s@.subrange(from as int, i + 1) =~= s@.subrange(from as int, i as int).push(
            s@[i as int],
        ));
        i += 1;
    }
    r
}

/// The longest runs without white space, in order, behind those already cut
/// off; `run` is the one that is being read.
pub open spec fn words_from(
    s: Seq<char>,
    i: int,
    run: Seq<char>,
    done: Seq<Seq<char>>,
) -> Seq<Seq<char>>
    decreases s.len() - i,
{
    if 0 <= i < s.len() {
        if space(s[i]) {
            words_from(
                s,
                i + 1,
                Seq::empty(),
                if run.len() > 0 {
                    done.push(run)
                } else {
                    done
                },
            )
        } else {
            words_from(s, i + 1, run.push(s[i]), done)
        }
    } else if run.len() > 0 {
        done.push(run)
    } else {
        done
    }
}

/// The pieces of `s` between white space that hold something.
pub open spec fn words(s: Seq<char>) -> Seq<Seq<char>> {
    words_from(s, 0, Seq::empty(), Seq::empty())
}

/// Computes `words`.
pub fn split_whitespace(s: &[char]) -> (r: Vec<String>)
    ensures
        views(r@) == words(s@),
{
    let mut done: Vec<String> = Vec::new();
    let mut run = String::new();
    let mut size: usize = 0;
    let mut i: usize = 0;
    assert(views(done@) =~= Seq::<Seq<char>>::empty());
    while i < s.len()
        invariant
            i <= s@.len(),
            size == run@.len(),
            size <= i,
            words(s@) == words_from(s@, i as int, run@, views(done@)),
        decreases s.len() - i,
    {
        if is_space(s[i]) {
            if size > 0 {
                let ghost before = done@;
                let ghost last = run;
                done.push(run);
                proof {
                    lemma_views_push(before, last);
                }
            }
            run = String::new();
            size = 0;
        } else {
            run.push(s[i]);
            size += 1;
        }
        i += 1;
    }
    if size > 0 {
        let ghost before = done@;
        let ghost last = run;
        done.push(run);
        proof {
            lemma_views_push(before, last);
        }
    }
    done
}

/// Whether `a` comes before `b`, or is `b`, by the code points of their
/// characters.
pub open spec fn lex_le(a: Seq<char>, b: Seq<char>) -> bool
    decreases a.len(),
{
    if a.len() == 0 {
        true
    } else if b.len() == 0 {
        false
    } else if a[0] != b[0] {
        a[0] < b[0]
    } else {
        lex_le(a.skip(1), b.skip(1))
    }
}

/// Decides `lex_le`.
pub fn str_le(a: &str, b: &str) -> (r: bool)
    ensures
        r == lex_le(a@, b@),
{
    let x = to_chars(a);
    let y = to_chars(b);
    let mut i: usize = 0;
    assert(x@.skip(0) =~= x@);
    assert(y@.skip(0) =~= y@);
    loop
        invariant
            i <= x@.len(),
            i <= y@.len(),
            x@ == a@,
            y@ == b@,
            lex_le(x@.skip(i as int), y@.skip(i as int)) == lex_le(a@, b@),
        decreases x@.len() - i,
    {
        if i == x.len() {
            return true;
        }
        if i == y.len() {
            return false;
        }
        if x[i] != y[i] {
            return x[i] < y[i];
        }
        assert(x@.skip(i as int).skip(1) =~= x@.skip(i + 1));
        assert(y@.skip(i as int).skip(1) =~= y@.skip(i + 1));
        i += 1;
    }
}

/// The place in a sorted list where `x` goes: behind everything that is not
/// greater.
pub open spec fn slot(v: Seq<Seq<char>>, x: Seq<char>) -> int
    decreases v.len(),
{
    if v.len() == 0 || lex_le(v.last(), x) {
        v.len() as int
    } else {
        slot(v.drop_last(), x)
    }
}

/// The texts in order.
pub open spec fn sorted(v: Seq<Seq<char>>) -> Seq<Seq<char>>
    decreases v.len(),
{
    if v.len() == 0 {
        v
    } else {
        let rest = sorted(v.drop_last());
        rest.insert(slot(rest, v.last()), v.last())
    }
}

/// What `slot` means.
pub proof fn lemma_slot(v: Seq<Seq<char>>, x: Seq<char>)
    ensures
        0 <= slot(v, x) <= v.len(),
        slot(v, x) > 0 ==> lex_le(v[slot(v, x) - 1], x),
        forall|i: int| slot(v, x) <= i < v.len() ==> !lex_le(#[trigger] v[i], x),
    decreases v.len(),
{
    if v.len() > 0 && !lex_le(v.last(), x) {
        lemma_slot(v.drop_last(), x);
        assert forall|i: int| slot(v, x) <= i < v.len() implies !lex_le(#[trigger] v[i], x) by {
            if i < v.len() - 1 {
                assert(v.drop_last()[i] == v[i]);
            }
        }
    }
}

/// Finds the slot of a text in a list.
pub fn find_slot(v: &[String], x: &str) -> (k: usize)
    ensures
        k == slot(views(v@), x@),
        k <= v@.len(),
{
    let mut k: usize = v.len();
    assert(views(v@).take(k as int) =~= views(v@));
    while k > 0 && !str_le(v[k - 1].as_str(), x)
        invariant
            k <= v@.len(),
            slot(views(v@).take(k as int), x@) == slot(views(v@), x@),
        decreases k,
    {
        assert(views(v@).take(k as int).drop_last() =~= views(v@).take(k - 1));
        k -= 1;
    }
    k
}

/// Computes `sorted`.
pub fn sort_strings(v: &[String]) -> (r: Vec<String>)
    ensures
        views(r@) == sorted(views(v@)),
{
    let mut out: Vec<String> = Vec::new();
    let mut i: usize = 0;
    assert(views(out@) =~= sorted(views(v@).take(0)));
    while i < v.len()
        invariant
            i <= v@.len(),
            views(out@) == sorted(views(v@).take(i as int)),
        decreases v.len() - i,
    {
        assert(views(v@).take(i + 1).drop_last() =~= views(v@).take(i as int));
        let ghost before = views(out@);
        let k = find_slot(out.as_slice(), v[i].as_str());
        out.insert(k, v[i].clone());
        assert(views(out@) =~= before.insert(k as int, views(v@)[i as int]));
        i += 1;
    }
    assert(views(v@).take(v@.len() as int) =~= views(v@));
    out
}

pub proof fn lemma_lex_total(a: Seq<char>, b: Seq<char>)
    ensures
        lex_le(a, b) || lex_le(b, a),
    decreases a.len(),
{
    if a.len() > 0 && b.len() > 0 && a[0] == b[0] {
        lemma_lex_total(a.skip(1), b.skip(1));
    }
}

pub proof fn lemma_lex_trans(a: Seq<char>, b: Seq<char>, c: Seq<char>)
    requires
        lex_le(a, b),
        lex_le(b, c),
    ensures
        lex_le(a, c),
    decreases a.len(),
{
    if a.len() > 0 && b.len() > 0 && c.len() > 0 && a[0] == b[0] && b[0] == c[0] {
        lemma_lex_trans(a.skip(1), b.skip(1), c.skip(1));
    }
}

/// A list in order: nothing comes before what precedes it.
pub open spec fn in_order(v: Seq<Seq<char>>) -> bool {
    forall|i: int, j: int| 0 <= i <= j < v.len() ==> lex_le(#[trigger] v[i], #[trigger] v[j])
}

/// Sorting puts a list in order and keeps its elements.
pub proof fn law_sorted(v: Seq<Seq<char>>)
    ensures
        in_order(sorted(v)),
        sorted(v).to_multiset() == v.to_multiset(),
    decreases v.len(),
{
    broadcast use vstd::seq_lib::group_to_multiset_ensures;

    if v.len() > 0 {
        let rest = sorted(v.drop_last());
        law_sorted(v.drop_last());
        let x = v.last();
        let k = slot(rest, x);
        lemma_slot(rest, x);
        let r = rest.insert(k, x);
        assert forall|i: int, j: int| 0 <= i <= j < r.len() implies lex_le(
            #[trigger] r[i],
            #[trigger] r[j],
        ) by {
            if i < k && j == k {
                assert(lex_le(rest[i], rest[k - 1]));
                lemma_lex_trans(rest[i], rest[k - 1], x);
            } else if i == k && j > k {
                assert(!lex_le(rest[j - 1], x));
                lemma_lex_total(rest[j - 1], x);
            } else if i == k && j == k {
                lemma_lex_total(x, x);
            } else {
                let a = if i < k {
                    i
                } else {
                    i - 1
                };
                let b = if j < k {
                    j
                } else {
                    j - 1
                };
                assert(lex_le(rest[a], rest[b]));
            }
        }
        assert(v.drop_last().push(x) =~= v);
    }
}

/// A list that is strictly ascending: in order, and nothing occurs twice.
pub open spec fn ascending(v: Seq<Seq<char>>) -> bool {
    forall|i: int, j: int|
        0 <= i < j < v.len() ==> lex_le(#[trigger] v[i], #[trigger] v[j]) && v[i] != v[j]
}

/// Sorting a list in which nothing occurs twice gives a strictly ascending
/// list of the same elements.
pub proof fn law_sorted_distinct(v: Seq<Seq<char>>)
    requires
        v.no_duplicates(),
    ensures
        ascending(sorted(v)),
        sorted(v).no_duplicates(),
        sorted(v).len() == v.len(),
        forall|x: Seq<char>|
            #![trigger sorted(v).contains(x)]
            #![trigger v.contains(x)]
            sorted(v).contains(x) <==> v.contains(x),
{
    broadcast use vstd::seq_lib::group_to_multiset_ensures;

    law_sorted(v);
    let r = sorted(v);
    v.lemma_multiset_has_no_duplicates();
    r.lemma_multiset_has_no_duplicates_conv();
    assert(r.len() == r.to_multiset().len());
    assert forall|x: Seq<char>|
        #![trigger sorted(v).contains(x)]
        #![trigger v.contains(x)]
        sorted(v).contains(x) <==> v.contains(x) by {
        assert(r.contains(x) <==> r.to_multiset().count(x) > 0);
        assert(v.contains(x) <==> v.to_multiset().count(x) > 0);
    }
}

/// The last position of `c`, or -1 where there is none.
pub open spec fn last_index(s: Seq<char>, c: char) -> int
    decreases s.len(),
{
    if s.len() == 0 {
        -1
    } else if s.last() == c {
        s.len() - 1
    } else {
        last_index(s.drop_last(), c)
    }
}

/// Computes `last_index`.
pub fn rfind(s: &[char], c: char) -> (r: Option<usize>)
    ensures
        match r {
            Some(i) => last_index(s@, c) == i && i < s@.len(),
            None => last_index(s@, c) == -1,
        },
{
    let mut n: usize = s.len();
    assert(s@.take(n as int) =~= s@);
    while n > 0
        invariant
            n <= s@.len(),
            last_index(s@.take(n as int), c) == last_index(s@, c),
        decreases n,
    {
        assert(s@.take(n as int).drop_last() =~= s@.take(n - 1));
        if s[n - 1] == c {
            return Some(n - 1);
        }
        n -= 1;
    }
    None
}

/// The length of a text in UTF-16 code units.
pub open spec fn utf16_len(s: Seq<char>) -> nat
    decreases s.len(),
{
    if s.len() == 0 {
        0
    } else {
        utf16_len(s.drop_last()) + (if s.last() as int >= 0x10000 {
            2nat
        } else {
            1
        })
    }
}

/// Whether a text has more than `max` UTF-16 code units.
pub fn utf16_exceeds(s: &[char], max: usize) -> (r: bool)
    requires
        max < 1_000_000,
    ensures
        r == (utf16_len(s@) > max),
{
    let mut n: usize = 0;
    let mut i: usize = 0;
    while i < s.len()
        invariant
            i <= s@.len(),
            n == utf16_len(s@.take(i as int)),
            n <= max,
            max < 1_000_000,
        decreases s.len() - i,
    {
        assert(s@.take(i + 1).drop_last() =~= s@.take(i as int));
        n = n + if code_point(s[i]) >= 0x10000 {
            2
        } else {
            1
        };
        i += 1;
        if n > max {
            proof {
                lemma_utf16_grows(s@, i as int);
            }
            return true;
        }
    }
    assert(s@.take(i as int) =~= s@);
    false
}

proof fn lemma_utf16_grows(s: Seq<char>, k: int)
    requires
        0 <= k <= s.len(),
    ensures
        utf16_len(s.take(k)) <= utf16_len(s),
    decreases s.len(),
{
    if k == s.len() {
        assert(s.take(k) =~= s);
    } else {
        assert(s.drop_last().take(k) =~= s.take(k));
        lemma_utf16_grows(s.drop_last(), k);
    }
}

/// The decimal digit `d`.
pub open spec fn digit_char(d: int) -> char {
    (48 + d) as char
}

/// The decimal rendering of a natural number.
pub open spec fn dec(n: nat) -> Seq<char>
    decreases n,
{
    if n < 10 {
        seq![digit_char(n as int)]
    } else {
        dec(n / 10).push(digit_char((n % 10) as int))
    }
}

/// The decimal rendering of an integer.
pub open spec fn dec_int(n: int) -> Seq<char> {
    if n < 0 {
        seq!['-'] + dec((-n) as nat)
    } else {
        dec(n as nat)
    }
}

/// The character of a decimal digit.
pub fn to_digit_char(d: u8) -> (c: char)
    requires
        d < 10,
    ensures
        c == digit_char(d as int),
        is_digit(c),
        digit_value(c) == d,
{
    (48 + d) as char
}

/// Computes `dec`.
pub fn u64_string(n: u64) -> (s: String)
    ensures
        s@ == dec(n as nat),
    decreases n,
{
    if n < 10 {
        char_string(to_digit_char(n as u8))
    } else {
        let mut s = u64_string(n / 10);
        s.push(to_digit_char((n % 10) as u8));
        s
    }
}

/// Computes `dec_int`.
pub fn i64_string(n: i64) -> (s: String)
    ensures
        s@ == dec_int(n as int),
{
    if n < 0 {
        let mut s = char_string('-');
        let magnitude: u64 = if n == i64::MIN {
            0x8000_0000_0000_0000u64
        } else {
            (-n) as u64
        };
        let digits = u64_string(magnitude);
        s.append(digits.as_str());
        s
    } else {
        u64_string(n as u64)
    }
}

/// Whether `c` is an ASCII decimal digit.
pub open spec fn is_digit(c: char) -> bool {
    '0' <= c && c <= '9'
}

/// The value of an ASCII decimal digit.
pub open spec fn digit_value(c: char) -> int {
    c as int - 48
}

/// Whether every character is an ASCII decimal digit.
pub open spec fn all_digits(s: Seq<char>) -> bool {
    forall|i: int| 0 <= i < s.len() ==> is_digit(#[trigger] s[i])
}

/// The end of the run of digits that starts at `j`.
pub open spec fn digits_end(s: Seq<char>, j: int) -> int
    decreases s.len() - j,
{
    if 0 <= j < s.len() && is_digit(s[j]) {
        digits_end(s, j + 1)
    } else {
        j
    }
}

/// What `digits_end` means.
pub proof fn lemma_digits_end(s: Seq<char>, j: int)
    requires
        0 <= j,
    ensures
        j <= digits_end(s, j),
        j <= s.len() ==> digits_end(s, j) <= s.len(),
        j <= s.len() ==> all_digits(s.subrange(j, digits_end(s, j))),
    decreases s.len() - j,
{
    if j < s.len() && is_digit(s[j]) {
        lemma_digits_end(s, j + 1);
        let run = s.subrange(j, digits_end(s, j));
        let rest = s.subrange(j + 1, digits_end(s, j));
        assert forall|k: int| 0 <= k < run.len() implies is_digit(#[trigger] run[k]) by {
            if k > 0 {
                assert(run[k] == rest[k - 1]);
            }
        }
    }
}

/// The number that a run of decimal digits writes.
pub open spec fn number(s: Seq<char>) -> nat
    decreases s.len(),
{
    if s.len() == 0 {
        0
    } else {
        (number(s.drop_last()) * 10 + digit_value(s.last())) as nat
    }
}

/// Reading back the decimal rendering of a number gives the number.
pub proof fn lemma_number_dec(n: nat)
    ensures
        all_digits(dec(n)),
        number(dec(n)) == n,
        dec(n).len() >= 1,
    decreases n,
{
    if n < 10 {
        let s = dec(n);
        assert(s.drop_last() =~= Seq::<char>::empty());
        assert(number(s.drop_last()) == 0);
        assert(digit_value(s.last()) == n);
    } else {
        lemma_number_dec(n / 10);
        let s = dec(n);
        assert(s.drop_last() =~= dec(n / 10));
    }
}

/// A longer run of digits writes at least what its beginning writes.
pub proof fn lemma_number_grows(s: Seq<char>, k: int)
    requires
        all_digits(s),
        0 <= k <= s.len(),
    ensures
        number(s.take(k)) <= number(s),
    decreases s.len(),
{
    if k == s.len() {
        assert(s.take(k) =~= s);
    } else {
        let t = s.drop_last();
        assert(is_digit(s.last()));
        assert(t.take(k) =~= s.take(k));
        lemma_number_grows(t, k);
    }
}

/// A run of `n` zeros.
pub open spec fn zeros(n: int) -> Seq<char> {
    if n <= 0 {
        Seq::<char>::empty()
    } else {
        Seq::new(n as nat, |i: int| '0')
    }
}

/// The decimal rendering of `n`, filled up with leading zeros to `width`.
pub open spec fn padded(n: nat, width: int) -> Seq<char> {
    zeros(width - dec(n).len()) + dec(n)
}

/// Leading zeros do not change a number.
pub proof fn lemma_number_zeros(k: int, s: Seq<char>)
    requires
        all_digits(s),
    ensures
        all_digits(zeros(k) + s),
        number(zeros(k) + s) == number(s),
    decreases s.len(),
{
    let t = zeros(k) + s;
    assert forall|i: int| 0 <= i < t.len() implies is_digit(#[trigger] t[i]) by {
        if i >= zeros(k).len() {
            assert(t[i] == s[i - zeros(k).len()]);
        }
    }
    if s.len() == 0 {
        lemma_number_only_zeros(k);
        assert(t =~= zeros(k));
    } else {
        assert(t.drop_last() =~= zeros(k) + s.drop_last());
        assert(all_digits(s.drop_last()));
        lemma_number_zeros(k, s.drop_last());
    }
}

proof fn lemma_number_only_zeros(k: int)
    ensures
        number(zeros(k)) == 0,
    decreases k,
{
    if k > 0 {
        assert(zeros(k).drop_last() =~= zeros(k - 1));
        lemma_number_only_zeros(k - 1);
    }
}

/// A number below 10 to the `width` fills exactly `width` places and is read
/// back from them.
pub proof fn lemma_padded(n: nat, width: int)
    requires
        width == 2 && n < 100 || width == 3 && n < 1000 || width == 4 && n < 10000,
    ensures
        padded(n, width).len() == width,
        all_digits(padded(n, width)),
        number(padded(n, width)) == n,
{
    lemma_number_dec(n);
    lemma_number_zeros(width - dec(n).len(), dec(n));
    reveal_with_fuel(dec, 4);
    assert(dec(n).len() <= width);
}

/// Computes `padded`.
pub fn padded_string(n: u64, width: usize) -> (s: String)
    requires
        width <= 1000,
    ensures
        s@ == padded(n as nat, width as int),
{
    let digits = u64_string(n);
    let chars = to_chars(digits.as_str());
    let mut s = String::new();
    if chars.len() < width {
        let missing: usize = width - chars.len();
        let mut i: usize = 0;
        assert(s@ =~= zeros(0));
        while i < missing
            invariant
                i <= missing,
                s@ == zeros(i as int),
            decreases missing - i,
        {
            s.push('0');
            i += 1;
            assert(s@ =~= zeros(i as int));
        }
    }
    assert(s@ =~= zeros(width - dec(n as nat).len()));
    s.append(digits.as_str());
    s
}

/// Whether `c` is an ASCII decimal digit.
pub fn char_is_digit(c: char) -> (r: bool)
    ensures
        r == is_digit(c),
{
    '0' <= c && c <= '9'
}

/// The value of the digits `v[from..to]`, or `None` where it exceeds `max`.
pub fn digits_value(v: &[char], from: usize, to: usize, max: u64) -> (r: Option<u64>)
    requires
        from <= to <= v@.len(),
        all_digits(v@.subrange(from as int, to as int)),
    ensures
        match r {
            Some(n) => n == number(v@.subrange(from as int, to as int)) && n <= max,
            None => number(v@.subrange(from as int, to as int)) > max,
        },
{
    let ghost all = v@.subrange(from as int, to as int);
    let mut n: u64 = 0;
    let mut i: usize = from;
    while i < to
        invariant
            from <= i <= to <= v@.len(),
            all == v@.subrange(from as int, to as int),
            all_digits(all),
            n == number(v@.subrange(from as int, i as int)),
            n <= max,
        decreases to - i,
    {
        let ghost upto = v@.subrange(from as int, i + 1);
        assert(upto.drop_last() =~= v@.subrange(from as int, i as int));
        assert(all[i - from] == v@[i as int]);
        assert(is_digit(v@[i as int]));
        assert(all.take(i + 1 - from) =~= upto);
        proof {
            lemma_number_grows(all, i + 1 - from);
        }
        let d: u64 = (v[i] as u32 - 48) as u64;
        if n > max / 10 || d > max - n * 10 {
            return None;
        }
        n = n * 10 + d;
        i += 1;
    }
    Some(n)
}

// ---- numbers in text -----------------------------------------------------

/// Whether a sign stands in front that the kind of number allows.
pub open spec fn has_sign(s: Seq<char>, signed: bool) -> bool {
    s.len() > 0 && (s[0] == '+' || (signed && s[0] == '-'))
}

/// The digits behind an optional sign.
pub open spec fn unsigned_part(s: Seq<char>, signed: bool) -> Seq<char> {
    if has_sign(s, signed) {
        s.skip(1)
    } else {
        s
    }
}

/// The integer that a text writes: an optional sign and at least one digit,
/// and nothing else. Only a signed number may have a minus.
pub open spec fn int_of(s: Seq<char>, signed: bool) -> Option<int> {
    let digits = unsigned_part(s, signed);
    if digits.len() == 0 || !all_digits(digits) {
        None
    } else if signed && s[0] == '-' {
        Some(-(number(digits) as int))
    } else {
        Some(number(digits) as int)
    }
}

/// The integer that a text writes, if it lies in a range.
pub open spec fn int_within(s: Seq<char>, signed: bool, min: int, max: int) -> Option<int> {
    match int_of(s, signed) {
        Some(n) => if min <= n <= max {
            Some(n)
        } else {
            None
        },
        None => None,
    }
}

fn are_digits(s: &[char], from: usize) -> (r: bool)
    requires
        from <= s@.len(),
    ensures
        r == all_digits(s@.skip(from as int)),
{
    let mut i: usize = from;
    while i < s.len()
        invariant
            from <= i <= s@.len(),
            forall|j: int| from <= j < i ==> is_digit(#[trigger] s@[j]),
        decreases s.len() - i,
    {
        if !char_is_digit(s[i]) {
            assert(!is_digit(s@.skip(from as int)[i - from]));
            return false;
        }
        i += 1;
    }
    assert forall|j: int| 0 <= j < s@.skip(from as int).len() implies is_digit(
        #[trigger] s@.skip(from as int)[j],
    ) by {
        assert(is_digit(s@[from + j]));
    }
    true
}

/// The 32-bit signed integer that a text writes.
pub fn parse_i32(text: &str) -> (r: Option<i32>)
    ensures
        match r {
            Some(n) => int_within(text@, true, i32::MIN as int, i32::MAX as int) == Some(n as int),
            None => int_within(text@, true, i32::MIN as int, i32::MAX as int) is None,
        },
{
    let s = to_chars(text);
    let negative = s.len() > 0 && s[0] == '-';
    let from: usize = if s.len() > 0 && (s[0] == '+' || s[0] == '-') {
        1
    } else {
        0
    };
    assert(s@.skip(from as int) =~= unsigned_part(text@, true));
    if s.len() == from || !are_digits(s.as_slice(), from) {
        return None;
    }
    assert(s@.subrange(from as int, s@.len() as int) =~= s@.skip(from as int));
    let max: u64 = if negative {
        0x8000_0000
    } else {
        0x7fff_ffff
    };
    match digits_value(s.as_slice(), from, s.len(), max) {
        Some(n) => {
            if negative {
                Some((-(n as i64)) as i32)
            } else {
                Some(n as i32)
            }
        },
        None => None,
    }
}

/// The 64-bit unsigned integer that a text writes.
pub fn parse_u64(text: &str) -> (r: Option<u64>)
    ensures
        match r {
            Some(n) => int_within(text@, false, 0, u64::MAX as int) == Some(n as int),
            None => int_within(text@, false, 0, u64::MAX as int) is None,
        },
{
    let s = to_chars(text);
    let from: usize = if s.len() > 0 && s[0] == '+' {
        1
    } else {
        0
    };
    assert(s@.skip(from as int) =~= unsigned_part(text@, false));
    if s.len() == from || !are_digits(s.as_slice(), from) {
        return None;
    }
    assert(s@.subrange(from as int, s@.len() as int) =~= s@.skip(from as int));
    digits_value(s.as_slice(), from, s.len(), u64::MAX)
}

// ---- lines ---------------------------------------------------------------

/// A line without the carriage return at its end.
pub open spec fn without_cr(s: Seq<char>) -> Seq<char> {
    if s.len() > 0 && s.last() == '\r' {
        s.drop_last()
    } else {
        s
    }
}

/// The lines of a text. Each ends at a line feed, with a carriage return in
/// front of it or not; what follows the last line feed is a line of its own
/// where it holds something.
pub open spec fn lines(s: Seq<char>) -> Seq<Seq<char>> {
    let p = pieces(s, seq!['\n']);
    let ended = Seq::new((p.len() - 1) as nat, |i: int| without_cr(p[i]));
    if p.last().len() > 0 {
        ended.push(p.last())
    } else {
        ended
    }
}

/// Computes `lines`.
pub fn split_lines(s: &str) -> (r: Vec<String>)
    ensures
        views(r@) == lines(s@),
{
    let chars = to_chars(s);
    let newline: [char; 1] = ['\n'];
    assert(newline@ =~= seq!['\n']);
    let parts = split_on(chars.as_slice(), &newline);
    let ghost p = pieces(s@, seq!['\n']);
    let ghost ended = Seq::new((p.len() - 1) as nat, |i: int| without_cr(p[i]));
    let mut out: Vec<String> = Vec::new();
    let mut i: usize = 0;
    assert(views(out@) =~= ended.take(0));
    while i + 1 < parts.len()
        invariant
            parts@.len() >= 1,
            i + 1 <= parts.len(),
            views(parts@) == p,
            ended == Seq::new((p.len() - 1) as nat, |i: int| without_cr(p[i])),
            views(out@) == ended.take(i as int),
        decreases parts.len() - i,
    {
        let line = to_chars(parts[i].as_str());
        let n = line.len();
        let end: usize = if n > 0 && line[n - 1] == '\r' {
            n - 1
        } else {
            n
        };
        let ghost before = out@;
        let text = substring(line.as_slice(), 0, end);
        assert(text@ =~= without_cr(p[i as int]));
        out.push(text);
        proof {
            lemma_views_push(before, text);
            assert(ended.take(i + 1) =~= ended.take(i as int).push(ended[i as int]));
        }
        i += 1;
    }
    assert(ended.take(ended.len() as int) =~= ended);
    let last = parts[parts.len() - 1].clone();
    assert(last@ == p.last());
    if !last.as_str().is_empty() {
        let ghost before = out@;
        out.push(last);
        proof {
            lemma_views_push(before, last);
        }
    }
    out
}

// ---- laws ----------------------------------------------------------------

/// The contents of a list of strings are those of each, in order.
pub proof fn law_views(v: Seq<String>, o: Option<String>)
    ensures
        views(v).len() == v.len(),
        forall|i: int| 0 <= i < v.len() ==> #[trigger] views(v)[i] == v[i]@,
        opt_view(o) is Some <==> o is Some,
        o is Some ==> opt_view(o)->0 == o->0@,
{
}

/// Lower case changes the letters A to Z and nothing else: each becomes the
/// letter that stands 32 places behind it.
pub proof fn law_lower_case(s: Seq<char>)
    ensures
        lowered(s).len() == s.len(),
        forall|i: int|
            0 <= i < s.len() ==> {
                let c = (#[trigger] lowered(s)[i]) as int;
                if 65 <= s[i] as int <= 90 {
                    c == s[i] as int + 32
                } else {
                    c == s[i] as int
                }
            },
        is_ascii_chars(s) ==> lower_text(s) == lowered(s),
{
    assert forall|i: int| 0 <= i < s.len() implies {
        let c = (#[trigger] lowered(s)[i]) as int;
        if 65 <= s[i] as int <= 90 {
            c == s[i] as int + 32
        } else {
            c == s[i] as int
        }
    } by {
        assert(lowered(s)[i] == ascii_lower(s[i]));
    }
}

/// Well-formed bytes are the text that they encode.
pub proof fn law_text_of_bytes(s: Seq<char>)
    ensures
        text_of(encode_utf8(s)) == s,
{
    encode_utf8_valid_utf8(s);
    encode_utf8_decode_utf8(s);
}

/// A text begins with another exactly where it is that text and something
/// behind it, and ends in it exactly where something stands in front.
pub proof fn law_begin_and_end(s: Seq<char>, p: Seq<char>, rest: Seq<char>)
    ensures
        begins(p + rest, p),
        ends(rest + p, p),
        begins(s, p) ==> p.len() <= s.len() && s == p + s.skip(p.len() as int),
        ends(s, p) ==> p.len() <= s.len() && s == s.take(s.len() - p.len()) + p,
{
    assert((p + rest).subrange(0, p.len() as int) =~= p);
    let t = rest + p;
    assert(t.subrange(t.len() - p.len(), t.len() as int) =~= p);
    if begins(s, p) {
        assert(s.subrange(0, p.len() as int) == p);
        assert(s =~= p + s.skip(p.len() as int));
    }
    if ends(s, p) {
        assert(s.subrange(s.len() - p.len(), s.len() as int) == p);
        assert(s =~= s.take(s.len() - p.len()) + p);
    }
}

/// Joining puts the separator between the parts: of two lists that hold
/// something it is the one, the separator, and the other.
pub proof fn law_joining(a: Seq<Seq<char>>, b: Seq<Seq<char>>, sep: Seq<char>, one: Seq<char>)
    ensures
        joined(Seq::empty(), sep).len() == 0,
        joined(seq![one], sep) == one,
        a.len() > 0 && b.len() > 0 ==> joined(a + b, sep) == joined(a, sep) + sep + joined(b, sep),
    decreases b.len(),
{
    if a.len() > 0 && b.len() > 0 {
        let all = a + b;
        assert(all.last() == b.last());
        assert(all.drop_last() =~= a + b.drop_last());
        if b.len() == 1 {
            assert(b.drop_last() =~= Seq::<Seq<char>>::empty());
            assert(a + b.drop_last() =~= a);
        } else {
            law_joining(a, b.drop_last(), sep, one);
            assert(joined(a, sep) + sep + joined(b.drop_last(), sep) + sep + b.last()
                =~= joined(a, sep) + sep + (joined(b.drop_last(), sep) + sep + b.last()));
        }
    }
}

/// Splitting at a character and joining with it gives the text back, and no
/// piece holds it.
pub proof fn law_splitting(s: Seq<char>, c: char)
    ensures
        joined(pieces(s, seq![c]), seq![c]) == s,
        forall|i: int|
            0 <= i < pieces(s, seq![c]).len() ==> !(#[trigger] pieces(s, seq![c])[i]).contains(c),
    decreases s.len(),
{
    let seps = seq![c];
    assert(seps[0] == c);
    assert(seps.contains(c));
    if s.len() > 0 {
        law_splitting(s.drop_last(), c);
        lemma_pieces_nonempty(s.drop_last(), seps);
        let before = pieces(s.drop_last(), seps);
        let p = pieces(s, seps);
        let x = s.last();
        assert(s =~= s.drop_last().push(x));
        if seps.contains(x) {
            assert(x == c);
            assert(p.drop_last() =~= before);
            assert(joined(p, seps) =~= s);
        } else {
            assert(x != c);
            assert(p.drop_last() =~= before.drop_last());
            if before.len() == 1 {
                assert(joined(p, seps) =~= s);
            } else {
                assert(joined(p, seps) =~= s);
            }
        }
        assert forall|i: int| 0 <= i < p.len() implies !(#[trigger] p[i]).contains(c) by {
            if seps.contains(x) {
                if i < before.len() {
                    assert(p[i] == before[i]);
                }
            } else if i < before.len() - 1 {
                assert(p[i] == before[i]);
            } else {
                assert(p[i] == before.last().push(x));
                assert(!before[before.len() - 1].contains(c));
                if p[i].contains(c) {
                    let k = choose|k: int| 0 <= k < p[i].len() && p[i][k] == c;
                    assert(before.last()[k] == c);
                }
            }
        }
    } else {
        assert(joined(pieces(s, seps), seps) =~= s);
    }
}

/// Trimming a character off an end takes all of it there and nothing else.
pub proof fn law_trimming_a_character(s: Seq<char>, c: char)
    ensures
        trim_end(s, c).len() <= s.len(),
        s.take(trim_end(s, c).len() as int) == trim_end(s, c),
        forall|i: int| trim_end(s, c).len() <= i < s.len() ==> #[trigger] s[i] == c,
        trim_end(s, c).len() > 0 ==> trim_end(s, c).last() != c,
        trim_start(s, c).len() <= s.len(),
        s.skip(s.len() - trim_start(s, c).len()) == trim_start(s, c),
        forall|i: int| 0 <= i < s.len() - trim_start(s, c).len() ==> #[trigger] s[i] == c,
        trim_start(s, c).len() > 0 ==> trim_start(s, c)[0] != c,
    decreases s.len(),
{
    assert(s.take(s.len() as int) =~= s);
    assert(s.skip(0) =~= s);
    if s.len() > 0 {
        if s.last() == c {
            let t = s.drop_last();
            law_trimming_a_character(t, c);
            let n = trim_end(s, c).len() as int;
            assert(s.take(n) =~= t.take(n));
            assert forall|i: int| n <= i < s.len() implies #[trigger] s[i] == c by {
                if i < t.len() {
                    assert(t[i] == s[i]);
                }
            }
        }
        if s[0] == c {
            let t = s.skip(1);
            law_trimming_a_character(t, c);
            let n = s.len() - trim_start(s, c).len();
            assert(s.skip(n) =~= t.skip(n - 1));
            assert forall|i: int| 0 <= i < n implies #[trigger] s[i] == c by {
                if i > 0 {
                    assert(t[i - 1] == s[i]);
                }
            }
        }
    }
}

/// Trimming takes the white space off both ends and nothing else.
pub proof fn law_trimming(a: Seq<char>, s: Seq<char>, b: Seq<char>)
    requires
        forall|i: int| 0 <= i < a.len() ==> space(#[trigger] a[i]),
        forall|i: int| 0 <= i < b.len() ==> space(#[trigger] b[i]),
        s.len() > 0 ==> !space(s[0]) && !space(s.last()),
    ensures
        trimmed(a + s + b) == s,
{
    if s.len() > 0 {
        lemma_spaces_in_front(a, s + b);
        assert(a + (s + b) =~= a + s + b);
        assert((s + b)[0] == s[0]);
        lemma_spaces_behind(s, b);
    } else {
        lemma_spaces_in_front(a + b, Seq::empty());
        assert forall|i: int| 0 <= i < (a + b).len() implies space(#[trigger] (a + b)[i]) by {}
        assert(a + b + Seq::<char>::empty() =~= a + s + b);
        assert(spaceless_start(Seq::<char>::empty()) =~= Seq::<char>::empty());
        assert(s =~= Seq::<char>::empty());
    }
}

proof fn lemma_spaces_in_front(a: Seq<char>, s: Seq<char>)
    requires
        forall|i: int| 0 <= i < a.len() ==> space(#[trigger] a[i]),
    ensures
        spaceless_start(a + s) == spaceless_start(s),
    decreases a.len(),
{
    if a.len() > 0 {
        let t = a.skip(1);
        assert forall|i: int| 0 <= i < t.len() implies space(#[trigger] t[i]) by {
            assert(t[i] == a[i + 1]);
        }
        lemma_spaces_in_front(t, s);
        assert((a + s)[0] == a[0]);
        assert((a + s).skip(1) =~= t + s);
    } else {
        assert(a + s =~= s);
    }
}

proof fn lemma_spaces_behind(s: Seq<char>, b: Seq<char>)
    requires
        forall|i: int| 0 <= i < b.len() ==> space(#[trigger] b[i]),
        s.len() > 0,
        !space(s.last()),
    ensures
        spaceless_end(s + b) == s,
    decreases b.len(),
{
    if b.len() > 0 {
        let t = b.drop_last();
        assert forall|i: int| 0 <= i < t.len() implies space(#[trigger] t[i]) by {
            assert(t[i] == b[i]);
        }
        lemma_spaces_behind(s, t);
        assert((s + b).last() == b[b.len() - 1]);
        assert((s + b).drop_last() =~= s + t);
    } else {
        assert(s + b =~= s);
    }
}

/// White space is the space, the tab, the line ends and their like; no
/// character that is written is.
pub proof fn law_white_space(c: char)
    ensures
        space(' ') && space('\t') && space('\n') && space('\r'),
        0x21 <= c as int <= 0x7e ==> !space(c),
        (c as int) < 9 ==> !space(c),
{
}

/// The words of a text: a word and white space behind it is that word and the
/// words of the rest; white space in front does not matter.
pub proof fn law_words(w: Seq<char>, c: char, rest: Seq<char>)
    requires
        w.len() > 0,
        forall|i: int| 0 <= i < w.len() ==> !space(#[trigger] w[i]),
        space(c),
    ensures
        words(Seq::empty()).len() == 0,
        words(w) == seq![w],
        words(seq![c] + rest) == words(rest),
        words(w + seq![c] + rest) == seq![w] + words(rest),
{
    let none = Seq::<Seq<char>>::empty();
    let blank = Seq::<char>::empty();
    lemma_words_run(w, blank, w, blank, none);
    assert(w + blank =~= w);
    assert(blank + w =~= w);
    assert(words(w) =~= seq![w]);
    lemma_words_shift(seq![c], rest, 0, blank, none);
    let t = seq![c] + rest;
    assert(t[0] == c);
    assert(words_from(t, 1, blank, none) == words_from(rest, 0, blank, none));
    let s = w + seq![c] + rest;
    let tail = seq![c] + rest;
    assert(s =~= w + tail);
    lemma_words_run(s, blank, w, tail, none);
    let n = w.len() as int;
    assert(s[n] == c);
    lemma_words_shift(w + seq![c], rest, 0, blank, seq![w]);
    lemma_words_done(rest, 0, blank, seq![w]);
    assert(none.push(w) =~= seq![w]);
}

/// Reading a word into the run.
proof fn lemma_words_run(
    s: Seq<char>,
    run: Seq<char>,
    w: Seq<char>,
    tail: Seq<char>,
    done: Seq<Seq<char>>,
)
    requires
        s == w + tail,
        forall|i: int| 0 <= i < w.len() ==> !space(#[trigger] w[i]),
    ensures
        words_from(s, 0, run, done) == words_from(s, w.len() as int, run + w, done),
{
    lemma_words_steps(s, run, w.len() as int, done);
    assert(s.take(w.len() as int) =~= w);
}

proof fn lemma_words_steps(s: Seq<char>, run: Seq<char>, n: int, done: Seq<Seq<char>>)
    requires
        0 <= n <= s.len(),
        forall|i: int| 0 <= i < n ==> !space(#[trigger] s[i]),
    ensures
        words_from(s, 0, run, done) == words_from(s, n, run + s.take(n), done),
    decreases n,
{
    if n > 0 {
        lemma_words_steps(s, run, n - 1, done);
        assert((run + s.take(n - 1)).push(s[n - 1]) =~= run + s.take(n));
    } else {
        assert(run + s.take(0) =~= run);
    }
}

/// What stands in front of where reading goes on does not matter.
proof fn lemma_words_shift(
    t: Seq<char>,
    s: Seq<char>,
    i: int,
    run: Seq<char>,
    done: Seq<Seq<char>>,
)
    requires
        0 <= i <= s.len(),
    ensures
        words_from(t + s, t.len() + i, run, done) == words_from(s, i, run, done),
    decreases s.len() - i,
{
    if i < s.len() {
        assert((t + s)[t.len() + i] == s[i]);
        if space(s[i]) {
            lemma_words_shift(
                t,
                s,
                i + 1,
                Seq::empty(),
                if run.len() > 0 {
                    done.push(run)
                } else {
                    done
                },
            );
        } else {
            lemma_words_shift(t, s, i + 1, run.push(s[i]), done);
        }
    }
}

/// The words already cut off stand in front.
proof fn lemma_words_done(s: Seq<char>, i: int, run: Seq<char>, done: Seq<Seq<char>>)
    requires
        0 <= i <= s.len(),
    ensures
        words_from(s, i, run, done) == done + words_from(s, i, run, Seq::empty()),
    decreases s.len() - i,
{
    let none = Seq::<Seq<char>>::empty();
    if i < s.len() {
        if space(s[i]) {
            if run.len() > 0 {
                lemma_words_done(s, i + 1, Seq::empty(), done.push(run));
                lemma_words_done(s, i + 1, Seq::empty(), none.push(run));
                let rest = words_from(s, i + 1, Seq::empty(), none);
                assert(done.push(run) + rest =~= done + (none.push(run) + rest));
            } else {
                lemma_words_done(s, i + 1, Seq::empty(), done);
            }
        } else {
            lemma_words_done(s, i + 1, run.push(s[i]), done);
        }
    } else if run.len() > 0 {
        assert(done.push(run) =~= done + none.push(run));
    } else {
        assert(done + none =~= done);
    }
}

/// The order of texts: at the first place where they differ the smaller
/// character comes first, and a beginning comes in front of the whole.
pub proof fn law_order_of_texts(p: Seq<char>, x: char, y: char, s: Seq<char>, t: Seq<char>)
    ensures
        x < y ==> lex_le(p + (seq![x] + s), p + (seq![y] + t)) && !lex_le(
            p + (seq![y] + t),
            p + (seq![x] + s),
        ),
        lex_le(p, p + s),
        s.len() > 0 ==> !lex_le(p + s, p),
    decreases p.len(),
{
    let a = p + (seq![x] + s);
    let b = p + (seq![y] + t);
    if p.len() > 0 {
        let q = p.skip(1);
        law_order_of_texts(q, x, y, s, t);
        assert(a.skip(1) =~= q + (seq![x] + s));
        assert(b.skip(1) =~= q + (seq![y] + t));
        assert((p + s).skip(1) =~= q + s);
        assert(a[0] == p[0] && b[0] == p[0] && (p + s)[0] == p[0]);
    } else {
        assert(a =~= seq![x] + s);
        assert(b =~= seq![y] + t);
        assert(a[0] == x && b[0] == y);
        assert(p + s =~= s);
    }
}

/// Two texts that come in front of each other are the same.
pub proof fn law_order_is_antisymmetric(a: Seq<char>, b: Seq<char>)
    requires
        lex_le(a, b),
        lex_le(b, a),
    ensures
        a == b,
    decreases a.len(),
{
    if a.len() > 0 && b.len() > 0 {
        assert(a[0] == b[0]);
        law_order_is_antisymmetric(a.skip(1), b.skip(1));
        assert(a =~= seq![a[0]] + a.skip(1));
        assert(b =~= seq![b[0]] + b.skip(1));
    } else {
        assert(a =~= b);
    }
}

/// Looking for a character from the front finds the first one, and from the
/// back the last one.
pub proof fn law_finding_a_character(s: Seq<char>, c: char, from: int)
    requires
        0 <= from <= s.len(),
    ensures
        from <= index_from(s, c, from) <= s.len(),
        index_from(s, c, from) < s.len() ==> s[index_from(s, c, from)] == c,
        forall|i: int| from <= i < index_from(s, c, from) ==> #[trigger] s[i] != c,
        -1 <= last_index(s, c) < s.len(),
        last_index(s, c) >= 0 ==> s[last_index(s, c)] == c,
        forall|i: int| last_index(s, c) < i < s.len() ==> #[trigger] s[i] != c,
{
    lemma_index_from(s, c, from);
    lemma_last_index(s, c);
}

proof fn lemma_index_from(s: Seq<char>, c: char, from: int)
    requires
        0 <= from <= s.len(),
    ensures
        from <= index_from(s, c, from) <= s.len(),
        index_from(s, c, from) < s.len() ==> s[index_from(s, c, from)] == c,
        forall|i: int| from <= i < index_from(s, c, from) ==> #[trigger] s[i] != c,
    decreases s.len() - from,
{
    if from < s.len() && s[from] != c {
        lemma_index_from(s, c, from + 1);
    }
}

proof fn lemma_last_index(s: Seq<char>, c: char)
    ensures
        -1 <= last_index(s, c) < s.len(),
        last_index(s, c) >= 0 ==> s[last_index(s, c)] == c,
        forall|i: int| last_index(s, c) < i < s.len() ==> #[trigger] s[i] != c,
    decreases s.len(),
{
    if s.len() > 0 && s.last() != c {
        lemma_last_index(s.drop_last(), c);
        assert forall|i: int| last_index(s, c) < i < s.len() implies #[trigger] s[i] != c by {
            if i < s.len() - 1 {
                assert(s.drop_last()[i] == s[i]);
            }
        }
    }
}

/// The length in UTF-16 counts each character once, and those beyond the first
/// 65536 code points twice.
pub proof fn law_utf16_length(a: Seq<char>, b: Seq<char>, c: char)
    ensures
        utf16_len(a + b) == utf16_len(a) + utf16_len(b),
        utf16_len(seq![c]) == (if c as int >= 65536 {
            2nat
        } else {
            1
        }),
    decreases b.len(),
{
    let one = seq![c];
    assert(one.drop_last() =~= Seq::<char>::empty());
    assert(utf16_len(one.drop_last()) == 0);
    if b.len() > 0 {
        law_utf16_length(a, b.drop_last(), c);
        assert((a + b).drop_last() =~= a + b.drop_last());
        assert((a + b).last() == b.last());
    } else {
        assert(a + b =~= a);
    }
}

/// A number is written with the digits 0 to 9, the highest first and without
/// a zero in front.
pub proof fn law_decimal(n: nat, d: nat)
    requires
        d < 10,
    ensures
        dec(d) == seq![seq!['0', '1', '2', '3', '4', '5', '6', '7', '8', '9'][d as int]],
        n > 0 ==> dec(n * 10 + d) == dec(n) + dec(d),
        n > 0 ==> dec(n)[0] != '0',
        number(dec(n)) == n,
    decreases n,
{
    lemma_number_dec(n);
    assert(dec(d)[0] as int == 48 + d);
    assert(seq!['0', '1', '2', '3', '4', '5', '6', '7', '8', '9'][d as int] as int == 48 + d);
    assert(dec(d) =~= seq![seq!['0', '1', '2', '3', '4', '5', '6', '7', '8', '9'][d as int]]);
    if n > 0 {
        let m = n * 10 + d;
        assert(m / 10 == n && m % 10 == d);
        assert(dec(m) =~= dec(n) + dec(d));
        if n >= 10 {
            law_decimal(n / 10, d);
            lemma_number_dec(n / 10);
            assert(dec(n)[0] == dec(n / 10)[0]);
        }
    }
}

/// A negative number has a minus in front.
pub proof fn law_signed_decimal(n: int)
    ensures
        n >= 0 ==> dec_int(n) == dec(n as nat),
        n < 0 ==> dec_int(n) == seq!['-'] + dec((-n) as nat),
{
}

/// Filling up with zeros gives the number in as many digits as were asked for,
/// or more where it needs them.
pub proof fn law_padded_decimal(n: nat, width: int)
    ensures
        number(padded(n, width)) == n,
        all_digits(padded(n, width)),
        padded(n, width).len() == (if dec(n).len() >= width {
            dec(n).len() as int
        } else {
            width
        }),
        ends(padded(n, width), dec(n)),
{
    lemma_number_dec(n);
    lemma_number_zeros(width - dec(n).len(), dec(n));
    law_begin_and_end(padded(n, width), dec(n), zeros(width - dec(n).len()));
}

/// The value of digits: one more digit behind counts ten times what was there,
/// and itself.
pub proof fn law_value_of_digits(s: Seq<char>, c: char)
    requires
        '0' <= c && c <= '9',
    ensures
        number(s.push(c)) == number(s) * 10 + (c as int - '0' as int),
        number(Seq::empty()) == 0,
{
    assert(s.push(c).drop_last() =~= s);
}

/// An integer is read from an optional sign and digits: what is written for a
/// number is read as it, a plus in front does not matter, a minus counts only
/// where negative numbers are meant, and nothing else is read.
pub proof fn law_reading_integers(n: nat, s: Seq<char>)
    ensures
        int_of(dec(n), true) == Some(n as int),
        int_of(dec(n), false) == Some(n as int),
        int_of(seq!['+'] + dec(n), true) == Some(n as int),
        int_of(seq!['-'] + dec(n), true) == Some(-(n as int)),
        int_of(seq!['-'] + dec(n), false) is None,
        int_of(Seq::empty(), true) is None,
        int_of(s, false) is Some ==> forall|i: int|
            0 < i < s.len() ==> '0' <= (#[trigger] s[i]) && s[i] <= '9',
        int_of(s, true) is Some ==> forall|i: int|
            0 < i < s.len() ==> '0' <= (#[trigger] s[i]) && s[i] <= '9',
{
    lemma_number_dec(n);
    assert(is_digit(dec(n)[0]));
    let p = seq!['+'] + dec(n);
    let m = seq!['-'] + dec(n);
    assert(p.skip(1) =~= dec(n));
    assert(m.skip(1) =~= dec(n));
    assert(m[0] == '-' && !is_digit(m[0]));
    assert forall|signed: bool, i: int|
        #[trigger] int_of(s, signed) is Some && 0 < i < s.len() implies '0' <= (
    #[trigger] s[i]) && s[i] <= '9' by {
        if has_sign(s, signed) {
            assert(s.skip(1)[i - 1] == s[i]);
            assert(is_digit(s.skip(1)[i - 1]));
        } else {
            assert(is_digit(s[i]));
        }
    }
}

/// A range lets exactly the integers in it through.
pub proof fn law_integers_in_a_range(s: Seq<char>, signed: bool, min: int, max: int)
    ensures
        int_within(s, signed, min, max) is Some <==> int_of(s, signed) is Some && min <= int_of(
            s,
            signed,
        )->0 <= max,
        int_within(s, signed, min, max) is Some ==> int_within(s, signed, min, max) == int_of(
            s,
            signed,
        ),
{
}

/// The lines of a text: a line without a line feed, its end (a line feed, with
/// a carriage return in front or not), and the rest are that line and the
/// lines of the rest; a text without a line feed is one line.
pub proof fn law_lines(line: Seq<char>, rest: Seq<char>)
    requires
        !line.contains('\n'),
        line.len() > 0 ==> line.last() != '\r',
    ensures
        lines(Seq::empty()).len() == 0,
        line.len() > 0 ==> lines(line) == seq![line],
        lines(line + (seq!['\n'] + rest)) == seq![line] + lines(rest),
        lines(line + (seq!['\r', '\n'] + rest)) == seq![line] + lines(rest),
{
    let seps = seq!['\n'];
    lemma_free_piece(line);
    lemma_pieces_nonempty(rest, seps);
    let none = Seq::<char>::empty();
    assert(pieces(none, seps) =~= seq![none]);
    lemma_pieces_behind(line, rest);
    let s = line + (seq!['\n'] + rest);
    let p = pieces(rest, seps);
    assert(pieces(s, seps) == seq![line] + p);
    assert((seq![line] + p).last() == p.last());
    assert(without_cr(line) == line);
    assert(lines(s) =~= seq![line] + lines(rest));
    let back = line.push('\r');
    assert(!back.contains('\n')) by {
        assert forall|i: int| 0 <= i < back.len() implies back[i] != '\n' by {
            if i < line.len() {
                assert(line[i] != '\n');
            }
        }
    }
    lemma_free_piece(back);
    lemma_pieces_behind(back, rest);
    let t = line + (seq!['\r', '\n'] + rest);
    assert(t =~= back + (seq!['\n'] + rest));
    assert((seq![back] + p).last() == p.last());
    assert(without_cr(back) =~= line);
    assert(lines(t) =~= seq![line] + lines(rest));
    if line.len() > 0 {
        assert(lines(line) =~= seq![line]);
    }
    assert(lines(none) =~= Seq::<Seq<char>>::empty());
}

proof fn lemma_free_piece(b: Seq<char>)
    requires
        !b.contains('\n'),
    ensures
        pieces(b, seq!['\n']) == seq![b],
    decreases b.len(),
{
    let seps = seq!['\n'];
    assert(seps[0] == '\n');
    if b.len() > 0 {
        let c = b.last();
        assert(b[b.len() - 1] == c);
        assert forall|i: int| 0 <= i < b.drop_last().len() implies b.drop_last()[i] != '\n' by {
            assert(b[i] != '\n');
        }
        lemma_free_piece(b.drop_last());
        assert(!seps.contains(c));
        assert(b.drop_last().push(c) =~= b);
        assert(pieces(b, seps) =~= seq![b]);
    } else {
        assert(b =~= Seq::<char>::empty());
    }
}

proof fn lemma_pieces_behind(line: Seq<char>, rest: Seq<char>)
    requires
        !line.contains('\n'),
    ensures
        pieces(line + (seq!['\n'] + rest), seq!['\n']) == seq![line] + pieces(rest, seq!['\n']),
    decreases rest.len(),
{
    let seps = seq!['\n'];
    assert(seps[0] == '\n');
    let s = line + (seq!['\n'] + rest);
    lemma_free_piece(line);
    lemma_pieces_nonempty(rest, seps);
    if rest.len() > 0 {
        lemma_pieces_behind(line, rest.drop_last());
        lemma_pieces_nonempty(rest.drop_last(), seps);
        assert(s.drop_last() =~= line + (seq!['\n'] + rest.drop_last()));
        assert(s.last() == rest.last());
        assert(pieces(s, seps) =~= seq![line] + pieces(rest, seps));
    } else {
        assert(s.drop_last() =~= line);
        assert(s.last() == '\n');
        assert(seps.contains('\n'));
        assert(pieces(s, seps) =~= seq![line] + pieces(rest, seps));
    }
}

} // verus!
