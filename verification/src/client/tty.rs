//! Input bytes of the interactive clients.

use vstd::prelude::*;

verus! {

/// Detach key: Ctrl+\.
pub const DETACH_KEY: u8 = 0x1c;

/// A second detach key within this time goes to the session instead of
/// detaching, in milliseconds.
pub const DOUBLE_TAP_MS: u64 = 300;

/// The keyboard protocol's form of the detach key: `ESC [ 9 2 ; 5 u`.
pub open spec fn kitty() -> Seq<u8> {
    seq![0x1bu8, 0x5b, 0x39, 0x32, 0x3b, 0x35, 0x75]
}

/// Whether the bytes begin with the keyboard protocol's form.
pub open spec fn kitty_first(data: Seq<u8>) -> bool {
    data.len() >= 7 && data.take(7) == kitty()
}

/// The input with each such form as the plain key.
pub open spec fn plain_keys(data: Seq<u8>) -> Seq<u8>
    decreases data.len(),
{
    if data.len() == 0 {
        Seq::empty()
    } else if kitty_first(data) {
        seq![DETACH_KEY] + plain_keys(data.skip(7))
    } else {
        seq![data[0]] + plain_keys(data.skip(1))
    }
}

fn kitty_at(data: &[u8], i: usize) -> (r: bool)
    requires
        i <= data@.len(),
    ensures
        r == kitty_first(data@.skip(i as int)),
{
    let ghost rest = data@.skip(i as int);
    if data.len() - i < 7 {
        return false;
    }
    let r = data[i] == 0x1b && data[i + 1] == 0x5b && data[i + 2] == 0x39 && data[i + 3] == 0x32
        && data[i + 4] == 0x3b && data[i + 5] == 0x35 && data[i + 6] == 0x75;
    proof {
        let t = rest.take(7);
        let k = kitty();
        assert(forall|j: int| 0 <= j < 7 ==> t[j] == data@[i + j]);
        if r {
            assert(t =~= k);
        } else {
            assert(t[0] != k[0] || t[1] != k[1] || t[2] != k[2] || t[3] != k[3] || t[4] != k[4]
                || t[5] != k[5] || t[6] != k[6]);
        }
    }
    r
}

/// Replace the keyboard protocol's form of the detach key by the plain key, so
/// that the detach logic works with one representation.
pub fn normalize_detach_key(data: &[u8]) -> (r: Vec<u8>)
    ensures
        r@ == plain_keys(data@),
{
    let mut out: Vec<u8> = Vec::new();
    let mut i: usize = 0;
    assert(data@.skip(0) =~= data@);
    assert(out@ + plain_keys(data@) =~= plain_keys(data@));
    while i < data.len()
        invariant
            i <= data@.len(),
            out@ + plain_keys(data@.skip(i as int)) == plain_keys(data@),
        decreases data.len() - i,
    {
        let ghost rest = data@.skip(i as int);
        let ghost before = out@;
        if kitty_at(data, i) {
            out.push(DETACH_KEY);
            assert(rest.skip(7) =~= data@.skip(i + 7));
            assert(before + (seq![DETACH_KEY] + plain_keys(rest.skip(7))) =~= out@ + plain_keys(
                rest.skip(7),
            ));
            i += 7;
        } else {
            out.push(data[i]);
            assert(rest.skip(1) =~= data@.skip(i + 1));
            assert(before + (seq![rest[0]] + plain_keys(rest.skip(1))) =~= out@ + plain_keys(
                rest.skip(1),
            ));
            i += 1;
        }
    }
    assert(out@ + plain_keys(data@.skip(i as int)) =~= out@);
    out
}

/// The size to ask for: that of the terminal, or 24 rows of 80 columns where
/// there is none.
pub fn size_or_default(size: Option<(u16, u16)>) -> (r: (u16, u16))
    ensures
        r == (match size {
            Some(s) => s,
            None => (24u16, 80u16),
        }),
{
    match size {
        Some(s) => s,
        None => (24, 80),
    }
}

// ---- laws ----------------------------------------------------------------

/// Input that holds the long form of the detach key nowhere.
pub open spec fn all_plain(data: Seq<u8>) -> bool {
    forall|i: int| 0 <= i <= data.len() ==> !kitty_first(#[trigger] data.skip(i))
}

/// Up to the first detach key, normalised input is the input.
proof fn lemma_plain_beginning(data: Seq<u8>, n: int)
    requires
        0 <= n <= plain_keys(data).len(),
        forall|i: int| 0 <= i < n ==> #[trigger] plain_keys(data)[i] != DETACH_KEY,
    ensures
        n <= data.len(),
        data.take(n) == plain_keys(data).take(n),
    decreases n,
{
    let out = plain_keys(data);
    if n > 0 {
        assert(out[0] != DETACH_KEY);
        let rest = data.skip(1);
        let tail = plain_keys(rest);
        assert(out == seq![data[0]] + tail);
        assert forall|i: int| 0 <= i < n - 1 implies #[trigger] tail[i] != DETACH_KEY by {
            assert(out[i + 1] == tail[i]);
        }
        lemma_plain_beginning(rest, n - 1);
        assert forall|i: int| 0 <= i < n implies data.take(n)[i] == out.take(n)[i] by {
            if i > 0 {
                assert(rest.take(n - 1)[i - 1] == tail.take(n - 1)[i - 1]);
            }
        }
        assert(data.take(n) =~= out.take(n));
    } else {
        assert(data.take(0) =~= out.take(0));
    }
}

/// Normalised input does not begin with the long form.
proof fn lemma_plain_first(data: Seq<u8>)
    ensures
        !kitty_first(plain_keys(data)),
{
    let out = plain_keys(data);
    if kitty_first(out) {
        let k = kitty();
        assert(k[0] == 0x1b && k[1] == 0x5b && k[2] == 0x39 && k[3] == 0x32 && k[4] == 0x3b && k[5]
            == 0x35 && k[6] == 0x75);
        assert forall|i: int| 0 <= i < 7 implies #[trigger] out[i] != DETACH_KEY by {
            assert(out.take(7)[i] == k[i]);
        }
        lemma_plain_beginning(data, 7);
        assert(kitty_first(data));
        assert(out[0] == DETACH_KEY);
    }
}

/// Normalising leaves the long form of the detach key nowhere.
pub proof fn law_no_long_form_is_left(data: Seq<u8>)
    ensures
        all_plain(plain_keys(data)),
    decreases data.len(),
{
    let out = plain_keys(data);
    lemma_plain_first(data);
    if data.len() > 0 {
        let rest = if kitty_first(data) {
            data.skip(7)
        } else {
            data.skip(1)
        };
        law_no_long_form_is_left(rest);
        let tail = plain_keys(rest);
        assert forall|i: int| 0 <= i <= out.len() implies !kitty_first(#[trigger] out.skip(i)) by {
            if i == 0 {
                assert(out.skip(0) =~= out);
            } else {
                assert(out.skip(i) =~= tail.skip(i - 1));
            }
        }
    } else {
        assert forall|i: int| 0 <= i <= out.len() implies !kitty_first(#[trigger] out.skip(i)) by {
            assert(out.skip(i).len() == 0);
        }
    }
}

/// Input without the long form stays as it is.
pub proof fn law_plain_input_is_kept(data: Seq<u8>)
    requires
        all_plain(data),
    ensures
        plain_keys(data) == data,
    decreases data.len(),
{
    if data.len() > 0 {
        assert(data.skip(0) =~= data);
        let rest = data.skip(1);
        assert forall|i: int| 0 <= i <= rest.len() implies !kitty_first(#[trigger] rest.skip(i)) by {
            assert(rest.skip(i) =~= data.skip(i + 1));
        }
        law_plain_input_is_kept(rest);
        assert(seq![data[0]] + rest =~= data);
    } else {
        assert(data =~= Seq::<u8>::empty());
    }
}

/// Normalising twice is normalising once.
pub proof fn law_normalising_is_idempotent(data: Seq<u8>)
    ensures
        plain_keys(plain_keys(data)) == plain_keys(data),
{
    law_no_long_form_is_left(data);
    law_plain_input_is_kept(plain_keys(data));
}

/// Normalising replaces exactly the long form, `ESC [ 9 2 ; 5 u`, by the plain
/// key, byte 28: in front of what follows it, the one becomes the other, and a
/// byte that does not begin it stays.
pub proof fn law_long_form_becomes_the_key(rest: Seq<u8>, b: u8)
    ensures
        plain_keys(seq![0x1bu8, 0x5b, 0x39, 0x32, 0x3b, 0x35, 0x75] + rest) == seq![28u8]
            + plain_keys(rest),
        b != 0x1b ==> plain_keys(seq![b] + rest) == seq![b] + plain_keys(rest),
        plain_keys(Seq::empty()).len() == 0,
{
    let long = seq![0x1bu8, 0x5b, 0x39, 0x32, 0x3b, 0x35, 0x75];
    let s = long + rest;
    assert(s.take(7) =~= long);
    assert(s.skip(7) =~= rest);
    let t = seq![b] + rest;
    assert(t.skip(1) =~= rest);
    if b != 0x1b && t.len() >= 7 {
        assert(t.take(7)[0] == b);
        assert(kitty()[0] == 0x1b);
    }
}

} // verus!
