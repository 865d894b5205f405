//! Atomic file publication: `<path>.tmp.<pid>.<16 hex>` is written in the same
//! directory and renamed over the target. Readers see the old file or the new
//! one, never a torn one in between.

use crate::text::{dec, has_at, matches_at, to_chars, u64_string};
use vstd::prelude::*;

verus! {

/// A hexadecimal digit, in lower case.
pub open spec fn hex_char(d: int) -> char {
    if d < 10 {
        (48 + d) as char
    } else {
        (87 + d) as char
    }
}

/// Two hexadecimal digits per byte.
pub open spec fn hex_of(bytes: Seq<u8>) -> Seq<char>
    decreases bytes.len(),
{
    if bytes.len() == 0 {
        Seq::empty()
    } else {
        hex_of(bytes.drop_last()).push(hex_char(bytes.last() as int / 16)).push(
            hex_char(bytes.last() as int % 16),
        )
    }
}

fn hex_digit(d: u8) -> (c: char)
    requires
        d < 16,
    ensures
        c == hex_char(d as int),
{
    if d < 10 {
        (48 + d) as char
    } else {
        (87 + d) as char
    }
}

/// What the state of the mixer moves on by for each byte.
pub const MIX_STEP: u64 = 0x9E37_79B9_7F4A_7C15;

/// The state that the mixer starts from.
pub open spec fn mix_seed(nanos: u64, pid: u32, count: u64) -> u64 {
    nanos ^ (pid as u64).wrapping_mul(MIX_STEP) ^ count
}

/// The state of the mixer after `n` steps.
pub open spec fn mix_state(seed: u64, n: int) -> u64
    decreases n,
{
    if n <= 0 {
        seed
    } else {
        mix_state(seed, n - 1).wrapping_add(MIX_STEP)
    }
}

/// A state, mixed: each bit depends on all of them.
pub open spec fn mixed(state: u64) -> u64 {
    let a = (state ^ (state >> 30)).wrapping_mul(0xBF58_476D_1CE4_E5B9);
    let b = (a ^ (a >> 27)).wrapping_mul(0x94D0_49BB_1331_11EB);
    b ^ (b >> 31)
}

/// The byte that the mixer gives at each step: the lowest of the mixed state.
pub open spec fn mixed_bytes(seed: u64, n: nat) -> Seq<u8> {
    Seq::new(n, |i: int| (mixed(mix_state(seed, i + 1)) & 0xff) as u8)
}

/// Bytes for a machine without a source of randomness, from the time in
/// nanoseconds, the id of the process and a count that differs with each call.
pub fn fallback_bytes(nanos: u64, pid: u32, count: u64, n: usize) -> (r: Vec<u8>)
    ensures
        r@ == mixed_bytes(mix_seed(nanos, pid, count), n as nat),
{
    let seed: u64 = nanos ^ (pid as u64).wrapping_mul(MIX_STEP) ^ count;
    let mut state: u64 = seed;
    let mut out: Vec<u8> = Vec::new();
    let ghost want = mixed_bytes(seed, n as nat);
    let mut i: usize = 0;
    while i < n
        invariant
            i <= n,
            want == mixed_bytes(seed, n as nat),
            state == mix_state(seed, i as int),
            out@ == want.take(i as int),
        decreases n - i,
    {
        state = state.wrapping_add(MIX_STEP);
        let a: u64 = (state ^ (state >> 30)).wrapping_mul(0xBF58_476D_1CE4_E5B9);
        let b: u64 = (a ^ (a >> 27)).wrapping_mul(0x94D0_49BB_1331_11EB);
        let z: u64 = b ^ (b >> 31);
        out.push((z & 0xff) as u8);
        assert(want.take(i + 1) =~= want.take(i as int).push(want[i as int]));
        i += 1;
    }
    assert(want.take(n as int) =~= want);
    out
}

/// Random bytes in hexadecimal: sixteen characters for eight bytes.
pub fn random_hex16(bytes: &[u8]) -> (r: String)
    ensures
        r@ == hex_of(bytes@),
{
    let mut out = String::new();
    let mut i: usize = 0;
    assert(out@ =~= hex_of(bytes@.take(0)));
    while i < bytes.len()
        invariant
            i <= bytes@.len(),
            out@ == hex_of(bytes@.take(i as int)),
        decreases bytes.len() - i,
    {
        assert(bytes@.take(i + 1).drop_last() =~= bytes@.take(i as int));
        out.push(hex_digit(bytes[i] / 16));
        out.push(hex_digit(bytes[i] % 16));
        i += 1;
    }
    assert(bytes@.take(bytes@.len() as int) =~= bytes@);
    out
}

/// The temporary name that an atomic write of `target` uses, from the writer's
/// pid and random bytes.
pub fn tmp_path_for(target: &str, pid: u32, random: &[u8]) -> (r: String)
    ensures
        r@ == target@ + ".tmp."@ + dec(pid as nat) + "."@ + hex_of(random@),
{
    let mut out = target.to_owned();
    let id = u64_string(pid as u64);
    let hex = random_hex16(random);
    out.append(".tmp.");
    out.append(id.as_str());
    out.append(".");
    out.append(hex.as_str());
    out
}

/// Whether `.tmp.` occurs in a file name.
pub open spec fn holds_tmp(file: Seq<char>) -> bool {
    exists|i: int| matches_at(file, i, ".tmp."@)
}

/// Does a file name belong to an atomic write that is under way?
pub fn is_tmp_name(file_name: &str) -> (r: bool)
    ensures
        r == holds_tmp(file_name@),
{
    let v = to_chars(file_name);
    let p = to_chars(".tmp.");
    let mut i: usize = 0;
    while i < v.len()
        invariant
            i <= v@.len(),
            v@ == file_name@,
            p@ == ".tmp."@,
            forall|j: int| 0 <= j < i ==> !matches_at(v@, j, p@),
        decreases v.len() - i,
    {
        if has_at(v.as_slice(), i, p.as_slice()) {
            assert(matches_at(file_name@, i as int, ".tmp."@));
            return true;
        }
        i += 1;
    }
    proof {
        reveal_strlit(".tmp.");
        assert(p@.len() == 5);
        assert forall|j: int| !matches_at(file_name@, j, ".tmp."@) by {
            if 0 <= j < v@.len() {
                assert(!matches_at(v@, j, p@));
            }
        }
    }
    false
}

/// A temporary name is always recognised as one.
pub proof fn law_tmp_names_are_recognised(target: Seq<char>, rest: Seq<char>)
    ensures
        holds_tmp(target + ".tmp."@ + rest),
{
    let s = target + ".tmp."@ + rest;
    let at = target.len() as int;
    assert(s.subrange(at, at + ".tmp."@.len()) =~= ".tmp."@);
    assert(matches_at(s, at, ".tmp."@));
}

/// Each byte is two digits, the high half first, and a digit from ten on is a
/// small letter.
pub proof fn law_hexadecimal(bytes: Seq<u8>, b: u8, d: int)
    requires
        0 <= d < 16,
    ensures
        hex_of(Seq::empty()).len() == 0,
        hex_of(bytes.push(b)) == hex_of(bytes) + seq![
            hex_char(b as int / 16),
            hex_char(b as int % 16),
        ],
        hex_of(bytes).len() == 2 * bytes.len(),
        d < 10 ==> hex_char(d) == ('0' as int + d) as char,
        d >= 10 ==> hex_char(d) == ('a' as int + d - 10) as char,
    decreases bytes.len(),
{
    assert(bytes.push(b).drop_last() =~= bytes);
    assert(hex_of(bytes.push(b)) =~= hex_of(bytes) + seq![
        hex_char(b as int / 16),
        hex_char(b as int % 16),
    ]);
    if bytes.len() > 0 {
        law_hexadecimal(bytes.drop_last(), bytes.last(), d);
        assert(bytes.drop_last().push(bytes.last()) =~= bytes);
    }
}

/// The bytes that stand in for random ones: each comes from its own state, a
/// fixed odd number apart, and more bytes begin with fewer.
pub proof fn law_mixed_bytes(seed: u64, n: nat, k: int)
    requires
        0 <= k < n,
    ensures
        mixed_bytes(seed, n).len() == n,
        mixed_bytes(seed, n)[k] == (mixed(mix_state(seed, k + 1)) & 0xff) as u8,
        mix_state(seed, 0) == seed,
        mix_state(seed, k + 1) == mix_state(seed, k).wrapping_add(0x9E37_79B9_7F4A_7C15),
        forall|m: nat| n <= m ==> #[trigger] mixed_bytes(seed, m).take(n as int) == mixed_bytes(
            seed,
            n,
        ),
{
    assert forall|m: nat| n <= m implies #[trigger] mixed_bytes(seed, m).take(n as int)
        == mixed_bytes(seed, n) by {
        assert(mixed_bytes(seed, m).take(n as int) =~= mixed_bytes(seed, n));
    }
}

/// The three steps of the mixing: shift and multiply, shift and multiply,
/// shift.
pub proof fn law_mixing(state: u64, a: u64, b: u64, nanos: u64, pid: u32, count: u64)
    requires
        a == (state ^ (state >> 30)).wrapping_mul(0xBF58_476D_1CE4_E5B9),
        b == (a ^ (a >> 27)).wrapping_mul(0x94D0_49BB_1331_11EB),
    ensures
        mixed(state) == b ^ (b >> 31),
        mix_seed(nanos, pid, count) == nanos ^ (pid as u64).wrapping_mul(0x9E37_79B9_7F4A_7C15)
            ^ count,
{
}

/// A file without `.tmp.` in its name is no temporary file.
pub proof fn law_only_tmp_names_are_recognised(file: Seq<char>)
    ensures
        holds_tmp(file) <==> exists|a: Seq<char>, b: Seq<char>| file == a + ".tmp."@ + b,
{
    if holds_tmp(file) {
        let i = choose|i: int| matches_at(file, i, ".tmp."@);
        let (a, b) = (file.take(i), file.skip(i + ".tmp."@.len()));
        assert(file =~= a + ".tmp."@ + b);
    }
    if exists|a: Seq<char>, b: Seq<char>| file == a + ".tmp."@ + b {
        let (a, b) = choose|a: Seq<char>, b: Seq<char>| file == a + ".tmp."@ + b;
        law_tmp_names_are_recognised(a, b);
    }
}

} // verus!
