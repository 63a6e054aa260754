//! Packing of sample levels into bytes and back.
//!
//! A sample at bit depth `d` takes `d / 8` bytes. Its level is an integer whose
//! quotient by [`limit`] is the normalized amplitude; the quotient itself is
//! left to the caller, so that no resolution is lost here.

use vstd::prelude::*;
use vstd::arithmetic::div_mod::lemma_breakdown;

verus! {

/// The largest magnitude at each handled bit depth, and 0 at every other depth.
///
/// At 24 bits this is `2^24 - 1`, the whole unsigned range.
pub open spec fn limit_of(bit_depth: u32) -> u32 {
    if bit_depth == 8 {
        127
    } else if bit_depth == 16 {
        32767
    } else if bit_depth == 24 {
        16777215
    } else if bit_depth == 32 {
        2147483647
    } else {
        0
    }
}

/// Whether the codec handles `bit_depth`.
pub open spec fn handled(bit_depth: u32) -> bool {
    bit_depth == 8 || bit_depth == 16 || bit_depth == 24 || bit_depth == 32
}

/// `256^n`: one more than the largest value that `n` bytes hold.
pub open spec fn radix(n: nat) -> nat
    decreases n,
{
    if n == 0 {
        1
    } else {
        256 * radix((n - 1) as nat)
    }
}

/// The unsigned value of `bytes` read most significant byte first.
pub open spec fn be_value(bytes: Seq<u8>) -> nat
    decreases bytes.len(),
{
    if bytes.len() == 0 {
        0
    } else {
        256 * be_value(bytes.drop_last()) + bytes.last() as nat
    }
}

/// The level that an unsigned value stands for: values above `limit` are the
/// negative levels, counted down from `limit`.
pub open spec fn level_of(raw: nat, limit: nat) -> int {
    if raw > limit {
        -(raw - limit)
    } else {
        raw as int
    }
}

/// The level held by `bytes`, given most significant byte first.
pub open spec fn decoded(bytes: Seq<u8>, bit_depth: u32) -> int {
    level_of(be_value(bytes), limit_of(bit_depth) as nat)
}

/// The `n` low bytes of `x` in two's complement, least significant first.
pub open spec fn le_bytes(x: int, n: nat) -> Seq<u8>
    decreases n,
{
    if n == 0 {
        Seq::empty()
    } else {
        seq![(x % 256) as u8] + le_bytes(x / 256, (n - 1) as nat)
    }
}

/// The bytes that store `level` at `bit_depth`, least significant first.
pub open spec fn encoded(level: int, bit_depth: u32) -> Seq<u8> {
    le_bytes(level, (bit_depth / 8) as nat)
}

/// The largest magnitude of a level at `bit_depth`, or 0 if the depth is not handled.
#[verifier::when_used_as_spec(limit_of)]
pub fn limit(bit_depth: u32) -> (r: u32)
    ensures
        r == limit_of(bit_depth),
{
    if bit_depth == 8 {
        127
    } else if bit_depth == 16 {
        32767
    } else if bit_depth == 24 {
        16777215
    } else if bit_depth == 32 {
        2147483647
    } else {
        0
    }
}

/// Whether `bit_depth` is one of 8, 16, 24 and 32.
#[verifier::when_used_as_spec(handled)]
pub fn is_handled(bit_depth: u32) -> (r: bool)
    ensures
        r == handled(bit_depth),
{
    bit_depth == 8 || bit_depth == 16 || bit_depth == 24 || bit_depth == 32
}

/// `be_value` of a sequence grown by one byte at its end.
proof fn lemma_be_value_push(bytes: Seq<u8>, last: u8)
    ensures
        be_value(bytes.push(last)) == 256 * be_value(bytes) + last as nat,
{
    assert(bytes.push(last).drop_last() =~= bytes);
}

/// The first byte of `le_bytes` and the bytes after it.
pub proof fn lemma_le_bytes_shape(x: int, n: nat)
    ensures
        le_bytes(x, n).len() == n,
        n > 0 ==> le_bytes(x, n)[0] == (x % 256) as u8,
        n > 0 ==> le_bytes(x, n).drop_first() == le_bytes(x / 256, (n - 1) as nat),
    decreases n,
{
    if n > 0 {
        lemma_le_bytes_shape(x / 256, (n - 1) as nat);
        assert(le_bytes(x, n).drop_first() =~= le_bytes(x / 256, (n - 1) as nat));
    }
}

/// Adding a multiple of `256^n` to `x` leaves its `n` low bytes as they are.
proof fn lemma_le_bytes_periodic(x: int, c: int, n: nat)
    ensures
        le_bytes(x + c * radix(n), n) == le_bytes(x, n),
    decreases n,
{
    if n > 0 {
        let m = (n - 1) as nat;
        let step = c * radix(m);
        assert(c * radix(n) == 256 * step) by (nonlinear_arith)
            requires
                radix(n) == 256 * radix(m),
                step == c * radix(m),
        ;
        assert((x + 256 * step) % 256 == x % 256 && (x + 256 * step) / 256 == x / 256 + step)
            by (nonlinear_arith);
        lemma_le_bytes_periodic(x / 256, c, m);
    }
}

/// Reading the low bytes of a non-negative `x` back from the last one to the
/// first gives `x` modulo `256^n`.
proof fn lemma_reversed_le_bytes_value(x: int, n: nat)
    requires
        0 <= x,
    ensures
        be_value(le_bytes(x, n).reverse()) == x % (radix(n) as int),
    decreases n,
{
    lemma_radix_positive(n);
    if n == 0 {
        assert(le_bytes(x, n).reverse() =~= Seq::<u8>::empty());
    } else {
        let m = (n - 1) as nat;
        let rest = le_bytes(x / 256, m);
        let word = le_bytes(x, n);
        lemma_le_bytes_shape(x, n);
        lemma_le_bytes_shape(x / 256, m);
        lemma_radix_positive(m);
        assert(0 <= x / 256) by (nonlinear_arith)
            requires
                0 <= x,
        ;
        lemma_reversed_le_bytes_value(x / 256, m);
        assert(word.reverse() =~= rest.reverse().push((x % 256) as u8));
        lemma_be_value_push(rest.reverse(), (x % 256) as u8);
        lemma_breakdown(x, 256, radix(m) as int);
    }
}

/// `256^n` is at least 1.
proof fn lemma_radix_positive(n: nat)
    ensures
        radix(n) >= 1,
    decreases n,
{
    if n > 0 {
        lemma_radix_positive((n - 1) as nat);
    }
}

/// The values of `256^n` for the widths in use.
pub proof fn lemma_radix_values()
    ensures
        radix(0) == 1,
        radix(1) == 256,
        radix(2) == 65536,
        radix(3) == 16777216,
        radix(4) == 4294967296,
{
    reveal_with_fuel(radix, 5);
}

/// A level from 0 to the limit comes back: its bytes, read from the last one
/// to the first, hold it again. Where the bytes are the same in both
/// directions, as they are at 8 bits, the packed sample can be read as it is.
///
/// No negative level comes back, see [`law_negative_levels_fold`]. At 16, 24
/// and 32 bits the bytes are packed least significant first and read most
/// significant first, so they have to be turned round in between.
pub proof fn law_round_trip(level: int, bit_depth: u32)
    requires
        handled(bit_depth),
        0 <= level <= limit_of(bit_depth),
    ensures
        decoded(encoded(level, bit_depth).reverse(), bit_depth) == level,
        bit_depth == 8 ==> decoded(encoded(level, bit_depth), bit_depth) == level,
        encoded(level, bit_depth).reverse() == encoded(level, bit_depth) ==> decoded(
            encoded(level, bit_depth),
            bit_depth,
        ) == level,
{
    let n = (bit_depth / 8) as nat;
    lemma_radix_values();
    lemma_reversed_le_bytes_value(level, n);
    vstd::arithmetic::div_mod::lemma_small_mod(level as nat, radix(n));
    if bit_depth == 8 {
        lemma_le_bytes_shape(level, 1);
        assert(encoded(level, bit_depth).reverse() =~= encoded(level, bit_depth));
    }
}

/// What comes back for a negative level. Packing takes its two's complement
/// form and reading counts down from the limit, so at 8, 16 and 32 bits the
/// level `-m` comes back as `-(limit + 2 - m)`: the order of the negative
/// levels is turned round. At 24 bits, where the limit is the whole unsigned
/// range, it comes back as the positive level `2^24 - m`.
pub proof fn law_negative_levels_fold(level: int, bit_depth: u32)
    requires
        handled(bit_depth),
        -limit_of(bit_depth) <= level < 0,
    ensures
        bit_depth != 24 ==> decoded(encoded(level, bit_depth).reverse(), bit_depth) == -(level
            + limit_of(bit_depth) + 2),
        bit_depth == 24 ==> decoded(encoded(level, bit_depth).reverse(), bit_depth) == level
            + 16777216,
{
    let n = (bit_depth / 8) as nat;
    lemma_radix_values();
    let up = level + radix(n);
    assert(level + 1 * radix(n) == up);
    lemma_le_bytes_periodic(level, 1, n);
    lemma_reversed_le_bytes_value(up, n);
    vstd::arithmetic::div_mod::lemma_small_mod(up as nat, radix(n));
}

/// Reads the level that `bytes` hold at `bit_depth`, most significant byte first.
///
/// The unsigned value `raw` of the bytes stands for the level `raw` while it is
/// at most `limit(bit_depth)`, and for `-(raw - limit(bit_depth))` above that.
/// Nothing is read unless the depth is handled and `bytes` has its width.
pub fn decode(bytes: &[u8], bit_depth: u32) -> (r: Option<i32>)
    ensures
        r.is_some() <==> handled(bit_depth) && bytes@.len() == bit_depth / 8,
        r matches Some(level) ==> level == decoded(bytes@, bit_depth),
{
    if !is_handled(bit_depth) || bytes.len() != (bit_depth / 8) as usize {
        return None;
    }
    let n: usize = bytes.len();
    let mut raw: u64 = 0;
    let mut k: usize = 0;
    proof {
        lemma_radix_values();
        assert(bytes@.subrange(0, 0) =~= Seq::<u8>::empty());
    }
    while k < n
        invariant
            n == bytes@.len(),
            n <= 4,
            k <= n,
            raw == be_value(bytes@.subrange(0, k as int)),
            raw < radix(k as nat),
            radix(k as nat) <= 4294967296,
        decreases n - k,
    {
        proof {
            lemma_radix_values();
            let head = bytes@.subrange(0, k as int);
            assert(bytes@.subrange(0, k + 1) =~= head.push(bytes@[k as int]));
            lemma_be_value_push(head, bytes@[k as int]);
            assert(radix((k + 1) as nat) == 256 * radix(k as nat));
        }
        raw = raw * 256 + bytes[k] as u64;
        k = k + 1;
    }
    proof {
        assert(bytes@.subrange(0, n as int) =~= bytes@);
        lemma_radix_values();
    }
    let top: u64 = limit(bit_depth) as u64;
    if raw > top {
        let below: i64 = (raw - top) as i64;
        Some((0 - below) as i32)
    } else {
        Some(raw as i32)
    }
}

/// Packs `level` into the `bit_depth / 8` bytes that store it, least
/// significant first: the low bytes of its two's complement form.
///
/// Nothing is packed unless the depth is handled.
pub fn encode(level: i32, bit_depth: u32) -> (r: Option<Vec<u8>>)
    ensures
        r.is_some() <==> handled(bit_depth),
        r matches Some(bytes) ==> bytes@ == encoded(level as int, bit_depth),
{
    if !is_handled(bit_depth) {
        return None;
    }
    let n: usize = (bit_depth / 8) as usize;
    let unsigned: u64 = if level >= 0 {
        level as u64
    } else {
        (level as i64 + 4294967296) as u64
    };
    proof {
        lemma_radix_values();
        if level < 0 {
            let turns = radix((4 - n) as nat) as int;
            assert(turns * radix(n as nat) == 4294967296) by {
                assert(n == 1 || n == 2 || n == 3 || n == 4);
            }
            lemma_le_bytes_periodic(level as int, turns, n as nat);
        }
    }
    let mut out: Vec<u8> = Vec::new();
    let mut rest: u64 = unsigned;
    let mut k: usize = 0;
    while k < n
        invariant
            k <= n,
            out@ + le_bytes(rest as int, (n - k) as nat) == le_bytes(level as int, n as nat),
        decreases n - k,
    {
        out.push((rest % 256) as u8);
        rest = rest / 256;
        k = k + 1;
    }
    Some(out)
}

} // verus!
