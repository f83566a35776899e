//! Modular 32-bit sequence-number arithmetic.
//!
//! TCP sequence numbers wrap at 2^32. Two sequence numbers are compared by
//! the sign of their 32-bit difference, never by `<` on the raw values.

use vstd::prelude::*;

verus! {

/// Number of distinct sequence numbers.
pub open spec fn seq_space() -> int {
    0x1_0000_0000
}

/// The sequence number `n` steps after `a`, wrapping at 2^32.
pub open spec fn seq_add(a: u32, n: int) -> u32 {
    ((a as int + n) % seq_space()) as u32
}

/// Signed distance from `b` to `a`: the difference `a - b` mod 2^32, read as
/// a two's-complement 32-bit value. Positive means `a` is ahead of `b`.
pub open spec fn seq_diff(a: u32, b: u32) -> int {
    let d = (a as int - b as int) % seq_space();
    if d >= 0x8000_0000 {
        d - seq_space()
    } else {
        d
    }
}

/// A byte count reduced to the 32 bits that sequence arithmetic keeps.
pub open spec fn len_mod(n: int) -> u32 {
    (n % seq_space()) as u32
}

/// Signed modular distance from `b` to `a`.
pub fn seq_delta(a: u32, b: u32) -> (d: i32)
    ensures
        d as int == seq_diff(a, b),
{
    let w: u32 = a.wrapping_sub(b);
    if w >= 0x8000_0000 {
        let m: u32 = u32::MAX - w;
        -(m as i32) - 1
    } else {
        w as i32
    }
}

/// A length as the 32-bit quantity added to a sequence number.
pub fn len32(n: usize) -> (r: u32)
    ensures
        r == len_mod(n as int),
{
    let wide: u64 = n as u64;
    let low: u64 = wide % 0x1_0000_0000u64;
    low as u32
}

/// Advances `a` by `n` bytes, wrapping at 2^32.
pub fn seq_advance(a: u32, n: usize) -> (r: u32)
    ensures
        r == seq_add(a, n as int),
{
    let r: u32 = a.wrapping_add(len32(n));
    proof {
        lemma_add_len_mod(a, n as int);
    }
    r
}

/// Adding the reduced length is the same as adding the length.
pub proof fn lemma_add_len_mod(a: u32, n: int)
    requires
        0 <= n,
    ensures
        seq_add(a, len_mod(n) as int) == seq_add(a, n),
{
    let m: int = seq_space();
    assert((a as int + n % m) % m == (a as int + n) % m) by {
        vstd::arithmetic::div_mod::lemma_add_mod_noop_right(a as int, n, m);
    }
}

/// Advancing by `x` and then by `y` is advancing by `x + y`.
pub proof fn lemma_seq_add_add(a: u32, x: int, y: int)
    requires
        0 <= x,
        0 <= y,
    ensures
        seq_add(seq_add(a, x), y) == seq_add(a, x + y),
{
    let m: int = seq_space();
    let k: int = (a as int + x) / m;
    assert((a as int + x) % m == a as int + x - k * m);
    assert(((a as int + x) % m + y) % m == (a as int + x + y) % m) by {
        vstd::arithmetic::div_mod::lemma_mod_multiples_vanish(-k, a as int + x + y, m);
    }
}

/// Advancing by zero changes nothing.
pub proof fn lemma_seq_add_zero(a: u32)
    ensures
        seq_add(a, 0) == a,
{
}

/// A sequence number `n` steps ahead, with `n` below 2^31, is ahead by `n`.
pub proof fn lemma_seq_diff_add(a: u32, n: int)
    requires
        0 <= n < 0x8000_0000,
    ensures
        seq_diff(seq_add(a, n), a) == n,
{
    let m: int = seq_space();
    let s: int = a as int + n;
    if s < m {
        assert(s % m == s);
    } else {
        assert(s % m == s - m) by {
            vstd::arithmetic::div_mod::lemma_fundamental_div_mod_converse(s, m, 1, s - m);
        }
    }
}

/// The distance is zero exactly between equal sequence numbers.
pub proof fn lemma_seq_diff_zero(a: u32, b: u32)
    ensures
        seq_diff(a, b) == 0 <==> a == b,
{
    let m: int = seq_space();
    let x: int = a as int - b as int;
    if x >= 0 {
        assert(x % m == x);
    } else {
        assert(x % m == x + m) by {
            vstd::arithmetic::div_mod::lemma_fundamental_div_mod_converse(x, m, -1, x + m);
        }
    }
}

/// How far `seq` lies after `base`, counting around the sequence space.
pub open spec fn offset_of(base: u32, seq: u32) -> int {
    (seq as int - base as int) % seq_space()
}

/// Reduction of a number between `-2^32` and `2 * 2^32`.
pub proof fn lemma_mod_range(x: int)
    requires
        -seq_space() <= x < 2 * seq_space(),
    ensures
        x % seq_space() == if x < 0 {
            x + seq_space()
        } else if x < seq_space() {
            x
        } else {
            x - seq_space()
        },
{
    let m: int = seq_space();
    if x < 0 {
        vstd::arithmetic::div_mod::lemma_fundamental_div_mod_converse(x, m, -1, x + m);
    } else if x < m {
        vstd::arithmetic::div_mod::lemma_fundamental_div_mod_converse(x, m, 0, x);
    } else {
        vstd::arithmetic::div_mod::lemma_fundamental_div_mod_converse(x, m, 1, x - m);
    }
}

/// The offset of the sequence number `n` steps after `base` is `n`.
pub proof fn lemma_offset_of_add(base: u32, n: int)
    requires
        0 <= n < seq_space(),
    ensures
        offset_of(base, seq_add(base, n)) == n,
{
    lemma_mod_range(base as int + n);
    lemma_mod_range(seq_add(base, n) as int - base as int);
}

/// A sequence number is its offset after the base.
pub proof fn lemma_add_offset_of(base: u32, seq: u32)
    ensures
        0 <= offset_of(base, seq) < seq_space(),
        seq_add(base, offset_of(base, seq)) == seq,
{
    lemma_mod_range(seq as int - base as int);
    lemma_mod_range(base as int + offset_of(base, seq));
}

/// Two sequence numbers whose offsets after a common base differ by less
/// than 2^31 are as far apart as their offsets.
pub proof fn lemma_seq_diff_offsets(base: u32, a: u32, b: u32)
    requires
        -0x8000_0000 <= offset_of(base, a) - offset_of(base, b) < 0x8000_0000,
    ensures
        seq_diff(a, b) == offset_of(base, a) - offset_of(base, b),
{
    lemma_mod_range(a as int - base as int);
    lemma_mod_range(b as int - base as int);
    lemma_mod_range(a as int - b as int);
}

} // verus!
