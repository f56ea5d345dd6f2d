//! Token estimates: how much of a model's context a text takes.

use crate::numeral::{byte_count, byte_len};
use vstd::arithmetic::power2::{lemma_pow2, lemma_pow2_strictly_increases, lemma_pow2_unfold, pow2};
use vstd::prelude::*;

verus! {

/// A power of two lies strictly between `11 * k` and `16 * k`.
pub open spec fn power_between(k: nat) -> bool {
    exists|e: nat| 11 * k < #[trigger] pow2(e) && pow2(e) < 16 * k
}

/// The estimate for a text of `len` bytes: `len / 3.75 * 1.1`, rounded up, in
/// double precision.
///
/// That is 22 tokens for each 75 bytes, rounded up. The double nearest to 1.1
/// lies a little above it, so that a multiple of 75 bytes is rounded up once
/// more where the product does not round back to the integer.
pub open spec fn token_estimate(len: nat) -> nat {
    if len % 75 != 0 {
        (22 * len + 74) / 75
    } else if power_between(len / 75) {
        22 * (len / 75) + 1
    } else {
        22 * (len / 75)
    }
}

/// An estimate is never more than the number of bytes.
pub proof fn lemma_estimate_bound(len: nat)
    ensures
        token_estimate(len) <= len,
{
    if len % 75 == 0 && len / 75 == 0 && power_between(0) {
        assert(false);
    }
}

fn has_power_between(k: u128) -> (r: bool)
    requires
        k <= u64::MAX,
    ensures
        r == power_between(k as nat),
{
    let mut p: u128 = 1;
    let ghost mut e: nat = 0;
    proof {
        lemma_pow2(0);
        vstd::arithmetic::power::lemma_pow0(2);
    }
    while p <= 11 * k
        invariant
            k <= u64::MAX,
            p == pow2(e),
            e == 0 || pow2((e - 1) as nat) <= 11 * k,
            p >= 1,
            p <= 22 * k + 1,
        decreases 22 * k + 1 - p,
    {
        proof {
            e = e + 1;
            lemma_pow2_unfold(e);
        }
        p = p * 2;
    }
    proof {
        if p < 16 * k {
            assert(11 * k < pow2(e) && pow2(e) < 16 * k);
        } else if power_between(k as nat) {
            let f = choose|f: nat| 11 * k < #[trigger] pow2(f) && pow2(f) < 16 * k;
            if f > e {
                lemma_pow2_strictly_increases(e, f);
            } else if f < e {
                if f < e - 1 {
                    lemma_pow2_strictly_increases(f, (e - 1) as nat);
                }
            }
        }
    }
    p < 16 * k
}

/// The estimate for a text of `len` bytes.
pub fn estimate_for_bytes(len: usize) -> (r: usize)
    ensures
        r == token_estimate(len as nat),
{
    let n: u128 = len as u128;
    proof {
        lemma_estimate_bound(len as nat);
    }
    if n % 75 != 0 {
        ((22 * n + 74) / 75) as usize
    } else if has_power_between(n / 75) {
        (22 * (n / 75) + 1) as usize
    } else {
        (22 * (n / 75)) as usize
    }
}

/// The estimate for a text.
pub open spec fn text_tokens(s: Seq<char>) -> nat {
    token_estimate(byte_len(s))
}

/// The estimate for a text.
pub fn estimate_for_text(s: &str) -> (r: usize)
    ensures
        r == text_tokens(s@),
{
    estimate_for_bytes(byte_count(s))
}

/// The estimate for a text, no more than a `u32` can hold.
pub open spec fn text_tokens_u32(s: Seq<char>) -> nat {
    if text_tokens(s) <= u32::MAX {
        text_tokens(s)
    } else {
        u32::MAX as nat
    }
}

/// The estimate for a text, no more than a `u32` can hold.
pub fn estimate_for_text_u32(s: &str) -> (r: u32)
    ensures
        r == text_tokens_u32(s@),
{
    let n: usize = estimate_for_text(s);
    if n as u64 <= u32::MAX as u64 {
        n as u32
    } else {
        u32::MAX
    }
}

// ── Laws ───────────────────────────────────────────────────────────────────
/// An estimate is the number of bytes times 22 over 75, rounded up, or one more where that
/// is a whole number; no text costs nothing but the empty one.
pub proof fn law_estimates_follow_the_length(len: nat)
    ensures
        22 * len <= 75 * token_estimate(len) <= 22 * len + 75,
        len % 75 != 0 ==> 75 * token_estimate(len) < 22 * len + 75,
        token_estimate(len) == 0 <==> len == 0,
{
    if power_between(0) {
        assert(false);
    }
}

/// A longer text never costs less.
pub proof fn law_longer_texts_cost_no_less(a: nat, b: nat)
    requires
        a <= b,
    ensures
        token_estimate(a) <= token_estimate(b),
{
}

} // verus!
