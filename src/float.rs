//! Uniform random numbers in the open interval (0, 1), built as an integer
//! significand and a power-of-two exponent.
//!
//! A draw of a full-width word gives the top bits of a binary fraction; a
//! word of zeros moves the exponent down a full width and draws again. The
//! leading zeros of the first nonzero word are moved into the exponent, and
//! the bits they leave free at the bottom are filled from a fresh word, so no
//! bit of the significand is padding. The lowest bit is then set (the sticky
//! bit). The number is `significand * 2^exponent`; it is never 0, and never
//! reaches 1 since the significand is below `2^width` and the exponent at most
//! `-width`. A source that draws only zero words as far as the format's
//! smallest exponent is treated as broken, and no number is made.
use vstd::arithmetic::power2::{lemma2_to64, lemma_pow2_strictly_increases, pow2};
use vstd::prelude::*;
use vstd::std_specs::bits::{axiom_u32_leading_zeros, axiom_u64_leading_zeros, u32_leading_zeros, u64_leading_zeros};

use crate::{after_draws, drawn_u32, drawn_u64, Random};

verus! {

/// How many zero `u64` words end the search for a 64-bit number: one more
/// would take its exponent below the smallest, `-1074`.
pub const F64_ZERO_DRAW_LIMIT: u64 = 16;

/// How many zero `u32` words end the search for a 32-bit number: one more
/// would take its exponent below the smallest, `-149`.
pub const F32_ZERO_DRAW_LIMIT: u64 = 4;

/// The index of the first nonzero `u64` drawn from `s` at or after `from`,
/// and below `limit`.
pub open spec fn first_nonzero_u64<R: Random>(s: R, from: nat, limit: nat) -> Option<nat>
    decreases limit - from,
{
    if from >= limit {
        None
    } else if drawn_u64(s, from) != 0 {
        Some(from)
    } else {
        first_nonzero_u64(s, from + 1, limit)
    }
}

/// The index of the first nonzero `u32` drawn from `s` at or after `from`,
/// and below `limit`.
pub open spec fn first_nonzero_u32<R: Random>(s: R, from: nat, limit: nat) -> Option<nat>
    decreases limit - from,
{
    if from >= limit {
        None
    } else if drawn_u32(s, from) != 0 {
        Some(from)
    } else {
        first_nonzero_u32(s, from + 1, limit)
    }
}

/// The significand and exponent of a 64-bit number drawn from `s`, and the
/// source after it; `None` for a source that drew only zero words.
pub open spec fn unit_f64_outcome<R: Random>(s: R) -> (Option<(u64, i32)>, R) {
    match first_nonzero_u64(s, 0, F64_ZERO_DRAW_LIMIT as nat) {
        None => (None, after_draws(s, 8, F64_ZERO_DRAW_LIMIT as nat)),
        Some(k) => {
            let w = drawn_u64(s, k);
            let shift = u64_leading_zeros(w);
            let exponent = -64 * (k + 1) - shift;
            if shift > 0 {
                let refill = drawn_u64(s, k + 1) >> (64 - shift) as u32;
                (
                    Some((((w << shift as u32) | refill) | 1u64, exponent as i32)),
                    after_draws(s, 8, k + 2),
                )
            } else {
                (Some((w | 1u64, exponent as i32)), after_draws(s, 8, k + 1))
            }
        },
    }
}

/// The significand and exponent of a 32-bit number drawn from `s`, and the
/// source after it; `None` for a source that drew only zero words.
pub open spec fn unit_f32_outcome<R: Random>(s: R) -> (Option<(u32, i32)>, R) {
    match first_nonzero_u32(s, 0, F32_ZERO_DRAW_LIMIT as nat) {
        None => (None, after_draws(s, 4, F32_ZERO_DRAW_LIMIT as nat)),
        Some(k) => {
            let w = drawn_u32(s, k);
            let shift = u32_leading_zeros(w);
            let exponent = -32 * (k + 1) - shift;
            if shift > 0 {
                let refill = drawn_u32(s, k + 1) >> (32 - shift) as u32;
                (
                    Some((((w << shift) | refill) | 1u32, exponent as i32)),
                    after_draws(s, 4, k + 2),
                )
            } else {
                (Some((w | 1u32, exponent as i32)), after_draws(s, 4, k + 1))
            }
        },
    }
}

proof fn lemma_no_nonzero_u64<R: Random>(s: R, from: nat, limit: nat)
    requires
        from <= limit,
        forall|i: nat| from <= i < limit ==> #[trigger] drawn_u64(s, i) == 0,
    ensures
        first_nonzero_u64(s, from, limit) is None,
    decreases limit - from,
{
    if from < limit {
        lemma_no_nonzero_u64(s, from + 1, limit);
    }
}

proof fn lemma_first_nonzero_u64<R: Random>(s: R, from: nat, k: nat, limit: nat)
    requires
        from <= k < limit,
        drawn_u64(s, k) != 0,
        forall|i: nat| from <= i < k ==> #[trigger] drawn_u64(s, i) == 0,
    ensures
        first_nonzero_u64(s, from, limit) == Some(k),
    decreases k - from,
{
    if from < k {
        lemma_first_nonzero_u64(s, from + 1, k, limit);
    }
}

proof fn lemma_no_nonzero_u32<R: Random>(s: R, from: nat, limit: nat)
    requires
        from <= limit,
        forall|i: nat| from <= i < limit ==> #[trigger] drawn_u32(s, i) == 0,
    ensures
        first_nonzero_u32(s, from, limit) is None,
    decreases limit - from,
{
    if from < limit {
        lemma_no_nonzero_u32(s, from + 1, limit);
    }
}

proof fn lemma_first_nonzero_u32<R: Random>(s: R, from: nat, k: nat, limit: nat)
    requires
        from <= k < limit,
        drawn_u32(s, k) != 0,
        forall|i: nat| from <= i < k ==> #[trigger] drawn_u32(s, i) == 0,
    ensures
        first_nonzero_u32(s, from, limit) == Some(k),
    decreases k - from,
{
    if from < k {
        lemma_first_nonzero_u32(s, from + 1, k, limit);
    }
}

/// Draws the significand and exponent of a uniform 64-bit number in (0, 1):
/// the number is `significand * 2^exponent`. `None` when the source drew
/// only zero words, down to the smallest exponent.
pub fn unit_f64_parts<R: Random>(rand: &mut R) -> (r: Option<(u64, i32)>)
    requires
        old(rand).reliable(),
    ensures
        (r, *final(rand)) == unit_f64_outcome(*old(rand)),
        final(rand).reliable(),
{
    let ghost s0 = *rand;
    let mut exponent: i32 = -64;
    let mut significand = rand.get_u64();
    let mut broken = false;
    let ghost mut j: nat = 0;
    assert(after_draws(s0, 8, 0) == s0);
    assert(*rand == after_draws(s0, 8, 1));
    while significand == 0 && !broken
        invariant
            rand.reliable(),
            j < F64_ZERO_DRAW_LIMIT,
            significand == drawn_u64(s0, j),
            *rand == after_draws(s0, 8, j + 1),
            forall|i: nat| i < j ==> #[trigger] drawn_u64(s0, i) == 0,
            !broken ==> exponent == -64 * (j + 1),
            broken ==> significand == 0 && j + 1 == F64_ZERO_DRAW_LIMIT,
        decreases 2 * (F64_ZERO_DRAW_LIMIT - j) + if broken { 0int } else { 1int },
    {
        exponent -= 64;
        if exponent < -1074 {
            broken = true;
        } else {
            significand = rand.get_u64();
            assert(*rand == after_draws(s0, 8, j + 2));
            proof {
                j = j + 1;
            }
        }
    }
    if broken {
        proof {
            lemma_no_nonzero_u64(s0, 0, F64_ZERO_DRAW_LIMIT as nat);
        }
        return None;
    }
    proof {
        lemma_first_nonzero_u64(s0, 0, j, F64_ZERO_DRAW_LIMIT as nat);
        axiom_u64_leading_zeros(significand);
    }
    let shift = significand.leading_zeros();
    if shift > 0 {
        exponent -= shift as i32;
        significand = significand << shift;
        let fresh = rand.get_u64();
        assert(fresh == drawn_u64(s0, j + 1));
        assert(*rand == after_draws(s0, 8, j + 2));
        significand = significand | (fresh >> (64 - shift));
    }
    significand = significand | 1u64;
    Some((significand, exponent))
}

/// Draws the significand and exponent of a uniform 32-bit number in (0, 1):
/// the number is `significand * 2^exponent`. `None` when the source drew
/// only zero words, down to the smallest exponent.
pub fn unit_f32_parts<R: Random>(rand: &mut R) -> (r: Option<(u32, i32)>)
    requires
        old(rand).reliable(),
    ensures
        (r, *final(rand)) == unit_f32_outcome(*old(rand)),
        final(rand).reliable(),
{
    let ghost s0 = *rand;
    let mut exponent: i32 = -32;
    let mut significand = rand.get_u32();
    let mut broken = false;
    let ghost mut j: nat = 0;
    assert(after_draws(s0, 4, 0) == s0);
    assert(*rand == after_draws(s0, 4, 1));
    while significand == 0 && !broken
        invariant
            rand.reliable(),
            j < F32_ZERO_DRAW_LIMIT,
            significand == drawn_u32(s0, j),
            *rand == after_draws(s0, 4, j + 1),
            forall|i: nat| i < j ==> #[trigger] drawn_u32(s0, i) == 0,
            !broken ==> exponent == -32 * (j + 1),
            broken ==> significand == 0 && j + 1 == F32_ZERO_DRAW_LIMIT,
        decreases 2 * (F32_ZERO_DRAW_LIMIT - j) + if broken { 0int } else { 1int },
    {
        exponent -= 32;
        if exponent < -149 {
            broken = true;
        } else {
            significand = rand.get_u32();
            assert(*rand == after_draws(s0, 4, j + 2));
            proof {
                j = j + 1;
            }
        }
    }
    if broken {
        proof {
            lemma_no_nonzero_u32(s0, 0, F32_ZERO_DRAW_LIMIT as nat);
        }
        return None;
    }
    proof {
        lemma_first_nonzero_u32(s0, 0, j, F32_ZERO_DRAW_LIMIT as nat);
        axiom_u32_leading_zeros(significand);
    }
    let shift = significand.leading_zeros();
    if shift > 0 {
        exponent -= shift as i32;
        significand = significand << shift;
        let fresh = rand.get_u32();
        assert(fresh == drawn_u32(s0, j + 1));
        assert(*rand == after_draws(s0, 4, j + 2));
        significand = significand | (fresh >> (32 - shift));
    }
    significand = significand | 1u32;
    Some((significand, exponent))
}


proof fn lemma_first_nonzero_u64_range<R: Random>(s: R, from: nat, limit: nat)
    ensures
        first_nonzero_u64(s, from, limit) matches Some(k) ==> from <= k < limit,
    decreases limit - from,
{
    if from < limit && drawn_u64(s, from) == 0 {
        lemma_first_nonzero_u64_range(s, from + 1, limit);
    }
}

proof fn lemma_first_nonzero_u32_range<R: Random>(s: R, from: nat, limit: nat)
    ensures
        first_nonzero_u32(s, from, limit) matches Some(k) ==> from <= k < limit,
    decreases limit - from,
{
    if from < limit && drawn_u32(s, from) == 0 {
        lemma_first_nonzero_u32_range(s, from + 1, limit);
    }
}

/// Every 64-bit number drawn lies strictly between 0 and 1: its significand
/// is odd, so not 0, and below `2^-exponent`, with an exponent of at most -64.
pub proof fn lemma_unit_f64_in_open_interval<R: Random>(s: R)
    ensures
        unit_f64_outcome(s).0 matches Some(p) ==> {
            &&& p.0 % 2 == 1
            &&& p.1 <= -64
            &&& (p.0 as int) < pow2((-p.1) as nat)
        },
{
    lemma_first_nonzero_u64_range(s, 0, F64_ZERO_DRAW_LIMIT as nat);
    if let Some(k) = first_nonzero_u64(s, 0, F64_ZERO_DRAW_LIMIT as nat) {
        let w = drawn_u64(s, k);
        axiom_u64_leading_zeros(w);
        let p = unit_f64_outcome(s).0->0;
        let x = if u64_leading_zeros(w) > 0 {
            (w << u64_leading_zeros(w) as u32) | (drawn_u64(s, k + 1) >> (64
                - u64_leading_zeros(w)) as u32)
        } else {
            w
        };
        assert(p.0 == x | 1u64);
        assert((x | 1u64) % 2 == 1) by (bit_vector);
        lemma2_to64();
        if -p.1 > 64 {
            lemma_pow2_strictly_increases(64, (-p.1) as nat);
        }
    }
}

/// Every 32-bit number drawn lies strictly between 0 and 1: its significand
/// is odd, so not 0, and below `2^-exponent`, with an exponent of at most -32.
pub proof fn lemma_unit_f32_in_open_interval<R: Random>(s: R)
    ensures
        unit_f32_outcome(s).0 matches Some(p) ==> {
            &&& p.0 % 2 == 1
            &&& p.1 <= -32
            &&& (p.0 as int) < pow2((-p.1) as nat)
        },
{
    lemma_first_nonzero_u32_range(s, 0, F32_ZERO_DRAW_LIMIT as nat);
    if let Some(k) = first_nonzero_u32(s, 0, F32_ZERO_DRAW_LIMIT as nat) {
        let w = drawn_u32(s, k);
        axiom_u32_leading_zeros(w);
        let p = unit_f32_outcome(s).0->0;
        let x = if u32_leading_zeros(w) > 0 {
            (w << u32_leading_zeros(w)) | (drawn_u32(s, k + 1) >> (32 - u32_leading_zeros(
                w,
            )) as u32)
        } else {
            w
        };
        assert(p.0 == x | 1u32);
        assert((x | 1u32) % 2 == 1) by (bit_vector);
        lemma2_to64();
        if -p.1 > 32 {
            lemma_pow2_strictly_increases(32, (-p.1) as nat);
        }
    }
}

} // verus!
