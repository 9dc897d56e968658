//! A fast, non-cryptographic generator: a permuted congruential generator
//! with 64 bits of state and 32 bits of output per step.
use vstd::prelude::*;

use crate::{after_draws, drawn_u32, le_u32, Error, Random};

verus! {

/// The multiplier of the underlying linear congruential step.
pub const PCG_DEFAULT_MULTIPLIER_64: u64 = 6_364_136_223_846_793_005;

/// The increment derived from a sequence selector: always odd.
pub open spec fn increment_of(seq: u64) -> u64 {
    (seq << 1u64) | 1u64
}

/// One linear congruential step, in wrapping arithmetic.
#[verifier::opaque]
pub open spec fn pcg_step(state: u64, inc: u64) -> u64 {
    state.wrapping_mul(PCG_DEFAULT_MULTIPLIER_64).wrapping_add(inc)
}

/// The state that seeding with `seed` and `seq` starts from.
pub open spec fn seeded_state(seed: u64, seq: u64) -> u64 {
    pcg_step(seed.wrapping_add(increment_of(seq)), increment_of(seq))
}

/// The output word for a state: an xor-shift of the state, rotated right by
/// its top five bits.
pub open spec fn pcg_output(state: u64) -> u32 {
    let xorshifted = (((state >> 18u64) ^ state) >> 27u64) as u32;
    let rot = (state >> 59u64) as u32;
    (xorshifted >> rot) | (xorshifted << ((32 - rot) as u32 & 31u32))
}

/// The state after `k` steps from `state`.
pub open spec fn pcg_advance(state: u64, inc: u64, k: nat) -> u64
    decreases k,
{
    if k == 0 {
        state
    } else {
        pcg_step(pcg_advance(state, inc, (k - 1) as nat), inc)
    }
}

/// The `k`-th word emitted from `state`.
pub open spec fn pcg_word(state: u64, inc: u64, k: nat) -> u32 {
    pcg_output(pcg_advance(state, inc, k))
}

/// Byte `j` (0 to 3) of a word in little-endian order.
pub open spec fn word_byte(w: u32, j: nat) -> u8 {
    ((w >> (8 * j) as u32) & 0xffu32) as u8
}

/// The bytes a fill of `n` bytes writes from `state`: each word in turn, in
/// little-endian order, the last one cut short.
pub open spec fn pcg_bytes(state: u64, inc: u64, n: nat) -> Seq<u8> {
    Seq::new(n, |j: int| word_byte(pcg_word(state, inc, (j / 4) as nat), (j % 4) as nat))
}

/// A fast, non-cryptographic random generator (PCG32).
pub struct FastRng {
    state: u64,
    inc: u64,
}

impl FastRng {
    /// The current state of the generator.
    pub closed spec fn pcg_state(&self) -> u64 {
        self.state
    }

    /// The increment of the generator, fixed when it is seeded.
    pub closed spec fn increment(&self) -> u64 {
        self.inc
    }

    /// Holds for every generator: its increment is odd.
    pub open spec fn wf(&self) -> bool {
        self.increment() % 2 == 1
    }

    /// Creates a generator seeded with the system time: it is `seed(a, b)`
    /// for the whole seconds `a` and the nanoseconds `b` past them. `None`
    /// when the clock is set before the Unix epoch.
    pub fn new() -> (r: Option<Self>)
        ensures
            r matches Some(g) ==> g.wf() && exists|a: u64, b: u64|
                #![trigger seeded_state(a, b)]
                b < 1_000_000_000 && g.pcg_state() == seeded_state(a, b) && g.increment()
                    == increment_of(b),
    {
        match time_seed() {
            Some((a, b)) => Some(Self::seed(a, b)),
            None => None,
        }
    }

    /// Creates a generator from a starting value `seed` and a sequence
    /// selector `seq`; equal arguments give equal generators.
    pub fn seed(seed: u64, seq: u64) -> (r: Self)
        ensures
            r.pcg_state() == seeded_state(seed, seq),
            r.increment() == increment_of(seq),
            r.wf(),
    {
        let init_inc = (seq << 1u64) | 1u64;
        let init_state = seed.wrapping_add(init_inc);
        let mut rng = FastRng { state: init_state, inc: init_inc };
        rng.state = rng.state.wrapping_mul(PCG_DEFAULT_MULTIPLIER_64).wrapping_add(rng.inc);
        proof {
            lemma_increment_odd(seq);
            reveal(pcg_step);
        }
        rng
    }

    /// Advances the state one step and returns the word of the old state.
    fn gen_u32(&mut self) -> (r: u32)
        ensures
            r == pcg_output(old(self).pcg_state()),
            final(self).pcg_state() == pcg_step(old(self).pcg_state(), old(self).increment()),
            final(self).increment() == old(self).increment(),
    {
        let old_state = self.state;
        self.state = self.state.wrapping_mul(PCG_DEFAULT_MULTIPLIER_64).wrapping_add(self.inc);
        proof {
            reveal(pcg_step);
        }
        let xorshifted = #[verifier::truncate] ((((old_state >> 18u64) ^ old_state) >> 27u64) as u32);
        let rot = #[verifier::truncate] ((old_state >> 59u64) as u32);
        assert(rot < 32 && (32 - rot) as u32 & 31u32 < 32) by (bit_vector)
            requires
                rot == (old_state >> 59u64) as u32,
        ;
        (xorshifted >> rot) | (xorshifted << ((32 - rot) & 31u32))
    }
}

/// Relies on std's SystemTime::elapsed, called on the Unix epoch: the time
/// since the epoch as whole seconds and the nanoseconds past them, whose
/// documented range is below one second; an error for a clock set before
/// the epoch.
#[verifier::external_body]
fn unix_time() -> (r: Option<(u64, u32)>)
    ensures
        r matches Some(t) ==> t.1 < 1_000_000_000,
{
    match std::time::UNIX_EPOCH.elapsed() {
        Ok(d) => Some((d.as_secs(), d.subsec_nanos())),
        Err(_) => None,
    }
}

/// A seed from the wall clock: seconds and nanoseconds since the Unix epoch;
/// `None` for a clock set before it.
fn time_seed() -> (r: Option<(u64, u64)>)
    ensures
        r matches Some(t) ==> t.1 < 1_000_000_000,
{
    match unix_time() {
        Some((secs, nanos)) => Some((secs, nanos as u64)),
        None => None,
    }
}

impl Random for FastRng {
    open spec fn filled(&self, n: nat) -> Seq<u8> {
        pcg_bytes(self.pcg_state(), self.increment(), n)
    }

    closed spec fn after_fill(&self, n: nat) -> FastRng {
        FastRng { state: pcg_advance(self.state, self.inc, ((n + 3) / 4) as nat), inc: self.inc }
    }

    open spec fn reliable(&self) -> bool {
        true
    }

    /// Fills `buf` four bytes per step, each word in little-endian order,
    /// the last word cut short; never fails.
    fn try_fill_bytes(&mut self, buf: &mut [u8]) -> (r: Result<(), Error>) {
        let ghost s0 = self.pcg_state();
        let ghost inc = self.increment();
        let len = buf.len();
        let mut word: u32 = 0;
        let mut i: usize = 0;
        while i < len
            invariant
                i <= len,
                buf@.len() == len,
                len == old(buf)@.len(),
                self.increment() == inc,
                self.pcg_state() == pcg_advance(s0, inc, ((i + 3) / 4) as nat),
                i % 4 != 0 ==> word == pcg_word(s0, inc, (i / 4) as nat),
                forall|j: int| 0 <= j < i ==> buf@[j] == pcg_bytes(s0, inc, len as nat)[j],
            decreases len - i,
        {
            if i % 4 == 0 {
                assert((i + 3) / 4 == i / 4);
                word = self.gen_u32();
                assert((i + 1 + 3) / 4 == i / 4 + 1);
            } else {
                assert((i + 1 + 3) / 4 == (i + 3) / 4);
            }
            let k = (i % 4) as u32;
            let byte = ((word >> (8 * k)) & 0xffu32) as u8;
            buf[i] = byte;
            i = i + 1;
        }
        assert(buf@ =~= pcg_bytes(s0, inc, len as nat));
        Ok(())
    }

    fn get_u32(&mut self) -> (r: u32) {
        let ghost before = *self;
        let r = self.gen_u32();
        proof {
            lemma_word_bytes_le(r);
            assert(before.filled(4) =~= seq![
                word_byte(r, 0),
                word_byte(r, 1),
                word_byte(r, 2),
                word_byte(r, 3),
            ]);
            assert(pcg_advance(before.pcg_state(), before.increment(), 1) == self.pcg_state());
        }
        r
    }
}

/// A word read back from its four little-endian bytes is the word.
proof fn lemma_word_bytes_le(w: u32)
    ensures
        le_u32(seq![word_byte(w, 0), word_byte(w, 1), word_byte(w, 2), word_byte(w, 3)]) == w,
{
    let s = seq![word_byte(w, 0), word_byte(w, 1), word_byte(w, 2), word_byte(w, 3)];
    assert(s[0] == ((w >> 0u32) & 0xffu32) as u8);
    assert(s[1] == ((w >> 8u32) & 0xffu32) as u8);
    assert(s[2] == ((w >> 16u32) & 0xffu32) as u8);
    assert(s[3] == ((w >> 24u32) & 0xffu32) as u8);
    assert(((((w >> 0u32) & 0xffu32) as u8) as u32) | ((((w >> 8u32) & 0xffu32) as u8) as u32)
        << 8u32 | ((((w >> 16u32) & 0xffu32) as u8) as u32) << 16u32 | ((((w >> 24u32)
        & 0xffu32) as u8) as u32) << 24u32 == w) by (bit_vector);
}

/// The increment derived from any sequence selector is odd.
pub proof fn lemma_increment_odd(seq: u64)
    ensures
        increment_of(seq) % 2 == 1,
{
    assert(((seq << 1u64) | 1u64) % 2 == 1) by (bit_vector);
}

/// Drawing `u32` values steps the generator once per draw.
proof fn lemma_draws_advance(g: FastRng, k: nat)
    ensures
        after_draws(g, 4, k).pcg_state() == pcg_advance(g.pcg_state(), g.increment(), k),
        after_draws(g, 4, k).increment() == g.increment(),
    decreases k,
{
    if k > 0 {
        let km = (k - 1) as nat;
        lemma_draws_advance(g, km);
        let prev = after_draws(g, 4, km);
        assert(after_draws(g, 4, k) == prev.after_fill(4));
        assert((4nat + 3) / 4 == 1);
        assert(pcg_advance(prev.pcg_state(), prev.increment(), 0) == prev.pcg_state());
        assert(pcg_advance(prev.pcg_state(), prev.increment(), 1) == pcg_step(
            prev.pcg_state(),
            prev.increment(),
        ));
    }
}

/// The `k`-th `u32` drawn from a generator is its `k`-th word.
pub proof fn lemma_drawn_word(g: FastRng, k: nat)
    ensures
        drawn_u32(g, k) == pcg_word(g.pcg_state(), g.increment(), k),
{
    lemma_draws_advance(g, k);
    let s = after_draws(g, 4, k);
    let w = pcg_output(s.pcg_state());
    lemma_word_bytes_le(w);
    assert(s.filled(4) =~= seq![word_byte(w, 0), word_byte(w, 1), word_byte(w, 2), word_byte(w, 3)]);
}

/// A fill of `n` bytes moves the generator `(n + 3) / 4` steps, one per
/// word begun, and keeps its increment: the unused bytes of a cut word are
/// dropped.
pub proof fn lemma_after_fill(g: FastRng, n: nat)
    ensures
        g.after_fill(n).pcg_state() == pcg_advance(g.pcg_state(), g.increment(), ((n + 3) / 4) as nat),
        g.after_fill(n).increment() == g.increment(),
{
}

/// An empty fill leaves the generator as it was.
pub proof fn lemma_empty_fill(g: FastRng)
    ensures
        g.after_fill(0) == g,
        g.filled(0) == Seq::<u8>::empty(),
{
    assert(g.filled(0) =~= Seq::<u8>::empty());
}

/// Stepping `k1` times and then `k2` times is stepping `k1 + k2` times.
pub proof fn lemma_advance_adds(state: u64, inc: u64, k1: nat, k2: nat)
    ensures
        pcg_advance(pcg_advance(state, inc, k1), inc, k2) == pcg_advance(state, inc, k1 + k2),
    decreases k2,
{
    if k2 > 0 {
        lemma_advance_adds(state, inc, k1, (k2 - 1) as nat);
    }
}

/// Fills compose: a fill of `n1` bytes, `n1` a multiple of 4, followed by a
/// fill of `n2` bytes writes what one fill of `n1 + n2` bytes writes, and
/// leaves the same generator.
pub proof fn lemma_fill_split(g: FastRng, n1: nat, n2: nat)
    requires
        n1 % 4 == 0,
    ensures
        g.filled(n1) + g.after_fill(n1).filled(n2) == g.filled(n1 + n2),
        g.after_fill(n1).after_fill(n2) == g.after_fill(n1 + n2),
{
    let s = g.pcg_state();
    let inc = g.increment();
    let k1 = n1 / 4;
    assert((n1 + 3) / 4 == k1);
    assert((n1 + n2 + 3) / 4 == k1 + (n2 + 3) / 4);
    lemma_advance_adds(s, inc, k1, ((n2 + 3) / 4) as nat);
    let mid = g.after_fill(n1);
    assert forall|j: int| 0 <= j < n2 implies #[trigger] mid.filled(n2)[j] == g.filled(n1 + n2)[n1 + j] by {
        assert((n1 + j) / 4 == k1 + j / 4);
        assert((n1 + j) % 4 == j % 4);
        lemma_advance_adds(s, inc, k1, (j / 4) as nat);
    }
    assert(g.filled(n1) + mid.filled(n2) =~= g.filled(n1 + n2));
}

/// Generators seeded alike draw alike: for every generator seeded with `a`
/// and `b`, the `k`-th `u32` drawn is the `k`-th word from
/// `seeded_state(a, b)` with increment `increment_of(b)`.
pub proof fn lemma_seed_determinism(g1: FastRng, g2: FastRng, a: u64, b: u64, k: nat)
    requires
        g1.pcg_state() == seeded_state(a, b) && g1.increment() == increment_of(b),
        g2.pcg_state() == seeded_state(a, b) && g2.increment() == increment_of(b),
    ensures
        drawn_u32(g1, k) == pcg_word(seeded_state(a, b), increment_of(b), k),
        drawn_u32(g1, k) == drawn_u32(g2, k),
{
    lemma_drawn_word(g1, k);
    lemma_drawn_word(g2, k);
}

} // verus!
