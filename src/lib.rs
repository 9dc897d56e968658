//! Typed random values from any source of random bytes, and a fast
//! permuted congruential generator that is such a source.
use vstd::prelude::*;

pub mod fast;
pub mod float;

verus! {

/// A `u16` from two bytes in little-endian order.
pub open spec fn le_u16(s: Seq<u8>) -> u16 {
    (s[0] as u16) | (s[1] as u16) << 8u16
}

/// A `u32` from four bytes in little-endian order.
pub open spec fn le_u32(s: Seq<u8>) -> u32 {
    (s[0] as u32) | (s[1] as u32) << 8u32 | (s[2] as u32) << 16u32 | (s[3] as u32) << 24u32
}

/// A `u64` from eight bytes in little-endian order.
pub open spec fn le_u64(s: Seq<u8>) -> u64 {
    (s[0] as u64) | (s[1] as u64) << 8u64 | (s[2] as u64) << 16u64 | (s[3] as u64) << 24u64 | (
    s[4] as u64) << 32u64 | (s[5] as u64) << 40u64 | (s[6] as u64) << 48u64 | (s[7] as u64)
        << 56u64
}

/// A `u128` from sixteen bytes in little-endian order.
pub open spec fn le_u128(s: Seq<u8>) -> u128 {
    (le_u64(s) as u128) | (le_u64(s.subrange(8, 16)) as u128) << 64u128
}

/// The boolean that a byte stands for: its top bit.
pub open spec fn byte_bool(b: u8) -> bool {
    b & 0x80u8 != 0
}

/// The failure a fallible source of random bytes reports.
#[derive(Debug, Clone, Copy, PartialEq, Eq)]
pub enum Error {
    Something,
}

/// A source of random bytes.
///
/// A source is modelled as a value whose fills are determined by its state:
/// `filled(n)` is what a fill of `n` bytes writes and `after_fill(n)` the state
/// it leaves behind. A `reliable` source never fails a fill, and stays reliable.
/// A source that keeps the defaults of these three describes nothing of
/// itself: it is not reliable, and a fill of it that succeeds must write
/// zeros and keep its state.
pub trait Random: Sized {
    /// The bytes that a successful fill of `n` bytes writes from this state.
    open spec fn filled(&self, n: nat) -> Seq<u8> {
        Seq::new(n, |i: int| 0u8)
    }

    /// The state of the source after a successful fill of `n` bytes.
    open spec fn after_fill(&self, n: nat) -> Self {
        *self
    }

    /// Holds when no fill from this state can fail.
    open spec fn reliable(&self) -> bool {
        false
    }

    /// Fills `buf` with random bytes, or reports that the source failed.
    fn try_fill_bytes(&mut self, buf: &mut [u8]) -> (r: Result<(), Error>)
        ensures
            final(buf)@.len() == old(buf)@.len(),
            r is Ok ==> final(buf)@ == old(self).filled(old(buf)@.len() as nat) && *final(self)
                == old(self).after_fill(old(buf)@.len() as nat),
            old(self).reliable() ==> r is Ok && old(self).after_fill(
                old(buf)@.len() as nat,
            ).reliable(),
    ;

    /// Fills `buf` with random bytes; the source must be reliable.
    fn fill_bytes(&mut self, buf: &mut [u8])
        requires
            old(self).reliable(),
        ensures
            final(buf)@ == old(self).filled(old(buf)@.len() as nat),
            *final(self) == old(self).after_fill(old(buf)@.len() as nat),
            final(self).reliable(),
    {
        let r = self.try_fill_bytes(buf);
        assert(r is Ok);
    }

    /// A random `u8`: the one byte of a one-byte fill.
    fn get_u8(&mut self) -> (r: u8)
        requires
            old(self).reliable(),
        ensures
            r == old(self).filled(1)[0],
            *final(self) == old(self).after_fill(1),
            final(self).reliable(),
    {
        let mut buf = [0u8; 1];
        self.fill_bytes(&mut buf);
        buf[0]
    }

    /// A random `u16`: a two-byte fill read in little-endian order.
    fn get_u16(&mut self) -> (r: u16)
        requires
            old(self).reliable(),
        ensures
            r == le_u16(old(self).filled(2)),
            *final(self) == old(self).after_fill(2),
            final(self).reliable(),
    {
        let mut buf = [0u8; 2];
        self.fill_bytes(&mut buf);
        (buf[0] as u16) | (buf[1] as u16) << 8u16
    }

    /// A random `u32`: a four-byte fill read in little-endian order.
    fn get_u32(&mut self) -> (r: u32)
        requires
            old(self).reliable(),
        ensures
            r == le_u32(old(self).filled(4)),
            *final(self) == old(self).after_fill(4),
            final(self).reliable(),
    {
        let mut buf = [0u8; 4];
        self.fill_bytes(&mut buf);
        (buf[0] as u32) | (buf[1] as u32) << 8u32 | (buf[2] as u32) << 16u32 | (buf[3] as u32)
            << 24u32
    }

    /// A random `u64`: an eight-byte fill read in little-endian order.
    fn get_u64(&mut self) -> (r: u64)
        requires
            old(self).reliable(),
        ensures
            r == le_u64(old(self).filled(8)),
            *final(self) == old(self).after_fill(8),
            final(self).reliable(),
    {
        let mut buf = [0u8; 8];
        self.fill_bytes(&mut buf);
        (buf[0] as u64) | (buf[1] as u64) << 8u64 | (buf[2] as u64) << 16u64 | (buf[3] as u64)
            << 24u64 | (buf[4] as u64) << 32u64 | (buf[5] as u64) << 40u64 | (buf[6] as u64)
            << 48u64 | (buf[7] as u64) << 56u64
    }

    /// A random `usize`: a random `u64`, cut to the width of `usize`.
    fn get_usize(&mut self) -> (r: usize)
        requires
            old(self).reliable(),
        ensures
            r == le_u64(old(self).filled(8)) as usize,
            *final(self) == old(self).after_fill(8),
            final(self).reliable(),
    {
        self.get_u64() as usize
    }

    /// A random `u128`: a sixteen-byte fill read in little-endian order.
    fn get_u128(&mut self) -> (r: u128)
        requires
            old(self).reliable(),
        ensures
            r == le_u128(old(self).filled(16)),
            *final(self) == old(self).after_fill(16),
            final(self).reliable(),
    {
        let mut buf = [0u8; 16];
        self.fill_bytes(&mut buf);
        let lo = (buf[0] as u64) | (buf[1] as u64) << 8u64 | (buf[2] as u64) << 16u64 | (
        buf[3] as u64) << 24u64 | (buf[4] as u64) << 32u64 | (buf[5] as u64) << 40u64 | (
        buf[6] as u64) << 48u64 | (buf[7] as u64) << 56u64;
        let hi = (buf[8] as u64) | (buf[9] as u64) << 8u64 | (buf[10] as u64) << 16u64 | (
        buf[11] as u64) << 24u64 | (buf[12] as u64) << 32u64 | (buf[13] as u64) << 40u64 | (
        buf[14] as u64) << 48u64 | (buf[15] as u64) << 56u64;
        assert(buf@.subrange(8, 16) =~= seq![buf[8], buf[9], buf[10], buf[11], buf[12], buf[13], buf[14], buf[15]]);
        (lo as u128) | (hi as u128) << 64u128
    }

    /// A random `bool`: the top bit of a random byte.
    fn get_bool(&mut self) -> (r: bool)
        requires
            old(self).reliable(),
        ensures
            r == byte_bool(old(self).filled(1)[0]),
            *final(self) == old(self).after_fill(1),
            final(self).reliable(),
    {
        let byte = self.get_u8();
        byte & 0x80u8 != 0
    }
}


/// A type with a rule for building a random value of it from a source of
/// random bytes.
pub trait GenerateRand<R: Random>: Sized {
    /// Holds when generating from a source in state `before` can give `v` and
    /// leave the source in state `after`.
    spec fn generated_by(before: R, v: Self, after: R) -> bool;

    /// Holds when generating from a source in state `before` comes to an end.
    spec fn generable(before: R) -> bool;

    /// Builds a random value, drawing on `rand`.
    fn generate(rand: &mut R) -> (r: Self)
        requires
            old(rand).reliable(),
            Self::generable(*old(rand)),
        ensures
            Self::generated_by(*old(rand), r, *final(rand)),
            final(rand).reliable(),
    ;
}

/// Random values of any type with a generation rule, from any source.
pub trait RandomGen: Random {
    /// A random value of type `T`, built by `T`'s rule.
    fn gen<T: GenerateRand<Self>>(&mut self) -> (r: T)
        requires
            old(self).reliable(),
            T::generable(*old(self)),
        ensures
            T::generated_by(*old(self), r, *final(self)),
            final(self).reliable(),
    {
        T::generate(self)
    }
}

impl<R: Random> RandomGen for R {

}

/// The state of a source after `k` fills of `width` bytes each.
pub open spec fn after_draws<R: Random>(s: R, width: nat, k: nat) -> R
    decreases k,
{
    if k == 0 {
        s
    } else {
        after_draws(s, width, (k - 1) as nat).after_fill(width)
    }
}

/// The `k`-th `u32` drawn from a source in state `s`.
pub open spec fn drawn_u32<R: Random>(s: R, k: nat) -> u32 {
    le_u32(after_draws(s, 4, k).filled(4))
}

/// The `k`-th `u64` drawn from a source in state `s`.
pub open spec fn drawn_u64<R: Random>(s: R, k: nat) -> u64 {
    le_u64(after_draws(s, 8, k).filled(8))
}

/// Holds for the code points that are Unicode scalar values: all below
/// `0x110000` but the surrogates `0xD800..=0xDFFF`.
pub open spec fn is_scalar_value(x: u32) -> bool {
    x < 0xD800 || (0xE000 <= x && x <= 0x10FFFF)
}

/// Holds when the `k`-th `u32` drawn from `s` is the first that is a scalar
/// value.
pub open spec fn first_scalar_draw<R: Random>(s: R, k: nat) -> bool {
    &&& is_scalar_value(drawn_u32(s, k))
    &&& forall|j: nat| j < k ==> !is_scalar_value(#[trigger] drawn_u32(s, j))
}

/// Relies on std's char::from_u32: `Some` exactly for a Unicode scalar
/// value, holding the character with that code point.
#[verifier::external_body]
fn char_from_u32(i: u32) -> (r: Option<char>)
    ensures
        r is Some <==> is_scalar_value(i),
        r matches Some(c) ==> c as u32 == i,
{
    char::from_u32(i)
}

impl<R: Random> GenerateRand<R> for u8 {
    open spec fn generated_by(before: R, v: u8, after: R) -> bool {
        v == before.filled(1)[0] && after == before.after_fill(1)
    }

    open spec fn generable(before: R) -> bool {
        true
    }

    fn generate(rand: &mut R) -> (r: u8) {
        rand.get_u8()
    }
}

impl<R: Random> GenerateRand<R> for u16 {
    open spec fn generated_by(before: R, v: u16, after: R) -> bool {
        v == le_u16(before.filled(2)) && after == before.after_fill(2)
    }

    open spec fn generable(before: R) -> bool {
        true
    }

    fn generate(rand: &mut R) -> (r: u16) {
        rand.get_u16()
    }
}

impl<R: Random> GenerateRand<R> for u32 {
    open spec fn generated_by(before: R, v: u32, after: R) -> bool {
        v == le_u32(before.filled(4)) && after == before.after_fill(4)
    }

    open spec fn generable(before: R) -> bool {
        true
    }

    fn generate(rand: &mut R) -> (r: u32) {
        rand.get_u32()
    }
}

impl<R: Random> GenerateRand<R> for u64 {
    open spec fn generated_by(before: R, v: u64, after: R) -> bool {
        v == le_u64(before.filled(8)) && after == before.after_fill(8)
    }

    open spec fn generable(before: R) -> bool {
        true
    }

    fn generate(rand: &mut R) -> (r: u64) {
        rand.get_u64()
    }
}

impl<R: Random> GenerateRand<R> for usize {
    open spec fn generated_by(before: R, v: usize, after: R) -> bool {
        v == le_u64(before.filled(8)) as usize && after == before.after_fill(8)
    }

    open spec fn generable(before: R) -> bool {
        true
    }

    fn generate(rand: &mut R) -> (r: usize) {
        rand.get_usize()
    }
}

impl<R: Random> GenerateRand<R> for u128 {
    open spec fn generated_by(before: R, v: u128, after: R) -> bool {
        v == le_u128(before.filled(16)) && after == before.after_fill(16)
    }

    open spec fn generable(before: R) -> bool {
        true
    }

    fn generate(rand: &mut R) -> (r: u128) {
        rand.get_u128()
    }
}

impl<R: Random> GenerateRand<R> for bool {
    open spec fn generated_by(before: R, v: bool, after: R) -> bool {
        v == byte_bool(before.filled(1)[0]) && after == before.after_fill(1)
    }

    open spec fn generable(before: R) -> bool {
        true
    }

    fn generate(rand: &mut R) -> (r: bool) {
        rand.get_bool()
    }
}

impl<R: Random> GenerateRand<R> for char {
    /// The first drawn `u32` that is a scalar value, and the source after it.
    open spec fn generated_by(before: R, v: char, after: R) -> bool {
        exists|k: nat|
            {
                &&& #[trigger] first_scalar_draw(before, k)
                &&& v as u32 == drawn_u32(before, k)
                &&& after == after_draws(before, 4, k + 1)
            }
    }

    /// Some drawn `u32` is a scalar value.
    open spec fn generable(before: R) -> bool {
        exists|k: nat| is_scalar_value(#[trigger] drawn_u32(before, k))
    }

    /// Draws `u32` values until one is a scalar value.
    fn generate(rand: &mut R) -> (r: char) {
        let ghost s0 = *rand;
        let ghost last: nat = choose|k: nat| is_scalar_value(#[trigger] drawn_u32(s0, k));
        let ghost mut j: nat = 0;
        let mut found: char = '\0';
        loop
            invariant_except_break
                *rand == after_draws(s0, 4, j),
                j <= last,
                forall|i: nat| i < j ==> !is_scalar_value(#[trigger] drawn_u32(s0, i)),
            invariant
                rand.reliable(),
                is_scalar_value(drawn_u32(s0, last)),
            ensures
                rand.reliable(),
                <char as GenerateRand<R>>::generated_by(s0, found, *rand),
            decreases last - j,
        {
            let w = rand.get_u32();
            assert(w == drawn_u32(s0, j));
            assert(*rand == after_draws(s0, 4, j + 1));
            if let Some(c) = char_from_u32(w) {
                assert(first_scalar_draw(s0, j) && c as u32 == drawn_u32(s0, j));
                found = c;
                break;
            }
            proof {
                j = j + 1;
            }
        }
        found
    }
}

impl<R: Random> GenerateRand<R> for i8 {
    open spec fn generated_by(before: R, v: i8, after: R) -> bool {
        v == before.filled(1)[0] as i8 && after == before.after_fill(1)
    }

    open spec fn generable(before: R) -> bool {
        true
    }

    fn generate(rand: &mut R) -> (r: i8) {
        <u8 as GenerateRand<R>>::generate(rand) as i8
    }
}

impl<R: Random> GenerateRand<R> for i16 {
    open spec fn generated_by(before: R, v: i16, after: R) -> bool {
        v == le_u16(before.filled(2)) as i16 && after == before.after_fill(2)
    }

    open spec fn generable(before: R) -> bool {
        true
    }

    fn generate(rand: &mut R) -> (r: i16) {
        <u16 as GenerateRand<R>>::generate(rand) as i16
    }
}

impl<R: Random> GenerateRand<R> for i32 {
    open spec fn generated_by(before: R, v: i32, after: R) -> bool {
        v == le_u32(before.filled(4)) as i32 && after == before.after_fill(4)
    }

    open spec fn generable(before: R) -> bool {
        true
    }

    fn generate(rand: &mut R) -> (r: i32) {
        <u32 as GenerateRand<R>>::generate(rand) as i32
    }
}

impl<R: Random> GenerateRand<R> for i64 {
    open spec fn generated_by(before: R, v: i64, after: R) -> bool {
        v == le_u64(before.filled(8)) as i64 && after == before.after_fill(8)
    }

    open spec fn generable(before: R) -> bool {
        true
    }

    fn generate(rand: &mut R) -> (r: i64) {
        <u64 as GenerateRand<R>>::generate(rand) as i64
    }
}

impl<R: Random> GenerateRand<R> for isize {
    open spec fn generated_by(before: R, v: isize, after: R) -> bool {
        v == (le_u64(before.filled(8)) as usize) as isize && after == before.after_fill(8)
    }

    open spec fn generable(before: R) -> bool {
        true
    }

    fn generate(rand: &mut R) -> (r: isize) {
        <usize as GenerateRand<R>>::generate(rand) as isize
    }
}

impl<R: Random> GenerateRand<R> for i128 {
    open spec fn generated_by(before: R, v: i128, after: R) -> bool {
        v == le_u128(before.filled(16)) as i128 && after == before.after_fill(16)
    }

    open spec fn generable(before: R) -> bool {
        true
    }

    fn generate(rand: &mut R) -> (r: i128) {
        <u128 as GenerateRand<R>>::generate(rand) as i128
    }
}


/// Holds when `vals[i]` is generated from `states[i]`, leaving `states[i + 1]`,
/// for each `i`: values generated one after another, in order.
pub open spec fn is_chain<R: Random, T: GenerateRand<R>>(states: Seq<R>, vals: Seq<T>) -> bool {
    &&& states.len() == vals.len() + 1
    &&& forall|i: int|
        0 <= i < vals.len() ==> #[trigger] T::generated_by(states[i], vals[i], states[i + 1])
}

impl<R: Random, T: GenerateRand<R> + Copy + Default, const N: usize> GenerateRand<R> for [T; N] {
    /// The elements, generated in ascending index order.
    open spec fn generated_by(before: R, v: [T; N], after: R) -> bool {
        exists|states: Seq<R>|
            {
                &&& #[trigger] is_chain(states, v@)
                &&& states[0] == before
                &&& states.last() == after
            }
    }

    /// Each element's rule comes to an end wherever the ones before it left
    /// the source.
    open spec fn generable(before: R) -> bool {
        forall|states: Seq<R>, vals: Seq<T>|
            #[trigger] is_chain(states, vals) && states[0] == before && vals.len() < N
                ==> T::generable(states.last())
    }

    fn generate(rand: &mut R) -> (r: [T; N]) {
        let ghost s0 = *rand;
        let ghost mut states: Seq<R> = seq![s0];
        let mut arr: [T; N] = [T::default(); N];
        let mut i: usize = 0;
        while i < N
            invariant
                i <= N,
                rand.reliable(),
                <[T; N] as GenerateRand<R>>::generable(s0),
                states[0] == s0,
                states.last() == *rand,
                is_chain(states, arr@.subrange(0, i as int)),
            decreases N - i,
        {
            assert(T::generable(states.last()));
            let ghost prev = arr@.subrange(0, i as int);
            let v = T::generate(rand);
            arr[i] = v;
            proof {
                states = states.push(*rand);
                assert(arr@.subrange(0, i + 1) =~= prev.push(v));
            }
            i = i + 1;
        }
        assert(arr@.subrange(0, N as int) =~= arr@);
        arr
    }
}

impl<R: Random, A: GenerateRand<R>> GenerateRand<R> for (A,) {
    open spec fn generated_by(before: R, v: (A,), after: R) -> bool {
        A::generated_by(before, v.0, after)
    }

    open spec fn generable(before: R) -> bool {
        A::generable(before)
    }

    fn generate(rand: &mut R) -> (r: (A,)) {
        let a = A::generate(rand);
        (a,)
    }
}

impl<R: Random, A: GenerateRand<R>, B: GenerateRand<R>> GenerateRand<R> for (A, B) {
    /// The components, generated from left to right.
    open spec fn generated_by(before: R, v: (A, B), after: R) -> bool {
        exists|mid: R| #[trigger]
            A::generated_by(before, v.0, mid) && B::generated_by(mid, v.1, after)
    }

    open spec fn generable(before: R) -> bool {
        &&& A::generable(before)
        &&& forall|a: A, mid: R| #[trigger] A::generated_by(before, a, mid) ==> B::generable(mid)
    }

    fn generate(rand: &mut R) -> (r: (A, B)) {
        let a = A::generate(rand);
        let ghost mid = *rand;
        let b = B::generate(rand);
        let r = (a, b);
        assert(A::generated_by(*old(rand), r.0, mid) && B::generated_by(mid, r.1, *rand));
        r
    }
}

impl<
    R: Random,
    A: GenerateRand<R>,
    B: GenerateRand<R>,
    C: GenerateRand<R>,
> GenerateRand<R> for (A, B, C) {
    /// The first component, then the others from where it left the source.
    open spec fn generated_by(before: R, v: (A, B, C), after: R) -> bool {
        exists|mid: R| #[trigger]
            A::generated_by(before, v.0, mid) && <(B, C) as GenerateRand<R>>::generated_by(
                mid,
                (v.1, v.2),
                after,
            )
    }

    open spec fn generable(before: R) -> bool {
        &&& A::generable(before)
        &&& forall|a: A, mid: R| #[trigger]
            A::generated_by(before, a, mid) ==> <(B, C) as GenerateRand<R>>::generable(mid)
    }

    fn generate(rand: &mut R) -> (r: (A, B, C)) {
        let a = A::generate(rand);
        let ghost mid = *rand;
        let rest = <(B, C) as GenerateRand<R>>::generate(rand);
        let r = (a, rest.0, rest.1);
        assert((r.1, r.2) == rest);
        assert(A::generated_by(*old(rand), r.0, mid));
        r
    }
}

impl<
    R: Random,
    A: GenerateRand<R>,
    B: GenerateRand<R>,
    C: GenerateRand<R>,
    D: GenerateRand<R>,
> GenerateRand<R> for (A, B, C, D) {
    /// The first component, then the others from where it left the source.
    open spec fn generated_by(before: R, v: (A, B, C, D), after: R) -> bool {
        exists|mid: R| #[trigger]
            A::generated_by(before, v.0, mid) && <(B, C, D) as GenerateRand<R>>::generated_by(
                mid,
                (v.1, v.2, v.3),
                after,
            )
    }

    open spec fn generable(before: R) -> bool {
        &&& A::generable(before)
        &&& forall|a: A, mid: R| #[trigger]
            A::generated_by(before, a, mid) ==> <(B, C, D) as GenerateRand<R>>::generable(mid)
    }

    fn generate(rand: &mut R) -> (r: (A, B, C, D)) {
        let a = A::generate(rand);
        let ghost mid = *rand;
        let rest = <(B, C, D) as GenerateRand<R>>::generate(rand);
        let r = (a, rest.0, rest.1, rest.2);
        assert((r.1, r.2, r.3) == rest);
        assert(A::generated_by(*old(rand), r.0, mid));
        r
    }
}

impl<
    R: Random,
    A: GenerateRand<R>,
    B: GenerateRand<R>,
    C: GenerateRand<R>,
    D: GenerateRand<R>,
    E: GenerateRand<R>,
> GenerateRand<R> for (A, B, C, D, E) {
    /// The first component, then the others from where it left the source.
    open spec fn generated_by(before: R, v: (A, B, C, D, E), after: R) -> bool {
        exists|mid: R| #[trigger]
            A::generated_by(before, v.0, mid) && <(B, C, D, E) as GenerateRand<R>>::generated_by(
                mid,
                (v.1, v.2, v.3, v.4),
                after,
            )
    }

    open spec fn generable(before: R) -> bool {
        &&& A::generable(before)
        &&& forall|a: A, mid: R| #[trigger]
            A::generated_by(before, a, mid) ==> <(B, C, D, E) as GenerateRand<R>>::generable(mid)
    }

    fn generate(rand: &mut R) -> (r: (A, B, C, D, E)) {
        let a = A::generate(rand);
        let ghost mid = *rand;
        let rest = <(B, C, D, E) as GenerateRand<R>>::generate(rand);
        let r = (a, rest.0, rest.1, rest.2, rest.3);
        assert((r.1, r.2, r.3, r.4) == rest);
        assert(A::generated_by(*old(rand), r.0, mid));
        r
    }
}

impl<
    R: Random,
    A: GenerateRand<R>,
    B: GenerateRand<R>,
    C: GenerateRand<R>,
    D: GenerateRand<R>,
    E: GenerateRand<R>,
    F: GenerateRand<R>,
> GenerateRand<R> for (A, B, C, D, E, F) {
    /// The first component, then the others from where it left the source.
    open spec fn generated_by(before: R, v: (A, B, C, D, E, F), after: R) -> bool {
        exists|mid: R| #[trigger]
            A::generated_by(before, v.0, mid) && <(B, C, D, E, F) as GenerateRand<R>>::generated_by(
                mid,
                (v.1, v.2, v.3, v.4, v.5),
                after,
            )
    }

    open spec fn generable(before: R) -> bool {
        &&& A::generable(before)
        &&& forall|a: A, mid: R| #[trigger]
            A::generated_by(before, a, mid) ==> <(B, C, D, E, F) as GenerateRand<R>>::generable(mid)
    }

    fn generate(rand: &mut R) -> (r: (A, B, C, D, E, F)) {
        let a = A::generate(rand);
        let ghost mid = *rand;
        let rest = <(B, C, D, E, F) as GenerateRand<R>>::generate(rand);
        let r = (a, rest.0, rest.1, rest.2, rest.3, rest.4);
        assert((r.1, r.2, r.3, r.4, r.5) == rest);
        assert(A::generated_by(*old(rand), r.0, mid));
        r
    }
}

impl<
    R: Random,
    A: GenerateRand<R>,
    B: GenerateRand<R>,
    C: GenerateRand<R>,
    D: GenerateRand<R>,
    E: GenerateRand<R>,
    F: GenerateRand<R>,
    G: GenerateRand<R>,
> GenerateRand<R> for (A, B, C, D, E, F, G) {
    /// The first component, then the others from where it left the source.
    open spec fn generated_by(before: R, v: (A, B, C, D, E, F, G), after: R) -> bool {
        exists|mid: R| #[trigger]
            A::generated_by(before, v.0, mid) && <(B, C, D, E, F, G) as GenerateRand<R>>::generated_by(
                mid,
                (v.1, v.2, v.3, v.4, v.5, v.6),
                after,
            )
    }

    open spec fn generable(before: R) -> bool {
        &&& A::generable(before)
        &&& forall|a: A, mid: R| #[trigger]
            A::generated_by(before, a, mid) ==> <(B, C, D, E, F, G) as GenerateRand<R>>::generable(mid)
    }

    fn generate(rand: &mut R) -> (r: (A, B, C, D, E, F, G)) {
        let a = A::generate(rand);
        let ghost mid = *rand;
        let rest = <(B, C, D, E, F, G) as GenerateRand<R>>::generate(rand);
        let r = (a, rest.0, rest.1, rest.2, rest.3, rest.4, rest.5);
        assert((r.1, r.2, r.3, r.4, r.5, r.6) == rest);
        assert(A::generated_by(*old(rand), r.0, mid));
        r
    }
}

impl<
    R: Random,
    A: GenerateRand<R>,
    B: GenerateRand<R>,
    C: GenerateRand<R>,
    D: GenerateRand<R>,
    E: GenerateRand<R>,
    F: GenerateRand<R>,
    G: GenerateRand<R>,
    H: GenerateRand<R>,
> GenerateRand<R> for (A, B, C, D, E, F, G, H) {
    /// The first component, then the others from where it left the source.
    open spec fn generated_by(before: R, v: (A, B, C, D, E, F, G, H), after: R) -> bool {
        exists|mid: R| #[trigger]
            A::generated_by(before, v.0, mid) && <(B, C, D, E, F, G, H) as GenerateRand<R>>::generated_by(
                mid,
                (v.1, v.2, v.3, v.4, v.5, v.6, v.7),
                after,
            )
    }

    open spec fn generable(before: R) -> bool {
        &&& A::generable(before)
        &&& forall|a: A, mid: R| #[trigger]
            A::generated_by(before, a, mid) ==> <(B, C, D, E, F, G, H) as GenerateRand<R>>::generable(mid)
    }

    fn generate(rand: &mut R) -> (r: (A, B, C, D, E, F, G, H)) {
        let a = A::generate(rand);
        let ghost mid = *rand;
        let rest = <(B, C, D, E, F, G, H) as GenerateRand<R>>::generate(rand);
        let r = (a, rest.0, rest.1, rest.2, rest.3, rest.4, rest.5, rest.6);
        assert((r.1, r.2, r.3, r.4, r.5, r.6, r.7) == rest);
        assert(A::generated_by(*old(rand), r.0, mid));
        r
    }
}

impl<
    R: Random,
    A: GenerateRand<R>,
    B: GenerateRand<R>,
    C: GenerateRand<R>,
    D: GenerateRand<R>,
    E: GenerateRand<R>,
    F: GenerateRand<R>,
    G: GenerateRand<R>,
    H: GenerateRand<R>,
    I: GenerateRand<R>,
> GenerateRand<R> for (A, B, C, D, E, F, G, H, I) {
    /// The first component, then the others from where it left the source.
    open spec fn generated_by(before: R, v: (A, B, C, D, E, F, G, H, I), after: R) -> bool {
        exists|mid: R| #[trigger]
            A::generated_by(before, v.0, mid) && <(B, C, D, E, F, G, H, I) as GenerateRand<R>>::generated_by(
                mid,
                (v.1, v.2, v.3, v.4, v.5, v.6, v.7, v.8),
                after,
            )
    }

    open spec fn generable(before: R) -> bool {
        &&& A::generable(before)
        &&& forall|a: A, mid: R| #[trigger]
            A::generated_by(before, a, mid) ==> <(B, C, D, E, F, G, H, I) as GenerateRand<R>>::generable(mid)
    }

    fn generate(rand: &mut R) -> (r: (A, B, C, D, E, F, G, H, I)) {
        let a = A::generate(rand);
        let ghost mid = *rand;
        let rest = <(B, C, D, E, F, G, H, I) as GenerateRand<R>>::generate(rand);
        let r = (a, rest.0, rest.1, rest.2, rest.3, rest.4, rest.5, rest.6, rest.7);
        assert((r.1, r.2, r.3, r.4, r.5, r.6, r.7, r.8) == rest);
        assert(A::generated_by(*old(rand), r.0, mid));
        r
    }
}

impl<
    R: Random,
    A: GenerateRand<R>,
    B: GenerateRand<R>,
    C: GenerateRand<R>,
    D: GenerateRand<R>,
    E: GenerateRand<R>,
    F: GenerateRand<R>,
    G: GenerateRand<R>,
    H: GenerateRand<R>,
    I: GenerateRand<R>,
    J: GenerateRand<R>,
> GenerateRand<R> for (A, B, C, D, E, F, G, H, I, J) {
    /// The first component, then the others from where it left the source.
    open spec fn generated_by(before: R, v: (A, B, C, D, E, F, G, H, I, J), after: R) -> bool {
        exists|mid: R| #[trigger]
            A::generated_by(before, v.0, mid) && <(B, C, D, E, F, G, H, I, J) as GenerateRand<R>>::generated_by(
                mid,
                (v.1, v.2, v.3, v.4, v.5, v.6, v.7, v.8, v.9),
                after,
            )
    }

    open spec fn generable(before: R) -> bool {
        &&& A::generable(before)
        &&& forall|a: A, mid: R| #[trigger]
            A::generated_by(before, a, mid) ==> <(B, C, D, E, F, G, H, I, J) as GenerateRand<R>>::generable(mid)
    }

    fn generate(rand: &mut R) -> (r: (A, B, C, D, E, F, G, H, I, J)) {
        let a = A::generate(rand);
        let ghost mid = *rand;
        let rest = <(B, C, D, E, F, G, H, I, J) as GenerateRand<R>>::generate(rand);
        let r = (a, rest.0, rest.1, rest.2, rest.3, rest.4, rest.5, rest.6, rest.7, rest.8);
        assert((r.1, r.2, r.3, r.4, r.5, r.6, r.7, r.8, r.9) == rest);
        assert(A::generated_by(*old(rand), r.0, mid));
        r
    }
}

impl<
    R: Random,
    A: GenerateRand<R>,
    B: GenerateRand<R>,
    C: GenerateRand<R>,
    D: GenerateRand<R>,
    E: GenerateRand<R>,
    F: GenerateRand<R>,
    G: GenerateRand<R>,
    H: GenerateRand<R>,
    I: GenerateRand<R>,
    J: GenerateRand<R>,
    K: GenerateRand<R>,
> GenerateRand<R> for (A, B, C, D, E, F, G, H, I, J, K) {
    /// The first component, then the others from where it left the source.
    open spec fn generated_by(before: R, v: (A, B, C, D, E, F, G, H, I, J, K), after: R) -> bool {
        exists|mid: R| #[trigger]
            A::generated_by(before, v.0, mid) && <(B, C, D, E, F, G, H, I, J, K) as GenerateRand<R>>::generated_by(
                mid,
                (v.1, v.2, v.3, v.4, v.5, v.6, v.7, v.8, v.9, v.10),
                after,
            )
    }

    open spec fn generable(before: R) -> bool {
        &&& A::generable(before)
        &&& forall|a: A, mid: R| #[trigger]
            A::generated_by(before, a, mid) ==> <(B, C, D, E, F, G, H, I, J, K) as GenerateRand<R>>::generable(mid)
    }

    fn generate(rand: &mut R) -> (r: (A, B, C, D, E, F, G, H, I, J, K)) {
        let a = A::generate(rand);
        let ghost mid = *rand;
        let rest = <(B, C, D, E, F, G, H, I, J, K) as GenerateRand<R>>::generate(rand);
        let r = (a, rest.0, rest.1, rest.2, rest.3, rest.4, rest.5, rest.6, rest.7, rest.8, rest.9);
        assert((r.1, r.2, r.3, r.4, r.5, r.6, r.7, r.8, r.9, r.10) == rest);
        assert(A::generated_by(*old(rand), r.0, mid));
        r
    }
}

impl<
    R: Random,
    A: GenerateRand<R>,
    B: GenerateRand<R>,
    C: GenerateRand<R>,
    D: GenerateRand<R>,
    E: GenerateRand<R>,
    F: GenerateRand<R>,
    G: GenerateRand<R>,
    H: GenerateRand<R>,
    I: GenerateRand<R>,
    J: GenerateRand<R>,
    K: GenerateRand<R>,
    L: GenerateRand<R>,
> GenerateRand<R> for (A, B, C, D, E, F, G, H, I, J, K, L) {
    /// The first component, then the others from where it left the source.
    open spec fn generated_by(before: R, v: (A, B, C, D, E, F, G, H, I, J, K, L), after: R) -> bool {
        exists|mid: R| #[trigger]
            A::generated_by(before, v.0, mid) && <(B, C, D, E, F, G, H, I, J, K, L) as GenerateRand<R>>::generated_by(
                mid,
                (v.1, v.2, v.3, v.4, v.5, v.6, v.7, v.8, v.9, v.10, v.11),
                after,
            )
    }

    open spec fn generable(before: R) -> bool {
        &&& A::generable(before)
        &&& forall|a: A, mid: R| #[trigger]
            A::generated_by(before, a, mid) ==> <(B, C, D, E, F, G, H, I, J, K, L) as GenerateRand<R>>::generable(mid)
    }

    fn generate(rand: &mut R) -> (r: (A, B, C, D, E, F, G, H, I, J, K, L)) {
        let a = A::generate(rand);
        let ghost mid = *rand;
        let rest = <(B, C, D, E, F, G, H, I, J, K, L) as GenerateRand<R>>::generate(rand);
        let r = (a, rest.0, rest.1, rest.2, rest.3, rest.4, rest.5, rest.6, rest.7, rest.8, rest.9, rest.10);
        assert((r.1, r.2, r.3, r.4, r.5, r.6, r.7, r.8, r.9, r.10, r.11) == rest);
        assert(A::generated_by(*old(rand), r.0, mid));
        r
    }
}

impl<
    R: Random,
    A: GenerateRand<R>,
    B: GenerateRand<R>,
    C: GenerateRand<R>,
    D: GenerateRand<R>,
    E: GenerateRand<R>,
    F: GenerateRand<R>,
    G: GenerateRand<R>,
    H: GenerateRand<R>,
    I: GenerateRand<R>,
    J: GenerateRand<R>,
    K: GenerateRand<R>,
    L: GenerateRand<R>,
    M: GenerateRand<R>,
> GenerateRand<R> for (A, B, C, D, E, F, G, H, I, J, K, L, M) {
    /// The first component, then the others from where it left the source.
    open spec fn generated_by(before: R, v: (A, B, C, D, E, F, G, H, I, J, K, L, M), after: R) -> bool {
        exists|mid: R| #[trigger]
            A::generated_by(before, v.0, mid) && <(B, C, D, E, F, G, H, I, J, K, L, M) as GenerateRand<R>>::generated_by(
                mid,
                (v.1, v.2, v.3, v.4, v.5, v.6, v.7, v.8, v.9, v.10, v.11, v.12),
                after,
            )
    }

    open spec fn generable(before: R) -> bool {
        &&& A::generable(before)
        &&& forall|a: A, mid: R| #[trigger]
            A::generated_by(before, a, mid) ==> <(B, C, D, E, F, G, H, I, J, K, L, M) as GenerateRand<R>>::generable(mid)
    }

    fn generate(rand: &mut R) -> (r: (A, B, C, D, E, F, G, H, I, J, K, L, M)) {
        let a = A::generate(rand);
        let ghost mid = *rand;
        let rest = <(B, C, D, E, F, G, H, I, J, K, L, M) as GenerateRand<R>>::generate(rand);
        let r = (a, rest.0, rest.1, rest.2, rest.3, rest.4, rest.5, rest.6, rest.7, rest.8, rest.9, rest.10, rest.11);
        assert((r.1, r.2, r.3, r.4, r.5, r.6, r.7, r.8, r.9, r.10, r.11, r.12) == rest);
        assert(A::generated_by(*old(rand), r.0, mid));
        r
    }
}

impl<
    R: Random,
    A: GenerateRand<R>,
    B: GenerateRand<R>,
    C: GenerateRand<R>,
    D: GenerateRand<R>,
    E: GenerateRand<R>,
    F: GenerateRand<R>,
    G: GenerateRand<R>,
    H: GenerateRand<R>,
    I: GenerateRand<R>,
    J: GenerateRand<R>,
    K: GenerateRand<R>,
    L: GenerateRand<R>,
    M: GenerateRand<R>,
    N: GenerateRand<R>,
> GenerateRand<R> for (A, B, C, D, E, F, G, H, I, J, K, L, M, N) {
    /// The first component, then the others from where it left the source.
    open spec fn generated_by(before: R, v: (A, B, C, D, E, F, G, H, I, J, K, L, M, N), after: R) -> bool {
        exists|mid: R| #[trigger]
            A::generated_by(before, v.0, mid) && <(B, C, D, E, F, G, H, I, J, K, L, M, N) as GenerateRand<R>>::generated_by(
                mid,
                (v.1, v.2, v.3, v.4, v.5, v.6, v.7, v.8, v.9, v.10, v.11, v.12, v.13),
                after,
            )
    }

    open spec fn generable(before: R) -> bool {
        &&& A::generable(before)
        &&& forall|a: A, mid: R| #[trigger]
            A::generated_by(before, a, mid) ==> <(B, C, D, E, F, G, H, I, J, K, L, M, N) as GenerateRand<R>>::generable(mid)
    }

    fn generate(rand: &mut R) -> (r: (A, B, C, D, E, F, G, H, I, J, K, L, M, N)) {
        let a = A::generate(rand);
        let ghost mid = *rand;
        let rest = <(B, C, D, E, F, G, H, I, J, K, L, M, N) as GenerateRand<R>>::generate(rand);
        let r = (a, rest.0, rest.1, rest.2, rest.3, rest.4, rest.5, rest.6, rest.7, rest.8, rest.9, rest.10, rest.11, rest.12);
        assert((r.1, r.2, r.3, r.4, r.5, r.6, r.7, r.8, r.9, r.10, r.11, r.12, r.13) == rest);
        assert(A::generated_by(*old(rand), r.0, mid));
        r
    }
}

impl<
    R: Random,
    A: GenerateRand<R>,
    B: GenerateRand<R>,
    C: GenerateRand<R>,
    D: GenerateRand<R>,
    E: GenerateRand<R>,
    F: GenerateRand<R>,
    G: GenerateRand<R>,
    H: GenerateRand<R>,
    I: GenerateRand<R>,
    J: GenerateRand<R>,
    K: GenerateRand<R>,
    L: GenerateRand<R>,
    M: GenerateRand<R>,
    N: GenerateRand<R>,
    O: GenerateRand<R>,
> GenerateRand<R> for (A, B, C, D, E, F, G, H, I, J, K, L, M, N, O) {
    /// The first component, then the others from where it left the source.
    open spec fn generated_by(before: R, v: (A, B, C, D, E, F, G, H, I, J, K, L, M, N, O), after: R) -> bool {
        exists|mid: R| #[trigger]
            A::generated_by(before, v.0, mid) && <(B, C, D, E, F, G, H, I, J, K, L, M, N, O) as GenerateRand<R>>::generated_by(
                mid,
                (v.1, v.2, v.3, v.4, v.5, v.6, v.7, v.8, v.9, v.10, v.11, v.12, v.13, v.14),
                after,
            )
    }

    open spec fn generable(before: R) -> bool {
        &&& A::generable(before)
        &&& forall|a: A, mid: R| #[trigger]
            A::generated_by(before, a, mid) ==> <(B, C, D, E, F, G, H, I, J, K, L, M, N, O) as GenerateRand<R>>::generable(mid)
    }

    fn generate(rand: &mut R) -> (r: (A, B, C, D, E, F, G, H, I, J, K, L, M, N, O)) {
        let a = A::generate(rand);
        let ghost mid = *rand;
        let rest = <(B, C, D, E, F, G, H, I, J, K, L, M, N, O) as GenerateRand<R>>::generate(rand);
        let r = (a, rest.0, rest.1, rest.2, rest.3, rest.4, rest.5, rest.6, rest.7, rest.8, rest.9, rest.10, rest.11, rest.12, rest.13);
        assert((r.1, r.2, r.3, r.4, r.5, r.6, r.7, r.8, r.9, r.10, r.11, r.12, r.13, r.14) == rest);
        assert(A::generated_by(*old(rand), r.0, mid));
        r
    }
}

impl<
    R: Random,
    A: GenerateRand<R>,
    B: GenerateRand<R>,
    C: GenerateRand<R>,
    D: GenerateRand<R>,
    E: GenerateRand<R>,
    F: GenerateRand<R>,
    G: GenerateRand<R>,
    H: GenerateRand<R>,
    I: GenerateRand<R>,
    J: GenerateRand<R>,
    K: GenerateRand<R>,
    L: GenerateRand<R>,
    M: GenerateRand<R>,
    N: GenerateRand<R>,
    O: GenerateRand<R>,
    P: GenerateRand<R>,
> GenerateRand<R> for (A, B, C, D, E, F, G, H, I, J, K, L, M, N, O, P) {
    /// The first component, then the others from where it left the source.
    open spec fn generated_by(before: R, v: (A, B, C, D, E, F, G, H, I, J, K, L, M, N, O, P), after: R) -> bool {
        exists|mid: R| #[trigger]
            A::generated_by(before, v.0, mid) && <(B, C, D, E, F, G, H, I, J, K, L, M, N, O, P) as GenerateRand<R>>::generated_by(
                mid,
                (v.1, v.2, v.3, v.4, v.5, v.6, v.7, v.8, v.9, v.10, v.11, v.12, v.13, v.14, v.15),
                after,
            )
    }

    open spec fn generable(before: R) -> bool {
        &&& A::generable(before)
        &&& forall|a: A, mid: R| #[trigger]
            A::generated_by(before, a, mid) ==> <(B, C, D, E, F, G, H, I, J, K, L, M, N, O, P) as GenerateRand<R>>::generable(mid)
    }

    fn generate(rand: &mut R) -> (r: (A, B, C, D, E, F, G, H, I, J, K, L, M, N, O, P)) {
        let a = A::generate(rand);
        let ghost mid = *rand;
        let rest = <(B, C, D, E, F, G, H, I, J, K, L, M, N, O, P) as GenerateRand<R>>::generate(rand);
        let r = (a, rest.0, rest.1, rest.2, rest.3, rest.4, rest.5, rest.6, rest.7, rest.8, rest.9, rest.10, rest.11, rest.12, rest.13, rest.14);
        assert((r.1, r.2, r.3, r.4, r.5, r.6, r.7, r.8, r.9, r.10, r.11, r.12, r.13, r.14, r.15) == rest);
        assert(A::generated_by(*old(rand), r.0, mid));
        r
    }
}

/// A generated character is a Unicode scalar value: the first drawn `u32`
/// that is one.
pub proof fn lemma_char_is_scalar<R: Random>(before: R, c: char, after: R)
    requires
        <char as GenerateRand<R>>::generated_by(before, c, after),
    ensures
        is_scalar_value(c as u32),
        exists|k: nat| #[trigger] first_scalar_draw(before, k) && c as u32 == drawn_u32(before, k),
{
    let k = choose|k: nat|
        {
            &&& #[trigger] first_scalar_draw(before, k)
            &&& c as u32 == drawn_u32(before, k)
            &&& after == after_draws(before, 4, k + 1)
        };
    assert(first_scalar_draw(before, k));
}

/// A two-element array holds two values generated one after the other: the
/// first at index 0, the second at index 1.
pub proof fn lemma_array_pair_order<R: Random, T: GenerateRand<R> + Copy + Default>(
    before: R,
    v: [T; 2],
    after: R,
)
    requires
        <[T; 2] as GenerateRand<R>>::generated_by(before, v, after),
    ensures
        exists|mid: R| #[trigger]
            T::generated_by(before, v@[0], mid) && T::generated_by(mid, v@[1], after),
{
    let states = choose|states: Seq<R>|
        {
            &&& #[trigger] is_chain(states, v@)
            &&& states[0] == before
            &&& states.last() == after
        };
    let first = 0int;
    let second = 1int;
    assert(T::generated_by(states[first], v@[first], states[first + 1]));
    assert(T::generated_by(states[second], v@[second], states[second + 1]));
    assert(states.last() == states[second + 1]);
}

/// A pair holds two values generated one after the other: the left one
/// first, then the right one from where the left one left the source.
pub proof fn lemma_tuple_pair_order<R: Random, A: GenerateRand<R>, B: GenerateRand<R>>(
    before: R,
    v: (A, B),
    after: R,
)
    requires
        <(A, B) as GenerateRand<R>>::generated_by(before, v, after),
    ensures
        exists|mid: R| #[trigger]
            A::generated_by(before, v.0, mid) && B::generated_by(mid, v.1, after),
{
}

/// A triple holds three values generated one after the other, from left to
/// right, each from where the one before it left the source.
pub proof fn lemma_tuple_triple_order<
    R: Random,
    A: GenerateRand<R>,
    B: GenerateRand<R>,
    C: GenerateRand<R>,
>(before: R, v: (A, B, C), after: R)
    requires
        <(A, B, C) as GenerateRand<R>>::generated_by(before, v, after),
    ensures
        exists|m1: R, m2: R| #[trigger]
            A::generated_by(before, v.0, m1) && #[trigger] B::generated_by(m1, v.1, m2)
                && C::generated_by(m2, v.2, after),
{
    let m1 = choose|mid: R| #[trigger]
        A::generated_by(before, v.0, mid) && <(B, C) as GenerateRand<R>>::generated_by(
            mid,
            (v.1, v.2),
            after,
        );
    let m2 = choose|mid: R| #[trigger]
        B::generated_by(m1, v.1, mid) && C::generated_by(mid, v.2, after);
    assert(A::generated_by(before, v.0, m1) && B::generated_by(m1, v.1, m2));
}

} // verus!

