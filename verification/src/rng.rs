//! A tiny, self-contained xorshift64* generator.
//!
//! It is used only for choices that are not security-sensitive: which destination
//! to pay, how large an amount to send, how to jitter a schedule. Being seedable
//! makes those choices reproducible.

use vstd::prelude::*;

verus! {

/// One step of the generator's state.
pub open spec fn scrambled(x: u64) -> u64 {
    let a = x ^ (x >> 12u64);
    let b = a ^ (a << 25u64);
    b ^ (b >> 27u64)
}

/// The output that belongs to a state.
pub open spec fn output(state: u64) -> u64 {
    vstd::wrapping::u64_specs::wrapping_mul(state, 0x2545_F491_4F6C_DD1D)
}

/// Two outputs as one number: the first in the upper half.
pub open spec fn wide_draw(state: u64) -> nat {
    let s1 = scrambled(state);
    let s2 = scrambled(s1);
    (output(s1) as nat) * 0x1_0000_0000_0000_0000 + output(s2) as nat
}

/// The state after a draw below some bound.
pub open spec fn after_draw(state: u64) -> u64 {
    scrambled(scrambled(state))
}

/// The value a draw below `n` gives.
pub open spec fn drawn(state: u64, n: nat) -> nat {
    if n == 0 {
        0
    } else {
        wide_draw(state) % n
    }
}

/// Eight bytes as a number, least significant first.
pub open spec fn little_endian(b: Seq<u8>) -> int {
    b[0] + 0x100 * b[1] + 0x1_0000 * b[2] + 0x100_0000 * b[3] + 0x1_0000_0000 * b[4]
        + 0x100_0000_0000 * b[5] + 0x1_0000_0000_0000 * b[6] + 0x100_0000_0000_0000 * b[7]
}

/// The state that eight bytes seed: their number, with the lowest bit forced.
pub open spec fn seeded_state(b: Seq<u8>) -> u64 {
    (little_endian(b) as u64) | 1
}

/// `getrandom::getrandom` fills the buffer with bytes from the operating system, or
/// reports that it could not. Nothing is claimed of the bytes.
#[verifier::external_body]
fn entropy() -> (r: Option<[u8; 8]>) {
    let mut b = [0u8; 8];
    match getrandom::getrandom(&mut b) {
        Ok(()) => Some(b),
        Err(_) => None,
    }
}

/// A seedable pseudo-random generator.
#[derive(Clone, Debug)]
pub struct Rng(u64);

impl Rng {
    /// The generator's state.
    pub closed spec fn view(&self) -> u64 {
        self.0
    }

    /// The state is not the generator's fixed point.
    pub open spec fn wf(&self) -> bool {
        self@ != 0
    }

    /// Seed from the operating system: the generator that [`Rng::from_bytes`] makes of the
    /// eight bytes it gave, or `None` where it gave none. Which bytes come, and whether any
    /// do, is not said.
    pub fn from_entropy() -> (r: Option<Self>)
        ensures
            r matches Some(g) ==> g.wf() && exists|b: [u8; 8]| g@ == #[trigger] seeded_state(b@),
    {
        match entropy() {
            Some(b) => {
                let g = Self::from_bytes(b);
                assert(g@ == seeded_state(b@));
                Some(g)
            },
            None => None,
        }
    }

    /// Seed from eight bytes.
    pub fn from_bytes(b: [u8; 8]) -> (g: Self)
        ensures
            g.wf(),
            g@ == seeded_state(b@),
    {
        let n: u64 = b[0] as u64 + 0x100 * (b[1] as u64) + 0x1_0000 * (b[2] as u64) + 0x100_0000 * (
        b[3] as u64) + 0x1_0000_0000 * (b[4] as u64) + 0x100_0000_0000 * (b[5] as u64)
            + 0x1_0000_0000_0000 * (b[6] as u64) + 0x100_0000_0000_0000 * (b[7] as u64);
        Self::seeded(n)
    }

    /// Seed deterministically. The lowest bit is forced, so the state is never the
    /// zero fixed point.
    pub fn seeded(seed: u64) -> (g: Self)
        ensures
            g.wf(),
            g@ == seed | 1,
    {
        assert(seed | 1 != 0) by (bit_vector);
        Self(seed | 1)
    }

    fn next_u64(&mut self) -> (r: u64)
        ensures
            final(self)@ == scrambled(old(self)@),
            r == output(scrambled(old(self)@)),
    {
        let mut x: u64 = self.0;
        x = x ^ (x >> 12u64);
        x = x ^ (x << 25u64);
        x = x ^ (x >> 27u64);
        self.0 = x;
        x.wrapping_mul(0x2545_F491_4F6C_DD1D)
    }

    /// A uniform value of the whole width.
    pub(crate) fn wide(&mut self) -> (r: u128)
        ensures
            r == wide_draw(old(self)@),
            final(self)@ == after_draw(old(self)@),
            old(self).wf() ==> final(self).wf(),
    {
        proof {
            law_state_never_becomes_zero(self@);
            law_state_never_becomes_zero(scrambled(self@));
        }
        let hi: u64 = self.next_u64();
        let lo: u64 = self.next_u64();
        (hi as u128) * 0x1_0000_0000_0000_0000 + (lo as u128)
    }

    /// A uniform value in `[0, n)`; `0` if `n == 0`, which draws nothing.
    pub fn below(&mut self, n: u128) -> (r: u128)
        ensures
            r == drawn(old(self)@, n as nat),
            n > 0 ==> r < n,
            final(self)@ == if n == 0 {
                old(self)@
            } else {
                after_draw(old(self)@)
            },
            old(self).wf() ==> final(self).wf(),
    {
        if n == 0 {
            return 0;
        }
        self.wide() % n
    }
}

/// The generator never falls into its zero fixed point.
pub proof fn law_state_never_becomes_zero(x: u64)
    ensures
        x != 0 ==> scrambled(x) != 0,
{
    assert(x != 0 ==> ({
        let a = x ^ (x >> 12u64);
        let b = a ^ (a << 25u64);
        b ^ (b >> 27u64)
    }) != 0) by (bit_vector);
}

/// Equal seeds draw equal values: the draw is a function of the state.
pub proof fn law_draws_are_reproducible(a: Rng, b: Rng, n: nat)
    requires
        a@ == b@,
    ensures
        drawn(a@, n) == drawn(b@, n),
        after_draw(a@) == after_draw(b@),
{
}

/// A draw below a bound is below it, and differs from the whole draw by a multiple of the
/// bound: every value below the bound is some draw's.
pub proof fn law_a_draw_is_the_whole_draw_reduced(state: u64, n: nat)
    requires
        n > 0,
    ensures
        drawn(state, n) < n,
        exists|k: nat| wide_draw(state) == #[trigger] (k * n) + drawn(state, n),
        wide_draw(state) < n ==> drawn(state, n) == wide_draw(state),
{
    let w = wide_draw(state);
    vstd::arithmetic::div_mod::lemma_fundamental_div_mod(w as int, n as int);
    let k = w / n;
    assert(w == k * n + w % n) by (nonlinear_arith)
        requires
            w == n * k + w % n,
    ;
    if w < n {
        vstd::arithmetic::div_mod::lemma_small_mod(w, n);
    }
}

/// The whole draw is two outputs side by side, of the next two states.
pub proof fn law_the_whole_draw_is_two_outputs(state: u64)
    ensures
        wide_draw(state) / 0x1_0000_0000_0000_0000 == output(scrambled(state)),
        wide_draw(state) % 0x1_0000_0000_0000_0000 == output(scrambled(scrambled(state))),
        after_draw(state) == scrambled(scrambled(state)),
{
    let w = wide_draw(state) as int;
    let (hi, lo) = (output(scrambled(state)) as int, output(scrambled(scrambled(state))) as int);
    assert(w == hi * 0x1_0000_0000_0000_0000 + lo);
}

/// Eight bytes seed the number they write, least significant first, but for its lowest bit,
/// which is set.
pub proof fn law_a_seed_is_its_bytes(b: Seq<u8>)
    requires
        b.len() == 8,
    ensures
        ({
            let n = little_endian(b);
            &&& seeded_state(b) % 2 == 1
            &&& seeded_state(b) == if n % 2 == 1 {
                n
            } else {
                n + 1
            }
            &&& n % 256 == b[0]
            &&& n / 0x100_0000_0000_0000 == b[7]
        }),
{
    let n = little_endian(b);
    let m = n as u64;
    assert(0 <= n <= u64::MAX);
    assert(m | 1 == if m % 2 == 1 { m } else { (m + 1) as u64 }) by (bit_vector);
    assert((m | 1) % 2 == 1) by (bit_vector);
}

/// A step of the generator mixes the bits and loses none: it respects exclusive or, and two
/// states never step to the same one.
pub proof fn law_a_step_loses_nothing(x: u64, y: u64)
    ensures
        scrambled(x ^ y) == scrambled(x) ^ scrambled(y),
        scrambled(x) == scrambled(y) ==> x == y,
{
    assert(({
        let a = (x ^ y) ^ ((x ^ y) >> 12u64);
        let b = a ^ (a << 25u64);
        b ^ (b >> 27u64)
    }) == ({
        let a = x ^ (x >> 12u64);
        let b = a ^ (a << 25u64);
        b ^ (b >> 27u64)
    }) ^ ({
        let a = y ^ (y >> 12u64);
        let b = a ^ (a << 25u64);
        b ^ (b >> 27u64)
    })) by (bit_vector);
    law_state_never_becomes_zero(x ^ y);
    assert(x ^ y == 0 ==> x == y) by (bit_vector);
    let s = scrambled(x);
    assert(s ^ s == 0) by (bit_vector);
}

} // verus!
