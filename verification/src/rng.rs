//! Small xorshift generator for the game demos.

use vstd::prelude::*;

verus! {

/// One xorshift32 step.
pub open spec fn xorshift(x: u32) -> u32 {
    let a = x ^ ((x << 13u32) as u32);
    let b = a ^ (a >> 17u32);
    b ^ ((b << 5u32) as u32)
}

/// Xorshift PRNG state.
#[derive(Clone, Copy)]
pub struct Rng(pub u32);

impl Rng {
    /// A generator seeded with `seed`; the low bit is forced on so the state
    /// is never the fixed point 0.
    pub fn new(seed: u32) -> (r: Rng)
        ensures
            r.0 == seed | 1,
    {
        Rng(seed | 1)
    }

    /// Advance the state and return it.
    pub fn next(&mut self) -> (x: u32)
        ensures
            x == xorshift(old(self).0),
            final(self).0 == x,
    {
        let mut x = self.0;
        x ^= x << 13;
        x ^= x >> 17;
        x ^= x << 5;
        self.0 = x;
        x
    }

    /// A value below `n` (0 when `n` is 0), taken from the next state.
    pub fn below(&mut self, n: usize) -> (r: usize)
        ensures
            n == 0 ==> r == 0 && final(self).0 == old(self).0,
            n > 0 ==> r == (xorshift(old(self).0) as usize) % n && r < n && final(self).0
                == xorshift(old(self).0),
    {
        if n == 0 {
            0
        } else {
            (self.next() as usize) % n
        }
    }
}

/// The generator never reaches the stuck state 0: a step from a nonzero state
/// gives a nonzero state, and a new generator starts nonzero.
pub proof fn lemma_state_never_zero(x: u32)
    ensures
        x | 1 != 0,
        x != 0 ==> xorshift(x) != 0,
{
    assert(x | 1u32 != 0) by (bit_vector);
    assert(x != 0 ==> {
        let a = x ^ ((x << 13u32) as u32);
        let b = a ^ (a >> 17u32);
        b ^ ((b << 5u32) as u32) != 0
    }) by (bit_vector);
}

} // verus!
