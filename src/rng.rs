//! A small deterministic generator: each step multiplies the state by a
//! fixed odd constant, wrapping.
use vstd::prelude::*;

verus! {

pub const HASH: usize = 0x811c9dc5;

/// The state after `k` steps from `s`.
pub open spec fn advanced(s: usize, k: nat) -> usize
    decreases k,
{
    if k == 0 {
        s
    } else {
        advanced(s, (k - 1) as nat).wrapping_mul(HASH)
    }
}

#[derive(Clone, Copy, Debug)]
pub struct Rng {
    state: usize,
}

impl Rng {
    pub closed spec fn view(&self) -> usize {
        self.state
    }

    pub fn new(seed: usize) -> (r: Rng)
        ensures
            r@ == seed,
    {
        Rng { state: seed }
    }

    /// Advances the state by one step.
    pub fn mutate_state(&mut self)
        ensures
            final(self)@ == old(self)@.wrapping_mul(HASH),
    {
        self.state = self.state.wrapping_mul(HASH);
    }

    /// The value of the next step, without advancing.
    pub fn next(&self) -> (r: usize)
        ensures
            r == self@.wrapping_mul(HASH),
    {
        self.state.wrapping_mul(HASH)
    }

    /// A value in `min..max`.
    pub fn range(&self, min: usize, max: usize) -> (r: usize)
        requires
            min < max,
        ensures
            r as int == min as int + (self@.wrapping_mul(HASH) as int) % ((max - min) as int),
            min <= r < max,
    {
        min + self.next() % (max - min)
    }

    /// Whether the next value is even.
    pub fn bool(&self) -> (r: bool)
        ensures
            r == ((self@.wrapping_mul(HASH) as int) % 2 == 0),
    {
        self.next() % 2 == 0
    }

    /// The generators of the next `n` steps, in order.
    pub fn get_series(&self, n: usize) -> (r: Vec<Rng>)
        ensures
            r@.len() == n,
            forall|i: int| 0 <= i < n ==> (#[trigger] r@[i])@ == advanced(self@, (i + 1) as nat),
    {
        let mut r: Vec<Rng> = Vec::new();
        let mut cur = *self;
        let mut i: usize = 0;
        while i < n
            invariant
                i <= n,
                r@.len() == i,
                cur@ == advanced(self@, i as nat),
                forall|j: int| 0 <= j < i ==> (#[trigger] r@[j])@ == advanced(self@, (j + 1) as nat),
            decreases n - i,
        {
            cur.mutate_state();
            r.push(cur);
            i = i + 1;
        }
        r
    }
}

} // verus!
