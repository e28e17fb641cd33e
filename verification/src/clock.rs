use vstd::prelude::*;

verus! {

/// A monotonically increasing simulation tick.
#[derive(Clone, Copy, Debug, PartialEq, Eq, PartialOrd, Ord, Structural)]
pub struct Tick(u64);

impl Default for Tick {
    /// The first tick is tick zero.
    fn default() -> (tick: Self)
        ensures
            tick.spec_number() == 0,
    {
        Tick(0)
    }
}

/// The successor of a tick number, saturating at the largest number.
pub open spec fn next_tick_number(number: u64) -> u64 {
    if number == u64::MAX {
        u64::MAX
    } else {
        (number + 1) as u64
    }
}

impl Tick {
    /// The tick's number as a plain integer.
    pub closed spec fn spec_number(self) -> u64 {
        self.0
    }

    /// Two ticks are the same exactly when their numbers are.
    pub broadcast proof fn lemma_number_identifies(a: Tick, b: Tick)
        ensures
            (#[trigger] a.spec_number() == #[trigger] b.spec_number()) <==> a == b,
    {
    }

    pub fn number(self) -> (n: u64)
        ensures
            n == self.spec_number(),
    {
        self.0
    }

    /// Advances to the next tick, saturating at the largest representable tick.
    pub fn advance(&mut self)
        ensures
            final(self).spec_number() == next_tick_number(old(self).spec_number()),
    {
        self.0 = self.0.saturating_add(1);
    }
}

} // verus!
