use vstd::prelude::*;

verus! {

/// Timer ticks between field evolutions unless set otherwise.
pub const DEFAULT_EVOLUTION_DIVISOR: u64 = 10;

/// When the timer drives the field substrate: one evolution every
/// `divisor` ticks.
#[derive(Debug, Clone, Copy, PartialEq, Eq, Structural)]
pub struct FieldClock {
    divisor: u64,
}

impl FieldClock {
    pub closed spec fn divisor_spec(&self) -> u64 {
        self.divisor
    }

    /// The default period, ten ticks.
    pub fn new() -> (c: Self)
        ensures
            c.divisor_spec() == DEFAULT_EVOLUTION_DIVISOR,
    {
        FieldClock { divisor: DEFAULT_EVOLUTION_DIVISOR }
    }

    /// Sets the period to `divisor`, or to 1 when `divisor` is 0.
    pub fn set_evolution_divisor(&mut self, divisor: u64)
        ensures
            final(self).divisor_spec() == (if divisor == 0 { 1 } else { divisor }),
    {
        self.divisor = if divisor < 1 { 1 } else { divisor };
    }

    /// Whether the field evolves on timer tick `tick`: when `tick` is a
    /// multiple of the period (taken as at least 1).
    pub fn maybe_evolve(&self, tick: u64) -> (b: bool)
        ensures
            b == (tick % (if self.divisor_spec() == 0 { 1 } else { self.divisor_spec() }) == 0),
    {
        let divisor = if self.divisor < 1 { 1 } else { self.divisor };
        tick % divisor == 0
    }
}

} // verus!
