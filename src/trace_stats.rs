//! Counters kept while tracing rays, summed over a frame.
use vstd::prelude::*;

verus! {

#[derive(Clone, Copy, Debug, PartialEq, Eq, Structural)]
pub struct TraceStats {
    /// Rays taken from the work list and tested against the scene.
    pub traced: usize,
    /// Diffuse reflection rays spawned.
    pub reflected: usize,
    /// Traced rays that hit an object.
    pub hit: usize,
    /// Shadow rays cast toward the sun.
    pub shadow_traced: usize,
    /// Shadow rays that were blocked.
    pub shadow_hit: usize,
}

/// All counters at zero.
pub open spec fn zero_stats() -> TraceStats {
    TraceStats { traced: 0, reflected: 0, hit: 0, shadow_traced: 0, shadow_hit: 0 }
}

impl TraceStats {
    /// Is every counter at most `limit`?
    pub open spec fn bounded_by(self, limit: nat) -> bool {
        &&& self.traced <= limit
        &&& self.reflected <= limit
        &&& self.hit <= limit
        &&& self.shadow_traced <= limit
        &&& self.shadow_hit <= limit
    }

    /// Can `self` and `rhs` be added without overflow?
    pub open spec fn can_add(self, rhs: TraceStats) -> bool {
        &&& self.traced + rhs.traced <= usize::MAX
        &&& self.reflected + rhs.reflected <= usize::MAX
        &&& self.hit + rhs.hit <= usize::MAX
        &&& self.shadow_traced + rhs.shadow_traced <= usize::MAX
        &&& self.shadow_hit + rhs.shadow_hit <= usize::MAX
    }

    /// The field-wise sum, as a value of unbounded counters.
    pub open spec fn plus(self, rhs: TraceStats) -> TraceStats
        recommends
            self.can_add(rhs),
    {
        TraceStats {
            traced: (self.traced + rhs.traced) as usize,
            reflected: (self.reflected + rhs.reflected) as usize,
            hit: (self.hit + rhs.hit) as usize,
            shadow_traced: (self.shadow_traced + rhs.shadow_traced) as usize,
            shadow_hit: (self.shadow_hit + rhs.shadow_hit) as usize,
        }
    }

    /// Is each counter of `self` at most `limit`? Executable form of `bounded_by`.
    pub fn is_bounded_by(&self, limit: usize) -> (r: bool)
        ensures
            r == self.bounded_by(limit as nat),
    {
        self.traced <= limit && self.reflected <= limit && self.hit <= limit
            && self.shadow_traced <= limit && self.shadow_hit <= limit
    }

    /// Adds every counter of `rhs` to the same counter of `self`.
    pub fn add_assign(&mut self, rhs: TraceStats)
        requires
            old(self).can_add(rhs),
        ensures
            *final(self) == old(self).plus(rhs),
    {
        self.traced = self.traced + rhs.traced;
        self.reflected = self.reflected + rhs.reflected;
        self.hit = self.hit + rhs.hit;
        self.shadow_traced = self.shadow_traced + rhs.shadow_traced;
        self.shadow_hit = self.shadow_hit + rhs.shadow_hit;
    }
}

impl Default for TraceStats {
    fn default() -> (r: Self)
        ensures
            r == zero_stats(),
    {
        TraceStats { traced: 0, reflected: 0, hit: 0, shadow_traced: 0, shadow_hit: 0 }
    }
}

} // verus!
