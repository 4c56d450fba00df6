//! Millisecond timestamps supplied by the caller.

use vstd::prelude::*;

verus! {

/// A point in time in milliseconds, given to the library from outside.
#[derive(Debug, Clone, Copy, PartialEq, Eq, PartialOrd, Ord, Hash, Default, Structural)]
pub struct Timestamp(u64);

impl Timestamp {
    /// The timestamp's value in milliseconds.
    pub closed spec fn millis(self) -> u64 {
        self.0
    }

    /// The timestamp `d` milliseconds later, saturating.
    pub closed spec fn spec_add(self, d: u64) -> Timestamp {
        if self.0 + d > u64::MAX {
            Timestamp(u64::MAX)
        } else {
            Timestamp((self.0 + d) as u64)
        }
    }

    /// A timestamp from milliseconds.
    pub fn from_millis(millis: u64) -> (r: Timestamp)
        ensures
            r.millis() == millis,
    {
        Timestamp(millis)
    }

    /// The timestamp in milliseconds.
    pub fn as_millis(&self) -> (r: u64)
        ensures
            r == self.millis(),
    {
        self.0
    }

    /// Milliseconds from `other` to `self`, or 0 when `other` is later.
    pub fn saturating_sub(&self, other: Timestamp) -> (r: u64)
        ensures
            r == (if self.millis() >= other.millis() {
                (self.millis() - other.millis()) as u64
            } else {
                0u64
            }),
    {
        if self.0 >= other.0 {
            self.0 - other.0
        } else {
            0
        }
    }

    /// The timestamp `millis` later, saturating at the largest value.
    pub fn add_millis(&self, millis: u64) -> (r: Timestamp)
        ensures
            r == self.spec_add(millis),
            r.millis() == (if self.millis() + millis > u64::MAX {
                u64::MAX
            } else {
                (self.millis() + millis) as u64
            }),
    {
        if self.0 > u64::MAX - millis {
            Timestamp(u64::MAX)
        } else {
            Timestamp(self.0 + millis)
        }
    }
}

/// Adding a duration and then measuring from the start gives the duration
/// back, as long as the sum does not saturate.
pub proof fn lemma_add_then_sub(t: Timestamp, d: u64)
    requires
        t.millis() + d <= u64::MAX,
    ensures
        t.spec_add(d).millis() - t.millis() == d,
{
}

} // verus!
