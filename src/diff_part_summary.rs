//! How often one kind of event occurred, with one remembered occurrence.
use vstd::prelude::*;
use crate::binary64::{Binary64, NAN_BITS};

verus! {

/// A count of events of one kind (nonzero differences, or sign changes) and
/// the values and index of a sample event: the first one, or the one last
/// forced in.
#[derive(Clone, Copy, Debug, PartialEq, Eq, Structural)]
pub struct DiffPartSummary {
    pub sample_x: Binary64,
    pub sample_y: Binary64,
    pub sample_index: usize,
    pub count: usize,
}

impl DiffPartSummary {
    /// The state before any event.
    pub open spec fn new_spec() -> DiffPartSummary {
        DiffPartSummary {
            sample_x: Binary64 { bits: NAN_BITS },
            sample_y: Binary64 { bits: NAN_BITS },
            sample_index: 0,
            count: 0,
        }
    }

    /// No events yet: count 0, NaN samples, index 0.
    pub fn new() -> (r: DiffPartSummary)
        ensures
            r == DiffPartSummary::new_spec(),
    {
        DiffPartSummary {
            sample_x: Binary64::nan(),
            sample_y: Binary64::nan(),
            sample_index: 0,
            count: 0,
        }
    }

    /// Counts one event. Its values and index become the sample when `worst`
    /// is set or when it is the first event.
    pub fn add(&mut self, x: Binary64, y: Binary64, index: usize, worst: bool)
        requires
            old(self).count < usize::MAX,
        ensures
            final(self).count == old(self).count + 1,
            (worst || old(self).count == 0) ==> final(self).sample_x == x && final(self).sample_y == y
                && final(self).sample_index == index,
            !(worst || old(self).count == 0) ==> final(self).sample_x == old(self).sample_x
                && final(self).sample_y == old(self).sample_y && final(self).sample_index == old(
                self,
            ).sample_index,
    {
        if worst || self.count == 0 {
            self.sample_x = x;
            self.sample_y = y;
            self.sample_index = index;
        }
        self.count += 1;
    }
}

} // verus!
