//! An injectable source of random numbers.
//!
//! The engine draws slot positions and champion keys from a
//! [`RandSource`].  A system source samples the process-wide generator; a
//! scripted source replays a fixed list of values, so tests can force exact
//! perturbation outcomes.

use vstd::prelude::*;

use rand::RngExt;

verus! {

/// Relies on rand's `Rng::random_range` over the inclusive range
/// `lo..=hi`: the sample lies within the bounds, and the range is
/// non-empty, so the call does not panic.
#[verifier::external_body]
fn sample_range(lo: usize, hi: usize) -> (r: usize)
    requires
        lo <= hi,
    ensures
        lo <= r <= hi,
{
    rand::rng().random_range(lo..=hi)
}

/// A source of numbers drawn from integer ranges: either the system
/// generator, or a scripted replay of fixed values.
pub struct RandSource {
    pub scripted: bool,
    pub values: Vec<usize>,
    pub cursor: usize,
}

impl RandSource {
    /// The scripted value the next draw will consume (zero once the script
    /// is exhausted).
    pub open spec fn script_next(self) -> usize {
        if self.cursor < self.values@.len() {
            self.values@[self.cursor as int]
        } else {
            0
        }
    }

    /// A source backed by the system generator.
    pub fn system() -> (r: RandSource)
        ensures
            !r.scripted,
    {
        RandSource { scripted: false, values: Vec::new(), cursor: 0 }
    }

    /// A deterministic source that replays `values` in order, reducing each
    /// into the requested range, and yields zero-based draws once exhausted.
    pub fn from_script(values: Vec<usize>) -> (r: RandSource)
        ensures
            r.scripted,
            r.values@ == values@,
            r.cursor == 0,
    {
        RandSource { scripted: true, values, cursor: 0 }
    }

    /// Draw a value in the inclusive range `lo..=hi`.
    ///
    /// A scripted source consumes its next value and reduces it modulo the
    /// range width; a system source draws fresh randomness, about which
    /// nothing beyond the bounds is promised.
    pub fn next_in(&mut self, lo: usize, hi: usize) -> (r: usize)
        requires
            lo <= hi,
            hi - lo < usize::MAX,
        ensures
            lo <= r <= hi,
            old(self).scripted ==> {
                &&& final(self).scripted
                &&& final(self).values@ == old(self).values@
                &&& r as int == lo + (old(self).script_next() as int % (hi - lo + 1))
                &&& final(self).cursor as int == if old(self).cursor < old(self).values@.len() {
                    old(self).cursor + 1
                } else {
                    old(self).cursor as int
                }
            },
            !old(self).scripted ==> !final(self).scripted,
    {
        if self.scripted {
            let v: usize = if self.cursor < self.values.len() {
                let x = self.values[self.cursor];
                self.cursor = self.cursor + 1;
                x
            } else {
                0
            };
            let span = hi - lo + 1;
            lo + (v % span)
        } else {
            sample_range(lo, hi)
        }
    }
}

} // verus!
