//! The size table: the immutable mapping from a ball's size rank to its
//! physical diameter and to the fixed vertical velocity it is launched with
//! after floor contact.
//!
//! Ranks run from 1 (smallest, terminal) to 5 (largest). The domain is closed
//! and small, so the table is a fixed array indexed by rank, not a dynamic
//! dictionary. A lookup outside the domain is a programming error, ruled out
//! by precondition rather than recovered from.

use vstd::prelude::*;
use crate::config::LIMIT;

verus! {

/// Immutable rank-indexed physical properties: entry `r - 1` of each array
/// belongs to rank `r`.
#[derive(Clone, Copy, Debug)]
pub struct SizeTable {
    pub diameters: [i64; 5],
    pub bounce_velocities: [i64; 5],
}

impl SizeTable {
    /// The diameter of a ball of rank `rank` (side length of its square
    /// collider).
    pub open spec fn spec_diameter(self, rank: int) -> int {
        self.diameters@[rank - 1] as int
    }

    /// The vertical velocity a ball of rank `rank` is given on floor contact.
    pub open spec fn spec_bounce(self, rank: int) -> int {
        self.bounce_velocities@[rank - 1] as int
    }

    /// Every entry non-negative and within the global coordinate limit.
    pub open spec fn wf(self) -> bool {
        forall|r: int|
            #![trigger self.spec_diameter(r)]
            #![trigger self.spec_bounce(r)]
            1 <= r <= 5 ==> {
                &&& 0 <= self.spec_diameter(r) <= LIMIT
                &&& 0 <= self.spec_bounce(r) <= LIMIT
            }
    }

    /// The sample table: diameters 20..100 and bounce impulses 6..14, both
    /// growing with rank so that larger balls bounce higher.
    pub fn sample() -> (t: SizeTable)
        ensures
            t.wf(),
            forall|r: int| 1 <= r <= 5 ==> #[trigger] t.spec_diameter(r) == 20 * r,
            forall|r: int| 1 <= r <= 5 ==> #[trigger] t.spec_bounce(r) == 4 + 2 * r,
    {
        let t = SizeTable {
            diameters: [20, 40, 60, 80, 100],
            bounce_velocities: [6, 8, 10, 12, 14],
        };
        proof {
            assert forall|r: int| 1 <= r <= 5 implies #[trigger] t.spec_diameter(r) == 20 * r
                && #[trigger] t.spec_bounce(r) == 4 + 2 * r by {
                assert(t.diameters@[r - 1] == 20 * r);
                assert(t.bounce_velocities@[r - 1] == 4 + 2 * r);
            }
        }
        t
    }

    /// Look up the diameter of rank `rank`. Total over ranks 1 to 5;
    /// any other rank is a programming error, excluded by precondition.
    pub fn diameter(&self, rank: u8) -> (d: i64)
        requires
            1 <= rank <= 5,
        ensures
            d == self.spec_diameter(rank as int),
    {
        self.diameters[(rank - 1) as usize]
    }

    /// Look up the post-bounce launch velocity of rank `rank`. Total over
    /// ranks 1 to 5; any other rank is excluded by precondition.
    pub fn bounce_impulse(&self, rank: u8) -> (v: i64)
        requires
            1 <= rank <= 5,
        ensures
            v == self.spec_bounce(rank as int),
    {
        self.bounce_velocities[(rank - 1) as usize]
    }
}

} // verus!

