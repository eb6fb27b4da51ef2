//! Block heights on the counterparty chain.

use vstd::prelude::*;

verus! {

/// The two-component block-height identifier: a revision (chain upgrade era)
/// and a height within that revision.  The codec performs no arithmetic on
/// heights; the pair is preserved exactly.
#[derive(Debug, Clone, Copy, PartialEq, Eq, Structural)]
pub struct Height {
    pub revision_number: u64,
    pub revision_height: u64,
}

impl Height {
    pub fn new(revision_number: u64, revision_height: u64) -> (r: Height)
        ensures
            r.revision_number == revision_number,
            r.revision_height == revision_height,
    {
        Height { revision_number, revision_height }
    }

    /// The canonical in-process representation: a pair of integers.
    pub open spec fn spec_to_pair(self) -> (u64, u64) {
        (self.revision_number, self.revision_height)
    }

    /// A height built back from its pair representation.
    pub open spec fn spec_from_pair(p: (u64, u64)) -> Height {
        Height { revision_number: p.0, revision_height: p.1 }
    }

    pub fn to_pair(&self) -> (r: (u64, u64))
        ensures
            r == self.spec_to_pair(),
    {
        (self.revision_number, self.revision_height)
    }

    pub fn from_pair(p: (u64, u64)) -> (r: Height)
        ensures
            r == Height::spec_from_pair(p),
    {
        Height { revision_number: p.0, revision_height: p.1 }
    }
}

/// Turning any height into its pair and back yields the same height,
/// including (0, 0) and the maximal values.
pub proof fn lemma_height_round_trip(h: Height)
    ensures
        Height::spec_from_pair(h.spec_to_pair()) == h,
{
}

/// Turning any pair into a height and back yields the same pair: no pair of
/// integers is rejected or altered.
pub proof fn lemma_pair_round_trip(p: (u64, u64))
    ensures
        Height::spec_from_pair(p).spec_to_pair() == p,
{
}

} // verus!
