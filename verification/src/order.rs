//! The total order on chunks: fewer block entities rank lower, and among
//! chunks with as many, the smaller coordinates do.

use crate::chunk::{Chunk, RankKey};
use std::cmp::Ordering;
use vstd::prelude::*;
use vstd::std_specs::cmp::{PartialEqSpecImpl, PartialOrdSpecImpl};

verus! {

/// How `left` stands to `right` in the ranking.
pub open spec fn ordering(left: RankKey, right: RankKey) -> Ordering {
    if left.below(right) {
        Ordering::Less
    } else if right.below(left) {
        Ordering::Greater
    } else {
        Ordering::Equal
    }
}

/// Of two keys, one ranks below the other or they are the same key.
pub proof fn lemma_order_total(left: RankKey, right: RankKey)
    ensures
        left.below(right) || right.below(left) || left == right,
        !(left.below(right) && right.below(left)),
        !left.below(left),
        ordering(left, right) == Ordering::Equal <==> left == right,
{
}

/// Ranking below is transitive.
pub proof fn lemma_order_transitive(a: RankKey, b: RankKey, c: RankKey)
    requires
        a.below(b),
        b.below(c),
    ensures
        a.below(c),
{
}

impl Chunk {
    /// Compares two chunks by their rank.
    pub fn cmp(&self, other: &Chunk) -> (order: Ordering)
        ensures
            order == ordering(self@.key(), other@.key()),
    {
        let count = self.block_entities.len();
        let other_count = other.block_entities.len();
        if count < other_count {
            Ordering::Less
        } else if count > other_count {
            Ordering::Greater
        } else if self.x < other.x {
            Ordering::Less
        } else if self.x > other.x {
            Ordering::Greater
        } else if self.z < other.z {
            Ordering::Less
        } else if self.z > other.z {
            Ordering::Greater
        } else {
            Ordering::Equal
        }
    }

    /// Whether this chunk ranks strictly below `other`.
    pub fn ranks_below(&self, other: &Chunk) -> (below: bool)
        ensures
            below == self@.key().below(other@.key()),
    {
        match self.cmp(other) {
            Ordering::Less => true,
            _ => false,
        }
    }

    /// Whether the two chunks have the same rank: as many block entities
    /// and the same coordinates.
    pub fn same_rank(&self, other: &Chunk) -> (same: bool)
        ensures
            same == (self@.key() == other@.key()),
    {
        match self.cmp(other) {
            Ordering::Equal => true,
            _ => false,
        }
    }
}

impl PartialEq for Chunk {
    fn eq(&self, other: &Chunk) -> (equal: bool) {
        self.same_rank(other)
    }
}

impl PartialEqSpecImpl for Chunk {
    open spec fn obeys_eq_spec() -> bool {
        true
    }

    open spec fn eq_spec(&self, other: &Chunk) -> bool {
        self@.key() == other@.key()
    }
}

impl Eq for Chunk {

}

impl PartialOrd for Chunk {
    fn partial_cmp(&self, other: &Chunk) -> (order: Option<Ordering>) {
        Some(self.cmp(other))
    }
}

impl PartialOrdSpecImpl for Chunk {
    open spec fn obeys_partial_cmp_spec() -> bool {
        true
    }

    open spec fn partial_cmp_spec(&self, other: &Chunk) -> Option<Ordering> {
        Some(ordering(self@.key(), other@.key()))
    }
}

} // verus!
