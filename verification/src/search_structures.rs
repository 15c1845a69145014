//! Shared vocabulary of the similarity-search backends.

use vstd::prelude::*;

use crate::temporal_hash::TemporalHash;

verus! {

/// A tolerance already scaled into the integer distance domain, one bound
/// per distance component.
#[derive(Debug, Clone, Copy, PartialEq, Eq, Structural)]
pub struct ScaledTolerance {
    pub spatial: u32,
    pub temporal: u32,
}

/// The capability every similarity-search backend offers: seed a
/// fingerprint set, search it with optional consumption, list what is
/// still unmatched, shrink to the unmatched remainder, and count.
/// Each implementation declares its own invariant and its count of
/// unconsumed fingerprints; the contracts here are the guarantees
/// common to all backends.
pub trait SimilaritySearch: Sized {
    /// The backend's structural invariant.
    spec fn inv(&self) -> bool;

    /// How many seeded fingerprints are still unconsumed.
    spec fn unconsumed(&self) -> nat;

    /// Whether no seeded fingerprint has been consumed yet.
    spec fn unconsumed_all(&self) -> bool;

    fn seed(&mut self, new_entry: TemporalHash)
        requires
            old(self).inv(),
            new_entry@.wf(),
        ensures
            final(self).inv(),
            old(self).unconsumed_all() ==> final(self).unconsumed_all(),
    ;

    fn search(&mut self, values: &Vec<TemporalHash>, tolerance: ScaledTolerance, consume: bool)
        -> (ret: Vec<Vec<TemporalHash>>)
        requires
            old(self).inv(),
            forall|i: int| 0 <= i < values@.len() ==> (#[trigger] values@[i])@.wf(),
        ensures
            final(self).inv(),
    ;

    fn fetch_unmatched_items(&self, count: usize) -> (ret: Vec<TemporalHash>)
        requires
            self.inv(),
        ensures
            ret@.len() <= count,
            forall|i: int| 0 <= i < ret@.len() ==> (#[trigger] ret@[i])@.wf(),
            self.unconsumed() > 0 && count > 0 ==> ret@.len() > 0,
    ;

    fn into_without_unmatched(self) -> (r: Self)
        requires
            self.inv(),
        ensures
            r.inv(),
            r.unconsumed_all(),
            r.unconsumed() == self.unconsumed(),
    ;

    fn len(&self) -> (r: usize)
        requires
            self.inv(),
            self.unconsumed() <= usize::MAX,
        ensures
            self.unconsumed_all() ==> r == self.unconsumed(),
    ;
}

} // verus!
