//! Backend selection: metric tree or linear scan, serial or not.
//!
//! The two deterministic variants run their queries strictly in order.
//! Every search here runs serially, so the non-deterministic variants
//! behave identically and the flag only records the caller's choice.  The linear variants carry the exact search model; the tree
//! variants carry soundness and progress bounds.

use vstd::prelude::*;

use crate::bk_tree::BkTree;
use crate::search_structures::{ScaledTolerance, SimilaritySearch};
use crate::search_vec::{
    lemma_untainted_all_false, spec_groups_after, spec_taints_after, spec_untainted, SearchVec,
};
use crate::temporal_hash::{HashView, TemporalHash};

verus! {

pub enum SearchStructEnum {
    Bk(BkTree),
    BkDeterministic(BkTree),
    SearchVec(SearchVec),
    SearchVecDeterministic(SearchVec),
}

impl SearchStructEnum {
    pub open spec fn wf(self) -> bool {
        match self {
            SearchStructEnum::Bk(t) => t.wf(),
            SearchStructEnum::BkDeterministic(t) => t.wf(),
            SearchStructEnum::SearchVec(v) => v.wf(),
            SearchStructEnum::SearchVecDeterministic(v) => v.wf(),
        }
    }

    /// Whether this backend is a linear scan.
    pub open spec fn is_linear(self) -> bool {
        self is SearchVec || self is SearchVecDeterministic
    }

    pub open spec fn same_variant(self, other: Self) -> bool {
        &&& (self is Bk <==> other is Bk)
        &&& (self is BkDeterministic <==> other is BkDeterministic)
        &&& (self is SearchVec <==> other is SearchVec)
        &&& (self is SearchVecDeterministic <==> other is SearchVecDeterministic)
    }

    /// The seeded fingerprints of a linear backend, in seed order.
    pub open spec fn linear_entries(self) -> Seq<HashView> {
        match self {
            SearchStructEnum::SearchVec(v) => v.entry_views(),
            SearchStructEnum::SearchVecDeterministic(v) => v.entry_views(),
            _ => Seq::empty(),
        }
    }

    /// The taint flags of a linear backend.
    pub open spec fn linear_taints(self) -> Seq<bool> {
        match self {
            SearchStructEnum::SearchVec(v) => v.tainted@,
            SearchStructEnum::SearchVecDeterministic(v) => v.tainted@,
            _ => Seq::empty(),
        }
    }

    /// The number of untainted seeded fingerprints.
    pub open spec fn live_count(self) -> nat {
        match self {
            SearchStructEnum::Bk(t) => t.live_count(),
            SearchStructEnum::BkDeterministic(t) => t.live_count(),
            SearchStructEnum::SearchVec(v) => spec_untainted(v.entry_views(), v.tainted@).len(),
            SearchStructEnum::SearchVecDeterministic(v) => spec_untainted(
                v.entry_views(),
                v.tainted@,
            ).len(),
        }
    }

    /// No seeded fingerprint is tainted.
    pub open spec fn all_live(self) -> bool {
        match self {
            SearchStructEnum::Bk(t) => t.all_live(),
            SearchStructEnum::BkDeterministic(t) => t.all_live(),
            SearchStructEnum::SearchVec(v) => forall|j: int|
                0 <= j < v.tainted@.len() ==> !v.tainted@[j],
            SearchStructEnum::SearchVecDeterministic(v) => forall|j: int|
                0 <= j < v.tainted@.len() ==> !v.tainted@[j],
        }
    }

    /// Choose a backend: linear scan or metric tree, serial queries or
    /// not.
    pub fn new(vec: bool, deterministic: bool) -> (r: Self)
        ensures
            r.wf(),
            r.all_live(),
            r.live_count() == 0,
            r.is_linear() == vec,
            r.linear_entries() == Seq::<HashView>::empty(),
            r.linear_taints() == Seq::<bool>::empty(),
    {
        match (vec, deterministic) {
            (false, false) => SearchStructEnum::Bk(BkTree::new()),
            (false, true) => SearchStructEnum::BkDeterministic(BkTree::new()),
            (true, false) => SearchStructEnum::SearchVec(SearchVec::new()),
            (true, true) => SearchStructEnum::SearchVecDeterministic(SearchVec::new()),
        }
    }

    /// Add a fingerprint to the search set, untainted.
    pub fn seed(&mut self, new_entry: TemporalHash)
        requires
            old(self).wf(),
            new_entry@.wf(),
        ensures
            final(self).wf(),
            final(self).same_variant(*old(self)),
            !final(self).is_linear() ==> final(self).live_count() == old(self).live_count() + 1,
            old(self).all_live() ==> final(self).all_live(),
            final(self).is_linear() ==> final(self).linear_entries() == old(
                self,
            ).linear_entries().push(new_entry@) && final(self).linear_taints() == old(
                self,
            ).linear_taints().push(false),
    {
        match self {
            SearchStructEnum::Bk(t) => t.seed(new_entry),
            SearchStructEnum::BkDeterministic(t) => t.seed(new_entry),
            SearchStructEnum::SearchVec(v) => v.seed(new_entry),
            SearchStructEnum::SearchVecDeterministic(v) => v.seed(new_entry),
        }
    }

    /// Run the queries in order; collect each query's non-empty result
    /// list, consuming matches when asked.
    pub fn search(
        &mut self,
        values: &Vec<TemporalHash>,
        tolerance: ScaledTolerance,
        consume: bool,
    ) -> (ret: Vec<Vec<TemporalHash>>)
        requires
            old(self).wf(),
            forall|i: int| 0 <= i < values@.len() ==> (#[trigger] values@[i])@.wf(),
        ensures
            final(self).wf(),
            final(self).same_variant(*old(self)),
            !final(self).is_linear() ==> {
                &&& final(self).live_count() <= old(self).live_count()
                &&& (old(self).all_live() && old(self).live_count() > 0 && values@.len() > 0
                    ==> final(self).live_count() < old(self).live_count())
                &&& forall|g: int|
                    0 <= g < ret@.len() ==> (#[trigger] ret@[g])@.len() > 0 && forall|i: int|
                        0 <= i < ret@[g]@.len() ==> (#[trigger] ret@[g]@[i])@.wf()
                &&& forall|g: int|
                    0 <= g < ret@.len() ==> crate::bk_tree::group_within_some_query(
                        (#[trigger] ret@[g])@,
                        values@,
                        tolerance,
                    )
            },
            final(self).is_linear() ==> {
                &&& final(self).linear_entries() == old(self).linear_entries()
                &&& final(self).linear_taints() == spec_taints_after(
                    old(self).linear_entries(),
                    old(self).linear_taints(),
                    values@.map_values(|h: TemporalHash| h@),
                    tolerance,
                    consume,
                    values@.len() as int,
                )
                &&& ret@.map_values(|g: Vec<TemporalHash>| g@.map_values(|h: TemporalHash| h@))
                    == spec_groups_after(
                    old(self).linear_entries(),
                    old(self).linear_taints(),
                    values@.map_values(|h: TemporalHash| h@),
                    tolerance,
                    consume,
                    values@.len() as int,
                )
            },
    {
        match self {
            SearchStructEnum::Bk(t) => t.search(values, tolerance, consume),
            SearchStructEnum::BkDeterministic(t) => t.search_deterministic(
                values,
                tolerance,
                consume,
            ),
            SearchStructEnum::SearchVec(v) => v.search(values, tolerance, consume),
            SearchStructEnum::SearchVecDeterministic(v) => v.search_deterministic(
                values,
                tolerance,
                consume,
            ),
        }
    }

    /// Up to `count` untainted fingerprints.
    pub fn fetch_unmatched_items(&self, count: usize) -> (ret: Vec<TemporalHash>)
        requires
            self.wf(),
        ensures
            ret@.len() <= count,
            forall|i: int| 0 <= i < ret@.len() ==> (#[trigger] ret@[i])@.wf(),
            self.live_count() > 0 && count > 0 ==> ret@.len() > 0,
            self.is_linear() ==> ret@.map_values(|h: TemporalHash| h@) == (if spec_untainted(
                self.linear_entries(),
                self.linear_taints(),
            ).len() <= count {
                spec_untainted(self.linear_entries(), self.linear_taints())
            } else {
                spec_untainted(self.linear_entries(), self.linear_taints()).take(count as int)
            }),
    {
        match self {
            SearchStructEnum::Bk(t) => t.fetch_unmatched_items(count),
            SearchStructEnum::BkDeterministic(t) => t.fetch_unmatched_items(count),
            SearchStructEnum::SearchVec(v) => {
                let r = v.fetch_unmatched_items(count);
                proof {
                    assert(r@.map_values(|h: TemporalHash| h@).len() == r@.len());
                    if spec_untainted(v.entry_views(), v.tainted@).len() > 0 && count > 0 {
                        let u = spec_untainted(v.entry_views(), v.tainted@);
                        if u.len() <= count {
                            assert(r@.len() == u.len());
                        } else {
                            assert(u.take(count as int).len() == count);
                        }
                        assert(r@.len() > 0);
                    }
                }
                r
            },
            SearchStructEnum::SearchVecDeterministic(v) => {
                let r = v.fetch_unmatched_items(count);
                proof {
                    assert(r@.map_values(|h: TemporalHash| h@).len() == r@.len());
                    if spec_untainted(v.entry_views(), v.tainted@).len() > 0 && count > 0 {
                        let u = spec_untainted(v.entry_views(), v.tainted@);
                        if u.len() <= count {
                            assert(r@.len() == u.len());
                        } else {
                            assert(u.take(count as int).len() == count);
                        }
                        assert(r@.len() > 0);
                    }
                }
                r
            },
        }
    }

    /// Drop every tainted fingerprint.
    pub fn into_without_unmatched(self) -> (r: Self)
        requires
            self.wf(),
        ensures
            r.wf(),
            r.same_variant(self),
            r.all_live(),
            r.live_count() == self.live_count(),
            r.is_linear() ==> r.linear_entries() == spec_untainted(
                self.linear_entries(),
                self.linear_taints(),
            ) && (forall|j: int| 0 <= j < r.linear_taints().len() ==> !r.linear_taints()[j]),
    {
        match self {
            SearchStructEnum::Bk(t) => SearchStructEnum::Bk(t.into_without_unmatched()),
            SearchStructEnum::BkDeterministic(t) => SearchStructEnum::BkDeterministic(
                t.into_without_unmatched(),
            ),
            SearchStructEnum::SearchVec(v) => {
                let ghost live0 = spec_untainted(v.entry_views(), v.tainted@).len();
                let w = v.into_without_unmatched();
                proof {
                    lemma_untainted_all_false(
                        w.entry_views(),
                        w.tainted@,
                        w.entry_views().len() as int,
                    );
                    assert(w.entry_views().take(w.entry_views().len() as int) =~= w.entry_views());
                }
                SearchStructEnum::SearchVec(w)
            },
            SearchStructEnum::SearchVecDeterministic(v) => {
                let ghost live0 = spec_untainted(v.entry_views(), v.tainted@).len();
                let w = v.into_without_unmatched();
                proof {
                    lemma_untainted_all_false(
                        w.entry_views(),
                        w.tainted@,
                        w.entry_views().len() as int,
                    );
                    assert(w.entry_views().take(w.entry_views().len() as int) =~= w.entry_views());
                }
                SearchStructEnum::SearchVecDeterministic(w)
            },
        }
    }

    /// The number of seeded fingerprints still in the set: every
    /// fingerprint for the tree, whose tainted nodes are uncounted, and
    /// every stored entry for the linear scan.
    pub fn len(&self) -> (r: usize)
        requires
            self.wf(),
            self.live_count() <= usize::MAX,
        ensures
            !self.is_linear() ==> r == self.live_count(),
            self.is_linear() ==> r == self.linear_entries().len(),
    {
        match self {
            SearchStructEnum::Bk(t) => t.len(),
            SearchStructEnum::BkDeterministic(t) => t.len(),
            SearchStructEnum::SearchVec(v) => v.len(),
            SearchStructEnum::SearchVecDeterministic(v) => v.len(),
        }
    }
}

impl SimilaritySearch for SearchStructEnum {
    open spec fn inv(&self) -> bool {
        self.wf()
    }

    open spec fn unconsumed(&self) -> nat {
        self.live_count()
    }

    open spec fn unconsumed_all(&self) -> bool {
        self.all_live()
    }

    fn seed(&mut self, new_entry: TemporalHash) {
        SearchStructEnum::seed(self, new_entry);
    }

    fn search(&mut self, values: &Vec<TemporalHash>, tolerance: ScaledTolerance, consume: bool)
        -> (ret: Vec<Vec<TemporalHash>>) {
        SearchStructEnum::search(self, values, tolerance, consume)
    }

    fn fetch_unmatched_items(&self, count: usize) -> (ret: Vec<TemporalHash>) {
        SearchStructEnum::fetch_unmatched_items(self, count)
    }

    fn into_without_unmatched(self) -> (r: Self) {
        SearchStructEnum::into_without_unmatched(self)
    }

    fn len(&self) -> (r: usize) {
        let r = SearchStructEnum::len(self);
        proof {
            if self.is_linear() && self.all_live() {
                lemma_untainted_all_false(
                    self.linear_entries(),
                    self.linear_taints(),
                    self.linear_entries().len() as int,
                );
                assert(self.linear_entries().take(self.linear_entries().len() as int)
                    =~= self.linear_entries());
            }
        }
        r
    }
}

} // verus!
