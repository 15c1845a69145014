//! Linear-scan similarity search backend.
//!
//! The backend keeps every seeded fingerprint in insertion order together
//! with a taint flag.  A search scans all entries; a consuming search
//! taints each match so that no later query can return it again.  The
//! spec-level model below describes a search exactly, entry by entry and
//! query by query, and the executable code is proved to follow it.

use vstd::prelude::*;

use crate::search_structures::ScaledTolerance;
use crate::temporal_hash::{
    lemma_within_tolerance_self, spec_within_tolerance, HashView, TemporalHash,
};

verus! {

/// Whether the entry `(e, t)` would be returned for query `q`: it is not
/// tainted and lies within tolerance of the query.
pub open spec fn entry_matches(e: HashView, t: bool, q: HashView, tol: ScaledTolerance) -> bool {
    !t && spec_within_tolerance(q, e, tol)
}

/// The result of one query against the first `n` entries: every
/// untainted entry within tolerance, in seed order.
pub open spec fn spec_search_one_n(
    entries: Seq<HashView>,
    taints: Seq<bool>,
    q: HashView,
    tol: ScaledTolerance,
    n: int,
) -> Seq<HashView>
    decreases n,
{
    if n <= 0 {
        Seq::empty()
    } else {
        spec_search_one_n(entries, taints, q, tol, n - 1) + if entry_matches(
            entries[n - 1],
            taints[n - 1],
            q,
            tol,
        ) {
            seq![entries[n - 1]]
        } else {
            Seq::empty()
        }
    }
}

/// The result of one query against all entries.
pub open spec fn spec_search_one(
    entries: Seq<HashView>,
    taints: Seq<bool>,
    q: HashView,
    tol: ScaledTolerance,
) -> Seq<HashView> {
    spec_search_one_n(entries, taints, q, tol, entries.len() as int)
}

/// The taint flags after one query: when `consume` holds, every entry the
/// query matched becomes tainted; nothing is ever untainted.
pub open spec fn spec_taint_one(
    entries: Seq<HashView>,
    taints: Seq<bool>,
    q: HashView,
    tol: ScaledTolerance,
    consume: bool,
) -> Seq<bool> {
    Seq::new(
        taints.len(),
        |j: int| taints[j] || (consume && entry_matches(entries[j], taints[j], q, tol)),
    )
}

/// The taint flags after the first `k` queries have run in order.
pub open spec fn spec_taints_after(
    entries: Seq<HashView>,
    taints: Seq<bool>,
    queries: Seq<HashView>,
    tol: ScaledTolerance,
    consume: bool,
    k: int,
) -> Seq<bool>
    decreases k,
{
    if k <= 0 {
        taints
    } else {
        spec_taint_one(
            entries,
            spec_taints_after(entries, taints, queries, tol, consume, k - 1),
            queries[k - 1],
            tol,
            consume,
        )
    }
}

/// The non-empty per-query results of the first `k` queries, in query
/// order, each query seeing the taints its predecessors left behind.
pub open spec fn spec_groups_after(
    entries: Seq<HashView>,
    taints: Seq<bool>,
    queries: Seq<HashView>,
    tol: ScaledTolerance,
    consume: bool,
    k: int,
) -> Seq<Seq<HashView>>
    decreases k,
{
    if k <= 0 {
        Seq::empty()
    } else {
        let prior = spec_taints_after(entries, taints, queries, tol, consume, k - 1);
        let g = spec_search_one(entries, prior, queries[k - 1], tol);
        spec_groups_after(entries, taints, queries, tol, consume, k - 1) + if g.len() > 0 {
            seq![g]
        } else {
            Seq::empty()
        }
    }
}

/// The untainted entries among the first `n`, in seed order.
pub open spec fn spec_untainted_n(entries: Seq<HashView>, taints: Seq<bool>, n: int) -> Seq<
    HashView,
>
    decreases n,
{
    if n <= 0 {
        Seq::empty()
    } else {
        spec_untainted_n(entries, taints, n - 1) + if !taints[n - 1] {
            seq![entries[n - 1]]
        } else {
            Seq::empty()
        }
    }
}

/// The untainted entries of the whole table.
pub open spec fn spec_untainted(entries: Seq<HashView>, taints: Seq<bool>) -> Seq<HashView> {
    spec_untainted_n(entries, taints, entries.len() as int)
}

/// Linear-scan search structure: seeded fingerprints in insertion order,
/// with one taint flag per entry.
pub struct SearchVec {
    pub entries: Vec<TemporalHash>,
    pub tainted: Vec<bool>,
}

impl SearchVec {
    /// The views of the seeded fingerprints, in seed order.
    pub open spec fn entry_views(&self) -> Seq<HashView> {
        self.entries@.map_values(|h: TemporalHash| h@)
    }

    pub open spec fn wf(&self) -> bool {
        &&& self.tainted@.len() == self.entries@.len()
        &&& forall|i: int| 0 <= i < self.entries@.len() ==> (#[trigger] self.entries@[i])@.wf()
    }

    pub fn new() -> (r: Self)
        ensures
            r.wf(),
            r.entry_views() == Seq::<HashView>::empty(),
            r.tainted@ == Seq::<bool>::empty(),
    {
        let r = SearchVec { entries: Vec::new(), tainted: Vec::new() };
        proof {
            assert(r.entry_views() =~= Seq::<HashView>::empty());
        }
        r
    }

    /// Add a fingerprint to the search set, untainted.
    pub fn seed(&mut self, new_entry: TemporalHash)
        requires
            old(self).wf(),
            new_entry@.wf(),
        ensures
            final(self).wf(),
            final(self).entry_views() == old(self).entry_views().push(new_entry@),
            final(self).tainted@ == old(self).tainted@.push(false),
    {
        self.entries.push(new_entry);
        self.tainted.push(false);
        proof {
            assert(self.entry_views() =~= old(self).entry_views().push(self.entries@.last()@));
        }
    }

    pub fn len(&self) -> (r: usize)
        ensures
            r == self.entries@.len(),
    {
        self.entries.len()
    }

    /// Run one query: return every untainted entry within tolerance, in
    /// seed order, and taint the returned entries when `consume` holds.
    pub fn search_one(&mut self, value: &TemporalHash, tolerance: ScaledTolerance, consume: bool)
        -> (ret: Vec<TemporalHash>)
        requires
            old(self).wf(),
            value@.wf(),
        ensures
            final(self).wf(),
            final(self).entry_views() == old(self).entry_views(),
            final(self).entries@ == old(self).entries@,
            final(self).tainted@ == spec_taint_one(
                old(self).entry_views(),
                old(self).tainted@,
                value@,
                tolerance,
                consume,
            ),
            ret@.map_values(|h: TemporalHash| h@) == spec_search_one(
                old(self).entry_views(),
                old(self).tainted@,
                value@,
                tolerance,
            ),
    {
        let ghost evs = self.entry_views();
        let ghost taints0 = self.tainted@;
        let mut ret: Vec<TemporalHash> = Vec::new();
        let mut i: usize = 0;
        let n = self.entries.len();
        while i < n
            invariant
                self.wf(),
                n == self.entries@.len(),
                i <= n,
                self.entry_views() == evs,
                self.entries@ == old(self).entries@,
                taints0 == old(self).tainted@,
                evs == old(self).entry_views(),
                value@.wf(),
                self.tainted@.len() == n,
                forall|j: int|
                    0 <= j < i ==> self.tainted@[j] == (taints0[j] || (consume && entry_matches(
                        evs[j],
                        taints0[j],
                        value@,
                        tolerance,
                    ))),
                forall|j: int| i <= j < n ==> self.tainted@[j] == taints0[j],
                ret@.map_values(|h: TemporalHash| h@) == spec_search_one_n(
                    evs,
                    taints0,
                    value@,
                    tolerance,
                    i as int,
                ),
            decreases n - i,
        {
            let within = value.is_within_tolerance(&self.entries[i], tolerance);
            let ghost ret_pre = ret@;
            if within && !self.tainted[i] {
                ret.push(self.entries[i].clone());
                if consume {
                    self.tainted.set(i, true);
                }
            }
            proof {
                assert(evs[i as int] == self.entries@[i as int]@);
                assert(ret@.map_values(|h: TemporalHash| h@) =~= ret_pre.map_values(
                    |h: TemporalHash| h@,
                ) + if entry_matches(evs[i as int], taints0[i as int], value@, tolerance) {
                    seq![evs[i as int]]
                } else {
                    Seq::empty()
                });
            }
            i = i + 1;
        }
        proof {
            assert(self.tainted@ =~= spec_taint_one(evs, taints0, value@, tolerance, consume));
        }
        ret
    }

    /// Run the queries serially in the given order; collect each query's
    /// non-empty result list.
    pub fn search_deterministic(
        &mut self,
        values: &Vec<TemporalHash>,
        tolerance: ScaledTolerance,
        consume: bool,
    ) -> (ret: Vec<Vec<TemporalHash>>)
        requires
            old(self).wf(),
            forall|i: int| 0 <= i < values@.len() ==> (#[trigger] values@[i])@.wf(),
        ensures
            final(self).wf(),
            final(self).entry_views() == old(self).entry_views(),
            final(self).entries@ == old(self).entries@,
            final(self).tainted@ == spec_taints_after(
                old(self).entry_views(),
                old(self).tainted@,
                values@.map_values(|h: TemporalHash| h@),
                tolerance,
                consume,
                values@.len() as int,
            ),
            ret@.map_values(|g: Vec<TemporalHash>| g@.map_values(|h: TemporalHash| h@))
                == spec_groups_after(
                old(self).entry_views(),
                old(self).tainted@,
                values@.map_values(|h: TemporalHash| h@),
                tolerance,
                consume,
                values@.len() as int,
            ),
    {
        let ghost evs = self.entry_views();
        let ghost taints0 = self.tainted@;
        let ghost qs = values@.map_values(|h: TemporalHash| h@);
        let mut ret: Vec<Vec<TemporalHash>> = Vec::new();
        let mut i: usize = 0;
        while i < values.len()
            invariant
                self.wf(),
                i <= values@.len(),
                self.entry_views() == evs,
                self.entries@ == old(self).entries@,
                evs == old(self).entry_views(),
                taints0 == old(self).tainted@,
                qs == values@.map_values(|h: TemporalHash| h@),
                forall|j: int| 0 <= j < values@.len() ==> (#[trigger] values@[j])@.wf(),
                self.tainted@ == spec_taints_after(evs, taints0, qs, tolerance, consume, i as int),
                ret@.map_values(|g: Vec<TemporalHash>| g@.map_values(|h: TemporalHash| h@))
                    == spec_groups_after(evs, taints0, qs, tolerance, consume, i as int),
            decreases values@.len() - i,
        {
            let ghost ret_pre = ret@;
            let one = self.search_one(&values[i], tolerance, consume);
            let ghost one_view = one@.map_values(|h: TemporalHash| h@);
            if one.len() > 0 {
                ret.push(one);
            }
            proof {
                assert(qs[i as int] == values@[i as int]@);
                if one_view.len() > 0 {
                    assert(ret@.map_values(
                        |g: Vec<TemporalHash>| g@.map_values(|h: TemporalHash| h@),
                    ) =~= ret_pre.map_values(
                        |g: Vec<TemporalHash>| g@.map_values(|h: TemporalHash| h@),
                    ) + seq![one_view]);
                } else {
                    assert(one@.len() == 0);
                }
            }
            i = i + 1;
        }
        ret
    }

    /// Identical to `search_deterministic`: the untainted-set outcome of
    /// a consuming search does not depend on query order only when the
    /// caller groups and deduplicates afterwards, and this backend always
    /// runs its queries serially.
    pub fn search(
        &mut self,
        values: &Vec<TemporalHash>,
        tolerance: ScaledTolerance,
        consume: bool,
    ) -> (ret: Vec<Vec<TemporalHash>>)
        requires
            old(self).wf(),
            forall|i: int| 0 <= i < values@.len() ==> (#[trigger] values@[i])@.wf(),
        ensures
            final(self).wf(),
            final(self).entry_views() == old(self).entry_views(),
            final(self).entries@ == old(self).entries@,
            final(self).tainted@ == spec_taints_after(
                old(self).entry_views(),
                old(self).tainted@,
                values@.map_values(|h: TemporalHash| h@),
                tolerance,
                consume,
                values@.len() as int,
            ),
            ret@.map_values(|g: Vec<TemporalHash>| g@.map_values(|h: TemporalHash| h@))
                == spec_groups_after(
                old(self).entry_views(),
                old(self).tainted@,
                values@.map_values(|h: TemporalHash| h@),
                tolerance,
                consume,
                values@.len() as int,
            ),
    {
        self.search_deterministic(values, tolerance, consume)
    }

    /// Up to `count` untainted entries, in seed order.
    pub fn fetch_unmatched_items(&self, count: usize) -> (ret: Vec<TemporalHash>)
        requires
            self.wf(),
        ensures
            ret@.map_values(|h: TemporalHash| h@) == if spec_untainted(
                self.entry_views(),
                self.tainted@,
            ).len() <= count {
                spec_untainted(self.entry_views(), self.tainted@)
            } else {
                spec_untainted(self.entry_views(), self.tainted@).take(count as int)
            },
            forall|i: int| 0 <= i < ret@.len() ==> (#[trigger] ret@[i])@.wf(),
    {
        let ghost evs = self.entry_views();
        let mut ret: Vec<TemporalHash> = Vec::new();
        let mut i: usize = 0;
        let n = self.entries.len();
        while i < n
            invariant
                self.wf(),
                n == self.entries@.len(),
                i <= n,
                evs == self.entry_views(),
                ret@.len() <= count,
                ret@.map_values(|h: TemporalHash| h@) == if spec_untainted_n(
                    evs,
                    self.tainted@,
                    i as int,
                ).len() <= count {
                    spec_untainted_n(evs, self.tainted@, i as int)
                } else {
                    spec_untainted_n(evs, self.tainted@, i as int).take(count as int)
                },
                forall|j: int| 0 <= j < ret@.len() ==> (#[trigger] ret@[j])@.wf(),
            decreases n - i,
        {
            let ghost ret_pre = ret@;
            if !self.tainted[i] && ret.len() < count {
                ret.push(self.entries[i].clone());
            }
            proof {
                assert(evs[i as int] == self.entries@[i as int]@);
                let prev = spec_untainted_n(evs, self.tainted@, i as int);
                let next = spec_untainted_n(evs, self.tainted@, i as int + 1);
                if !self.tainted@[i as int] {
                    assert(next == prev + seq![evs[i as int]]);
                    if prev.len() < count {
                        assert(ret@.map_values(|h: TemporalHash| h@) =~= (if next.len() <= count {
                            next
                        } else {
                            next.take(count as int)
                        }));
                    } else {
                        assert(next.take(count as int) =~= prev.take(count as int));
                        assert(ret@ == ret_pre);
                    }
                } else {
                    assert(next == prev);
                }
            }
            i = i + 1;
        }
        ret
    }

    /// Drop every tainted entry, keeping the untainted ones in order with
    /// their flags cleared.
    pub fn into_without_unmatched(self) -> (r: Self)
        requires
            self.wf(),
        ensures
            r.wf(),
            r.entry_views() == spec_untainted(self.entry_views(), self.tainted@),
            forall|j: int| 0 <= j < r.tainted@.len() ==> !r.tainted@[j],
    {
        let ghost evs = self.entry_views();
        let mut kept: Vec<TemporalHash> = Vec::new();
        let mut flags: Vec<bool> = Vec::new();
        let mut i: usize = 0;
        let n = self.entries.len();
        while i < n
            invariant
                self.wf(),
                n == self.entries@.len(),
                i <= n,
                evs == self.entry_views(),
                flags@.len() == kept@.len(),
                forall|j: int| 0 <= j < flags@.len() ==> !flags@[j],
                forall|j: int| 0 <= j < kept@.len() ==> (#[trigger] kept@[j])@.wf(),
                kept@.map_values(|h: TemporalHash| h@) == spec_untainted_n(
                    evs,
                    self.tainted@,
                    i as int,
                ),
            decreases n - i,
        {
            let ghost kept_pre = kept@;
            if !self.tainted[i] {
                kept.push(self.entries[i].clone());
                flags.push(false);
            }
            proof {
                assert(evs[i as int] == self.entries@[i as int]@);
                if !self.tainted@[i as int] {
                    assert(kept@.map_values(|h: TemporalHash| h@) =~= kept_pre.map_values(
                        |h: TemporalHash| h@,
                    ) + seq![evs[i as int]]);
                }
            }
            i = i + 1;
        }
        SearchVec { entries: kept, tainted: flags }
    }
}

/// The taint flags keep their length across queries.
pub proof fn lemma_taints_after_len(
    entries: Seq<HashView>,
    taints: Seq<bool>,
    queries: Seq<HashView>,
    tol: ScaledTolerance,
    consume: bool,
    k: int,
)
    ensures
        spec_taints_after(entries, taints, queries, tol, consume, k).len() == taints.len(),
    decreases k,
{
    if k > 0 {
        lemma_taints_after_len(entries, taints, queries, tol, consume, k - 1);
    }
}

/// A taint, once set, survives every later query.
pub proof fn lemma_taints_after_monotone(
    entries: Seq<HashView>,
    taints: Seq<bool>,
    queries: Seq<HashView>,
    tol: ScaledTolerance,
    consume: bool,
    k: int,
    j: int,
)
    requires
        0 <= j < taints.len(),
        taints[j],
    ensures
        spec_taints_after(entries, taints, queries, tol, consume, k)[j],
    decreases k,
{
    if k > 0 {
        lemma_taints_after_monotone(entries, taints, queries, tol, consume, k - 1, j);
        lemma_taints_after_len(entries, taints, queries, tol, consume, k - 1);
    }
}

/// A consuming query taints every entry equal to itself; in particular,
/// after the query at position `q` has run, entry `j` holding the same
/// fingerprint is tainted.
pub proof fn lemma_query_taints_self(
    entries: Seq<HashView>,
    taints: Seq<bool>,
    queries: Seq<HashView>,
    tol: ScaledTolerance,
    k: int,
    q: int,
    j: int,
)
    requires
        0 <= q < k,
        0 <= j < taints.len(),
        entries.len() == taints.len(),
        queries[q] == entries[j],
    ensures
        spec_taints_after(entries, taints, queries, tol, true, k)[j],
    decreases k,
{
    lemma_taints_after_len(entries, taints, queries, tol, true, k - 1);
    if q == k - 1 {
        let prior = spec_taints_after(entries, taints, queries, tol, true, k - 1);
        if !prior[j] {
            lemma_within_tolerance_self(entries[j], tol);
            assert(entry_matches(entries[j], prior[j], queries[q], tol));
        }
        assert(spec_taints_after(entries, taints, queries, tol, true, k)[j]);
    } else {
        lemma_query_taints_self(entries, taints, queries, tol, k - 1, q, j);
        let prior = spec_taints_after(entries, taints, queries, tol, true, k - 1);
        assert(spec_taint_one(entries, prior, queries[k - 1], tol, true)[j]);
    }
}

/// The untainted entries form a subsequence: never longer than the
/// prefix, and strictly shorter as soon as one entry in it is tainted.
pub proof fn lemma_untainted_len(entries: Seq<HashView>, taints: Seq<bool>, n: int)
    ensures
        spec_untainted_n(entries, taints, n).len() <= (if n <= 0 { 0int } else { n }),
        (exists|j: int| 0 <= j < n && taints[j]) ==> spec_untainted_n(entries, taints, n).len() < n,
    decreases n,
{
    if n > 0 {
        lemma_untainted_len(entries, taints, n - 1);
        if exists|j: int| 0 <= j < n && taints[j] {
            let j = choose|j: int| 0 <= j < n && taints[j];
            if j == n - 1 {
            } else {
                assert(exists|j2: int| 0 <= j2 < n - 1 && taints[j2]);
            }
        }
    }
}

/// With no taints set, the untainted entries are exactly the prefix.
pub proof fn lemma_untainted_all_false(entries: Seq<HashView>, taints: Seq<bool>, n: int)
    requires
        forall|j: int| 0 <= j < n ==> !taints[j],
        0 <= n <= entries.len(),
    ensures
        spec_untainted_n(entries, taints, n) == entries.take(n),
    decreases n,
{
    if n == 0 {
        assert(entries.take(0) =~= Seq::<HashView>::empty());
    } else {
        lemma_untainted_all_false(entries, taints, n - 1);
        assert(entries.take(n).drop_last() =~= entries.take(n - 1));
        assert(spec_untainted_n(entries, taints, n) =~= entries.take(n));
    }
}

} // verus!
