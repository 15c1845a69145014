//! Bulk duplicate search over a set of fingerprints.
//!
//! `find_all` seeds a backend with every fingerprint and repeatedly
//! queries it with batches of not-yet-matched items, consuming matches,
//! until the backend is empty; each query's result of more than one item
//! becomes a match group.  `find_with_refs` seeds the candidates and
//! queries once per reference.  For the linear backend the whole
//! procedure is specified exactly by the round model below, and the
//! consume-semantics laws are proved of that model.

use vstd::prelude::*;

use crate::match_group::MatchGroup;
use crate::search_struct_enum::SearchStructEnum;
use crate::search_structures::ScaledTolerance;
use crate::search_vec::{
    lemma_query_taints_self, lemma_taints_after_len, lemma_untainted_all_false,
    lemma_untainted_len, spec_groups_after, spec_search_one, spec_taints_after, spec_untainted,
};
use crate::temporal_hash::{HashView, TemporalHash};

verus! {

/// Queries are drawn in batches of at most this many items.
pub const SEARCH_CHUNK_SIZE: usize = 5000;

/// A taint table of `n` cleared flags.
pub open spec fn all_false(n: int) -> Seq<bool> {
    Seq::new(if n <= 0 { 0nat } else { n as nat }, |j: int| false)
}

/// The batch of queries one round draws: the first `SEARCH_CHUNK_SIZE`
/// fingerprints, or all of them if fewer.
pub open spec fn round_queries(hs: Seq<HashView>) -> Seq<HashView> {
    if hs.len() <= 5000 {
        hs
    } else {
        hs.take(5000)
    }
}

/// The taint table after one consuming round over `hs`.
pub open spec fn round_taints(hs: Seq<HashView>, tol: ScaledTolerance) -> Seq<bool> {
    spec_taints_after(
        hs,
        all_false(hs.len() as int),
        round_queries(hs),
        tol,
        true,
        round_queries(hs).len() as int,
    )
}

/// The per-query result groups of one round over `hs`.
pub open spec fn round_groups(hs: Seq<HashView>, tol: ScaledTolerance) -> Seq<Seq<HashView>> {
    spec_groups_after(
        hs,
        all_false(hs.len() as int),
        round_queries(hs),
        tol,
        true,
        round_queries(hs).len() as int,
    )
}

/// The fingerprints a round leaves unmatched.
pub open spec fn round_survivors(hs: Seq<HashView>, tol: ScaledTolerance) -> Seq<HashView> {
    spec_untainted(hs, round_taints(hs, tol))
}

/// The groups of more than one member among the first `n` of `gs`.
pub open spec fn keep_multi_n(gs: Seq<Seq<HashView>>, n: int) -> Seq<Seq<HashView>>
    decreases n,
{
    if n <= 0 {
        Seq::empty()
    } else {
        keep_multi_n(gs, n - 1) + if gs[n - 1].len() > 1 {
            seq![gs[n - 1]]
        } else {
            Seq::empty()
        }
    }
}

/// The groups of more than one member, in order.
pub open spec fn keep_multi(gs: Seq<Seq<HashView>>) -> Seq<Seq<HashView>> {
    keep_multi_n(gs, gs.len() as int)
}

/// One round strictly shrinks a non-empty fingerprint set: the first
/// query is the first fingerprint, which matches at least itself.
pub proof fn lemma_round_survivors_shrink(hs: Seq<HashView>, tol: ScaledTolerance)
    requires
        hs.len() > 0,
    ensures
        round_survivors(hs, tol).len() < hs.len(),
{
    let qs = round_queries(hs);
    let zeros = all_false(hs.len() as int);
    assert(qs[0] == hs[0]);
    lemma_query_taints_self(hs, zeros, qs, tol, qs.len() as int, 0, 0);
    lemma_taints_after_len(hs, zeros, qs, tol, true, qs.len() as int);
    lemma_untainted_len(hs, round_taints(hs, tol), hs.len() as int);
    assert(round_taints(hs, tol)[0]);
}

/// The whole bulk search: rounds of batched consuming queries over the
/// shrinking set of unmatched fingerprints.
pub open spec fn spec_find_all(hs: Seq<HashView>, tol: ScaledTolerance) -> Seq<Seq<HashView>>
    decreases hs.len(),
    via spec_find_all_decreases
{
    if hs.len() == 0 {
        Seq::empty()
    } else {
        keep_multi(round_groups(hs, tol)) + spec_find_all(round_survivors(hs, tol), tol)
    }
}

#[via_fn]
proof fn spec_find_all_decreases(hs: Seq<HashView>, tol: ScaledTolerance) {
    if hs.len() > 0 {
        lemma_round_survivors_shrink(hs, tol);
    }
}

/// The reference-mode search: each reference is one consuming query
/// against the candidate set; a non-empty result pairs the reference
/// with its matches.
pub open spec fn spec_find_with_refs_n(
    cands: Seq<HashView>,
    refs: Seq<HashView>,
    tol: ScaledTolerance,
    k: int,
) -> Seq<(HashView, Seq<HashView>)>
    decreases k,
{
    if k <= 0 {
        Seq::empty()
    } else {
        let prior = spec_taints_after(
            cands,
            all_false(cands.len() as int),
            refs,
            tol,
            true,
            k - 1,
        );
        let g = spec_search_one(cands, prior, refs[k - 1], tol);
        spec_find_with_refs_n(cands, refs, tol, k - 1) + if g.len() > 0 {
            seq![(refs[k - 1], g)]
        } else {
            Seq::empty()
        }
    }
}

pub open spec fn spec_find_with_refs(
    cands: Seq<HashView>,
    refs: Seq<HashView>,
    tol: ScaledTolerance,
) -> Seq<(HashView, Seq<HashView>)> {
    spec_find_with_refs_n(cands, refs, tol, refs.len() as int)
}

/// The source paths of a group of fingerprints.
pub open spec fn group_paths_view(g: Seq<HashView>) -> Seq<Seq<char>> {
    g.map_values(|hv: HashView| hv.src_path)
}

/// Clone out the source paths of a result group.
fn group_paths(g: &Vec<TemporalHash>) -> (r: Vec<String>)
    ensures
        r@.map_values(|p: String| p@) == g@.map_values(|h: TemporalHash| h@).map_values(
            |hv: HashView| hv.src_path,
        ),
{
    let mut r: Vec<String> = Vec::new();
    let mut i: usize = 0;
    while i < g.len()
        invariant
            i <= g@.len(),
            r@.len() == i,
            forall|j: int| 0 <= j < i ==> r@[j]@ == g@[j]@.src_path,
        decreases g@.len() - i,
    {
        let p = g[i].src_path().clone();
        r.push(p);
        i = i + 1;
    }
    proof {
        assert(r@.map_values(|p: String| p@) =~= g@.map_values(|h: TemporalHash| h@).map_values(
            |hv: HashView| hv.src_path,
        ));
    }
    r
}

/// The bulk duplicate finder.
pub struct VideoDupFinder {}

impl VideoDupFinder {
    pub fn new() -> (r: Self) {
        VideoDupFinder {  }
    }

    /// Find all groups of mutual near-duplicates among `hashes`.
    ///
    /// With the linear backend the result is exactly the round model:
    /// each group is one query's matches, every match is consumed, and
    /// only groups of two or more members are kept.  With the metric
    /// tree the same driver runs against the tree's pruned search.
    pub fn find_all(
        &mut self,
        hashes: Vec<TemporalHash>,
        tolerance: ScaledTolerance,
        deterministic_search: bool,
        vec_search: bool,
    ) -> (ret: Vec<MatchGroup>)
        requires
            forall|i: int| 0 <= i < hashes@.len() ==> (#[trigger] hashes@[i])@.wf(),
        ensures
            forall|i: int| 0 <= i < ret@.len() ==> (#[trigger] ret@[i])@.reference is None,
            vec_search ==> {
                let model = spec_find_all(
                    hashes@.map_values(|h: TemporalHash| h@),
                    tolerance,
                );
                &&& ret@.len() == model.len()
                &&& forall|i: int|
                    0 <= i < ret@.len() ==> (#[trigger] ret@[i])@.duplicates == group_paths_view(
                        model[i],
                    )
            },
    {
        let ghost hs0 = hashes@.map_values(|h: TemporalHash| h@);
        let mut search_struct = SearchStructEnum::new(vec_search, deterministic_search);
        let mut i: usize = 0;
        let n = hashes.len();
        proof {
            assert(hs0.take(0) =~= Seq::<HashView>::empty());
            assert(all_false(0) =~= Seq::<bool>::empty());
        }
        // seed every fingerprint
        while i < n
            invariant
                i <= n,
                n == hashes@.len(),
                hs0 == hashes@.map_values(|h: TemporalHash| h@),
                forall|j: int| 0 <= j < hashes@.len() ==> (#[trigger] hashes@[j])@.wf(),
                search_struct.wf(),
                search_struct.all_live(),
                search_struct.is_linear() == vec_search,
                !search_struct.is_linear() ==> search_struct.live_count() == i,
                search_struct.is_linear() ==> search_struct.linear_entries() == hs0.take(i as int)
                    && search_struct.linear_taints() == all_false(i as int),
            decreases n - i,
        {
            let h = hashes[i].clone();
            search_struct.seed(h);
            proof {
                if search_struct.is_linear() {
                    assert(search_struct.linear_entries() =~= hs0.take(i + 1));
                    assert(search_struct.linear_taints() =~= all_false(i + 1));
                }
            }
            i = i + 1;
        }
        proof {
            if search_struct.is_linear() {
                assert(hs0.take(n as int) =~= hs0);
                lemma_untainted_all_false(hs0, all_false(n as int), hs0.len() as int);
                assert(search_struct.live_count() == n);
            } else {
                assert(search_struct.live_count() == n);
            }
        }
        let mut match_groups: Vec<MatchGroup> = Vec::new();
        let ghost mut done: Seq<Seq<HashView>> = Seq::empty();
        proof {
            if vec_search {
                assert(Seq::<Seq<HashView>>::empty() + spec_find_all(hs0, tolerance)
                    =~= spec_find_all(hs0, tolerance));
            }
        }
        while search_struct.len() > 0
            invariant
                search_struct.wf(),
                search_struct.all_live(),
                search_struct.is_linear() == vec_search,
                search_struct.live_count() <= usize::MAX,
                vec_search ==> search_struct.linear_taints() == all_false(
                    search_struct.linear_entries().len() as int,
                ),
                vec_search ==> search_struct.live_count() == search_struct.linear_entries().len(),
                vec_search ==> spec_find_all(hs0, tolerance) == done + spec_find_all(
                    search_struct.linear_entries(),
                    tolerance,
                ),
                vec_search ==> match_groups@.len() == done.len(),
                vec_search ==> forall|g: int|
                    0 <= g < match_groups@.len() ==> (#[trigger] match_groups@[g])@.duplicates
                        == group_paths_view(done[g]),
                forall|g: int|
                    0 <= g < match_groups@.len() ==> (#[trigger] match_groups@[g])@.reference
                        is None,
            decreases search_struct.live_count(),
    {
            let ghost cur = search_struct.linear_entries();
            let ghost lc_pre = search_struct.live_count();
            proof {
                if vec_search {
                    lemma_untainted_all_false(
                        cur,
                        search_struct.linear_taints(),
                        cur.len() as int,
                    );
                    assert(cur.take(cur.len() as int) =~= cur);
                }
            }
            let items_to_match = search_struct.fetch_unmatched_items(SEARCH_CHUNK_SIZE);
            proof {
                if vec_search {
                    assert(items_to_match@.map_values(|h: TemporalHash| h@) =~= round_queries(
                        cur,
                    ));
                }
            }
            let found = search_struct.search(&items_to_match, tolerance, true);
            // keep only groups with more than one member: a single-length
            // result is the queried item matching itself
            let mut kept: Vec<MatchGroup> = Vec::new();
            let ghost mut kept_model: Seq<Seq<HashView>> = Seq::empty();
            let ghost found_views = found@.map_values(
                |g: Vec<TemporalHash>| g@.map_values(|h: TemporalHash| h@),
            );
            let mut gi: usize = 0;
            while gi < found.len()
                invariant
                    gi <= found@.len(),
                    found_views == found@.map_values(
                        |g: Vec<TemporalHash>| g@.map_values(|h: TemporalHash| h@),
                    ),
                    kept_model == keep_multi_n(found_views, gi as int),
                    kept@.len() == kept_model.len(),
                    forall|g: int|
                        0 <= g < kept@.len() ==> (#[trigger] kept@[g])@.duplicates
                            == group_paths_view(kept_model[g]),
                    forall|g: int|
                        0 <= g < kept@.len() ==> (#[trigger] kept@[g])@.reference is None,
                decreases found@.len() - gi,
            {
                proof {
                    assert(found_views[gi as int] == found@[gi as int]@.map_values(
                        |h: TemporalHash| h@,
                    ));
                }
                if found[gi].len() > 1 {
                    let paths = group_paths(&found[gi]);
                    let group = MatchGroup::new(paths);
                    kept.push(group);
                    proof {
                        kept_model = kept_model + seq![found_views[gi as int]];
                    }
                }
                gi = gi + 1;
            }
            // append this round's groups
            let mut ki: usize = 0;
            let ghost mg_pre = match_groups@;
            while ki < kept.len()
                invariant
                    ki <= kept@.len(),
                    match_groups@.len() == mg_pre.len() + ki,
                    forall|g: int| 0 <= g < mg_pre.len() ==> match_groups@[g] == mg_pre[g],
                    forall|g: int|
                        mg_pre.len() <= g < match_groups@.len() ==> (#[trigger] match_groups@[g])@
                            == kept@[g - mg_pre.len()]@,
                    forall|g: int|
                        0 <= g < kept@.len() ==> (#[trigger] kept@[g])@.reference is None,
                decreases kept@.len() - ki,
            {
                let group = kept[ki].clone();
                match_groups.push(group);
                ki = ki + 1;
            }
            let ghost done_pre = done;
            proof {
                done = done + kept_model;
                assert forall|g: int| 0 <= g < match_groups@.len() implies (
                #[trigger] match_groups@[g])@.reference is None by {
                    if g < mg_pre.len() {
                        assert(match_groups@[g] == mg_pre[g]);
                    } else {
                        assert(match_groups@[g]@ == kept@[g - mg_pre.len()]@);
                    }
                }
                if vec_search {
                    assert forall|g: int| 0 <= g < match_groups@.len() implies (
                    #[trigger] match_groups@[g])@.duplicates == group_paths_view(done[g]) by {
                        if g < mg_pre.len() {
                            assert(match_groups@[g] == mg_pre[g]);
                            assert(done[g] == done_pre[g]);
                        } else {
                            assert(match_groups@[g]@ == kept@[g - mg_pre.len()]@);
                            assert(done[g] == kept_model[g - mg_pre.len()]);
                        }
                    }
                }
            }
            search_struct = search_struct.into_without_unmatched();
            proof {
                if vec_search {
                    assert(search_struct.linear_taints() =~= all_false(
                        search_struct.linear_entries().len() as int,
                    ));
                    lemma_untainted_all_false(
                        search_struct.linear_entries(),
                        search_struct.linear_taints(),
                        search_struct.linear_entries().len() as int,
                    );
                    assert(search_struct.linear_entries().take(
                        search_struct.linear_entries().len() as int,
                    ) =~= search_struct.linear_entries());
                    // the round just run is one unfolding of the model
                    assert(found_views == round_groups(cur, tolerance));
                    assert(kept_model == keep_multi(round_groups(cur, tolerance)));
                    assert(search_struct.linear_entries() == round_survivors(cur, tolerance));
                    assert(spec_find_all(cur, tolerance) == keep_multi(round_groups(cur, tolerance))
                        + spec_find_all(round_survivors(cur, tolerance), tolerance));
                    assert(done + spec_find_all(search_struct.linear_entries(), tolerance)
                        =~= done_pre + spec_find_all(cur, tolerance));
                    lemma_round_survivors_shrink(cur, tolerance);
                } else {
                    if lc_pre > 0 {
                        assert(items_to_match@.len() > 0);
                    }
                }
            }
        }
        proof {
            if vec_search {
                assert(spec_find_all(search_struct.linear_entries(), tolerance)
                    =~= Seq::<Seq<HashView>>::empty());
                assert(done + Seq::<Seq<HashView>>::empty() =~= done);
            }
        }
        match_groups
    }

    /// Find, for each reference in order, its near-duplicates among the
    /// candidates; matched candidates are consumed, so each candidate
    /// falls to at most one reference — the earliest one it matches.
    pub fn find_with_refs(
        &mut self,
        ref_hashes: Vec<TemporalHash>,
        new_hashes: Vec<TemporalHash>,
        tolerance: ScaledTolerance,
        deterministic_search: bool,
        vec_search: bool,
    ) -> (ret: Vec<MatchGroup>)
        requires
            forall|i: int| 0 <= i < ref_hashes@.len() ==> (#[trigger] ref_hashes@[i])@.wf(),
            forall|i: int| 0 <= i < new_hashes@.len() ==> (#[trigger] new_hashes@[i])@.wf(),
        ensures
            forall|i: int| 0 <= i < ret@.len() ==> (#[trigger] ret@[i])@.reference is Some,
            vec_search ==> {
                let model = spec_find_with_refs(
                    new_hashes@.map_values(|h: TemporalHash| h@),
                    ref_hashes@.map_values(|h: TemporalHash| h@),
                    tolerance,
                );
                &&& ret@.len() == model.len()
                &&& forall|i: int|
                    0 <= i < ret@.len() ==> (#[trigger] ret@[i])@.reference == Some(
                        model[i].0.src_path,
                    ) && crate::match_group::sorted_by_len(ret@[i]@.duplicates)
                        && ret@[i]@.duplicates.to_multiset() == group_paths_view(
                        model[i].1,
                    ).to_multiset()
            },
    {
        let ghost cands = new_hashes@.map_values(|h: TemporalHash| h@);
        let ghost refs = ref_hashes@.map_values(|h: TemporalHash| h@);
        let mut search_struct = SearchStructEnum::new(vec_search, deterministic_search);
        let mut i: usize = 0;
        let n = new_hashes.len();
        proof {
            assert(cands.take(0) =~= Seq::<HashView>::empty());
            assert(all_false(0) =~= Seq::<bool>::empty());
        }
        while i < n
            invariant
                i <= n,
                n == new_hashes@.len(),
                cands == new_hashes@.map_values(|h: TemporalHash| h@),
                forall|j: int| 0 <= j < new_hashes@.len() ==> (#[trigger] new_hashes@[j])@.wf(),
                search_struct.wf(),
                search_struct.is_linear() == vec_search,
                search_struct.is_linear() ==> search_struct.linear_entries() == cands.take(i as int)
                    && search_struct.linear_taints() == all_false(i as int),
            decreases n - i,
        {
            let h = new_hashes[i].clone();
            search_struct.seed(h);
            proof {
                if search_struct.is_linear() {
                    assert(search_struct.linear_entries() =~= cands.take(i + 1));
                    assert(search_struct.linear_taints() =~= all_false(i + 1));
                }
            }
            i = i + 1;
        }
        proof {
            if search_struct.is_linear() {
                assert(cands.take(n as int) =~= cands);
                assert(all_false(n as int) =~= all_false(cands.len() as int));
            }
        }
        let mut ret: Vec<MatchGroup> = Vec::new();
        let ghost mut model_done: Seq<(HashView, Seq<HashView>)> = Seq::empty();
        let mut k: usize = 0;
        while k < ref_hashes.len()
            invariant
                k <= ref_hashes@.len(),
                refs == ref_hashes@.map_values(|h: TemporalHash| h@),
                cands == new_hashes@.map_values(|h: TemporalHash| h@),
                forall|j: int| 0 <= j < ref_hashes@.len() ==> (#[trigger] ref_hashes@[j])@.wf(),
                search_struct.wf(),
                search_struct.is_linear() == vec_search,
                vec_search ==> search_struct.linear_entries() == cands,
                vec_search ==> search_struct.linear_taints() == spec_taints_after(
                    cands,
                    all_false(cands.len() as int),
                    refs,
                    tolerance,
                    true,
                    k as int,
                ),
                vec_search ==> model_done == spec_find_with_refs_n(
                    cands,
                    refs,
                    tolerance,
                    k as int,
                ),
                vec_search ==> ret@.len() == model_done.len(),
                vec_search ==> forall|i: int|
                    0 <= i < ret@.len() ==> (#[trigger] ret@[i])@.reference == Some(
                        model_done[i].0.src_path,
                    ) && crate::match_group::sorted_by_len(ret@[i]@.duplicates)
                        && ret@[i]@.duplicates.to_multiset() == group_paths_view(
                        model_done[i].1,
                    ).to_multiset(),
                forall|i: int| 0 <= i < ret@.len() ==> (#[trigger] ret@[i])@.reference is Some,
            decreases ref_hashes@.len() - k,
        {
            let mut query: Vec<TemporalHash> = Vec::new();
            query.push(ref_hashes[k].clone());
            proof {
                assert(query@.map_values(|h: TemporalHash| h@) =~= seq![refs[k as int]]);
            }
            let found = search_struct.search(&query, tolerance, true);
            proof {
                if vec_search {
                    let prior = spec_taints_after(
                        cands,
                        all_false(cands.len() as int),
                        refs,
                        tolerance,
                        true,
                        k as int,
                    );
                    let qseq = seq![refs[k as int]];
                    assert(spec_taints_after(cands, prior, qseq, tolerance, true, 0) == prior);
                    assert(spec_taints_after(cands, prior, qseq, tolerance, true, 1)
                        == crate::search_vec::spec_taint_one(
                        cands,
                        prior,
                        refs[k as int],
                        tolerance,
                        true,
                    ));
                    assert(search_struct.linear_taints() == spec_taints_after(
                        cands,
                        all_false(cands.len() as int),
                        refs,
                        tolerance,
                        true,
                        k as int + 1,
                    ));
                }
            }
            if found.len() > 0 {
                let ref_path = ref_hashes[k].src_path().clone();
                let paths = group_paths(&found[0]);
                let group = MatchGroup::with_reference(ref_path, paths);
                ret.push(group);
                proof {
                    if vec_search {
                        let fv = found@.map_values(
                            |g: Vec<TemporalHash>| g@.map_values(|h: TemporalHash| h@),
                        );
                        let prior = spec_taints_after(
                            cands,
                            all_false(cands.len() as int),
                            refs,
                            tolerance,
                            true,
                            k as int,
                        );
                        let g = crate::search_vec::spec_search_one(
                            cands,
                            prior,
                            refs[k as int],
                            tolerance,
                        );
                        let qseq = seq![refs[k as int]];
                        assert(fv.len() == found@.len());
                        assert(spec_groups_after(cands, prior, qseq, tolerance, true, 0)
                            == Seq::<Seq<HashView>>::empty());
                        assert(spec_taints_after(cands, prior, qseq, tolerance, true, 0) == prior);
                        assert(fv == spec_groups_after(cands, prior, qseq, tolerance, true, 1));
                        assert(qseq[0] == refs[k as int]);
                        assert(g.len() > 0);
                        assert(fv =~= seq![g]);
                        assert(fv[0] == found@[0]@.map_values(|h: TemporalHash| h@));
                        assert(fv[0] == g);
                        model_done = model_done + seq![(refs[k as int], g)];
                    }
                }
            } else {
                proof {
                    if vec_search {
                        let prior = spec_taints_after(
                            cands,
                            all_false(cands.len() as int),
                            refs,
                            tolerance,
                            true,
                            k as int,
                        );
                        let g = crate::search_vec::spec_search_one(
                            cands,
                            prior,
                            refs[k as int],
                            tolerance,
                        );
                        let fv = found@.map_values(
                            |gr: Vec<TemporalHash>| gr@.map_values(|h: TemporalHash| h@),
                        );
                        let qseq = seq![refs[k as int]];
                        assert(fv.len() == found@.len());
                        assert(spec_groups_after(cands, prior, qseq, tolerance, true, 0)
                            == Seq::<Seq<HashView>>::empty());
                        assert(spec_taints_after(cands, prior, qseq, tolerance, true, 0) == prior);
                        assert(fv == spec_groups_after(cands, prior, qseq, tolerance, true, 1));
                        assert(qseq[0] == refs[k as int]);
                        if g.len() > 0 {
                            assert(fv =~= seq![g]);
                            assert(false);
                        }
                        assert(g.len() == 0);
                    }
                }
            }
            k = k + 1;
        }
        ret
    }
}

/// The fingerprints of all groups, in order.
pub open spec fn flatten_groups_n(gs: Seq<Seq<HashView>>, n: int) -> Seq<HashView>
    decreases n,
{
    if n <= 0 {
        Seq::empty()
    } else {
        flatten_groups_n(gs, n - 1) + gs[n - 1]
    }
}

pub open spec fn flatten_groups(gs: Seq<Seq<HashView>>) -> Seq<HashView> {
    flatten_groups_n(gs, gs.len() as int)
}

/// One consuming query splits the untainted entries exactly into the
/// returned matches and the entries left untainted.
proof fn lemma_search_one_partition(
    entries: Seq<HashView>,
    taints: Seq<bool>,
    q: HashView,
    tol: ScaledTolerance,
    n: int,
)
    requires
        n <= taints.len(),
    ensures
        crate::search_vec::spec_untainted_n(entries, taints, n).to_multiset()
            == crate::search_vec::spec_search_one_n(
            entries,
            taints,
            q,
            tol,
            n,
        ).to_multiset().add(
            crate::search_vec::spec_untainted_n(
                entries,
                crate::search_vec::spec_taint_one(entries, taints, q, tol, true),
                n,
            ).to_multiset(),
        ),
    decreases n,
{
    broadcast use vstd::seq_lib::group_to_multiset_ensures;
    broadcast use vstd::multiset::group_multiset_axioms;

    let t1 = crate::search_vec::spec_taint_one(entries, taints, q, tol, true);
    if n <= 0 {
        assert(crate::search_vec::spec_untainted_n(entries, taints, n).to_multiset()
            =~= crate::search_vec::spec_search_one_n(entries, taints, q, tol, n).to_multiset().add(
            crate::search_vec::spec_untainted_n(entries, t1, n).to_multiset(),
        ));
    } else {
        lemma_search_one_partition(entries, taints, q, tol, n - 1);
        let u_pre = crate::search_vec::spec_untainted_n(entries, taints, n - 1);
        let s_pre = crate::search_vec::spec_search_one_n(entries, taints, q, tol, n - 1);
        let w_pre = crate::search_vec::spec_untainted_n(entries, t1, n - 1);
        let e = entries[n - 1];
        if !taints[n - 1] {
            if crate::search_vec::entry_matches(e, taints[n - 1], q, tol) {
                assert(crate::search_vec::spec_untainted_n(entries, taints, n) =~= u_pre.push(e));
                assert(crate::search_vec::spec_search_one_n(entries, taints, q, tol, n)
                    =~= s_pre.push(e));
                assert(t1[n - 1]);
                assert(crate::search_vec::spec_untainted_n(entries, t1, n) =~= w_pre);
            } else {
                assert(crate::search_vec::spec_untainted_n(entries, taints, n) =~= u_pre.push(e));
                assert(crate::search_vec::spec_search_one_n(entries, taints, q, tol, n) =~= s_pre);
                assert(!t1[n - 1]);
                assert(crate::search_vec::spec_untainted_n(entries, t1, n) =~= w_pre.push(e));
            }
        } else {
            assert(t1[n - 1]);
            assert(crate::search_vec::spec_untainted_n(entries, taints, n) =~= u_pre);
            assert(crate::search_vec::spec_search_one_n(entries, taints, q, tol, n) =~= s_pre);
            assert(crate::search_vec::spec_untainted_n(entries, t1, n) =~= w_pre);
        }
    }
}

/// A whole query sequence splits the untainted entries exactly into the
/// flattened result groups and the survivors.
proof fn lemma_search_all_partition(
    entries: Seq<HashView>,
    taints: Seq<bool>,
    queries: Seq<HashView>,
    tol: ScaledTolerance,
    k: int,
)
    requires
        taints.len() == entries.len(),
    ensures
        spec_untainted(entries, taints).to_multiset() == flatten_groups(
            spec_groups_after(entries, taints, queries, tol, true, k),
        ).to_multiset().add(
            spec_untainted(
                entries,
                spec_taints_after(entries, taints, queries, tol, true, k),
            ).to_multiset(),
        ),
    decreases k,
{
    broadcast use vstd::seq_lib::group_to_multiset_ensures;
    broadcast use vstd::multiset::group_multiset_axioms;

    let n = entries.len() as int;
    if k <= 0 {
        assert(spec_groups_after(entries, taints, queries, tol, true, k)
            =~= Seq::<Seq<HashView>>::empty());
        assert(flatten_groups(Seq::<Seq<HashView>>::empty()) =~= Seq::<HashView>::empty());
        vstd::seq_lib::to_multiset_len::<HashView>(Seq::<HashView>::empty());
        vstd::multiset::lemma_multiset_empty_len(Seq::<HashView>::empty().to_multiset());
        assert(spec_untainted(entries, taints).to_multiset() =~= flatten_groups(
            spec_groups_after(entries, taints, queries, tol, true, k),
        ).to_multiset().add(
            spec_untainted(
                entries,
                spec_taints_after(entries, taints, queries, tol, true, k),
            ).to_multiset(),
        ));
    } else {
        lemma_search_all_partition(entries, taints, queries, tol, k - 1);
        let prior = spec_taints_after(entries, taints, queries, tol, true, k - 1);
        lemma_taints_after_len(entries, taints, queries, tol, true, k - 1);
        let g = spec_search_one(entries, prior, queries[k - 1], tol);
        lemma_search_one_partition(entries, prior, queries[k - 1], tol, n);
        let gs_pre = spec_groups_after(entries, taints, queries, tol, true, k - 1);
        let gs = spec_groups_after(entries, taints, queries, tol, true, k);
        if g.len() > 0 {
            assert(gs =~= gs_pre.push(g));
            assert(gs.drop_last() =~= gs_pre);
            assert(flatten_groups(gs) =~= flatten_groups_n(gs, gs.len() as int - 1) + g);
            lemma_flatten_prefix_same(gs, gs_pre, gs.len() as int - 1);
            vstd::seq_lib::lemma_multiset_commutative(flatten_groups(gs_pre), g);
        } else {
            assert(g =~= Seq::<HashView>::empty());
            assert(gs =~= gs_pre);
            vstd::seq_lib::to_multiset_len::<HashView>(g);
            vstd::multiset::lemma_multiset_empty_len(g.to_multiset());
        }
    }
}

/// Two group sequences that agree on a prefix flatten to the same
/// sequence over that prefix.
proof fn lemma_flatten_prefix_same(a: Seq<Seq<HashView>>, b: Seq<Seq<HashView>>, n: int)
    requires
        n <= a.len(),
        n <= b.len(),
        forall|i: int| 0 <= i < n ==> a[i] == b[i],
    ensures
        flatten_groups_n(a, n) == flatten_groups_n(b, n),
    decreases n,
{
    if n > 0 {
        lemma_flatten_prefix_same(a, b, n - 1);
    }
}

/// Dropping the one-member groups can only lower each fingerprint's
/// number of appearances.
proof fn lemma_keep_multi_count(gs: Seq<Seq<HashView>>, n: int, v: HashView)
    ensures
        flatten_groups(keep_multi_n(gs, n)).to_multiset().count(v) <= flatten_groups_n(
            gs,
            n,
        ).to_multiset().count(v),
    decreases n,
{
    broadcast use vstd::seq_lib::group_to_multiset_ensures;
    broadcast use vstd::multiset::group_multiset_axioms;

    if n <= 0 {
        assert(keep_multi_n(gs, n) =~= Seq::<Seq<HashView>>::empty());
        assert(flatten_groups(Seq::<Seq<HashView>>::empty()) =~= Seq::<HashView>::empty());
        vstd::seq_lib::to_multiset_len::<HashView>(Seq::<HashView>::empty());
        vstd::multiset::lemma_multiset_empty_len(Seq::<HashView>::empty().to_multiset());
    } else {
        lemma_keep_multi_count(gs, n - 1, v);
        let kept_pre = keep_multi_n(gs, n - 1);
        let kept = keep_multi_n(gs, n);
        if gs[n - 1].len() > 1 {
            assert(kept =~= kept_pre.push(gs[n - 1]));
            assert(kept.drop_last() =~= kept_pre);
            assert(flatten_groups(kept) =~= flatten_groups_n(kept, kept.len() as int - 1) + gs[n
                - 1]);
            lemma_flatten_prefix_same(kept, kept_pre, kept.len() as int - 1);
            vstd::seq_lib::lemma_multiset_commutative(flatten_groups(kept_pre), gs[n - 1]);
            vstd::seq_lib::lemma_multiset_commutative(flatten_groups_n(gs, n - 1), gs[n - 1]);
            assert(flatten_groups_n(gs, n) =~= flatten_groups_n(gs, n - 1) + gs[n - 1]);
        } else {
            assert(kept =~= kept_pre);
            assert(flatten_groups_n(gs, n) =~= flatten_groups_n(gs, n - 1) + gs[n - 1]);
            vstd::seq_lib::lemma_multiset_commutative(flatten_groups_n(gs, n - 1), gs[n - 1]);
        }
    }
}

/// Flattening distributes over concatenation of group sequences.
proof fn lemma_flatten_concat(a: Seq<Seq<HashView>>, b: Seq<Seq<HashView>>)
    ensures
        flatten_groups(a + b) == flatten_groups(a) + flatten_groups(b),
    decreases b.len(),
{
    if b.len() == 0 {
        assert(a + b =~= a);
        assert(flatten_groups(b) =~= Seq::<HashView>::empty());
        assert(flatten_groups(a) + Seq::<HashView>::empty() =~= flatten_groups(a));
    } else {
        lemma_flatten_concat(a, b.drop_last());
        assert((a + b).drop_last() =~= a + b.drop_last());
        assert(flatten_groups_n(a + b, (a + b).len() as int - 1) == flatten_groups_n(
            a + b.drop_last(),
            (a + b.drop_last()).len() as int,
        )) by {
            lemma_flatten_prefix_same(a + b, a + b.drop_last(), (a + b).len() as int - 1);
        }
        assert((a + b).last() == b.last());
        assert(flatten_groups_n(b, b.len() as int - 1) == flatten_groups(b.drop_last())) by {
            lemma_flatten_prefix_same(b, b.drop_last(), b.len() as int - 1);
        }
        assert(flatten_groups(a + b) =~= flatten_groups(a) + flatten_groups(b));
    }
}

/// Consume semantics: every input fingerprint appears in the output
/// groups at most as often as it appears in the input, so in particular
/// an input fingerprint occurring once lands in at most one group.
pub proof fn theorem_consume_at_most_once(hs: Seq<HashView>, tol: ScaledTolerance, v: HashView)
    ensures
        flatten_groups(spec_find_all(hs, tol)).to_multiset().count(v) <= hs.to_multiset().count(
            v,
        ),
    decreases hs.len(),
{
    broadcast use vstd::seq_lib::group_to_multiset_ensures;
    broadcast use vstd::multiset::group_multiset_axioms;

    if hs.len() == 0 {
        assert(spec_find_all(hs, tol) =~= Seq::<Seq<HashView>>::empty());
        assert(flatten_groups(Seq::<Seq<HashView>>::empty()) =~= Seq::<HashView>::empty());
        vstd::seq_lib::to_multiset_len::<HashView>(Seq::<HashView>::empty());
        vstd::multiset::lemma_multiset_empty_len(Seq::<HashView>::empty().to_multiset());
    } else {
        let zeros = all_false(hs.len() as int);
        let qs = round_queries(hs);
        lemma_untainted_all_false(hs, zeros, hs.len() as int);
        assert(hs.take(hs.len() as int) =~= hs);
        lemma_search_all_partition(hs, zeros, qs, tol, qs.len() as int);
        assert(spec_untainted(hs, zeros) == hs);
        let groups = round_groups(hs, tol);
        let surv = round_survivors(hs, tol);
        // one round: input = flattened groups + survivors, as multisets
        assert(hs.to_multiset() == flatten_groups(groups).to_multiset().add(
            surv.to_multiset(),
        ));
        lemma_keep_multi_count(groups, groups.len() as int, v);
        lemma_round_survivors_shrink(hs, tol);
        theorem_consume_at_most_once(surv, tol, v);
        lemma_flatten_concat(keep_multi(groups), spec_find_all(surv, tol));
        vstd::seq_lib::lemma_multiset_commutative(
            flatten_groups(keep_multi(groups)),
            flatten_groups(spec_find_all(surv, tol)),
        );
    }
}

/// With every entry equal to the query and no taints, one query returns
/// the whole prefix.
proof fn lemma_search_one_all_equal(hs: Seq<HashView>, tol: ScaledTolerance, n: int)
    requires
        0 <= n <= hs.len(),
        forall|i: int| 0 <= i < hs.len() ==> #[trigger] hs[i] == hs[0],
        hs.len() > 0,
    ensures
        crate::search_vec::spec_search_one_n(hs, all_false(hs.len() as int), hs[0], tol, n)
            == hs.take(n),
    decreases n,
{
    if n == 0 {
        assert(hs.take(0) =~= Seq::<HashView>::empty());
    } else {
        lemma_search_one_all_equal(hs, tol, n - 1);
        crate::temporal_hash::lemma_within_tolerance_self(hs[0], tol);
        assert(hs[n - 1] == hs[0]);
        assert(crate::search_vec::entry_matches(
            hs[n - 1],
            all_false(hs.len() as int)[n - 1],
            hs[0],
            tol,
        ));
        assert(hs.take(n) =~= hs.take(n - 1).push(hs[n - 1]));
        assert(crate::search_vec::spec_search_one_n(
            hs,
            all_false(hs.len() as int),
            hs[0],
            tol,
            n,
        ) =~= hs.take(n));
    }
}

/// With every entry tainted, a query returns nothing.
proof fn lemma_search_one_all_tainted(
    hs: Seq<HashView>,
    taints: Seq<bool>,
    q: HashView,
    tol: ScaledTolerance,
    n: int,
)
    requires
        forall|j: int| 0 <= j < taints.len() ==> taints[j],
        n <= taints.len(),
    ensures
        crate::search_vec::spec_search_one_n(hs, taints, q, tol, n) == Seq::<HashView>::empty(),
    decreases n,
{
    if n > 0 {
        lemma_search_one_all_tainted(hs, taints, q, tol, n - 1);
        assert(crate::search_vec::spec_search_one_n(hs, taints, q, tol, n)
            =~= Seq::<HashView>::empty());
    } else {
        assert(crate::search_vec::spec_search_one_n(hs, taints, q, tol, n)
            =~= Seq::<HashView>::empty());
    }
}

/// With every entry tainted, nothing survives as untainted.
proof fn lemma_untainted_all_tainted(hs: Seq<HashView>, taints: Seq<bool>, n: int)
    requires
        forall|j: int| 0 <= j < taints.len() ==> taints[j],
        n <= taints.len(),
    ensures
        crate::search_vec::spec_untainted_n(hs, taints, n) == Seq::<HashView>::empty(),
    decreases n,
{
    if n > 0 {
        lemma_untainted_all_tainted(hs, taints, n - 1);
    }
    assert(crate::search_vec::spec_untainted_n(hs, taints, n) =~= Seq::<HashView>::empty());
}

/// After the first query of an all-equal round, every entry is tainted,
/// and it stays that way for the rest of the round.
proof fn lemma_all_equal_taints(hs: Seq<HashView>, tol: ScaledTolerance, k: int)
    requires
        hs.len() > 0,
        forall|i: int| 0 <= i < hs.len() ==> #[trigger] hs[i] == hs[0],
        1 <= k,
    ensures
        forall|j: int|
            0 <= j < hs.len() ==> spec_taints_after(
                hs,
                all_false(hs.len() as int),
                round_queries(hs),
                tol,
                true,
                k,
            )[j],
        spec_taints_after(
            hs,
            all_false(hs.len() as int),
            round_queries(hs),
            tol,
            true,
            k,
        ).len() == hs.len(),
    decreases k,
{
    let zeros = all_false(hs.len() as int);
    let qs = round_queries(hs);
    lemma_taints_after_len(hs, zeros, qs, tol, true, k);
    if k == 1 {
        assert forall|j: int| 0 <= j < hs.len() implies spec_taints_after(
            hs,
            zeros,
            qs,
            tol,
            true,
            1,
        )[j] by {
            crate::temporal_hash::lemma_within_tolerance_self(hs[0], tol);
            assert(hs[j] == hs[0]);
            assert(qs[0] == hs[0]);
            assert(crate::search_vec::entry_matches(hs[j], zeros[j], qs[0], tol));
        }
    } else {
        lemma_all_equal_taints(hs, tol, k - 1);
        lemma_taints_after_len(hs, zeros, qs, tol, true, k - 1);
    }
}

/// Over an input of two or more equal fingerprints, the bulk search
/// yields exactly one group holding every input, in order.
pub proof fn theorem_all_equal_one_group(hs: Seq<HashView>, tol: ScaledTolerance)
    requires
        hs.len() >= 2,
        forall|i: int| 0 <= i < hs.len() ==> #[trigger] hs[i] == hs[0],
    ensures
        spec_find_all(hs, tol) == seq![hs],
{
    let zeros = all_false(hs.len() as int);
    let qs = round_queries(hs);
    let c = qs.len() as int;
    // the first query returns the whole input
    lemma_search_one_all_equal(hs, tol, hs.len() as int);
    assert(hs.take(hs.len() as int) =~= hs);
    assert(spec_search_one(hs, zeros, qs[0], tol) == hs);
    // every later query in the round returns nothing
    assert forall|k: int| 1 <= k <= c implies spec_groups_after(hs, zeros, qs, tol, true, k)
        == seq![hs] by {
        lemma_groups_after_all_equal(hs, tol, k);
    }
    assert(round_groups(hs, tol) == seq![hs]);
    // everything is consumed: no survivors, no further rounds
    lemma_all_equal_taints(hs, tol, c);
    lemma_untainted_all_tainted(hs, round_taints(hs, tol), hs.len() as int);
    assert(round_survivors(hs, tol) == Seq::<HashView>::empty());
    assert(spec_find_all(Seq::<HashView>::empty(), tol) =~= Seq::<Seq<HashView>>::empty());
    assert(keep_multi_n(seq![hs], 0) =~= Seq::<Seq<HashView>>::empty());
    assert(keep_multi(seq![hs]) =~= seq![hs]);
    assert(spec_find_all(hs, tol) =~= seq![hs]);
}

/// The groups of an all-equal round: one group from the first query and
/// nothing from the rest.
proof fn lemma_groups_after_all_equal(hs: Seq<HashView>, tol: ScaledTolerance, k: int)
    requires
        hs.len() >= 1,
        forall|i: int| 0 <= i < hs.len() ==> #[trigger] hs[i] == hs[0],
        1 <= k <= round_queries(hs).len(),
    ensures
        spec_groups_after(hs, all_false(hs.len() as int), round_queries(hs), tol, true, k)
            == seq![hs],
    decreases k,
{
    let zeros = all_false(hs.len() as int);
    let qs = round_queries(hs);
    if k == 1 {
        lemma_search_one_all_equal(hs, tol, hs.len() as int);
        assert(hs.take(hs.len() as int) =~= hs);
        assert(qs[0] == hs[0]);
        let g = spec_search_one(hs, zeros, qs[0], tol);
        assert(g == hs);
        assert(g.len() > 0);
        assert(spec_taints_after(hs, zeros, qs, tol, true, 0) == zeros);
        assert(spec_groups_after(hs, zeros, qs, tol, true, 0) == Seq::<Seq<HashView>>::empty());
        assert(spec_groups_after(hs, zeros, qs, tol, true, 1) =~= seq![hs]);
    } else {
        lemma_groups_after_all_equal(hs, tol, k - 1);
        lemma_all_equal_taints(hs, tol, k - 1);
        let prior = spec_taints_after(hs, zeros, qs, tol, true, k - 1);
        lemma_search_one_all_tainted(hs, prior, qs[k - 1], tol, hs.len() as int);
        let g = spec_search_one(hs, prior, qs[k - 1], tol);
        assert(g.len() == 0);
        assert(spec_groups_after(hs, zeros, qs, tol, true, k) =~= seq![hs]);
    }
}

/// Whether every pair of distinct positions holds fingerprints farther
/// apart than the tolerance.
pub open spec fn pairwise_distant(hs: Seq<HashView>, tol: ScaledTolerance) -> bool {
    forall|i: int, j: int|
        0 <= i < hs.len() && 0 <= j < hs.len() && i != j ==> !crate::temporal_hash::spec_within_tolerance(
            #[trigger] hs[i],
            #[trigger] hs[j],
            tol,
        )
}

/// In a pairwise-distant round, the first `k` queries taint exactly the
/// first `k` entries.
proof fn lemma_distinct_taints(hs: Seq<HashView>, tol: ScaledTolerance, k: int)
    requires
        pairwise_distant(hs, tol),
        0 <= k <= round_queries(hs).len(),
    ensures
        spec_taints_after(hs, all_false(hs.len() as int), round_queries(hs), tol, true, k)
            == Seq::new(hs.len(), |j: int| j < k),
    decreases k,
{
    let zeros = all_false(hs.len() as int);
    let qs = round_queries(hs);
    if k == 0 {
        assert(spec_taints_after(hs, zeros, qs, tol, true, 0) =~= Seq::new(
            hs.len(),
            |j: int| j < 0,
        ));
    } else {
        lemma_distinct_taints(hs, tol, k - 1);
        let prev = Seq::new(hs.len(), |j: int| j < k - 1);
        assert(qs[k - 1] == hs[k - 1]);
        assert forall|j: int| 0 <= j < hs.len() implies #[trigger] crate::search_vec::spec_taint_one(
            hs,
            prev,
            hs[k - 1],
            tol,
            true,
        )[j] == (j < k) by {
            if j == k - 1 {
                crate::temporal_hash::lemma_within_tolerance_self(hs[k - 1], tol);
            } else if j >= k {
                assert(!crate::temporal_hash::spec_within_tolerance(hs[k - 1], hs[j], tol));
            }
        }
        assert(spec_taints_after(hs, zeros, qs, tol, true, k) =~= Seq::new(
            hs.len(),
            |j: int| j < k,
        ));
    }
}

/// In a pairwise-distant round, query `k` matches only itself.
proof fn lemma_distinct_search_one(hs: Seq<HashView>, tol: ScaledTolerance, k: int, n: int)
    requires
        pairwise_distant(hs, tol),
        0 <= k < hs.len(),
        0 <= n <= hs.len(),
    ensures
        crate::search_vec::spec_search_one_n(
            hs,
            Seq::new(hs.len(), |j: int| j < k),
            hs[k],
            tol,
            n,
        ) == if n > k {
            seq![hs[k]]
        } else {
            Seq::<HashView>::empty()
        },
    decreases n,
{
    let taints = Seq::new(hs.len(), |j: int| j < k);
    if n > 0 {
        lemma_distinct_search_one(hs, tol, k, n - 1);
        if n - 1 == k {
            crate::temporal_hash::lemma_within_tolerance_self(hs[k], tol);
            assert(crate::search_vec::entry_matches(hs[n - 1], taints[n - 1], hs[k], tol));
            assert(crate::search_vec::spec_search_one_n(hs, taints, hs[k], tol, n)
                =~= seq![hs[k]]);
        } else {
            if n - 1 > k {
                assert(!crate::temporal_hash::spec_within_tolerance(hs[k], hs[n - 1], tol));
            }
            assert(!crate::search_vec::entry_matches(hs[n - 1], taints[n - 1], hs[k], tol));
            if n > k {
                assert(crate::search_vec::spec_search_one_n(hs, taints, hs[k], tol, n)
                    =~= seq![hs[k]]);
            } else {
                assert(crate::search_vec::spec_search_one_n(hs, taints, hs[k], tol, n)
                    =~= Seq::<HashView>::empty());
            }
        }
    } else {
        assert(crate::search_vec::spec_search_one_n(hs, taints, hs[k], tol, n)
            =~= Seq::<HashView>::empty());
    }
}

/// In a pairwise-distant round, every query's result is a single item.
proof fn lemma_distinct_groups_after(hs: Seq<HashView>, tol: ScaledTolerance, k: int)
    requires
        pairwise_distant(hs, tol),
        0 <= k <= round_queries(hs).len(),
    ensures
        spec_groups_after(hs, all_false(hs.len() as int), round_queries(hs), tol, true, k).len()
            == k,
        forall|i: int|
            0 <= i < k ==> spec_groups_after(
                hs,
                all_false(hs.len() as int),
                round_queries(hs),
                tol,
                true,
                k,
            )[i] == seq![hs[i]],
    decreases k,
{
    let zeros = all_false(hs.len() as int);
    let qs = round_queries(hs);
    if k > 0 {
        lemma_distinct_groups_after(hs, tol, k - 1);
        lemma_distinct_taints(hs, tol, k - 1);
        assert(qs[k - 1] == hs[k - 1]);
        assert(k - 1 < hs.len());
        lemma_distinct_search_one(hs, tol, k - 1, hs.len() as int);
        let g = spec_search_one(hs, Seq::new(hs.len(), |j: int| j < k - 1), hs[k - 1], tol);
        assert(g == seq![hs[k - 1]]);
    }
}

/// Groups that never hold more than one member all vanish.
proof fn lemma_keep_multi_all_small(gs: Seq<Seq<HashView>>, n: int)
    requires
        forall|i: int| 0 <= i < n ==> (#[trigger] gs[i]).len() <= 1,
    ensures
        keep_multi_n(gs, n) == Seq::<Seq<HashView>>::empty(),
    decreases n,
{
    if n > 0 {
        lemma_keep_multi_all_small(gs, n - 1);
    }
    assert(keep_multi_n(gs, n) =~= Seq::<Seq<HashView>>::empty());
}

/// With exactly the first `c` entries tainted, the untainted prefix of
/// length `n` is the slice from `c` to `n`.
proof fn lemma_untainted_threshold(hs: Seq<HashView>, c: int, n: int)
    requires
        0 <= c,
        0 <= n <= hs.len(),
    ensures
        crate::search_vec::spec_untainted_n(hs, Seq::new(hs.len(), |j: int| j < c), n) == if n
            <= c {
            Seq::<HashView>::empty()
        } else {
            hs.subrange(c, n)
        },
    decreases n,
{
    let taints = Seq::new(hs.len(), |j: int| j < c);
    if n > 0 {
        lemma_untainted_threshold(hs, c, n - 1);
        if n <= c {
            assert(crate::search_vec::spec_untainted_n(hs, taints, n)
                =~= Seq::<HashView>::empty());
        } else if n - 1 <= c {
            assert(crate::search_vec::spec_untainted_n(hs, taints, n) =~= hs.subrange(c, n));
        } else {
            assert(hs.subrange(c, n) =~= hs.subrange(c, n - 1).push(hs[n - 1]));
            assert(crate::search_vec::spec_untainted_n(hs, taints, n) =~= hs.subrange(c, n));
        }
    } else {
        assert(crate::search_vec::spec_untainted_n(hs, taints, n) =~= Seq::<HashView>::empty());
    }
}

/// Over an input whose fingerprints are pairwise farther apart than the
/// tolerance, the bulk search returns no groups: every query matches
/// only itself, and single-member results are dropped.
pub proof fn theorem_all_distant_no_groups(hs: Seq<HashView>, tol: ScaledTolerance)
    requires
        pairwise_distant(hs, tol),
    ensures
        spec_find_all(hs, tol) == Seq::<Seq<HashView>>::empty(),
    decreases hs.len(),
{
    if hs.len() == 0 {
        assert(spec_find_all(hs, tol) =~= Seq::<Seq<HashView>>::empty());
    } else {
        let c = round_queries(hs).len() as int;
        lemma_distinct_taints(hs, tol, c);
        lemma_distinct_groups_after(hs, tol, c);
        assert forall|i: int| 0 <= i < c implies (#[trigger] round_groups(hs, tol)[i]).len()
            <= 1 by {
            assert(round_groups(hs, tol)[i] == seq![hs[i]]);
        }
        lemma_keep_multi_all_small(round_groups(hs, tol), c);
        assert(round_groups(hs, tol).len() == c);
        assert(keep_multi(round_groups(hs, tol)) == Seq::<Seq<HashView>>::empty());
        lemma_untainted_threshold(hs, c, hs.len() as int);
        let surv = round_survivors(hs, tol);
        if hs.len() <= 5000 {
            assert(c == hs.len());
            assert(surv == Seq::<HashView>::empty());
            assert(spec_find_all(Seq::<HashView>::empty(), tol)
                =~= Seq::<Seq<HashView>>::empty());
        } else {
            assert(c == 5000);
            assert(surv == hs.subrange(5000, hs.len() as int));
            assert(pairwise_distant(surv, tol)) by {
                assert forall|a: int, b: int|
                    0 <= a < surv.len() && 0 <= b < surv.len() && a != b
                        implies !crate::temporal_hash::spec_within_tolerance(
                        surv[a],
                        surv[b],
                        tol,
                    ) by {
                    assert(surv[a] == hs[5000 + a]);
                    assert(surv[b] == hs[5000 + b]);
                }
            }
            theorem_all_distant_no_groups(surv, tol);
        }
        assert(spec_find_all(hs, tol) =~= Seq::<Seq<HashView>>::empty());
    }
}

} // verus!
