//! The outcome of a duplicate search: the match groups, the paths they
//! cover, and the paths that matched nothing.

use vstd::prelude::*;

use crate::concrete_cachers::DupFinderCache;
use crate::match_group::{
    cached_duration, group_all_cached, pair_views, sorted_by_len, MatchGroup, MatchGroupView,
};
use crate::search_structures::ScaledTolerance;
use crate::temporal_hash::HashView;

verus! {

/// Whether some group of `groups` lists `p` among its duplicates.
pub open spec fn spec_in_some_group(groups: Seq<MatchGroup>, p: Seq<char>) -> bool {
    exists|g: int| 0 <= g < groups.len() && (#[trigger] groups[g])@.duplicates.contains(p)
}

/// The path views of a string vector.
pub open spec fn path_views(v: Seq<String>) -> Seq<Seq<char>> {
    v.map_values(|q: String| q@)
}

pub struct SearchOutput {
    pub dup_groups: Vec<MatchGroup>,
    pub dup_files: Vec<String>,
    pub unique_files: Vec<String>,
    pub search_included_references: bool,
}

impl SearchOutput {
    /// The duplicate-file list covers exactly the groups' members.
    pub open spec fn wf(self) -> bool {
        forall|p: Seq<char>|
            #[trigger] path_views(self.dup_files@).contains(p) <==> spec_in_some_group(
                self.dup_groups@,
                p,
            )
    }

    /// Gather the groups and the unmatched paths; the duplicate-file
    /// list is derived from the groups.
    pub fn new(
        dup_groups: Vec<MatchGroup>,
        unique_files: Vec<String>,
        search_included_references: bool,
    ) -> (r: Self)
        ensures
            r.wf(),
            r.dup_groups == dup_groups,
            r.unique_files == unique_files,
            r.search_included_references == search_included_references,
    {
        let mut dup_files: Vec<String> = Vec::new();
        let mut g: usize = 0;
        let n = dup_groups.len();
        while g < n
            invariant
                n == dup_groups@.len(),
                g <= n,
                forall|p: Seq<char>|
                    #[trigger] path_views(dup_files@).contains(p) <==> spec_in_some_group(
                        dup_groups@.take(g as int),
                        p,
                    ),
            decreases n - g,
        {
            let ghost files_pre = path_views(dup_files@);
            let dups = dup_groups[g].duplicates();
            let mut j: usize = 0;
            let m = dups.len();
            while j < m
                invariant
                    g < dup_groups@.len(),
                    m == dups@.len(),
                    j <= m,
                    dups@.map_values(|q: String| q@) == dup_groups@[g as int]@.duplicates,
                    forall|p: Seq<char>|
                        #[trigger] path_views(dup_files@).contains(p) <==> (files_pre.contains(p)
                            || dup_groups@[g as int]@.duplicates.take(j as int).contains(p)),
                decreases m - j,
            {
                let ghost before = path_views(dup_files@);
                let p = dups[j].clone();
                dup_files.push(p);
                proof {
                    let now = path_views(dup_files@);
                    let dv = dup_groups@[g as int]@.duplicates;
                    assert(now =~= before.push(dv[j as int]));
                    assert(dv.take(j + 1) =~= dv.take(j as int).push(dv[j as int]));
                    assert forall|p2: Seq<char>| #[trigger] now.contains(p2) <==> (
                    files_pre.contains(p2) || dv.take(j + 1).contains(p2)) by {
                        lemma_seq_contains_push(before, dv[j as int], p2);
                        lemma_seq_contains_push(dv.take(j as int), dv[j as int], p2);
                    }
                }
                j = j + 1;
            }
            proof {
                let dv = dup_groups@[g as int]@.duplicates;
                assert(dv.take(m as int) =~= dv);
                assert forall|p2: Seq<char>|
                    #[trigger] path_views(dup_files@).contains(p2) <==> spec_in_some_group(
                        dup_groups@.take(g + 1),
                        p2,
                    ) by {
                    if spec_in_some_group(dup_groups@.take(g + 1), p2) {
                        let gi = choose|gi: int|
                            0 <= gi < dup_groups@.take(g + 1).len() && (#[trigger] dup_groups@.take(
                                g + 1,
                            )[gi])@.duplicates.contains(p2);
                        if gi < g {
                            assert(dup_groups@.take(g as int)[gi] == dup_groups@.take(g + 1)[gi]);
                            assert(spec_in_some_group(dup_groups@.take(g as int), p2));
                        } else {
                            assert(dup_groups@.take(g + 1)[gi] == dup_groups@[g as int]);
                        }
                    }
                    if path_views(dup_files@).contains(p2) {
                        if files_pre.contains(p2) {
                            let gi = choose|gi: int|
                                0 <= gi < dup_groups@.take(g as int).len() && (
                                #[trigger] dup_groups@.take(g as int)[gi])@.duplicates.contains(
                                    p2,
                                );
                            assert(dup_groups@.take(g + 1)[gi] == dup_groups@.take(g as int)[gi]);
                            assert(spec_in_some_group(dup_groups@.take(g + 1), p2));
                        } else {
                            assert(dup_groups@.take(g + 1)[g as int] == dup_groups@[g as int]);
                            assert(spec_in_some_group(dup_groups@.take(g + 1), p2));
                        }
                    }
                }
            }
            g = g + 1;
        }
        proof {
            assert(dup_groups@.take(n as int) =~= dup_groups@);
        }
        SearchOutput { dup_groups, dup_files, unique_files, search_included_references }
    }

    pub fn dup_groups(&self) -> (r: &Vec<MatchGroup>)
        ensures
            r == self.dup_groups,
    {
        &self.dup_groups
    }

    /// Whether `cand` belongs to some group.
    pub fn contains(&self, cand: &String) -> (r: bool)
        requires
            self.wf(),
        ensures
            r == spec_in_some_group(self.dup_groups@, cand@),
    {
        let mut i: usize = 0;
        let n = self.dup_files.len();
        while i < n
            invariant
                self.wf(),
                n == self.dup_files@.len(),
                i <= n,
                forall|j: int| 0 <= j < i ==> (#[trigger] self.dup_files@[j])@ != cand@,
            decreases n - i,
        {
            if self.dup_files[i] == *cand {
                proof {
                    let fv = path_views(self.dup_files@);
                    assert(fv[i as int] == self.dup_files@[i as int]@);
                    assert(fv[i as int] == cand@);
                    assert(fv.contains(cand@));
                    assert(spec_in_some_group(self.dup_groups@, cand@));
                }
                return true;
            }
            i = i + 1;
        }
        proof {
            let fv = path_views(self.dup_files@);
            if fv.contains(cand@) {
                let j = choose|j: int| 0 <= j < fv.len() && fv[j] == cand@;
                assert(self.dup_files@[j]@ == cand@);
            }
        }
        false
    }

    pub fn dup_hashes(&self) -> (r: &Vec<String>)
        ensures
            r == self.dup_files,
    {
        &self.dup_files
    }

    pub fn unique_hashes(&self) -> (r: &Vec<String>)
        ensures
            r == self.unique_files,
    {
        &self.unique_files
    }

    pub fn len(&self) -> (r: usize)
        ensures
            r == self.dup_groups@.len(),
    {
        self.dup_groups.len()
    }

    /// Keep of every group only its duration-affirmed sub-groups: the
    /// result's groups are the concatenation, in order, of each input
    /// group's `MatchGroup::affirmed` refinement.
    pub fn affirmed(&self, cache: &DupFinderCache) -> (r: Self)
        requires
            cache.wf(),
            forall|g: int|
                0 <= g < self.dup_groups@.len() ==> group_all_cached(
                    (#[trigger] self.dup_groups@[g])@,
                    *cache,
                ),
        ensures
            r.wf(),
            r.unique_files@ == self.unique_files@,
            r.search_included_references == self.search_included_references,
            exists|subs: Seq<Seq<MatchGroupView>>|
                {
                    &&& subs.len() == self.dup_groups@.len()
                    &&& forall|g: int|
                        0 <= g < subs.len() ==> spec_affirm_refinement_ok(
                            *cache,
                            self.dup_groups@[g]@,
                            #[trigger] subs[g],
                        )
                    &&& mg_views(r.dup_groups@) == flatten_views(subs, subs.len() as int)
                },
    {
        let mut new_groups: Vec<MatchGroup> = Vec::new();
        let ghost mut subs: Seq<Seq<MatchGroupView>> = Seq::empty();
        let mut g: usize = 0;
        let n = self.dup_groups.len();
        proof {
            assert(mg_views(new_groups@) =~= flatten_views(subs, 0));
        }
        while g < n
            invariant
                cache.wf(),
                n == self.dup_groups@.len(),
                g <= n,
                forall|k: int|
                    0 <= k < self.dup_groups@.len() ==> group_all_cached(
                        (#[trigger] self.dup_groups@[k])@,
                        *cache,
                    ),
                subs.len() == g,
                forall|k: int|
                    0 <= k < subs.len() ==> spec_affirm_refinement_ok(
                        *cache,
                        self.dup_groups@[k]@,
                        #[trigger] subs[k],
                    ),
                mg_views(new_groups@) == flatten_views(subs, subs.len() as int),
            decreases n - g,
        {
            let sub = self.dup_groups[g].affirmed(cache);
            let ghost sub_views = mg_views(sub@);
            let ghost before = mg_views(new_groups@);
            let mut j: usize = 0;
            let m = sub.len();
            while j < m
                invariant
                    m == sub@.len(),
                    j <= m,
                    sub_views == mg_views(sub@),
                    before == flatten_views(subs, subs.len() as int),
                    mg_views(new_groups@) == before + sub_views.take(j as int),
                decreases m - j,
            {
                let item = sub[j].clone();
                let ghost item_view = item@;
                let ghost groups_pre_seq = new_groups@;
                new_groups.push(item);
                proof {
                    assert(item_view == sub@[j as int]@);
                    assert(mg_views(sub@)[j as int] == sub@[j as int]@);
                    assert(mg_views(new_groups@) =~= mg_views(groups_pre_seq).push(item_view));
                    assert(sub_views.take(j + 1) =~= sub_views.take(j as int).push(
                        sub_views[j as int],
                    ));
                    assert(mg_views(new_groups@) =~= before + sub_views.take(j + 1));
                }
                j = j + 1;
            }
            proof {
                assert(spec_affirm_refinement_ok(*cache, self.dup_groups@[g as int]@, sub_views));
                let subs_pre = subs;
                subs = subs.push(sub_views);
                assert(subs[subs.len() - 1] == sub_views);
                assert(sub_views.take(m as int) =~= sub_views);
                assert(flatten_views(subs, subs.len() as int - 1) == flatten_views(
                    subs_pre,
                    subs_pre.len() as int,
                )) by {
                    lemma_flatten_views_prefix(subs, subs_pre, subs_pre.len() as int);
                }
                assert(flatten_views(subs, subs.len() as int) =~= before + sub_views);
            }
            g = g + 1;
        }
        let unique = clone_paths(&self.unique_files);
        SearchOutput::new(new_groups, unique, self.search_included_references)
    }

    /// Expand every group into pairs within the tolerance: the result's
    /// groups are the concatenation, in order, of each input group's
    /// `MatchGroup::cartesian_product` refinement.
    pub fn cartesian_product(&self, tolerance: ScaledTolerance, cache: &DupFinderCache) -> (r:
        Self)
        requires
            cache.wf(),
            forall|g: int|
                0 <= g < self.dup_groups@.len() ==> group_all_cached(
                    (#[trigger] self.dup_groups@[g])@,
                    *cache,
                ),
        ensures
            r.wf(),
            r.unique_files@ == self.unique_files@,
            r.search_included_references == self.search_included_references,
            exists|subs: Seq<Seq<MatchGroupView>>|
                {
                    &&& subs.len() == self.dup_groups@.len()
                    &&& forall|g: int|
                        0 <= g < subs.len() ==> spec_cartesian_refinement_ok(
                            *cache,
                            tolerance,
                            self.dup_groups@[g]@,
                            #[trigger] subs[g],
                        )
                    &&& mg_views(r.dup_groups@) == flatten_views(subs, subs.len() as int)
                },
    {
        let mut new_groups: Vec<MatchGroup> = Vec::new();
        let ghost mut subs: Seq<Seq<MatchGroupView>> = Seq::empty();
        let mut g: usize = 0;
        let n = self.dup_groups.len();
        proof {
            assert(mg_views(new_groups@) =~= flatten_views(subs, 0));
        }
        while g < n
            invariant
                cache.wf(),
                n == self.dup_groups@.len(),
                g <= n,
                forall|k: int|
                    0 <= k < self.dup_groups@.len() ==> group_all_cached(
                        (#[trigger] self.dup_groups@[k])@,
                        *cache,
                    ),
                subs.len() == g,
                forall|k: int|
                    0 <= k < subs.len() ==> spec_cartesian_refinement_ok(
                        *cache,
                        tolerance,
                        self.dup_groups@[k]@,
                        #[trigger] subs[k],
                    ),
                mg_views(new_groups@) == flatten_views(subs, subs.len() as int),
            decreases n - g,
        {
            let sub = self.dup_groups[g].cartesian_product(tolerance, cache);
            let ghost sub_views = mg_views(sub@);
            let ghost before = mg_views(new_groups@);
            let mut j: usize = 0;
            let m = sub.len();
            while j < m
                invariant
                    m == sub@.len(),
                    j <= m,
                    sub_views == mg_views(sub@),
                    before == flatten_views(subs, subs.len() as int),
                    mg_views(new_groups@) == before + sub_views.take(j as int),
                decreases m - j,
            {
                let item = sub[j].clone();
                let ghost item_view = item@;
                let ghost groups_pre_seq = new_groups@;
                new_groups.push(item);
                proof {
                    assert(item_view == sub@[j as int]@);
                    assert(mg_views(sub@)[j as int] == sub@[j as int]@);
                    assert(mg_views(new_groups@) =~= mg_views(groups_pre_seq).push(item_view));
                    assert(sub_views.take(j + 1) =~= sub_views.take(j as int).push(
                        sub_views[j as int],
                    ));
                    assert(mg_views(new_groups@) =~= before + sub_views.take(j + 1));
                }
                j = j + 1;
            }
            proof {
                assert(pair_views(sub@) =~= pair_views_of(sub_views));
                assert(spec_cartesian_refinement_ok(
                    *cache,
                    tolerance,
                    self.dup_groups@[g as int]@,
                    sub_views,
                ));
                let subs_pre = subs;
                subs = subs.push(sub_views);
                assert(subs[subs.len() - 1] == sub_views);
                assert(sub_views.take(m as int) =~= sub_views);
                assert(flatten_views(subs, subs.len() as int - 1) == flatten_views(
                    subs_pre,
                    subs_pre.len() as int,
                )) by {
                    lemma_flatten_views_prefix(subs, subs_pre, subs_pre.len() as int);
                }
                assert(flatten_views(subs, subs.len() as int) =~= before + sub_views);
            }
            g = g + 1;
        }
        let unique = clone_paths(&self.unique_files);
        SearchOutput::new(new_groups, unique, self.search_included_references)
    }
}

/// Each group as its mathematical content.
pub open spec fn mg_views(gs: Seq<MatchGroup>) -> Seq<MatchGroupView> {
    gs.map_values(|mg: MatchGroup| mg@)
}

/// The group views of `gs`'s first `n` lists, concatenated in order.
pub open spec fn flatten_views(gs: Seq<Seq<MatchGroupView>>, n: int) -> Seq<MatchGroupView>
    decreases n,
{
    if n <= 0 {
        Seq::empty()
    } else {
        flatten_views(gs, n - 1) + gs[n - 1]
    }
}

/// Two list-of-list sequences that agree on a prefix flatten alike
/// over it.
proof fn lemma_flatten_views_prefix(a: Seq<Seq<MatchGroupView>>, b: Seq<Seq<MatchGroupView>>, n: int)
    requires
        n <= a.len(),
        n <= b.len(),
        forall|i: int| 0 <= i < n ==> a[i] == b[i],
    ensures
        flatten_views(a, n) == flatten_views(b, n),
    decreases n,
{
    if n > 0 {
        lemma_flatten_views_prefix(a, b, n - 1);
    }
}

/// Each two-member group view as its ordered pair of paths.
pub open spec fn pair_views_of(gs: Seq<MatchGroupView>) -> Seq<(Seq<char>, Seq<char>)> {
    gs.map_values(|v: MatchGroupView| (v.duplicates[0], v.duplicates[1]))
}

/// What `MatchGroup::affirmed` leaves of one group, stated of the
/// refinement's views.
pub open spec fn spec_affirm_refinement_ok(
    cache: DupFinderCache,
    g: MatchGroupView,
    sub: Seq<MatchGroupView>,
) -> bool {
    match g.reference {
        Option::Some(rp) => {
            let kept = MatchGroup::spec_affirm_ref_kept(
                cache,
                rp,
                g.duplicates,
                g.duplicates.len() as int,
            );
            &&& sub.len() == (if kept.len() == 0 {
                0int
            } else {
                1int
            })
            &&& (sub.len() == 1 ==> sub[0].reference == Some(rp) && sorted_by_len(
                sub[0].duplicates,
            ) && sub[0].duplicates.to_multiset() == kept.to_multiset())
        },
        Option::None => {
            let gs = MatchGroup::spec_multi_groups(
                MatchGroup::spec_greedy_groups(cache, g.duplicates, g.duplicates.len() as int),
                MatchGroup::spec_greedy_groups(
                    cache,
                    g.duplicates,
                    g.duplicates.len() as int,
                ).len() as int,
            );
            &&& sub.len() == gs.len()
            &&& forall|k: int|
                0 <= k < sub.len() ==> (#[trigger] sub[k]).reference is None && sub[k].duplicates
                    == gs[k]
        },
    }
}

/// What `MatchGroup::cartesian_product` makes of one group, stated of
/// the refinement's views.
pub open spec fn spec_cartesian_refinement_ok(
    cache: DupFinderCache,
    tolerance: ScaledTolerance,
    g: MatchGroupView,
    sub: Seq<MatchGroupView>,
) -> bool {
    match g.reference {
        Option::Some(rp) => {
            &&& sub.len() == g.duplicates.len()
            &&& forall|k: int|
                0 <= k < sub.len() ==> (#[trigger] sub[k]).reference == Some(rp)
                    && sub[k].duplicates == seq![g.duplicates[k]]
        },
        Option::None => {
            &&& pair_views_of(sub) == MatchGroup::spec_pairs_from(
                cache,
                g.duplicates,
                tolerance,
                0,
                1,
            )
            &&& forall|k: int|
                0 <= k < sub.len() ==> (#[trigger] sub[k]).reference is None
                    && sub[k].duplicates.len() == 2
        },
    }
}

/// How many groups duration affirmation leaves of one group.
pub open spec fn spec_affirm_count(cache: DupFinderCache, g: MatchGroupView) -> int {
    match g.reference {
        Option::Some(rp) => if MatchGroup::spec_affirm_ref_kept(
            cache,
            rp,
            g.duplicates,
            g.duplicates.len() as int,
        ).len() == 0 {
            0int
        } else {
            1int
        },
        Option::None => MatchGroup::spec_multi_groups(
            MatchGroup::spec_greedy_groups(cache, g.duplicates, g.duplicates.len() as int),
            MatchGroup::spec_greedy_groups(
                cache,
                g.duplicates,
                g.duplicates.len() as int,
            ).len() as int,
        ).len() as int,
    }
}

/// The groups among the first `n` whose affirmation does not confirm
/// them as exactly one group, in order.
pub open spec fn spec_false_positive_views(
    cache: DupFinderCache,
    gs: Seq<MatchGroupView>,
    n: int,
) -> Seq<MatchGroupView>
    decreases n,
{
    if n <= 0 {
        Seq::empty()
    } else {
        spec_false_positive_views(cache, gs, n - 1) + if spec_affirm_count(cache, gs[n - 1])
            != 1 {
            seq![gs[n - 1]]
        } else {
            Seq::empty()
        }
    }
}

impl SearchOutput {
    /// Exactly the groups duration affirmation does not confirm as a
    /// single group: likely false positives worth a human look.
    pub fn false_positives(&self, cache: &DupFinderCache) -> (r: Self)
        requires
            cache.wf(),
            forall|g: int|
                0 <= g < self.dup_groups@.len() ==> group_all_cached(
                    (#[trigger] self.dup_groups@[g])@,
                    *cache,
                ),
        ensures
            r.wf(),
            r.unique_files@ == self.unique_files@,
            r.search_included_references == self.search_included_references,
            mg_views(r.dup_groups@) == spec_false_positive_views(
                *cache,
                mg_views(self.dup_groups@),
                self.dup_groups@.len() as int,
            ),
    {
        let ghost gv = mg_views(self.dup_groups@);
        let mut kept: Vec<MatchGroup> = Vec::new();
        let mut g: usize = 0;
        let n = self.dup_groups.len();
        proof {
            assert(mg_views(kept@) =~= spec_false_positive_views(*cache, gv, 0));
        }
        while g < n
            invariant
                cache.wf(),
                n == self.dup_groups@.len(),
                g <= n,
                gv == mg_views(self.dup_groups@),
                forall|k: int|
                    0 <= k < self.dup_groups@.len() ==> group_all_cached(
                        (#[trigger] self.dup_groups@[k])@,
                        *cache,
                    ),
                mg_views(kept@) == spec_false_positive_views(*cache, gv, g as int),
            decreases n - g,
        {
            let ghost kept_pre = mg_views(kept@);
            let sub = self.dup_groups[g].affirmed(cache);
            proof {
                assert(gv[g as int] == self.dup_groups@[g as int]@);
                assert(sub@.len() == spec_affirm_count(*cache, gv[g as int]));
            }
            if sub.len() != 1 {
                let copy = self.dup_groups[g].clone();
                kept.push(copy);
                proof {
                    assert(mg_views(kept@) =~= kept_pre.push(gv[g as int]));
                    assert(spec_false_positive_views(*cache, gv, g + 1) =~= kept_pre.push(
                        gv[g as int],
                    ));
                }
            } else {
                proof {
                    assert(spec_false_positive_views(*cache, gv, g + 1) =~= kept_pre);
                }
            }
            g = g + 1;
        }
        let unique = clone_paths(&self.unique_files);
        SearchOutput::new(kept, unique, self.search_included_references)
    }

    /// Every group's duplicates except its best-looking member.
    pub fn dups_with_lowest_pngsize(&self, cache: &DupFinderCache) -> (r: Vec<String>)
        requires
            cache.wf(),
            forall|g: int|
                0 <= g < self.dup_groups@.len() ==> group_all_cached(
                    (#[trigger] self.dup_groups@[g])@,
                    *cache,
                ),
        ensures
            forall|j: int|
                0 <= j < r@.len() ==> spec_in_some_group(self.dup_groups@, (#[trigger] r@[j])@),
    {
        let mut r: Vec<String> = Vec::new();
        let mut g: usize = 0;
        let n = self.dup_groups.len();
        while g < n
            invariant
                cache.wf(),
                n == self.dup_groups@.len(),
                g <= n,
                forall|k: int|
                    0 <= k < self.dup_groups@.len() ==> group_all_cached(
                        (#[trigger] self.dup_groups@[k])@,
                        *cache,
                    ),
                forall|j: int|
                    0 <= j < r@.len() ==> spec_in_some_group(
                        self.dup_groups@,
                        (#[trigger] r@[j])@,
                    ),
            decreases n - g,
        {
            let mut sub = self.dup_groups[g].dups_with_lowest_pngsize(cache);
            while sub.len() > 0
                invariant
                    g < self.dup_groups@.len(),
                    forall|t: int|
                        0 <= t < sub@.len() ==> self.dup_groups@[g as int]@.duplicates.contains(
                            (#[trigger] sub@[t])@,
                        ),
                    forall|j: int|
                        0 <= j < r@.len() ==> spec_in_some_group(
                            self.dup_groups@,
                            (#[trigger] r@[j])@,
                        ),
                decreases sub@.len(),
            {
                match sub.pop() {
                    Some(p) => {
                        proof {
                            assert(self.dup_groups@[g as int]@.duplicates.contains(p@));
                            assert(spec_in_some_group(self.dup_groups@, p@));
                        }
                        r.push(p);
                    },
                    None => {},
                }
            }
            g = g + 1;
        }
        r
    }
}

/// Clone a path list.
pub fn clone_paths(paths: &Vec<String>) -> (r: Vec<String>)
    ensures
        r@.map_values(|p: String| p@) == paths@.map_values(|p: String| p@),
        r@ == paths@,
{
    let mut r: Vec<String> = Vec::new();
    let mut i: usize = 0;
    while i < paths.len()
        invariant
            i <= paths@.len(),
            r@.len() == i,
            forall|j: int| 0 <= j < i ==> r@[j] == paths@[j],
        decreases paths@.len() - i,
    {
        let p = paths[i].clone();
        r.push(p);
        i = i + 1;
    }
    proof {
        assert(r@ =~= paths@);
    }
    r
}

/// Membership after a push.
proof fn lemma_seq_contains_push(s: Seq<Seq<char>>, x: Seq<char>, p: Seq<char>)
    ensures
        s.push(x).contains(p) <==> (s.contains(p) || p == x),
{
    if s.push(x).contains(p) {
        let i = choose|i: int| 0 <= i < s.push(x).len() && s.push(x)[i] == p;
        if i < s.len() {
            assert(s[i] == p);
        }
    }
    if s.contains(p) {
        let i = choose|i: int| 0 <= i < s.len() && s[i] == p;
        assert(s.push(x)[i] == p);
    }
    if p == x {
        assert(s.push(x)[s.len() as int] == p);
    }
}

} // verus!
