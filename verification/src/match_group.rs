//! Groups of files judged to be duplicates of one another.
//!
//! A group either has no reference (all members are mutual duplicates) or
//! names a reference file whose duplicates the remaining members are.
//! Duplicates of a referenced group are kept sorted by path length so
//! that output order is stable.

use vstd::prelude::*;
use vstd::multiset::Multiset;

use crate::concrete_cachers::{CacheEntryView, DupFinderCache};
use crate::search_structures::ScaledTolerance;
use crate::video_stats::spec_duration_match;

verus! {

/// Whether every duplicate path of `g` has a processed entry in the
/// cache; the post-processors read stats and fingerprints through it.
pub open spec fn group_all_cached(g: MatchGroupView, cache: DupFinderCache) -> bool {
    &&& forall|j: int|
        0 <= j < g.duplicates.len() ==> cache.as_map().contains_key(#[trigger] g.duplicates[j])
            && cache.as_map()[g.duplicates[j]].value is Video
    &&& g.reference matches Some(rp) ==> cache.as_map().contains_key(rp)
        && cache.as_map()[rp].value is Video
}

/// The duration stored for a cached processed path.
pub open spec fn cached_duration(cache: DupFinderCache, p: Seq<char>) -> u64 {
    match cache.as_map()[p].value {
        CacheEntryView::Video(_, st) => st.duration_millis,
        _ => 0,
    }
}

/// The stored png-sample size for a cached processed path.
pub open spec fn cached_png_size(cache: DupFinderCache, p: Seq<char>) -> u32 {
    match cache.as_map()[p].value {
        CacheEntryView::Video(_, st) => st.png_size,
        _ => 0,
    }
}

/// The mathematical content of a match group.
pub struct MatchGroupView {
    pub reference: Option<Seq<char>>,
    pub duplicates: Seq<Seq<char>>,
}

/// Whether `paths` is ordered by ascending length.
pub open spec fn sorted_by_len(paths: Seq<Seq<char>>) -> bool {
    forall|i: int, j: int| 0 <= i < j < paths.len() ==> paths[i].len() <= paths[j].len()
}

/// One group of duplicate video files, with an optional reference.
#[derive(Debug)]
pub struct MatchGroup {
    pub reference: Option<String>,
    pub duplicates: Vec<String>,
}

impl View for MatchGroup {
    type V = MatchGroupView;

    open spec fn view(&self) -> MatchGroupView {
        MatchGroupView {
            reference: match self.reference {
                Option::Some(ref r) => Option::Some(r@),
                Option::None => Option::None,
            },
            duplicates: self.duplicates@.map_values(|p: String| p@),
        }
    }
}

impl Clone for MatchGroup {
    /// A clone carries the same reference and duplicate paths.
    fn clone(&self) -> (r: Self)
        ensures
            r@ == self@,
    {
        let reference = match &self.reference {
            Some(p) => Some(p.clone()),
            None => None,
        };
        let mut duplicates: Vec<String> = Vec::new();
        let mut i: usize = 0;
        while i < self.duplicates.len()
            invariant
                i <= self.duplicates@.len(),
                duplicates@.len() == i,
                forall|j: int| 0 <= j < i ==> duplicates@[j]@ == self.duplicates@[j]@,
            decreases self.duplicates@.len() - i,
        {
            duplicates.push(self.duplicates[i].clone());
            i = i + 1;
        }
        let r = MatchGroup { reference, duplicates };
        proof {
            assert(r@.duplicates =~= self@.duplicates);
            assert(r@ =~= self@);
        }
        r
    }
}

impl MatchGroup {
    /// A reference-less group of mutual duplicates, in the given order.
    pub fn new(entries: Vec<String>) -> (r: Self)
        ensures
            r@.reference is None,
            r@.duplicates == entries@.map_values(|p: String| p@),
    {
        MatchGroup { reference: None, duplicates: entries }
    }

    /// A referenced group; the duplicates are stably sorted by
    /// ascending path length, for deterministic output.
    pub fn with_reference(reference: String, entries: Vec<String>) -> (r: Self)
        ensures
            r@.reference == Some(reference@),
            r@.duplicates == spec_sort_by_len(
                entries@.map_values(|p: String| p@),
                entries@.len() as int,
            ),
            sorted_by_len(r@.duplicates),
            r@.duplicates.to_multiset() == entries@.map_values(|p: String| p@).to_multiset(),
    {
        let sorted = sort_paths_by_len(entries);
        MatchGroup { reference: Some(reference), duplicates: sorted }
    }

    /// The number of member files, the reference included.
    pub fn len(&self) -> (r: usize)
        requires
            self.duplicates@.len() < usize::MAX,
        ensures
            r == self@.duplicates.len() + (if self@.reference is Some {
                1int
            } else {
                0int
            }),
    {
        self.duplicates.len() + (match self.reference {
            Some(_) => 1,
            None => 0,
        })
    }

    pub fn reference(&self) -> (r: &Option<String>)
        ensures
            r == self.reference,
    {
        &self.reference
    }

    /// The duplicate paths, in the group's order.
    pub fn duplicates(&self) -> (r: &Vec<String>)
        ensures
            r@.map_values(|p: String| p@) == self@.duplicates,
    {
        &self.duplicates
    }
}

/// The first position in `s` whose path is longer than `x`, looking
/// from `i` on; the length when none is.
pub open spec fn spec_first_longer(s: Seq<Seq<char>>, x: Seq<char>, i: int) -> int
    decreases s.len() - i,
{
    if i < 0 || i >= s.len() {
        s.len() as int
    } else if s[i].len() > x.len() {
        i
    } else {
        spec_first_longer(s, x, i + 1)
    }
}

/// The stable insertion sort by path length, as a value: each path in
/// turn is inserted before the first strictly longer one, so paths of
/// equal length keep their relative order.
pub open spec fn spec_sort_by_len(input: Seq<Seq<char>>, k: int) -> Seq<Seq<char>>
    decreases k,
{
    if k <= 0 {
        Seq::empty()
    } else {
        let prev = spec_sort_by_len(input, k - 1);
        prev.insert(spec_first_longer(prev, input[k - 1], 0), input[k - 1])
    }
}

/// The greedy position scan stops exactly where the model says.
proof fn lemma_first_longer_at(s: Seq<Seq<char>>, x: Seq<char>, i: int, pos: int)
    requires
        0 <= i <= pos <= s.len(),
        forall|j: int| i <= j < pos ==> (#[trigger] s[j]).len() <= x.len(),
        pos < s.len() ==> s[pos].len() > x.len(),
    ensures
        spec_first_longer(s, x, i) == pos,
    decreases pos - i,
{
    if i < pos {
        lemma_first_longer_at(s, x, i + 1, pos);
    }
}

/// Stable insertion sort of paths by ascending character length:
/// exactly `spec_sort_by_len` of the input.
pub fn sort_paths_by_len(paths: Vec<String>) -> (r: Vec<String>)
    ensures
        r@.map_values(|p: String| p@) == spec_sort_by_len(
            paths@.map_values(|p: String| p@),
            paths@.len() as int,
        ),
        sorted_by_len(r@.map_values(|p: String| p@)),
        r@.map_values(|p: String| p@).to_multiset() == paths@.map_values(
            |p: String| p@,
        ).to_multiset(),
{
    broadcast use vstd::seq_lib::group_to_multiset_ensures;

    let mut work = paths;
    let mut out: Vec<String> = Vec::new();
    let ghost all = work@.map_values(|p: String| p@);
    proof {
        assert(out@.map_values(|p: String| p@) =~= Seq::<Seq<char>>::empty());
        assert(out@.map_values(|p: String| p@).to_multiset().add(
            work@.map_values(|p: String| p@).to_multiset(),
        ) =~= all.to_multiset());
    }
    while work.len() > 0
        invariant
            sorted_by_len(out@.map_values(|p: String| p@)),
            out@.map_values(|p: String| p@).to_multiset().add(
                work@.map_values(|p: String| p@).to_multiset(),
            ) == all.to_multiset(),
            work@.len() <= all.len(),
            work@.map_values(|p: String| p@) == all.skip((all.len() - work@.len()) as int),
            out@.map_values(|p: String| p@) == spec_sort_by_len(
                all,
                (all.len() - work@.len()) as int,
            ),
        decreases work@.len(),
    {
        let ghost work_pre = work@;
        let ghost out_pre = out@;
        let ghost done = (all.len() - work@.len()) as int;
        let next = work.remove(0);
        proof {
            assert(next@ == work_pre.map_values(|p: String| p@)[0]);
            assert(work_pre.map_values(|p: String| p@)[0] == all[done]);
            assert(work@ =~= work_pre.drop_first());
            assert(work@.map_values(|p: String| p@) =~= work_pre.map_values(
                |p: String| p@,
            ).drop_first());
            assert(work@.map_values(|p: String| p@) =~= all.skip(done + 1));
        }
        let pos = find_insert_pos(&out, &next);
        let ghost out_mid = out@;
        out.insert(pos, next);
        proof {
            let omv = out_mid.map_values(|p: String| p@);
            assert forall|j: int| 0 <= j < pos implies (#[trigger] omv[j]).len()
                <= next@.len() by {
                assert(omv[j] == out_mid[j]@);
            }
            if (pos as int) < out_mid.len() {
                assert(omv[pos as int] == out_mid[pos as int]@);
            }
            lemma_first_longer_at(omv, next@, 0, pos as int);
            assert(out@.map_values(|p: String| p@) =~= omv.insert(pos as int, next@));
            assert(out@.map_values(|p: String| p@) =~= spec_sort_by_len(all, done + 1));
        }
        proof {
            broadcast use vstd::seq_lib::group_to_multiset_ensures;

            let f = |p: String| p@;
            assert(work_pre.map_values(f) =~= seq![next@] + work@.map_values(f));
            assert(out@.map_values(f) =~= out_mid.map_values(f).insert(pos as int, next@));
            assert forall|j: int| 0 <= j < pos implies out_mid.map_values(f)[j].len()
                <= next@.len() by {
                assert(out_mid.map_values(f)[j] == out_mid[j]@);
            }
            if (pos as int) < out_mid.len() {
                assert(out_mid.map_values(f)[pos as int] == out_mid[pos as int]@);
            }
            lemma_insert_multiset(out_mid.map_values(f), pos as int, next@);
            lemma_insert_sorted(out_mid.map_values(f), pos as int, next@);
            vstd::seq_lib::lemma_multiset_commutative(seq![next@], work@.map_values(f));
            assert(seq![next@] =~= Seq::<Seq<char>>::empty().push(next@));
            vstd::seq_lib::to_multiset_len::<Seq<char>>(Seq::<Seq<char>>::empty());
            vstd::multiset::lemma_multiset_empty_len(Seq::<Seq<char>>::empty().to_multiset());
            vstd::seq_lib::to_multiset_build::<Seq<char>>(Seq::<Seq<char>>::empty(), next@);
            assert(seq![next@].to_multiset() =~= Multiset::<Seq<char>>::empty().insert(next@));
            assert((seq![next@] + work@.map_values(f)).to_multiset() =~= work@.map_values(
                f,
            ).to_multiset().insert(next@));
        }
    }
    proof {
        vstd::seq_lib::to_multiset_len::<Seq<char>>(work@.map_values(|p: String| p@));
        vstd::multiset::lemma_multiset_empty_len(work@.map_values(|p: String| p@).to_multiset());
        assert(out@.map_values(|p: String| p@).to_multiset() =~= all.to_multiset());
    }
    out
}

/// The first position whose path is longer than `next`: inserting there
/// keeps a length-sorted sequence sorted and stable.
fn find_insert_pos(out: &Vec<String>, next: &String) -> (pos: usize)
    ensures
        pos <= out@.len(),
        forall|j: int| 0 <= j < pos ==> (#[trigger] out@[j])@.len() <= next@.len(),
        pos < out@.len() ==> next@.len() < out@[pos as int]@.len(),
{
    let next_len = next.as_str().unicode_len();
    let mut pos: usize = 0;
    while pos < out.len()
        invariant
            pos <= out@.len(),
            next_len == next@.len(),
            forall|j: int| 0 <= j < pos ==> (#[trigger] out@[j])@.len() <= next@.len(),
        decreases out@.len() - pos,
    {
        let cur_len = out[pos].as_str().unicode_len();
        if cur_len > next_len {
            return pos;
        }
        pos = pos + 1;
    }
    pos
}

/// Inserting into a sequence adds one occurrence to its multiset.
proof fn lemma_insert_multiset(s: Seq<Seq<char>>, i: int, x: Seq<char>)
    requires
        0 <= i <= s.len(),
    ensures
        s.insert(i, x).to_multiset() == s.to_multiset().insert(x),
{
    broadcast use vstd::seq_lib::group_to_multiset_ensures;

    assert(s.insert(i, x) =~= s.take(i) + seq![x] + s.skip(i));
    assert(s =~= s.take(i) + s.skip(i));
    vstd::seq_lib::lemma_multiset_commutative(s.take(i), s.skip(i));
    vstd::seq_lib::lemma_multiset_commutative(s.take(i) + seq![x], s.skip(i));
    vstd::seq_lib::lemma_multiset_commutative(s.take(i), seq![x]);
    assert((s.take(i) + seq![x]).to_multiset() =~= s.take(i).to_multiset().insert(x));
    assert(s.insert(i, x).to_multiset() =~= s.to_multiset().insert(x));
}

/// Inserting at the first position whose element is longer keeps the
/// sequence sorted by length.
proof fn lemma_insert_sorted(s: Seq<Seq<char>>, i: int, x: Seq<char>)
    requires
        0 <= i <= s.len(),
        sorted_by_len(s),
        forall|j: int| 0 <= j < i ==> s[j].len() <= x.len(),
        i < s.len() ==> x.len() < s[i].len(),
    ensures
        sorted_by_len(s.insert(i, x)),
{
    let t = s.insert(i, x);
    assert forall|a: int, b: int| 0 <= a < b < t.len() implies t[a].len() <= t[b].len() by {
        if a < i && b < i {
        } else if a < i && b == i {
        } else if a < i && b > i {
            assert(t[b] == s[b - 1]);
            if b - 1 >= i {
                assert(s[a].len() <= x.len());
                if b - 1 == i {
                } else {
                    assert(s[i].len() <= s[b - 1].len());
                }
            }
        } else if a == i {
            assert(t[b] == s[b - 1]);
            assert(x.len() < s[i].len() || i == s.len());
            assert(s[i].len() <= s[b - 1].len() || b - 1 == i);
        } else {
            assert(t[a] == s[a - 1]);
            assert(t[b] == s[b - 1]);
        }
    }
}

impl MatchGroup {
    /// The duration-affirmed duplicates against a reference: those
    /// whose cached duration lies within five percent of the
    /// reference's, in order.
    pub open spec fn spec_affirm_ref_kept(
        cache: DupFinderCache,
        ref_path: Seq<char>,
        dups: Seq<Seq<char>>,
        n: int,
    ) -> Seq<Seq<char>>
        decreases n,
    {
        if n <= 0 {
            Seq::empty()
        } else {
            Self::spec_affirm_ref_kept(cache, ref_path, dups, n - 1) + if spec_duration_match(
                cached_duration(cache, ref_path),
                cached_duration(cache, dups[n - 1]),
            ) {
                seq![dups[n - 1]]
            } else {
                Seq::empty()
            }
        }
    }

    /// The first group whose anchor — its first member — duration-
    /// matches `p`, looking from position `i` on.
    pub open spec fn spec_first_group_from(
        cache: DupFinderCache,
        groups: Seq<Seq<Seq<char>>>,
        p: Seq<char>,
        i: int,
    ) -> Option<int>
        decreases groups.len() - i,
    {
        if i < 0 || i >= groups.len() {
            Option::None
        } else if groups[i].len() > 0 && spec_duration_match(
            cached_duration(cache, groups[i][0]),
            cached_duration(cache, p),
        ) {
            Option::Some(i)
        } else {
            Self::spec_first_group_from(cache, groups, p, i + 1)
        }
    }

    /// The greedy duration partition of the first `k` duplicates: each
    /// joins the first group whose anchor matches it, else anchors a
    /// new group.
    pub open spec fn spec_greedy_groups(
        cache: DupFinderCache,
        dups: Seq<Seq<char>>,
        k: int,
    ) -> Seq<Seq<Seq<char>>>
        decreases k,
    {
        if k <= 0 {
            Seq::empty()
        } else {
            let prev = Self::spec_greedy_groups(cache, dups, k - 1);
            let p = dups[k - 1];
            match Self::spec_first_group_from(cache, prev, p, 0) {
                Option::Some(g) => prev.update(g, prev[g].push(p)),
                Option::None => prev.push(seq![p]),
            }
        }
    }

    /// The groups of two or more members among the first `n`, in order.
    pub open spec fn spec_multi_groups(gs: Seq<Seq<Seq<char>>>, n: int) -> Seq<Seq<Seq<char>>>
        decreases n,
    {
        if n <= 0 {
            Seq::empty()
        } else {
            Self::spec_multi_groups(gs, n - 1) + if gs[n - 1].len() >= 2 {
                seq![gs[n - 1]]
            } else {
                Seq::empty()
            }
        }
    }

    /// Keep only members affirmed by independent duration evidence.
    ///
    /// With a reference: exactly the duplicates within five percent of
    /// the reference's duration survive, as one group (sorted by path
    /// length), or no group when none passes.  Without one: the groups
    /// are exactly the greedy duration partition with its singletons
    /// dropped.
    pub fn affirmed(&self, cache: &DupFinderCache) -> (r: Vec<MatchGroup>)
        requires
            cache.wf(),
            group_all_cached(self@, *cache),
        ensures
            self@.reference matches Some(rp) ==> {
                let kept = Self::spec_affirm_ref_kept(
                    *cache,
                    rp,
                    self@.duplicates,
                    self@.duplicates.len() as int,
                );
                &&& r@.len() == (if kept.len() == 0 {
                    0int
                } else {
                    1int
                })
                &&& (r@.len() == 1 ==> r@[0]@.reference == Some(rp) && sorted_by_len(
                    r@[0]@.duplicates,
                ) && r@[0]@.duplicates.to_multiset() == kept.to_multiset())
            },
            self@.reference is None ==> {
                let gs = Self::spec_multi_groups(
                    Self::spec_greedy_groups(
                        *cache,
                        self@.duplicates,
                        self@.duplicates.len() as int,
                    ),
                    Self::spec_greedy_groups(
                        *cache,
                        self@.duplicates,
                        self@.duplicates.len() as int,
                    ).len() as int,
                );
                &&& r@.len() == gs.len()
                &&& forall|g: int|
                    0 <= g < r@.len() ==> (#[trigger] r@[g])@.reference is None
                        && r@[g]@.duplicates == gs[g]
            },
            forall|g: int, j: int|
                0 <= g < r@.len() && 0 <= j < r@[g]@.duplicates.len()
                    ==> self@.duplicates.contains(#[trigger] r@[g]@.duplicates[j]),
    {
        match &self.reference {
            Some(reference) => {
                let ref_stats = match cache.get_stats(reference) {
                    Ok(st) => st,
                    Err(_) => {
                        proof {
                            assert(false);
                        }
                        return Vec::new();
                    },
                };
                let ghost rp = reference@;
                let mut kept: Vec<String> = Vec::new();
                let mut i: usize = 0;
                let n = self.duplicates.len();
                proof {
                    assert(cached_duration(*cache, rp) == ref_stats.duration_millis);
                }
                while i < n
                    invariant
                        cache.wf(),
                        group_all_cached(self@, *cache),
                        self@.reference == Some(rp),
                        ref_stats.wf(),
                        cached_duration(*cache, rp) == ref_stats.duration_millis,
                        n == self.duplicates@.len(),
                        i <= n,
                        kept@.map_values(|p: String| p@) == Self::spec_affirm_ref_kept(
                            *cache,
                            rp,
                            self@.duplicates,
                            i as int,
                        ),
                    decreases n - i,
                {
                    let entry_stats = match cache.get_stats(&self.duplicates[i]) {
                        Ok(st) => st,
                        Err(_) => {
                            proof {
                                assert(self@.duplicates[i as int] == self.duplicates@[i as int]@);
                                assert(false);
                            }
                            return Vec::new();
                        },
                    };
                    let ghost kept_pre = kept@.map_values(|p: String| p@);
                    proof {
                        assert(self@.duplicates[i as int] == self.duplicates@[i as int]@);
                        assert(cached_duration(*cache, self@.duplicates[i as int])
                            == entry_stats.duration_millis);
                    }
                    if ref_stats.is_match(&entry_stats) {
                        let p = self.duplicates[i].clone();
                        kept.push(p);
                        proof {
                            assert(kept@.map_values(|p: String| p@) =~= kept_pre.push(
                                self@.duplicates[i as int],
                            ));
                            assert(Self::spec_affirm_ref_kept(*cache, rp, self@.duplicates, i + 1)
                                =~= kept_pre.push(self@.duplicates[i as int]));
                        }
                    } else {
                        proof {
                            assert(Self::spec_affirm_ref_kept(*cache, rp, self@.duplicates, i + 1)
                                =~= kept_pre);
                        }
                    }
                    i = i + 1;
                }
                let ghost kept_views = kept@.map_values(|p: String| p@);
                let mut r: Vec<MatchGroup> = Vec::new();
                if kept.len() > 0 {
                    let g = MatchGroup::with_reference(reference.clone(), kept);
                    proof {
                        broadcast use vstd::seq_lib::group_to_multiset_ensures;

                        vstd::seq_lib::to_multiset_len::<Seq<char>>(g@.duplicates);
                        vstd::seq_lib::to_multiset_len::<Seq<char>>(kept_views);
                    }
                    let ghost gv = g@;
                    r.push(g);
                    proof {
                        assert forall|j: int|
                            0 <= j < gv.duplicates.len() implies self@.duplicates.contains(
                            #[trigger] gv.duplicates[j],
                        ) by {
                            assert(gv.duplicates.contains(gv.duplicates[j]));
                            assert(gv.duplicates.to_multiset().count(gv.duplicates[j]) > 0);
                            lemma_affirm_kept_subset(
                                *cache,
                                rp,
                                self@.duplicates,
                                n as int,
                                gv.duplicates[j],
                            );
                        }
                    }
                }
                r
            },
            None => {
                let ghost dups = self@.duplicates;
                let mut groups: Vec<Vec<String>> = Vec::new();
                let mut i: usize = 0;
                let n = self.duplicates.len();
                proof {
                    assert(group_views(groups@) =~= Seq::<Seq<Seq<char>>>::empty());
                }
                while i < n
                    invariant
                        cache.wf(),
                        group_all_cached(self@, *cache),
                        self@.reference is None,
                        dups == self@.duplicates,
                        n == self.duplicates@.len(),
                        i <= n,
                        group_views(groups@) == Self::spec_greedy_groups(*cache, dups, i as int),
                        forall|g: int|
                            0 <= g < groups@.len() ==> (#[trigger] groups@[g])@.len() >= 1,
                        forall|g: int, j: int|
                            0 <= g < groups@.len() && 0 <= j < groups@[g]@.len()
                                ==> dups.contains((#[trigger] groups@[g]@[j])@),
                    decreases n - i,
                {
                    let cand_stats = match cache.get_stats(&self.duplicates[i]) {
                        Ok(st) => st,
                        Err(_) => {
                            proof {
                                assert(self@.duplicates[i as int] == self.duplicates@[i as int]@);
                                assert(false);
                            }
                            return Vec::new();
                        },
                    };
                    proof {
                        assert(self@.duplicates[i as int] == self.duplicates@[i as int]@);
                        assert(cached_duration(*cache, dups[i as int])
                            == cand_stats.duration_millis);
                    }
                    let ghost gv_pre = group_views(groups@);
                    let mut placed = false;
                    let mut g: usize = 0;
                    let m = groups.len();
                    while g < m && !placed
                        invariant
                            cache.wf(),
                            group_all_cached(self@, *cache),
                            dups == self@.duplicates,
                            n == self.duplicates@.len(),
                            i < n,
                            cand_stats.wf(),
                            cached_duration(*cache, dups[i as int]) == cand_stats.duration_millis,
                            m == groups@.len(),
                            g <= m,
                            !placed ==> gv_pre == group_views(groups@),
                            forall|k: int|
                                0 <= k < groups@.len() ==> (#[trigger] groups@[k])@.len() >= 1,
                            forall|k: int, j: int|
                                0 <= k < groups@.len() && 0 <= j < groups@[k]@.len()
                                    ==> dups.contains((#[trigger] groups@[k]@[j])@),
                            !placed ==> forall|k: int|
                                0 <= k < g ==> !spec_duration_match(
                                    cached_duration(*cache, (#[trigger] gv_pre[k])[0]),
                                    cached_duration(*cache, dups[i as int]),
                                ),
                            placed ==> (Self::spec_first_group_from(
                                *cache,
                                gv_pre,
                                dups[i as int],
                                0,
                            ) matches Some(gi) && group_views(groups@) == gv_pre.update(
                                gi,
                                gv_pre[gi].push(dups[i as int]),
                            )),
                            placed ==> groups@.len() == m,
                        decreases m - g + (if placed { 0int } else { 1 }),
                    {
                        let anchor_stats = match cache.get_stats(&groups[g][0]) {
                            Ok(st) => st,
                            Err(_) => {
                                proof {
                                    assert(dups.contains(groups@[g as int]@[0]@));
                                    let jw = choose|jw: int|
                                        0 <= jw < dups.len() && dups[jw] == groups@[g as int]@[0]@;
                                    assert(false);
                                }
                                return Vec::new();
                            },
                        };
                        proof {
                            assert(gv_pre[g as int][0] == groups@[g as int]@[0]@);
                            assert(cached_duration(*cache, gv_pre[g as int][0])
                                == anchor_stats.duration_millis);
                        }
                        if anchor_stats.is_match(&cand_stats) {
                            let mut grp = crate::search_output::clone_paths(&groups[g]);
                            let p = self.duplicates[i].clone();
                            grp.push(p);
                            let ghost grp_view = grp@.map_values(|q: String| q@);
                            groups.set(g, grp);
                            placed = true;
                            proof {
                                lemma_first_group_found(*cache, gv_pre, dups[i as int], g as int);
                                assert(grp_view =~= gv_pre[g as int].push(dups[i as int]));
                                assert(group_views(groups@) =~= gv_pre.update(
                                    g as int,
                                    gv_pre[g as int].push(dups[i as int]),
                                ));
                            }
                        } else {
                            g = g + 1;
                        }
                    }
                    if !placed {
                        let mut fresh: Vec<String> = Vec::new();
                        let p = self.duplicates[i].clone();
                        fresh.push(p);
                        let ghost gv_mid = group_views(groups@);
                        groups.push(fresh);
                        proof {
                            assert(gv_mid == gv_pre);
                            lemma_first_group_none(*cache, gv_pre, dups[i as int]);
                            assert(group_views(groups@)[groups@.len() - 1] =~= seq![
                                dups[i as int],
                            ]);
                            assert(group_views(groups@) =~~= gv_pre.push(seq![dups[i as int]]));
                        }
                    }
                    proof {
                        assert(group_views(groups@) =~= Self::spec_greedy_groups(
                            *cache,
                            dups,
                            i + 1,
                        ));
                    }
                    i = i + 1;
                }
                // drop the groups of fewer than two members
                let ghost final_gs = group_views(groups@);
                let mut r: Vec<MatchGroup> = Vec::new();
                let mut g: usize = 0;
                let m = groups.len();
                while g < m
                    invariant
                        m == groups@.len(),
                        g <= m,
                        final_gs == group_views(groups@),
                        forall|k: int, j: int|
                            0 <= k < groups@.len() && 0 <= j < groups@[k]@.len()
                                ==> dups.contains((#[trigger] groups@[k]@[j])@),
                        r@.map_values(|mg: MatchGroup| mg@.duplicates) == Self::spec_multi_groups(
                            final_gs,
                            g as int,
                        ),
                        forall|k: int| 0 <= k < r@.len() ==> (#[trigger] r@[k])@.reference is None,
                        forall|k: int, j: int|
                            0 <= k < r@.len() && 0 <= j < r@[k]@.duplicates.len()
                                ==> dups.contains(#[trigger] r@[k]@.duplicates[j]),
                    decreases m - g,
                {
                    let ghost r_pre = r@.map_values(|mg: MatchGroup| mg@.duplicates);
                    if groups[g].len() >= 2 {
                        let members = crate::search_output::clone_paths(&groups[g]);
                        let ghost mv = members@.map_values(|p: String| p@);
                        let ng = MatchGroup::new(members);
                        r.push(ng);
                        proof {
                            assert(mv =~= final_gs[g as int]);
                            assert(r@.map_values(|mg: MatchGroup| mg@.duplicates) =~= r_pre.push(
                                final_gs[g as int],
                            ));
                            assert(Self::spec_multi_groups(final_gs, g + 1) =~= r_pre.push(
                                final_gs[g as int],
                            ));
                        }
                    } else {
                        proof {
                            assert(Self::spec_multi_groups(final_gs, g + 1) =~= r_pre);
                        }
                    }
                    g = g + 1;
                }
                proof {
                    assert(Self::spec_greedy_groups(*cache, dups, n as int).len()
                        == final_gs.len());
                    assert forall|k: int| 0 <= k < r@.len() implies (#[trigger] r@[k])@.duplicates
                        == Self::spec_multi_groups(final_gs, final_gs.len() as int)[k] by {
                        assert(r@.map_values(|mg: MatchGroup| mg@.duplicates)[k]
                            == r@[k]@.duplicates);
                    }
                }
                r
            },
        }
    }
}

/// The nested path views of a list of string groups.
pub open spec fn group_views(gs: Seq<Vec<String>>) -> Seq<Seq<Seq<char>>> {
    gs.map_values(|v: Vec<String>| v@.map_values(|p: String| p@))
}

/// A path the reference-mode affirmation kept came from the duplicates.
proof fn lemma_affirm_kept_subset(
    cache: DupFinderCache,
    rp: Seq<char>,
    dups: Seq<Seq<char>>,
    n: int,
    p: Seq<char>,
)
    requires
        MatchGroup::spec_affirm_ref_kept(cache, rp, dups, n).to_multiset().count(p) > 0,
        n <= dups.len(),
    ensures
        dups.contains(p),
    decreases n,
{
    broadcast use vstd::seq_lib::group_to_multiset_ensures;

    if n > 0 {
        let prev = MatchGroup::spec_affirm_ref_kept(cache, rp, dups, n - 1);
        if spec_duration_match(cached_duration(cache, rp), cached_duration(cache, dups[n - 1])) {
            assert(MatchGroup::spec_affirm_ref_kept(cache, rp, dups, n) =~= prev.push(
                dups[n - 1],
            ));
            if p == dups[n - 1] {
                assert(dups.contains(p));
            } else {
                lemma_affirm_kept_subset(cache, rp, dups, n - 1, p);
            }
        } else {
            assert(MatchGroup::spec_affirm_ref_kept(cache, rp, dups, n) =~= prev);
            lemma_affirm_kept_subset(cache, rp, dups, n - 1, p);
        }
    } else {
        vstd::seq_lib::to_multiset_len::<Seq<char>>(Seq::<Seq<char>>::empty());
        vstd::multiset::lemma_multiset_empty_len(Seq::<Seq<char>>::empty().to_multiset());
    }
}

/// When the groups before `g` do not match and group `g` does, the
/// greedy scan stops exactly at `g`.
proof fn lemma_first_group_found(
    cache: DupFinderCache,
    gs: Seq<Seq<Seq<char>>>,
    p: Seq<char>,
    g: int,
)
    requires
        0 <= g < gs.len(),
        forall|k: int| 0 <= k < gs.len() ==> (#[trigger] gs[k]).len() >= 1,
        forall|k: int|
            0 <= k < g ==> !spec_duration_match(
                cached_duration(cache, (#[trigger] gs[k])[0]),
                cached_duration(cache, p),
            ),
        spec_duration_match(cached_duration(cache, gs[g][0]), cached_duration(cache, p)),
    ensures
        MatchGroup::spec_first_group_from(cache, gs, p, 0) == Some(g),
{
    lemma_first_group_skip(cache, gs, p, 0, g);
}

proof fn lemma_first_group_skip(
    cache: DupFinderCache,
    gs: Seq<Seq<Seq<char>>>,
    p: Seq<char>,
    i: int,
    g: int,
)
    requires
        0 <= i <= g < gs.len(),
        forall|k: int| 0 <= k < gs.len() ==> (#[trigger] gs[k]).len() >= 1,
        forall|k: int|
            i <= k < g ==> !spec_duration_match(
                cached_duration(cache, (#[trigger] gs[k])[0]),
                cached_duration(cache, p),
            ),
        spec_duration_match(cached_duration(cache, gs[g][0]), cached_duration(cache, p)),
    ensures
        MatchGroup::spec_first_group_from(cache, gs, p, i) == Some(g),
    decreases g - i,
{
    if i < g {
        lemma_first_group_skip(cache, gs, p, i + 1, g);
    }
}

/// When no group's anchor matches, the greedy scan finds none.
proof fn lemma_first_group_none(cache: DupFinderCache, gs: Seq<Seq<Seq<char>>>, p: Seq<char>)
    requires
        forall|k: int| 0 <= k < gs.len() ==> (#[trigger] gs[k]).len() >= 1,
        forall|k: int|
            0 <= k < gs.len() ==> !spec_duration_match(
                cached_duration(cache, (#[trigger] gs[k])[0]),
                cached_duration(cache, p),
            ),
    ensures
        MatchGroup::spec_first_group_from(cache, gs, p, 0) is None,
{
    lemma_first_group_none_from(cache, gs, p, 0);
}

proof fn lemma_first_group_none_from(
    cache: DupFinderCache,
    gs: Seq<Seq<Seq<char>>>,
    p: Seq<char>,
    i: int,
)
    requires
        0 <= i,
        forall|k: int| 0 <= k < gs.len() ==> (#[trigger] gs[k]).len() >= 1,
        forall|k: int|
            0 <= k < gs.len() ==> !spec_duration_match(
                cached_duration(cache, (#[trigger] gs[k])[0]),
                cached_duration(cache, p),
            ),
    ensures
        MatchGroup::spec_first_group_from(cache, gs, p, i) is None,
    decreases gs.len() - i,
{
    if i < gs.len() {
        lemma_first_group_none_from(cache, gs, p, i + 1);
    }
}

impl MatchGroup {
    /// The pairs the no-reference expansion emits: for members `i < j`
    /// in order, the pair whose cached fingerprints lie within the
    /// tolerance on both distance components.
    pub open spec fn spec_pairs_from(
        cache: DupFinderCache,
        dups: Seq<Seq<char>>,
        tol: ScaledTolerance,
        i: int,
        j: int,
    ) -> Seq<(Seq<char>, Seq<char>)>
        decreases dups.len() - i, dups.len() - j,
    {
        if i < 0 || j <= i || i >= dups.len() {
            Seq::empty()
        } else if j >= dups.len() {
            Self::spec_pairs_from(cache, dups, tol, i + 1, i + 2)
        } else {
            (if crate::temporal_hash::spec_within_tolerance(
                cached_hash(cache, dups[i]),
                cached_hash(cache, dups[j]),
                tol,
            ) {
                seq![(dups[i], dups[j])]
            } else {
                Seq::empty()
            }) + Self::spec_pairs_from(cache, dups, tol, i, j + 1)
        }
    }

    /// Expand a group into two-member groups.  With a reference, one
    /// group per duplicate, pairing the reference with it.  Without
    /// one, exactly each ordered-index pair of members whose recomputed
    /// distance lies within the tolerance becomes a group.
    pub fn cartesian_product(&self, tolerance: ScaledTolerance, cache: &DupFinderCache) -> (r: Vec<
        MatchGroup,
    >)
        requires
            cache.wf(),
            group_all_cached(self@, *cache),
        ensures
            self@.reference matches Some(rp) ==> r@.len() == self@.duplicates.len() && forall|g: int|
                0 <= g < r@.len() ==> (#[trigger] r@[g])@.reference == Some(rp)
                    && r@[g]@.duplicates == seq![self@.duplicates[g]],
            self@.reference is None ==> {
                &&& pair_views(r@) == Self::spec_pairs_from(
                    *cache,
                    self@.duplicates,
                    tolerance,
                    0,
                    1,
                )
                &&& forall|g: int|
                    0 <= g < r@.len() ==> (#[trigger] r@[g])@.reference is None
                        && r@[g]@.duplicates.len() == 2 && self@.duplicates.contains(
                        r@[g]@.duplicates[0],
                    ) && self@.duplicates.contains(r@[g]@.duplicates[1])
            },
    {
        match &self.reference {
            Some(reference) => {
                let mut r: Vec<MatchGroup> = Vec::new();
                let mut i: usize = 0;
                let n = self.duplicates.len();
                while i < n
                    invariant
                        n == self.duplicates@.len(),
                        i <= n,
                        self@.reference matches Some(rp) && rp == reference@,
                        r@.len() == i,
                        forall|g: int|
                            0 <= g < i ==> (#[trigger] r@[g])@.reference == Some(reference@)
                                && r@[g]@.duplicates == seq![self@.duplicates[g]],
                    decreases n - i,
                {
                    let mut pair: Vec<String> = Vec::new();
                    let p = self.duplicates[i].clone();
                    pair.push(p);
                    let g = MatchGroup::new(pair);
                    let g = MatchGroup { reference: Some(reference.clone()), ..g };
                    r.push(g);
                    proof {
                        assert(r@.last()@.duplicates =~= seq![self@.duplicates[i as int]]);
                    }
                    i = i + 1;
                }
                r
            },
            None => {
                let ghost dups = self@.duplicates;
                let mut r: Vec<MatchGroup> = Vec::new();
                let mut i: usize = 0;
                let n = self.duplicates.len();
                proof {
                    assert(pair_views(r@) =~= Seq::<(Seq<char>, Seq<char>)>::empty());
                    if n == 0 {
                        assert(Self::spec_pairs_from(*cache, dups, tolerance, 0, 1)
                            =~= Seq::<(Seq<char>, Seq<char>)>::empty());
                    }
                }
                while i < n
                    invariant
                        cache.wf(),
                        group_all_cached(self@, *cache),
                        self@.reference is None,
                        dups == self@.duplicates,
                        n == self.duplicates@.len(),
                        i <= n,
                        Self::spec_pairs_from(*cache, dups, tolerance, 0, 1) == pair_views(r@)
                            + Self::spec_pairs_from(*cache, dups, tolerance, i as int, i + 1),
                        forall|g: int|
                            0 <= g < r@.len() ==> (#[trigger] r@[g])@.reference is None
                                && r@[g]@.duplicates.len() == 2 && dups.contains(
                                r@[g]@.duplicates[0],
                            ) && dups.contains(r@[g]@.duplicates[1]),
                    decreases n - i,
                {
                    let mut j: usize = i + 1;
                    while j < n
                        invariant
                            cache.wf(),
                            group_all_cached(self@, *cache),
                            self@.reference is None,
                            dups == self@.duplicates,
                            n == self.duplicates@.len(),
                            i < n,
                            i < j <= n,
                            Self::spec_pairs_from(*cache, dups, tolerance, 0, 1) == pair_views(r@)
                                + Self::spec_pairs_from(*cache, dups, tolerance, i as int, j as int),
                            forall|g: int|
                                0 <= g < r@.len() ==> (#[trigger] r@[g])@.reference is None
                                    && r@[g]@.duplicates.len() == 2 && dups.contains(
                                    r@[g]@.duplicates[0],
                                ) && dups.contains(r@[g]@.duplicates[1]),
                        decreases n - j,
                    {
                        let a_hash = match cache.get_hash(&self.duplicates[i]) {
                            Ok(h) => h,
                            Err(_) => {
                                proof {
                                    assert(self@.duplicates[i as int]
                                        == self.duplicates@[i as int]@);
                                    assert(false);
                                }
                                return r;
                            },
                        };
                        let b_hash = match cache.get_hash(&self.duplicates[j]) {
                            Ok(h) => h,
                            Err(_) => {
                                proof {
                                    assert(self@.duplicates[j as int]
                                        == self.duplicates@[j as int]@);
                                    assert(false);
                                }
                                return r;
                            },
                        };
                        proof {
                            assert(self@.duplicates[i as int] == self.duplicates@[i as int]@);
                            assert(self@.duplicates[j as int] == self.duplicates@[j as int]@);
                            assert(a_hash@ == cached_hash(*cache, dups[i as int]));
                            assert(b_hash@ == cached_hash(*cache, dups[j as int]));
                        }
                        let ghost pv_pre = pair_views(r@);
                        let d = a_hash.distance(&b_hash);
                        if d.within_tolerance(tolerance) {
                            let mut pair: Vec<String> = Vec::new();
                            let pa = self.duplicates[i].clone();
                            let pb = self.duplicates[j].clone();
                            pair.push(pa);
                            pair.push(pb);
                            let g = MatchGroup::new(pair);
                            r.push(g);
                            proof {
                                assert(r@.last()@.duplicates[0] == dups[i as int]);
                                assert(r@.last()@.duplicates[1] == dups[j as int]);
                                assert(pair_views(r@) =~= pv_pre.push(
                                    (dups[i as int], dups[j as int]),
                                ));
                                assert(pv_pre + Self::spec_pairs_from(
                                    *cache,
                                    dups,
                                    tolerance,
                                    i as int,
                                    j as int,
                                ) =~= pair_views(r@) + Self::spec_pairs_from(
                                    *cache,
                                    dups,
                                    tolerance,
                                    i as int,
                                    j + 1,
                                ));
                            }
                        } else {
                            proof {
                                assert(pv_pre + Self::spec_pairs_from(
                                    *cache,
                                    dups,
                                    tolerance,
                                    i as int,
                                    j as int,
                                ) =~= pv_pre + Self::spec_pairs_from(
                                    *cache,
                                    dups,
                                    tolerance,
                                    i as int,
                                    j + 1,
                                ));
                            }
                        }
                        j = j + 1;
                    }
                    proof {
                        assert(Self::spec_pairs_from(*cache, dups, tolerance, i as int, n as int)
                            =~= Self::spec_pairs_from(*cache, dups, tolerance, i + 1, i + 2));
                    }
                    i = i + 1;
                }
                proof {
                    assert(Self::spec_pairs_from(*cache, dups, tolerance, n as int, n as int + 1)
                        =~= Seq::<(Seq<char>, Seq<char>)>::empty());
                    assert(pair_views(r@) + Seq::<(Seq<char>, Seq<char>)>::empty()
                        =~= pair_views(r@));
                }
                r
            },
        }
    }
}

/// The cached fingerprint stored at a processed path; a placeholder
/// view anywhere else.
pub open spec fn cached_hash(cache: DupFinderCache, p: Seq<char>) -> crate::temporal_hash::HashView {
    match cache.as_map()[p].value {
        CacheEntryView::Video(h, _) => h,
        _ => crate::temporal_hash::HashView {
            thash: Seq::empty(),
            shash: Seq::empty(),
            num_frames: 0,
            src_path: Seq::empty(),
        },
    }
}

/// Each two-member group as its ordered pair of paths.
pub open spec fn pair_views(r: Seq<MatchGroup>) -> Seq<(Seq<char>, Seq<char>)> {
    r.map_values(|mg: MatchGroup| (mg@.duplicates[0], mg@.duplicates[1]))
}

impl MatchGroup {
    /// Without a reference: every duplicate except one with the
    /// greatest stored png-sample size — the best-looking copy stays.
    /// With a reference the sample size means little, so nothing is
    /// offered.
    pub fn dups_with_lowest_pngsize(&self, cache: &DupFinderCache) -> (r: Vec<String>)
        requires
            cache.wf(),
            group_all_cached(self@, *cache),
        ensures
            self@.reference is Some ==> r@.len() == 0,
            forall|j: int|
                0 <= j < r@.len() ==> self@.duplicates.contains((#[trigger] r@[j])@),
            self@.reference is None && self@.duplicates.len() > 0 ==> r@.len()
                < self@.duplicates.len(),
    {
        match &self.reference {
            Some(_) => Vec::new(),
            None => {
                let n = self.duplicates.len();
                if n == 0 {
                    return Vec::new();
                }
                // find the best entry by stored png-sample size
                let mut best: usize = 0;
                let mut best_size: u32 = 0;
                let mut i: usize = 0;
                while i < n
                    invariant
                        cache.wf(),
                        group_all_cached(self@, *cache),
                        n == self.duplicates@.len(),
                        i <= n,
                        best < n,
                    decreases n - i,
                {
                    let st = match cache.get_stats(&self.duplicates[i]) {
                        Ok(st) => st,
                        Err(_) => {
                            proof {
                                assert(self@.duplicates[i as int] == self.duplicates@[i as int]@);
                                assert(false);
                            }
                            return Vec::new();
                        },
                    };
                    if st.png_size > best_size {
                        best_size = st.png_size;
                        best = i;
                    }
                    i = i + 1;
                }
                // everything that is not the best entry goes
                let mut r: Vec<String> = Vec::new();
                let mut i: usize = 0;
                while i < n
                    invariant
                        n == self.duplicates@.len(),
                        i <= n,
                        best < n,
                        r@.len() <= i,
                        i > best ==> r@.len() < i,
                        forall|j: int|
                            0 <= j < r@.len() ==> self@.duplicates.contains((#[trigger] r@[j])@),
                    decreases n - i,
                {
                    if !(self.duplicates[i] == self.duplicates[best]) {
                        let p = self.duplicates[i].clone();
                        r.push(p);
                        proof {
                            assert(r@.last()@ == self@.duplicates[i as int]);
                        }
                    }
                    i = i + 1;
                }
                r
            },
        }
    }
}

} // verus!
