//! Metric-tree similarity search backend.
//!
//! Each node stores one seeded fingerprint; a child edge is keyed by the
//! summed distance between the node's fingerprint and the child subtree's
//! root — an invariant the tree's well-formedness carries.  Searches
//! prune child edges whose key lies outside the query's summed-tolerance
//! window around the node distance.  The pruning relies on the triangle
//! inequality, which the normalised distance does not obey for
//! fingerprints of different frame counts, so the contracts here state
//! soundness — everything returned is an untainted seeded fingerprint
//! within tolerance — and progress, not completeness; behavioural
//! equality with the linear backend holds only where the metric is
//! honest.  The linear backend carries the exact search model.

use vstd::prelude::*;

use crate::search_structures::ScaledTolerance;
use crate::temporal_hash::{spec_within_tolerance, HashView, TemporalHash};

verus! {

/// A node of the metric tree; the tree as a whole is the root node.  A
/// node without a value has no children either.
pub struct BkTree {
    pub value: Option<TemporalHash>,
    pub value_tainted: bool,
    pub children: Vec<(u32, BkTree)>,
}

/// Whether some single query covers the whole group: every member lies
/// within the tolerance of that query.
pub open spec fn group_within_some_query(
    group: Seq<TemporalHash>,
    queries: Seq<TemporalHash>,
    tol: ScaledTolerance,
) -> bool {
    exists|q: int|
        0 <= q < queries.len() && forall|i: int|
            0 <= i < group.len() ==> spec_within_tolerance(
                (#[trigger] queries[q])@,
                (#[trigger] group[i])@,
                tol,
            )
}

/// The two distance components folded into one scalar: the metric the
/// tree's child edges are keyed by.
pub open spec fn spec_combined_distance(a: HashView, b: HashView) -> int {
    a.spatial_distance(b) + a.temporal_distance(b)
}

impl BkTree {
    /// Every stored fingerprint is well formed; only a node that holds
    /// a value may have children or a taint mark; every child holds a
    /// value and hangs from an edge keyed by the summed distance
    /// between this node's fingerprint and the child's.
    pub open spec fn wf(self) -> bool
        decreases self,
    {
        &&& (match self.value {
            Option::Some(v) => v@.wf(),
            Option::None => self.children@.len() == 0 && !self.value_tainted,
        })
        &&& forall|j: int|
            0 <= j < self.children@.len() ==> (#[trigger] self.children@[j]).1.wf()
        &&& forall|j: int|
            0 <= j < self.children@.len() ==> (#[trigger] self.children@[j]).1.value is Some
        &&& forall|j: int|
            0 <= j < self.children@.len() ==> (match (self.value, self.children@[j].1.value) {
                (Option::Some(v), Option::Some(c)) => (#[trigger] self.children@[j]).0
                    == spec_combined_distance(v@, c@),
                _ => false,
            })
    }

    /// Whether `hv` is stored untainted somewhere in this tree.
    pub open spec fn contains_live(self, hv: HashView) -> bool
        decreases self,
    {
        ||| (match self.value {
            Option::Some(v) => !self.value_tainted && v@ == hv,
            Option::None => false,
        })
        ||| exists|j: int|
            0 <= j < self.children@.len() && (#[trigger] self.children@[j]).1.contains_live(hv)
    }

    /// The number of untainted fingerprints in the subtrees of `cs`.
    pub open spec fn children_live_count(cs: Seq<(u32, BkTree)>) -> nat
        decreases cs,
    {
        if cs.len() == 0 {
            0
        } else {
            Self::children_live_count(cs.drop_last()) + cs.last().1.live_count()
        }
    }

    /// The number of untainted fingerprints stored in this tree.
    pub open spec fn live_count(self) -> nat
        decreases self,
    {
        Self::children_live_count(self.children@) + (match self.value {
            Option::Some(_) => if self.value_tainted {
                0nat
            } else {
                1nat
            },
            Option::None => 0nat,
        })
    }

    /// No fingerprint in the tree is tainted.
    pub open spec fn all_live(self) -> bool
        decreases self,
    {
        &&& !self.value_tainted
        &&& forall|j: int|
            0 <= j < self.children@.len() ==> (#[trigger] self.children@[j]).1.all_live()
    }

    pub fn new() -> (r: Self)
        ensures
            r.wf(),
            r.all_live(),
            r.live_count() == 0,
    {
        BkTree { value: None, value_tainted: false, children: Vec::new() }
    }

    /// Insert a fingerprint: descend along matching distance edges and
    /// add a fresh untainted node.
    pub fn seed(&mut self, new_entry: TemporalHash)
        requires
            old(self).wf(),
            new_entry@.wf(),
        ensures
            final(self).wf(),
            final(self).live_count() == old(self).live_count() + 1,
            old(self).all_live() ==> final(self).all_live(),
            final(self).contains_live(new_entry@),
            final(self).value is Some,
            old(self).value is Some ==> final(self).value == old(self).value,
        decreases *old(self),
    {
        let is_empty = self.value.is_none();
        if is_empty {
            self.value = Some(new_entry);
            proof {
                assert(self.contains_live(new_entry@));
            }
            return ;
        }
        let d = {
            let existing = self.value.as_ref().unwrap();
            existing.distance(&new_entry).u32_value()
        };
        let mut idx: usize = 0;
        let n = self.children.len();
        let mut found: bool = false;
        let mut found_idx: usize = 0;
        while idx < n
            invariant
                n == self.children@.len(),
                idx <= n,
                found ==> found_idx < n,
            decreases n - idx,
        {
            if self.children[idx].0 == d && !found {
                found = true;
                found_idx = idx;
            }
            idx = idx + 1;
        }
        if found {
            let ghost cs0 = self.children@;
            let (k, mut child) = self.children.swap_remove(found_idx);
            proof {
                assert(child == cs0[found_idx as int].1);
                assert(decreases_to!(*old(self) => old(self).children));
                assert(decreases_to!(old(self).children => old(self).children@));
                assert(cs0 == old(self).children@);
                assert(decreases_to!(cs0 => cs0[found_idx as int]));
                assert(decreases_to!(cs0[found_idx as int] => cs0[found_idx as int].1));
                lemma_children_live_count_remove(cs0, found_idx as int);
                assert(self.children@ =~= cs0.update(found_idx as int, cs0.last()).drop_last());
            }
            let ghost swapped = self.children@;
            let ghost child_pre = child;
            child.seed(new_entry);
            self.children.push((k, child));
            proof {
                assert(self.children@.drop_last() =~= swapped);
                assert(self.children@.last() == (k, child));
                assert(self.children@[self.children@.len() - 1].1.contains_live(new_entry@));
                assert(self.contains_live(new_entry@));
                assert(Self::children_live_count(self.children@) == Self::children_live_count(
                    swapped,
                ) + child.live_count());
                assert(Self::children_live_count(cs0) == Self::children_live_count(swapped)
                    + child_pre.live_count());
                assert forall|j: int| 0 <= j < self.children@.len() implies (#[trigger] self.children@[j]).1.wf() by {
                    if j < self.children@.len() - 1 {
                        assert(self.children@[j] == swapped[j]);
                        if j == found_idx {
                            assert(swapped[j] == cs0.last());
                            assert(cs0[cs0.len() - 1].1.wf());
                        } else {
                            assert(swapped[j] == cs0[j]);
                            assert(cs0[j].1.wf());
                        }
                    }
                }
                if old(self).all_live() {
                    assert forall|j: int| 0 <= j < self.children@.len() implies (#[trigger] self.children@[j]).1.all_live() by {
                        if j < self.children@.len() - 1 {
                            assert(self.children@[j] == swapped[j]);
                            if j == found_idx {
                                assert(cs0[cs0.len() - 1].1.all_live());
                            } else {
                                assert(cs0[j].1.all_live());
                            }
                        }
                    }
                }
            }
        } else {
            let node = BkTree {
                value: Some(new_entry),
                value_tainted: false,
                children: Vec::new(),
            };
            let ghost cs0 = self.children@;
            self.children.push((d, node));
            proof {
                assert(self.children@.drop_last() =~= cs0);
                assert(self.children@.last() == (d, node));
                assert(node.live_count() == 1);
                assert(node.contains_live(new_entry@));
                assert(self.children@[self.children@.len() - 1].1.contains_live(new_entry@));
                assert(self.contains_live(new_entry@));
                assert forall|j: int| 0 <= j < self.children@.len() implies (#[trigger] self.children@[j]).1.wf() by {
                    if j < self.children@.len() - 1 {
                        assert(self.children@[j] == cs0[j]);
                    }
                }
                if old(self).all_live() {
                    assert forall|j: int| 0 <= j < self.children@.len() implies (#[trigger] self.children@[j]).1.all_live() by {
                        if j < self.children@.len() - 1 {
                            assert(self.children@[j] == cs0[j]);
                        }
                    }
                }
            }
        }
    }

    /// Count the untainted fingerprints.
    pub fn len(&self) -> (r: usize)
        requires
            self.wf(),
            self.live_count() <= usize::MAX,
        ensures
            r == self.live_count(),
        decreases *self,
    {
        let own: usize = match &self.value {
            Some(_) => if self.value_tainted {
                0
            } else {
                1
            },
            None => 0,
        };
        let mut acc: usize = 0;
        let mut i: usize = 0;
        let n = self.children.len();
        proof {
            assert(self.children@.take(0) =~= Seq::<(u32, BkTree)>::empty());
            lemma_remaining_count_end(self.children@);
        }
        while i < n
            invariant
                self.wf(),
                n == self.children@.len(),
                i <= n,
                acc == Self::children_live_count(self.children@.take(i as int)),
                Self::children_live_count(self.children@.take(i as int)) + Self::remaining_count(
                    self.children@,
                    i as int,
                ) + own == self.live_count(),
                own <= 1,
                self.live_count() <= usize::MAX,
            decreases n - i,
        {
            proof {
                assert(decreases_to!(*self => self.children@[i as int].1));
                assert(self.children@.take(i as int + 1).drop_last() =~= self.children@.take(
                    i as int,
                ));
                lemma_remaining_count_step(self.children@, i as int);
            }
            let c = self.children[i].1.len();
            acc = acc + c;
            i = i + 1;
        }
        proof {
            assert(self.children@.take(n as int) =~= self.children@);
            lemma_remaining_count_end(self.children@);
        }
        acc + own
    }

    /// The untainted live count of the children from position `i` on.
    pub open spec fn remaining_count(cs: Seq<(u32, BkTree)>, i: int) -> nat
        decreases cs.len() - i,
    {
        if i < 0 || i >= cs.len() {
            0
        } else {
            cs[i].1.live_count() + Self::remaining_count(cs, i + 1)
        }
    }

    /// Run one query: collect untainted fingerprints within tolerance
    /// from the visited nodes, consuming them when asked, and taint the
    /// root so that repeated bulk rounds always make progress.
    pub fn search_one(&mut self, value: &TemporalHash, tolerance: ScaledTolerance, consume: bool)
        -> (ret: Vec<TemporalHash>)
        requires
            old(self).wf(),
            value@.wf(),
        ensures
            final(self).wf(),
            final(self).live_count() <= old(self).live_count(),
            forall|i: int|
                0 <= i < ret@.len() ==> (#[trigger] ret@[i])@.wf() && spec_within_tolerance(
                    value@,
                    ret@[i]@,
                    tolerance,
                ),
            old(self).value is Some && !old(self).value_tainted ==> final(self).live_count() < old(
                self,
            ).live_count(),
    {
        let mut ret: Vec<TemporalHash> = Vec::new();
        self.search_inner(value, tolerance, consume, &mut ret);
        let ghost mid = *self;
        if self.value.is_some() {
            self.value_tainted = true;
        }
        proof {
            assert(self.children@ == mid.children@);
            if old(self).value is Some && !old(self).value_tainted && !mid.value_tainted {
                assert(self.live_count() + 1 == mid.live_count());
            }
        }
        ret
    }

    /// Search the subtree rooted here, appending matches to `ret`.
    fn search_inner(
        &mut self,
        value: &TemporalHash,
        tolerance: ScaledTolerance,
        consume: bool,
        ret: &mut Vec<TemporalHash>,
    )
        requires
            old(self).wf(),
            value@.wf(),
        ensures
            final(self).wf(),
            final(self).value == old(self).value,
            final(self).live_count() <= old(self).live_count(),
            old(self).value_tainted ==> final(self).value_tainted,
            old(self).value is Some && !old(self).value_tainted && final(self).value_tainted
                ==> final(self).live_count() < old(self).live_count(),
            final(ret)@.len() >= old(ret)@.len(),
            forall|i: int|
                old(ret)@.len() <= i < final(ret)@.len() ==> (#[trigger] final(ret)@[i])@.wf()
                    && spec_within_tolerance(value@, final(ret)@[i]@, tolerance),
            forall|i: int| 0 <= i < old(ret)@.len() ==> final(ret)@[i] == old(ret)@[i],
        decreases *old(self),
    {
        if self.value.is_none() {
            return ;
        }
        let d = {
            let existing = self.value.as_ref().unwrap();
            value.distance(existing)
        };
        // prune by the summed metric the edges are keyed with: keep the
        // children whose edge key lies within the summed tolerance of
        // the summed node distance, saturating at the ends
        let d_combined = d.spatial + d.temporal;
        let tol_combined = if tolerance.spatial <= u32::MAX - tolerance.temporal {
            tolerance.spatial + tolerance.temporal
        } else {
            u32::MAX
        };
        let key_lo = if d_combined >= tol_combined {
            d_combined - tol_combined
        } else {
            0
        };
        let key_hi = if d_combined <= u32::MAX - tol_combined {
            d_combined + tol_combined
        } else {
            u32::MAX
        };
        if d.spatial <= tolerance.spatial && d.temporal <= tolerance.temporal
            && !self.value_tainted {
            let matched = {
                let existing = self.value.as_ref().unwrap();
                existing.clone()
            };
            ret.push(matched);
            if consume {
                self.value_tainted = true;
            }
        }
        let ghost taint_mid = self.value_tainted;
        let mut work: Vec<(u32, BkTree)> = Vec::new();
        core::mem::swap(&mut self.children, &mut work);
        let ghost work0 = work@;
        proof {
            lemma_remaining_count_end(work0);
            assert(Self::children_live_count(self.children@) == 0);
        }
        while work.len() > 0
            invariant
                value@.wf(),
                self.value == old(self).value,
                self.value_tainted == taint_mid,
                old(self).value is Some,
                work0 == old(self).children@,
                forall|j: int| 0 <= j < work@.len() ==> work@[j] == work0[j],
                work@.len() <= work0.len(),
                forall|j: int| 0 <= j < work@.len() ==> (#[trigger] work@[j]).1.wf(),
                forall|j: int|
                    0 <= j < self.children@.len() ==> (#[trigger] self.children@[j]).1.wf(),
                self.children@.len() + work@.len() == work0.len(),
                forall|j: int|
                    0 <= j < self.children@.len() ==> (#[trigger] self.children@[j]).0 == work0[
                    work0.len() - 1 - j].0 && self.children@[j].1.value == work0[work0.len() - 1
                        - j].1.value,
                Self::children_live_count(self.children@) <= Self::remaining_count(
                    work0,
                    work@.len() as int,
                ),
                ret@.len() >= old(ret)@.len(),
                forall|i: int|
                    old(ret)@.len() <= i < ret@.len() ==> (#[trigger] ret@[i])@.wf()
                        && spec_within_tolerance(value@, ret@[i]@, tolerance),
                forall|i: int| 0 <= i < old(ret)@.len() ==> ret@[i] == old(ret)@[i],
            decreases work@.len(),
        {
            let ghost wlen = work@.len() as int;
            let popped = work.pop().unwrap();
            let k = popped.0;
            let mut child = popped.1;
            proof {
                assert(popped == work0[wlen - 1]);
                assert(child == work0[wlen - 1].1);
                lemma_remaining_count_step(work0, wlen - 1);
            }
            let ghost child_pre = child;
            if k >= key_lo && k <= key_hi {
                proof {
                    assert(decreases_to!(*old(self) => old(self).children));
                    assert(decreases_to!(old(self).children => old(self).children@));
                    assert(work0 == old(self).children@);
                    assert(decreases_to!(work0 => work0[wlen - 1]));
                    assert(decreases_to!(work0[wlen - 1] => work0[wlen - 1].1));
                    assert(child == work0[wlen - 1].1);
                }
                child.search_inner(value, tolerance, consume, ret);
            }
            let ghost cs_pre = self.children@;
            self.children.push((k, child));
            proof {
                assert(self.children@.drop_last() =~= cs_pre);
                assert(child.live_count() <= child_pre.live_count());
            }
        }
        proof {
            lemma_remaining_count_end(work0);
            assert(Self::children_live_count(self.children@) <= Self::children_live_count(
                old(self).children@,
            ));
            assert forall|j: int| 0 <= j < self.children@.len() implies (match (
            self.value,
            self.children@[j].1.value,
            ) {
                (Option::Some(v), Option::Some(c)) => (#[trigger] self.children@[j]).0
                    == spec_combined_distance(v@, c@),
                _ => false,
            }) by {
                let src = work0[work0.len() - 1 - j];
                assert(old(self).children@[work0.len() - 1 - j] == src);
                assert(self.children@[j].0 == src.0);
                assert(self.children@[j].1.value == src.1.value);
            }
        }
    }

    /// Run the queries serially in the given order; collect each query's
    /// non-empty result list.
    pub fn search_deterministic(
        &mut self,
        values: &Vec<TemporalHash>,
        tolerance: ScaledTolerance,
        consume: bool,
    ) -> (ret: Vec<Vec<TemporalHash>>)
        requires
            old(self).wf(),
            forall|i: int| 0 <= i < values@.len() ==> (#[trigger] values@[i])@.wf(),
        ensures
            final(self).wf(),
            final(self).live_count() <= old(self).live_count(),
            old(self).wf() && old(self).all_live() && old(self).live_count() > 0 && values@.len()
                > 0 ==> final(self).live_count() < old(self).live_count(),
            forall|g: int|
                0 <= g < ret@.len() ==> (#[trigger] ret@[g])@.len() > 0 && forall|i: int|
                    0 <= i < ret@[g]@.len() ==> (#[trigger] ret@[g]@[i])@.wf(),
            forall|g: int|
                0 <= g < ret@.len() ==> group_within_some_query(
                    (#[trigger] ret@[g])@,
                    values@,
                    tolerance,
                ),
    {
        let mut ret: Vec<Vec<TemporalHash>> = Vec::new();
        let mut i: usize = 0;
        let ghost lc0 = self.live_count();
        while i < values.len()
            invariant
                self.wf(),
                i <= values@.len(),
                forall|j: int| 0 <= j < values@.len() ==> (#[trigger] values@[j])@.wf(),
                self.live_count() <= lc0,
                lc0 == old(self).live_count(),
                i == 0 ==> *self == *old(self),
                old(self).all_live() && old(self).live_count() > 0 && i > 0 ==> self.live_count()
                    < lc0,
                forall|g: int|
                    0 <= g < ret@.len() ==> (#[trigger] ret@[g])@.len() > 0 && forall|k: int|
                        0 <= k < ret@[g]@.len() ==> (#[trigger] ret@[g]@[k])@.wf(),
                forall|g: int|
                    0 <= g < ret@.len() ==> group_within_some_query(
                        (#[trigger] ret@[g])@,
                        values@,
                        tolerance,
                    ),
            decreases values@.len() - i,
        {
            proof {
                if i == 0 && old(self).all_live() && old(self).live_count() > 0 {
                    if self.value is None {
                        assert(self.live_count() == 0);
                    }
                }
            }
            let one = self.search_one(&values[i], tolerance, consume);
            if one.len() > 0 {
                let ghost one_seq = one@;
                ret.push(one);
                proof {
                    assert(ret@.last()@ == one_seq);
                    assert forall|k: int|
                        0 <= k < one_seq.len() implies spec_within_tolerance(
                        (values@[i as int])@,
                        (#[trigger] one_seq[k])@,
                        tolerance,
                    ) by {}
                    assert(group_within_some_query(one_seq, values@, tolerance));
                }
            }
            i = i + 1;
        }
        ret
    }

    /// Identical to `search_deterministic`: every search here runs its
    /// queries serially.
    pub fn search(
        &mut self,
        values: &Vec<TemporalHash>,
        tolerance: ScaledTolerance,
        consume: bool,
    ) -> (ret: Vec<Vec<TemporalHash>>)
        requires
            old(self).wf(),
            forall|i: int| 0 <= i < values@.len() ==> (#[trigger] values@[i])@.wf(),
        ensures
            final(self).wf(),
            final(self).live_count() <= old(self).live_count(),
            old(self).wf() && old(self).all_live() && old(self).live_count() > 0 && values@.len()
                > 0 ==> final(self).live_count() < old(self).live_count(),
            forall|g: int|
                0 <= g < ret@.len() ==> (#[trigger] ret@[g])@.len() > 0 && forall|i: int|
                    0 <= i < ret@[g]@.len() ==> (#[trigger] ret@[g]@[i])@.wf(),
            forall|g: int|
                0 <= g < ret@.len() ==> group_within_some_query(
                    (#[trigger] ret@[g])@,
                    values@,
                    tolerance,
                ),
    {
        self.search_deterministic(values, tolerance, consume)
    }

    /// Collect up to `count` untainted fingerprints.
    pub fn fetch_unmatched_items(&self, count: usize) -> (ret: Vec<TemporalHash>)
        requires
            self.wf(),
        ensures
            ret@.len() <= count,
            forall|i: int| 0 <= i < ret@.len() ==> (#[trigger] ret@[i])@.wf(),
            self.live_count() > 0 && count > 0 ==> ret@.len() > 0,
    {
        let mut ret: Vec<TemporalHash> = Vec::new();
        self.fetch_unmatched_items_inner(count, &mut ret);
        ret
    }

    fn fetch_unmatched_items_inner(&self, count: usize, ret: &mut Vec<TemporalHash>)
        requires
            self.wf(),
            old(ret)@.len() <= count,
            forall|i: int| 0 <= i < old(ret)@.len() ==> (#[trigger] old(ret)@[i])@.wf(),
        ensures
            final(ret)@.len() <= count,
            final(ret)@.len() >= old(ret)@.len(),
            forall|i: int| 0 <= i < final(ret)@.len() ==> (#[trigger] final(ret)@[i])@.wf(),
            self.live_count() > 0 && old(ret)@.len() < count ==> final(ret)@.len() > old(
                ret,
            )@.len(),
        decreases *self,
    {
        let n = self.children.len();
        let mut i: usize = 0;
        let ghost rlen0 = ret@.len();
        while i < n
            invariant
                self.wf(),
                n == self.children@.len(),
                i <= n,
                ret@.len() <= count,
                ret@.len() >= rlen0,
                rlen0 == old(ret)@.len(),
                forall|j: int| 0 <= j < ret@.len() ==> (#[trigger] ret@[j])@.wf(),
                Self::remaining_count(self.children@, 0) > Self::remaining_count(
                    self.children@,
                    i as int,
                ) && rlen0 < count ==> ret@.len() > rlen0,
            decreases n - i,
        {
            proof {
                assert(decreases_to!(*self => self.children@[i as int].1));
                lemma_remaining_count_step(self.children@, i as int);
            }
            if ret.len() < count {
                let sub = &self.children[i].1;
                sub.fetch_unmatched_items_inner(count, ret);
            } else {
                return ;
            }
            i = i + 1;
        }
        proof {
            lemma_remaining_count_end(self.children@);
        }
        if ret.len() < count {
            match &self.value {
                Some(v) => {
                    if !self.value_tainted {
                        ret.push(v.clone());
                    }
                },
                None => {},
            }
        }
        proof {
            if self.live_count() > 0 && rlen0 < count {
                if Self::children_live_count(self.children@) > 0 {
                    assert(Self::remaining_count(self.children@, 0) > 0);
                    if ret@.len() == rlen0 {
                        assert(false);
                    }
                }
            }
        }
    }

    /// Remove and return every untainted fingerprint, consuming the tree.
    pub fn into_unmatched_items(self) -> (ret: Vec<TemporalHash>)
        requires
            self.wf(),
        ensures
            ret@.len() == self.live_count(),
            forall|i: int| 0 <= i < ret@.len() ==> (#[trigger] ret@[i])@.wf(),
        decreases self,
    {
        let ghost self0 = self;
        let BkTree { value, value_tainted, children } = self;
        let ghost own: nat = (self0.live_count() - BkTree::children_live_count(children@)) as nat;
        let mut ret: Vec<TemporalHash> = Vec::new();
        match value {
            Some(v) => {
                if !value_tainted {
                    ret.push(v);
                }
            },
            None => {},
        }
        proof {
            assert(ret@.len() == own);
        }
        let mut work = children;
        let ghost work0 = work@;
        proof {
            lemma_remaining_count_end(work0);
        }
        #[verifier::loop_isolation(false)]
        while work.len() > 0
            invariant
                work0 == self0.children@,
                forall|j: int| 0 <= j < work@.len() ==> work@[j] == work0[j],
                work@.len() <= work0.len(),
                forall|j: int| 0 <= j < work@.len() ==> (#[trigger] work@[j]).1.wf(),
                forall|i: int| 0 <= i < ret@.len() ==> (#[trigger] ret@[i])@.wf(),
                ret@.len() == own + Self::remaining_count(work0, work@.len() as int),
            decreases work@.len(),
        {
            let ghost wlen = work@.len() as int;
            let popped = work.pop().unwrap();
            proof {
                assert(popped == work0[wlen - 1]);
                assert(decreases_to!(self0 => self0.children));
                assert(decreases_to!(self0.children => self0.children@));
                assert(work0 == self0.children@);
                assert(decreases_to!(work0 => work0[wlen - 1]));
                assert(decreases_to!(work0[wlen - 1] => work0[wlen - 1].1));
                assert(popped.1 == work0[wlen - 1].1);
                assert(decreases_to!(self0 => popped.1));
                lemma_remaining_count_step(work0, wlen - 1);
            }
            let mut items = popped.1.into_unmatched_items();
            while items.len() > 0
                invariant
                    forall|i: int| 0 <= i < ret@.len() ==> (#[trigger] ret@[i])@.wf(),
                    forall|i: int| 0 <= i < items@.len() ==> (#[trigger] items@[i])@.wf(),
                    ret@.len() + items@.len() == own + Self::remaining_count(work0, wlen - 1),
                decreases items@.len(),
            {
                let item = items.pop().unwrap();
                ret.push(item);
            }
        }
        proof {
            lemma_remaining_count_end(work0);
        }
        ret
    }

    /// Rebuild the tree from its untainted fingerprints.
    pub fn into_without_unmatched(self) -> (r: Self)
        requires
            self.wf(),
        ensures
            r.wf(),
            r.all_live(),
            r.live_count() == self.live_count(),
    {
        let ghost lc = self.live_count();
        let items = self.into_unmatched_items();
        let mut r = BkTree::new();
        let mut i: usize = 0;
        while i < items.len()
            invariant
                i <= items@.len(),
                items@.len() == lc,
                forall|j: int| 0 <= j < items@.len() ==> (#[trigger] items@[j])@.wf(),
                r.wf(),
                r.all_live(),
                r.live_count() == i,
            decreases items@.len() - i,
        {
            let item = items[i].clone();
            r.seed(item);
            i = i + 1;
        }
        r
    }
}

/// Removing child `i` lowers the summed live count by exactly that
/// child's contribution.
proof fn lemma_children_live_count_remove(cs: Seq<(u32, BkTree)>, i: int)
    requires
        0 <= i < cs.len(),
    ensures
        BkTree::children_live_count(cs) == BkTree::children_live_count(
            cs.update(i, cs.last()).drop_last(),
        ) + cs[i].1.live_count(),
    decreases cs.len(),
{
    if i == cs.len() - 1 {
        assert(cs.update(i, cs.last()).drop_last() =~= cs.drop_last());
    } else {
        let swapped = cs.update(i, cs.last()).drop_last();
        lemma_children_live_count_update(cs.drop_last(), i, cs.last());
        assert(swapped =~= cs.drop_last().update(i, cs.last()));
    }
}

/// Updating child `i` swaps its contribution for the new child's.
proof fn lemma_children_live_count_update(cs: Seq<(u32, BkTree)>, i: int, p: (u32, BkTree))
    requires
        0 <= i < cs.len(),
    ensures
        BkTree::children_live_count(cs.update(i, p)) == BkTree::children_live_count(cs) - cs[i
        ].1.live_count() + p.1.live_count(),
    decreases cs.len(),
{
    if i == cs.len() - 1 {
        assert(cs.update(i, p).drop_last() =~= cs.drop_last());
        assert(cs.update(i, p).last() == p);
    } else {
        lemma_children_live_count_update(cs.drop_last(), i, p);
        assert(cs.update(i, p).drop_last() =~= cs.drop_last().update(i, p));
        assert(cs.update(i, p).last() == cs.last());
    }
}

/// The tail sum from `i` equals child `i` plus the tail sum from `i + 1`;
/// stepping the whole prefix/suffix split keeps the total.
proof fn lemma_remaining_count_step(cs: Seq<(u32, BkTree)>, i: int)
    requires
        0 <= i < cs.len(),
    ensures
        BkTree::remaining_count(cs, i) == cs[i].1.live_count() + BkTree::remaining_count(
            cs,
            i + 1,
        ),
        BkTree::children_live_count(cs.take(i + 1)) == BkTree::children_live_count(cs.take(i))
            + cs[i].1.live_count(),
{
    assert(cs.take(i + 1).drop_last() =~= cs.take(i));
    assert(cs.take(i + 1).last() == cs[i]);
}

/// The tail sum over the whole sequence equals the recursive sum, and
/// past the end it is zero.
proof fn lemma_remaining_count_end(cs: Seq<(u32, BkTree)>)
    ensures
        BkTree::remaining_count(cs, 0) == BkTree::children_live_count(cs),
        BkTree::remaining_count(cs, cs.len() as int) == 0,
    decreases cs.len(),
{
    if cs.len() > 0 {
        lemma_remaining_count_end(cs.drop_last());
        lemma_remaining_prefix(cs);
    }
}

/// Dropping the last child removes exactly its contribution from every
/// tail sum that still covers it.
proof fn lemma_remaining_prefix(cs: Seq<(u32, BkTree)>)
    requires
        cs.len() > 0,
    ensures
        forall|i: int|
            0 <= i < cs.len() ==> BkTree::remaining_count(cs, i) == BkTree::remaining_count(
                cs.drop_last(),
                i,
            ) + cs.last().1.live_count(),
    decreases cs.len(),
{
    assert forall|i: int| 0 <= i < cs.len() implies BkTree::remaining_count(cs, i)
        == BkTree::remaining_count(cs.drop_last(), i) + cs.last().1.live_count() by {
        lemma_remaining_single(cs, i);
    }
}

proof fn lemma_remaining_single(cs: Seq<(u32, BkTree)>, i: int)
    requires
        cs.len() > 0,
        0 <= i < cs.len(),
    ensures
        BkTree::remaining_count(cs, i) == BkTree::remaining_count(cs.drop_last(), i)
            + cs.last().1.live_count(),
    decreases cs.len() - i,
{
    if i == cs.len() - 1 {
        assert(BkTree::remaining_count(cs.drop_last(), i) == 0);
        assert(BkTree::remaining_count(cs, i + 1) == 0);
        assert(BkTree::remaining_count(cs, i) == cs[i].1.live_count() + BkTree::remaining_count(
            cs,
            i + 1,
        ));
        assert(cs.last() == cs[i]);
    } else {
        lemma_remaining_single(cs, i + 1);
        assert(cs.drop_last()[i] == cs[i]);
        assert(BkTree::remaining_count(cs, i) == cs[i].1.live_count() + BkTree::remaining_count(
            cs,
            i + 1,
        ));
        assert(BkTree::remaining_count(cs.drop_last(), i) == cs.drop_last()[i].1.live_count()
            + BkTree::remaining_count(cs.drop_last(), i + 1));
    }
}

} // verus!
