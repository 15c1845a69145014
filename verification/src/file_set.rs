//! Projection of the file set a run operates on.
//!
//! Given include roots, exclude roots and an extension blacklist, the
//! projection of any path list is its included, non-excluded,
//! non-blacklisted members, sorted and deduplicated.  The same
//! projection applies whether the paths come from a filesystem walk or
//! from the cache's keys, and projecting a projection changes nothing.

use vstd::prelude::*;

verus! {

/// Whether `anc` is `p` itself or a path prefix of `p` ending at a
/// component boundary.
pub open spec fn spec_is_ancestor(anc: Seq<char>, p: Seq<char>) -> bool {
    ||| p == anc
    ||| (p.len() > anc.len() && p.take(anc.len() as int) == anc && p[anc.len() as int] == '/')
}

/// Strict lexicographic order on paths, by code point.
pub open spec fn lex_lt(a: Seq<char>, b: Seq<char>) -> bool
    decreases a.len(),
{
    if b.len() == 0 {
        false
    } else if a.len() == 0 {
        true
    } else if (a[0] as u32) < (b[0] as u32) {
        true
    } else if (a[0] as u32) > (b[0] as u32) {
        false
    } else {
        lex_lt(a.drop_first(), b.drop_first())
    }
}

pub proof fn lemma_lex_lt_irreflexive(a: Seq<char>)
    ensures
        !lex_lt(a, a),
    decreases a.len(),
{
    if a.len() > 0 {
        lemma_lex_lt_irreflexive(a.drop_first());
    }
}

pub proof fn lemma_lex_lt_transitive(a: Seq<char>, b: Seq<char>, c: Seq<char>)
    requires
        lex_lt(a, b),
        lex_lt(b, c),
    ensures
        lex_lt(a, c),
    decreases a.len(),
{
    if a.len() > 0 && b.len() > 0 && c.len() > 0 {
        if (a[0] as u32) == (b[0] as u32) && (b[0] as u32) == (c[0] as u32) {
            lemma_lex_lt_transitive(a.drop_first(), b.drop_first(), c.drop_first());
        }
    }
}

/// Two distinct paths compare one way or the other.
pub proof fn lemma_lex_lt_total(a: Seq<char>, b: Seq<char>)
    requires
        a != b,
    ensures
        lex_lt(a, b) || lex_lt(b, a),
    decreases a.len(),
{
    if a.len() == 0 {
        if b.len() == 0 {
            assert(a =~= b);
        }
        assert(b.len() > 0);
    } else if b.len() == 0 {
    } else {
        if a[0] == b[0] {
            assert(a.drop_first() != b.drop_first()) by {
                if a.drop_first() == b.drop_first() {
                    assert(a =~= seq![a[0]] + a.drop_first());
                    assert(b =~= seq![b[0]] + b.drop_first());
                }
            }
            lemma_lex_lt_total(a.drop_first(), b.drop_first());
        } else {
            assert(a[0] as u32 != b[0] as u32) by {
                vstd::utf8::char_u32_cast(a[0], a[0] as u32);
                vstd::utf8::char_u32_cast(b[0], b[0] as u32);
            }
        }
    }
}

/// Whether `paths` is strictly increasing: sorted with no duplicates.
pub open spec fn strictly_sorted(paths: Seq<Seq<char>>) -> bool {
    forall|i: int, j: int| 0 <= i < j < paths.len() ==> lex_lt(#[trigger] paths[i], #[trigger] paths[j])
}

/// The start of `p`'s extension: the position after the last dot of the
/// last component, or the length when there is none.
pub open spec fn ext_start(p: Seq<char>) -> int
    decreases p.len(),
{
    if p.len() == 0 {
        0
    } else if p.last() == '.' || p.last() == '/' {
        p.len() as int
    } else {
        ext_start(p.drop_last())
    }
}

/// The lowercased variant of an ASCII letter; other characters stand.
pub open spec fn spec_ascii_lower(c: char) -> char {
    if 'A' <= c && c <= 'Z' {
        ((c as u32) + 32) as char
    } else {
        c
    }
}

/// `p`'s extension, ASCII-lowercased: what follows the last dot of its
/// last component.
pub open spec fn spec_ext_lower(p: Seq<char>) -> Seq<char> {
    if ext_start(p) < p.len() && ext_start(p) > 0 && p[ext_start(p) - 1] == '.' {
        p.skip(ext_start(p)).map_values(|c: char| spec_ascii_lower(c))
    } else {
        Seq::empty()
    }
}

/// Whether some path in `list` is an ancestor of `p`.
pub open spec fn spec_any_ancestor(list: Seq<Seq<char>>, p: Seq<char>) -> bool {
    exists|i: int| 0 <= i < list.len() && spec_is_ancestor(#[trigger] list[i], p)
}

/// Whether the projection keeps `p`: under an include root, under no
/// exclude root, and its extension is not blacklisted.
pub open spec fn spec_keeps(
    sources: Seq<Seq<char>>,
    excls: Seq<Seq<char>>,
    exts: Seq<Seq<char>>,
    p: Seq<char>,
) -> bool {
    &&& spec_any_ancestor(sources, p)
    &&& !spec_any_ancestor(excls, p)
    &&& !exts.contains(spec_ext_lower(p))
}

/// What it means for `out` to be the projection of `input`: strictly
/// sorted, and holding exactly the kept members of `input`.
pub open spec fn spec_projection_of(
    sources: Seq<Seq<char>>,
    excls: Seq<Seq<char>>,
    exts: Seq<Seq<char>>,
    input: Seq<Seq<char>>,
    out: Seq<Seq<char>>,
) -> bool {
    &&& strictly_sorted(out)
    &&& forall|p: Seq<char>|
        out.contains(p) <==> input.contains(p) && spec_keeps(sources, excls, exts, p)
}

/// The path views of a string vector.
pub open spec fn views_of(v: Seq<String>) -> Seq<Seq<char>> {
    v.map_values(|p: String| p@)
}

/// In a strictly sorted sequence, the tail holds exactly the members
/// other than the head.
proof fn lemma_strict_sorted_tail(a: Seq<Seq<char>>, p: Seq<char>)
    requires
        strictly_sorted(a),
        a.len() > 0,
    ensures
        a.drop_first().contains(p) <==> (a.contains(p) && p != a[0]),
        strictly_sorted(a.drop_first()),
{
    assert forall|i: int, j: int| 0 <= i < j < a.drop_first().len() implies lex_lt(
        #[trigger] a.drop_first()[i],
        #[trigger] a.drop_first()[j],
    ) by {
        assert(a.drop_first()[i] == a[i + 1]);
        assert(a.drop_first()[j] == a[j + 1]);
    }
    if a.drop_first().contains(p) {
        let i = choose|i: int| 0 <= i < a.drop_first().len() && a.drop_first()[i] == p;
        assert(a[i + 1] == p);
        assert(lex_lt(a[0], a[i + 1]));
        lemma_lex_lt_irreflexive(p);
    }
    if a.contains(p) && p != a[0] {
        let i = choose|i: int| 0 <= i < a.len() && a[i] == p;
        assert(i >= 1);
        assert(a.drop_first()[i - 1] == p);
    }
}

/// Two strictly sorted path sequences with the same members are equal.
pub proof fn lemma_strict_sorted_same_set(a: Seq<Seq<char>>, b: Seq<Seq<char>>)
    requires
        strictly_sorted(a),
        strictly_sorted(b),
        forall|p: Seq<char>| a.contains(p) <==> b.contains(p),
    ensures
        a == b,
    decreases a.len(),
{
    if a.len() == 0 {
        if b.len() > 0 {
            assert(b.contains(b[0]));
        }
        assert(a =~= b);
    } else {
        assert(a.contains(a[0]));
        assert(b.len() > 0) by {
            assert(b.contains(a[0]));
        }
        if a[0] != b[0] {
            assert(b.contains(a[0]));
            let j = choose|j: int| 0 <= j < b.len() && b[j] == a[0];
            assert(j >= 1);
            assert(lex_lt(b[0], a[0]));
            assert(a.contains(b[0]));
            let k = choose|k: int| 0 <= k < a.len() && a[k] == b[0];
            assert(k >= 1);
            assert(lex_lt(a[0], b[0]));
            lemma_lex_lt_transitive(a[0], b[0], a[0]);
            lemma_lex_lt_irreflexive(a[0]);
        }
        assert forall|p: Seq<char>| a.drop_first().contains(p) <==> b.drop_first().contains(
            p,
        ) by {
            lemma_strict_sorted_tail(a, p);
            lemma_strict_sorted_tail(b, p);
        }
        lemma_strict_sorted_tail(a, a[0]);
        lemma_strict_sorted_tail(b, b[0]);
        lemma_strict_sorted_same_set(a.drop_first(), b.drop_first());
        assert(a =~= seq![a[0]] + a.drop_first());
        assert(b =~= seq![b[0]] + b.drop_first());
    }
}

/// Projection is idempotent, and projecting any list with the same
/// members — the cache's keys after a full reconciliation, say — yields
/// the same output.
pub proof fn theorem_projection_stable(
    sources: Seq<Seq<char>>,
    excls: Seq<Seq<char>>,
    exts: Seq<Seq<char>>,
    input1: Seq<Seq<char>>,
    out1: Seq<Seq<char>>,
    input2: Seq<Seq<char>>,
    out2: Seq<Seq<char>>,
)
    requires
        spec_projection_of(sources, excls, exts, input1, out1),
        spec_projection_of(sources, excls, exts, input2, out2),
        forall|p: Seq<char>| input2.contains(p) <==> out1.contains(p),
    ensures
        out2 == out1,
{
    assert forall|p: Seq<char>| out2.contains(p) <==> out1.contains(p) by {
        if out1.contains(p) {
            assert(input1.contains(p) && spec_keeps(sources, excls, exts, p));
        }
    }
    lemma_strict_sorted_same_set(out2, out1);
}

/// `lex_lt` or equality: the reflexive order.
pub open spec fn lex_le(a: Seq<char>, b: Seq<char>) -> bool {
    lex_lt(a, b) || a == b
}

/// Whether `paths` is sorted, duplicates allowed.
pub open spec fn sorted_le(paths: Seq<Seq<char>>) -> bool {
    forall|i: int, j: int| 0 <= i < j < paths.len() ==> lex_le(#[trigger] paths[i], #[trigger] paths[j])
}

/// Equal prefixes do not change the comparison of the remainders.
proof fn lemma_lex_lt_skip(a: Seq<char>, b: Seq<char>, i: int)
    requires
        0 <= i <= a.len(),
        i <= b.len(),
        forall|j: int| 0 <= j < i ==> a[j] == b[j],
    ensures
        lex_lt(a, b) == lex_lt(a.skip(i), b.skip(i)),
    decreases i,
{
    if i > 0 {
        assert(a.len() > 0 && b.len() > 0);
        assert(a[0] == b[0]);
        lemma_lex_lt_skip(a.drop_first(), b.drop_first(), i - 1);
        assert(a.drop_first().skip(i - 1) =~= a.skip(i));
        assert(b.drop_first().skip(i - 1) =~= b.skip(i));
    } else {
        assert(a.skip(0) =~= a);
        assert(b.skip(0) =~= b);
    }
}

/// Compare two paths lexicographically by code point.
pub fn lex_less(a: &String, b: &String) -> (r: bool)
    ensures
        r == lex_lt(a@, b@),
{
    let an = a.as_str().unicode_len();
    let bn = b.as_str().unicode_len();
    let mut i: usize = 0;
    while i < an && i < bn
        invariant
            an == a@.len(),
            bn == b@.len(),
            i <= an,
            i <= bn,
            forall|j: int| 0 <= j < i ==> a@[j] == b@[j],
        decreases an - i,
    {
        let ca = a.as_str().get_char(i);
        let cb = b.as_str().get_char(i);
        if (ca as u32) < (cb as u32) {
            proof {
                lemma_lex_lt_skip(a@, b@, i as int);
            }
            return true;
        }
        if (ca as u32) > (cb as u32) {
            proof {
                lemma_lex_lt_skip(a@, b@, i as int);
            }
            return false;
        }
        proof {
            vstd::utf8::char_u32_cast(ca, ca as u32);
            vstd::utf8::char_u32_cast(cb, cb as u32);
        }
        i = i + 1;
    }
    proof {
        lemma_lex_lt_skip(a@, b@, i as int);
        if i >= an && i < bn {
            assert(a@.skip(i as int).len() == 0);
            assert(b@.skip(i as int).len() > 0);
        } else if i >= an && i >= bn {
            assert(a@.skip(i as int).len() == 0 && b@.skip(i as int).len() == 0);
        } else {
            assert(b@.skip(i as int).len() == 0);
        }
    }
    an < bn
}

/// Whether `reference` is `cand` or one of its path ancestors.
pub fn is_ancestor_of(reference: &String, cand: &String) -> (r: bool)
    ensures
        r == spec_is_ancestor(reference@, cand@),
{
    let rn = reference.as_str().unicode_len();
    let cn = cand.as_str().unicode_len();
    if rn > cn {
        return false;
    }
    let mut i: usize = 0;
    while i < rn
        invariant
            rn == reference@.len(),
            cn == cand@.len(),
            rn <= cn,
            i <= rn,
            forall|j: int| 0 <= j < i ==> reference@[j] == cand@[j],
        decreases rn - i,
    {
        if reference.as_str().get_char(i) != cand.as_str().get_char(i) {
            proof {
                assert(cand@ != reference@) by {
                    if cand@ == reference@ {
                        assert(cand@[i as int] == reference@[i as int]);
                    }
                }
                if cand@.len() > reference@.len() && cand@.take(rn as int) == reference@ {
                    assert(cand@.take(rn as int)[i as int] == cand@[i as int]);
                }
            }
            return false;
        }
        i = i + 1;
    }
    if rn == cn {
        proof {
            assert(cand@ =~= reference@);
        }
        true
    } else {
        let r = cand.as_str().get_char(rn) == '/';
        proof {
            assert(cand@.take(rn as int) =~= reference@);
            assert(cand@ != reference@) by {
                if cand@ == reference@ {
                }
            }
        }
        r
    }
}

/// Whether any path of `list` is an ancestor of `cand`.
fn any_item_includes(list: &Vec<String>, cand: &String) -> (r: bool)
    ensures
        r == spec_any_ancestor(list@.map_values(|p: String| p@), cand@),
{
    let ghost views = list@.map_values(|p: String| p@);
    let mut i: usize = 0;
    let n = list.len();
    while i < n
        invariant
            n == list@.len(),
            i <= n,
            views == list@.map_values(|p: String| p@),
            forall|j: int| 0 <= j < i ==> !spec_is_ancestor(#[trigger] views[j], cand@),
        decreases n - i,
    {
        if is_ancestor_of(&list[i], cand) {
            proof {
                assert(views[i as int] == list@[i as int]@);
            }
            return true;
        }
        proof {
            assert(views[i as int] == list@[i as int]@);
        }
        i = i + 1;
    }
    false
}

/// The ASCII-lowercased extension of `p`.
pub fn ext_lower(p: &String) -> (r: String)
    ensures
        r@ == spec_ext_lower(p@),
{
    let n = p.as_str().unicode_len();
    let mut j: usize = n;
    let mut found = false;
    proof {
        assert(p@.take(n as int) =~= p@);
    }
    while j > 0 && !found
        invariant
            n == p@.len(),
            j <= n,
            found ==> ext_start(p@) == j,
            !found ==> ext_start(p@) == ext_start(p@.take(j as int)),
            !found ==> forall|k: int| j <= k < n ==> p@[k] != '.' && p@[k] != '/',
        decreases j + (if found { 0int } else { 1 }),
    {
        let c = p.as_str().get_char(j - 1);
        if c == '.' || c == '/' {
            proof {
                assert(p@.take(j as int).last() == p@[j - 1]);
                assert(ext_start(p@.take(j as int)) == j);
            }
            found = true;
        } else {
            proof {
                assert(p@.take(j as int).last() == p@[j - 1]);
                assert(p@.take(j as int).drop_last() =~= p@.take(j - 1));
            }
            j = j - 1;
        }
    }
    proof {
        if !found {
            assert(p@.take(0) =~= Seq::<char>::empty());
            assert(ext_start(p@) == 0);
        }
        assert(ext_start(p@) == j);
    }
    let mut out = String::new();
    if j == 0 || j >= n {
        proof {
            assert(out@ =~= spec_ext_lower(p@));
        }
        return out;
    }
    let dot = p.as_str().get_char(j - 1);
    if dot != '.' {
        proof {
            assert(out@ =~= spec_ext_lower(p@));
        }
        return out;
    }
    let mut k: usize = j;
    while k < n
        invariant
            n == p@.len(),
            j <= k <= n,
            out@ == p@.subrange(j as int, k as int).map_values(|c: char| spec_ascii_lower(c)),
        decreases n - k,
    {
        let c = p.as_str().get_char(k);
        let lc = if (c as u32) >= 65 && (c as u32) <= 90 {
            match crate::base_fs_cache::char_from_u32((c as u32) + 32) {
                Some(c2) => c2,
                None => {
                    proof {
                        assert(false);
                    }
                    c
                },
            }
        } else {
            proof {
                vstd::utf8::char_u32_cast(c, c as u32);
            }
            c
        };
        proof {
            assert('A' as u32 == 65 && 'Z' as u32 == 90);
            if (c as u32) >= 65 && (c as u32) <= 90 {
                assert('A' <= c && c <= 'Z') by {
                    vstd::utf8::char_u32_cast(c, c as u32);
                }
                vstd::utf8::char_u32_cast(lc, lc as u32);
            } else {
                assert(!('A' <= c && c <= 'Z'));
            }
            assert(lc == spec_ascii_lower(c));
        }
        crate::base_fs_cache::string_push_char(&mut out, lc);
        proof {
            assert(out@ =~= p@.subrange(j as int, k + 1).map_values(
                |c: char| spec_ascii_lower(c),
            ));
        }
        k = k + 1;
    }
    proof {
        assert(p@.subrange(j as int, n as int) =~= p@.skip(j as int));
    }
    out
}

/// The file set a run operates on: include roots, exclude roots and an
/// extension blacklist, with the projected paths once enumerated.
pub struct FileSet {
    pub source_paths: Vec<String>,
    pub excl_paths: Vec<String>,
    pub excl_exts: Vec<String>,
    pub enumerated: bool,
    pub enumerated_paths: Vec<String>,
}

impl FileSet {
    pub open spec fn source_views(&self) -> Seq<Seq<char>> {
        views_of(self.source_paths@)
    }

    pub open spec fn excl_views(&self) -> Seq<Seq<char>> {
        views_of(self.excl_paths@)
    }

    pub open spec fn ext_views(&self) -> Seq<Seq<char>> {
        views_of(self.excl_exts@)
    }

    pub fn new(source_paths: Vec<String>, excl_paths: Vec<String>, excl_exts: Vec<String>) -> (r:
        Self)
        ensures
            r.source_paths == source_paths,
            r.excl_paths == excl_paths,
            r.excl_exts == excl_exts,
            !r.enumerated,
    {
        FileSet {
            source_paths,
            excl_paths,
            excl_exts,
            enumerated: false,
            enumerated_paths: Vec::new(),
        }
    }

    /// Whether `cand` lies under an include root and no exclude root.
    pub fn includes(&self, cand: &String) -> (r: bool)
        ensures
            r == (spec_any_ancestor(self.source_views(), cand@) && !spec_any_ancestor(
                self.excl_views(),
                cand@,
            )),
    {
        any_item_includes(&self.source_paths, cand) && !any_item_includes(&self.excl_paths, cand)
    }

    /// Whether the projection keeps `cand`.
    pub fn should_keep(&self, cand: &String) -> (r: bool)
        ensures
            r == spec_keeps(self.source_views(), self.excl_views(), self.ext_views(), cand@),
    {
        if !self.includes(cand) {
            return false;
        }
        let ext = ext_lower(cand);
        let mut i: usize = 0;
        let n = self.excl_exts.len();
        while i < n
            invariant
                n == self.excl_exts@.len(),
                i <= n,
                ext@ == spec_ext_lower(cand@),
                forall|j: int| 0 <= j < i ==> (#[trigger] self.ext_views()[j]) != ext@,
            decreases n - i,
        {
            if self.excl_exts[i] == ext {
                proof {
                    assert(self.ext_views()[i as int] == ext@);
                }
                return false;
            }
            proof {
                assert(self.ext_views()[i as int] == self.excl_exts@[i as int]@);
            }
            i = i + 1;
        }
        proof {
            if self.ext_views().contains(ext@) {
                let j = choose|j: int|
                    0 <= j < self.ext_views().len() && self.ext_views()[j] == ext@;
            }
        }
        true
    }

    /// Project a path list: keep the included, non-excluded,
    /// non-blacklisted paths, sorted and deduplicated.
    #[verifier::rlimit(30)]
    pub fn project_from_list(&mut self, paths: &Vec<String>)
        ensures
            final(self).source_paths == old(self).source_paths,
            final(self).excl_paths == old(self).excl_paths,
            final(self).excl_exts == old(self).excl_exts,
            final(self).enumerated,
            spec_projection_of(
                old(self).source_views(),
                old(self).excl_views(),
                old(self).ext_views(),
                views_of(paths@),
                views_of(final(self).enumerated_paths@),
            ),
    {
        let ghost input = views_of(paths@);
        let ghost srcs = self.source_views();
        let ghost excls = self.excl_views();
        let ghost exts = self.ext_views();
        // keep the members the projection admits
        let mut kept: Vec<String> = Vec::new();
        let mut i: usize = 0;
        let n = paths.len();
        while i < n
            invariant
                n == paths@.len(),
                i <= n,
                input == views_of(paths@),
                srcs == self.source_views(),
                excls == self.excl_views(),
                exts == self.ext_views(),
                forall|p: Seq<char>|
                    #[trigger] views_of(kept@).contains(p) <==> (input.take(i as int).contains(p)
                        && spec_keeps(srcs, excls, exts, p)),
            decreases n - i,
        {
            let ghost kept_pre = views_of(kept@);
            if self.should_keep(&paths[i]) {
                let item = paths[i].clone();
                kept.push(item);
            }
            proof {
                let kv = views_of(kept@);
                assert(input[i as int] == paths@[i as int]@);
                if spec_keeps(srcs, excls, exts, input[i as int]) {
                    assert(kv =~= kept_pre.push(input[i as int]));
                }
                assert forall|p: Seq<char>| kv.contains(p) <==> (input.take(i + 1).contains(p)
                    && spec_keeps(srcs, excls, exts, p)) by {
                    lemma_contains_take_step(input, i as int, p);
                    if spec_keeps(srcs, excls, exts, input[i as int]) {
                        lemma_contains_push(kept_pre, input[i as int], p);
                    }
                }
            }
            i = i + 1;
        }
        proof {
            assert(input.take(n as int) =~= input);
        }
        // sort
        let mut sorted: Vec<String> = Vec::new();
        let mut work = kept;
        proof {
            assert(views_of(sorted@) =~= Seq::<Seq<char>>::empty());
        }
        while work.len() > 0
            invariant
                sorted_le(views_of(sorted@)),
                forall|p: Seq<char>|
                    #![trigger views_of(sorted@).contains(p)]
                    #![trigger views_of(work@).contains(p)]
                    (views_of(sorted@).contains(p) || views_of(work@).contains(p)) <==> (
                    input.contains(p) && spec_keeps(srcs, excls, exts, p)),
            decreases work@.len(),
        {
            let ghost work_pre = views_of(work@);
            let ghost sorted_pre = views_of(sorted@);
            let next = work.remove(0);
            let pos = find_lex_pos(&sorted, &next);
            let ghost sorted_mid = views_of(sorted@);
            sorted.insert(pos, next);
            proof {
                let sv = views_of(sorted@);
                let wv = views_of(work@);
                assert(sorted_mid == sorted_pre);
                assert(work_pre =~= seq![work_pre[0]] + wv);
                assert(work_pre.drop_first() =~= wv);
                assert(sv =~= sorted_mid.insert(pos as int, work_pre[0]));
                lemma_insert_sorted_le(sorted_mid, pos as int, work_pre[0]);
                assert forall|p: Seq<char>|
                    #![trigger sv.contains(p)]
                    #![trigger wv.contains(p)]
                    (sv.contains(p) || wv.contains(p)) <==> (input.contains(p) && spec_keeps(
                        srcs,
                        excls,
                        exts,
                        p,
                    )) by {
                    assert((sorted_pre.contains(p) || work_pre.contains(p)) <==> (input.contains(
                        p,
                    ) && spec_keeps(srcs, excls, exts, p)));
                    lemma_contains_insert(sorted_mid, pos as int, work_pre[0], p);
                    lemma_contains_cons(work_pre, p);
                }
            }
        }
        proof {
            let wv = views_of(work@);
            assert(wv.len() == 0);
            assert forall|p: Seq<char>| !(#[trigger] wv.contains(p)) by {
                if wv.contains(p) {
                }
            }
        }
        // drop duplicate neighbours
        let mut out: Vec<String> = Vec::new();
        let mut i: usize = 0;
        let m = sorted.len();
        while i < m
            invariant
                m == sorted@.len(),
                i <= m,
                sorted_le(views_of(sorted@)),
                strictly_sorted(views_of(out@)),
                forall|p: Seq<char>|
                    #[trigger] views_of(out@).contains(p) <==> views_of(sorted@).take(
                        i as int,
                    ).contains(p),
                i > 0 ==> out@.len() > 0 && views_of(out@).last() == views_of(sorted@)[i - 1],
                forall|j: int|
                    0 <= j < out@.len() ==> lex_le(
                        #[trigger] views_of(out@)[j],
                        views_of(out@).last(),
                    ),
            decreases m - i,
        {
            let ghost sv = views_of(sorted@);
            let ghost ov_pre = views_of(out@);
            let mut push_it = true;
            if out.len() > 0 {
                if out[out.len() - 1] == sorted[i] {
                    push_it = false;
                }
            }
            if push_it {
                let item = sorted[i].clone();
                out.push(item);
                proof {
                    let ov = views_of(out@);
                    assert(ov =~= ov_pre.push(sv[i as int]));
                    if ov_pre.len() > 0 {
                        if i == 0 {
                            assert(ov_pre.contains(ov_pre[0]));
                            assert(sv.take(0).contains(ov_pre[0]));
                            assert(false);
                        }
                        assert(ov_pre.last() == sv[i - 1]);
                        assert(lex_le(sv[i - 1], sv[i as int]));
                        assert(sv[i - 1] != sv[i as int]) by {
                            assert(out@[out@.len() - 2]@ == ov_pre.last());
                            assert(sorted@[i as int]@ == sv[i as int]);
                        }
                        assert(lex_lt(sv[i - 1], sv[i as int]));
                        assert forall|a: int, b: int| 0 <= a < b < ov.len() implies lex_lt(
                            #[trigger] ov[a],
                            #[trigger] ov[b],
                        ) by {
                            if b == ov.len() - 1 {
                                assert(lex_le(ov_pre[a], ov_pre.last()));
                                if ov_pre[a] == ov_pre.last() {
                                } else {
                                    lemma_lex_lt_transitive(ov_pre[a], ov_pre.last(), ov[b]);
                                }
                            }
                        }
                    }
                    assert forall|j: int| 0 <= j < ov.len() implies lex_le(
                        #[trigger] ov[j],
                        ov.last(),
                    ) by {
                        if j < ov.len() - 1 {
                            assert(lex_lt(ov[j], ov.last()));
                        }
                    }
                    assert forall|p: Seq<char>| ov.contains(p) <==> sv.take(i + 1).contains(
                        p,
                    ) by {
                        lemma_contains_take_step(sv, i as int, p);
                        lemma_contains_push(ov_pre, sv[i as int], p);
                    }
                }
            } else {
                proof {
                    let ov = views_of(out@);
                    assert(out@[out@.len() - 1]@ == ov.last());
                    assert(sorted@[i as int]@ == sv[i as int]);
                    assert(ov.last() == sv[i as int]);
                    assert(ov.contains(ov.last()));
                    assert forall|p: Seq<char>| ov.contains(p) <==> sv.take(i + 1).contains(
                        p,
                    ) by {
                        lemma_contains_take_step(sv, i as int, p);
                    }
                }
            }
            i = i + 1;
        }
        proof {
            let sv = views_of(sorted@);
            assert(sv.take(m as int) =~= sv);
        }
        self.enumerated_paths = out;
        self.enumerated = true;
    }
}

/// Membership in a one-longer prefix.
proof fn lemma_contains_take_step(s: Seq<Seq<char>>, i: int, p: Seq<char>)
    requires
        0 <= i < s.len(),
    ensures
        s.take(i + 1).contains(p) <==> (s.take(i).contains(p) || p == s[i]),
{
    assert(s.take(i + 1) =~= s.take(i).push(s[i]));
    lemma_contains_push(s.take(i), s[i], p);
}

/// Membership after a push.
proof fn lemma_contains_push(s: Seq<Seq<char>>, x: Seq<char>, p: Seq<char>)
    ensures
        s.push(x).contains(p) <==> (s.contains(p) || p == x),
{
    if s.push(x).contains(p) {
        let i = choose|i: int| 0 <= i < s.push(x).len() && s.push(x)[i] == p;
        if i < s.len() {
            assert(s[i] == p);
        }
    }
    if s.contains(p) {
        let i = choose|i: int| 0 <= i < s.len() && s[i] == p;
        assert(s.push(x)[i] == p);
    }
    if p == x {
        assert(s.push(x)[s.len() as int] == p);
    }
}

/// Membership after an insert.
proof fn lemma_contains_insert(s: Seq<Seq<char>>, i: int, x: Seq<char>, p: Seq<char>)
    requires
        0 <= i <= s.len(),
    ensures
        s.insert(i, x).contains(p) <==> (s.contains(p) || p == x),
{
    let t = s.insert(i, x);
    if t.contains(p) {
        let j = choose|j: int| 0 <= j < t.len() && t[j] == p;
        if j < i {
            assert(s[j] == p);
        } else if j == i {
        } else {
            assert(s[j - 1] == p);
        }
    }
    if s.contains(p) {
        let j = choose|j: int| 0 <= j < s.len() && s[j] == p;
        if j < i {
            assert(t[j] == p);
        } else {
            assert(t[j + 1] == p);
        }
    }
    if p == x {
        assert(t[i] == p);
    }
}

/// Membership in a non-empty list split at its head.
proof fn lemma_contains_cons(s: Seq<Seq<char>>, p: Seq<char>)
    requires
        s.len() > 0,
    ensures
        s.contains(p) <==> (p == s[0] || s.drop_first().contains(p)),
{
    if s.contains(p) {
        let i = choose|i: int| 0 <= i < s.len() && s[i] == p;
        if i > 0 {
            assert(s.drop_first()[i - 1] == p);
        }
    }
    if s.drop_first().contains(p) {
        let i = choose|i: int| 0 <= i < s.drop_first().len() && s.drop_first()[i] == p;
        assert(s[i + 1] == p);
    }
}

/// Inserting at the first position whose element is greater keeps a
/// sorted sequence sorted.
proof fn lemma_insert_sorted_le(s: Seq<Seq<char>>, i: int, x: Seq<char>)
    requires
        0 <= i <= s.len(),
        sorted_le(s),
        forall|j: int| 0 <= j < i ==> lex_le(#[trigger] s[j], x),
        i < s.len() ==> lex_lt(x, s[i]),
    ensures
        sorted_le(s.insert(i, x)),
{
    let t = s.insert(i, x);
    assert forall|a: int, b: int| 0 <= a < b < t.len() implies lex_le(
        #[trigger] t[a],
        #[trigger] t[b],
    ) by {
        if a < i && b < i {
            assert(t[a] == s[a] && t[b] == s[b]);
        } else if a < i && b == i {
            assert(t[a] == s[a]);
        } else if a < i && b > i {
            assert(t[a] == s[a] && t[b] == s[b - 1]);
            if b - 1 == i {
                if i < s.len() {
                    assert(lex_le(s[a], x));
                    if s[a] == x {
                        assert(lex_lt(x, s[i]));
                    } else {
                        lemma_lex_lt_transitive(s[a], x, s[b - 1]);
                    }
                }
            } else {
                assert(lex_le(s[a], s[b - 1]));
            }
        } else if a == i {
            assert(t[b] == s[b - 1]);
            if b - 1 == i {
                assert(lex_lt(x, s[i]));
            } else {
                assert(lex_lt(x, s[i]));
                assert(lex_le(s[i], s[b - 1]));
                if s[i] == s[b - 1] {
                } else {
                    lemma_lex_lt_transitive(x, s[i], s[b - 1]);
                }
            }
        } else {
            assert(t[a] == s[a - 1] && t[b] == s[b - 1]);
        }
    }
}

/// The first position in a sorted list whose element is greater than
/// `next`.
fn find_lex_pos(sorted: &Vec<String>, next: &String) -> (pos: usize)
    ensures
        pos <= sorted@.len(),
        forall|j: int| 0 <= j < pos ==> lex_le(#[trigger] sorted@[j]@, next@),
        pos < sorted@.len() ==> lex_lt(next@, sorted@[pos as int]@),
{
    let mut pos: usize = 0;
    let n = sorted.len();
    while pos < n
        invariant
            n == sorted@.len(),
            pos <= n,
            forall|j: int| 0 <= j < pos ==> lex_le(#[trigger] sorted@[j]@, next@),
        decreases n - pos,
    {
        if lex_less(next, &sorted[pos]) {
            return pos;
        }
        proof {
            if sorted@[pos as int]@ != next@ {
                lemma_lex_lt_total(sorted@[pos as int]@, next@);
            }
        }
        pos = pos + 1;
    }
    pos
}

} // verus!
