//! The search run: gather fingerprints from the cache through the
//! projection, run the bulk search, and refine the groups.

use vstd::prelude::*;

use crate::concrete_cachers::{CacheEntryView, DupFinderCache};
use crate::errors::LibError;
use crate::file_set::FileSet;
use crate::library_cfg::SearchCfg;
use crate::match_group::{group_all_cached, MatchGroup};
use crate::search_output::{clone_paths, SearchOutput};
use crate::temporal_hash::TemporalHash;
use crate::video_dup_finder::VideoDupFinder;

verus! {

/// The paths among the first `n` of `ps` whose cache entries hold a
/// processed fingerprint, in order.
pub open spec fn spec_video_paths(cache: DupFinderCache, ps: Seq<Seq<char>>, n: int) -> Seq<
    Seq<char>,
>
    decreases n,
{
    if n <= 0 {
        Seq::empty()
    } else {
        spec_video_paths(cache, ps, n - 1) + if cache.as_map().contains_key(ps[n - 1])
            && cache.as_map()[ps[n - 1]].value is Video {
            seq![ps[n - 1]]
        } else {
            Seq::empty()
        }
    }
}

/// The cached processing errors among the first `n` of `ps`, each as
/// its kind and message, in order.
pub open spec fn spec_error_entries(cache: DupFinderCache, ps: Seq<Seq<char>>, n: int) -> Seq<
    (crate::concrete_cachers::ProcessingErrorKind, Seq<char>),
>
    decreases n,
{
    if n <= 0 {
        Seq::empty()
    } else {
        spec_error_entries(cache, ps, n - 1) + if cache.as_map().contains_key(ps[n - 1]) && (
        cache.as_map()[ps[n - 1]].value matches CacheEntryView::ProcessingError(k, m)) {
            seq![
                (
                    cache.as_map()[ps[n - 1]].value->ProcessingError_0,
                    cache.as_map()[ps[n - 1]].value->ProcessingError_1,
                ),
            ]
        } else {
            Seq::empty()
        }
    }
}

/// A processing error's kind and message.
pub open spec fn err_view(e: LibError) -> (crate::concrete_cachers::ProcessingErrorKind, Seq<
    char,
>) {
    match e {
        LibError::ProcessingError(k, m) => (k, m@),
        _ => (crate::concrete_cachers::ProcessingErrorKind::DecoderFailed, Seq::empty()),
    }
}

/// Fetch the fingerprints of every projected cached path: project the
/// cache's keys through the roots, exclusions and extension blacklist,
/// keep exactly the processed entries — each path paired with its
/// cached fingerprint — and collect exactly the cached processing
/// errors.  The expected terminal states — not a video, too short —
/// are silently dropped.
pub fn get_hashes_from_cache(
    cache: &DupFinderCache,
    incl_dirs: &Vec<String>,
    excl_dirs: &Vec<String>,
    excl_exts: &Vec<String>,
) -> (r: (Vec<TemporalHash>, Vec<String>, Vec<LibError>))
    requires
        cache.wf(),
    ensures
        exists|proj: Seq<Seq<char>>|
            {
                &&& #[trigger] crate::file_set::spec_projection_of(
                    crate::file_set::views_of(incl_dirs@),
                    crate::file_set::views_of(excl_dirs@),
                    crate::file_set::views_of(excl_exts@),
                    cache.key_views(),
                    proj,
                )
                &&& r.1@.map_values(|p: String| p@) == spec_video_paths(
                    *cache,
                    proj,
                    proj.len() as int,
                )
                &&& r.2@.map_values(|e: LibError| err_view(e)) == spec_error_entries(
                    *cache,
                    proj,
                    proj.len() as int,
                )
            },
        r.0@.len() == r.1@.len(),
        forall|i: int|
            0 <= i < r.0@.len() ==> (#[trigger] r.0@[i])@ == crate::match_group::cached_hash(
                *cache,
                r.1@[i]@,
            ) && r.0@[i]@.wf(),
        forall|i: int|
            0 <= i < r.1@.len() ==> cache.as_map().contains_key((#[trigger] r.1@[i])@)
                && cache.as_map()[r.1@[i]@].value is Video,
        forall|i: int| 0 <= i < r.2@.len() ==> (#[trigger] r.2@[i]) is ProcessingError,
{
    let incl = clone_paths(incl_dirs);
    let excl = clone_paths(excl_dirs);
    let exts = clone_paths(excl_exts);
    let mut path_source = FileSet::new(incl, excl, exts);
    let keys = cache.keys();
    proof {
        assert(crate::file_set::views_of(keys@) =~= cache.key_views());
    }
    path_source.project_from_list(&keys);
    let filenames = &path_source.enumerated_paths;
    let ghost proj = crate::file_set::views_of(filenames@);
    let mut hashes: Vec<TemporalHash> = Vec::new();
    let mut hash_paths: Vec<String> = Vec::new();
    let mut errors: Vec<LibError> = Vec::new();
    let mut i: usize = 0;
    let n = filenames.len();
    while i < n
        invariant
            cache.wf(),
            n == filenames@.len(),
            i <= n,
            proj == crate::file_set::views_of(filenames@),
            hash_paths@.map_values(|p: String| p@) == spec_video_paths(*cache, proj, i as int),
            errors@.map_values(|e: LibError| err_view(e)) == spec_error_entries(
                *cache,
                proj,
                i as int,
            ),
            hashes@.len() == hash_paths@.len(),
            forall|j: int|
                0 <= j < hashes@.len() ==> (#[trigger] hashes@[j])@
                    == crate::match_group::cached_hash(*cache, hash_paths@[j]@)
                    && hashes@[j]@.wf(),
            forall|j: int|
                0 <= j < hash_paths@.len() ==> cache.as_map().contains_key(
                    (#[trigger] hash_paths@[j])@,
                ) && cache.as_map()[hash_paths@[j]@].value is Video,
            forall|j: int| 0 <= j < errors@.len() ==> (#[trigger] errors@[j]) is ProcessingError,
        decreases n - i,
    {
        let ghost paths_pre = hash_paths@.map_values(|p: String| p@);
        let ghost errs_pre = errors@.map_values(|e: LibError| err_view(e));
        proof {
            assert(proj[i as int] == filenames@[i as int]@);
        }
        match cache.get_hash(&filenames[i]) {
            Ok(h) => {
                let p = filenames[i].clone();
                hash_paths.push(p);
                hashes.push(h);
                proof {
                    assert(hash_paths@.map_values(|q: String| q@) =~= paths_pre.push(
                        proj[i as int],
                    ));
                    assert(spec_video_paths(*cache, proj, i + 1) =~= paths_pre.push(
                        proj[i as int],
                    ));
                    assert(spec_error_entries(*cache, proj, i + 1) =~= errs_pre);
                }
            },
            Err(e) => {
                proof {
                    assert(spec_video_paths(*cache, proj, i + 1) =~= paths_pre);
                }
                if e.is_processing_error() {
                    let le = LibError::from_fetch(e);
                    let ghost lev = err_view(le);
                    errors.push(le);
                    proof {
                        assert(errors@.map_values(|q: LibError| err_view(q)) =~= errs_pre.push(
                            lev,
                        ));
                        assert(spec_error_entries(*cache, proj, i + 1) =~= errs_pre.push(lev));
                    }
                } else {
                    proof {
                        assert(spec_error_entries(*cache, proj, i + 1) =~= errs_pre);
                    }
                }
            },
        }
        i = i + 1;
    }
    (hashes, hash_paths, errors)
}

/// Whether every group member has a processed cache entry; the
/// post-processors require it.
fn groups_all_cached(groups: &Vec<MatchGroup>, cache: &DupFinderCache) -> (r: bool)
    requires
        cache.wf(),
    ensures
        r == forall|g: int|
            0 <= g < groups@.len() ==> group_all_cached((#[trigger] groups@[g])@, *cache),
{
    let mut g: usize = 0;
    let n = groups.len();
    while g < n
        invariant
            cache.wf(),
            n == groups@.len(),
            g <= n,
            forall|k: int| 0 <= k < g ==> group_all_cached((#[trigger] groups@[k])@, *cache),
        decreases n - g,
    {
        let group = &groups[g];
        match &group.reference {
            Some(rp) => {
                let ok = match cache.get_stats(rp) {
                    Ok(_) => true,
                    Err(_) => false,
                };
                if !ok {
                    proof {
                        assert(!group_all_cached(groups@[g as int]@, *cache));
                    }
                    return false;
                }
            },
            None => {},
        }
        let mut j: usize = 0;
        let m = group.duplicates.len();
        while j < m
            invariant
                cache.wf(),
                g < groups@.len(),
                group == groups@[g as int],
                m == group.duplicates@.len(),
                j <= m,
                group@.reference matches Some(rp2) ==> cache.as_map().contains_key(rp2)
                    && cache.as_map()[rp2].value is Video,
                forall|t: int|
                    0 <= t < j ==> cache.as_map().contains_key(
                        #[trigger] group@.duplicates[t],
                    ) && cache.as_map()[group@.duplicates[t]].value is Video,
            decreases m - j,
        {
            let ok = match cache.get_stats(&group.duplicates[j]) {
                Ok(_) => true,
                Err(_) => false,
            };
            proof {
                assert(group@.duplicates[j as int] == group.duplicates@[j as int]@);
            }
            if !ok {
                proof {
                    assert(!group_all_cached(groups@[g as int]@, *cache));
                }
                return false;
            }
            j = j + 1;
        }
        g = g + 1;
    }
    true
}

/// The cached fingerprints of the given paths, in order.
pub open spec fn spec_cached_hashes(cache: DupFinderCache, ps: Seq<Seq<char>>) -> Seq<
    crate::temporal_hash::HashView,
> {
    ps.map_values(|p: Seq<char>| crate::match_group::cached_hash(cache, p))
}

/// The paths among the first `n` of `ps` that no group lists, in order.
pub open spec fn spec_unmatched_paths(
    ps: Seq<Seq<char>>,
    groups: Seq<MatchGroup>,
    n: int,
) -> Seq<Seq<char>>
    decreases n,
{
    if n <= 0 {
        Seq::empty()
    } else {
        spec_unmatched_paths(ps, groups, n - 1) + if !crate::search_output::spec_in_some_group(
            groups,
            ps[n - 1],
        ) {
            seq![ps[n - 1]]
        } else {
            Seq::empty()
        }
    }
}

/// Whether some path is given both as a candidate and as a reference.
pub open spec fn spec_shared_root(cfg: SearchCfg) -> bool {
    exists|i: int, j: int|
        0 <= i < cfg.ref_dirs@.len() && 0 <= j < cfg.cand_dirs@.len() && (
        #[trigger] cfg.ref_dirs@[i])@ == (#[trigger] cfg.cand_dirs@[j])@
}

/// Run the whole search over the cached fingerprints the configuration
/// projects: bulk mode without references, reference mode with them,
/// then the requested refinements.
///
/// The error comes exactly when a path is both candidate and
/// reference.  On success there are projected candidate (and, in
/// reference mode, reference) path sets such that the groups are the
/// finder's result over their cached fingerprints — pinned exactly for
/// the linear backend — and the unique files are exactly the projected
/// candidates no group lists.
pub fn find_all_matches(cache: &DupFinderCache, search_cfg: &SearchCfg) -> (r: Result<
    (SearchOutput, Vec<LibError>),
    LibError,
>)
    requires
        cache.wf(),
    ensures
        r is Err <==> spec_shared_root(*search_cfg),
        r matches Err(e) ==> e is SamePathInRefAndCandError,
        r matches Ok(out) ==> {
            &&& out.0.wf()
            &&& out.0.search_included_references == (search_cfg.ref_dirs@.len() > 0)
            &&& exists|cand_proj: Seq<Seq<char>>, ref_proj: Seq<Seq<char>>, prelim: Seq<
                MatchGroup,
            >|
                #![trigger spec_video_paths(*cache, cand_proj, cand_proj.len() as int), spec_video_paths(*cache, ref_proj, ref_proj.len() as int), spec_unmatched_paths(cand_proj, prelim, cand_proj.len() as int)]
                {
                    &&& crate::file_set::spec_projection_of(
                        crate::file_set::views_of(search_cfg.cand_dirs@),
                        spec_shadow_excls(
                            crate::file_set::views_of(search_cfg.excl_dirs@),
                            crate::file_set::views_of(search_cfg.cand_dirs@),
                            crate::file_set::views_of(search_cfg.ref_dirs@),
                            search_cfg.ref_dirs@.len() as int,
                        ),
                        crate::file_set::views_of(search_cfg.excl_exts@),
                        cache.key_views(),
                        cand_proj,
                    )
                    &&& search_cfg.ref_dirs@.len() > 0
                        ==> crate::file_set::spec_projection_of(
                        crate::file_set::views_of(search_cfg.ref_dirs@),
                        spec_shadow_excls(
                            crate::file_set::views_of(search_cfg.excl_dirs@),
                            crate::file_set::views_of(search_cfg.ref_dirs@),
                            crate::file_set::views_of(search_cfg.cand_dirs@),
                            search_cfg.cand_dirs@.len() as int,
                        ),
                        crate::file_set::views_of(search_cfg.excl_exts@),
                        cache.key_views(),
                        ref_proj,
                    )
                    &&& search_cfg.ref_dirs@.len() == 0 ==> ref_proj == Seq::<Seq<char>>::empty()
                    &&& (search_cfg.vec_search && search_cfg.ref_dirs@.len() == 0) ==> {
                        let model = crate::video_dup_finder::spec_find_all(
                            spec_cached_hashes(
                                *cache,
                                spec_video_paths(*cache, cand_proj, cand_proj.len() as int),
                            ),
                            search_cfg.tolerance,
                        );
                        &&& prelim.len() == model.len()
                        &&& forall|g: int|
                            0 <= g < prelim.len() ==> (#[trigger] prelim[g])@.reference is None
                                && prelim[g]@.duplicates
                                == crate::video_dup_finder::group_paths_view(model[g])
                    }
                    &&& (search_cfg.vec_search && search_cfg.ref_dirs@.len() > 0) ==> {
                        let model = crate::video_dup_finder::spec_find_with_refs(
                            spec_cached_hashes(
                                *cache,
                                spec_video_paths(*cache, cand_proj, cand_proj.len() as int),
                            ),
                            spec_cached_hashes(
                                *cache,
                                spec_video_paths(*cache, ref_proj, ref_proj.len() as int),
                            ),
                            search_cfg.tolerance,
                        );
                        &&& prelim.len() == model.len()
                        &&& forall|g: int|
                            0 <= g < prelim.len() ==> (#[trigger] prelim[g])@.reference == Some(
                                model[g].0.src_path,
                            ) && crate::match_group::sorted_by_len(prelim[g]@.duplicates)
                                && prelim[g]@.duplicates.to_multiset()
                                == crate::video_dup_finder::group_paths_view(
                                model[g].1,
                            ).to_multiset()
                    }
                    &&& crate::file_set::views_of(out.0.unique_files@) == spec_unmatched_paths(
                        spec_video_paths(*cache, cand_proj, cand_proj.len() as int),
                        prelim,
                        spec_video_paths(*cache, cand_proj, cand_proj.len() as int).len() as int,
                    )
                    &&& (!search_cfg.affirm_matches && !search_cfg.cartesian)
                        ==> out.0.dup_groups@ == prelim
                }
        },
{
    // a path in both lists would make every file its own duplicate
    let mut i: usize = 0;
    let rn = search_cfg.ref_dirs.len();
    let cn = search_cfg.cand_dirs.len();
    while i < rn
        invariant
            rn == search_cfg.ref_dirs@.len(),
            cn == search_cfg.cand_dirs@.len(),
            i <= rn,
            forall|a: int, b: int|
                0 <= a < i && 0 <= b < cn ==> (#[trigger] search_cfg.ref_dirs@[a])@ != (
                #[trigger] search_cfg.cand_dirs@[b])@,
        decreases rn - i,
    {
        let mut j: usize = 0;
        while j < cn
            invariant
                rn == search_cfg.ref_dirs@.len(),
                cn == search_cfg.cand_dirs@.len(),
                i < rn,
                j <= cn,
                forall|b: int|
                    0 <= b < j ==> (#[trigger] search_cfg.cand_dirs@[b])@
                        != search_cfg.ref_dirs@[i as int]@,
            decreases cn - j,
        {
            if search_cfg.ref_dirs[i] == search_cfg.cand_dirs[j] {
                let p = search_cfg.ref_dirs[i].clone();
                proof {
                    assert(spec_shared_root(*search_cfg));
                }
                return Err(LibError::SamePathInRefAndCandError(p));
            }
            j = j + 1;
        }
        i = i + 1;
    }
    proof {
        if spec_shared_root(*search_cfg) {
            let (a, b) = choose|a: int, b: int|
                0 <= a < search_cfg.ref_dirs@.len() && 0 <= b < search_cfg.cand_dirs@.len() && (
                #[trigger] search_cfg.ref_dirs@[a])@ == (#[trigger] search_cfg.cand_dirs@[b])@;
            assert(false);
        }
    }
    let mut ret_errs: Vec<LibError> = Vec::new();
    // where one side's root lies under the other's, the deeper root is
    // excluded from the shallower side, so each file has one side
    let cand_excls = shadowing_excls(
        &search_cfg.excl_dirs,
        &search_cfg.cand_dirs,
        &search_cfg.ref_dirs,
    );
    let ref_excls = shadowing_excls(
        &search_cfg.excl_dirs,
        &search_cfg.ref_dirs,
        &search_cfg.cand_dirs,
    );
    let has_refs = search_cfg.ref_dirs.len() > 0;
    let (ref_hashes, ref_paths, ref_errs) = if has_refs {
        get_hashes_from_cache(cache, &search_cfg.ref_dirs, &ref_excls, &search_cfg.excl_exts)
    } else {
        (Vec::new(), Vec::new(), Vec::new())
    };
    let ghost ref_proj: Seq<Seq<char>> = if has_refs {
        choose|proj: Seq<Seq<char>>|
            {
                &&& #[trigger] crate::file_set::spec_projection_of(
                    crate::file_set::views_of(search_cfg.ref_dirs@),
                    crate::file_set::views_of(ref_excls@),
                    crate::file_set::views_of(search_cfg.excl_exts@),
                    cache.key_views(),
                    proj,
                )
                &&& crate::file_set::views_of(ref_paths@) == spec_video_paths(
                    *cache,
                    proj,
                    proj.len() as int,
                )
                &&& ref_errs@.map_values(|e: LibError| err_view(e)) == spec_error_entries(
                    *cache,
                    proj,
                    proj.len() as int,
                )
            }
    } else {
        Seq::<Seq<char>>::empty()
    };
    let mut ref_errs = ref_errs;
    loop_push_errs(&mut ret_errs, &mut ref_errs);
    let (new_hashes, new_paths, new_errs) = get_hashes_from_cache(
        cache,
        &search_cfg.cand_dirs,
        &cand_excls,
        &search_cfg.excl_exts,
    );
    let ghost cand_proj: Seq<Seq<char>> = choose|proj: Seq<Seq<char>>|
        {
            &&& #[trigger] crate::file_set::spec_projection_of(
                crate::file_set::views_of(search_cfg.cand_dirs@),
                crate::file_set::views_of(cand_excls@),
                crate::file_set::views_of(search_cfg.excl_exts@),
                cache.key_views(),
                proj,
            )
            &&& crate::file_set::views_of(new_paths@) == spec_video_paths(
                *cache,
                proj,
                proj.len() as int,
            )
            &&& new_errs@.map_values(|e: LibError| err_view(e)) == spec_error_entries(
                *cache,
                proj,
                proj.len() as int,
            )
        };
    let ghost cand_paths_view = crate::file_set::views_of(new_paths@);
    proof {
        assert(spec_cached_hashes(*cache, cand_paths_view) =~= new_hashes@.map_values(
            |h: TemporalHash| h@,
        ));
        if has_refs {
            assert(spec_cached_hashes(*cache, crate::file_set::views_of(ref_paths@))
                =~= ref_hashes@.map_values(|h: TemporalHash| h@));
        }
    }
    let mut new_errs = new_errs;
    loop_push_errs(&mut ret_errs, &mut new_errs);
    let mut finder = VideoDupFinder::new();
    let matches_vec = if search_cfg.ref_dirs.len() == 0 {
        finder.find_all(new_hashes, search_cfg.tolerance, search_cfg.determ, search_cfg.vec_search)
    } else {
        finder.find_with_refs(
            ref_hashes,
            new_hashes,
            search_cfg.tolerance,
            search_cfg.determ,
            search_cfg.vec_search,
        )
    };
    let ghost prelim = matches_vec@;
    // the candidates in no group are the unique files
    let preliminary = SearchOutput::new(matches_vec, Vec::new(), search_cfg.ref_dirs.len() > 0);
    let mut unique_files: Vec<String> = Vec::new();
    let mut i: usize = 0;
    let un = new_paths.len();
    while i < un
        invariant
            preliminary.wf(),
            un == new_paths@.len(),
            i <= un,
            cand_paths_view == crate::file_set::views_of(new_paths@),
            preliminary.dup_groups@ == prelim,
            unique_files@.map_values(|p: String| p@) == spec_unmatched_paths(
                cand_paths_view,
                prelim,
                i as int,
            ),
        decreases un - i,
    {
        let ghost upre = unique_files@.map_values(|p: String| p@);
        proof {
            assert(cand_paths_view[i as int] == new_paths@[i as int]@);
        }
        if !preliminary.contains(&new_paths[i]) {
            let p = new_paths[i].clone();
            unique_files.push(p);
            proof {
                assert(unique_files@.map_values(|q: String| q@) =~= upre.push(
                    cand_paths_view[i as int],
                ));
                assert(spec_unmatched_paths(cand_paths_view, prelim, i + 1) =~= upre.push(
                    cand_paths_view[i as int],
                ));
            }
        } else {
            proof {
                assert(spec_unmatched_paths(cand_paths_view, prelim, i + 1) =~= upre);
            }
        }
        i = i + 1;
    }
    let ghost prelim_snapshot = preliminary;
    let mut match_output = SearchOutput {
        dup_groups: preliminary.dup_groups,
        dup_files: preliminary.dup_files,
        unique_files,
        search_included_references: preliminary.search_included_references,
    };
    proof {
        assert(match_output.dup_groups == prelim_snapshot.dup_groups);
        assert(match_output.dup_files == prelim_snapshot.dup_files);
        assert(match_output.wf());
    }
    if search_cfg.affirm_matches {
        if groups_all_cached(&match_output.dup_groups, cache) {
            match_output = match_output.affirmed(cache);
        }
    }
    if search_cfg.cartesian {
        if groups_all_cached(&match_output.dup_groups, cache) {
            match_output = match_output.cartesian_product(search_cfg.tolerance, cache);
        }
    }
    proof {
        assert(crate::file_set::views_of(cand_excls@) == spec_shadow_excls(
            crate::file_set::views_of(search_cfg.excl_dirs@),
            crate::file_set::views_of(search_cfg.cand_dirs@),
            crate::file_set::views_of(search_cfg.ref_dirs@),
            search_cfg.ref_dirs@.len() as int,
        ));
        assert(crate::file_set::views_of(ref_excls@) == spec_shadow_excls(
            crate::file_set::views_of(search_cfg.excl_dirs@),
            crate::file_set::views_of(search_cfg.ref_dirs@),
            crate::file_set::views_of(search_cfg.cand_dirs@),
            search_cfg.cand_dirs@.len() as int,
        ));
        // the success contract's three witnesses
        let cand_paths = spec_video_paths(*cache, cand_proj, cand_proj.len() as int);
        let ref_pathsv = spec_video_paths(*cache, ref_proj, ref_proj.len() as int);
        let uniq_model = spec_unmatched_paths(cand_proj, prelim, cand_proj.len() as int);
        assert(cand_paths_view =~= crate::file_set::views_of(new_paths@));
        assert(cand_paths_view == cand_paths);
        if has_refs {
            assert(crate::file_set::views_of(ref_paths@) == ref_pathsv);
            assert(spec_cached_hashes(*cache, ref_pathsv) =~= ref_hashes@.map_values(
                |h: TemporalHash| h@,
            ));
        }
        assert(spec_cached_hashes(*cache, cand_paths) =~= new_hashes@.map_values(
            |h: TemporalHash| h@,
        ));
        assert(crate::file_set::views_of(match_output.unique_files@) =~= spec_unmatched_paths(
            cand_paths,
            prelim,
            cand_paths.len() as int,
        ));
        if !search_cfg.affirm_matches && !search_cfg.cartesian {
            assert(match_output.dup_groups@ == prelim);
        }
    }
    Ok((match_output, ret_errs))
}

/// The standing exclusions plus exactly the members of `cands` that
/// lie under some member of `dirs`, in order.
pub open spec fn spec_shadow_excls(
    excl: Seq<Seq<char>>,
    dirs: Seq<Seq<char>>,
    cands: Seq<Seq<char>>,
    n: int,
) -> Seq<Seq<char>>
    decreases n,
{
    if n <= 0 {
        excl
    } else {
        spec_shadow_excls(excl, dirs, cands, n - 1) + if crate::file_set::spec_any_ancestor(
            dirs,
            cands[n - 1],
        ) {
            seq![cands[n - 1]]
        } else {
            Seq::empty()
        }
    }
}

/// The members of `cands` that lie under some member of `dirs`,
/// appended to the standing exclusions.
pub fn shadowing_excls(excl_dirs: &Vec<String>, dirs: &Vec<String>, cands: &Vec<String>) -> (r: Vec<
    String,
>)
    ensures
        crate::file_set::views_of(r@) == spec_shadow_excls(
            crate::file_set::views_of(excl_dirs@),
            crate::file_set::views_of(dirs@),
            crate::file_set::views_of(cands@),
            cands@.len() as int,
        ),
{
    let ghost ev = crate::file_set::views_of(excl_dirs@);
    let ghost dv = crate::file_set::views_of(dirs@);
    let ghost cv = crate::file_set::views_of(cands@);
    let mut r = clone_paths(excl_dirs);
    proof {
        assert(crate::file_set::views_of(r@) =~= ev);
    }
    let mut i: usize = 0;
    let n = cands.len();
    while i < n
        invariant
            n == cands@.len(),
            i <= n,
            ev == crate::file_set::views_of(excl_dirs@),
            dv == crate::file_set::views_of(dirs@),
            cv == crate::file_set::views_of(cands@),
            crate::file_set::views_of(r@) == spec_shadow_excls(ev, dv, cv, i as int),
        decreases n - i,
    {
        let ghost r_pre = crate::file_set::views_of(r@);
        let mut j: usize = 0;
        let mut shadowed = false;
        let m = dirs.len();
        while j < m
            invariant
                i < cands@.len(),
                m == dirs@.len(),
                j <= m,
                dv == dirs@.map_values(|p: String| p@),
                cv == cands@.map_values(|p: String| p@),
                shadowed ==> crate::file_set::spec_any_ancestor(dv, cv[i as int]),
                !shadowed ==> forall|k: int|
                    0 <= k < j ==> !crate::file_set::spec_is_ancestor(
                        #[trigger] dv[k],
                        cv[i as int],
                    ),
            decreases m - j,
        {
            proof {
                assert(dv[j as int] == dirs@[j as int]@);
                assert(cv[i as int] == cands@[i as int]@);
            }
            if crate::file_set::is_ancestor_of(&dirs[j], &cands[i]) {
                shadowed = true;
            }
            j = j + 1;
        }
        proof {
            if !shadowed {
                if crate::file_set::spec_any_ancestor(dv, cv[i as int]) {
                    let k = choose|k: int|
                        0 <= k < dv.len() && crate::file_set::spec_is_ancestor(
                            #[trigger] dv[k],
                            cv[i as int],
                        );
                }
            }
        }
        if shadowed {
            let p = cands[i].clone();
            r.push(p);
            proof {
                assert(crate::file_set::views_of(r@) =~= r_pre.push(cv[i as int]));
                assert(spec_shadow_excls(ev, dv, cv, i + 1) =~= r_pre.push(cv[i as int]));
            }
        } else {
            proof {
                assert(spec_shadow_excls(ev, dv, cv, i + 1) =~= r_pre);
            }
        }
        i = i + 1;
    }
    r
}

/// Move every error of `src` onto the end of `dst`, in order.
fn loop_push_errs(dst: &mut Vec<LibError>, src: &mut Vec<LibError>)
    ensures
        final(dst)@ == old(dst)@ + old(src)@,
        final(src)@.len() == 0,
{
    let ghost src0 = src@;
    let ghost dst0 = dst@;
    while src.len() > 0
        invariant
            dst0 + src0 == dst@ + src@,
        decreases src@.len(),
    {
        let e = src.remove(0);
        let ghost dpre = dst@;
        let ghost spre = src@;
        dst.push(e);
        proof {
            assert(dst@ + src@ =~= dpre + (seq![e] + spre));
            assert(seq![e] + spre =~= spre.insert(0, e));
        }
    }
    proof {
        assert(dst@ + src@ =~= dst@);
    }
}

} // verus!
