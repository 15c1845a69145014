//! Configuration records for a search run.

use vstd::prelude::*;

use crate::search_structures::ScaledTolerance;

verus! {

/// What to search, where not to look, and how strictly to match.
#[derive(Debug)]
pub struct SearchCfg {
    pub cand_dirs: Vec<String>,
    pub ref_dirs: Vec<String>,
    pub excl_dirs: Vec<String>,
    pub excl_exts: Vec<String>,
    pub vec_search: bool,
    pub determ: bool,
    pub affirm_matches: bool,
    pub tolerance: ScaledTolerance,
    pub cartesian: bool,
}

/// Where the cache lives and which maintenance passes to run.
#[derive(Debug)]
pub struct CacheCfg {
    pub cache_dir: String,
    pub no_refresh_caches: bool,
    pub debug_reload_errors: bool,
    pub debug_reload_non_videos: bool,
}

} // verus!
