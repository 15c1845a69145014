//! Cache entries for the duplicate finder, and the keyed cache of them.
//!
//! Each scanned path ends in one of four terminal states: not a video,
//! a too-short video, a processed video carrying its fingerprint and
//! stats, or a processing error that is cached so a re-run does not
//! repeat the cost.

use vstd::prelude::*;

use crate::base_fs_cache::{BaseFsCache, FsCacheErrorKind, MtimeCacheEntry, MtimeEntryView};
use crate::temporal_hash::{HashView, TemporalHash};
use crate::video_stats::VideoStats;

verus! {

/// What went wrong while processing one video.
#[derive(Debug, Clone, Copy, PartialEq, Eq, Structural)]
pub enum ProcessingErrorKind {
    DecoderFailed,
    NoFramesDecoded,
    EmptyHash,
    ImgConversion,
    ProbeJsonParse,
    ProbeIntParse,
    ProbeFloatParse,
}

/// A processed video's fingerprint together with its metadata.
#[derive(Debug)]
pub struct CachedVideoData {
    pub hash: TemporalHash,
    pub stats: VideoStats,
}

impl Clone for CachedVideoData {
    /// A clone carries the same fingerprint and stats.
    fn clone(&self) -> (r: Self)
        ensures
            r.hash@ == self.hash@,
            r.stats == self.stats,
    {
        CachedVideoData { hash: self.hash.clone(), stats: self.stats }
    }
}

/// The mathematical content of one cache entry.
pub enum CacheEntryView {
    NotVideo,
    ShortVideo,
    Video(HashView, VideoStats),
    ProcessingError(ProcessingErrorKind, Seq<char>),
}

impl CacheEntryView {
    /// A processed entry carries a well-formed fingerprint and stats.
    pub open spec fn wf(self) -> bool {
        match self {
            CacheEntryView::Video(h, s) => h.wf() && s.wf(),
            _ => true,
        }
    }
}

/// The terminal state cached for one path.
#[derive(Debug)]
pub enum DupFinderCacheEntry {
    NotVideo,
    ShortVideo,
    Video(CachedVideoData),
    ProcessingError(ProcessingErrorKind, String),
}

impl View for DupFinderCacheEntry {
    type V = CacheEntryView;

    open spec fn view(&self) -> CacheEntryView {
        match self {
            DupFinderCacheEntry::NotVideo => CacheEntryView::NotVideo,
            DupFinderCacheEntry::ShortVideo => CacheEntryView::ShortVideo,
            DupFinderCacheEntry::Video(d) => CacheEntryView::Video(d.hash@, d.stats),
            DupFinderCacheEntry::ProcessingError(k, m) => CacheEntryView::ProcessingError(*k, m@),
        }
    }
}

impl Clone for DupFinderCacheEntry {
    /// A clone carries the same entry state.
    fn clone(&self) -> (r: Self)
        ensures
            r@ == self@,
    {
        match self {
            DupFinderCacheEntry::NotVideo => DupFinderCacheEntry::NotVideo,
            DupFinderCacheEntry::ShortVideo => DupFinderCacheEntry::ShortVideo,
            DupFinderCacheEntry::Video(d) => DupFinderCacheEntry::Video(d.clone()),
            DupFinderCacheEntry::ProcessingError(k, m) => DupFinderCacheEntry::ProcessingError(
                *k,
                m.clone(),
            ),
        }
    }
}

/// Why fetching a fingerprint or stats from the cache failed.
#[derive(Debug)]
pub enum FetchOperationError {
    NotVideo,
    ShortVideo,
    ProcessingError(ProcessingErrorKind, String),
    CacheError(FsCacheErrorKind),
}

impl FetchOperationError {
    pub fn is_processing_error(&self) -> (r: bool)
        ensures
            r == (self is ProcessingError),
    {
        match self {
            FetchOperationError::ProcessingError(_, _) => true,
            _ => false,
        }
    }

    pub fn is_not_video(&self) -> (r: bool)
        ensures
            r == (self is NotVideo),
    {
        match self {
            FetchOperationError::NotVideo => true,
            _ => false,
        }
    }
}

/// What a freshness check asks the caller to do for one path.
#[derive(Debug, Clone, Copy, PartialEq, Eq, Structural)]
pub enum FetchPlan {
    /// The cached entry is fresh: use it.
    UseCached,
    /// The path is unknown or its entry is stale: decode and hash the
    /// file again, then insert the result with the observed mtime.
    Recompute,
}

/// mtime differences of at most this many seconds are not staleness:
/// some filesystems report less granular mtimes than their backing
/// store, and below this threshold recomputation would be wasted.
pub const MTIME_TOLERANCE_SECS: i64 = 2;

/// Whether a cached mtime is stale against the filesystem's: the two
/// differ by more than `MTIME_TOLERANCE_SECS` seconds.
pub open spec fn spec_is_stale(cache_mtime_secs: i64, fs_mtime_secs: i64) -> bool {
    ||| cache_mtime_secs - fs_mtime_secs > 2
    ||| fs_mtime_secs - cache_mtime_secs > 2
}

/// The keyed persistent cache of per-video entries.
pub struct DupFinderCache(pub BaseFsCache);

impl DupFinderCache {
    pub open spec fn wf(self) -> bool {
        self.0.wf()
    }

    /// The cached entry views, keyed by path.
    pub open spec fn as_map(self) -> Map<Seq<char>, MtimeEntryView> {
        self.0.as_map()
    }

    /// The cached paths, in insertion order.
    pub open spec fn key_views(self) -> Seq<Seq<char>> {
        self.0.entry_views().map_values(|p: (Seq<char>, MtimeEntryView)| p.0)
    }

    /// An empty cache that will batch a save after `cache_save_threshold`
    /// mutations.
    pub fn new(cache_save_threshold: u32, cache_path: String) -> (r: Self)
        ensures
            r.wf(),
            r.as_map() == Map::<Seq<char>, MtimeEntryView>::empty(),
    {
        DupFinderCache(BaseFsCache::new(cache_save_threshold, cache_path))
    }

    /// The fingerprint cached for `src_path`, or why there is none.
    pub fn get_hash(&self, src_path: &String) -> (r: Result<TemporalHash, FetchOperationError>)
        requires
            self.wf(),
        ensures
            r matches Ok(h) <==> (self.as_map().contains_key(src_path@) && self.as_map()[src_path@].value is Video),
            r matches Ok(h) ==> self.as_map()[src_path@].value matches CacheEntryView::Video(hv, _)
                && h@ == hv && h@.wf(),
            !self.as_map().contains_key(src_path@) ==> (r matches Err(e) && e is CacheError),
            self.as_map().contains_key(src_path@) && self.as_map()[src_path@].value is NotVideo
                ==> (r matches Err(e) && e is NotVideo),
            self.as_map().contains_key(src_path@) && self.as_map()[src_path@].value is ShortVideo
                ==> (r matches Err(e) && e is ShortVideo),
            self.as_map().contains_key(src_path@) && self.as_map()[src_path@].value
                is ProcessingError ==> (r matches Err(e)
                && e matches FetchOperationError::ProcessingError(k, m)
                && self.as_map()[src_path@].value == CacheEntryView::ProcessingError(k, m@)),
    {
        match self.0.get(src_path) {
            Ok(entry) => match entry.value {
                DupFinderCacheEntry::Video(d) => Ok(d.hash),
                DupFinderCacheEntry::NotVideo => Err(FetchOperationError::NotVideo),
                DupFinderCacheEntry::ShortVideo => Err(FetchOperationError::ShortVideo),
                DupFinderCacheEntry::ProcessingError(k, m) => Err(
                    FetchOperationError::ProcessingError(k, m),
                ),
            },
            Err(e) => Err(FetchOperationError::CacheError(e)),
        }
    }

    /// The stats cached for `src_path`, or why there are none.
    pub fn get_stats(&self, src_path: &String) -> (r: Result<VideoStats, FetchOperationError>)
        requires
            self.wf(),
        ensures
            r matches Ok(s) <==> (self.as_map().contains_key(src_path@) && self.as_map()[src_path@].value is Video),
            r matches Ok(s) ==> self.as_map()[src_path@].value matches CacheEntryView::Video(_, sv)
                && s == sv && s.wf(),
    {
        match self.0.get(src_path) {
            Ok(entry) => match entry.value {
                DupFinderCacheEntry::Video(d) => Ok(d.stats),
                DupFinderCacheEntry::NotVideo => Err(FetchOperationError::NotVideo),
                DupFinderCacheEntry::ShortVideo => Err(FetchOperationError::ShortVideo),
                DupFinderCacheEntry::ProcessingError(k, m) => Err(
                    FetchOperationError::ProcessingError(k, m),
                ),
            },
            Err(e) => Err(FetchOperationError::CacheError(e)),
        }
    }

    /// Decide whether the entry for `src_path` can be reused against the
    /// filesystem mtime observed now.
    pub fn plan_fetch(&self, src_path: &String, fs_mtime_secs: i64) -> (r: FetchPlan)
        requires
            self.wf(),
        ensures
            r == FetchPlan::UseCached <==> (self.as_map().contains_key(src_path@)
                && !spec_is_stale(self.as_map()[src_path@].cache_mtime_secs, fs_mtime_secs)),
    {
        match self.0.get(src_path) {
            Ok(entry) => {
                let cached = entry.cache_mtime_secs;
                let stale = if cached >= fs_mtime_secs {
                    (cached as i128) - (fs_mtime_secs as i128) > MTIME_TOLERANCE_SECS as i128
                } else {
                    (fs_mtime_secs as i128) - (cached as i128) > MTIME_TOLERANCE_SECS as i128
                };
                if stale {
                    FetchPlan::Recompute
                } else {
                    FetchPlan::UseCached
                }
            },
            Err(_) => FetchPlan::Recompute,
        }
    }

    /// Record a freshly computed entry for `src_path` with the mtime the
    /// filesystem reported when the computation began.  Returns whether a
    /// batched save fell due.
    pub fn insert_processed(
        &mut self,
        src_path: String,
        fs_mtime_secs: i64,
        entry: DupFinderCacheEntry,
    ) -> (save_due: bool)
        requires
            old(self).wf(),
            entry@.wf(),
        ensures
            final(self).wf(),
            final(self).as_map() == old(self).as_map().insert(
                src_path@,
                MtimeEntryView { cache_mtime_secs: fs_mtime_secs, value: entry@ },
            ),
    {
        self.0.insert(src_path, MtimeCacheEntry { cache_mtime_secs: fs_mtime_secs, value: entry })
    }

    /// Forget the entry for `key`.
    pub fn remove(&mut self, key: &String) -> (save_due: bool)
        requires
            old(self).wf(),
        ensures
            final(self).wf(),
            final(self).as_map() == old(self).as_map().remove(key@),
    {
        self.0.remove(key)
    }

    pub fn contains(&self, key: &String) -> (r: bool)
        requires
            self.wf(),
        ensures
            r == self.as_map().contains_key(key@),
    {
        self.0.contains_key(key)
    }

    /// A snapshot of the cached paths, in insertion order.
    pub fn keys(&self) -> (r: Vec<String>)
        requires
            self.wf(),
        ensures
            r@.map_values(|p: String| p@) == self.key_views(),
            forall|j: int|
                0 <= j < r@.len() ==> self.as_map().contains_key(#[trigger] r@[j]@),
    {
        let r = self.0.keys();
        proof {
            assert(r@.map_values(|p: String| p@) =~= self.key_views());
        }
        r
    }

    pub fn len(&self) -> (r: usize)
        ensures
            r == self.0.entry_views().len(),
    {
        self.0.len()
    }

    /// Encode the cache for a durable save if enough mutations have
    /// accumulated; the caller writes the words to a temporary file and
    /// renames it over the cache file.
    pub fn save(&self) -> (r: Option<Vec<u64>>)
        requires
            self.wf(),
        ensures
            r is Some <==> self.0.cache_modified_count != 0,
            r matches Some(w) ==> w@ == crate::base_fs_cache::spec_encode(self.0.entry_views()),
    {
        self.0.save()
    }
}

/// The freshness policy in one statement: reusing a cached entry means
/// its recorded mtime is within `MTIME_TOLERANCE_SECS` of the
/// filesystem's, and a freshly inserted entry records the observed mtime
/// itself.
pub proof fn theorem_fetch_freshness(
    cache: DupFinderCache,
    path: Seq<char>,
    fs_mtime_secs: i64,
)
    requires
        cache.as_map().contains_key(path),
        !spec_is_stale(cache.as_map()[path].cache_mtime_secs, fs_mtime_secs),
    ensures
        cache.as_map()[path].cache_mtime_secs - fs_mtime_secs <= 2,
        fs_mtime_secs - cache.as_map()[path].cache_mtime_secs <= 2,
{
}

impl DupFinderCache {
    /// The cached paths whose entries hold a fingerprint or a cached
    /// processing error: the paths a search or a retry pass considers.
    pub fn cached_src_paths(&self) -> (r: Vec<String>)
        requires
            self.wf(),
        ensures
            forall|j: int|
                0 <= j < r@.len() ==> self.as_map().contains_key((#[trigger] r@[j])@) && (
                self.as_map()[r@[j]@].value is Video || self.as_map()[r@[j]@].value
                    is ProcessingError),
    {
        let keys = self.keys();
        let mut r: Vec<String> = Vec::new();
        let mut i: usize = 0;
        let n = keys.len();
        while i < n
            invariant
                self.wf(),
                n == keys@.len(),
                i <= n,
                forall|j: int|
                    0 <= j < keys@.len() ==> self.as_map().contains_key((#[trigger] keys@[j])@),
                forall|j: int|
                    0 <= j < r@.len() ==> self.as_map().contains_key((#[trigger] r@[j])@) && (
                    self.as_map()[r@[j]@].value is Video || self.as_map()[r@[j]@].value
                        is ProcessingError),
            decreases n - i,
        {
            match self.0.get(&keys[i]) {
                Ok(entry) => {
                    let keep = match entry.value {
                        DupFinderCacheEntry::Video(_) => true,
                        DupFinderCacheEntry::ProcessingError(_, _) => true,
                        _ => false,
                    };
                    if keep {
                        let p = keys[i].clone();
                        r.push(p);
                    }
                },
                Err(_) => {},
            }
            i = i + 1;
        }
        r
    }

    /// The cached paths whose entries hold a processing error.
    pub fn err_video_paths(&self) -> (r: Vec<String>)
        requires
            self.wf(),
        ensures
            forall|j: int|
                0 <= j < r@.len() ==> self.as_map().contains_key((#[trigger] r@[j])@)
                    && self.as_map()[r@[j]@].value is ProcessingError,
    {
        let keys = self.keys();
        let mut r: Vec<String> = Vec::new();
        let mut i: usize = 0;
        let n = keys.len();
        while i < n
            invariant
                self.wf(),
                n == keys@.len(),
                i <= n,
                forall|j: int|
                    0 <= j < keys@.len() ==> self.as_map().contains_key((#[trigger] keys@[j])@),
                forall|j: int|
                    0 <= j < r@.len() ==> self.as_map().contains_key((#[trigger] r@[j])@)
                        && self.as_map()[r@[j]@].value is ProcessingError,
            decreases n - i,
        {
            match self.0.get(&keys[i]) {
                Ok(entry) => {
                    match entry.value {
                        DupFinderCacheEntry::ProcessingError(_, _) => {
                            let p = keys[i].clone();
                            r.push(p);
                        },
                        _ => {},
                    }
                },
                Err(_) => {},
            }
            i = i + 1;
        }
        r
    }

    /// The cached paths recorded as not being videos.
    pub fn non_video_paths(&self) -> (r: Vec<String>)
        requires
            self.wf(),
        ensures
            forall|j: int|
                0 <= j < r@.len() ==> self.as_map().contains_key((#[trigger] r@[j])@)
                    && self.as_map()[r@[j]@].value is NotVideo,
    {
        let keys = self.keys();
        let mut r: Vec<String> = Vec::new();
        let mut i: usize = 0;
        let n = keys.len();
        while i < n
            invariant
                self.wf(),
                n == keys@.len(),
                i <= n,
                forall|j: int|
                    0 <= j < keys@.len() ==> self.as_map().contains_key((#[trigger] keys@[j])@),
                forall|j: int|
                    0 <= j < r@.len() ==> self.as_map().contains_key((#[trigger] r@[j])@)
                        && self.as_map()[r@[j]@].value is NotVideo,
            decreases n - i,
        {
            match self.0.get(&keys[i]) {
                Ok(entry) => {
                    match entry.value {
                        DupFinderCacheEntry::NotVideo => {
                            let p = keys[i].clone();
                            r.push(p);
                        },
                        _ => {},
                    }
                },
                Err(_) => {},
            }
            i = i + 1;
        }
        r
    }

    /// The first reconciliation step's removals: the cached keys the
    /// projection covers that are absent from `existing` — the covered
    /// paths the caller found present on disk — in cache order.
    pub fn keys_to_remove(&self, fs: &crate::file_set::FileSet, existing: &Vec<String>) -> (r: Vec<
        String,
    >)
        requires
            self.wf(),
        ensures
            r@.map_values(|p: String| p@) == spec_keys_to_remove(
                self.key_views(),
                fs.source_views(),
                fs.excl_views(),
                existing@.map_values(|p: String| p@),
                self.key_views().len() as int,
            ),
            forall|j: int|
                0 <= j < r@.len() ==> self.as_map().contains_key((#[trigger] r@[j])@),
    {
        let ghost kv = self.key_views();
        let ghost ev = existing@.map_values(|p: String| p@);
        let keys = self.keys();
        let mut r: Vec<String> = Vec::new();
        let mut i: usize = 0;
        let n = keys.len();
        while i < n
            invariant
                self.wf(),
                n == keys@.len(),
                i <= n,
                kv == self.key_views(),
                ev == existing@.map_values(|p: String| p@),
                keys@.map_values(|p: String| p@) == kv,
                forall|j: int|
                    0 <= j < keys@.len() ==> self.as_map().contains_key((#[trigger] keys@[j])@),
                r@.map_values(|p: String| p@) == spec_keys_to_remove(
                    kv,
                    fs.source_views(),
                    fs.excl_views(),
                    ev,
                    i as int,
                ),
                forall|j: int|
                    0 <= j < r@.len() ==> self.as_map().contains_key((#[trigger] r@[j])@),
            decreases n - i,
        {
            let ghost r_pre = r@.map_values(|p: String| p@);
            proof {
                assert(kv[i as int] == keys@[i as int]@);
            }
            if fs.includes(&keys[i]) && !path_list_contains(existing, &keys[i]) {
                let p = keys[i].clone();
                r.push(p);
                proof {
                    assert(r@.map_values(|q: String| q@) =~= r_pre.push(kv[i as int]));
                    assert(spec_keys_to_remove(kv, fs.source_views(), fs.excl_views(), ev, i + 1)
                        =~= r_pre.push(kv[i as int]));
                }
            } else {
                proof {
                    assert(spec_keys_to_remove(kv, fs.source_views(), fs.excl_views(), ev, i + 1)
                        =~= r_pre);
                }
            }
            i = i + 1;
        }
        r
    }
}

/// The reconciliation removals among the first `n` cached keys: those
/// under an include root, under no exclude root, and absent from the
/// list of paths found on disk.
pub open spec fn spec_keys_to_remove(
    keys: Seq<Seq<char>>,
    sources: Seq<Seq<char>>,
    excls: Seq<Seq<char>>,
    existing: Seq<Seq<char>>,
    n: int,
) -> Seq<Seq<char>>
    decreases n,
{
    if n <= 0 {
        Seq::empty()
    } else {
        spec_keys_to_remove(keys, sources, excls, existing, n - 1) + if crate::file_set::spec_any_ancestor(
            sources,
            keys[n - 1],
        ) && !crate::file_set::spec_any_ancestor(excls, keys[n - 1]) && !existing.contains(
            keys[n - 1],
        ) {
            seq![keys[n - 1]]
        } else {
            Seq::empty()
        }
    }
}

/// Whether a path list holds `cand`.
pub fn path_list_contains(list: &Vec<String>, cand: &String) -> (r: bool)
    ensures
        r == list@.map_values(|p: String| p@).contains(cand@),
{
    let mut i: usize = 0;
    let n = list.len();
    while i < n
        invariant
            n == list@.len(),
            i <= n,
            forall|j: int| 0 <= j < i ==> (#[trigger] list@[j])@ != cand@,
        decreases n - i,
    {
        if list[i] == *cand {
            proof {
                let lv = list@.map_values(|p: String| p@);
                assert(lv[i as int] == cand@);
                assert(lv.contains(cand@));
            }
            return true;
        }
        i = i + 1;
    }
    proof {
        let lv = list@.map_values(|p: String| p@);
        if lv.contains(cand@) {
            let j = choose|j: int| 0 <= j < lv.len() && lv[j] == cand@;
            assert(list@[j]@ == cand@);
        }
    }
    false
}

} // verus!
