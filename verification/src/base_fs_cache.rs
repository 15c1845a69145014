//! The keyed cache's in-memory map, its mutation counter and its
//! durable on-disk encoding.
//!
//! The map is an association list from absolute path to entry, with
//! unique keys; its contract speaks of the corresponding mathematical
//! map.  Every mutation bumps a counter; when the counter reaches the
//! save threshold it resets and the mutation reports that a batched
//! save fell due.  The cache serialises to a sequence of 64-bit words
//! (`spec_encode`), and decoding is proved to invert encoding exactly,
//! so a saved cache re-opens to the same entries.  The caller performs
//! the actual file I/O: write to a temporary file beside the cache
//! file, sync, then rename.

use vstd::prelude::*;

use crate::concrete_cachers::{CacheEntryView, CachedVideoData, DupFinderCacheEntry, ProcessingErrorKind};
use crate::temporal_hash::{HashView, TemporalHash};
use crate::video_stats::VideoStats;

verus! {

/// Why a cache operation failed.
#[derive(Debug, Clone)]
pub enum FsCacheErrorKind {
    /// The key is not in the cache.
    KeyMissingError(String),
    /// Reading or writing the cache file failed; the message names the
    /// underlying error.
    CacheFileIoError { src: String, path: String },
    /// The cache file's bytes do not decode to a cache.
    DeserializationError { src: String, path: String },
}

/// A cached value together with the filesystem mtime observed when it
/// was computed.
#[derive(Debug)]
pub struct MtimeCacheEntry {
    pub cache_mtime_secs: i64,
    pub value: DupFinderCacheEntry,
}

/// The mathematical content of a cached value.
pub struct MtimeEntryView {
    pub cache_mtime_secs: i64,
    pub value: CacheEntryView,
}

impl View for MtimeCacheEntry {
    type V = MtimeEntryView;

    open spec fn view(&self) -> MtimeEntryView {
        MtimeEntryView { cache_mtime_secs: self.cache_mtime_secs, value: self.value@ }
    }
}

impl Clone for MtimeCacheEntry {
    /// A clone carries the same mtime and entry.
    fn clone(&self) -> (r: Self)
        ensures
            r@ == self@,
    {
        MtimeCacheEntry { cache_mtime_secs: self.cache_mtime_secs, value: self.value.clone() }
    }
}

impl MtimeEntryView {
    pub open spec fn wf(self) -> bool {
        self.value.wf()
    }
}

/// The map an association list denotes: later pairs shadow earlier
/// ones, though well-formed caches keep their keys unique.
pub open spec fn assoc_map(s: Seq<(Seq<char>, MtimeEntryView)>) -> Map<Seq<char>, MtimeEntryView>
    decreases s.len(),
{
    if s.len() == 0 {
        Map::empty()
    } else {
        assoc_map(s.drop_last()).insert(s.last().0, s.last().1)
    }
}

/// Whether the pairs carry pairwise distinct keys.
pub open spec fn keys_unique(s: Seq<(Seq<char>, MtimeEntryView)>) -> bool {
    forall|i: int, j: int| 0 <= i < j < s.len() ==> (#[trigger] s[i]).0 != (#[trigger] s[j]).0
}

pub proof fn lemma_assoc_contains(s: Seq<(Seq<char>, MtimeEntryView)>, k: Seq<char>)
    ensures
        assoc_map(s).contains_key(k) <==> exists|j: int| 0 <= j < s.len() && (#[trigger] s[j]).0
            == k,
    decreases s.len(),
{
    if s.len() > 0 {
        lemma_assoc_contains(s.drop_last(), k);
        if s.last().0 == k {
            assert(s[s.len() - 1].0 == k);
        } else {
            if assoc_map(s).contains_key(k) {
                let j = choose|j: int| 0 <= j < s.drop_last().len() && (#[trigger] s.drop_last()[j]).0 == k;
                assert(s[j].0 == k);
            }
            if exists|j: int| 0 <= j < s.len() && (#[trigger] s[j]).0 == k {
                let j = choose|j: int| 0 <= j < s.len() && (#[trigger] s[j]).0 == k;
                assert(j < s.len() - 1);
                assert(s.drop_last()[j].0 == k);
            }
        }
    }
}

pub proof fn lemma_assoc_get(s: Seq<(Seq<char>, MtimeEntryView)>, j: int)
    requires
        keys_unique(s),
        0 <= j < s.len(),
    ensures
        assoc_map(s).contains_key(s[j].0),
        assoc_map(s)[s[j].0] == s[j].1,
    decreases s.len(),
{
    lemma_assoc_contains(s, s[j].0);
    if j == s.len() - 1 {
    } else {
        assert(keys_unique(s.drop_last()));
        assert(s.drop_last()[j] == s[j]);
        lemma_assoc_get(s.drop_last(), j);
        assert(s.last().0 != s[j].0);
    }
}

pub proof fn lemma_assoc_update(
    s: Seq<(Seq<char>, MtimeEntryView)>,
    j: int,
    v: MtimeEntryView,
)
    requires
        keys_unique(s),
        0 <= j < s.len(),
    ensures
        assoc_map(s.update(j, (s[j].0, v))) == assoc_map(s).insert(s[j].0, v),
        keys_unique(s.update(j, (s[j].0, v))),
    decreases s.len(),
{
    let t = s.update(j, (s[j].0, v));
    assert forall|a: int, b: int| 0 <= a < b < t.len() implies (#[trigger] t[a]).0 != (
    #[trigger] t[b]).0 by {
        assert(t[a].0 == s[a].0 && t[b].0 == s[b].0);
        assert(s[a].0 != s[b].0);
    }
    if j == s.len() - 1 {
        assert(t.drop_last() =~= s.drop_last());
        assert(t.last() == (s[j].0, v));
    } else {
        assert(keys_unique(s.drop_last()));
        assert(s.drop_last()[j] == s[j]);
        lemma_assoc_update(s.drop_last(), j, v);
        assert(t.drop_last() =~= s.drop_last().update(j, (s[j].0, v)));
        assert(t.last() == s.last());
        assert(s.last().0 != s[j].0);
        assert(assoc_map(t) =~= assoc_map(s).insert(s[j].0, v));
    }
}

pub proof fn lemma_assoc_remove(s: Seq<(Seq<char>, MtimeEntryView)>, j: int)
    requires
        keys_unique(s),
        0 <= j < s.len(),
    ensures
        assoc_map(s.remove(j)) == assoc_map(s).remove(s[j].0),
        keys_unique(s.remove(j)),
    decreases s.len(),
{
    let t = s.remove(j);
    assert forall|a: int, b: int| 0 <= a < b < t.len() implies (#[trigger] t[a]).0 != (
    #[trigger] t[b]).0 by {
        let sa = if a < j { a } else { a + 1 };
        let sb = if b < j { b } else { b + 1 };
        assert(t[a].0 == s[sa].0 && t[b].0 == s[sb].0);
        assert(s[sa].0 != s[sb].0);
    }
    if j == s.len() - 1 {
        assert(t =~= s.drop_last());
        lemma_assoc_contains(s.drop_last(), s[j].0);
        assert forall|i: int| 0 <= i < s.drop_last().len() implies (#[trigger] s.drop_last()[i]).0
            != s[j].0 by {
            assert(s[i].0 != s[j].0);
        }
        assert(!assoc_map(s.drop_last()).contains_key(s[j].0));
        assert(assoc_map(t) =~= assoc_map(s).remove(s[j].0));
    } else {
        assert(keys_unique(s.drop_last()));
        assert(s.drop_last()[j] == s[j]);
        lemma_assoc_remove(s.drop_last(), j);
        assert(t.drop_last() =~= s.drop_last().remove(j));
        assert(t.last() == s.last());
        assert(s.last().0 != s[j].0);
        assert(assoc_map(t) =~= assoc_map(s).remove(s[j].0));
    }
}

/// The in-memory cache map with its batched-save bookkeeping.
pub struct BaseFsCache {
    pub cache_save_threshold: u32,
    pub cache_modified_count: u32,
    pub cache_path: String,
    pub entries: Vec<(String, MtimeCacheEntry)>,
}

impl BaseFsCache {
    /// The cached pairs as mathematical values, in insertion order.
    pub open spec fn entry_views(&self) -> Seq<(Seq<char>, MtimeEntryView)> {
        self.entries@.map_values(|p: (String, MtimeCacheEntry)| (p.0@, p.1@))
    }

    pub open spec fn as_map(&self) -> Map<Seq<char>, MtimeEntryView> {
        assoc_map(self.entry_views())
    }

    pub open spec fn wf(&self) -> bool {
        &&& keys_unique(self.entry_views())
        &&& forall|j: int| 0 <= j < self.entry_views().len() ==> (#[trigger] self.entry_views()[j]).1.wf()
    }

    /// An empty cache that will batch a save after `cache_save_threshold`
    /// mutations.
    pub fn new(cache_save_threshold: u32, cache_path: String) -> (r: Self)
        ensures
            r.wf(),
            r.as_map() == Map::<Seq<char>, MtimeEntryView>::empty(),
            r.entry_views() == Seq::<(Seq<char>, MtimeEntryView)>::empty(),
            r.cache_modified_count == 0,
            r.cache_save_threshold == cache_save_threshold,
            r.cache_path@ == cache_path@,
    {
        let r = BaseFsCache {
            cache_save_threshold,
            cache_modified_count: 0,
            cache_path,
            entries: Vec::new(),
        };
        proof {
            assert(r.entry_views() =~= Seq::<(Seq<char>, MtimeEntryView)>::empty());
        }
        r
    }

    /// The position of `key` in the association list, if present.
    fn find(&self, key: &String) -> (r: Option<usize>)
        ensures
            r matches Some(j) ==> j < self.entry_views().len() && self.entry_views()[j as int].0
                == key@,
            r is None ==> forall|j: int|
                0 <= j < self.entry_views().len() ==> (#[trigger] self.entry_views()[j]).0 != key@,
    {
        let mut i: usize = 0;
        let n = self.entries.len();
        while i < n
            invariant
                i <= n,
                n == self.entries@.len(),
                forall|j: int| 0 <= j < i ==> (#[trigger] self.entry_views()[j]).0 != key@,
            decreases n - i,
        {
            if self.entries[i].0 == *key {
                proof {
                    assert(self.entry_views()[i as int].0 == self.entries@[i as int].0@);
                }
                return Some(i);
            }
            proof {
                assert(self.entry_views()[i as int].0 == self.entries@[i as int].0@);
            }
            i = i + 1;
        }
        None
    }

    /// Bump the mutation counter; when it reaches the threshold it wraps
    /// to zero and a batched save falls due.
    fn bump_counter(&mut self) -> (save_due: bool)
        ensures
            final(self).entries@ == old(self).entries@,
            final(self).cache_save_threshold == old(self).cache_save_threshold,
            final(self).cache_path == old(self).cache_path,
            save_due == (old(self).cache_modified_count + 1 >= old(self).cache_save_threshold),
            final(self).cache_modified_count == if save_due {
                0int
            } else {
                old(self).cache_modified_count + 1
            },
    {
        let due = self.cache_save_threshold == 0 || self.cache_modified_count
            >= self.cache_save_threshold - 1;
        if due {
            self.cache_modified_count = 0;
        } else {
            self.cache_modified_count = self.cache_modified_count + 1;
        }
        due
    }

    /// Insert or replace the entry for `key`.  Returns whether a batched
    /// save fell due.
    pub fn insert(&mut self, key: String, item: MtimeCacheEntry) -> (save_due: bool)
        requires
            old(self).wf(),
            item@.wf(),
        ensures
            final(self).wf(),
            final(self).as_map() == old(self).as_map().insert(key@, item@),
    {
        let found = self.find(&key);
        match found {
            Some(j) => {
                let ghost views0 = self.entry_views();
                proof {
                    lemma_assoc_update(views0, j as int, item@);
                }
                self.entries.set(j, (key, item));
                proof {
                    assert(self.entry_views() =~= views0.update(
                        j as int,
                        (views0[j as int].0, item@),
                    ));
                }
            },
            None => {
                let ghost views0 = self.entry_views();
                proof {
                    lemma_assoc_contains(views0, key@);
                }
                self.entries.push((key, item));
                proof {
                    assert(self.entry_views() =~= views0.push((key@, item@)));
                    assert(self.entry_views().drop_last() =~= views0);
                }
            },
        }
        self.bump_counter()
    }

    /// Forget the entry for `key`, if any.  Returns whether a batched
    /// save fell due.
    pub fn remove(&mut self, key: &String) -> (save_due: bool)
        requires
            old(self).wf(),
        ensures
            final(self).wf(),
            final(self).as_map() == old(self).as_map().remove(key@),
    {
        let found = self.find(key);
        match found {
            Some(j) => {
                let ghost views0 = self.entry_views();
                proof {
                    lemma_assoc_remove(views0, j as int);
                }
                self.entries.remove(j);
                proof {
                    assert(self.entry_views() =~= views0.remove(j as int));
                }
            },
            None => {
                proof {
                    lemma_assoc_contains(self.entry_views(), key@);
                    assert(!self.as_map().contains_key(key@));
                    assert(self.as_map() =~= self.as_map().remove(key@));
                }
            },
        }
        self.bump_counter()
    }

    /// A clone of the entry for `key`, or `KeyMissingError`.
    pub fn get(&self, key: &String) -> (r: Result<MtimeCacheEntry, FsCacheErrorKind>)
        requires
            self.wf(),
        ensures
            r matches Ok(v) <==> self.as_map().contains_key(key@),
            r matches Ok(v) ==> v@ == self.as_map()[key@] && v@.wf(),
            r matches Err(e) ==> e is KeyMissingError,
    {
        let found = self.find(key);
        match found {
            Some(j) => {
                proof {
                    lemma_assoc_get(self.entry_views(), j as int);
                }
                Ok(self.entries[j].1.clone())
            },
            None => {
                proof {
                    lemma_assoc_contains(self.entry_views(), key@);
                }
                Err(FsCacheErrorKind::KeyMissingError(key.clone()))
            },
        }
    }

    pub fn contains_key(&self, key: &String) -> (r: bool)
        requires
            self.wf(),
        ensures
            r == self.as_map().contains_key(key@),
    {
        let found = self.find(key);
        proof {
            lemma_assoc_contains(self.entry_views(), key@);
        }
        match found {
            Some(_) => true,
            None => false,
        }
    }

    /// A snapshot of the keys, in insertion order.
    pub fn keys(&self) -> (r: Vec<String>)
        requires
            self.wf(),
        ensures
            r@.map_values(|p: String| p@) == self.entry_views().map_values(
                |p: (Seq<char>, MtimeEntryView)| p.0,
            ),
            forall|j: int| 0 <= j < r@.len() ==> self.as_map().contains_key(#[trigger] r@[j]@),
    {
        let mut r: Vec<String> = Vec::new();
        let mut i: usize = 0;
        let n = self.entries.len();
        while i < n
            invariant
                self.wf(),
                i <= n,
                n == self.entries@.len(),
                r@.len() == i,
                forall|j: int| 0 <= j < i ==> (#[trigger] r@[j])@ == self.entry_views()[j].0,
            decreases n - i,
        {
            r.push(self.entries[i].0.clone());
            proof {
                assert(self.entry_views()[i as int].0 == self.entries@[i as int].0@);
            }
            i = i + 1;
        }
        proof {
            assert(r@.map_values(|p: String| p@) =~= self.entry_views().map_values(
                |p: (Seq<char>, MtimeEntryView)| p.0,
            ));
            assert forall|j: int| 0 <= j < r@.len() implies self.as_map().contains_key(
                #[trigger] r@[j]@,
            ) by {
                lemma_assoc_get(self.entry_views(), j);
            }
        }
        r
    }

    pub fn len(&self) -> (r: usize)
        ensures
            r == self.entry_views().len(),
    {
        self.entries.len()
    }
}

// ----------------------------------------------------------------------
// The durable encoding: a version word, an entry count, then each entry
// in order.  Strings are a length word followed by one word per
// character; a fingerprint is its frame count, its twenty table words
// and its path; stats are seven words.
// ----------------------------------------------------------------------

/// Format tag written as the first word of every cache file.
pub const CACHE_FORMAT_VERSION: u64 = 1;

pub open spec fn enc_str(s: Seq<char>) -> Seq<u64> {
    seq![s.len() as u64] + s.map_values(|c: char| (c as u32) as u64)
}

pub open spec fn enc_kind(k: ProcessingErrorKind) -> u64 {
    match k {
        ProcessingErrorKind::DecoderFailed => 0u64,
        ProcessingErrorKind::NoFramesDecoded => 1u64,
        ProcessingErrorKind::EmptyHash => 2u64,
        ProcessingErrorKind::ImgConversion => 3u64,
        ProcessingErrorKind::ProbeJsonParse => 4u64,
        ProcessingErrorKind::ProbeIntParse => 5u64,
        ProcessingErrorKind::ProbeFloatParse => 6u64,
    }
}

pub open spec fn enc_stats(v: VideoStats) -> Seq<u64> {
    seq![
        v.duration_millis,
        v.size,
        v.bit_rate as u64,
        v.resolution.0 as u64,
        v.resolution.1 as u64,
        (if v.has_audio { 1u64 } else { 0u64 }),
        v.png_size as u64,
    ]
}

pub open spec fn enc_hash(h: HashView) -> Seq<u64> {
    seq![h.num_frames as u64] + h.shash + h.thash + enc_str(h.src_path)
}

pub open spec fn enc_value(v: CacheEntryView) -> Seq<u64> {
    match v {
        CacheEntryView::NotVideo => seq![0u64],
        CacheEntryView::ShortVideo => seq![1u64],
        CacheEntryView::Video(h, st) => seq![2u64] + enc_hash(h) + enc_stats(st),
        CacheEntryView::ProcessingError(k, m) => seq![3u64, enc_kind(k)] + enc_str(m),
    }
}

pub open spec fn enc_entry(k: Seq<char>, e: MtimeEntryView) -> Seq<u64> {
    enc_str(k) + seq![e.cache_mtime_secs as u64] + enc_value(e.value)
}

pub open spec fn enc_entries(s: Seq<(Seq<char>, MtimeEntryView)>) -> Seq<u64>
    decreases s.len(),
{
    if s.len() == 0 {
        Seq::empty()
    } else {
        enc_entry(s[0].0, s[0].1) + enc_entries(s.drop_first())
    }
}

pub open spec fn spec_encode(s: Seq<(Seq<char>, MtimeEntryView)>) -> Seq<u64> {
    seq![CACHE_FORMAT_VERSION, s.len() as u64] + enc_entries(s)
}

/// Whether a string's length fits the length word.
pub open spec fn str_encodable(s: Seq<char>) -> bool {
    s.len() <= 0xFFFF_FFFF_FFFF_FFFF
}

pub open spec fn entry_encodable(k: Seq<char>, e: MtimeEntryView) -> bool {
    &&& str_encodable(k)
    &&& e.wf()
    &&& match e.value {
        CacheEntryView::Video(h, _) => str_encodable(h.src_path),
        CacheEntryView::ProcessingError(_, m) => str_encodable(m),
        _ => true,
    }
}

/// Whether a whole cache state can be written out faithfully.
pub open spec fn encodable(s: Seq<(Seq<char>, MtimeEntryView)>) -> bool {
    &&& s.len() <= 0xFFFF_FFFF_FFFF_FFFF
    &&& keys_unique(s)
    &&& forall|j: int| 0 <= j < s.len() ==> entry_encodable((#[trigger] s[j]).0, s[j].1)
}

// ----------------------------------------------------------------------
// The decoder, as a mathematical function; `from_words` follows it.
// ----------------------------------------------------------------------

/// Whether a word holds a Unicode scalar value.
pub open spec fn valid_char_word(w: u64) -> bool {
    w < 0xD800 || (0xE000 <= w && w <= 0x10FFFF)
}

pub open spec fn dec_str(words: Seq<u64>, pos: int) -> Option<(Seq<char>, int)> {
    if 0 <= pos < words.len() {
        let n = words[pos] as int;
        if pos + 1 + n <= words.len() && (forall|i: int|
            0 <= i < n ==> valid_char_word(#[trigger] words[pos + 1 + i])) {
            Some((Seq::new(n as nat, |i: int| (words[pos + 1 + i] as u32) as char), pos + 1 + n))
        } else {
            None
        }
    } else {
        None
    }
}

pub open spec fn dec_stats(words: Seq<u64>, pos: int) -> Option<(VideoStats, int)> {
    if 0 <= pos && pos + 7 <= words.len() {
        let d = words[pos];
        let sz = words[pos + 1];
        let br = words[pos + 2];
        let w = words[pos + 3];
        let h = words[pos + 4];
        let au = words[pos + 5];
        let pn = words[pos + 6];
        if d <= 0xFFFF_FFFF_FFFF && br <= u32::MAX && w <= u32::MAX && h <= u32::MAX && au <= 1
            && pn <= u32::MAX {
            Some(
                (
                    VideoStats {
                        duration_millis: d,
                        size: sz,
                        bit_rate: br as u32,
                        resolution: (w as u32, h as u32),
                        has_audio: au == 1,
                        png_size: pn as u32,
                    },
                    pos + 7,
                ),
            )
        } else {
            None
        }
    } else {
        None
    }
}

pub open spec fn dec_kind(w: u64) -> Option<ProcessingErrorKind> {
    if w == 0 {
        Some(ProcessingErrorKind::DecoderFailed)
    } else if w == 1 {
        Some(ProcessingErrorKind::NoFramesDecoded)
    } else if w == 2 {
        Some(ProcessingErrorKind::EmptyHash)
    } else if w == 3 {
        Some(ProcessingErrorKind::ImgConversion)
    } else if w == 4 {
        Some(ProcessingErrorKind::ProbeJsonParse)
    } else if w == 5 {
        Some(ProcessingErrorKind::ProbeIntParse)
    } else if w == 6 {
        Some(ProcessingErrorKind::ProbeFloatParse)
    } else {
        None
    }
}

pub open spec fn dec_hash(words: Seq<u64>, pos: int) -> Option<(HashView, int)> {
    if 0 <= pos && pos + 20 <= words.len() && words[pos] <= 10 {
        let nf = words[pos];
        let sh = words.subrange(pos + 1, pos + 11);
        let th = words.subrange(pos + 11, pos + 20);
        match dec_str(words, pos + 20) {
            Some(p) => {
                let hv = HashView {
                    thash: th,
                    shash: sh,
                    num_frames: nf as u32,
                    src_path: p.0,
                };
                if hv.wf() {
                    Some((hv, p.1))
                } else {
                    None
                }
            },
            None => None,
        }
    } else {
        None
    }
}

pub open spec fn dec_value(words: Seq<u64>, pos: int) -> Option<(CacheEntryView, int)> {
    if 0 <= pos < words.len() {
        let tag = words[pos];
        if tag == 0 {
            Some((CacheEntryView::NotVideo, pos + 1))
        } else if tag == 1 {
            Some((CacheEntryView::ShortVideo, pos + 1))
        } else if tag == 2 {
            match dec_hash(words, pos + 1) {
                Some(p) => match dec_stats(words, p.1) {
                    Some(q) => Some((CacheEntryView::Video(p.0, q.0), q.1)),
                    None => None,
                },
                None => None,
            }
        } else if tag == 3 {
            if pos + 2 <= words.len() {
                match dec_kind(words[pos + 1]) {
                    Some(k) => match dec_str(words, pos + 2) {
                        Some(p) => Some((CacheEntryView::ProcessingError(k, p.0), p.1)),
                        None => None,
                    },
                    None => None,
                }
            } else {
                None
            }
        } else {
            None
        }
    } else {
        None
    }
}

pub open spec fn dec_entry(words: Seq<u64>, pos: int) -> Option<
    ((Seq<char>, MtimeEntryView), int),
> {
    match dec_str(words, pos) {
        Some(kp) => {
            if kp.1 < words.len() {
                let mt = words[kp.1] as i64;
                match dec_value(words, kp.1 + 1) {
                    Some(vp) => Some(
                        ((kp.0, MtimeEntryView { cache_mtime_secs: mt, value: vp.0 }), vp.1),
                    ),
                    None => None,
                }
            } else {
                None
            }
        },
        None => None,
    }
}

pub open spec fn dec_entries(words: Seq<u64>, pos: int, count: nat) -> Option<
    (Seq<(Seq<char>, MtimeEntryView)>, int),
>
    decreases count,
{
    if count == 0 {
        Some((Seq::empty(), pos))
    } else {
        match dec_entry(words, pos) {
            Some(p) => match dec_entries(words, p.1, (count - 1) as nat) {
                Some(q) => Some((seq![p.0] + q.0, q.1)),
                None => None,
            },
            None => None,
        }
    }
}

pub open spec fn spec_decode(words: Seq<u64>) -> Option<Seq<(Seq<char>, MtimeEntryView)>> {
    if words.len() >= 2 && words[0] == CACHE_FORMAT_VERSION {
        match dec_entries(words, 2, words[1] as nat) {
            Some(p) => {
                if p.1 == words.len() && keys_unique(p.0) {
                    Some(p.0)
                } else {
                    None
                }
            },
            None => None,
        }
    } else {
        None
    }
}

// ----------------------------------------------------------------------
// Decoding inverts encoding.
// ----------------------------------------------------------------------

proof fn lemma_dec_str_enc(words: Seq<u64>, pos: int, s: Seq<char>)
    requires
        0 <= pos,
        str_encodable(s),
        pos + enc_str(s).len() <= words.len(),
        words.subrange(pos, pos + enc_str(s).len() as int) == enc_str(s),
    ensures
        dec_str(words, pos) == Some((s, pos + enc_str(s).len())),
{
    let e = enc_str(s);
    assert(e.len() == 1 + s.len());
    assert(words[pos] == e[0]);
    assert(e[0] == s.len() as u64);
    let n = words[pos] as int;
    assert(n == s.len());
    assert forall|i: int| 0 <= i < n implies valid_char_word(#[trigger] words[pos + 1 + i]) by {
        assert(words[pos + 1 + i] == e[1 + i]);
        assert(e[1 + i] == s.map_values(|c: char| (c as u32) as u64)[i]);
        let c = s[i];
        assert(e[1 + i] == (c as u32) as u64);
        vstd::utf8::char_is_scalar(c);
        assert(vstd::utf8::is_scalar(c as u32));
        assert(valid_char_word((c as u32) as u64));
    }
    let dec = Seq::new(n as nat, |i: int| (words[pos + 1 + i] as u32) as char);
    assert forall|i: int| 0 <= i < n implies dec[i] == s[i] by {
        assert(words[pos + 1 + i] == e[1 + i]);
        let c = s[i];
        assert(e[1 + i] == (c as u32) as u64);
        assert(((c as u32) as u64) as u32 == c as u32);
        vstd::utf8::char_u32_cast(c, c as u32);
    }
    assert(dec =~= s);
}

proof fn lemma_dec_stats_enc(words: Seq<u64>, pos: int, v: VideoStats)
    requires
        0 <= pos,
        v.wf(),
        pos + 7 <= words.len(),
        words.subrange(pos, pos + 7) == enc_stats(v),
    ensures
        dec_stats(words, pos) == Some((v, pos + 7)),
{
    let e = enc_stats(v);
    assert(words[pos] == e[0] && words[pos + 1] == e[1] && words[pos + 2] == e[2] && words[pos + 3]
        == e[3] && words[pos + 4] == e[4] && words[pos + 5] == e[5] && words[pos + 6] == e[6]);
    assert(dec_stats(words, pos) matches Some(p) && p.0 == v && p.1 == pos + 7);
}

proof fn lemma_dec_hash_enc(words: Seq<u64>, pos: int, h: HashView)
    requires
        0 <= pos,
        h.wf(),
        str_encodable(h.src_path),
        pos + enc_hash(h).len() <= words.len(),
        words.subrange(pos, pos + enc_hash(h).len() as int) == enc_hash(h),
    ensures
        dec_hash(words, pos) == Some((h, pos + enc_hash(h).len())),
{
    let e = enc_hash(h);
    let ab = seq![h.num_frames as u64] + h.shash;
    let abc = ab + h.thash;
    assert(e =~= abc + enc_str(h.src_path));
    assert(e.len() == 20 + enc_str(h.src_path).len());
    assert(words[pos] == e[0]);
    assert(e[0] == abc[0] && abc[0] == ab[0]);
    assert(e[0] == h.num_frames as u64);
    assert forall|k: int| 0 <= k < 10 implies words[pos + 1 + k] == h.shash[k] by {
        assert(words[pos + 1 + k] == e[1 + k]);
        assert(e[1 + k] == abc[1 + k]);
        assert(abc[1 + k] == ab[1 + k]);
        assert(ab[1 + k] == h.shash[k]);
    }
    assert forall|k: int| 0 <= k < 9 implies words[pos + 11 + k] == h.thash[k] by {
        assert(words[pos + 11 + k] == e[11 + k]);
        assert(e[11 + k] == abc[11 + k]);
        assert(abc[11 + k] == h.thash[k]);
    }
    assert(words.subrange(pos + 1, pos + 11) =~= h.shash);
    assert(words.subrange(pos + 11, pos + 20) =~= h.thash);
    assert forall|k: int| 0 <= k < enc_str(h.src_path).len() implies words[pos + 20 + k]
        == enc_str(h.src_path)[k] by {
        assert(words[pos + 20 + k] == e[20 + k]);
        assert(e[20 + k] == enc_str(h.src_path)[k]);
    }
    assert(words.subrange(pos + 20, pos + 20 + enc_str(h.src_path).len() as int) =~= enc_str(
        h.src_path,
    ));
    lemma_dec_str_enc(words, pos + 20, h.src_path);
    let hv = HashView {
        thash: words.subrange(pos + 11, pos + 20),
        shash: words.subrange(pos + 1, pos + 11),
        num_frames: words[pos] as u32,
        src_path: h.src_path,
    };
    assert(hv =~= h);
}

proof fn lemma_dec_value_enc(words: Seq<u64>, pos: int, v: CacheEntryView)
    requires
        0 <= pos,
        v.wf(),
        match v {
            CacheEntryView::Video(h, _) => str_encodable(h.src_path),
            CacheEntryView::ProcessingError(_, m) => str_encodable(m),
            _ => true,
        },
        pos + enc_value(v).len() <= words.len(),
        words.subrange(pos, pos + enc_value(v).len() as int) == enc_value(v),
    ensures
        dec_value(words, pos) == Some((v, pos + enc_value(v).len())),
{
    let e = enc_value(v);
    assert(words[pos] == e[0]);
    match v {
        CacheEntryView::NotVideo => {
        },
        CacheEntryView::ShortVideo => {
        },
        CacheEntryView::Video(h, st) => {
            let ab = seq![2u64] + enc_hash(h);
            assert(e =~= ab + enc_stats(st));
            assert(e[0] == ab[0] && ab[0] == 2);
            assert forall|k: int| 0 <= k < enc_hash(h).len() implies words[pos + 1 + k]
                == enc_hash(h)[k] by {
                assert(words[pos + 1 + k] == e[1 + k]);
                assert(e[1 + k] == ab[1 + k]);
                assert(ab[1 + k] == enc_hash(h)[k]);
            }
            assert(words.subrange(pos + 1, pos + 1 + enc_hash(h).len() as int) =~= enc_hash(h));
            lemma_dec_hash_enc(words, pos + 1, h);
            let q = pos + 1 + enc_hash(h).len();
            assert forall|k: int| 0 <= k < 7 implies words[q + k] == enc_stats(st)[k] by {
                assert(words[q + k] == e[1 + enc_hash(h).len() + k]);
                assert(e[1 + enc_hash(h).len() + k] == enc_stats(st)[k]);
            }
            assert(words.subrange(q, q + 7) =~= enc_stats(st));
            lemma_dec_stats_enc(words, q, st);
        },
        CacheEntryView::ProcessingError(k, m) => {
            let ab = seq![3u64, enc_kind(k)];
            assert(e =~= ab + enc_str(m));
            assert(e[0] == 3);
            assert(words[pos + 1] == e[1]);
            assert(e[1] == enc_kind(k));
            assert(dec_kind(enc_kind(k)) == Some(k));
            assert forall|j: int| 0 <= j < enc_str(m).len() implies words[pos + 2 + j] == enc_str(
                m,
            )[j] by {
                assert(words[pos + 2 + j] == e[2 + j]);
                assert(e[2 + j] == enc_str(m)[j]);
            }
            assert(words.subrange(pos + 2, pos + 2 + enc_str(m).len() as int) =~= enc_str(m));
            lemma_dec_str_enc(words, pos + 2, m);
        },
    }
}

proof fn lemma_dec_entry_enc(words: Seq<u64>, pos: int, k: Seq<char>, e: MtimeEntryView)
    requires
        0 <= pos,
        entry_encodable(k, e),
        pos + enc_entry(k, e).len() <= words.len(),
        words.subrange(pos, pos + enc_entry(k, e).len() as int) == enc_entry(k, e),
    ensures
        dec_entry(words, pos) == Some(((k, e), pos + enc_entry(k, e).len())),
{
    let full = enc_entry(k, e);
    let ab = enc_str(k) + seq![e.cache_mtime_secs as u64];
    assert(full =~= ab + enc_value(e.value));
    assert forall|j: int| 0 <= j < enc_str(k).len() implies words[pos + j] == enc_str(k)[j] by {
        assert(words[pos + j] == full[j]);
        assert(full[j] == ab[j]);
        assert(ab[j] == enc_str(k)[j]);
    }
    assert(words.subrange(pos, pos + enc_str(k).len() as int) =~= enc_str(k));
    lemma_dec_str_enc(words, pos, k);
    let q = pos + enc_str(k).len();
    assert(words[q] == full[enc_str(k).len() as int]);
    assert(full[enc_str(k).len() as int] == ab[enc_str(k).len() as int]);
    assert(ab[enc_str(k).len() as int] == e.cache_mtime_secs as u64);
    let mt = e.cache_mtime_secs;
    assert((mt as u64) as i64 == mt) by (bit_vector);
    assert forall|j: int| 0 <= j < enc_value(e.value).len() implies words[q + 1 + j] == enc_value(
        e.value,
    )[j] by {
        assert(words[q + 1 + j] == full[enc_str(k).len() + 1 + j]);
        assert(full[enc_str(k).len() + 1 + j] == enc_value(e.value)[j]);
    }
    assert(words.subrange(q + 1, q + 1 + enc_value(e.value).len() as int) =~= enc_value(e.value));
    lemma_dec_value_enc(words, q + 1, e.value);
}

proof fn lemma_dec_entries_enc(words: Seq<u64>, pos: int, s: Seq<(Seq<char>, MtimeEntryView)>)
    requires
        0 <= pos,
        forall|j: int| 0 <= j < s.len() ==> entry_encodable((#[trigger] s[j]).0, s[j].1),
        pos + enc_entries(s).len() <= words.len(),
        words.subrange(pos, pos + enc_entries(s).len() as int) == enc_entries(s),
    ensures
        dec_entries(words, pos, s.len()) == Some((s, pos + enc_entries(s).len())),
    decreases s.len(),
{
    if s.len() == 0 {
        assert(s =~= Seq::<(Seq<char>, MtimeEntryView)>::empty());
    } else {
        let head = enc_entry(s[0].0, s[0].1);
        let rest = s.drop_first();
        assert(enc_entries(s) == head + enc_entries(rest));
        assert forall|j: int| 0 <= j < head.len() implies words[pos + j] == head[j] by {
            assert(words[pos + j] == enc_entries(s)[j]);
            assert(enc_entries(s)[j] == head[j]);
        }
        assert(words.subrange(pos, pos + head.len() as int) =~= head);
        lemma_dec_entry_enc(words, pos, s[0].0, s[0].1);
        let q = pos + head.len();
        assert forall|j: int| 0 <= j < enc_entries(rest).len() implies words[q + j] == enc_entries(
            rest,
        )[j] by {
            assert(words[q + j] == enc_entries(s)[head.len() + j]);
            assert(enc_entries(s)[head.len() + j] == enc_entries(rest)[j]);
        }
        assert(words.subrange(q, q + enc_entries(rest).len() as int) =~= enc_entries(rest));
        lemma_dec_entries_enc(words, q, rest);
        assert(seq![s[0]] + rest =~= s);
    }
}

/// Round trip: a cache state that can be written out decodes back to
/// exactly the same keys and entries.
pub proof fn theorem_cache_round_trip(s: Seq<(Seq<char>, MtimeEntryView)>)
    requires
        encodable(s),
    ensures
        spec_decode(spec_encode(s)) == Some(s),
{
    let words = spec_encode(s);
    assert(words[0] == CACHE_FORMAT_VERSION);
    assert(words[1] == s.len() as u64);
    assert(words[1] as nat == s.len());
    assert(words.subrange(2, 2 + enc_entries(s).len() as int) =~= enc_entries(s));
    lemma_dec_entries_enc(words, 2, s);
    assert(2 + enc_entries(s).len() == words.len());
}

// ----------------------------------------------------------------------
// Executable encoding.
// ----------------------------------------------------------------------

fn push_str_words(out: &mut Vec<u64>, s: &String)
    ensures
        final(out)@ == old(out)@ + enc_str(s@),
{
    let n = s.as_str().unicode_len();
    out.push(n as u64);
    let mut i: usize = 0;
    while i < n
        invariant
            n == s@.len(),
            i <= n,
            out@ == old(out)@ + seq![n as u64] + s@.take(i as int).map_values(
                |c: char| (c as u32) as u64,
            ),
        decreases n - i,
    {
        let c = s.as_str().get_char(i);
        out.push((c as u32) as u64);
        proof {
            assert(s@.take(i + 1).map_values(|c: char| (c as u32) as u64) =~= s@.take(
                i as int,
            ).map_values(|c: char| (c as u32) as u64).push((s@[i as int] as u32) as u64));
        }
        i = i + 1;
    }
    proof {
        assert(s@.take(n as int) =~= s@);
        assert(out@ =~= old(out)@ + enc_str(s@));
    }
}

fn push_value_words(out: &mut Vec<u64>, v: &DupFinderCacheEntry)
    requires
        v@.wf(),
    ensures
        final(out)@ == old(out)@ + enc_value(v@),
{
    match v {
        DupFinderCacheEntry::NotVideo => {
            out.push(0);
            proof {
                assert(out@ =~= old(out)@ + enc_value(v@));
            }
        },
        DupFinderCacheEntry::ShortVideo => {
            out.push(1);
            proof {
                assert(out@ =~= old(out)@ + enc_value(v@));
            }
        },
        DupFinderCacheEntry::Video(d) => {
            out.push(2);
            out.push(d.hash.num_frames as u64);
            let mut k: usize = 0;
            while k < d.hash.shash.len()
                invariant
                    d.hash@.wf(),
                    k <= d.hash.shash@.len(),
                    out@ == old(out)@ + seq![2u64, d.hash@.num_frames as u64] + d.hash.shash@.take(
                        k as int,
                    ).map_values(|w: u64| w),
                decreases d.hash.shash@.len() - k,
            {
                out.push(d.hash.shash[k]);
                proof {
                    assert(d.hash.shash@.take(k + 1).map_values(|w: u64| w)
                        =~= d.hash.shash@.take(k as int).map_values(|w: u64| w).push(
                        d.hash.shash@[k as int],
                    ));
                }
                k = k + 1;
            }
            proof {
                assert(d.hash.shash@.take(d.hash.shash@.len() as int).map_values(|w: u64| w)
                    =~= d.hash@.shash);
            }
            let mut k: usize = 0;
            while k < d.hash.thash.len()
                invariant
                    d.hash@.wf(),
                    k <= d.hash.thash@.len(),
                    out@ == old(out)@ + seq![2u64, d.hash@.num_frames as u64] + d.hash@.shash
                        + d.hash.thash@.take(k as int).map_values(|w: u64| w),
                decreases d.hash.thash@.len() - k,
            {
                out.push(d.hash.thash[k]);
                proof {
                    assert(d.hash.thash@.take(k + 1).map_values(|w: u64| w)
                        =~= d.hash.thash@.take(k as int).map_values(|w: u64| w).push(
                        d.hash.thash@[k as int],
                    ));
                }
                k = k + 1;
            }
            proof {
                assert(d.hash.thash@.take(d.hash.thash@.len() as int).map_values(|w: u64| w)
                    =~= d.hash@.thash);
            }
            push_str_words(out, &d.hash.src_path);
            out.push(d.stats.duration_millis);
            out.push(d.stats.size);
            out.push(d.stats.bit_rate as u64);
            out.push(d.stats.resolution.0 as u64);
            out.push(d.stats.resolution.1 as u64);
            out.push(if d.stats.has_audio { 1 } else { 0 });
            out.push(d.stats.png_size as u64);
            proof {
                assert(out@ =~= old(out)@ + enc_value(v@));
            }
        },
        DupFinderCacheEntry::ProcessingError(k, m) => {
            out.push(3);
            let kw: u64 = match k {
                ProcessingErrorKind::DecoderFailed => 0,
                ProcessingErrorKind::NoFramesDecoded => 1,
                ProcessingErrorKind::EmptyHash => 2,
                ProcessingErrorKind::ImgConversion => 3,
                ProcessingErrorKind::ProbeJsonParse => 4,
                ProcessingErrorKind::ProbeIntParse => 5,
                ProcessingErrorKind::ProbeFloatParse => 6,
            };
            out.push(kw);
            push_str_words(out, m);
            proof {
                assert(out@ =~= old(out)@ + enc_value(v@));
            }
        },
    }
}

impl BaseFsCache {
    /// Encode the whole map for a durable save.
    pub fn to_words(&self) -> (r: Vec<u64>)
        requires
            self.wf(),
        ensures
            r@ == spec_encode(self.entry_views()),
    {
        let mut out: Vec<u64> = Vec::new();
        out.push(CACHE_FORMAT_VERSION);
        out.push(self.entries.len() as u64);
        let mut i: usize = 0;
        let n = self.entries.len();
        while i < n
            invariant
                self.wf(),
                i <= n,
                n == self.entries@.len(),
                out@ == seq![CACHE_FORMAT_VERSION, n as u64] + enc_entries(
                    self.entry_views().take(i as int),
                ),
            decreases n - i,
        {
            let ghost pre = out@;
            push_str_words(&mut out, &self.entries[i].0);
            out.push(self.entries[i].1.cache_mtime_secs as u64);
            proof {
                assert(self.entry_views()[i as int].1.wf());
                assert(self.entry_views()[i as int] == (
                    self.entries@[i as int].0@,
                    self.entries@[i as int].1@,
                ));
            }
            push_value_words(&mut out, &self.entries[i].1.value);
            proof {
                let views = self.entry_views();
                assert(out@ =~= pre + enc_entry(views[i as int].0, views[i as int].1));
                lemma_enc_entries_concat(views.take(i as int), seq![views[i as int]]);
                assert(views.take(i as int) + seq![views[i as int]] =~= views.take(i + 1));
                assert(seq![views[i as int]].drop_first()
                    =~= Seq::<(Seq<char>, MtimeEntryView)>::empty());
                assert(enc_entries(Seq::<(Seq<char>, MtimeEntryView)>::empty())
                    == Seq::<u64>::empty());
                assert(enc_entries(seq![views[i as int]]) =~= enc_entry(
                    views[i as int].0,
                    views[i as int].1,
                ) + Seq::<u64>::empty());
                assert(enc_entry(views[i as int].0, views[i as int].1) + Seq::<u64>::empty()
                    =~= enc_entry(views[i as int].0, views[i as int].1));
                assert(out@ =~= seq![CACHE_FORMAT_VERSION, n as u64] + enc_entries(
                    views.take(i + 1),
                ));
            }
            i = i + 1;
        }
        proof {
            assert(self.entry_views().take(n as int) =~= self.entry_views());
        }
        out
    }

    /// Encode the cache if any unsaved mutation has accumulated.
    pub fn save(&self) -> (r: Option<Vec<u64>>)
        requires
            self.wf(),
        ensures
            r is Some <==> self.cache_modified_count != 0,
            r matches Some(w) ==> w@ == spec_encode(self.entry_views()),
    {
        if self.cache_modified_count != 0 {
            Some(self.to_words())
        } else {
            None
        }
    }
}

/// Encoding distributes over concatenation of entry lists.
proof fn lemma_enc_entries_concat(a: Seq<(Seq<char>, MtimeEntryView)>, b: Seq<(Seq<char>, MtimeEntryView)>)
    ensures
        enc_entries(a + b) == enc_entries(a) + enc_entries(b),
    decreases a.len(),
{
    if a.len() == 0 {
        assert(a + b =~= b);
        assert(enc_entries(a) =~= Seq::<u64>::empty());
        assert(Seq::<u64>::empty() + enc_entries(b) =~= enc_entries(b));
    } else {
        assert((a + b).drop_first() =~= a.drop_first() + b);
        assert((a + b)[0] == a[0]);
        lemma_enc_entries_concat(a.drop_first(), b);
        assert(enc_entries(a + b) =~= enc_entries(a) + enc_entries(b));
    }
}

// ----------------------------------------------------------------------
// Executable decoding.
// ----------------------------------------------------------------------

/// Relies on char::from_u32: `Some` exactly on the Unicode scalar
/// values — everything below the surrogates or between them and the
/// greatest code point — and the returned character casts back to the
/// given value.
#[verifier::external_body]
pub(crate) fn char_from_u32(v: u32) -> (r: Option<char>)
    ensures
        r matches Some(c) ==> c as u32 == v,
        (v < 0xD800 || (0xE000 <= v && v <= 0x10FFFF)) ==> r is Some,
{
    char::from_u32(v)
}

/// Relies on String::push: appends exactly one character.
#[verifier::external_body]
pub(crate) fn string_push_char(s: &mut String, c: char)
    ensures
        final(s)@ == old(s)@.push(c),
{
    s.push(c);
}

fn read_str(words: &Vec<u64>, pos: usize) -> (r: Option<(String, usize)>)
    ensures
        r is Some <==> dec_str(words@, pos as int) is Some,
        r matches Some(p) ==> dec_str(words@, pos as int) matches Some(d) && p.0@ == d.0 && p.1
            == d.1,
{
    let wl = words.len();
    if pos >= wl {
        return None;
    }
    let n64 = words[pos];
    let remaining = (wl - pos - 1) as u64;
    if n64 > remaining {
        return None;
    }
    let n = n64 as usize;
    proof {
        assert(n == words@[pos as int]);
    }
    let mut out = String::new();
    let mut i: usize = 0;
    while i < n
        invariant
            wl == words@.len(),
            pos + 1 + n <= wl,
            n == words@[pos as int],
            i <= n,
            out@ == Seq::new(i as nat, |j: int| (words@[pos + 1 + j] as u32) as char),
            forall|j: int| 0 <= j < i ==> valid_char_word(#[trigger] words@[pos + 1 + j]),
        decreases n - i,
    {
        let w = words[pos + 1 + i];
        if w >= 0xD800 && (w < 0xE000 || w > 0x10FFFF) {
            proof {
                assert(!valid_char_word(words@[pos + 1 + i as int]));
                assert(dec_str(words@, pos as int) is None);
            }
            return None;
        }
        match char_from_u32(w as u32) {
            Some(c) => {
                string_push_char(&mut out, c);
                proof {
                    vstd::utf8::char_u32_cast(c, c as u32);
                    assert(out@ =~= Seq::new(
                        (i + 1) as nat,
                        |j: int| (words@[pos + 1 + j] as u32) as char,
                    ));
                }
            },
            None => {
                proof {
                    assert(false);
                }
                return None;
            },
        }
        i = i + 1;
    }
    proof {
        let d = dec_str(words@, pos as int);
        assert(d matches Some(p) && p.0 =~= out@ && p.1 == pos + 1 + n);
    }
    Some((out, pos + 1 + n))
}

fn read_stats(words: &Vec<u64>, pos: usize) -> (r: Option<(VideoStats, usize)>)
    ensures
        r is Some <==> dec_stats(words@, pos as int) is Some,
        r matches Some(p) ==> dec_stats(words@, pos as int) matches Some(d) && p.0 == d.0 && p.1
            == d.1,
{
    if pos >= words.len() || words.len() - pos < 7 {
        return None;
    }
    let d = words[pos];
    let sz = words[pos + 1];
    let br = words[pos + 2];
    let w = words[pos + 3];
    let h = words[pos + 4];
    let au = words[pos + 5];
    let pn = words[pos + 6];
    if d > 0xFFFF_FFFF_FFFF || br > u32::MAX as u64 || w > u32::MAX as u64 || h > u32::MAX as u64
        || au > 1 || pn > u32::MAX as u64 {
        return None;
    }
    Some(
        (
            VideoStats {
                duration_millis: d,
                size: sz,
                bit_rate: br as u32,
                resolution: (w as u32, h as u32),
                has_audio: au == 1,
                png_size: pn as u32,
            },
            pos + 7,
        ),
    )
}

fn read_hash(words: &Vec<u64>, pos: usize) -> (r: Option<(TemporalHash, usize)>)
    ensures
        r is Some <==> dec_hash(words@, pos as int) is Some,
        r matches Some(p) ==> dec_hash(words@, pos as int) matches Some(d) && p.0@ == d.0 && p.1
            == d.1 && p.0@.wf(),
{
    let wl = words.len();
    if pos >= wl || wl - pos < 20 || words[pos] > 10 {
        return None;
    }
    let nf = words[pos] as u32;
    let mut shash: Vec<u64> = Vec::new();
    let mut k: usize = 0;
    while k < 10
        invariant
            wl == words@.len(),
            pos + 20 <= wl,
            k <= 10,
            shash@ == words@.subrange(pos + 1, pos + 1 + k),
        decreases 10 - k,
    {
        shash.push(words[pos + 1 + k]);
        proof {
            assert(shash@ =~= words@.subrange(pos + 1, pos + 1 + k + 1));
        }
        k = k + 1;
    }
    let mut thash: Vec<u64> = Vec::new();
    let mut k: usize = 0;
    while k < 9
        invariant
            wl == words@.len(),
            pos + 20 <= wl,
            k <= 9,
            thash@ == words@.subrange(pos + 11, pos + 11 + k),
        decreases 9 - k,
    {
        thash.push(words[pos + 11 + k]);
        proof {
            assert(thash@ =~= words@.subrange(pos + 11, pos + 11 + k + 1));
        }
        k = k + 1;
    }
    match read_str(words, pos + 20) {
        Some((path, q)) => {
            let ghost path_view = path@;
            let h = TemporalHash { thash, shash, num_frames: nf, src_path: path };
            proof {
                assert(h@.src_path == path_view);
            }
            // reject anything that does not satisfy the fingerprint
            // invariant: wrong frame count, stray words past the frame
            // count, or an all-zero hash
            if nf < 2 {
                proof {
                    reveal_hash_not_wf(words@, pos as int, h@);
                }
                return None;
            }
            let mut s_ok = true;
            let mut k: usize = nf as usize;
            while k < 10
                invariant
                    h@.shash.len() == 10,
                    nf <= k <= 10,
                    s_ok <==> (forall|j: int| nf <= j < k ==> h@.shash[j] == 0),
                decreases 10 - k,
            {
                if h.shash[k] != 0 {
                    proof {
                        assert(h@.shash[k as int] != 0);
                    }
                    s_ok = false;
                }
                k = k + 1;
            }
            let mut t_ok = true;
            let mut k: usize = (nf - 1) as usize;
            while k < 9
                invariant
                    h@.thash.len() == 9,
                    nf >= 2,
                    nf - 1 <= k <= 9,
                    t_ok <==> (forall|j: int| nf - 1 <= j < k ==> h@.thash[j] == 0),
                decreases 9 - k,
            {
                if h.thash[k] != 0 {
                    proof {
                        assert(h@.thash[k as int] != 0);
                    }
                    t_ok = false;
                }
                k = k + 1;
            }
            if !s_ok || !t_ok {
                proof {
                    if h@.wf() {
                        assert(s_ok);
                        assert(t_ok);
                    }
                    reveal_hash_not_wf(words@, pos as int, h@);
                }
                return None;
            }
            if h.shash_is_all_zeroes() && h.thash_is_all_zeroes() {
                proof {
                    reveal_hash_not_wf(words@, pos as int, h@);
                }
                return None;
            }
            proof {
                assert(h@.wf());
                let d = dec_hash(words@, pos as int);
                assert(d matches Some(p) && p.0 =~= h@ && p.1 == q);
            }
            Some((h, q))
        },
        None => None,
    }
}

/// When the constructed fingerprint view fails its invariant, the
/// decoder rejects the same words.
proof fn reveal_hash_not_wf(words: Seq<u64>, pos: int, hv: HashView)
    requires
        0 <= pos,
        pos + 20 <= words.len(),
        words[pos] <= 10,
        hv.shash == words.subrange(pos + 1, pos + 11),
        hv.thash == words.subrange(pos + 11, pos + 20),
        hv.num_frames == words[pos] as u32,
        dec_str(words, pos + 20) matches Some(p) && p.0 == hv.src_path,
        !hv.wf(),
    ensures
        dec_hash(words, pos) is None,
{
}

fn read_kind(w: u64) -> (r: Option<ProcessingErrorKind>)
    ensures
        r == dec_kind(w),
{
    if w == 0 {
        Some(ProcessingErrorKind::DecoderFailed)
    } else if w == 1 {
        Some(ProcessingErrorKind::NoFramesDecoded)
    } else if w == 2 {
        Some(ProcessingErrorKind::EmptyHash)
    } else if w == 3 {
        Some(ProcessingErrorKind::ImgConversion)
    } else if w == 4 {
        Some(ProcessingErrorKind::ProbeJsonParse)
    } else if w == 5 {
        Some(ProcessingErrorKind::ProbeIntParse)
    } else if w == 6 {
        Some(ProcessingErrorKind::ProbeFloatParse)
    } else {
        None
    }
}

fn read_value(words: &Vec<u64>, pos: usize) -> (r: Option<(DupFinderCacheEntry, usize)>)
    ensures
        r is Some <==> dec_value(words@, pos as int) is Some,
        r matches Some(p) ==> dec_value(words@, pos as int) matches Some(d) && p.0@ == d.0 && p.1
            == d.1 && p.0@.wf(),
{
    if pos >= words.len() {
        return None;
    }
    let tag = words[pos];
    if tag == 0 {
        Some((DupFinderCacheEntry::NotVideo, pos + 1))
    } else if tag == 1 {
        Some((DupFinderCacheEntry::ShortVideo, pos + 1))
    } else if tag == 2 {
        match read_hash(words, pos + 1) {
            Some((h, q)) => match read_stats(words, q) {
                Some((st, q2)) => Some(
                    (DupFinderCacheEntry::Video(CachedVideoData { hash: h, stats: st }), q2),
                ),
                None => None,
            },
            None => None,
        }
    } else if tag == 3 {
        if words.len() - pos < 2 {
            return None;
        }
        match read_kind(words[pos + 1]) {
            Some(k) => match read_str(words, pos + 2) {
                Some((m, q)) => Some((DupFinderCacheEntry::ProcessingError(k, m), q)),
                None => None,
            },
            None => None,
        }
    } else {
        None
    }
}

fn read_entry(words: &Vec<u64>, pos: usize) -> (r: Option<((String, MtimeCacheEntry), usize)>)
    ensures
        r is Some <==> dec_entry(words@, pos as int) is Some,
        r matches Some(p) ==> dec_entry(words@, pos as int) matches Some(d) && p.0.0@ == d.0.0
            && p.0.1@ == d.0.1 && p.1 == d.1 && d.0.1.wf(),
{
    match read_str(words, pos) {
        Some((key, q)) => {
            if q >= words.len() {
                return None;
            }
            let mt = words[q] as i64;
            match read_value(words, q + 1) {
                Some((v, q2)) => Some(
                    ((key, MtimeCacheEntry { cache_mtime_secs: mt, value: v }), q2),
                ),
                None => None,
            }
        },
        None => None,
    }
}

/// Whether the decoded keys are pairwise distinct.
fn check_keys_unique(entries: &Vec<(String, MtimeCacheEntry)>) -> (r: bool)
    ensures
        r == keys_unique(
            entries@.map_values(|p: (String, MtimeCacheEntry)| (p.0@, p.1@)),
        ),
{
    let ghost views = entries@.map_values(|p: (String, MtimeCacheEntry)| (p.0@, p.1@));
    let n = entries.len();
    let mut i: usize = 0;
    while i < n
        invariant
            n == entries@.len(),
            i <= n,
            views == entries@.map_values(|p: (String, MtimeCacheEntry)| (p.0@, p.1@)),
            forall|a: int, b: int| 0 <= a < b < i ==> (#[trigger] views[a]).0 != (
            #[trigger] views[b]).0,
        decreases n - i,
    {
        let mut j: usize = 0;
        while j < i
            invariant
                n == entries@.len(),
                j <= i < n,
                views == entries@.map_values(|p: (String, MtimeCacheEntry)| (p.0@, p.1@)),
                forall|b: int| 0 <= b < j ==> (#[trigger] views[b]).0 != views[i as int].0,
            decreases i - j,
        {
            if entries[j].0 == entries[i].0 {
                proof {
                    assert(views[j as int].0 == views[i as int].0);
                }
                return false;
            }
            proof {
                assert(views[j as int].0 == entries@[j as int].0@);
                assert(views[i as int].0 == entries@[i as int].0@);
            }
            j = j + 1;
        }
        i = i + 1;
    }
    true
}

/// A decoded value satisfies the entry invariant: the decoder's gates
/// admit only well-formed fingerprints and stats.
proof fn lemma_dec_value_wf(words: Seq<u64>, pos: int)
    ensures
        dec_value(words, pos) matches Some(p) ==> p.0.wf(),
{
}

/// Every decoded entry satisfies the entry invariant.
proof fn lemma_dec_entries_wf(words: Seq<u64>, pos: int, count: nat)
    ensures
        dec_entries(words, pos, count) matches Some(p) ==> forall|j: int|
            0 <= j < p.0.len() ==> (#[trigger] p.0[j]).1.wf(),
    decreases count,
{
    if count > 0 {
        match dec_entry(words, pos) {
            Option::Some(e) => {
                lemma_dec_entries_wf(words, e.1, (count - 1) as nat);
                match dec_entries(words, e.1, (count - 1) as nat) {
                    Option::Some(q) => {
                        assert forall|j: int|
                            0 <= j < (seq![e.0] + q.0).len() implies (#[trigger] (seq![e.0]
                            + q.0)[j]).1.wf() by {
                            if j == 0 {
                                match dec_str(words, pos) {
                                    Option::Some(kp) => {
                                        lemma_dec_value_wf(words, kp.1 + 1);
                                    },
                                    Option::None => {},
                                }
                                assert((seq![e.0] + q.0)[0] == e.0);
                            } else {
                                assert((seq![e.0] + q.0)[j] == q.0[j - 1]);
                            }
                        }
                    },
                    Option::None => {},
                }
            },
            Option::None => {},
        }
    }
}

impl BaseFsCache {
    /// Decode a saved cache.  `None` when the words are not a cache this
    /// format wrote — the caller then starts empty, losing the cache
    /// being never fatal.
    pub fn from_words(cache_save_threshold: u32, cache_path: String, words: &Vec<u64>) -> (r:
        Option<BaseFsCache>)
        ensures
            r is Some <==> spec_decode(words@) is Some,
            r matches Some(c) ==> {
                &&& c.wf()
                &&& spec_decode(words@) matches Some(m) && c.entry_views() == m
                &&& c.cache_modified_count == 0
                &&& c.cache_save_threshold == cache_save_threshold
                &&& c.cache_path@ == cache_path@
            },
    {
        if words.len() < 2 || words[0] != CACHE_FORMAT_VERSION {
            return None;
        }
        let count = words[1];
        let ghost total = count as nat;
        let mut acc: Vec<(String, MtimeCacheEntry)> = Vec::new();
        let mut pos: usize = 2;
        let mut i: u64 = 0;
        while i < count
            invariant
                words@.len() >= 2,
                words@[0] == CACHE_FORMAT_VERSION,
                count == words@[1],
                total == count as nat,
                i <= count,
                2 <= pos,
                match dec_entries(words@, pos as int, (count - i) as nat) {
                    Some(p) => dec_entries(words@, 2, total) == Some(
                        (
                            acc@.map_values(|q: (String, MtimeCacheEntry)| (q.0@, q.1@)) + p.0,
                            p.1,
                        ),
                    ),
                    None => dec_entries(words@, 2, total) is None,
                },
            decreases count - i,
        {
            let ghost acc_views = acc@.map_values(|q: (String, MtimeCacheEntry)| (q.0@, q.1@));
            match read_entry(words, pos) {
                Some((pair, newpos)) => {
                    proof {
                        let d = dec_entry(words@, pos as int);
                        assert(d is Some);
                    }
                    let ghost pv = (pair.0@, pair.1@);
                    acc.push(pair);
                    proof {
                        assert(acc@.map_values(|q: (String, MtimeCacheEntry)| (q.0@, q.1@))
                            =~= acc_views.push(pv));
                        let rest = dec_entries(words@, newpos as int, (count - i - 1) as nat);
                        match rest {
                            Some(p) => {
                                assert(seq![pv] + p.0 =~= (acc_views.push(pv) + p.0).skip(
                                    acc_views.len() as int,
                                ));
                                assert(acc_views.push(pv) + p.0 =~= acc_views + (seq![pv] + p.0));
                            },
                            None => {},
                        }
                    }
                    pos = newpos;
                },
                None => {
                    proof {
                        assert((count - i) as nat != 0);
                        assert(dec_entries(words@, pos as int, (count - i) as nat) is None);
                        assert(dec_entries(words@, 2, total) is None);
                        assert(spec_decode(words@) is None);
                    }
                    return None;
                },
            }
            i = i + 1;
        }
        proof {
            assert(dec_entries(words@, pos as int, 0) == Some(
                (Seq::<(Seq<char>, MtimeEntryView)>::empty(), pos as int),
            ));
            assert(acc@.map_values(|q: (String, MtimeCacheEntry)| (q.0@, q.1@))
                + Seq::<(Seq<char>, MtimeEntryView)>::empty() =~= acc@.map_values(
                |q: (String, MtimeCacheEntry)| (q.0@, q.1@),
            ));
        }
        if pos != words.len() {
            return None;
        }
        if !check_keys_unique(&acc) {
            return None;
        }
        proof {
            lemma_dec_entries_wf(words@, 2, total);
        }
        Some(
            BaseFsCache {
                cache_save_threshold,
                cache_modified_count: 0,
                cache_path,
                entries: acc,
            },
        )
    }
}

} // verus!
