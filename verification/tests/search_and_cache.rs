//! Bulk search scenarios, the persistent cache, and the projection.

use vid_dup_finder::base_fs_cache::BaseFsCache;
use vid_dup_finder::concrete_cachers::{
    CachedVideoData, DupFinderCache, DupFinderCacheEntry, FetchPlan, ProcessingErrorKind,
};
use vid_dup_finder::base_fs_cache::MtimeCacheEntry;
use vid_dup_finder::ffmpeg_ops::is_video_file;
use vid_dup_finder::file_set::{ext_lower, is_ancestor_of, FileSet};
use vid_dup_finder::search_structures::ScaledTolerance;
use vid_dup_finder::temporal_hash::TemporalHash;
use vid_dup_finder::video_dup_finder::VideoDupFinder;
use vid_dup_finder::video_stats::{parse_decimal_millis, VideoStats};

fn hash_of(path: &str, words: &[u64]) -> TemporalHash {
    let s: Vec<Vec<u64>> = words.iter().map(|w| vec![*w]).collect();
    let t: Vec<Vec<u64>> = std::iter::repeat(vec![0u64]).take(words.len() - 1).collect();
    TemporalHash::new(String::from(path), s, t).unwrap()
}

fn tol(v: u32) -> ScaledTolerance {
    ScaledTolerance { spatial: v, temporal: v }
}

fn stats_of(duration_millis: u64, png_size: u32) -> VideoStats {
    VideoStats {
        duration_millis,
        size: 0,
        bit_rate: 0,
        resolution: (0, 0),
        has_audio: false,
        png_size,
    }
}

fn video_entry(path: &str, words: &[u64], duration_millis: u64) -> DupFinderCacheEntry {
    DupFinderCacheEntry::Video(CachedVideoData {
        hash: hash_of(path, words),
        stats: stats_of(duration_millis, 0),
    })
}

// ---- bulk search -----------------------------------------------------

#[test]
fn identical_files_form_one_group() {
    // two files with identical sampled frames at the default tolerance
    let a = hash_of("/v/a.mp4", &[1, 1]);
    let b = hash_of("/v/b.mp4", &[1, 1]);
    let groups = VideoDupFinder::new().find_all(vec![a, b], tol(2048), true, true);
    assert_eq!(groups.len(), 1);
    let dups = groups[0].duplicates();
    assert_eq!(dups.len(), 2);
    assert!(dups.contains(&String::from("/v/a.mp4")));
    assert!(dups.contains(&String::from("/v/b.mp4")));
}

#[test]
fn all_equal_inputs_one_group_with_every_member() {
    let hs: Vec<TemporalHash> = (0..5).map(|i| {
        hash_of(&format!("/v/{}.mp4", i), &[1, 1])
    }).collect();
    let groups = VideoDupFinder::new().find_all(hs, tol(0), true, true);
    assert_eq!(groups.len(), 1);
    assert_eq!(groups[0].duplicates().len(), 5);
}

#[test]
fn pairwise_distant_inputs_yield_no_groups() {
    let a = hash_of("/v/a.mp4", &[0xFFFF, 1]);
    let b = hash_of("/v/b.mp4", &[0xFF00FF00, 2]);
    let c = hash_of("/v/c.mp4", &[0xF0F0F0F0F0F0F0F0, 4]);
    let groups = VideoDupFinder::new().find_all(vec![a, b, c], tol(0), true, true);
    assert_eq!(groups.len(), 0);
}

#[test]
fn zero_tolerance_identical_match_different_do_not() {
    let a = hash_of("/v/a.mp4", &[7, 7]);
    let b = hash_of("/v/b.mp4", &[7, 7]);
    let groups = VideoDupFinder::new().find_all(vec![a, b], tol(0), true, true);
    assert_eq!(groups.len(), 1);

    let c = hash_of("/v/c.mp4", &[7, 7]);
    let d = hash_of("/v/d.mp4", &[8, 7]);
    let groups = VideoDupFinder::new().find_all(vec![c, d], tol(0), true, true);
    assert_eq!(groups.len(), 0);
}

#[test]
fn chain_matches_collapse_into_one_group() {
    // a~b and a~c within tolerance, b and c apart: still one group
    let a = hash_of("/v/a.mp4", &[1, 1]);
    let b = hash_of("/v/b.mp4", &[3, 1]);
    let c = hash_of("/v/c.mp4", &[9, 1]);
    let groups = VideoDupFinder::new().find_all(vec![a, b, c], tol(400), true, true);
    assert_eq!(groups.len(), 1);
    assert_eq!(groups[0].duplicates().len(), 3);
}

#[test]
fn reference_mode_groups_by_reference() {
    let a = hash_of("/refs/a.mp4", &[1, 1]);
    let b = hash_of("/v/b.mp4", &[3, 1]);
    let c = hash_of("/v/c.mp4", &[9, 1]);
    let groups = VideoDupFinder::new().find_with_refs(
        vec![a],
        vec![b, c],
        tol(400),
        true,
        true,
    );
    assert_eq!(groups.len(), 1);
    assert_eq!(groups[0].reference().clone().unwrap(), String::from("/refs/a.mp4"));
    assert_eq!(groups[0].duplicates().len(), 2);
}

#[test]
fn consumed_candidate_falls_to_the_first_reference() {
    // the candidate matches both references; deterministic order gives
    // it to the first, and the second matches nothing
    let r1 = hash_of("/refs/r1.mp4", &[1, 1]);
    let r2 = hash_of("/refs/r2.mp4", &[3, 1]);
    let c = hash_of("/v/c.mp4", &[1, 1]);
    let groups = VideoDupFinder::new().find_with_refs(
        vec![r1, r2],
        vec![c],
        tol(2048),
        true,
        true,
    );
    assert_eq!(groups.len(), 1);
    assert_eq!(groups[0].reference().clone().unwrap(), String::from("/refs/r1.mp4"));
    assert_eq!(groups[0].duplicates().len(), 1);
}

#[test]
fn deterministic_consume_uses_each_input_once() {
    // four equal fingerprints: one group holds all four, each once
    let hs: Vec<TemporalHash> = (0..4).map(|i| {
        hash_of(&format!("/v/{}.mp4", i), &[5, 5])
    }).collect();
    let groups = VideoDupFinder::new().find_all(hs, tol(100), true, true);
    let total: usize = groups.iter().map(|g| g.duplicates().len()).sum();
    assert_eq!(total, 4);
}

#[test]
fn tree_backend_agrees_on_the_simple_cases() {
    let a = hash_of("/v/a.mp4", &[1, 1]);
    let b = hash_of("/v/b.mp4", &[1, 1]);
    let groups = VideoDupFinder::new().find_all(vec![a, b], tol(2048), true, false);
    assert_eq!(groups.len(), 1);
    assert_eq!(groups[0].duplicates().len(), 2);

    let c = hash_of("/v/c.mp4", &[7, 7]);
    let d = hash_of("/v/d.mp4", &[8, 7]);
    let groups = VideoDupFinder::new().find_all(vec![c, d], tol(0), true, false);
    assert_eq!(groups.len(), 0);
}

// ---- cache -----------------------------------------------------------

#[test]
fn cache_round_trip_preserves_keys_and_entries() {
    let mut cache = BaseFsCache::new(100, String::from("/tmp/cache.bin"));
    cache.insert(
        String::from("/v/a.mp4"),
        MtimeCacheEntry { cache_mtime_secs: 100, value: video_entry("/v/a.mp4", &[1, 2], 5000) },
    );
    cache.insert(
        String::from("/v/b.mp4"),
        MtimeCacheEntry { cache_mtime_secs: -3, value: DupFinderCacheEntry::NotVideo },
    );
    cache.insert(
        String::from("/v/c.mp4"),
        MtimeCacheEntry { cache_mtime_secs: 7, value: DupFinderCacheEntry::ShortVideo },
    );
    cache.insert(
        String::from("/v/d.mp4"),
        MtimeCacheEntry {
            cache_mtime_secs: 9,
            value: DupFinderCacheEntry::ProcessingError(
                ProcessingErrorKind::DecoderFailed,
                String::from("boom"),
            ),
        },
    );
    cache.remove(&String::from("/v/c.mp4"));
    let words = cache.to_words();
    let reloaded = BaseFsCache::from_words(100, String::from("/tmp/cache.bin"), &words).unwrap();
    assert_eq!(reloaded.len(), 3);
    assert_eq!(reloaded.keys(), cache.keys());
    let a = reloaded.get(&String::from("/v/a.mp4")).unwrap();
    assert_eq!(a.cache_mtime_secs, 100);
    match a.value {
        DupFinderCacheEntry::Video(d) => {
            assert_eq!(d.hash.num_frames, 2);
            assert_eq!(d.hash.shash[0], 1);
            assert_eq!(d.hash.shash[1], 2);
            assert_eq!(d.hash.src_path, String::from("/v/a.mp4"));
            assert_eq!(d.stats.duration_millis, 5000);
        }
        _ => panic!("expected a processed entry"),
    }
    let b = reloaded.get(&String::from("/v/b.mp4")).unwrap();
    assert_eq!(b.cache_mtime_secs, -3);
    assert!(matches!(b.value, DupFinderCacheEntry::NotVideo));
    let d = reloaded.get(&String::from("/v/d.mp4")).unwrap();
    match d.value {
        DupFinderCacheEntry::ProcessingError(k, m) => {
            assert_eq!(k, ProcessingErrorKind::DecoderFailed);
            assert_eq!(m, String::from("boom"));
        }
        _ => panic!("expected a cached error"),
    }
}

#[test]
fn garbage_words_do_not_decode() {
    let words: Vec<u64> = vec![99, 1, 2, 3];
    assert!(BaseFsCache::from_words(100, String::from("/tmp/c"), &words).is_none());
    let empty: Vec<u64> = Vec::new();
    assert!(BaseFsCache::from_words(100, String::from("/tmp/c"), &empty).is_none());
}

#[test]
fn save_is_batched_by_the_mutation_counter() {
    let mut cache = DupFinderCache::new(2, String::from("/tmp/c"));
    let due = cache.insert_processed(
        String::from("/v/a.mp4"),
        5,
        DupFinderCacheEntry::NotVideo,
    );
    assert!(!due);
    let due = cache.insert_processed(
        String::from("/v/b.mp4"),
        5,
        DupFinderCacheEntry::NotVideo,
    );
    assert!(due);
    // the counter reset with the batched save; nothing is pending
    assert!(cache.save().is_none());
    let due = cache.insert_processed(
        String::from("/v/c.mp4"),
        5,
        DupFinderCacheEntry::NotVideo,
    );
    assert!(!due);
    assert!(cache.save().is_some());
}

#[test]
fn mtime_within_two_seconds_is_fresh_three_is_stale() {
    let mut cache = DupFinderCache::new(100, String::from("/tmp/c"));
    cache.insert_processed(String::from("/v/a.mp4"), 100, DupFinderCacheEntry::NotVideo);
    assert_eq!(cache.plan_fetch(&String::from("/v/a.mp4"), 102), FetchPlan::UseCached);
    assert_eq!(cache.plan_fetch(&String::from("/v/a.mp4"), 98), FetchPlan::UseCached);
    assert_eq!(cache.plan_fetch(&String::from("/v/a.mp4"), 103), FetchPlan::Recompute);
    assert_eq!(cache.plan_fetch(&String::from("/v/a.mp4"), 97), FetchPlan::Recompute);
    assert_eq!(cache.plan_fetch(&String::from("/v/missing.mp4"), 100), FetchPlan::Recompute);
}

#[test]
fn fresh_insert_records_the_observed_mtime() {
    let mut cache = DupFinderCache::new(100, String::from("/tmp/c"));
    cache.insert_processed(
        String::from("/v/a.mp4"),
        555,
        video_entry("/v/a.mp4", &[1, 2], 1000),
    );
    // the recorded mtime equals the filesystem's at insert time, so an
    // immediate freshness check finds no staleness
    assert_eq!(cache.plan_fetch(&String::from("/v/a.mp4"), 555), FetchPlan::UseCached);
}

#[test]
fn reconcile_drops_deleted_and_adds_new_paths() {
    // cached: p1 (still on disk) and p2 (deleted); p3 is new on disk
    let mut cache = DupFinderCache::new(100, String::from("/tmp/c"));
    cache.insert_processed(String::from("/r/p1.mp4"), 1, video_entry("/r/p1.mp4", &[1, 2], 0));
    cache.insert_processed(String::from("/r/p2.mp4"), 1, video_entry("/r/p2.mp4", &[1, 3], 0));
    let fs = FileSet::new(vec![String::from("/r")], vec![], vec![]);
    let existing = vec![String::from("/r/p1.mp4"), String::from("/r/p3.mp4")];
    let removals = cache.keys_to_remove(&fs, &existing);
    assert_eq!(removals, vec![String::from("/r/p2.mp4")]);
    for k in &removals {
        cache.remove(k);
    }
    for p in &existing {
        if let FetchPlan::Recompute = cache.plan_fetch(p, 1) {
            cache.insert_processed(p.clone(), 1, video_entry(p, &[1, 4], 0));
        }
    }
    let mut keys = cache.keys();
    keys.sort();
    assert_eq!(keys, vec![String::from("/r/p1.mp4"), String::from("/r/p3.mp4")]);
}

#[test]
fn update_pass_over_one_video_caches_one_processed_entry() {
    // an update-only run over a root holding one video
    let mut cache = DupFinderCache::new(100, String::from("/tmp/c"));
    let mut fs = FileSet::new(vec![String::from("/root")], vec![], vec![]);
    fs.project_from_list(&vec![String::from("/root/v.mp4")]);
    for p in &fs.enumerated_paths {
        if let FetchPlan::Recompute = cache.plan_fetch(p, 42) {
            cache.insert_processed(p.clone(), 42, video_entry(p, &[1, 2], 9000));
        }
    }
    assert_eq!(cache.len(), 1);
    assert!(cache.get_hash(&String::from("/root/v.mp4")).is_ok());
}

// ---- projection ------------------------------------------------------

#[test]
fn projection_filters_sorts_and_dedups() {
    let mut fs = FileSet::new(
        vec![String::from("/r")],
        vec![String::from("/r/skip")],
        vec![String::from("png"), String::from("txt")],
    );
    let input = vec![
        String::from("/r/b.mp4"),
        String::from("/r/a.mp4"),
        String::from("/r/b.mp4"),
        String::from("/r/skip/c.mp4"),
        String::from("/r/shot.PNG"),
        String::from("/elsewhere/d.mp4"),
    ];
    fs.project_from_list(&input);
    assert_eq!(
        fs.enumerated_paths,
        vec![String::from("/r/a.mp4"), String::from("/r/b.mp4")]
    );
}

#[test]
fn projection_is_idempotent() {
    let mut fs = FileSet::new(vec![String::from("/r")], vec![], vec![String::from("png")]);
    let input = vec![
        String::from("/r/z.mp4"),
        String::from("/r/a.mp4"),
        String::from("/r/z.mp4"),
    ];
    fs.project_from_list(&input);
    let first = fs.enumerated_paths.clone();
    fs.project_from_list(&first);
    assert_eq!(fs.enumerated_paths, first);
}

#[test]
fn ancestry_respects_component_boundaries() {
    assert!(is_ancestor_of(&String::from("/r"), &String::from("/r/a.mp4")));
    assert!(is_ancestor_of(&String::from("/r"), &String::from("/r")));
    assert!(!is_ancestor_of(&String::from("/r"), &String::from("/road/a.mp4")));
    assert!(!is_ancestor_of(&String::from("/r/a.mp4"), &String::from("/r")));
}

#[test]
fn extensions_are_lowercased() {
    assert_eq!(ext_lower(&String::from("/r/a.MP4")), String::from("mp4"));
    assert_eq!(ext_lower(&String::from("/r/archive.tar.GZ")), String::from("gz"));
    assert_eq!(ext_lower(&String::from("/r/noext")), String::from(""));
    assert_eq!(ext_lower(&String::from("/r.d/noext")), String::from(""));
}

// ---- probe interpretation --------------------------------------------

#[test]
fn probe_line_identifies_videos() {
    assert!(is_video_file("h264|video|35.5"));
    assert!(!is_video_file("h264|audio|35.5"));
    assert!(!is_video_file("mjpeg|video|35.5"));
    assert!(!is_video_file("png|video|35.5"));
    assert!(!is_video_file("h264|video|0.5"));
    // an unreadable duration passes rather than discarding the file
    assert!(is_video_file("h264|video|n/a"));
    assert!(!is_video_file(""));
}

#[test]
fn decimal_seconds_parse_to_milliseconds() {
    assert_eq!(parse_decimal_millis("35.5"), Some(35500));
    assert_eq!(parse_decimal_millis("0.001"), Some(1));
    assert_eq!(parse_decimal_millis("12"), Some(12000));
    assert_eq!(parse_decimal_millis("12.3456"), Some(12345));
    assert_eq!(parse_decimal_millis(""), None);
    assert_eq!(parse_decimal_millis("n/a"), None);
    assert_eq!(parse_decimal_millis("1.2.3"), None);
}

#[test]
fn probe_json_yields_exact_stats() {
    let json = r#"{
        "format": { "duration": "12.25", "size": "1048576", "bit_rate": "800000" },
        "streams": [
            { "codec_type": "video", "width": 1920, "height": 1080 },
            { "codec_type": "audio" }
        ]
    }"#;
    let st = VideoStats::from_probe_output(json, 77).unwrap();
    assert_eq!(st.duration_millis, 12250);
    assert_eq!(st.size, 1048576);
    assert_eq!(st.bit_rate, 800000);
    assert_eq!(st.resolution, (1920, 1080));
    assert!(st.has_audio);
    assert_eq!(st.png_size, 77);
}

#[test]
fn probe_json_failures_are_typed() {
    assert!(matches!(
        VideoStats::from_probe_output("not json", 0),
        Err(ProcessingErrorKind::ProbeJsonParse)
    ));
    let bad_duration = r#"{ "format": { "duration": "abc" }, "streams": [] }"#;
    assert!(matches!(
        VideoStats::from_probe_output(bad_duration, 0),
        Err(ProcessingErrorKind::ProbeFloatParse)
    ));
    let bad_size = r#"{ "format": { "size": "12kb" }, "streams": [] }"#;
    assert!(matches!(
        VideoStats::from_probe_output(bad_size, 0),
        Err(ProcessingErrorKind::ProbeIntParse)
    ));
}

#[test]
fn durations_match_within_five_percent() {
    let a = stats_of(10000, 0);
    assert!(a.is_match(&stats_of(10400, 0)));
    assert!(a.is_match(&stats_of(9500, 0)));
    assert!(!a.is_match(&stats_of(11000, 0)));
    assert!(!a.is_match(&stats_of(9000, 0)));
    assert!(!stats_of(0, 0).is_match(&stats_of(0, 0)));
}
