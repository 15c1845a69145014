//! Match-group refinement, the search output, and the review zoom.

use vid_dup_finder::concrete_cachers::{CachedVideoData, DupFinderCache, DupFinderCacheEntry};
use vid_dup_finder::gui_zoom::{ZoomState, ZoomValue};
use vid_dup_finder::lib_fns::find_all_matches;
use vid_dup_finder::library_cfg::SearchCfg;
use vid_dup_finder::match_group::{sort_paths_by_len, MatchGroup};
use vid_dup_finder::search_output::SearchOutput;
use vid_dup_finder::search_structures::ScaledTolerance;
use vid_dup_finder::temporal_hash::TemporalHash;
use vid_dup_finder::video_stats::VideoStats;

fn hash_of(path: &str, words: &[u64]) -> TemporalHash {
    let s: Vec<Vec<u64>> = words.iter().map(|w| vec![*w]).collect();
    let t: Vec<Vec<u64>> = std::iter::repeat(vec![0u64]).take(words.len() - 1).collect();
    TemporalHash::new(String::from(path), s, t).unwrap()
}

fn stats_of(duration_millis: u64, png_size: u32) -> VideoStats {
    VideoStats {
        duration_millis,
        size: 0,
        bit_rate: 0,
        resolution: (0, 0),
        has_audio: false,
        png_size,
    }
}

fn seeded_cache(entries: &[(&str, &[u64], u64)]) -> DupFinderCache {
    let mut cache = DupFinderCache::new(1000, String::from("/tmp/c"));
    for (path, words, dur) in entries {
        cache.insert_processed(
            String::from(*path),
            1,
            DupFinderCacheEntry::Video(CachedVideoData {
                hash: hash_of(path, words),
                stats: stats_of(*dur, 0),
            }),
        );
    }
    cache
}

#[test]
fn referenced_duplicates_sort_by_path_length() {
    let g = MatchGroup::with_reference(
        String::from("/refs/r.mp4"),
        vec![
            String::from("/v/longer/path.mp4"),
            String::from("/v/a.mp4"),
            String::from("/v/mid/p.mp4"),
        ],
    );
    assert_eq!(
        g.duplicates(),
        &vec![
            String::from("/v/a.mp4"),
            String::from("/v/mid/p.mp4"),
            String::from("/v/longer/path.mp4"),
        ]
    );
    assert_eq!(g.len(), 4);
}

#[test]
fn path_length_sort_is_stable() {
    let sorted = sort_paths_by_len(vec![
        String::from("/v/bb.mp4"),
        String::from("/v/aa.mp4"),
        String::from("/v/c.mp4"),
    ]);
    assert_eq!(
        sorted,
        vec![
            String::from("/v/c.mp4"),
            String::from("/v/bb.mp4"),
            String::from("/v/aa.mp4"),
        ]
    );
}

#[test]
fn affirm_with_reference_keeps_matching_durations() {
    let cache = seeded_cache(&[
        ("/refs/r.mp4", &[1, 1], 10000),
        ("/v/close.mp4", &[1, 1], 10200),
        ("/v/far.mp4", &[1, 1], 20000),
    ]);
    let g = MatchGroup {
        reference: Some(String::from("/refs/r.mp4")),
        duplicates: vec![String::from("/v/close.mp4"), String::from("/v/far.mp4")],
    };
    let affirmed = g.affirmed(&cache);
    assert_eq!(affirmed.len(), 1);
    assert_eq!(affirmed[0].duplicates(), &vec![String::from("/v/close.mp4")]);
}

#[test]
fn affirm_without_reference_groups_by_anchor() {
    let cache = seeded_cache(&[
        ("/v/a.mp4", &[1, 1], 10000),
        ("/v/b.mp4", &[1, 1], 10100),
        ("/v/c.mp4", &[1, 1], 90000),
    ]);
    let g = MatchGroup {
        reference: None,
        duplicates: vec![
            String::from("/v/a.mp4"),
            String::from("/v/b.mp4"),
            String::from("/v/c.mp4"),
        ],
    };
    let affirmed = g.affirmed(&cache);
    assert_eq!(affirmed.len(), 1);
    assert_eq!(affirmed[0].duplicates().len(), 2);
}

#[test]
fn cartesian_product_pairs_within_tolerance() {
    let cache = seeded_cache(&[
        ("/v/a.mp4", &[1, 1], 0),
        ("/v/b.mp4", &[3, 1], 0),
        ("/v/c.mp4", &[9, 1], 0),
    ]);
    let g = MatchGroup {
        reference: None,
        duplicates: vec![
            String::from("/v/a.mp4"),
            String::from("/v/b.mp4"),
            String::from("/v/c.mp4"),
        ],
    };
    let pairs = g.cartesian_product(ScaledTolerance { spatial: 400, temporal: 400 }, &cache);
    // a-b and a-c lie within the tolerance, b-c does not
    assert_eq!(pairs.len(), 2);
    for p in &pairs {
        assert_eq!(p.duplicates().len(), 2);
    }
}

#[test]
fn search_output_tracks_groups_and_uniques() {
    let g = MatchGroup {
        reference: None,
        duplicates: vec![String::from("/v/a.mp4"), String::from("/v/b.mp4")],
    };
    let out = SearchOutput::new(vec![g], vec![String::from("/v/u.mp4")], false);
    assert_eq!(out.len(), 1);
    assert!(out.contains(&String::from("/v/a.mp4")));
    assert!(!out.contains(&String::from("/v/u.mp4")));
    assert_eq!(out.unique_hashes(), &vec![String::from("/v/u.mp4")]);
}

#[test]
fn whole_run_splits_duplicates_from_uniques() {
    let cache = seeded_cache(&[
        ("/v/a.mp4", &[1, 1], 10000),
        ("/v/b.mp4", &[1, 1], 10000),
        ("/v/solo.mp4", &[0xF0F0F0F0, 17], 10000),
    ]);
    let cfg = SearchCfg {
        cand_dirs: vec![String::from("/v")],
        ref_dirs: vec![],
        excl_dirs: vec![],
        excl_exts: vec![],
        vec_search: true,
        determ: true,
        affirm_matches: false,
        tolerance: ScaledTolerance { spatial: 100, temporal: 100 },
        cartesian: false,
    };
    let (out, errs) = find_all_matches(&cache, &cfg).unwrap();
    assert_eq!(errs.len(), 0);
    assert_eq!(out.len(), 1);
    assert!(out.contains(&String::from("/v/a.mp4")));
    assert!(out.contains(&String::from("/v/b.mp4")));
    assert_eq!(out.unique_hashes(), &vec![String::from("/v/solo.mp4")]);
}

#[test]
fn same_path_as_candidate_and_reference_is_refused() {
    let cache = seeded_cache(&[("/v/a.mp4", &[1, 1], 0)]);
    let cfg = SearchCfg {
        cand_dirs: vec![String::from("/v")],
        ref_dirs: vec![String::from("/v")],
        excl_dirs: vec![],
        excl_exts: vec![],
        vec_search: true,
        determ: true,
        affirm_matches: false,
        tolerance: ScaledTolerance { spatial: 0, temporal: 0 },
        cartesian: false,
    };
    assert!(find_all_matches(&cache, &cfg).is_err());
}

#[test]
fn zoom_steps_stay_inside_the_range() {
    let z = ZoomState::new(100, 400, 100, 200);
    assert_eq!(z.get(), ZoomValue::User(200));
    let z = z.zoom_in().zoom_in().zoom_in();
    assert_eq!(z.get(), ZoomValue::User(400));
    let z = z.zoom_out().zoom_out().zoom_out().zoom_out();
    assert_eq!(z.get(), ZoomValue::User(100));
    let z = z.set_native(true);
    assert_eq!(z.get(), ZoomValue::Native);
    assert_eq!(z.zoom_in().get(), ZoomValue::Native);
}

#[test]
fn affirm_without_reference_drops_singletons_and_keeps_order() {
    let cache = seeded_cache(&[
        ("/v/a.mp4", &[1, 1], 10000),
        ("/v/b.mp4", &[1, 1], 50000),
        ("/v/c.mp4", &[1, 1], 10100),
        ("/v/d.mp4", &[1, 1], 50500),
    ]);
    let g = MatchGroup {
        reference: None,
        duplicates: vec![
            String::from("/v/a.mp4"),
            String::from("/v/b.mp4"),
            String::from("/v/c.mp4"),
            String::from("/v/d.mp4"),
        ],
    };
    // greedy anchors: a takes c, b takes d
    let affirmed = g.affirmed(&cache);
    assert_eq!(affirmed.len(), 2);
    assert_eq!(
        affirmed[0].duplicates(),
        &vec![String::from("/v/a.mp4"), String::from("/v/c.mp4")]
    );
    assert_eq!(
        affirmed[1].duplicates(),
        &vec![String::from("/v/b.mp4"), String::from("/v/d.mp4")]
    );
}

#[test]
fn false_positives_keep_unconfirmed_groups() {
    let cache = seeded_cache(&[
        ("/v/a.mp4", &[1, 1], 10000),
        ("/v/b.mp4", &[1, 1], 10100),
        ("/v/x.mp4", &[1, 1], 10000),
        ("/v/y.mp4", &[1, 1], 90000),
    ]);
    let confirmed = MatchGroup {
        reference: None,
        duplicates: vec![String::from("/v/a.mp4"), String::from("/v/b.mp4")],
    };
    let unconfirmed = MatchGroup {
        reference: None,
        duplicates: vec![String::from("/v/x.mp4"), String::from("/v/y.mp4")],
    };
    let out = SearchOutput::new(vec![confirmed, unconfirmed], vec![], false);
    let fp = out.false_positives(&cache);
    assert_eq!(fp.len(), 1);
    assert_eq!(
        fp.dup_groups()[0].duplicates(),
        &vec![String::from("/v/x.mp4"), String::from("/v/y.mp4")]
    );
}

#[test]
fn rendered_text_lists_groups_with_blank_separators() {
    let g1 = MatchGroup {
        reference: Some(String::from("/refs/r.mp4")),
        duplicates: vec![String::from("/v/a.mp4")],
    };
    let g2 = MatchGroup {
        reference: None,
        duplicates: vec![String::from("/v/b.mp4"), String::from("/v/c.mp4")],
    };
    let out = SearchOutput::new(vec![g1, g2], vec![String::from("/v/u.mp4")], true);
    let text = vid_dup_finder::output::render_output(&out, false, false);
    assert_eq!(
        text,
        "/refs/r.mp4\n/v/a.mp4\n\n/v/b.mp4\n/v/c.mp4\n\n"
    );
    let uniques = vid_dup_finder::output::render_output(&out, true, false);
    assert_eq!(uniques, "/v/u.mp4\n");
}

#[test]
fn rendered_json_escapes_and_structures_groups() {
    let g = MatchGroup {
        reference: Some(String::from("/refs/r.mp4")),
        duplicates: vec![String::from("/v/quo\"te.mp4")],
    };
    let out = SearchOutput::new(vec![g], vec![String::from("/v/u.mp4")], true);
    let json = vid_dup_finder::output::render_output(&out, false, true);
    assert_eq!(
        json,
        "[{\"reference\":\"/refs/r.mp4\",\"duplicates\":[\"/v/quo\\\"te.mp4\"]}]\n"
    );
    let uniques = vid_dup_finder::output::render_output(&out, true, true);
    assert_eq!(uniques, "[\"/v/u.mp4\"]\n");
}

#[test]
fn best_crop_takes_the_widest_reported_rectangle() {
    let stderr = "\
[Parsed_cropdetect] x1:0 x2:639 y1:0 y2:479 crop=640:352:0:64\n\
noise line without a marker\n\
[Parsed_cropdetect] x1:0 x2:639 y1:0 y2:479 crop=640:480:0:0 \n";
    let best = vid_dup_finder::ffmpeg_ops::best_crop_rect(stderr);
    assert_eq!(best, Some(String::from("640:480:0:0")));
    assert_eq!(vid_dup_finder::ffmpeg_ops::best_crop_rect("no crops here\n"), None);
    // on a tie the later line wins, as the decoder refines its guess
    let tie = "a crop=100:100:0:0\nb crop=120:80:0:0\n";
    assert_eq!(
        vid_dup_finder::ffmpeg_ops::best_crop_rect(tie),
        Some(String::from("120:80:0:0"))
    );
}

#[test]
fn construction_succeeds_on_every_nonzero_two_frame_input() {
    // the success side of the constructor: valid shape, nonzero words
    let r = TemporalHash::new(
        String::from("/v/ok.mp4"),
        vec![vec![0], vec![4]],
        vec![vec![4]],
    );
    let h = r.unwrap();
    assert_eq!(h.num_frames, 2);
    assert_eq!(h.src_path, String::from("/v/ok.mp4"));
}
