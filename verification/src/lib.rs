//! Detection of near-duplicate video files by perceptual fingerprint.
//!
//! A video is summarised by a fixed-size binary fingerprint: one 64-bit
//! spatial hash per sampled frame and one 64-bit delta hash between each
//! pair of adjacent frames.  Fingerprints are kept in a persistent keyed
//! cache and searched with a bounded-distance similarity search, yielding
//! groups of files that are likely duplicates of one another.

pub mod base_fs_cache;
pub mod bk_tree;
pub mod concrete_cachers;
pub mod errors;
pub mod ffmpeg_ops;
pub mod file_set;
pub mod gui_zoom;
pub mod lib_fns;
pub mod library_cfg;
pub mod match_group;
pub mod output;
pub mod search_output;
pub mod search_struct_enum;
pub mod search_structures;
pub mod search_vec;
pub mod temporal_hash;
pub mod video_dup_finder;
pub mod video_stats;
