//! Distance behaviour of the perceptual fingerprints.

use vid_dup_finder::temporal_hash::{HashCreationErrorKind, TemporalHash};

fn empty_frames(num_frames: usize) -> Vec<Vec<u64>> {
    let empty_frame: Vec<u64> = vec![0];
    std::iter::repeat(&empty_frame).take(num_frames).cloned().collect()
}

fn full_frames(num_frames: usize) -> Vec<Vec<u64>> {
    let full_frame: Vec<u64> = vec![u64::MAX];
    std::iter::repeat(&full_frame).take(num_frames).cloned().collect()
}

fn empty_hash_components(num_frames: usize) -> (String, Vec<Vec<u64>>, Vec<Vec<u64>>) {
    let empty_s_hash = empty_frames(num_frames);
    let empty_t_hash = empty_frames(num_frames - 1);
    let path = String::new();

    (path, empty_s_hash, empty_t_hash)
}

fn full_hash_components(num_frames: usize) -> (String, Vec<Vec<u64>>, Vec<Vec<u64>>) {
    let full_s_hash = full_frames(num_frames);
    let full_t_hash = full_frames(num_frames - 1);
    let path = String::new();

    (path, full_s_hash, full_t_hash)
}

/// Build a fingerprint from per-frame words, going around the
/// constructor's all-zero rejection: an all-zero table is a legal
/// probe for the distance arithmetic even though the constructor
/// refuses to cache one.
fn make_hash(path: String, s: Vec<Vec<u64>>, t: Vec<Vec<u64>>) -> TemporalHash {
    match TemporalHash::new(path.clone(), s.clone(), t.clone()) {
        Ok(h) => h,
        Err(_) => {
            let mut shash: Vec<u64> = s.iter().map(|f| f[0]).collect();
            shash.resize(10, 0);
            let mut thash: Vec<u64> = t.iter().map(|f| f[0]).collect();
            thash.resize(9, 0);
            TemporalHash { thash, shash, num_frames: s.len() as u32, src_path: path }
        }
    }
}

/// The two distance components folded into one scalar and halved, so
/// a single expected number covers both hash kinds at once.
fn scalar_distance(a: &TemporalHash, b: &TemporalHash) -> u32 {
    let d = a.distance(b);
    (d.spatial + d.temporal) / 2
}

#[test]
//take two identical TemporalHashes. Demonstrate that their distance is 0.
fn test_distance_0() {
    let (p, s, t) = empty_hash_components(10);

    let thash_1 = make_hash(p, s, t);
    let thash_2 = thash_1.clone();

    assert!(scalar_distance(&thash_1, &thash_2) == 0);
    assert!(scalar_distance(&thash_2, &thash_1) == 0);
}

#[test]
//introduce a single bit difference in the
fn test_distance_1_minframes_spatial() {
    let (p1, mut s1, t1) = empty_hash_components(2);
    s1[0][0] = 1;
    s1[1][0] = 1;
    let h1 = make_hash(p1, s1, t1);

    let (p2, s2, t2) = empty_hash_components(2);
    let h2 = make_hash(p2, s2, t2);

    let h1_h2 = scalar_distance(&h1, &h2);
    let h2_h1 = scalar_distance(&h2, &h1);

    assert!(h1_h2 == 320);
    assert!(h2_h1 == 320);
}

#[test]
//introduce a single bit difference in the
fn test_distance_1_maxframes_spatial() {
    let (p1, mut s1, t1) = empty_hash_components(10);
    s1[00][0] = 1;
    s1[01][0] = 1;
    s1[02][0] = 1;
    s1[03][0] = 1;
    s1[04][0] = 1;
    s1[05][0] = 1;
    s1[06][0] = 1;
    s1[07][0] = 1;
    s1[08][0] = 1;
    s1[09][0] = 1;
    let h1 = make_hash(p1, s1, t1);

    let (p2, s2, t2) = empty_hash_components(10);
    let h2 = make_hash(p2, s2, t2);

    let h1_h2 = scalar_distance(&h1, &h2);
    let h2_h1 = scalar_distance(&h2, &h1);

    assert!(h1_h2 == 320);
    assert!(h2_h1 == 320);
}

#[test]
//introduce a single bit difference in the
fn test_distance_1_minframes_temporal() {
    let (p1, s1, mut t1) = empty_hash_components(2);
    t1[0][0] = 1;
    let h1 = make_hash(p1, s1, t1);

    let (p2, s2, t2) = empty_hash_components(2);
    let h2 = make_hash(p2, s2, t2);

    let h1_h2 = scalar_distance(&h1, &h2);
    let h2_h1 = scalar_distance(&h2, &h1);

    assert!(h1_h2 == 320, "expected 320, got {}", h1_h2);
    assert!(h2_h1 == 320, "expected 320, got {}", h2_h1);
}

#[test]
//introduce a single bit difference in the
fn test_distance_1_maxframes_temporal() {
    let (p1, s1, mut t1) = empty_hash_components(10);
    t1[00][0] = 1;
    t1[01][0] = 1;
    t1[02][0] = 1;
    t1[03][0] = 1;
    t1[04][0] = 1;
    t1[05][0] = 1;
    t1[06][0] = 1;
    t1[07][0] = 1;
    t1[08][0] = 1;
    let h1 = make_hash(p1, s1, t1);

    let (p2, s2, t2) = empty_hash_components(10);
    let h2 = make_hash(p2, s2, t2);

    let h1_h2 = scalar_distance(&h1, &h2);
    let h2_h1 = scalar_distance(&h2, &h1);

    assert!(h1_h2 == 319, "expected 320, got {}", h1_h2);
    assert!(h2_h1 == 319, "expected 320, got {}", h2_h1);
}

//take two max-different TemporalHashes. Demonstrate that their distance is 1.
#[test]
fn test_maxdist_minframes() {
    let (p1, s1, t1) = empty_hash_components(2);
    let h1 = make_hash(p1, s1, t1);

    let (p2, s2, t2) = full_hash_components(2);
    let h2 = make_hash(p2, s2, t2);

    let h1_h2 = scalar_distance(&h1, &h2);
    let h2_h1 = scalar_distance(&h2, &h1);

    let expected = 40960;
    assert!(h1_h2 == expected, "expected {}, got {}", expected, h1_h2);
    assert!(h2_h1 == expected, "expected {}, got {}", expected, h2_h1);
}

//take two max-different TemporalHashes. Demonstrate that their distance is 1.
#[test]
fn test_maxdist_maxframes() {
    let (p1, s1, t1) = empty_hash_components(10);
    let h1 = make_hash(p1, s1, t1);

    let (p2, s2, t2) = full_hash_components(10);
    let h2 = make_hash(p2, s2, t2);

    let h1_h2 = scalar_distance(&h1, &h2);
    let h2_h1 = scalar_distance(&h2, &h1);

    let expected = 40928;
    assert!(h1_h2 == expected, "expected {}, got {}", expected, h1_h2);
    assert!(h2_h1 == expected, "expected {}, got {}", expected, h2_h1);
}

#[test]
fn too_few_frames_is_rejected() {
    let r = TemporalHash::new(String::from("/v/a.mp4"), vec![vec![7]], vec![]);
    assert!(matches!(r, Err(HashCreationErrorKind::VideoTooShortError(_))));
}

#[test]
fn empty_hash_is_rejected() {
    let r = TemporalHash::new(
        String::from("/v/a.mp4"),
        vec![vec![0], vec![0]],
        vec![vec![0]],
    );
    assert!(matches!(r, Err(HashCreationErrorKind::EmptyHashError(_))));
}

#[test]
fn two_frames_is_the_minimum_valid_video() {
    let r = TemporalHash::new(
        String::from("/v/a.mp4"),
        vec![vec![1], vec![1]],
        vec![vec![0]],
    );
    let h = r.unwrap();
    // the normalisation table divides by the frame count and by one
    // fewer; neither divides by zero at the two-frame minimum
    let d = h.distance(&h);
    assert_eq!(d.spatial, 0);
    assert_eq!(d.temporal, 0);
}

#[test]
fn distance_is_symmetric() {
    let a = TemporalHash::new(
        String::from("/v/a.mp4"),
        vec![vec![0xF0], vec![0x0F], vec![0x33]],
        vec![vec![0xFF], vec![0x3C]],
    )
    .unwrap();
    let b = TemporalHash::new(
        String::from("/v/b.mp4"),
        vec![vec![0x01], vec![0x80], vec![0x55]],
        vec![vec![0x81], vec![0xD5]],
    )
    .unwrap();
    let ab = a.distance(&b);
    let ba = b.distance(&a);
    assert_eq!(ab.spatial, ba.spatial);
    assert_eq!(ab.temporal, ba.temporal);
    assert!(ab.spatial <= 40960 && ab.temporal <= 40960);
}
