//! Perceptual video fingerprints and the distance between them.
//!
//! A fingerprint holds one 64-bit spatial word per sampled frame (the sign
//! bits of an 8x8 DCT block) and one 64-bit temporal word per adjacent
//! frame pair (the XOR of the two neighbouring spatial words).  The
//! distance between two fingerprints is the XOR popcount over the shared
//! prefix of words, scaled by a per-frame-count normalisation factor so
//! that short and long videos yield comparable distances.

use vstd::prelude::*;

use crate::search_structures::ScaledTolerance;

verus! {

/// Greatest number of sampled frames a fingerprint covers.
pub const HASH_NUM_IMAGES: u32 = 10;

/// Scaling factor that keeps normalised distances in the integers.
pub const HASH_DISTANCE_SCALING_FACTOR: u32 = 64;

/// `HASH_DISTANCE_SCALING_FACTOR * HASH_NUM_IMAGES`: the dividend of every
/// normalisation table entry.
pub const LUT_DIVIDEND: u32 = 640;

/// The number of set bits in the low `n` bits of `x`.
pub open spec fn bitcount_rec(x: u64, n: nat) -> nat
    decreases n,
{
    if n == 0 {
        0
    } else {
        ((x & 1) as nat) + bitcount_rec(x >> 1, (n - 1) as nat)
    }
}

/// The number of set bits of a 64-bit word.
pub open spec fn bitcount64(x: u64) -> nat {
    bitcount_rec(x, 64)
}

proof fn lemma_bitcount_rec_le(x: u64, n: nat)
    ensures
        bitcount_rec(x, n) <= n,
    decreases n,
{
    if n > 0 {
        assert(x & 1 <= 1) by (bit_vector);
        lemma_bitcount_rec_le(x >> 1, (n - 1) as nat);
    }
}

pub proof fn lemma_bitcount64_le(x: u64)
    ensures
        bitcount64(x) <= 64,
{
    lemma_bitcount_rec_le(x, 64);
}

proof fn lemma_bitcount_rec_zero(n: nat)
    ensures
        bitcount_rec(0u64, n) == 0,
    decreases n,
{
    if n > 0 {
        assert(0u64 & 1 == 0 && 0u64 >> 1 == 0u64) by (bit_vector);
        lemma_bitcount_rec_zero((n - 1) as nat);
    }
}

/// Count the set bits of `x`.
pub fn popcount64(x: u64) -> (r: u32)
    ensures
        r == bitcount64(x),
        r <= 64,
{
    let mut acc: u32 = 0;
    let mut cur: u64 = x;
    let mut i: usize = 0;
    while i < 64
        invariant
            i <= 64,
            acc <= i,
            bitcount_rec(x, 64) == acc + bitcount_rec(cur, (64 - i) as nat),
        decreases 64 - i,
    {
        proof {
            assert(cur & 1 <= 1) by (bit_vector);
        }
        acc = acc + ((cur & 1) as u32);
        cur = cur >> 1;
        i = i + 1;
    }
    proof {
        lemma_bitcount_rec_le(x, 64);
    }
    acc
}

/// The summed XOR popcount of the first `n` word pairs of `x` and `y`.
pub open spec fn xor_bitcount_sum(x: Seq<u64>, y: Seq<u64>, n: int) -> nat
    decreases n,
{
    if n <= 0 {
        0
    } else {
        xor_bitcount_sum(x, y, n - 1) + bitcount64(x[n - 1] ^ y[n - 1])
    }
}

pub proof fn lemma_xor_bitcount_sum_le(x: Seq<u64>, y: Seq<u64>, n: int)
    ensures
        xor_bitcount_sum(x, y, n) <= 64 * (if n <= 0 { 0int } else { n }),
    decreases n,
{
    if n > 0 {
        lemma_xor_bitcount_sum_le(x, y, n - 1);
        lemma_bitcount64_le(x[n - 1] ^ y[n - 1]);
    }
}

pub proof fn lemma_xor_bitcount_sum_sym(x: Seq<u64>, y: Seq<u64>, n: int)
    ensures
        xor_bitcount_sum(x, y, n) == xor_bitcount_sum(y, x, n),
    decreases n,
{
    if n > 0 {
        lemma_xor_bitcount_sum_sym(x, y, n - 1);
        let a = x[n - 1];
        let b = y[n - 1];
        assert(a ^ b == b ^ a) by (bit_vector);
    }
}

pub proof fn lemma_xor_bitcount_sum_self(x: Seq<u64>, n: int)
    ensures
        xor_bitcount_sum(x, x, n) == 0,
    decreases n,
{
    if n > 0 {
        lemma_xor_bitcount_sum_self(x, n - 1);
        let a = x[n - 1];
        assert(a ^ a == 0) by (bit_vector);
        lemma_bitcount_rec_zero(64);
    }
}

/// Why a fingerprint could not be built from a video's sampled frames.
#[derive(Debug, Clone)]
pub enum HashCreationErrorKind {
    /// Fewer than two frames were sampled: no temporal delta exists.
    VideoTooShortError(String),
    /// Every spatial and temporal word was zero; such a fingerprint would
    /// match nearly everything and is rejected outright.
    EmptyHashError(String),
    /// The decoder or the image pipeline failed before hashing began.
    ImgOrFfmpegError { path: String, error: String },
}

/// The mathematical content of a fingerprint: its word tables, frame
/// count and source path.
pub struct HashView {
    pub thash: Seq<u64>,
    pub shash: Seq<u64>,
    pub num_frames: u32,
    pub src_path: Seq<char>,
}

/// The normalisation factor applied to a raw distance over `m` shared
/// words: `HASH_DISTANCE_SCALING_FACTOR * HASH_NUM_IMAGES / m`,
/// truncated.  Truncation, not rounding, keeps every distance component
/// within `64 * HASH_DISTANCE_SCALING_FACTOR * HASH_NUM_IMAGES`: a
/// rounded entry would exceed that bound at some frame counts.
pub open spec fn spec_lut_entry(m: int) -> int
    recommends
        m >= 1,
{
    640int / m
}

impl HashView {
    /// The shape every fingerprint shares: full-size word tables and a
    /// frame count in range.  The distance arithmetic needs no more.
    pub open spec fn well_sized(self) -> bool {
        &&& self.shash.len() == 10
        &&& self.thash.len() == 9
        &&& 2 <= self.num_frames <= 10
    }

    pub open spec fn spatial_all_zero(self) -> bool {
        forall|k: int| 0 <= k < self.shash.len() ==> self.shash[k] == 0
    }

    pub open spec fn temporal_all_zero(self) -> bool {
        forall|k: int| 0 <= k < self.thash.len() ==> self.thash[k] == 0
    }

    /// Structural invariant of every constructed fingerprint.
    pub open spec fn wf(self) -> bool {
        &&& self.well_sized()
        &&& forall|k: int| self.num_frames <= k < 10 ==> self.shash[k] == 0
        &&& forall|k: int| self.num_frames - 1 <= k < 9 ==> self.thash[k] == 0
        &&& !(self.spatial_all_zero() && self.temporal_all_zero())
    }

    /// The shared word count of two fingerprints: the smaller frame count.
    pub open spec fn min_frames(self, other: Self) -> int {
        if self.num_frames <= other.num_frames {
            self.num_frames as int
        } else {
            other.num_frames as int
        }
    }

    /// The spatial component of the distance between two fingerprints.
    pub open spec fn spatial_distance(self, other: Self) -> int {
        let m = self.min_frames(other);
        xor_bitcount_sum(self.shash, other.shash, m) * spec_lut_entry(m)
    }

    /// The temporal component of the distance between two fingerprints.
    pub open spec fn temporal_distance(self, other: Self) -> int {
        let m = self.min_frames(other);
        xor_bitcount_sum(self.thash, other.thash, m - 1) * spec_lut_entry(m - 1)
    }
}

/// Whether `v` lies within `tol` of the query `q`, on both components.
pub open spec fn spec_within_tolerance(q: HashView, v: HashView, tol: ScaledTolerance) -> bool {
    &&& q.spatial_distance(v) <= tol.spatial
    &&& q.temporal_distance(v) <= tol.temporal
}

/// Every fingerprint lies within every tolerance of itself: its
/// self-distance is zero and tolerances are never negative.
pub proof fn lemma_within_tolerance_self(h: HashView, tol: ScaledTolerance)
    ensures
        spec_within_tolerance(h, h, tol),
{
    lemma_distance_self(h);
}

/// A perceptual fingerprint of one video file.
///
/// `shash` always holds `HASH_NUM_IMAGES` words and `thash` one fewer;
/// words at and beyond `num_frames` (resp. `num_frames - 1`) are zero.
#[derive(Debug)]
pub struct TemporalHash {
    pub thash: Vec<u64>,
    pub shash: Vec<u64>,
    pub num_frames: u32,
    pub src_path: String,
}

impl View for TemporalHash {
    type V = HashView;

    open spec fn view(&self) -> HashView {
        HashView {
            thash: self.thash@,
            shash: self.shash@,
            num_frames: self.num_frames,
            src_path: self.src_path@,
        }
    }
}

impl Clone for TemporalHash {
    /// A clone carries the same words, frame count and path.
    fn clone(&self) -> (r: Self)
        ensures
            r@ == self@,
    {
        let r = TemporalHash {
            thash: self.thash.clone(),
            shash: self.shash.clone(),
            num_frames: self.num_frames,
            src_path: self.src_path.clone(),
        };
        proof {
            assert(r.thash@ =~= self.thash@);
            assert(r.shash@ =~= self.shash@);
            assert(r@ =~= self@);
        }
        r
    }
}

impl TemporalHash {
    /// Build a fingerprint from per-frame spatial words and per-pair
    /// temporal words, each frame contributing exactly one 64-bit word.
    ///
    /// Fails with `VideoTooShortError` when fewer than two frames were
    /// sampled, and with `EmptyHashError` when every word is zero.
    pub fn new(src_path: String, spatial_hash: Vec<Vec<u64>>, temporal_hash: Vec<Vec<u64>>) -> (r:
        Result<Self, HashCreationErrorKind>)
        requires
            spatial_hash@.len() <= 10,
            temporal_hash@.len() <= 9,
            spatial_hash@.len() >= 2 ==> temporal_hash@.len() + 1 == spatial_hash@.len(),
            forall|i: int| 0 <= i < spatial_hash@.len() ==> spatial_hash@[i]@.len() == 1,
            forall|i: int| 0 <= i < temporal_hash@.len() ==> temporal_hash@[i]@.len() == 1,
        ensures
            r is Ok <==> (spatial_hash@.len() >= 2 && !((forall|i: int|
                0 <= i < spatial_hash@.len() ==> spatial_hash@[i]@[0] == 0) && (forall|i: int|
                0 <= i < temporal_hash@.len() ==> temporal_hash@[i]@[0] == 0))),
            spatial_hash@.len() < 2 <==> (r matches Err(e) && e is VideoTooShortError),
            (spatial_hash@.len() >= 2 && (forall|i: int|
                0 <= i < spatial_hash@.len() ==> spatial_hash@[i]@[0] == 0) && (forall|i: int|
                0 <= i < temporal_hash@.len() ==> temporal_hash@[i]@[0] == 0)) <==> (
            r matches Err(e) && e is EmptyHashError),
            r matches Ok(h) ==> {
                &&& h@.wf()
                &&& h@.num_frames == spatial_hash@.len()
                &&& h@.src_path == src_path@
                &&& forall|k: int|
                    0 <= k < spatial_hash@.len() ==> h@.shash[k] == spatial_hash@[k]@[0]
                &&& forall|k: int|
                    0 <= k < temporal_hash@.len() ==> h@.thash[k] == temporal_hash@[k]@[0]
            },
    {
        let n = spatial_hash.len();
        if n < 2 {
            return Err(HashCreationErrorKind::VideoTooShortError(src_path));
        }
        let mut shash: Vec<u64> = Vec::new();
        let mut i: usize = 0;
        while i < n
            invariant
                i <= n,
                n == spatial_hash@.len() <= 10,
                forall|j: int| 0 <= j < n ==> spatial_hash@[j]@.len() == 1,
                shash@.len() == i,
                forall|k: int| 0 <= k < i ==> shash@[k] == spatial_hash@[k]@[0],
            decreases n - i,
        {
            shash.push(spatial_hash[i][0]);
            i = i + 1;
        }
        while shash.len() < 10
            invariant
                n <= shash@.len() <= 10,
                forall|k: int| 0 <= k < n ==> shash@[k] == spatial_hash@[k]@[0],
                forall|k: int| n <= k < shash@.len() ==> shash@[k] == 0,
            decreases 10 - shash@.len(),
        {
            shash.push(0);
        }
        let tn = temporal_hash.len();
        let mut thash: Vec<u64> = Vec::new();
        let mut i: usize = 0;
        while i < tn
            invariant
                i <= tn,
                tn == temporal_hash@.len() <= 9,
                forall|j: int| 0 <= j < tn ==> temporal_hash@[j]@.len() == 1,
                thash@.len() == i,
                forall|k: int| 0 <= k < i ==> thash@[k] == temporal_hash@[k]@[0],
            decreases tn - i,
        {
            thash.push(temporal_hash[i][0]);
            i = i + 1;
        }
        while thash.len() < 9
            invariant
                tn <= thash@.len() <= 9,
                forall|k: int| 0 <= k < tn ==> thash@[k] == temporal_hash@[k]@[0],
                forall|k: int| tn <= k < thash@.len() ==> thash@[k] == 0,
            decreases 9 - thash@.len(),
        {
            thash.push(0);
        }
        let ret = TemporalHash { thash, shash, num_frames: n as u32, src_path };
        if ret.shash_is_all_zeroes() && ret.thash_is_all_zeroes() {
            proof {
                assert forall|i: int| 0 <= i < spatial_hash@.len() implies spatial_hash@[i]@[0]
                    == 0 by {
                    assert(ret@.shash[i] == spatial_hash@[i]@[0]);
                    assert(ret@.shash[i] == 0);
                }
                assert forall|i: int| 0 <= i < temporal_hash@.len() implies temporal_hash@[i]@[0]
                    == 0 by {
                    assert(ret@.thash[i] == temporal_hash@[i]@[0]);
                    assert(ret@.thash[i] == 0);
                }
            }
            return Err(HashCreationErrorKind::EmptyHashError(ret.src_path));
        }
        proof {
            if !ret@.spatial_all_zero() {
                let k = choose|k: int| 0 <= k < ret@.shash.len() && ret@.shash[k] != 0;
                assert(k < n);
                assert(spatial_hash@[k]@[0] == ret@.shash[k]);
            } else {
                assert(!ret@.temporal_all_zero());
                let k = choose|k: int| 0 <= k < ret@.thash.len() && ret@.thash[k] != 0;
                assert(k < tn);
                assert(temporal_hash@[k]@[0] == ret@.thash[k]);
            }
        }
        Ok(ret)
    }

    pub fn src_path(&self) -> (r: &String)
        ensures
            r@ == self@.src_path,
    {
        &self.src_path
    }

    pub fn hash_is_all_zeroes(&self) -> (r: bool)
        ensures
            r == (self@.spatial_all_zero() && self@.temporal_all_zero()),
    {
        self.thash_is_all_zeroes() && self.shash_is_all_zeroes()
    }

    pub fn thash_is_all_zeroes(&self) -> (r: bool)
        ensures
            r == self@.temporal_all_zero(),
    {
        let mut i: usize = 0;
        while i < self.thash.len()
            invariant
                i <= self.thash@.len(),
                forall|k: int| 0 <= k < i ==> self.thash@[k] == 0,
            decreases self.thash@.len() - i,
        {
            if self.thash[i] != 0 {
                proof {
                    assert(self@.thash[i as int] != 0);
                }
                return false;
            }
            i = i + 1;
        }
        true
    }

    pub fn shash_is_all_zeroes(&self) -> (r: bool)
        ensures
            r == self@.spatial_all_zero(),
    {
        let mut i: usize = 0;
        while i < self.shash.len()
            invariant
                i <= self.shash@.len(),
                forall|k: int| 0 <= k < i ==> self.shash@[k] == 0,
            decreases self.shash@.len() - i,
        {
            if self.shash[i] != 0 {
                proof {
                    assert(self@.shash[i as int] != 0);
                }
                return false;
            }
            i = i + 1;
        }
        true
    }

    /// One entry of the distance normalisation table.
    pub fn calc_lut_entry(frame_no: u32) -> (r: u32)
        requires
            frame_no >= 1,
        ensures
            r == spec_lut_entry(frame_no as int),
    {
        LUT_DIVIDEND / frame_no
    }

    /// The summed XOR popcount of the first `n` words of two word tables.
    fn raw_distance_prefix(x: &Vec<u64>, y: &Vec<u64>, n: usize) -> (r: u32)
        requires
            n <= x@.len(),
            n <= y@.len(),
            n <= 10,
        ensures
            r == xor_bitcount_sum(x@, y@, n as int),
            r <= 64 * n,
    {
        let mut acc: u32 = 0;
        let mut i: usize = 0;
        while i < n
            invariant
                i <= n <= 10,
                n <= x@.len(),
                n <= y@.len(),
                acc == xor_bitcount_sum(x@, y@, i as int),
                acc <= 64 * i,
            decreases n - i,
        {
            let p = popcount64(x[i] ^ y[i]);
            acc = acc + p;
            i = i + 1;
        }
        acc
    }

    /// The spatial component of the distance to `other`.
    pub fn spatial_distance(&self, other: &Self) -> (r: u32)
        requires
            self@.well_sized(),
            other@.well_sized(),
        ensures
            r == self@.spatial_distance(other@),
            r <= 40960,
    {
        let m = if self.num_frames <= other.num_frames {
            self.num_frames
        } else {
            other.num_frames
        };
        let raw = Self::raw_distance_prefix(&self.shash, &other.shash, m as usize);
        let lut = Self::calc_lut_entry(m);
        proof {
            lemma_lut_product_bound(raw as int, m as int);
        }
        raw * lut
    }

    /// The temporal component of the distance to `other`.
    pub fn temporal_distance(&self, other: &Self) -> (r: u32)
        requires
            self@.well_sized(),
            other@.well_sized(),
        ensures
            r == self@.temporal_distance(other@),
            r <= 40960,
    {
        let m = if self.num_frames <= other.num_frames {
            self.num_frames
        } else {
            other.num_frames
        };
        let raw = Self::raw_distance_prefix(&self.thash, &other.thash, (m - 1) as usize);
        let lut = Self::calc_lut_entry(m - 1);
        proof {
            lemma_lut_product_bound(raw as int, m - 1);
        }
        raw * lut
    }

    /// The normalised distance to `other`, one component per hash kind.
    pub fn distance(&self, other: &Self) -> (d: Distance)
        requires
            self@.well_sized(),
            other@.well_sized(),
        ensures
            d.spatial == self@.spatial_distance(other@),
            d.temporal == self@.temporal_distance(other@),
            d.spatial <= 40960,
            d.temporal <= 40960,
    {
        Distance {
            spatial: self.spatial_distance(other),
            temporal: self.temporal_distance(other),
        }
    }

    /// Whether `other` lies within `tolerance` of `self` on both
    /// components.
    pub fn is_within_tolerance(&self, other: &Self, tolerance: ScaledTolerance) -> (r: bool)
        requires
            self@.well_sized(),
            other@.well_sized(),
        ensures
            r == spec_within_tolerance(self@, other@, tolerance),
    {
        let d = self.distance(other);
        d.within_tolerance(tolerance)
    }
}

/// `raw * (640 / m) <= 40960` whenever `raw <= 64 * m`: scaling a raw
/// distance never exceeds the distance of two maximally different
/// full-length fingerprints.
proof fn lemma_lut_product_bound(raw: int, m: int)
    requires
        1 <= m <= 10,
        0 <= raw <= 64 * m,
    ensures
        raw * (640int / m) <= 40960,
{
    let q = 640int / m;
    assert(m * q <= 640) by (nonlinear_arith)
        requires 1 <= m <= 10, q == 640int / m,
    ;
    assert(raw * q <= (64 * m) * q) by (nonlinear_arith)
        requires raw <= 64 * m, q >= 0,
    ;
    assert((64 * m) * q == 64 * (m * q)) by (nonlinear_arith);
    assert(64 * (m * q) <= 64 * 640) by (nonlinear_arith)
        requires m * q <= 640,
    ;
}

/// A fingerprint equal to itself is at distance zero in both components.
pub proof fn lemma_distance_self(a: HashView)
    ensures
        a.spatial_distance(a) == 0,
        a.temporal_distance(a) == 0,
{
    let m = a.min_frames(a);
    lemma_xor_bitcount_sum_self(a.shash, m);
    lemma_xor_bitcount_sum_self(a.thash, m - 1);
    assert(xor_bitcount_sum(a.shash, a.shash, m) * spec_lut_entry(m) == 0) by (nonlinear_arith)
        requires xor_bitcount_sum(a.shash, a.shash, m) == 0,
    ;
    assert(xor_bitcount_sum(a.thash, a.thash, m - 1) * spec_lut_entry(m - 1) == 0)
        by (nonlinear_arith)
        requires xor_bitcount_sum(a.thash, a.thash, m - 1) == 0,
    ;
}

/// Distance is symmetric in both components.
pub proof fn lemma_distance_sym(a: HashView, b: HashView)
    ensures
        a.spatial_distance(b) == b.spatial_distance(a),
        a.temporal_distance(b) == b.temporal_distance(a),
{
    lemma_xor_bitcount_sum_sym(a.shash, b.shash, a.min_frames(b));
    lemma_xor_bitcount_sum_sym(a.thash, b.thash, a.min_frames(b) - 1);
}

/// Both distance components lie in `[0, 64 * HASH_DISTANCE_SCALING_FACTOR
/// * HASH_NUM_IMAGES]`; stated for fingerprints of equal frame count.
pub proof fn lemma_distance_bounds(a: HashView, b: HashView)
    requires
        a.wf(),
        b.wf(),
        a.num_frames == b.num_frames,
    ensures
        0 <= a.spatial_distance(b) <= 40960,
        0 <= a.temporal_distance(b) <= 40960,
{
    let m = a.min_frames(b);
    lemma_xor_bitcount_sum_le(a.shash, b.shash, m);
    lemma_xor_bitcount_sum_le(a.thash, b.thash, m - 1);
    lemma_lut_product_bound(xor_bitcount_sum(a.shash, b.shash, m) as int, m);
    lemma_lut_product_bound(xor_bitcount_sum(a.thash, b.thash, m - 1) as int, m - 1);
    assert(xor_bitcount_sum(a.shash, b.shash, m) * spec_lut_entry(m) >= 0) by (nonlinear_arith)
        requires spec_lut_entry(m) >= 0,
    ;
    assert(xor_bitcount_sum(a.thash, b.thash, m - 1) * spec_lut_entry(m - 1) >= 0)
        by (nonlinear_arith)
        requires spec_lut_entry(m - 1) >= 0,
    ;
}

/// A two-component distance between fingerprints.  Tolerance checks
/// compare the components separately; the summed value orders nodes in
/// the metric tree.
#[derive(Debug, Clone, Copy, PartialEq, Eq, Structural)]
pub struct Distance {
    pub temporal: u32,
    pub spatial: u32,
}

impl Distance {
    /// Whether both components are within their respective tolerance.
    pub fn within_tolerance(&self, tolerance: ScaledTolerance) -> (r: bool)
        ensures
            r == (self.spatial <= tolerance.spatial && self.temporal <= tolerance.temporal),
    {
        self.spatial <= tolerance.spatial && self.temporal <= tolerance.temporal
    }

    /// The two components folded into one scalar, as the metric tree
    /// orders its children.
    pub fn u32_value(&self) -> (r: u32)
        requires
            self.temporal + self.spatial <= u32::MAX,
        ensures
            r == self.temporal + self.spatial,
    {
        self.temporal + self.spatial
    }
}

impl TemporalHash {
    /// The temporal normalisation table: entry `m` serves fingerprints
    /// whose shared temporal word count is `m`; entry zero is padding
    /// so the table is indexed without an offset.
    pub fn calc_temporal_lut() -> (r: Vec<u32>)
        ensures
            r@.len() == 10,
            forall|m: int| 1 <= m < 10 ==> r@[m] == spec_lut_entry(m),
    {
        let mut r: Vec<u32> = Vec::new();
        r.push(0);
        let mut m: u32 = 1;
        while m < 10
            invariant
                1 <= m <= 10,
                r@.len() == m,
                forall|k: int| 1 <= k < m ==> r@[k] == spec_lut_entry(k),
            decreases 10 - m,
        {
            let e = Self::calc_lut_entry(m);
            r.push(e);
            m = m + 1;
        }
        r
    }

    /// The spatial normalisation table, one entry longer: a shared
    /// spatial word count runs up to the full frame count.
    pub fn calc_spatial_lut() -> (r: Vec<u32>)
        ensures
            r@.len() == 11,
            forall|m: int| 1 <= m < 11 ==> r@[m] == spec_lut_entry(m),
    {
        let mut r: Vec<u32> = Vec::new();
        r.push(0);
        let mut m: u32 = 1;
        while m < 11
            invariant
                1 <= m <= 11,
                r@.len() == m,
                forall|k: int| 1 <= k < m ==> r@[k] == spec_lut_entry(k),
            decreases 11 - m,
        {
            let e = Self::calc_lut_entry(m);
            r.push(e);
            m = m + 1;
        }
        r
    }
}

} // verus!
