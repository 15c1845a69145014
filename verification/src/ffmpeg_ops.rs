//! Interpretation of the external decoder and probe tools' output.
//!
//! The tools themselves run outside the library; what arrives here is
//! their text.  `is_video_file` reads the probe's compact stream line —
//! `codec_name|codec_type|duration` — and decides whether the path is a
//! video worth hashing: a video stream, not one of the image or text
//! codecs containers sometimes carry, and at least a second long.

use vstd::prelude::*;

use crate::video_stats::spec_parse_millis;

verus! {

/// Why a decoder or probe invocation failed.
#[derive(Debug, Clone)]
pub enum FfmpegErrorKind {
    /// The tool itself reported an error; the message holds its output,
    /// truncated.
    FfmpegFailure(String),
    /// The invocation could not run or its output could not be read.
    OtherFailure(String),
    /// The tool reported success but decoded no frames.
    NoFrames,
}

/// The decoder configuration for one sampling run.
#[derive(Debug, Clone)]
pub struct FfmpegCfg {
    pub framerate: String,
    pub dimensions_x: u32,
    pub dimensions_y: u32,
    pub num_frames: u32,
    pub cropdetect: bool,
}

/// Decoder error messages are cut to this many characters so a
/// pathological input cannot balloon the error list.
pub const FFMPEG_ERROR_LIMIT: usize = 500;

/// Truncate a decoder error message to its first
/// `FFMPEG_ERROR_LIMIT` characters.
pub fn make_ffmpeg_failure(msg: String) -> (r: FfmpegErrorKind)
    ensures
        r matches FfmpegErrorKind::FfmpegFailure(m) && m@ == (if msg@.len() <= 500 {
            msg@
        } else {
            msg@.take(500)
        }),
{
    let n = msg.as_str().unicode_len();
    if n <= FFMPEG_ERROR_LIMIT {
        FfmpegErrorKind::FfmpegFailure(msg)
    } else {
        let cut = msg.as_str().substring_char(0, FFMPEG_ERROR_LIMIT).to_owned();
        proof {
            assert(cut@ =~= msg@.take(500));
        }
        FfmpegErrorKind::FfmpegFailure(cut)
    }
}

/// The position of the first `|` at or after `from`, or the length.
pub open spec fn first_bar_from(s: Seq<char>, from: int) -> int
    decreases s.len() - from,
{
    if from < 0 || from >= s.len() {
        s.len() as int
    } else if s[from] == '|' {
        from
    } else {
        first_bar_from(s, from + 1)
    }
}

/// The verdict `is_video_file` reaches on a probe stream line
/// `codec_name|codec_type|duration`: the stream is a video, its codec
/// is none of the image or text codecs, and its duration — unreadable
/// durations passing — is at least one second.
pub open spec fn spec_is_video_file(s: Seq<char>) -> bool {
    let e0 = first_bar_from(s, 0);
    let name = s.take(e0);
    let e1 = first_bar_from(s, e0 + 1);
    let ctype = if e0 < s.len() {
        s.subrange(e0 + 1, e1)
    } else {
        Seq::empty()
    };
    let e2 = first_bar_from(s, e1 + 1);
    let durs = if e1 < s.len() {
        s.subrange(e1 + 1, e2)
    } else {
        Seq::empty()
    };
    let dur_ms = match spec_parse_millis(durs) {
        Some(v) => v as int,
        None => 999000,
    };
    &&& ctype == "video"@
    &&& name != "mjpeg"@
    &&& name != "png"@
    &&& name != "text"@
    &&& name != "txt"@
    &&& dur_ms >= 1000
}

/// The first `|` at or after `from`.
fn find_bar(s: &str, from: usize) -> (r: usize)
    requires
        from <= s@.len(),
    ensures
        r == first_bar_from(s@, from as int),
        from <= r <= s@.len(),
{
    let n = s.unicode_len();
    let mut i: usize = from;
    while i < n
        invariant
            n == s@.len(),
            from <= i <= n,
            first_bar_from(s@, from as int) == first_bar_from(s@, i as int),
        decreases n - i,
    {
        if s.get_char(i) == '|' {
            return i;
        }
        i = i + 1;
    }
    n
}

/// Decide from the probe's stream line whether a path holds a video
/// worth fingerprinting.
pub fn is_video_file(streams_string: &str) -> (r: bool)
    ensures
        r == spec_is_video_file(streams_string@),
{
    let s = streams_string;
    let n = s.unicode_len();
    let e0 = find_bar(s, 0);
    let name = s.substring_char(0, e0).to_owned();
    let e1 = if e0 < n {
        find_bar(s, e0 + 1)
    } else {
        proof {
            assert(first_bar_from(s@, e0 + 1) == s@.len());
        }
        n
    };
    let ctype = if e0 < n {
        s.substring_char(e0 + 1, e1).to_owned()
    } else {
        String::new()
    };
    let e2 = if e1 < n {
        find_bar(s, e1 + 1)
    } else {
        proof {
            assert(first_bar_from(s@, e1 + 1) == s@.len());
        }
        n
    };
    let durs = if e1 < n {
        s.substring_char(e1 + 1, e2).to_owned()
    } else {
        String::new()
    };
    proof {
        reveal_strlit("video");
        reveal_strlit("mjpeg");
        reveal_strlit("png");
        reveal_strlit("text");
        reveal_strlit("txt");
        reveal_strlit("");
        assert(name@ =~= s@.take(first_bar_from(s@, 0)));
        if e0 >= n {
            assert(ctype@ =~= Seq::<char>::empty());
        }
        if e1 >= n {
            assert(durs@ =~= Seq::<char>::empty());
        }
    }
    let video_lit: String = "video".to_owned();
    if !(ctype == video_lit) {
        return false;
    }
    let m1: String = "mjpeg".to_owned();
    let m2: String = "png".to_owned();
    let m3: String = "text".to_owned();
    let m4: String = "txt".to_owned();
    if name == m1 || name == m2 || name == m3 || name == m4 {
        return false;
    }
    let dur_ms: u64 = match crate::video_stats::parse_decimal_millis(durs.as_str()) {
        Some(v) => v,
        None => 999000,
    };
    dur_ms >= 1000
}

// ----------------------------------------------------------------------
// Letterbox-crop selection from the decoder's detection pass.
// ----------------------------------------------------------------------

/// The position of the first newline at or after `from`, or the length.
pub open spec fn first_nl_from(s: Seq<char>, from: int) -> int
    decreases s.len() - from,
{
    if from < 0 || from >= s.len() {
        s.len() as int
    } else if s[from] == '\n' {
        from
    } else {
        first_nl_from(s, from + 1)
    }
}

/// The position of the first colon at or after `from`, or the length.
pub open spec fn first_colon_from(s: Seq<char>, from: int) -> int
    decreases s.len() - from,
{
    if from < 0 || from >= s.len() {
        s.len() as int
    } else if s[from] == ':' {
        from
    } else {
        first_colon_from(s, from + 1)
    }
}

/// The first position in `[i, hi)` where the crop marker `crop=`
/// starts, or `hi` when it never does.
pub open spec fn first_crop_from(s: Seq<char>, i: int, hi: int) -> int
    decreases hi - i,
{
    if i < 0 || i + 5 > hi || hi > s.len() {
        hi
    } else if s.subrange(i, i + 5) == "crop="@ {
        i
    } else {
        first_crop_from(s, i + 1, hi)
    }
}

/// The crop rectangle one line reports: the text after its first
/// `crop=` marker, if any.
pub open spec fn spec_line_crop(s: Seq<char>, lo: int, hi: int) -> Option<Seq<char>> {
    let p = first_crop_from(s, lo, hi);
    if p < hi {
        Option::Some(s.subrange(p + 5, hi))
    } else {
        Option::None
    }
}

/// A rectangle field's value: its leading decimal number, or the
/// smallest key when it is missing, malformed or outsized.
pub open spec fn spec_crop_field_val(f: Seq<char>) -> int {
    match crate::video_stats::spec_parse_u64(f) {
        Option::Some(v) => if v <= 0x7FFF_FFFF_FFFF_FFFF {
            v as int
        } else {
            -0x8000_0000_0000_0000
        },
        Option::None => -0x8000_0000_0000_0000,
    }
}

/// A rectangle's pessimism key: its first two `:`-separated fields
/// summed, saturated into the signed 64-bit range.
pub open spec fn spec_crop_key(c: Seq<char>) -> int {
    let c0 = first_colon_from(c, 0);
    let f0 = c.take(c0);
    let c1 = first_colon_from(c, c0 + 1);
    let f1 = if c0 < c.len() {
        c.subrange(c0 + 1, c1)
    } else {
        Seq::empty()
    };
    let sum = spec_crop_field_val(f0) + spec_crop_field_val(f1);
    if sum > 0x7FFF_FFFF_FFFF_FFFF {
        0x7FFF_FFFF_FFFF_FFFF
    } else if sum < -0x8000_0000_0000_0000 {
        -0x8000_0000_0000_0000
    } else {
        sum
    }
}

/// Keep the rectangle with the greater key; the later one on a tie.
pub open spec fn spec_merge_crop(best: Option<Seq<char>>, rest: Option<Seq<char>>) -> Option<
    Seq<char>,
> {
    match rest {
        Option::Some(rc) => match best {
            Option::Some(bc) => if spec_crop_key(rc) >= spec_crop_key(bc) {
                Option::Some(rc)
            } else {
                Option::Some(bc)
            },
            Option::None => Option::Some(rc),
        },
        Option::None => best,
    }
}

/// The most pessimistic crop rectangle reported from position `lo` on:
/// line by line, the rectangle with the greatest summed extent, the
/// last on a tie.
pub open spec fn spec_best_crop_from(s: Seq<char>, lo: int) -> Option<Seq<char>>
    decreases s.len() + 1 - lo,
    via spec_best_crop_from_dec
{
    if lo < 0 || lo >= s.len() {
        Option::None
    } else {
        let hi = first_nl_from(s, lo);
        spec_merge_crop(spec_line_crop(s, lo, hi), spec_best_crop_from(s, hi + 1))
    }
}

#[via_fn]
proof fn spec_best_crop_from_dec(s: Seq<char>, lo: int) {
    if 0 <= lo < s.len() {
        lemma_first_nl_bounds(s, lo);
    }
}

/// The newline scan never looks backwards or past the end.
proof fn lemma_first_nl_bounds(s: Seq<char>, from: int)
    requires
        0 <= from <= s.len(),
    ensures
        from <= first_nl_from(s, from) <= s.len(),
    decreases s.len() - from,
{
    if from < s.len() && s[from] != '\n' {
        lemma_first_nl_bounds(s, from + 1);
    }
}

/// A text with its trailing whitespace dropped.
pub open spec fn spec_trim_end(s: Seq<char>) -> Seq<char>
    decreases s.len(),
{
    if s.len() > 0 && (s.last() == ' ' || s.last() == '\t' || s.last() == '\r' || s.last()
        == '\n') {
        spec_trim_end(s.drop_last())
    } else {
        s
    }
}

/// The crop filter argument the detection pass asks for: the most
/// pessimistic reported rectangle, trailing whitespace dropped.
pub open spec fn spec_best_crop(s: Seq<char>) -> Option<Seq<char>> {
    match spec_best_crop_from(s, 0) {
        Option::Some(c) => Option::Some(spec_trim_end(c)),
        Option::None => Option::None,
    }
}

/// The first newline at or after `from`.
fn find_nl(s: &str, from: usize) -> (r: usize)
    requires
        from <= s@.len(),
    ensures
        r == first_nl_from(s@, from as int),
        from <= r <= s@.len(),
{
    let n = s.unicode_len();
    let mut i: usize = from;
    while i < n
        invariant
            n == s@.len(),
            from <= i <= n,
            first_nl_from(s@, from as int) == first_nl_from(s@, i as int),
        decreases n - i,
    {
        if s.get_char(i) == '\n' {
            return i;
        }
        i = i + 1;
    }
    n
}

/// The first colon at or after `from`.
fn find_colon(s: &str, from: usize) -> (r: usize)
    requires
        from <= s@.len(),
    ensures
        r == first_colon_from(s@, from as int),
        from <= r <= s@.len(),
{
    let n = s.unicode_len();
    let mut i: usize = from;
    while i < n
        invariant
            n == s@.len(),
            from <= i <= n,
            first_colon_from(s@, from as int) == first_colon_from(s@, i as int),
        decreases n - i,
    {
        if s.get_char(i) == ':' {
            return i;
        }
        i = i + 1;
    }
    n
}

/// The first `crop=` marker in `[lo, hi)`, or `hi`.
fn find_crop(s: &str, lo: usize, hi: usize) -> (r: usize)
    requires
        lo <= hi <= s@.len(),
    ensures
        r == first_crop_from(s@, lo as int, hi as int),
        lo <= r <= hi,
        r < hi ==> r + 5 <= hi,
    decreases hi - lo,
{
    proof {
        reveal_strlit("crop=");
    }
    let mut i: usize = lo;
    while i < hi && hi - i >= 5
        invariant
            lo <= i,
            i <= hi,
            hi <= s@.len(),
            first_crop_from(s@, lo as int, hi as int) == first_crop_from(s@, i as int, hi as int),
        decreases hi - i,
    {
        let m = s.get_char(i) == 'c' && s.get_char(i + 1) == 'r' && s.get_char(i + 2) == 'o'
            && s.get_char(i + 3) == 'p' && s.get_char(i + 4) == '=';
        proof {
            reveal_strlit("crop=");
            if m {
                assert(s@.subrange(i as int, i + 5) =~= "crop="@);
            } else {
                assert(s@.subrange(i as int, i + 5) != "crop="@) by {
                    if s@.subrange(i as int, i + 5) == "crop="@ {
                        assert(s@.subrange(i as int, i + 5)[0] == 'c');
                        assert(s@.subrange(i as int, i + 5)[1] == 'r');
                        assert(s@.subrange(i as int, i + 5)[2] == 'o');
                        assert(s@.subrange(i as int, i + 5)[3] == 'p');
                        assert(s@.subrange(i as int, i + 5)[4] == '=');
                    }
                }
            }
        }
        if m {
            return i;
        }
        i = i + 1;
    }
    hi
}

/// A rectangle field's leading number, clamped into the key domain.
fn crop_field_val(f: &str) -> (r: i64)
    ensures
        r == spec_crop_field_val(f@),
{
    match crate::video_stats::parse_u64(f) {
        Some(v) => {
            if v <= 0x7FFF_FFFF_FFFF_FFFF {
                v as i64
            } else {
                i64::MIN
            }
        },
        None => i64::MIN,
    }
}

/// A rectangle's pessimism key.
fn crop_key(c: &str) -> (r: i64)
    ensures
        r == spec_crop_key(c@),
{
    let n = c.unicode_len();
    let c0 = find_colon(c, 0);
    let f0 = c.substring_char(0, c0);
    let f1 = if c0 < n {
        let c1 = find_colon(c, c0 + 1);
        c.substring_char(c0 + 1, c1)
    } else {
        proof {
            assert(first_colon_from(c@, c0 + 1) == c@.len());
        }
        c.substring_char(n, n)
    };
    proof {
        assert(f0@ =~= c@.take(first_colon_from(c@, 0)));
        if c0 >= n {
            assert(f1@ =~= Seq::<char>::empty());
        }
    }
    let a = crop_field_val(f0);
    let b = crop_field_val(f1);
    let sum = (a as i128) + (b as i128);
    if sum > i64::MAX as i128 {
        i64::MAX
    } else if sum < i64::MIN as i128 {
        i64::MIN
    } else {
        sum as i64
    }
}

/// Pick the most pessimistic crop rectangle out of the decoder's
/// detection output: per line the text after `crop=`, keyed by the sum
/// of its first two fields, the greatest key winning and the last such
/// line on a tie; trailing whitespace dropped.
pub fn best_crop_rect(stderr_text: &str) -> (r: Option<String>)
    ensures
        r is Some <==> spec_best_crop(stderr_text@) is Some,
        r matches Some(t) ==> spec_best_crop(stderr_text@) == Some(t@),
{
    let n = stderr_text.unicode_len();
    let mut best: Option<String> = None;
    let mut best_key: i64 = 0;
    let mut lo: usize = 0;
    while lo < n
        invariant
            n == stderr_text@.len(),
            lo <= n,
            best matches Some(b) ==> best_key == spec_crop_key(b@),
            spec_best_crop_from(stderr_text@, 0) == spec_merge_crop(
                match best {
                    Option::Some(b) => Option::Some(b@),
                    Option::None => Option::None,
                },
                spec_best_crop_from(stderr_text@, lo as int),
            ),
        decreases n - lo,
    {
        let hi = find_nl(stderr_text, lo);
        let p = find_crop(stderr_text, lo, hi);
        let ghost line = spec_line_crop(stderr_text@, lo as int, hi as int);
        if p < hi {
            let cand = stderr_text.substring_char(p + 5, hi).to_owned();
            proof {
                assert(cand@ =~= stderr_text@.subrange(p + 5, hi as int));
                assert(line == Option::Some(cand@));
            }
            let key = crop_key(cand.as_str());
            let take_it = match &best {
                Some(_) => key >= best_key,
                None => true,
            };
            if take_it {
                best = Some(cand);
                best_key = key;
            }
        }
        proof {
            lemma_merge_crop_assoc(
                match best {
                    Option::Some(ref b) => Option::Some(b@),
                    Option::None => Option::None,
                },
                line,
                spec_best_crop_from(stderr_text@, hi + 1),
            );
        }
        if hi < n {
            lo = hi + 1;
        } else {
            proof {
                assert(spec_best_crop_from(stderr_text@, hi + 1) is None);
                assert(spec_best_crop_from(stderr_text@, n as int) is None);
            }
            lo = n;
        }
    }
    proof {
        assert(spec_best_crop_from(stderr_text@, lo as int) is None);
    }
    match best {
        Some(b) => {
            let trimmed = trim_end_exec(&b);
            Some(trimmed)
        },
        None => None,
    }
}

/// The text with its trailing whitespace dropped.
fn trim_end_exec(s: &String) -> (r: String)
    ensures
        r@ == spec_trim_end(s@),
{
    let n = s.as_str().unicode_len();
    let mut end: usize = n;
    proof {
        assert(s@.take(n as int) =~= s@);
    }
    while end > 0
        invariant
            n == s@.len(),
            end <= n,
            spec_trim_end(s@) == spec_trim_end(s@.take(end as int)),
        decreases end,
    {
        let c = s.as_str().get_char(end - 1);
        if c == ' ' || c == '\t' || c == '\r' || c == '\n' {
            proof {
                assert(s@.take(end as int).last() == s@[end - 1]);
                assert(s@.take(end as int).drop_last() =~= s@.take(end - 1));
            }
            end = end - 1;
        } else {
            proof {
                assert(s@.take(end as int).last() == s@[end - 1]);
                assert(spec_trim_end(s@.take(end as int)) == s@.take(end as int));
            }
            let r = s.as_str().substring_char(0, end).to_owned();
            proof {
                assert(r@ =~= s@.take(end as int));
            }
            return r;
        }
    }
    proof {
        assert(s@.take(0) =~= Seq::<char>::empty());
    }
    String::new()
}

/// Folding the merge from the left agrees with the right-nested spec
/// recursion: both keep the greatest key, the later rectangle on ties.
proof fn lemma_merge_crop_assoc(
    a: Option<Seq<char>>,
    b: Option<Seq<char>>,
    c: Option<Seq<char>>,
)
    ensures
        spec_merge_crop(a, spec_merge_crop(b, c)) == spec_merge_crop(spec_merge_crop(a, b), c),
{
}

} // verus!
