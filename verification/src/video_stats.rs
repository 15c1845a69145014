//! Per-video metadata gathered by the stream probe.
//!
//! Durations are held in milliseconds so that the five-percent duration
//! match stays in exact integer arithmetic.  Fields the probe cannot
//! determine default to zero or false.

use vstd::prelude::*;

use crate::concrete_cachers::ProcessingErrorKind;

verus! {

/// Metadata of one video file.
#[derive(Debug, Clone, Copy, PartialEq)]
pub struct VideoStats {
    pub duration_millis: u64,
    pub size: u64,
    pub bit_rate: u32,
    pub resolution: (u32, u32),
    pub has_audio: bool,
    pub png_size: u32,
}

/// Whether `b`'s duration lies within five percent of `a`'s:
/// `b / a` in `[0.95, 1.05]`, written without division.  A zero duration
/// matches nothing, its ratio being undefined.
pub open spec fn spec_duration_match(a: u64, b: u64) -> bool {
    &&& a > 0
    &&& 95 * a <= 100 * b
    &&& 100 * b <= 105 * a
}

impl VideoStats {
    pub open spec fn wf(self) -> bool {
        self.duration_millis <= 0xFFFF_FFFF_FFFF
    }

    /// Whether `other`'s duration lies within five percent of this one's.
    pub fn is_match(&self, other: &Self) -> (r: bool)
        requires
            self.wf(),
            other.wf(),
        ensures
            r == spec_duration_match(self.duration_millis, other.duration_millis),
    {
        self.duration_millis > 0 && 95 * self.duration_millis <= 100 * other.duration_millis
            && 100 * other.duration_millis <= 105 * self.duration_millis
    }
}

/// The decimal parser's state machine: walk the characters from `i`
/// with the whole part, fraction digits and flags accumulated so far.
pub open spec fn spec_parse_state(
    s: Seq<char>,
    i: int,
    whole: int,
    frac: int,
    fd: int,
    seen_dot: bool,
    seen_digit: bool,
) -> Option<(int, int, int)>
    decreases s.len() - i,
{
    if i < 0 || i >= s.len() {
        if seen_digit {
            Some((whole, frac, fd))
        } else {
            None
        }
    } else {
        let c = s[i];
        if c == '.' {
            if seen_dot || !seen_digit {
                None
            } else {
                spec_parse_state(s, i + 1, whole, frac, fd, true, seen_digit)
            }
        } else if '0' <= c && c <= '9' {
            let d = (c as u32 - '0' as u32) as int;
            if !seen_dot {
                if whole >= 0x5AF3_107A_4000 {
                    None
                } else {
                    spec_parse_state(s, i + 1, whole * 10 + d, frac, fd, seen_dot, true)
                }
            } else if fd < 3 {
                spec_parse_state(s, i + 1, whole, frac * 10 + d, fd + 1, seen_dot, true)
            } else {
                spec_parse_state(s, i + 1, whole, frac, fd, seen_dot, true)
            }
        } else {
            None
        }
    }
}

/// The fraction digits scaled to milliseconds.
pub open spec fn spec_frac_millis(frac: int, fd: int) -> int {
    if fd == 0 {
        0
    } else if fd == 1 {
        frac * 100
    } else if fd == 2 {
        frac * 10
    } else {
        frac
    }
}

/// What `parse_decimal_millis` returns: the parsed seconds in
/// milliseconds, truncated beyond the third fraction digit, or nothing
/// for an empty, overlong, malformed or overlarge input.
pub open spec fn spec_parse_millis(s: Seq<char>) -> Option<u64> {
    if 1 <= s.len() <= 15 {
        match spec_parse_state(s, 0, 0, 0, 0, false, false) {
            Some(p) => if p.0 <= 0xFFFF_FFFF {
                Some((p.0 * 1000 + spec_frac_millis(p.1, p.2)) as u64)
            } else {
                None
            },
            None => None,
        }
    } else {
        None
    }
}

/// Parse a non-negative decimal number of seconds, such as the probe
/// prints, into milliseconds, truncating beyond the third fraction
/// digit.  `None` for an empty, malformed or overlarge input.
pub fn parse_decimal_millis(s: &str) -> (r: Option<u64>)
    ensures
        r == spec_parse_millis(s@),
        r matches Some(v) ==> v <= 0xFFFF_FFFF_FFFF,
{
    let n = s.unicode_len();
    if n == 0 || n > 15 {
        return None;
    }
    let mut whole: u64 = 0;
    let mut frac: u64 = 0;
    let mut frac_digits: u64 = 0;
    let mut seen_dot = false;
    let mut seen_digit = false;
    let mut i: usize = 0;
    while i < n
        invariant
            n == s@.len(),
            1 <= n <= 15,
            i <= n,
            whole < 0x3_8D7E_A4C6_8000,
            frac_digits <= 3,
            frac < (if frac_digits == 0 {
                1int
            } else if frac_digits == 1 {
                10int
            } else if frac_digits == 2 {
                100int
            } else {
                1000int
            }),
            spec_parse_state(s@, 0, 0, 0, 0, false, false) == spec_parse_state(
                s@,
                i as int,
                whole as int,
                frac as int,
                frac_digits as int,
                seen_dot,
                seen_digit,
            ),
        decreases n - i,
    {
        let c = s.get_char(i);
        if c == '.' {
            if seen_dot || !seen_digit {
                return None;
            }
            seen_dot = true;
        } else if c >= '0' && c <= '9' {
            let d = (c as u32 - '0' as u32) as u64;
            if !seen_dot {
                if whole >= 0x5AF3_107A_4000 {
                    return None;
                }
                whole = whole * 10 + d;
            } else if frac_digits < 3 {
                frac = frac * 10 + d;
                frac_digits = frac_digits + 1;
            }
            seen_digit = true;
        } else {
            return None;
        }
        i = i + 1;
    }
    if !seen_digit {
        return None;
    }
    let mut scaled = frac;
    if frac_digits == 0 {
        scaled = 0;
    } else if frac_digits == 1 {
        scaled = frac * 100;
    } else if frac_digits == 2 {
        scaled = frac * 10;
    }
    if whole > 0xFFFF_FFFF {
        return None;
    }
    Some(whole * 1000 + scaled)
}

/// Whether the probe text parses as a JSON document.  serde_json
/// decides this from the text alone, so the outcome has a name.
pub uninterp spec fn probe_doc_ok(s: Seq<char>) -> bool;

/// The named field of the document's top-level `format` object, when
/// the document parses and the field is a string.  A function of the
/// text and the field name alone.
pub uninterp spec fn probe_format_field(s: Seq<char>, name: Seq<char>) -> Option<Seq<char>>;

/// Each entry of the document's top-level `streams` array as its codec
/// type and pixel dimensions, in order; empty when the document does
/// not parse or carries no such array.  A function of the text alone.
pub uninterp spec fn probe_streams(s: Seq<char>) -> Seq<(Seq<char>, Option<u64>, Option<u64>)>;

/// Relies on serde_json::from_str::<Value>: whether the text is a JSON
/// document.
#[verifier::external_body]
fn probe_parses(s: &str) -> (r: bool)
    ensures
        r == probe_doc_ok(s@),
{
    serde_json::from_str::<serde_json::Value>(s).is_ok()
}

/// Relies on serde_json's from_str, Value::get and Value::as_str: the
/// named field of the `format` object as text, if it is text.
#[verifier::external_body]
fn probe_field(s: &str, name: &str) -> (r: Option<String>)
    ensures
        r is Some <==> probe_format_field(s@, name@) is Some,
        r matches Some(t) ==> probe_format_field(s@, name@) == Some(t@),
{
    serde_json::from_str::<serde_json::Value>(s).ok().and_then(
        |v| v.get("format").and_then(|f| f.get(name)).and_then(|x| x.as_str()).map(
            |t| t.to_owned(),
        ),
    )
}

/// Relies on serde_json's from_str, Value::get, as_array, as_str and
/// as_u64: each stream's codec type and pixel dimensions, in order.
#[verifier::external_body]
fn probe_stream_fields(s: &str) -> (r: Vec<(String, Option<u64>, Option<u64>)>)
    ensures
        r@.map_values(|p: (String, Option<u64>, Option<u64>)| (p.0@, p.1, p.2)) == probe_streams(
            s@,
        ),
{
    let parsed = serde_json::from_str::<serde_json::Value>(s).ok();
    let arr = parsed.as_ref().and_then(|v| v.get("streams")).and_then(serde_json::Value::as_array);
    let streams: &[serde_json::Value] = arr.map(|a| a.as_slice()).unwrap_or(&[]);
    streams
        .iter()
        .map(|st| (
            st.get("codec_type").and_then(serde_json::Value::as_str).unwrap_or("").to_owned(),
            st.get("width").and_then(serde_json::Value::as_u64),
            st.get("height").and_then(serde_json::Value::as_u64),
        ))
        .collect()
}

/// The digit-string parser's state: the value accumulated over the
/// first `i` characters, all digits, or nothing on a malformed input.
pub open spec fn spec_parse_u64_state(s: Seq<char>, i: int, acc: int) -> Option<int>
    decreases s.len() - i,
{
    if i < 0 || i >= s.len() {
        Some(acc)
    } else {
        let c = s[i];
        if '0' <= c && c <= '9' {
            if acc > 0x1999_9999_9999_9999 {
                None
            } else {
                spec_parse_u64_state(s, i + 1, acc * 10 + (c as u32 - '0' as u32))
            }
        } else {
            None
        }
    }
}

/// What `parse_u64` returns: the decimal value of a non-empty digit
/// string that fits in 64 bits.
pub open spec fn spec_parse_u64(s: Seq<char>) -> Option<u64> {
    if s.len() >= 1 {
        match spec_parse_u64_state(s, 0, 0) {
            Some(v) => if v <= u64::MAX {
                Some(v as u64)
            } else {
                None
            },
            None => None,
        }
    } else {
        None
    }
}

/// Parse a non-empty decimal digit string into a 64-bit integer.
pub fn parse_u64(s: &str) -> (r: Option<u64>)
    ensures
        r == spec_parse_u64(s@),
{
    let n = s.unicode_len();
    if n == 0 {
        return None;
    }
    let mut acc: u64 = 0;
    let mut i: usize = 0;
    while i < n
        invariant
            n == s@.len(),
            i <= n,
            acc <= u64::MAX,
            spec_parse_u64_state(s@, 0, 0) == spec_parse_u64_state(s@, i as int, acc as int),
        decreases n - i,
    {
        let c = s.get_char(i);
        if !(c >= '0' && c <= '9') {
            return None;
        }
        let d = (c as u32 - '0' as u32) as u64;
        if acc > 0x1999_9999_9999_9999 {
            return None;
        }
        if acc == 0x1999_9999_9999_9999 && d > 5 {
            proof {
                assert(spec_parse_u64_state(s@, i + 1, acc * 10 + d) == spec_parse_u64_state(
                    s@,
                    0,
                    0,
                ));
                lemma_parse_u64_state_min(s@, i + 1, acc as int * 10 + d as int);
            }
            return None;
        }
        acc = acc * 10 + d;
        i = i + 1;
    }
    Some(acc)
}

/// The accumulated value never shrinks as more digits arrive.
proof fn lemma_parse_u64_state_min(s: Seq<char>, i: int, acc: int)
    requires
        acc >= 0,
    ensures
        spec_parse_u64_state(s, i, acc) matches Some(v) ==> v >= acc,
    decreases s.len() - i,
{
    if 0 <= i < s.len() {
        let c = s[i];
        if '0' <= c && c <= '9' {
            if acc <= 0x1999_9999_9999_9999 {
                lemma_parse_u64_state_min(s, i + 1, acc * 10 + (c as u32 - '0' as u32));
            }
        }
    }
}

/// The view of an optional text field.
pub open spec fn spec_opt_view(o: Option<String>) -> Option<Seq<char>> {
    match o {
        Option::Some(t) => Option::Some(t@),
        Option::None => Option::None,
    }
}

/// The first stream of codec type `video`, from position `i` on.
pub open spec fn spec_first_video_from(
    streams: Seq<(Seq<char>, Option<u64>, Option<u64>)>,
    i: int,
) -> Option<(Option<u64>, Option<u64>)>
    decreases streams.len() - i,
{
    if i < 0 || i >= streams.len() {
        Option::None
    } else if streams[i].0 == "video"@ {
        Option::Some((streams[i].1, streams[i].2))
    } else {
        spec_first_video_from(streams, i + 1)
    }
}

/// Whether any of the first `n` streams has codec type `audio`.
pub open spec fn spec_any_audio(streams: Seq<(Seq<char>, Option<u64>, Option<u64>)>, n: int) -> bool
    decreases n,
{
    if n <= 0 {
        false
    } else {
        spec_any_audio(streams, n - 1) || streams[n - 1].0 == "audio"@
    }
}

/// A probed pixel dimension as stored: missing becomes zero, an
/// outsized value keeps its low 32 bits.
pub open spec fn spec_dim32(w: Option<u64>) -> u32 {
    match w {
        Option::Some(v) => (v % 0x1_0000_0000) as u32,
        Option::None => 0u32,
    }
}

/// What `stats_from_probe_fields` returns: the metadata record spelled
/// out field by field, or the error a present but malformed number
/// forces — float-shaped duration first, integer-shaped size and bit
/// rate after it.
pub open spec fn spec_stats_from_fields(
    duration: Option<Seq<char>>,
    size: Option<Seq<char>>,
    bit_rate: Option<Seq<char>>,
    streams: Seq<(Seq<char>, Option<u64>, Option<u64>)>,
    png_size: u32,
) -> Result<VideoStats, ProcessingErrorKind> {
    if duration matches Some(d) && spec_parse_millis(d) is None {
        Result::Err(ProcessingErrorKind::ProbeFloatParse)
    } else if size matches Some(sz) && spec_parse_u64(sz) is None {
        Result::Err(ProcessingErrorKind::ProbeIntParse)
    } else if bit_rate matches Some(br) && !(spec_parse_u64(br) matches Some(v) && v
        <= u32::MAX) {
        Result::Err(ProcessingErrorKind::ProbeIntParse)
    } else {
        let fv = spec_first_video_from(streams, 0);
        Result::Ok(
            VideoStats {
                duration_millis: match duration {
                    Option::Some(d) => spec_parse_millis(d)->Some_0,
                    Option::None => 0u64,
                },
                size: match size {
                    Option::Some(sz) => spec_parse_u64(sz)->Some_0,
                    Option::None => 0u64,
                },
                bit_rate: match bit_rate {
                    Option::Some(br) => (spec_parse_u64(br)->Some_0) as u32,
                    Option::None => 0u32,
                },
                resolution: (
                    match fv {
                        Option::Some(p) => spec_dim32(p.0),
                        Option::None => 0u32,
                    },
                    match fv {
                        Option::Some(p) => spec_dim32(p.1),
                        Option::None => 0u32,
                    },
                ),
                has_audio: spec_any_audio(streams, streams.len() as int),
                png_size,
            },
        )
    }
}

/// Assemble the metadata from the probe's plain fields, exactly as
/// `spec_stats_from_fields` spells it out: missing fields default to
/// zero, a present but malformed number is an error, the first video
/// stream supplies the resolution, and any audio stream sets the audio
/// flag.
pub fn stats_from_probe_fields(
    duration: &Option<String>,
    size: &Option<String>,
    bit_rate: &Option<String>,
    streams: &Vec<(String, Option<u64>, Option<u64>)>,
    png_size: u32,
) -> (r: Result<VideoStats, ProcessingErrorKind>)
    ensures
        r == spec_stats_from_fields(
            spec_opt_view(*duration),
            spec_opt_view(*size),
            spec_opt_view(*bit_rate),
            streams@.map_values(|p: (String, Option<u64>, Option<u64>)| (p.0@, p.1, p.2)),
            png_size,
        ),
        r matches Ok(st) ==> st.wf(),
{
    let ghost sv = streams@.map_values(|p: (String, Option<u64>, Option<u64>)| (p.0@, p.1, p.2));
    let duration_millis: u64 = match duration {
        Some(d) => match parse_decimal_millis(d.as_str()) {
            Some(v) => v,
            None => {
                return Err(ProcessingErrorKind::ProbeFloatParse);
            },
        },
        None => 0,
    };
    let size_v: u64 = match size {
        Some(sz) => match parse_u64(sz.as_str()) {
            Some(v) => v,
            None => {
                return Err(ProcessingErrorKind::ProbeIntParse);
            },
        },
        None => 0,
    };
    let bit_rate_v: u32 = match bit_rate {
        Some(br) => match parse_u64(br.as_str()) {
            Some(v) => {
                if v <= u32::MAX as u64 {
                    v as u32
                } else {
                    return Err(ProcessingErrorKind::ProbeIntParse);
                }
            },
            None => {
                return Err(ProcessingErrorKind::ProbeIntParse);
            },
        },
        None => 0,
    };
    let mut width: u32 = 0;
    let mut height: u32 = 0;
    let mut saw_video = false;
    let mut has_audio = false;
    let mut i: usize = 0;
    let n = streams.len();
    let video_lit: String = "video".to_owned();
    let audio_lit: String = "audio".to_owned();
    proof {
        reveal_strlit("video");
        reveal_strlit("audio");
    }
    while i < n
        invariant
            n == streams@.len(),
            i <= n,
            sv == streams@.map_values(|p: (String, Option<u64>, Option<u64>)| (p.0@, p.1, p.2)),
            video_lit@ == "video"@,
            audio_lit@ == "audio"@,
            !saw_video ==> width == 0 && height == 0 && spec_first_video_from(sv, 0)
                == spec_first_video_from(sv, i as int),
            saw_video ==> (spec_first_video_from(sv, 0) matches Some(p) && width == spec_dim32(
                p.0,
            ) && height == spec_dim32(p.1)),
            has_audio == spec_any_audio(sv, i as int),
        decreases n - i,
    {
        let (ct, w, h) = &streams[i];
        proof {
            assert(sv[i as int] == (streams@[i as int].0@, streams@[i as int].1, streams@[
            i as int].2));
        }
        if !saw_video && *ct == video_lit {
            saw_video = true;
            width = match w {
                Some(wv) => ((*wv % 0x1_0000_0000) as u32),
                None => 0,
            };
            height = match h {
                Some(hv) => ((*hv % 0x1_0000_0000) as u32),
                None => 0,
            };
        }
        if *ct == audio_lit {
            has_audio = true;
        }
        i = i + 1;
    }
    proof {
        if !saw_video {
            assert(spec_first_video_from(sv, n as int) is None);
        }
    }
    Ok(
        VideoStats {
            duration_millis,
            size: size_v,
            bit_rate: bit_rate_v,
            resolution: (width, height),
            has_audio,
            png_size,
        },
    )
}

impl VideoStats {
    /// Interpret the probe tool's JSON output, with the pre-computed
    /// png-sample size.  The caller runs the probe; this reads its
    /// text.  An unparsable document is a JSON error; otherwise the
    /// result is exactly `spec_stats_from_fields` over the document's
    /// named `format` fields and streams.
    pub fn from_probe_output(stats_string: &str, png_size: u32) -> (r: Result<
        VideoStats,
        ProcessingErrorKind,
    >)
        ensures
            r == (if !probe_doc_ok(stats_string@) {
                Result::<VideoStats, ProcessingErrorKind>::Err(ProcessingErrorKind::ProbeJsonParse)
            } else {
                spec_stats_from_fields(
                    probe_format_field(stats_string@, "duration"@),
                    probe_format_field(stats_string@, "size"@),
                    probe_format_field(stats_string@, "bit_rate"@),
                    probe_streams(stats_string@),
                    png_size,
                )
            }),
            r matches Ok(st) ==> st.wf() && st.png_size == png_size,
    {
        if !probe_parses(stats_string) {
            return Err(ProcessingErrorKind::ProbeJsonParse);
        }
        let duration = probe_field(stats_string, "duration");
        let size = probe_field(stats_string, "size");
        let bit_rate = probe_field(stats_string, "bit_rate");
        let streams = probe_stream_fields(stats_string);
        proof {
            assert(spec_opt_view(duration) == probe_format_field(stats_string@, "duration"@));
            assert(spec_opt_view(size) == probe_format_field(stats_string@, "size"@));
            assert(spec_opt_view(bit_rate) == probe_format_field(stats_string@, "bit_rate"@));
        }
        stats_from_probe_fields(&duration, &size, &bit_rate, &streams, png_size)
    }
}

} // verus!
