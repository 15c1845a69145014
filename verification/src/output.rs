//! Rendering of search results: the line-oriented text and the JSON
//! documents a run prints.  The driver only writes the returned text.

use vstd::prelude::*;

use crate::match_group::MatchGroupView;
use crate::search_output::{mg_views, SearchOutput};

verus! {

/// One path per line.
pub open spec fn spec_path_lines(ps: Seq<Seq<char>>, n: int) -> Seq<char>
    decreases n,
{
    if n <= 0 {
        Seq::empty()
    } else {
        spec_path_lines(ps, n - 1) + ps[n - 1] + "\n"@
    }
}

/// One group's text: the reference first when there is one, then the
/// duplicates, then a blank line.
pub open spec fn spec_group_text(g: MatchGroupView) -> Seq<char> {
    (match g.reference {
        Option::Some(rp) => rp + "\n"@,
        Option::None => Seq::empty(),
    }) + spec_path_lines(g.duplicates, g.duplicates.len() as int) + "\n"@
}

/// The groups' text, one after the other.
pub open spec fn spec_groups_text(gs: Seq<MatchGroupView>, n: int) -> Seq<char>
    decreases n,
{
    if n <= 0 {
        Seq::empty()
    } else {
        spec_groups_text(gs, n - 1) + spec_group_text(gs[n - 1])
    }
}

/// The JSON escape of one character: quotes and backslashes get a
/// backslash, control characters a four-digit escape, the rest stand.
pub open spec fn spec_json_escape_char(c: char) -> Seq<char> {
    if c == '"' {
        seq!['\\', '"']
    } else if c == '\\' {
        seq!['\\', '\\']
    } else if (c as u32) < 0x20 {
        seq!['\\', 'u', '0', '0', spec_hex_digit(((c as u32) / 16) as int), spec_hex_digit(
            ((c as u32) % 16) as int,
        )]
    } else {
        seq![c]
    }
}

/// A hexadecimal digit.
pub open spec fn spec_hex_digit(n: int) -> char {
    if n < 10 {
        (('0' as u32) + n) as char
    } else {
        (('a' as u32) + n - 10) as char
    }
}

/// The escape of a text's first `n` characters.
pub open spec fn spec_json_escape(s: Seq<char>, n: int) -> Seq<char>
    decreases n,
{
    if n <= 0 {
        Seq::empty()
    } else {
        spec_json_escape(s, n - 1) + spec_json_escape_char(s[n - 1])
    }
}

/// A JSON string literal for a path.
pub open spec fn spec_json_string(s: Seq<char>) -> Seq<char> {
    "\""@ + spec_json_escape(s, s.len() as int) + "\""@
}

/// The comma-joined JSON strings of the first `n` paths.
pub open spec fn spec_json_path_items(ps: Seq<Seq<char>>, n: int) -> Seq<char>
    decreases n,
{
    if n <= 0 {
        Seq::empty()
    } else if n == 1 {
        spec_json_string(ps[0])
    } else {
        spec_json_path_items(ps, n - 1) + ","@ + spec_json_string(ps[n - 1])
    }
}

/// A JSON array of paths.
pub open spec fn spec_json_path_array(ps: Seq<Seq<char>>) -> Seq<char> {
    "["@ + spec_json_path_items(ps, ps.len() as int) + "]"@
}

/// One group as a JSON object with its reference — or null — and its
/// duplicates.
pub open spec fn spec_json_group(g: MatchGroupView) -> Seq<char> {
    "{\"reference\":"@ + (match g.reference {
        Option::Some(rp) => spec_json_string(rp),
        Option::None => "null"@,
    }) + ",\"duplicates\":"@ + spec_json_path_array(g.duplicates) + "}"@
}

/// The comma-joined JSON objects of the first `n` groups.
pub open spec fn spec_json_group_items(gs: Seq<MatchGroupView>, n: int) -> Seq<char>
    decreases n,
{
    if n <= 0 {
        Seq::empty()
    } else if n == 1 {
        spec_json_group(gs[0])
    } else {
        spec_json_group_items(gs, n - 1) + ","@ + spec_json_group(gs[n - 1])
    }
}

/// The whole document a run prints: in unique mode the unmatched
/// paths, else the groups; as JSON when asked, else as text.
pub open spec fn spec_output_text(
    groups: Seq<MatchGroupView>,
    uniques: Seq<Seq<char>>,
    unique_mode: bool,
    json: bool,
) -> Seq<char> {
    if unique_mode {
        if json {
            spec_json_path_array(uniques) + "\n"@
        } else {
            spec_path_lines(uniques, uniques.len() as int)
        }
    } else {
        if json {
            "["@ + spec_json_group_items(groups, groups.len() as int) + "]"@ + "\n"@
        } else {
            spec_groups_text(groups, groups.len() as int)
        }
    }
}

/// Append a path as a JSON string literal.
fn push_json_string(out: &mut String, p: &String)
    ensures
        final(out)@ == old(out)@ + spec_json_string(p@),
{
    out.append("\"");
    let n = p.as_str().unicode_len();
    let mut i: usize = 0;
    while i < n
        invariant
            n == p@.len(),
            i <= n,
            out@ == old(out)@ + "\""@ + spec_json_escape(p@, i as int),
        decreases n - i,
    {
        let c = p.as_str().get_char(i);
        if c == '"' {
            out.append("\\\"");
            proof {
                reveal_strlit("\\\"");
                assert(out@ =~= old(out)@ + "\""@ + spec_json_escape(p@, i + 1));
            }
        } else if c == '\\' {
            out.append("\\\\");
            proof {
                reveal_strlit("\\\\");
                assert(out@ =~= old(out)@ + "\""@ + spec_json_escape(p@, i + 1));
            }
        } else if (c as u32) < 0x20 {
            out.append("\\u00");
            let hi = (c as u32) / 16;
            let lo = (c as u32) % 16;
            let hc = hex_digit_char(hi);
            let lc = hex_digit_char(lo);
            crate::base_fs_cache::string_push_char(out, hc);
            crate::base_fs_cache::string_push_char(out, lc);
            proof {
                reveal_strlit("\\u00");
                assert(out@ =~= old(out)@ + "\""@ + spec_json_escape(p@, i + 1));
            }
        } else {
            crate::base_fs_cache::string_push_char(out, c);
            proof {
                assert(out@ =~= old(out)@ + "\""@ + spec_json_escape(p@, i + 1));
            }
        }
        i = i + 1;
    }
    out.append("\"");
    proof {
        assert(out@ =~= old(out)@ + spec_json_string(p@));
    }
}

/// A hexadecimal digit character.
fn hex_digit_char(n: u32) -> (r: char)
    requires
        n < 16,
    ensures
        r == spec_hex_digit(n as int),
{
    if n < 10 {
        match crate::base_fs_cache::char_from_u32(('0' as u32) + n) {
            Some(c) => {
                proof {
                    vstd::utf8::char_u32_cast(c, c as u32);
                }
                c
            },
            None => {
                proof {
                    assert(false);
                }
                '0'
            },
        }
    } else {
        match crate::base_fs_cache::char_from_u32(('a' as u32) + n - 10) {
            Some(c) => {
                proof {
                    vstd::utf8::char_u32_cast(c, c as u32);
                }
                c
            },
            None => {
                proof {
                    assert(false);
                }
                '0'
            },
        }
    }
}

/// Append a JSON array of paths.
fn push_json_path_array(out: &mut String, ps: &Vec<String>)
    ensures
        final(out)@ == old(out)@ + spec_json_path_array(
            ps@.map_values(|p: String| p@),
        ),
{
    let ghost pv = ps@.map_values(|p: String| p@);
    out.append("[");
    let n = ps.len();
    let mut i: usize = 0;
    while i < n
        invariant
            n == ps@.len(),
            i <= n,
            pv == ps@.map_values(|p: String| p@),
            out@ == old(out)@ + "["@ + spec_json_path_items(pv, i as int),
        decreases n - i,
    {
        if i > 0 {
            out.append(",");
        }
        proof {
            assert(pv[i as int] == ps@[i as int]@);
        }
        push_json_string(out, &ps[i]);
        proof {
            assert(out@ =~= old(out)@ + "["@ + spec_json_path_items(pv, i + 1));
        }
        i = i + 1;
    }
    out.append("]");
    proof {
        assert(out@ =~= old(out)@ + spec_json_path_array(pv));
    }
}

/// The document a run prints for this output, exactly as
/// `spec_output_text` lays it out.
#[verifier::rlimit(30)]
pub fn render_output(out: &SearchOutput, unique_mode: bool, json: bool) -> (r: String)
    ensures
        r@ == spec_output_text(
            mg_views(out.dup_groups@),
            out.unique_files@.map_values(|p: String| p@),
            unique_mode,
            json,
        ),
{
    let ghost gv = mg_views(out.dup_groups@);
    let ghost uv = out.unique_files@.map_values(|p: String| p@);
    let mut text = String::new();
    if unique_mode {
        if json {
            push_json_path_array(&mut text, &out.unique_files);
            text.append("\n");
            proof {
                assert(text@ =~= spec_output_text(gv, uv, unique_mode, json));
            }
        } else {
            let n = out.unique_files.len();
            let mut i: usize = 0;
            while i < n
                invariant
                    n == out.unique_files@.len(),
                    i <= n,
                    uv == out.unique_files@.map_values(|p: String| p@),
                    text@ == spec_path_lines(uv, i as int),
                decreases n - i,
            {
                proof {
                    assert(uv[i as int] == out.unique_files@[i as int]@);
                }
                text.append(out.unique_files[i].as_str());
                text.append("\n");
                proof {
                    assert(text@ =~= spec_path_lines(uv, i + 1));
                }
                i = i + 1;
            }
        }
        return text;
    }
    if json {
        text.append("[");
        let n = out.dup_groups.len();
        let mut g: usize = 0;
        while g < n
            invariant
                n == out.dup_groups@.len(),
                g <= n,
                gv == mg_views(out.dup_groups@),
                text@ == "["@ + spec_json_group_items(gv, g as int),
            decreases n - g,
        {
            if g > 0 {
                text.append(",");
            }
            proof {
                assert(gv[g as int] == out.dup_groups@[g as int]@);
            }
            text.append("{\"reference\":");
            let group = &out.dup_groups[g];
            match &group.reference {
                Some(rp) => {
                    push_json_string(&mut text, rp);
                },
                None => {
                    text.append("null");
                },
            }
            text.append(",\"duplicates\":");
            push_json_path_array(&mut text, &group.duplicates);
            text.append("}");
            proof {
                assert(text@ =~= "["@ + spec_json_group_items(gv, g + 1));
            }
            g = g + 1;
        }
        text.append("]");
        text.append("\n");
        proof {
            assert(text@ =~= spec_output_text(gv, uv, unique_mode, json));
        }
        return text;
    }
    let n = out.dup_groups.len();
    let mut g: usize = 0;
    while g < n
        invariant
            n == out.dup_groups@.len(),
            g <= n,
            gv == mg_views(out.dup_groups@),
            text@ == spec_groups_text(gv, g as int),
        decreases n - g,
    {
        proof {
            assert(gv[g as int] == out.dup_groups@[g as int]@);
        }
        let ghost before = text@;
        let group = &out.dup_groups[g];
        match &group.reference {
            Some(rp) => {
                text.append(rp.as_str());
                text.append("\n");
            },
            None => {},
        }
        let ghost after_ref = text@;
        let m = group.duplicates.len();
        let mut j: usize = 0;
        while j < m
            invariant
                g < out.dup_groups@.len(),
                group == out.dup_groups@[g as int],
                m == group.duplicates@.len(),
                j <= m,
                text@ == after_ref + spec_path_lines(
                    out.dup_groups@[g as int]@.duplicates,
                    j as int,
                ),
            decreases m - j,
        {
            proof {
                assert(out.dup_groups@[g as int]@.duplicates[j as int]
                    == group.duplicates@[j as int]@);
            }
            text.append(group.duplicates[j].as_str());
            text.append("\n");
            proof {
                assert(text@ =~= after_ref + spec_path_lines(
                    out.dup_groups@[g as int]@.duplicates,
                    j + 1,
                ));
            }
            j = j + 1;
        }
        text.append("\n");
        proof {
            assert(text@ =~= spec_groups_text(gv, g + 1));
        }
        g = g + 1;
    }
    text
}

} // verus!
