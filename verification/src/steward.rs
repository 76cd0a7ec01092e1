//! Steward command-line input rules.
use crate::text::{chars_of, string_from_chars, text_is};
use vstd::prelude::*;

verus! {

/// A character with ASCII upper case mapped to lower case.
pub open spec fn ascii_lower_char(c: char) -> char {
    if 'A' <= c && c <= 'Z' {
        ((c as u32) + 32) as char
    } else {
        c
    }
}

/// A text with ASCII upper case mapped to lower case (`to_ascii_lowercase`).
pub open spec fn ascii_lower(s: Seq<char>) -> Seq<char> {
    s.map_values(|c: char| ascii_lower_char(c))
}

/// The flag a steward's text names, ignoring ASCII case: "1", "true",
/// "yes", "on" are true; "0", "false", "no", "off" are false.
pub open spec fn spec_parse_bool(s: Seq<char>) -> Option<bool> {
    let l = ascii_lower(s);
    if l == "1"@ || l == "true"@ || l == "yes"@ || l == "on"@ {
        Some(true)
    } else if l == "0"@ || l == "false"@ || l == "no"@ || l == "off"@ {
        Some(false)
    } else {
        None
    }
}

fn to_ascii_lowercase(s: &str) -> (r: String)
    ensures
        r@ == ascii_lower(s@),
{
    let v = chars_of(s);
    let mut out: Vec<char> = Vec::new();
    let mut i: usize = 0;
    while i < v.len()
        invariant
            i <= v@.len(),
            v@ == s@,
            out@ == ascii_lower(v@.take(i as int)),
        decreases v@.len() - i,
    {
        let c = v[i];
        let d = if 'A' <= c && c <= 'Z' {
            let b: u8 = (c as u32) as u8;
            (b + 32) as char
        } else {
            c
        };
        out.push(d);
        assert(ascii_lower(v@.take(i + 1)) =~= ascii_lower(v@.take(i as int)).push(d));
        i = i + 1;
    }
    assert(v@.take(i as int) =~= v@);
    string_from_chars(&out)
}

/// Parse a steward's on/off flag (see `spec_parse_bool`).
pub fn parse_bool(s: &str) -> (r: Option<bool>)
    ensures
        r == spec_parse_bool(s@),
{
    let l = to_ascii_lowercase(s);
    let t = l.as_str();
    if text_is(t, "1") || text_is(t, "true") || text_is(t, "yes") || text_is(t, "on") {
        Some(true)
    } else if text_is(t, "0") || text_is(t, "false") || text_is(t, "no") || text_is(t, "off") {
        Some(false)
    } else {
        None
    }
}

} // verus!
