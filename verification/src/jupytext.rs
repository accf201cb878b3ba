//! The version of the library, and the short form of a format given as a map.

use vstd::prelude::*;
use crate::format_map::FormatMap;
use crate::text::{chars_of, concat, push_char, string_of};

verus! {

/// The version of this library.
pub const VERSION: &'static str = "0.1.0";

/// `s` without its leading dots.
pub open spec fn without_leading_dots(s: Seq<char>) -> Seq<char>
    decreases s.len(),
{
    if s.len() > 0 && s[0] == '.' {
        without_leading_dots(s.drop_first())
    } else {
        s
    }
}

/// The format string of a format map: the extension without leading dots, then `:` and the
/// format name when it is not empty; `ipynb` when both are missing or empty.
pub open spec fn fmt_string(m: Map<Seq<char>, Seq<char>>) -> Seq<char> {
    let e = if m.contains_key("extension"@) {
        without_leading_dots(m["extension"@])
    } else {
        Seq::empty()
    };
    let s = if m.contains_key("format_name"@) && m["format_name"@].len() > 0 {
        if e.len() > 0 {
            e.push(':') + m["format_name"@]
        } else {
            m["format_name"@]
        }
    } else {
        e
    };
    if s.len() == 0 {
        "ipynb"@
    } else {
        s
    }
}

/// Builds a format string such as `py:percent` from a format map.
pub fn fmt_dict_to_string(fmt: &FormatMap) -> (r: String)
    ensures
        r@ == fmt_string(fmt@),
{
    let mut s = String::new();
    match fmt.get("extension") {
        Some(ext) => {
            let v = chars_of(ext.as_str());
            let mut i: usize = 0;
            assert(v@.subrange(0, v@.len() as int) =~= v@);
            while i < v.len() && v[i] == '.'
                invariant
                    i <= v@.len(),
                    without_leading_dots(v@.subrange(i as int, v@.len() as int)) == without_leading_dots(v@),
                decreases v.len() - i,
            {
                assert(v@.subrange(i as int, v@.len() as int).drop_first() =~= v@.subrange(
                    i + 1,
                    v@.len() as int,
                ));
                i += 1;
            }
            s = string_of(&v, i, v.len());
        },
        None => {},
    }
    match fmt.get("format_name") {
        Some(name) => {
            if name.unicode_len() > 0 {
                if s.unicode_len() > 0 {
                    push_char(&mut s, ':');
                }
                s = concat(s.as_str(), name.as_str());
            }
        },
        None => {},
    }
    if s.unicode_len() == 0 {
        s = concat(s.as_str(), "ipynb");
    }
    s
}

} // verus!
