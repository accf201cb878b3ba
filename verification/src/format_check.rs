//! Checking long-form formats: known keys, boolean options, valid names and extensions.

use vstd::prelude::*;
use crate::format_map::FormatMap;
use crate::formats::{
    contains_str_slice, descs_view, format_table, holds_string, is_notebook_ext, is_valid_format_name,
    jupytext_formats, notebook_extension_list, notebook_extensions, string_value, valid_format_name,
    JupytextFormatError,
};
use crate::languages::str_views;
use crate::text::{chars_of, concat3, join, join_strings, owned, str_eq, views};
verus! {

/// The keys that name a format: its extension, name, suffix and prefix.
pub open spec fn format_info_keys() -> Seq<Seq<char>> {
    seq!["extension"@, "format_name"@, "suffix"@, "prefix"@]
}

/// The format options that take a boolean.
pub open spec fn binary_format_options() -> Seq<Seq<char>> {
    seq![
        "comment_magics"@,
        "hide_notebook_metadata"@,
        "root_level_metadata_as_raw_cell"@,
        "split_at_heading"@,
        "rst2md"@,
        "cell_metadata_json"@,
        "use_runtools"@,
        "doxygen_equation_markers"@,
    ]
}

/// All format options: the boolean ones, then those that take a text.
pub open spec fn valid_format_options() -> Seq<Seq<char>> {
    binary_format_options() + seq![
        "notebook_metadata_filter"@,
        "root_level_metadata_filter"@,
        "cell_metadata_filter"@,
        "cell_markers"@,
        "custom_cell_magics"@,
    ]
}

/// `k` is a key that a format may have.
pub open spec fn known_format_key(k: Seq<char>) -> bool {
    format_info_keys().contains(k) || valid_format_options().contains(k)
}

/// The entry `k` of the format is wrong: an unknown key, or a boolean option whose value is
/// neither `true` nor `false`.
pub open spec fn bad_format_entry(m: Map<Seq<char>, Seq<char>>, k: Seq<char>) -> bool {
    m.contains_key(k) && (!known_format_key(k) || (binary_format_options().contains(k) && !(m[k] == "true"@
        || m[k] == "false"@)))
}

/// `a` comes before `b` in the order of strings (code point by code point).
pub open spec fn lex_lt(a: Seq<char>, b: Seq<char>) -> bool
    decreases a.len(),
{
    if b.len() == 0 {
        false
    } else if a.len() == 0 {
        true
    } else if a[0] != b[0] {
        (a[0] as int) < (b[0] as int)
    } else {
        lex_lt(a.drop_first(), b.drop_first())
    }
}

/// Two different strings are ordered one way.
pub(crate) proof fn lemma_lex_total(a: Seq<char>, b: Seq<char>)
    ensures
        a != b ==> lex_lt(a, b) || lex_lt(b, a),
        !(lex_lt(a, b) && lex_lt(b, a)),
    decreases a.len(),
{
    if a.len() > 0 && b.len() > 0 && a[0] == b[0] {
        lemma_lex_total(a.drop_first(), b.drop_first());
        if a != b {
            assert(a =~= seq![a[0]] + a.drop_first());
            assert(b =~= seq![b[0]] + b.drop_first());
        }
    } else if a.len() == 0 && b.len() == 0 {
        assert(a =~= b);
    }
}

/// The first wrong entry of a format, in the order of its keys.
pub open spec fn first_bad_format_entry(m: Map<Seq<char>, Seq<char>>) -> Option<Seq<char>> {
    if exists|k: Seq<char>| bad_format_entry(m, k) {
        Some(
            choose|k: Seq<char>|
                bad_format_entry(m, k) && forall|k2: Seq<char>| bad_format_entry(m, k2) ==> !lex_lt(k2, k),
        )
    } else {
        None
    }
}

/// The names of the registered formats from the first `n` ones, each once, in order.
pub open spec fn names_upto(n: int) -> Seq<Seq<char>>
    decreases n,
{
    if n <= 0 {
        Seq::empty()
    } else {
        let prev = names_upto(n - 1);
        let name = format_table()[n - 1].0;
        if prev.contains(name) {
            prev
        } else {
            prev.push(name)
        }
    }
}

/// The names of the registered formats, each once, in order.
pub open spec fn format_name_list() -> Seq<Seq<char>> {
    names_upto(format_table().len() as int)
}

/// The lowercase hexadecimal digit of `n`, for `0 <= n < 16`.
pub open spec fn hex_digit(n: int) -> char {
    seq!['0', '1', '2', '3', '4', '5', '6', '7', '8', '9', 'a', 'b', 'c', 'd', 'e', 'f'][n]
}

/// How `serde_json` writes one character inside a string literal: a quote and a
/// backslash get a backslash, backspace, tab, line feed, form feed and carriage return
/// their short escapes, the other control characters `\u00` and two hex digits, and
/// every other character stands for itself.
pub open spec fn json_escaped_char(c: char) -> Seq<char> {
    let n = c as int;
    if c == '"' {
        seq!['\\', '"']
    } else if c == '\\' {
        seq!['\\', '\\']
    } else if n == 8 {
        seq!['\\', 'b']
    } else if n == 9 {
        seq!['\\', 't']
    } else if n == 10 {
        seq!['\\', 'n']
    } else if n == 12 {
        seq!['\\', 'f']
    } else if n == 13 {
        seq!['\\', 'r']
    } else if n < 32 {
        seq!['\\', 'u', '0', '0', hex_digit(n / 16), hex_digit(n % 16)]
    } else {
        seq![c]
    }
}

/// The characters of a text, each written as in a JSON string literal.
pub open spec fn json_escaped(s: Seq<char>) -> Seq<char>
    decreases s.len(),
{
    if s.len() == 0 {
        Seq::empty()
    } else {
        json_escaped(s.drop_last()) + json_escaped_char(s.last())
    }
}

/// `serde_json::to_string` of a text: its JSON string literal, in double quotes.
pub open spec fn json_string_literal(s: Seq<char>) -> Seq<char> {
    seq!['"'] + json_escaped(s) + seq!['"']
}

/// Calls `serde_json::to_string` on a text, which cannot fail on a `str`; its JSON
/// string literal (`json_string_literal`).
#[verifier::external_body]
pub(crate) fn json_literal(s: &str) -> (r: String)
    ensures
        r@ == json_string_literal(s@),
{
    serde_json::to_string(s).unwrap_or_default()
}

/// What is wrong with a long-form format, if anything: an invalid format name, an unknown
/// key or a boolean option that is not a boolean (the first such key), a missing extension,
/// or an extension that is not a notebook extension. Values `true` and `false` stand for
/// booleans.
pub open spec fn format_error(m: Map<Seq<char>, Seq<char>>) -> Option<Seq<char>> {
    if holds_string(m, "format_name"@) && !is_valid_format_name(m["format_name"@]) {
        Some(
            m["format_name"@] + " is not a valid format name. Please choose one of "@ + join(
                format_name_list(),
                ", "@,
            ),
        )
    } else {
        match first_bad_format_entry(m) {
            Some(k) => if !known_format_key(k) {
                Some(
                    "Unknown format option '"@ + k + "' - should be one of '"@ + join(
                        valid_format_options(),
                        "', '"@,
                    ) + "'"@,
                )
            } else {
                Some("Format option '"@ + k + "' should be a bool, not '"@ + json_string_literal(m[k]) + "'"@)
            },
            None => if !holds_string(m, "extension"@) {
                Some("Missing format extension"@)
            } else if m["extension"@] != ".auto"@ && !is_notebook_ext(m["extension"@]) {
                Some(
                    "Extension '"@ + m["extension"@] + "' is not a notebook extension. Please use one of '"@
                        + join(notebook_extension_list(), "', '"@) + "'."@,
                )
            } else {
                None
            },
        }
    }
}

fn strings_of(v: &Vec<&'static str>) -> (r: Vec<String>)
    ensures
        views(r@) == str_views(v@),
{
    let mut r: Vec<String> = Vec::new();
    let mut i: usize = 0;
    while i < v.len()
        invariant
            i <= v@.len(),
            views(r@) == str_views(v@).take(i as int),
        decreases v.len() - i,
    {
        let ghost before = views(r@);
        r.push(owned(v[i]));
        assert(views(r@) =~= before.push(v@[i as int]@));
        assert(str_views(v@).take(i + 1) =~= str_views(v@).take(i as int).push(v@[i as int]@));
        i += 1;
    }
    assert(str_views(v@).take(v@.len() as int) =~= str_views(v@));
    r
}

/// The names of the registered formats, each once, in order.
fn format_names() -> (r: Vec<&'static str>)
    ensures
        str_views(r@) == format_name_list(),
{
    let formats = jupytext_formats();
    let ghost t = format_table();
    let mut r: Vec<&'static str> = Vec::new();
    assert(str_views(r@) =~= names_upto(0));
    let mut i: usize = 0;
    while i < formats.len()
        invariant
            descs_view(formats@) == t,
            t == format_table(),
            i <= t.len(),
            str_views(r@) == names_upto(i as int),
        decreases formats.len() - i,
    {
        let n = formats[i].format_name;
        assert(n@ == t[i as int].0);
        if !contains_str_slice(&r, n) {
            let ghost before = str_views(r@);
            r.push(n);
            assert(str_views(r@) =~= before.push(n@));
        }
        i += 1;
    }
    r
}

/// `a` comes before `b` in the order of strings.
pub(crate) fn lex_less(a: &str, b: &str) -> (r: bool)
    ensures
        r == lex_lt(a@, b@),
{
    let va = chars_of(a);
    let vb = chars_of(b);
    let mut i: usize = 0;
    assert(a@.skip(0) =~= a@);
    assert(b@.skip(0) =~= b@);
    while i < va.len() && i < vb.len() && va[i] == vb[i]
        invariant
            i <= va@.len(),
            i <= vb@.len(),
            va@ == a@,
            vb@ == b@,
            lex_lt(a@, b@) == lex_lt(a@.skip(i as int), b@.skip(i as int)),
        decreases va.len() - i,
    {
        assert(a@.skip(i as int).drop_first() =~= a@.skip(i + 1));
        assert(b@.skip(i as int).drop_first() =~= b@.skip(i + 1));
        i += 1;
    }
    if i == vb.len() {
        return false;
    }
    if i == va.len() {
        return true;
    }
    va[i] < vb[i]
}

/// The entry `key` is wrong.
fn is_bad_entry(fmt: &FormatMap, key: &str) -> (r: bool)
    requires
        fmt@.contains_key(key@),
    ensures
        r == bad_format_entry(fmt@, key@),
{
    let known = contains_str_slice(&format_info_key_list(), key) || contains_str_slice(&format_option_list(), key);
    if !known {
        return true;
    }
    if contains_str_slice(&binary_option_list(), key) {
        match fmt.get(key) {
            Some(v) => !(str_eq(v.as_str(), "true") || str_eq(v.as_str(), "false")),
            None => false,
        }
    } else {
        false
    }
}

fn format_info_key_list() -> (r: Vec<&'static str>)
    ensures
        str_views(r@) == format_info_keys(),
{
    let r = vec!["extension", "format_name", "suffix", "prefix"];
    assert(str_views(r@) =~= format_info_keys());
    r
}

fn binary_option_list() -> (r: Vec<&'static str>)
    ensures
        str_views(r@) == binary_format_options(),
{
    let r = vec![
        "comment_magics",
        "hide_notebook_metadata",
        "root_level_metadata_as_raw_cell",
        "split_at_heading",
        "rst2md",
        "cell_metadata_json",
        "use_runtools",
        "doxygen_equation_markers",
    ];
    assert(str_views(r@) =~= binary_format_options());
    r
}

fn format_option_list() -> (r: Vec<&'static str>)
    ensures
        str_views(r@) == valid_format_options(),
{
    let r = vec![
        "comment_magics",
        "hide_notebook_metadata",
        "root_level_metadata_as_raw_cell",
        "split_at_heading",
        "rst2md",
        "cell_metadata_json",
        "use_runtools",
        "doxygen_equation_markers",
        "notebook_metadata_filter",
        "root_level_metadata_filter",
        "cell_metadata_filter",
        "cell_markers",
        "custom_cell_magics",
    ];
    assert(str_views(r@) =~= valid_format_options());
    r
}

/// The first wrong entry of a format, in the order of its keys.
fn first_bad_entry(fmt: &FormatMap) -> (r: Option<String>)
    ensures
        match r {
            Some(k) => first_bad_format_entry(fmt@) == Some(k@) && bad_format_entry(fmt@, k@),
            None => first_bad_format_entry(fmt@) is None,
        },
{
    let keys = fmt.keys();
    let ghost ks = views(keys@);
    let mut best: Option<String> = None;
    let mut i: usize = 0;
    while i < keys.len()
        invariant
            i <= keys@.len(),
            ks == views(keys@),
            forall|k: Seq<char>| fmt@.contains_key(k) <==> ks.contains(k),
            match best {
                Some(b) => bad_format_entry(fmt@, b@) && forall|j: int|
                    0 <= j < i && bad_format_entry(fmt@, #[trigger] ks[j]) ==> !lex_lt(ks[j], b@),
                None => forall|j: int| 0 <= j < i ==> !bad_format_entry(fmt@, #[trigger] ks[j]),
            },
        decreases keys.len() - i,
    {
        let k = keys[i].as_str();
        assert(k@ == ks[i as int]);
        assert(ks.contains(k@));
        if is_bad_entry(fmt, k) {
            let better = match &best {
                Some(b) => lex_less(k, b.as_str()),
                None => true,
            };
            if better {
                proof {
                    match &best {
                        Some(b) => {
                            assert forall|j: int|
                                0 <= j < i + 1 && bad_format_entry(fmt@, #[trigger] ks[j]) implies !lex_lt(
                                ks[j],
                                k@,
                            ) by {
                                if j < i {
                                    assert(!lex_lt(ks[j], b@));
                                    lemma_lex_total(ks[j], b@);
                                    lemma_lex_transitive(ks[j], k@, b@);
                                } else {
                                    lemma_lex_total(k@, k@);
                                }
                            }
                        },
                        None => {
                            lemma_lex_total(k@, k@);
                        },
                    }
                }
                best = Some(owned(k));
            } else {
                proof {
                    match &best {
                        Some(b) => {
                            lemma_lex_total(k@, b@);
                        },
                        None => {},
                    }
                }
            }
        }
        i += 1;
    }
    proof {
        match &best {
            Some(b) => {
                assert forall|k2: Seq<char>| bad_format_entry(fmt@, k2) implies !lex_lt(k2, b@) by {
                    assert(ks.contains(k2));
                    let j = choose|j: int| 0 <= j < ks.len() && ks[j] == k2;
                    assert(bad_format_entry(fmt@, ks[j]));
                }
                let bv = b@;
                assert(bad_format_entry(fmt@, bv));
                assert(exists|k: Seq<char>|
                    bad_format_entry(fmt@, k) && forall|k2: Seq<char>| bad_format_entry(fmt@, k2) ==> !lex_lt(k2, k)) by {
                    assert(bad_format_entry(fmt@, bv) && forall|k2: Seq<char>| bad_format_entry(fmt@, k2) ==> !lex_lt(k2, bv));
                }
                let c = first_bad_format_entry(fmt@)->0;
                assert(bad_format_entry(fmt@, c));
                assert(!lex_lt(c, bv));
                assert(!lex_lt(bv, c));
                lemma_lex_total(c, bv);
            },
            None => {
                assert forall|k2: Seq<char>| !bad_format_entry(fmt@, k2) by {
                    if bad_format_entry(fmt@, k2) {
                        assert(ks.contains(k2));
                        let j = choose|j: int| 0 <= j < ks.len() && ks[j] == k2;
                        assert(bad_format_entry(fmt@, ks[j]));
                    }
                }
            },
        }
    }
    best
}

/// The order of strings is transitive.
pub(crate) proof fn lemma_lex_transitive(a: Seq<char>, b: Seq<char>, c: Seq<char>)
    ensures
        lex_lt(a, b) && lex_lt(b, c) ==> lex_lt(a, c),
    decreases a.len(),
{
    if a.len() > 0 && b.len() > 0 && c.len() > 0 {
        lemma_lex_transitive(a.drop_first(), b.drop_first(), c.drop_first());
    }
}

/// Checks the keys and values of a long-form format: the error says what is wrong.
pub fn validate_one_format(fmt: &FormatMap) -> (r: Result<(), JupytextFormatError>)
    ensures
        match r {
            Ok(()) => format_error(fmt@) is None,
            Err(e) => format_error(fmt@) == Some(e.0@),
        },
{
    match string_value(fmt, "format_name") {
        Some(name) => {
            if !valid_format_name(name.as_str()) {
                let names = strings_of(&format_names());
                let list = join_strings(&names, ", ");
                return Err(JupytextFormatError(
                    concat3(name.as_str(), " is not a valid format name. Please choose one of ", list.as_str()),
                ));
            }
        },
        None => {},
    }
    match first_bad_entry(fmt) {
        Some(k) => {
            let known = contains_str_slice(&format_info_key_list(), k.as_str()) || contains_str_slice(
                &format_option_list(),
                k.as_str(),
            );
            if !known {
                let options = strings_of(&format_option_list());
                let list = join_strings(&options, "', '");
                let head = concat3("Unknown format option '", k.as_str(), "' - should be one of '");
                return Err(JupytextFormatError(concat3(head.as_str(), list.as_str(), "'")));
            }
            let value = match fmt.get(k.as_str()) {
                Some(v) => v,
                None => String::new(),
            };
            let shown = json_literal(value.as_str());
            let head = concat3("Format option '", k.as_str(), "' should be a bool, not '");
            return Err(JupytextFormatError(concat3(head.as_str(), shown.as_str(), "'")));
        },
        None => {},
    }
    match string_value(fmt, "extension") {
        Some(ext) => {
            if !str_eq(ext.as_str(), ".auto") && !contains_str_slice(&notebook_extensions(), ext.as_str()) {
                let exts = strings_of(&notebook_extensions());
                let list = join_strings(&exts, "', '");
                let head = concat3("Extension '", ext.as_str(), "' is not a notebook extension. Please use one of '");
                return Err(JupytextFormatError(concat3(head.as_str(), list.as_str(), "'.")));
            }
            Ok(())
        },
        None => Err(JupytextFormatError(owned("Missing format extension"))),
    }
}

} // verus!
