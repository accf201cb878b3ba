//! Paths of paired notebooks: the base path of a notebook (its path without prefix, suffix
//! and extension) and the full path of each paired format.
//!
//! A prefix `root//dir/file_` holds a prefix root (before `//`), a prefix directory and a
//! file name prefix; `..` in the prefix directory goes up one folder.

use vstd::prelude::*;
use crate::format_map::FormatMap;
use crate::formats::{
    is_notebook_ext, notebook_extension_list, notebook_extensions, short_form,
    short_form_one_format_str,
};
use crate::languages::str_views;
use crate::text::{
    chars_of, concat, concat3, contains_char, contains_str, contains_sub, ends_with_char,
    has_char, has_prefix, has_suffix, join, join_strings, occurs_at, owned, rfind_char,
    rfind_sub, rfind_sub_from_facts, split_on, starts_with, str_eq, string_of, vec_rfind_char,
    vec_rfind_sub, views, ends_with, push_char, split_char, first_match, first_match_is,
    first_match_none,
};

verus! {

broadcast use crate::text::views_push;

/// An inconsistency between a notebook path and a format.
#[derive(Debug)]
pub enum InconsistentPath {
    NonNotebookExtension(String, String),
    InconsistentExtension(String, String),
    InconsistentSuffix(String, String),
    InconsistentPrefix(String, String),
    InconsistentPrefixDirectory(String, String),
    InconsistentPrefixRoot(String, String),
    CurrentPathNotInPairs(String, String, String),
    DuplicatePairedPaths,
    NoMatchingFormat(String, String),
    IncompatiblePrefixRoot(String, String),
}

/// The plain values of an `InconsistentPath`.
pub enum PathFault {
    NonNotebookExtension(Seq<char>, Seq<char>),
    InconsistentExtension(Seq<char>, Seq<char>),
    InconsistentSuffix(Seq<char>, Seq<char>),
    InconsistentPrefix(Seq<char>, Seq<char>),
    InconsistentPrefixDirectory(Seq<char>, Seq<char>),
    InconsistentPrefixRoot(Seq<char>, Seq<char>),
    CurrentPathNotInPairs(Seq<char>, Seq<char>, Seq<char>),
    DuplicatePairedPaths,
    NoMatchingFormat(Seq<char>, Seq<char>),
    IncompatiblePrefixRoot(Seq<char>, Seq<char>),
}

impl View for InconsistentPath {
    type V = PathFault;

    open spec fn view(&self) -> PathFault {
        match self {
            InconsistentPath::NonNotebookExtension(a, b) => PathFault::NonNotebookExtension(a@, b@),
            InconsistentPath::InconsistentExtension(a, b) => PathFault::InconsistentExtension(
                a@,
                b@,
            ),
            InconsistentPath::InconsistentSuffix(a, b) => PathFault::InconsistentSuffix(a@, b@),
            InconsistentPath::InconsistentPrefix(a, b) => PathFault::InconsistentPrefix(a@, b@),
            InconsistentPath::InconsistentPrefixDirectory(a, b) => PathFault::InconsistentPrefixDirectory(
                a@,
                b@,
            ),
            InconsistentPath::InconsistentPrefixRoot(a, b) => PathFault::InconsistentPrefixRoot(
                a@,
                b@,
            ),
            InconsistentPath::CurrentPathNotInPairs(a, b, c) => PathFault::CurrentPathNotInPairs(
                a@,
                b@,
                c@,
            ),
            InconsistentPath::DuplicatePairedPaths => PathFault::DuplicatePairedPaths,
            InconsistentPath::NoMatchingFormat(a, b) => PathFault::NoMatchingFormat(a@, b@),
            InconsistentPath::IncompatiblePrefixRoot(a, b) => PathFault::IncompatiblePrefixRoot(
                a@,
                b@,
            ),
        }
    }
}

/// The message of a path inconsistency.
pub open spec fn fault_message(f: PathFault) -> Seq<char> {
    match f {
        PathFault::NonNotebookExtension(a, b) => "'"@ + a
            + "' is not a notebook. Supported extensions are: "@ + b,
        PathFault::InconsistentExtension(a, b) => "Notebook path '"@ + a
            + "' was expected to have extension '"@ + b + "'"@,
        PathFault::InconsistentSuffix(a, b) => "Notebook name '"@ + a
            + "' was expected to end with suffix '"@ + b + "'"@,
        PathFault::InconsistentPrefix(a, b) => "Notebook name '"@ + a
            + "' was expected to start with prefix '"@ + b + "'"@,
        PathFault::InconsistentPrefixDirectory(a, b) => "Notebook directory '"@ + a
            + "' does not match prefix '"@ + b + "'"@,
        PathFault::InconsistentPrefixRoot(a, b) => "Notebook directory '"@ + a
            + "' does not match prefix root '"@ + b + "'"@,
        PathFault::CurrentPathNotInPairs(a, b, c) => "Paired paths do not include current notebook path '"@
            + a + "'. Current format is '"@ + b + "', paired formats are '"@ + c + "'."@,
        PathFault::DuplicatePairedPaths => "Duplicate paired paths for this notebook. Please fix jupytext.formats."@,
        PathFault::NoMatchingFormat(a, b) => "Path '"@ + a
            + "' matches none of the export formats: "@ + b
            + ". Please make sure that jupytext.formats covers the current file."@,
        PathFault::IncompatiblePrefixRoot(a, b) => "Notebook base name '"@ + a
            + "' is not compatible with format "@ + b
            + ". Make sure you use prefix roots in either none, or all of the paired formats."@,
    }
}

impl InconsistentPath {
    /// The message that describes the inconsistency.
    pub fn message(&self) -> (r: String)
        ensures
            r@ == fault_message(self@),
    {
        match self {
            InconsistentPath::NonNotebookExtension(a, b) => concat(
                concat3("'", a.as_str(), "' is not a notebook. Supported extensions are: ").as_str(),
                b.as_str(),
            ),
            InconsistentPath::InconsistentExtension(a, b) => concat3(
                concat3("Notebook path '", a.as_str(), "' was expected to have extension '").as_str(),
                b.as_str(),
                "'",
            ),
            InconsistentPath::InconsistentSuffix(a, b) => concat3(
                concat3("Notebook name '", a.as_str(), "' was expected to end with suffix '").as_str(),
                b.as_str(),
                "'",
            ),
            InconsistentPath::InconsistentPrefix(a, b) => concat3(
                concat3("Notebook name '", a.as_str(), "' was expected to start with prefix '").as_str(),
                b.as_str(),
                "'",
            ),
            InconsistentPath::InconsistentPrefixDirectory(a, b) => concat3(
                concat3("Notebook directory '", a.as_str(), "' does not match prefix '").as_str(),
                b.as_str(),
                "'",
            ),
            InconsistentPath::InconsistentPrefixRoot(a, b) => concat3(
                concat3("Notebook directory '", a.as_str(), "' does not match prefix root '").as_str(),
                b.as_str(),
                "'",
            ),
            InconsistentPath::CurrentPathNotInPairs(a, b, c) => {
                let x = concat3(
                    "Paired paths do not include current notebook path '",
                    a.as_str(),
                    "'. Current format is '",
                );
                let y = concat3(x.as_str(), b.as_str(), "', paired formats are '");
                concat3(y.as_str(), c.as_str(), "'.")
            },
            InconsistentPath::DuplicatePairedPaths => owned(
                "Duplicate paired paths for this notebook. Please fix jupytext.formats.",
            ),
            InconsistentPath::NoMatchingFormat(a, b) => concat3(
                concat3("Path '", a.as_str(), "' matches none of the export formats: ").as_str(),
                b.as_str(),
                ". Please make sure that jupytext.formats covers the current file.",
            ),
            InconsistentPath::IncompatiblePrefixRoot(a, b) => concat3(
                concat3("Notebook base name '", a.as_str(), "' is not compatible with format ").as_str(),
                b.as_str(),
                ". Make sure you use prefix roots in either none, or all of the paired formats.",
            ),
        }
    }
}

/// The plain values of a path result.
pub open spec fn path_result(r: Result<String, InconsistentPath>) -> Result<Seq<char>, PathFault> {
    match r {
        Ok(s) => Ok(s@),
        Err(e) => Err(e@),
    }
}

/// `s` split at its last `c`: what is before and what is after; `("", s)` without a `c`.
pub open spec fn split_last_spec(s: Seq<char>, c: char) -> (Seq<char>, Seq<char>) {
    match rfind_char(s, c) {
        Some(p) => (s.subrange(0, p), s.subrange(p + 1, s.len() as int)),
        None => (Seq::empty(), s),
    }
}

/// `left`, `sep` and `right` joined, without the separator when `left` is empty.
pub open spec fn join_parts_spec(left: Seq<char>, right: Seq<char>, sep: char) -> Seq<char> {
    if left.len() == 0 {
        right
    } else {
        left.push(sep) + right
    }
}

/// The path separator for `path` on a platform whose main separator is `main_sep`:
/// a backslash for a path that holds one where the main separator is a backslash,
/// a slash otherwise.
pub open spec fn separator_for(path: Seq<char>, main_sep: char) -> char {
    if main_sep == '\\' && has_char(path, '\\') {
        '\\'
    } else {
        '/'
    }
}

/// The position of the last `//` in `s`.
pub open spec fn double_slash(s: Seq<char>) -> Option<int> {
    rfind_sub(s, seq!['/', '/'])
}

/// A prefix decomposed into its root (before the last `//`), directory and file name prefix.
pub open spec fn decompose_prefix_spec(prefix: Seq<char>) -> (Seq<char>, Seq<char>, Seq<char>) {
    let (root, rest) = match double_slash(prefix) {
        Some(p) => (prefix.subrange(0, p), prefix.subrange(p + 2, prefix.len() as int)),
        None => (Seq::empty(), prefix),
    };
    let (dir, file) = split_last_spec(rest, '/');
    (root, dir, file)
}

/// A prefix composed from its root, directory and file name prefix.
pub open spec fn compose_prefix_spec(root: Seq<char>, dir: Seq<char>, file: Seq<char>) -> Seq<
    char,
> {
    if root.len() > 0 {
        root + seq!['/', '/'] + dir + seq!['/'] + file
    } else if dir.len() == 0 && file.len() == 0 {
        Seq::empty()
    } else {
        dir + seq!['/'] + file
    }
}

/// `s` with every `a` replaced by `b`.
pub open spec fn replace_char(s: Seq<char>, a: char, b: char) -> Seq<char> {
    s.map_values(|c: char| if c == a { b } else { c })
}

/// The value of `k` in `m`, or the empty string.
pub open spec fn get_or_empty(m: Map<Seq<char>, Seq<char>>, k: Seq<char>) -> Seq<char> {
    if m.contains_key(k) {
        m[k]
    } else {
        Seq::empty()
    }
}

/// The last component of a path: its pieces between slashes, without the empty ones and
/// the `.` ones; none when there is no such piece or the last one is `..`.
pub open spec fn last_component(pieces: Seq<Seq<char>>) -> Option<Seq<char>>
    decreases pieces.len(),
{
    if pieces.len() == 0 {
        None
    } else {
        let p = pieces.last();
        if p.len() == 0 || p == seq!['.'] {
            last_component(pieces.drop_last())
        } else if p == seq!['.', '.'] {
            None
        } else {
            Some(p)
        }
    }
}

/// The extension of a path, without its dot (`Path::extension`): the text after the last
/// dot of the file name, when that dot is not its first character.
pub open spec fn path_extension(path: Seq<char>) -> Option<Seq<char>> {
    match last_component(split_on(path, '/')) {
        Some(name) => match rfind_char(name, '.') {
            Some(i) => if i > 0 {
                Some(name.subrange(i + 1, name.len() as int))
            } else {
                None
            },
            None => None,
        },
        None => None,
    }
}

/// The number of bytes of the UTF-8 encoding of `c`.
pub open spec fn utf8_width(c: char) -> nat {
    if (c as u32) < 0x80 {
        1
    } else if (c as u32) < 0x800 {
        2
    } else if (c as u32) < 0x10000 {
        3
    } else {
        4
    }
}

/// The number of bytes of the UTF-8 encoding of `s`.
pub open spec fn utf8_len(s: Seq<char>) -> nat
    decreases s.len(),
{
    if s.len() == 0 {
        0
    } else {
        utf8_len(s.drop_last()) + utf8_width(s.last())
    }
}

/// The number of characters of `s` that remain when its last `n` bytes are cut off;
/// `None` when that cut is not at a character boundary.
pub open spec fn cut_bytes(s: Seq<char>, n: nat) -> Option<int>
    decreases s.len(),
{
    if n == 0 {
        Some(s.len() as int)
    } else if s.len() == 0 {
        None
    } else if utf8_width(s.last()) <= n {
        cut_bytes(s.drop_last(), (n - utf8_width(s.last())) as nat)
    } else {
        None
    }
}

/// `split_extension` is defined on `path`: the path without its extension ends at a
/// character boundary.
pub open spec fn splittable(path: Seq<char>) -> bool {
    match path_extension(path) {
        Some(x) => cut_bytes(path, utf8_len(seq!['.'] + x)) is Some,
        None => true,
    }
}

/// A path split into the path without its extension and the extension with its dot
/// (the extension's bytes are cut off the end of the path).
pub open spec fn split_extension_spec(path: Seq<char>) -> (Seq<char>, Seq<char>) {
    match path_extension(path) {
        Some(x) => {
            let e = seq!['.'] + x;
            match cut_bytes(path, utf8_len(e)) {
                Some(k) => (path.subrange(0, k), e),
                None => (path, e),
            }
        },
        None => (path, Seq::empty()),
    }
}

#[verifier::external_body]
fn main_separator() -> (r: char) {
    std::path::MAIN_SEPARATOR
}

fn split_last(s: &str, sep: char) -> (r: (String, String))
    ensures
        (r.0@, r.1@) == split_last_spec(s@, sep),
{
    let v = chars_of(s);
    let len = v.len();
    match vec_rfind_char(&v, sep) {
        Some(p) => {
            assert(p < len);
            (string_of(&v, 0, p), string_of(&v, p + 1, len))
        },
        None => (String::new(), owned(s)),
    }
}

fn split_at_sep(path: &str, sep: char) -> (r: (String, String))
    ensures
        (r.0@, r.1@) == split_last_spec(path@, sep),
{
    split_last(path, sep)
}

fn join_parts(left: &str, right: &str, sep: char) -> (r: String)
    ensures
        r@ == join_parts_spec(left@, right@, sep),
{
    if left.unicode_len() == 0 {
        owned(right)
    } else {
        let mut s = owned(left);
        push_char(&mut s, sep);
        concat(s.as_str(), right)
    }
}

fn separator(path: &str, main_sep: char) -> (r: char)
    ensures
        r == separator_for(path@, main_sep),
{
    if main_sep == '\\' && contains_char(path, '\\') {
        '\\'
    } else {
        '/'
    }
}

fn find_double_slash(s: &str) -> (r: Option<usize>)
    ensures
        match r {
            Some(p) => double_slash(s@) == Some(p as int) && p + 2 <= s@.len(),
            None => double_slash(s@) is None,
        },
{
    let v = chars_of(s);
    let mut d: Vec<char> = Vec::new();
    d.push('/');
    d.push('/');
    assert(d@ =~= seq!['/', '/']);
    let r = vec_rfind_sub(&v, &d);
    r
}

/// A prefix decomposed into its root, directory and file name prefix.
pub fn decompose_prefix(prefix: &str) -> (r: (String, String, String))
    ensures
        (r.0@, r.1@, r.2@) == decompose_prefix_spec(prefix@),
{
    let v = chars_of(prefix);
    let len = v.len();
    let (root, rest) = match find_double_slash(prefix) {
        Some(p) => (string_of(&v, 0, p), string_of(&v, p + 2, len)),
        None => (String::new(), owned(prefix)),
    };
    let (dir, file) = split_last(rest.as_str(), '/');
    (root, dir, file)
}

/// A prefix composed from its root, directory and file name prefix.
pub fn compose_prefix(prefix_root: &str, prefix_dir: &str, prefix_file_name: &str) -> (r: String)
    ensures
        r@ == compose_prefix_spec(prefix_root@, prefix_dir@, prefix_file_name@),
{
    if prefix_root.unicode_len() > 0 {
        let a = concat3(prefix_root, "//", prefix_dir);
        proof {
            reveal_strlit("//");
            reveal_strlit("/");
        }
        let r = concat3(a.as_str(), "/", prefix_file_name);
        assert(r@ =~= prefix_root@ + seq!['/', '/'] + prefix_dir@ + seq!['/'] + prefix_file_name@);
        r
    } else if prefix_dir.unicode_len() == 0 && prefix_file_name.unicode_len() == 0 {
        String::new()
    } else {
        proof {
            reveal_strlit("/");
        }
        let r = concat3(prefix_dir, "/", prefix_file_name);
        assert(r@ =~= prefix_dir@ + seq!['/'] + prefix_file_name@);
        r
    }
}

fn replace_chars(s: &str, a: char, b: char) -> (r: String)
    ensures
        r@ == replace_char(s@, a, b),
{
    let v = chars_of(s);
    let mut r = String::new();
    let mut i: usize = 0;
    while i < v.len()
        invariant
            i <= v@.len(),
            r@ == replace_char(v@.subrange(0, i as int), a, b),
        decreases v.len() - i,
    {
        let c = v[i];
        push_char(
            &mut r,
            if c == a {
                b
            } else {
                c
            },
        );
        assert(replace_char(v@.subrange(0, i + 1), a, b) =~= replace_char(
            v@.subrange(0, i as int),
            a,
            b,
        ).push(
            if c == a {
                b
            } else {
                c
            },
        ));
        i += 1;
    }
    assert(v@.subrange(0, v@.len() as int) =~= v@);
    r
}

fn get_or_empty_of(m: &FormatMap, k: &str) -> (r: String)
    ensures
        r@ == get_or_empty(m@, k@),
{
    match m.get(k) {
        Some(v) => v,
        None => String::new(),
    }
}

} // verus!

verus! {

proof fn lemma_utf8_len_bound(s: Seq<char>)
    ensures
        utf8_len(s) <= 4 * s.len(),
    decreases s.len(),
{
    if s.len() > 0 {
        lemma_utf8_len_bound(s.drop_last());
    }
}

fn char_width(c: char) -> (r: u128)
    ensures
        r == utf8_width(c),
        1 <= r <= 4,
{
    let u = c as u32;
    if u < 0x80 {
        1
    } else if u < 0x800 {
        2
    } else if u < 0x10000 {
        3
    } else {
        4
    }
}

fn byte_len(s: &str) -> (r: u128)
    ensures
        r == utf8_len(s@),
{
    let v = chars_of(s);
    let mut acc: u128 = 0;
    let mut i: usize = 0;
    while i < v.len()
        invariant
            i <= v@.len(),
            acc == utf8_len(v@.take(i as int)),
        decreases v.len() - i,
    {
        assert(v@.take(i + 1).drop_last() =~= v@.take(i as int));
        proof {
            lemma_utf8_len_bound(v@.take(i as int));
        }
        acc = acc + char_width(v[i]);
        i += 1;
    }
    assert(v@.take(v@.len() as int) =~= v@);
    acc
}

/// The number of characters left after cutting `n` bytes off the end of `v`, when the cut
/// is at a character boundary.
fn cut_bytes_of(v: &Vec<char>, n: u128) -> (r: Option<usize>)
    ensures
        match r {
            Some(k) => cut_bytes(v@, n as nat) == Some(k as int) && k <= v@.len(),
            None => cut_bytes(v@, n as nat) is None,
        },
{
    let mut j: usize = v.len();
    let mut m: u128 = n;
    assert(v@.take(j as int) =~= v@);
    while m > 0
        invariant
            j <= v@.len(),
            cut_bytes(v@, n as nat) == cut_bytes(v@.take(j as int), m as nat),
        decreases j,
    {
        if j == 0 {
            return None;
        }
        let w = char_width(v[j - 1]);
        assert(v@.take(j as int).drop_last() =~= v@.take(j - 1));
        if w <= m {
            m = m - w;
            j = j - 1;
        } else {
            return None;
        }
    }
    Some(j)
}

fn last_component_of(pieces: &Vec<String>) -> (r: Option<String>)
    ensures
        match r {
            Some(p) => last_component(views(pieces@)) == Some(p@),
            None => last_component(views(pieces@)) is None,
        },
{
    let ghost ps = views(pieces@);
    let mut j: usize = pieces.len();
    assert(ps.take(j as int) =~= ps);
    while j > 0
        invariant
            j <= ps.len(),
            ps == views(pieces@),
            last_component(ps) == last_component(ps.take(j as int)),
        decreases j,
    {
        let p = pieces[j - 1].as_str();
        assert(p@ == ps[j - 1]);
        assert(ps.take(j as int).drop_last() =~= ps.take(j - 1));
        proof {
            reveal_strlit(".");
            reveal_strlit("..");
            assert("."@ =~= seq!['.']);
            assert(".."@ =~= seq!['.', '.']);
        }
        if str_eq(p, ".") || p.unicode_len() == 0 {
            j = j - 1;
        } else if str_eq(p, "..") {
            return None;
        } else {
            return Some(owned(p));
        }
    }
    None
}

pub(crate) fn extension_of(path: &str) -> (r: Option<String>)
    ensures
        match r {
            Some(x) => path_extension(path@) == Some(x@),
            None => path_extension(path@) is None,
        },
{
    let pieces = split_char(path, '/');
    match last_component_of(&pieces) {
        Some(name) => {
            let v = chars_of(name.as_str());
            let len = v.len();
            match vec_rfind_char(&v, '.') {
                Some(i) => {
                    if i > 0 {
                        Some(string_of(&v, i + 1, len))
                    } else {
                        None
                    }
                },
                None => None,
            }
        },
        None => None,
    }
}

/// `split_extension` is defined on `path`.
pub fn splittable_path(path: &str) -> (r: bool)
    ensures
        r == splittable(path@),
{
    match extension_of(path) {
        Some(x) => {
            let e = concat(".", x.as_str());
            proof {
                reveal_strlit(".");
                assert(e@ =~= seq!['.'] + x@);
            }
            let v = chars_of(path);
            cut_bytes_of(&v, byte_len(e.as_str())).is_some()
        },
        None => true,
    }
}

/// Splits a path into the path without its extension and the extension with its dot.
pub fn split_extension(path: &str) -> (r: (String, String))
    requires
        splittable(path@),
    ensures
        (r.0@, r.1@) == split_extension_spec(path@),
{
    match extension_of(path) {
        Some(x) => {
            let e = concat(".", x.as_str());
            proof {
                reveal_strlit(".");
                assert(e@ =~= seq!['.'] + x@);
            }
            let v = chars_of(path);
            match cut_bytes_of(&v, byte_len(e.as_str())) {
                Some(k) => (string_of(&v, 0, k), e),
                None => (owned(path), e),
            }
        },
        None => (owned(path), String::new()),
    }
}

} // verus!

verus! {

/// Each leading `..` and separator of the prefix directory `pd` takes one folder off `nd`.
pub open spec fn strip_dotdots(pd: Seq<char>, nd: Seq<char>, sep: char) -> (Seq<char>, Seq<char>)
    decreases pd.len(),
{
    if has_prefix(pd, seq!['.', '.', sep]) {
        strip_dotdots(pd.subrange(3, pd.len() as int), split_last_spec(nd, sep).0, sep)
    } else {
        (pd, nd)
    }
}

/// `nd` ending with the separator, unless it is empty.
pub open spec fn with_trailing_sep(nd: Seq<char>, sep: char) -> Seq<char> {
    if nd.len() > 0 && nd.last() != sep {
        nd.push(sep)
    } else {
        nd
    }
}

/// The directory and file name of the full path of `base` under a non-empty prefix;
/// a fault when the prefix root and the base disagree.
pub open spec fn prefixed_base(base: Seq<char>, fmt: Map<Seq<char>, Seq<char>>, main_sep: char) -> Result<Seq<char>, PathFault> {
    let prefix = get_or_empty(fmt, "prefix"@);
    let (root, rest) = match double_slash(prefix) {
        Some(p) => (prefix.subrange(0, p), prefix.subrange(p + 2, prefix.len() as int)),
        None => (Seq::empty(), prefix),
    };
    let (pdir0, pfile) = split_last_spec(rest, '/');
    let sep = separator_for(base, main_sep);
    let pdir = replace_char(pdir0, '/', sep);
    if (root.len() > 0) != contains_sub(base, seq!['/', '/']) {
        Err(PathFault::IncompatiblePrefixRoot(base, short_form(fmt)))
    } else {
        let (nd0, nf0) = if root.len() > 0 {
            match double_slash(base) {
                Some(p) => {
                    let (rd, f) = split_last_spec(base.subrange(p + 2, base.len() as int), sep);
                    (base.subrange(0, p) + root + seq![sep] + rd, f)
                },
                None => (Seq::empty(), base),
            }
        } else {
            split_last_spec(base, sep)
        };
        let nf = pfile + nf0;
        let nd = if pdir.len() > 0 {
            let (pd, nd1) = strip_dotdots(pdir, nd0, sep);
            with_trailing_sep(nd1, sep) + pd
        } else {
            nd0
        };
        Ok(with_trailing_sep(nd, sep) + nf)
    }
}

/// The full path of the notebook with base path `base` in format `fmt`: the prefix, the
/// base, the suffix and the extension (`.ipynb` when the format has none).
pub open spec fn full_path_spec(base: Seq<char>, fmt: Map<Seq<char>, Seq<char>>, main_sep: char) -> Result<Seq<char>, PathFault> {
    let ext = if fmt.contains_key("extension"@) {
        fmt["extension"@]
    } else {
        ".ipynb"@
    };
    let suffix = get_or_empty(fmt, "suffix"@);
    let head = if get_or_empty(fmt, "prefix"@).len() == 0 {
        Ok(base)
    } else {
        prefixed_base(base, fmt, main_sep)
    };
    match head {
        Ok(h) => Ok(h + suffix + ext),
        Err(e) => Err(e),
    }
}

fn strip_dotdots_of(pd0: String, nd0: String, sep: char) -> (r: (String, String))
    ensures
        (r.0@, r.1@) == strip_dotdots(pd0@, nd0@, sep),
{
    let mut dd = owned("..");
    proof {
        reveal_strlit("..");
    }
    push_char(&mut dd, sep);
    assert(dd@ =~= seq!['.', '.', sep]);
    let mut pd = pd0;
    let mut nd = nd0;
    while starts_with(pd.as_str(), dd.as_str())
        invariant
            dd@ == seq!['.', '.', sep],
            strip_dotdots(pd@, nd@, sep) == strip_dotdots(pd0@, nd0@, sep),
        decreases pd@.len(),
    {
        let v = chars_of(pd.as_str());
        let len = v.len();
        let rest = string_of(&v, 3, len);
        let (parent, _) = split_at_sep(nd.as_str(), sep);
        pd = rest;
        nd = parent;
    }
    (pd, nd)
}

fn with_trailing_sep_of(nd: String, sep: char) -> (r: String)
    ensures
        r@ == with_trailing_sep(nd@, sep),
{
    let mut nd = nd;
    if nd.unicode_len() > 0 && !ends_with_char(nd.as_str(), sep) {
        push_char(&mut nd, sep);
    }
    nd
}

fn prefixed_base_of(base: &str, fmt: &FormatMap, main_sep: char) -> (r: Result<String, InconsistentPath>)
    ensures
        path_result(r) == prefixed_base(base@, fmt@, main_sep),
{
    let prefix = get_or_empty_of(fmt, "prefix");
    let pv = chars_of(prefix.as_str());
    let plen = pv.len();
    let (root, rest) = match find_double_slash(prefix.as_str()) {
        Some(p) => (string_of(&pv, 0, p), string_of(&pv, p + 2, plen)),
        None => (String::new(), prefix.clone()),
    };
    let (pdir0, pfile) = split_last(rest.as_str(), '/');
    let sep = separator(base, main_sep);
    let pdir = replace_chars(pdir0.as_str(), '/', sep);
    let has_root = root.unicode_len() > 0;
    let mut dsl = String::new();
    push_char(&mut dsl, '/');
    push_char(&mut dsl, '/');
    assert(dsl@ =~= seq!['/', '/']);
    if has_root != contains_str(base, dsl.as_str()) {
        return Err(InconsistentPath::IncompatiblePrefixRoot(owned(base), short_form_one_format_str(fmt)));
    }
    let bv = chars_of(base);
    let blen = bv.len();
    let (nd0, nf0) = if has_root {
        match find_double_slash(base) {
            Some(p) => {
                let right = string_of(&bv, p + 2, blen);
                let (rd, f) = split_at_sep(right.as_str(), sep);
                let left = string_of(&bv, 0, p);
                let mut lr = concat(left.as_str(), root.as_str());
                push_char(&mut lr, sep);
                let d = concat(lr.as_str(), rd.as_str());
                assert(d@ =~= base@.subrange(0, p as int) + root@ + seq![sep] + rd@);
                (d, f)
            },
            None => (String::new(), owned(base)),
        }
    } else {
        split_at_sep(base, sep)
    };
    let nf = concat(pfile.as_str(), nf0.as_str());
    let nd = if pdir.unicode_len() > 0 {
        let (pd, nd1) = strip_dotdots_of(pdir, nd0, sep);
        let t = with_trailing_sep_of(nd1, sep);
        concat(t.as_str(), pd.as_str())
    } else {
        nd0
    };
    let t = with_trailing_sep_of(nd, sep);
    Ok(concat(t.as_str(), nf.as_str()))
}

/// The full path of the notebook with base path `base` in format `fmt`, on a platform
/// whose main path separator is `main_sep`.
pub fn full_path_on(base: &str, fmt: &FormatMap, main_sep: char) -> (r: Result<String, InconsistentPath>)
    ensures
        path_result(r) == full_path_spec(base@, fmt@, main_sep),
{
    let ext = match fmt.get("extension") {
        Some(e) => e,
        None => owned(".ipynb"),
    };
    let suffix = get_or_empty_of(fmt, "suffix");
    let prefix = get_or_empty_of(fmt, "prefix");
    let head = if prefix.unicode_len() == 0 {
        owned(base)
    } else {
        match prefixed_base_of(base, fmt, main_sep) {
            Ok(h) => h,
            Err(e) => return Err(e),
        }
    };
    Ok(concat3(head.as_str(), suffix.as_str(), ext.as_str()))
}

/// The full path of the notebook with base path `base` in format `fmt`: the inverse of
/// `base_path`.
pub fn full_path(base: &str, fmt: &FormatMap) -> (r: Result<String, InconsistentPath>)
    ensures
        exists|main_sep: char| path_result(r) == #[trigger] full_path_spec(base@, fmt@, main_sep),
        !has_char(base@, '\\') ==> path_result(r) == full_path_spec(base@, fmt@, '/'),
{
    let main_sep = main_separator();
    full_path_on(base, fmt, main_sep)
}

} // verus!

verus! {

/// A paired format `f` can extend the current format `cur`: same extension, and no other
/// format name when both have one.
pub open spec fn compatible_format(f: Map<Seq<char>, Seq<char>>, cur: Map<Seq<char>, Seq<char>>) -> bool {
    get_or_empty(f, "extension"@) == get_or_empty(cur, "extension"@) && !(cur.contains_key(
        "format_name"@,
    ) && f.contains_key("format_name"@) && cur["format_name"@] != f["format_name"@])
}

/// `compatible_format` as a predicate on paired formats.
pub open spec fn compatible_pred(cur: Map<Seq<char>, Seq<char>>) -> spec_fn(Map<Seq<char>, Seq<char>>) -> bool {
    |f: Map<Seq<char>, Seq<char>>| compatible_format(f, cur)
}

/// The current format extended with the entries of the first compatible paired format
/// (the current format itself when there are no paired formats).
pub open spec fn merged_format(cur: Map<Seq<char>, Seq<char>>, formats: Seq<Map<Seq<char>, Seq<char>>>) -> Map<Seq<char>, Seq<char>> {
    let to_check = if formats.len() == 0 {
        seq![cur]
    } else {
        formats
    };
    match first_match(to_check, compatible_pred(cur)) {
        Some(i) => to_check[i].union_prefer_right(cur),
        None => cur,
    }
}

/// The notebook directory `pnd` with the folders of the prefix directory `ppd` taken off
/// its end (`..` puts back the last folder taken); `None` when a folder does not match.
pub open spec fn strip_dirs(ppd: Seq<char>, pnd: Seq<char>, folders: Seq<Seq<char>>, sep: char) -> Option<Seq<char>>
    decreases ppd.len(),
{
    if ppd.len() == 0 {
        Some(pnd)
    } else {
        proof {
            crate::text::rfind_char_facts(ppd, '/');
        }
        let (rest, expected) = split_last_spec(ppd, '/');
        if expected == seq!['.', '.'] {
            if folders.len() == 0 {
                None
            } else {
                strip_dirs(rest, join_parts_spec(pnd, folders.last(), sep), folders.drop_last(), sep)
            }
        } else {
            let (rd, actual) = split_last_spec(pnd, sep);
            if actual != expected {
                None
            } else {
                strip_dirs(rest, rd, folders.push(actual), sep)
            }
        }
    }
}

/// The notebook directory `nd` with the prefix root replaced by `//`; `None` when the
/// root is not one of its folders.
pub open spec fn root_stripped(nd: Seq<char>, root: Seq<char>, sep: char) -> Option<Seq<char>> {
    let long_root = seq![sep] + replace_char(root, '/', sep) + seq![sep];
    let long_dir = seq![sep] + nd + seq![sep];
    match rfind_sub(long_dir, long_root) {
        None => None,
        Some(pos) => {
            let x = long_dir.subrange(0, pos) + seq![sep, '/', '/'] + long_dir.subrange(
                pos + long_root.len(),
                long_dir.len() as int,
            );
            let y = if x.len() > 0 && x[0] == sep {
                x.drop_first()
            } else {
                x
            };
            Some(
                if y.len() > 0 && y.last() == sep {
                    y.drop_last()
                } else {
                    y
                },
            )
        },
    }
}

/// The base path of `base` (already without extension and suffix) under the non-empty
/// `prefix`; `config_dir` is the directory of the project configuration file, if any.
pub open spec fn prefix_stripped(base: Seq<char>, prefix: Seq<char>, config_dir: Option<Seq<char>>, main_sep: char) -> Result<Seq<char>, PathFault> {
    let (root, pdir, pfile) = decompose_prefix_spec(prefix);
    let sep = separator_for(base, main_sep);
    let (nd0, nf0) = split_last_spec(base, sep);
    let (base_dir, nd1) = match config_dir {
        Some(cd) => if nd0.len() > 0 && has_prefix(nd0, cd) {
            (Some(cd), nd0.subrange(cd.len() as int, nd0.len() as int))
        } else {
            (None, nd0)
        },
        None => (None, nd0),
    };
    if pfile.len() > 0 && !has_prefix(nf0, pfile) {
        Err(PathFault::InconsistentPrefix(nf0, pfile))
    } else {
        let nf = if pfile.len() > 0 {
            nf0.subrange(pfile.len() as int, nf0.len() as int)
        } else {
            nf0
        };
        let nd2 = if pdir.len() > 0 {
            strip_dirs(pdir, nd1, Seq::empty(), sep)
        } else {
            Some(nd1)
        };
        match nd2 {
            None => Err(PathFault::InconsistentPrefixDirectory(nd1, pdir)),
            Some(nd3) => {
                let nd4 = if root.len() > 0 {
                    root_stripped(nd3, root, sep)
                } else {
                    Some(nd3)
                };
                match nd4 {
                    None => Err(PathFault::InconsistentPrefixRoot(nd3, root)),
                    Some(nd5) => {
                        let nd6 = match base_dir {
                            Some(bd) => bd + nd5,
                            None => nd5,
                        };
                        Ok(
                            if nd6.len() == 0 {
                                nf
                            } else {
                                nd6.push(sep) + nf
                            },
                        )
                    },
                }
            },
        }
    }
}

/// The base path of the notebook at `main` in format `fmt`, paired with `formats`: the path
/// without extension, suffix and prefix of the format.
#[verifier::opaque]
pub open spec fn base_path_spec(
    main: Seq<char>,
    fmt: Map<Seq<char>, Seq<char>>,
    formats: Seq<Map<Seq<char>, Seq<char>>>,
    config_dir: Option<Seq<char>>,
    main_sep: char,
) -> Result<Seq<char>, PathFault> {
    let (base_name, ext) = split_extension_spec(main);
    if !fmt.contains_key("extension"@) && !is_notebook_ext(ext) {
        Err(PathFault::NonNotebookExtension(main, join(notebook_extension_list(), "', '"@)))
    } else {
        let cur = if fmt.contains_key("extension"@) {
            fmt
        } else {
            fmt.insert("extension"@, ext)
        };
        let fmt_ext = cur["extension"@];
        if ext != fmt_ext {
            Err(PathFault::InconsistentExtension(main, fmt_ext))
        } else {
            let merged = merged_format(cur, formats);
            let suffix = get_or_empty(merged, "suffix"@);
            if suffix.len() > 0 && !has_suffix(base_name, suffix) {
                Err(PathFault::InconsistentSuffix(base_name, suffix))
            } else {
                let base = if suffix.len() > 0 {
                    base_name.subrange(0, base_name.len() - suffix.len())
                } else {
                    base_name
                };
                let prefix = get_or_empty(merged, "prefix"@);
                if prefix.len() == 0 {
                    Ok(base)
                } else {
                    prefix_stripped(base, prefix, config_dir, main_sep)
                }
            }
        }
    }
}

/// The plain values of a list of format maps.
pub open spec fn map_views(v: Seq<FormatMap>) -> Seq<Map<Seq<char>, Seq<char>>> {
    v.map_values(|f: FormatMap| f@)
}

fn strip_dirs_of(ppd0: &str, pnd0: &str, sep: char) -> (r: Option<String>)
    ensures
        match r {
            Some(s) => strip_dirs(ppd0@, pnd0@, Seq::empty(), sep) == Some(s@),
            None => strip_dirs(ppd0@, pnd0@, Seq::empty(), sep) is None,
        },
{
    let mut ppd = owned(ppd0);
    let mut pnd = owned(pnd0);
    let mut folders: Vec<String> = Vec::new();
    proof {
        reveal_strlit("..");
        assert(".."@ =~= seq!['.', '.']);
    }
    assert(views(folders@) =~= Seq::<Seq<char>>::empty());
    while ppd.unicode_len() > 0
        invariant
            strip_dirs(ppd@, pnd@, views(folders@), sep) == strip_dirs(
                ppd0@,
                pnd0@,
                Seq::empty(),
                sep,
            ),
            ".."@ == seq!['.', '.'],
        decreases ppd@.len(),
    {
        let (rest, expected) = split_last(ppd.as_str(), '/');
        proof {
            crate::text::rfind_char_facts(ppd@, '/');
        }
        let ghost fs_before = views(folders@);
        if str_eq(expected.as_str(), "..") {
            match folders.pop() {
                None => {
                    return None;
                },
                Some(folder) => {
                    assert(folder@ == fs_before.last());
                    pnd = join_parts(pnd.as_str(), folder.as_str(), sep);
                    assert(views(folders@) =~= fs_before.drop_last());
                },
            }
        } else {
            let (rd, actual) = split_at_sep(pnd.as_str(), sep);
            let same = str_eq(actual.as_str(), expected.as_str());
            folders.push(actual);
            if !same {
                return None;
            }
            pnd = rd;
        }
        ppd = rest;
    }
    Some(pnd)
}

} // verus!

verus! {

fn root_stripped_of(nd: &str, root: &str, sep: char) -> (r: Option<String>)
    ensures
        match r {
            Some(s) => root_stripped(nd@, root@, sep) == Some(s@),
            None => root_stripped(nd@, root@, sep) is None,
        },
{
    let mut long_root = String::new();
    push_char(&mut long_root, sep);
    let replaced = replace_chars(root, '/', sep);
    long_root = concat(long_root.as_str(), replaced.as_str());
    push_char(&mut long_root, sep);
    assert(long_root@ =~= seq![sep] + replace_char(root@, '/', sep) + seq![sep]);
    let mut long_dir = String::new();
    push_char(&mut long_dir, sep);
    long_dir = concat(long_dir.as_str(), nd);
    push_char(&mut long_dir, sep);
    assert(long_dir@ =~= seq![sep] + nd@ + seq![sep]);
    let lr = chars_of(long_root.as_str());
    let ld = chars_of(long_dir.as_str());
    match vec_rfind_sub(&ld, &lr) {
        None => None,
        Some(pos) => {
            let ll = ld.len();
            assert(occurs_at(ld@, lr@, pos as int));
            assert(pos + lr@.len() <= ll);
            let left = string_of(&ld, 0, pos);
            let right = string_of(&ld, pos + lr.len(), ll);
            let mut x = left;
            push_char(&mut x, sep);
            push_char(&mut x, '/');
            push_char(&mut x, '/');
            x = concat(x.as_str(), right.as_str());
            assert(x@ =~= ld@.subrange(0, pos as int) + seq![sep, '/', '/'] + ld@.subrange(
                pos + lr@.len(),
                ld@.len() as int,
            ));
            let xv = chars_of(x.as_str());
            let xl = xv.len();
            let y = if xl > 0 && xv[0] == sep {
                let t = string_of(&xv, 1, xl);
                assert(t@ =~= x@.drop_first());
                t
            } else {
                x
            };
            let yv = chars_of(y.as_str());
            let yl = yv.len();
            let z = if yl > 0 && yv[yl - 1] == sep {
                let t = string_of(&yv, 0, yl - 1);
                assert(t@ =~= y@.drop_last());
                t
            } else {
                y
            };
            Some(z)
        },
    }
}

fn merged_format_of(cur: &FormatMap, formats: &[FormatMap]) -> (r: FormatMap)
    ensures
        r@ == merged_format(cur@, map_views(formats@)),
{
    let ghost fs = map_views(formats@);
    if formats.len() == 0 {
        proof {
            assert(compatible_pred(cur@)(seq![cur@][0]));
            first_match_is(seq![cur@], compatible_pred(cur@), 0);
            assert(cur@.union_prefer_right(cur@) =~= cur@);
        }
        return cur.clone();
    }
    let cur_ext = get_or_empty_of(cur, "extension");
    let cur_name = cur.get("format_name");
    let mut i: usize = 0;
    while i < formats.len()
        invariant
            i <= formats@.len(),
            fs == map_views(formats@),
            fs.len() > 0,
            cur_ext@ == get_or_empty(cur@, "extension"@),
            match cur_name {
                Some(n) => cur@.contains_key("format_name"@) && n@ == cur@["format_name"@],
                None => !cur@.contains_key("format_name"@),
            },
            forall|j: int| 0 <= j < i ==> !compatible_format(#[trigger] fs[j], cur@),
        decreases formats.len() - i,
    {
        let f = &formats[i];
        assert(fs[i as int] == f@);
        let f_ext = get_or_empty_of(f, "extension");
        let name_clash = match &cur_name {
            Some(n1) => match f.get("format_name") {
                Some(n2) => !str_eq(n1.as_str(), n2.as_str()),
                None => false,
            },
            None => false,
        };
        if str_eq(f_ext.as_str(), cur_ext.as_str()) && !name_clash {
            proof {
                assert(compatible_pred(cur@)(fs[i as int]));
                assert forall|j: int| 0 <= j < i implies !compatible_pred(cur@)(fs[j]) by {
                    assert(!compatible_format(fs[j], cur@));
                }
                first_match_is(fs, compatible_pred(cur@), i as int);
            }
            let mut m = cur.clone();
            m.extend_missing(f);
            return m;
        }
        i += 1;
    }
    proof {
        assert forall|j: int| 0 <= j < fs.len() implies !compatible_pred(cur@)(fs[j]) by {
            assert(!compatible_format(fs[j], cur@));
        }
        first_match_none(fs, compatible_pred(cur@));
    }
    cur.clone()
}

fn prefix_stripped_of(base: &str, prefix: &str, config_dir: Option<&str>, main_sep: char) -> (r: Result<String, InconsistentPath>)
    ensures
        path_result(r) == prefix_stripped(
            base@,
            prefix@,
            match config_dir {
                Some(c) => Some(c@),
                None => None,
            },
            main_sep,
        ),
{
    let (root, pdir, pfile) = decompose_prefix(prefix);
    let sep = separator(base, main_sep);
    let (nd0, nf0) = split_at_sep(base, sep);
    let (base_dir, nd1): (Option<String>, String) = match config_dir {
        Some(cd) => {
            if nd0.unicode_len() > 0 && starts_with(nd0.as_str(), cd) {
                let v = chars_of(nd0.as_str());
                let len = v.len();
                let cl = cd.unicode_len();
                (Some(owned(cd)), string_of(&v, cl, len))
            } else {
                (None, nd0)
            }
        },
        None => (None, nd0),
    };
    let pfl = pfile.unicode_len();
    if pfl > 0 && !starts_with(nf0.as_str(), pfile.as_str()) {
        return Err(InconsistentPath::InconsistentPrefix(nf0, pfile));
    }
    let nf = if pfl > 0 {
        let v = chars_of(nf0.as_str());
        let len = v.len();
        string_of(&v, pfl, len)
    } else {
        nf0
    };
    let nd3 = if pdir.unicode_len() > 0 {
        match strip_dirs_of(pdir.as_str(), nd1.as_str(), sep) {
            Some(d) => d,
            None => return Err(InconsistentPath::InconsistentPrefixDirectory(nd1, pdir)),
        }
    } else {
        nd1
    };
    let nd5 = if root.unicode_len() > 0 {
        match root_stripped_of(nd3.as_str(), root.as_str(), sep) {
            Some(d) => d,
            None => return Err(InconsistentPath::InconsistentPrefixRoot(nd3, root)),
        }
    } else {
        nd3
    };
    let nd6 = match base_dir {
        Some(bd) => concat(bd.as_str(), nd5.as_str()),
        None => nd5,
    };
    if nd6.unicode_len() == 0 {
        Ok(nf)
    } else {
        let mut d = nd6;
        push_char(&mut d, sep);
        Ok(concat(d.as_str(), nf.as_str()))
    }
}

/// The base path of the notebook at `main_path` in format `fmt`, paired with `formats`, in
/// a project whose configuration file is in `config_dir`, on a platform whose main path
/// separator is `main_sep`.
pub fn base_path_on(
    main_path: &str,
    fmt: &FormatMap,
    formats: &[FormatMap],
    config_dir: Option<&str>,
    main_sep: char,
) -> (r: Result<String, InconsistentPath>)
    requires
        splittable(main_path@),
    ensures
        path_result(r) == base_path_spec(
            main_path@,
            fmt@,
            map_views(formats@),
            match config_dir {
                Some(c) => Some(c@),
                None => None,
            },
            main_sep,
        ),
{
    reveal(base_path_spec);
    let (base_name, ext) = split_extension(main_path);
    let has_ext = fmt.contains_key("extension");
    if !has_ext {
        let exts = notebook_extensions();
        if !contains_notebook_ext(&exts, ext.as_str()) {
            let mut listed: Vec<String> = Vec::new();
            let mut i: usize = 0;
            while i < exts.len()
                invariant
                    i <= exts@.len(),
                    views(listed@) == str_views(exts@).take(i as int),
                decreases exts.len() - i,
            {
                listed.push(owned(exts[i]));
                assert(str_views(exts@).take(i + 1) =~= str_views(exts@).take(i as int).push(
                    exts@[i as int]@,
                ));
                i += 1;
            }
            assert(str_views(exts@).take(exts@.len() as int) =~= str_views(exts@));
            return Err(
                InconsistentPath::NonNotebookExtension(
                    owned(main_path),
                    join_strings(&listed, "', '"),
                ),
            );
        }
    }
    let mut cur = long_form_one_format_from_map(fmt);
    if !has_ext {
        cur.insert(owned("extension"), ext.clone());
    }
    let fmt_ext = get_or_empty_of(&cur, "extension");
    if !str_eq(ext.as_str(), fmt_ext.as_str()) {
        return Err(InconsistentPath::InconsistentExtension(owned(main_path), fmt_ext));
    }
    let merged = merged_format_of(&cur, formats);
    let suffix = get_or_empty_of(&merged, "suffix");
    let sl = suffix.unicode_len();
    if sl > 0 && !ends_with(base_name.as_str(), suffix.as_str()) {
        return Err(InconsistentPath::InconsistentSuffix(base_name, suffix));
    }
    let base = if sl > 0 {
        let v = chars_of(base_name.as_str());
        let len = v.len();
        string_of(&v, 0, len - sl)
    } else {
        base_name
    };
    let prefix = get_or_empty_of(&merged, "prefix");
    if prefix.unicode_len() == 0 {
        Ok(base)
    } else {
        prefix_stripped_of(base.as_str(), prefix.as_str(), config_dir, main_sep)
    }
}

/// The format as a long-form map (the map is already in long form).
fn long_form_one_format_from_map(fmt: &FormatMap) -> (r: FormatMap)
    ensures
        r@ == fmt@,
{
    fmt.clone()
}

fn contains_notebook_ext(exts: &Vec<&'static str>, e: &str) -> (r: bool)
    ensures
        r == str_views(exts@).contains(e@),
{
    let mut i: usize = 0;
    while i < exts.len()
        invariant
            i <= exts@.len(),
            forall|j: int| 0 <= j < i ==> exts@[j]@ != e@,
        decreases exts.len() - i,
    {
        if str_eq(exts[i], e) {
            assert(str_views(exts@)[i as int] == e@);
            return true;
        }
        i += 1;
    }
    proof {
        if str_views(exts@).contains(e@) {
            let k = choose|k: int| 0 <= k < str_views(exts@).len() && str_views(exts@)[k] == e@;
            assert(exts@[k]@ == e@);
        }
    }
    false
}

/// The base path of the notebook at `main_path` in format `fmt`, paired with `formats`:
/// its path without the extension, suffix and prefix of the format (of the first paired
/// format with the same extension and format name, when the format lacks them).
pub fn base_path(main_path: &str, fmt: &FormatMap, formats: &[FormatMap]) -> (r: Result<
    String,
    InconsistentPath,
>)
    requires
        splittable(main_path@),
    ensures
        exists|main_sep: char|
            path_result(r) == #[trigger] base_path_spec(
                main_path@,
                fmt@,
                map_views(formats@),
                None,
                main_sep,
            ),
        !has_char(main_path@, '\\') ==> path_result(r) == base_path_spec(
            main_path@,
            fmt@,
            map_views(formats@),
            None,
            '/',
        ),
{
    let main_sep = main_separator();
    proof {
        if !has_char(main_path@, '\\') {
            base_path_separator_free(main_path@, fmt@, map_views(formats@), main_sep);
        }
    }
    base_path_on(main_path, fmt, formats, None, main_sep)
}

} // verus!

verus! {

/// The full paths of `base` in each of `formats`; the first fault, if any.
pub open spec fn full_paths(base: Seq<char>, formats: Seq<Map<Seq<char>, Seq<char>>>, main_sep: char) -> Result<Seq<Seq<char>>, PathFault>
    decreases formats.len(),
{
    if formats.len() == 0 {
        Ok(Seq::empty())
    } else {
        match full_paths(base, formats.drop_last(), main_sep) {
            Err(e) => Err(e),
            Ok(prev) => match full_path_spec(base, formats.last(), main_sep) {
                Err(e) => Err(e),
                Ok(p) => Ok(prev.push(p)),
            },
        }
    }
}

/// The short forms of `formats`.
pub open spec fn short_forms(formats: Seq<Map<Seq<char>, Seq<char>>>) -> Seq<Seq<char>> {
    formats.map_values(|f: Map<Seq<char>, Seq<char>>| short_form(f))
}

/// The paths of the notebook at `main` in each paired format, with the format: the notebook
/// itself when there are no paired formats; a fault when the paths do not include `main`,
/// or include a path twice.
pub open spec fn paired_paths_spec(
    main: Seq<char>,
    fmt: Map<Seq<char>, Seq<char>>,
    formats: Seq<Map<Seq<char>, Seq<char>>>,
    config_dir: Option<Seq<char>>,
    main_sep: char,
) -> Result<Seq<(Seq<char>, Map<Seq<char>, Seq<char>>)>, PathFault> {
    if formats.len() == 0 {
        Ok(seq![(main, Map::empty().insert("extension"@, split_extension_spec(main).1))])
    } else {
        match base_path_spec(main, fmt, formats, config_dir, main_sep) {
            Err(e) => Err(e),
            Ok(base) => match full_paths(base, formats, main_sep) {
                Err(e) => Err(e),
                Ok(paths) => if !paths.contains(main) {
                    Err(
                        PathFault::CurrentPathNotInPairs(
                            main,
                            short_form(fmt),
                            join(short_forms(formats), ","@),
                        ),
                    )
                } else if !paths.no_duplicates() {
                    Err(PathFault::DuplicatePairedPaths)
                } else {
                    Ok(Seq::new(paths.len(), |i: int| (paths[i], formats[i])))
                },
            },
        }
    }
}

/// The plain values of a list of paired paths.
pub open spec fn pairs_result(r: Result<Vec<(String, FormatMap)>, InconsistentPath>) -> Result<
    Seq<(Seq<char>, Map<Seq<char>, Seq<char>>)>,
    PathFault,
> {
    match r {
        Ok(v) => Ok(v@.map_values(|p: (String, FormatMap)| (p.0@, p.1@))),
        Err(e) => Err(e@),
    }
}

fn short_forms_joined(formats: &[FormatMap], sep: &str) -> (r: String)
    ensures
        r@ == join(short_forms(map_views(formats@)), sep@),
{
    let mut parts: Vec<String> = Vec::new();
    let mut i: usize = 0;
    while i < formats.len()
        invariant
            i <= formats@.len(),
            views(parts@) == short_forms(map_views(formats@)).take(i as int),
        decreases formats.len() - i,
    {
        parts.push(short_form_one_format_str(&formats[i]));
        assert(short_forms(map_views(formats@)).take(i + 1) =~= short_forms(map_views(formats@)).take(
            i as int,
        ).push(short_form(formats@[i as int]@)));
        i += 1;
    }
    assert(short_forms(map_views(formats@)).take(formats@.len() as int) =~= short_forms(
        map_views(formats@),
    ));
    join_strings(&parts, sep)
}

/// The paths of the notebook at `main_path` in each of the paired `formats`, with the
/// format, in a project whose configuration file is in `config_dir`, on a platform whose
/// main path separator is `main_sep`.
pub fn paired_paths_on(
    main_path: &str,
    fmt: &FormatMap,
    formats: &[FormatMap],
    config_dir: Option<&str>,
    main_sep: char,
) -> (r: Result<Vec<(String, FormatMap)>, InconsistentPath>)
    requires
        splittable(main_path@),
    ensures
        pairs_result(r) == paired_paths_spec(
            main_path@,
            fmt@,
            map_views(formats@),
            match config_dir {
                Some(c) => Some(c@),
                None => None,
            },
            main_sep,
        ),
{
    let ghost fs = map_views(formats@);
    if formats.len() == 0 {
        let (_, ext) = split_extension(main_path);
        let mut single = FormatMap::new();
        single.insert(owned("extension"), ext);
        let mut v: Vec<(String, FormatMap)> = Vec::new();
        v.push((owned(main_path), single));
        let ghost out = v@.map_values(|p: (String, FormatMap)| (p.0@, p.1@));
        assert(out =~= seq![(main_path@, Map::<Seq<char>, Seq<char>>::empty().insert("extension"@, split_extension_spec(main_path@).1))]);
        return Ok(v);
    }
    let base = match base_path_on(main_path, fmt, formats, config_dir, main_sep) {
        Ok(b) => b,
        Err(e) => return Err(e),
    };
    let ghost cdv = match config_dir {
        Some(c) => Some(c@),
        None => None,
    };
    assert(base_path_spec(main_path@, fmt@, fs, cdv, main_sep) == Ok::<Seq<char>, PathFault>(base@));
    let mut paths: Vec<String> = Vec::new();
    let mut i: usize = 0;
    assert(fs.take(0) =~= Seq::<Map<Seq<char>, Seq<char>>>::empty());
    assert(views(paths@) =~= Seq::<Seq<char>>::empty());
    while i < formats.len()
        invariant
            i <= formats@.len(),
            fs == map_views(formats@),
            paths@.len() == i,
            fs.len() > 0,
            base_path_spec(main_path@, fmt@, fs, cdv, main_sep) == Ok::<Seq<char>, PathFault>(base@),
            cdv == match config_dir {
                Some(c) => Some(c@),
                None => None::<Seq<char>>,
            },
            full_paths(base@, fs.take(i as int), main_sep) == Ok::<Seq<Seq<char>>, PathFault>(views(paths@)),
        decreases formats.len() - i,
    {
        assert(fs.take(i + 1).drop_last() =~= fs.take(i as int));
        assert(fs.take(i + 1).last() == formats@[i as int]@);
        match full_path_on(base.as_str(), &formats[i], main_sep) {
            Ok(p) => paths.push(p),
            Err(e) => {
                proof {
                    lemma_full_paths_err(base@, fs, i as int, main_sep);
                }
                return Err(e);
            },
        }
        i += 1;
    }
    assert(fs.take(fs.len() as int) =~= fs);
    let ghost ps = views(paths@);
    assert(full_paths(base@, fs, main_sep) == Ok::<Seq<Seq<char>>, PathFault>(ps));
    let mut found = false;
    let mut j: usize = 0;
    while j < paths.len()
        invariant
            j <= paths@.len(),
            ps == views(paths@),
            found == ps.take(j as int).contains(main_path@),
        decreases paths.len() - j,
    {
        let hit = str_eq(paths[j].as_str(), main_path);
        assert(paths@[j as int]@ == ps[j as int]);
        proof {
            if hit {
                assert(ps.take(j + 1)[j as int] == main_path@);
            }
            assert(ps.take(j + 1) =~= ps.take(j as int).push(ps[j as int]));
            if ps.take(j as int).contains(main_path@) {
                let k = choose|k: int| 0 <= k < j && ps.take(j as int)[k] == main_path@;
                assert(ps.take(j + 1)[k] == main_path@);
            }
            let next = ps.take(j + 1);
            if next.contains(main_path@) && !hit {
                let k = choose|k: int| 0 <= k < next.len() && next[k] == main_path@;
                assert(ps.take(j as int)[k] == main_path@);
            }
        }
        if hit {
            found = true;
        }
        j += 1;
    }
    assert(ps.take(ps.len() as int) =~= ps);
    if !found {
        return Err(
            InconsistentPath::CurrentPathNotInPairs(
                owned(main_path),
                short_form_one_format_str(fmt),
                short_forms_joined(formats, ","),
            ),
        );
    }
    let mut a: usize = 0;
    while a < paths.len()
        invariant
            a <= paths@.len(),
            ps == views(paths@),
            forall|x: int, y: int| 0 <= x < a && x < y < ps.len() ==> ps[x] != ps[y],
            full_paths(base@, fs, main_sep) == Ok::<Seq<Seq<char>>, PathFault>(ps),
            ps.contains(main_path@),
            fs == map_views(formats@),
            fs.len() > 0,
            base_path_spec(main_path@, fmt@, fs, cdv, main_sep) == Ok::<Seq<char>, PathFault>(base@),
            cdv == match config_dir {
                Some(c) => Some(c@),
                None => None::<Seq<char>>,
            },
        decreases paths.len() - a,
    {
        let mut b: usize = a + 1;
        while b < paths.len()
            invariant
                a < paths@.len(),
                a + 1 <= b <= paths@.len(),
                ps == views(paths@),
                forall|x: int, y: int| 0 <= x < a && x < y < ps.len() ==> ps[x] != ps[y],
                forall|y: int| a < y < b ==> ps[a as int] != ps[y],
                full_paths(base@, fs, main_sep) == Ok::<Seq<Seq<char>>, PathFault>(ps),
                ps.contains(main_path@),
                fs == map_views(formats@),
                fs.len() > 0,
                base_path_spec(main_path@, fmt@, fs, cdv, main_sep) == Ok::<Seq<char>, PathFault>(base@),
                cdv == match config_dir {
                    Some(c) => Some(c@),
                    None => None::<Seq<char>>,
                },
            decreases paths.len() - b,
        {
            if str_eq(paths[a].as_str(), paths[b].as_str()) {
                assert(paths@[a as int]@ == ps[a as int]);
                assert(paths@[b as int]@ == ps[b as int]);
                assert(!ps.no_duplicates());
                return Err(InconsistentPath::DuplicatePairedPaths);
            }
            b += 1;
        }
        a += 1;
    }
    assert(ps.no_duplicates());
    let mut out: Vec<(String, FormatMap)> = Vec::new();
    let mut k: usize = 0;
    assert(out@.map_values(|p: (String, FormatMap)| (p.0@, p.1@)) =~= Seq::new(
        0 as nat,
        |x: int| (ps[x], fs[x]),
    ));
    while k < paths.len()
        invariant
            k <= paths@.len(),
            paths@.len() == formats@.len(),
            ps == views(paths@),
            fs == map_views(formats@),
            out@.map_values(|p: (String, FormatMap)| (p.0@, p.1@)) == Seq::new(
                k as nat,
                |x: int| (ps[x], fs[x]),
            ),
        decreases paths.len() - k,
    {
        let ghost before = out@.map_values(|p: (String, FormatMap)| (p.0@, p.1@));
        let pk = paths[k].clone();
        let fk = formats[k].clone();
        assert(pk@ == ps[k as int]);
        assert(fk@ == fs[k as int]);
        out.push((pk, fk));
        assert(out@.map_values(|p: (String, FormatMap)| (p.0@, p.1@)) =~= before.push((ps[k as int], fs[k as int])));
        assert(out@.map_values(|p: (String, FormatMap)| (p.0@, p.1@)) =~= Seq::new(
            (k + 1) as nat,
            |x: int| (ps[x], fs[x]),
        ));
        k += 1;
    }
    Ok(out)
}

proof fn lemma_full_paths_err(base: Seq<char>, fs: Seq<Map<Seq<char>, Seq<char>>>, i: int, main_sep: char)
    requires
        0 <= i < fs.len(),
        full_paths(base, fs.take(i), main_sep) is Ok,
        full_path_spec(base, fs[i], main_sep) is Err,
    ensures
        full_paths(base, fs, main_sep) is Err,
        full_paths(base, fs, main_sep)->Err_0 == full_path_spec(base, fs[i], main_sep)->Err_0,
    decreases fs.len() - i,
{
    assert(fs.take(i + 1).drop_last() =~= fs.take(i));
    assert(fs.take(i + 1).last() == fs[i]);
    if i + 1 < fs.len() {
        lemma_full_paths_prefix_err(base, fs, i + 1, main_sep);
    } else {
        assert(fs.take(i + 1) =~= fs);
    }
}

proof fn lemma_full_paths_prefix_err(base: Seq<char>, fs: Seq<Map<Seq<char>, Seq<char>>>, n: int, main_sep: char)
    requires
        0 < n <= fs.len(),
        full_paths(base, fs.take(n), main_sep) is Err,
    ensures
        full_paths(base, fs, main_sep) == full_paths(base, fs.take(n), main_sep),
    decreases fs.len() - n,
{
    if n < fs.len() {
        assert(fs.take(n + 1).drop_last() =~= fs.take(n));
        lemma_full_paths_prefix_err(base, fs, n + 1, main_sep);
    } else {
        assert(fs.take(n) =~= fs);
    }
}

} // verus!

verus! {

/// The paths of the notebook at `main_path` in each of the paired `formats`, with the
/// format; the notebook itself when there are no paired formats.
pub fn paired_paths(main_path: &str, fmt: &FormatMap, formats: &[FormatMap]) -> (r: Result<
    Vec<(String, FormatMap)>,
    InconsistentPath,
>)
    requires
        splittable(main_path@),
    ensures
        exists|main_sep: char|
            pairs_result(r) == #[trigger] paired_paths_spec(
                main_path@,
                fmt@,
                map_views(formats@),
                None,
                main_sep,
            ),
        !has_char(main_path@, '\\') ==> pairs_result(r) == paired_paths_spec(
            main_path@,
            fmt@,
            map_views(formats@),
            None,
            '/',
        ),
{
    let main_sep = main_separator();
    proof {
        if !has_char(main_path@, '\\') {
            paired_paths_separator_free(main_path@, fmt@, map_views(formats@), main_sep);
        }
    }
    paired_paths_on(main_path, fmt, formats, None, main_sep)
}

/// The paired format `f` gives a base path for `main`.
pub open spec fn gives_base_pred(
    main: Seq<char>,
    formats: Seq<Map<Seq<char>, Seq<char>>>,
    config_dir: Option<Seq<char>>,
    main_sep: char,
) -> spec_fn(Map<Seq<char>, Seq<char>>) -> bool {
    |f: Map<Seq<char>, Seq<char>>| base_path_spec(main, f, formats, config_dir, main_sep) is Ok
}

/// The base path of `main` in the first of `formats` that gives one, with that format.
pub open spec fn find_base_spec(
    main: Seq<char>,
    formats: Seq<Map<Seq<char>, Seq<char>>>,
    config_dir: Option<Seq<char>>,
    main_sep: char,
) -> Result<(Seq<char>, Map<Seq<char>, Seq<char>>), PathFault> {
    match first_match(formats, gives_base_pred(main, formats, config_dir, main_sep)) {
        Some(i) => Ok(
            (base_path_spec(main, formats[i], formats, config_dir, main_sep)->Ok_0, formats[i]),
        ),
        None => Err(PathFault::NoMatchingFormat(main, join(short_forms(formats), ", "@))),
    }
}

/// The plain values of the result of `find_base_path_and_format`.
pub open spec fn found_result(r: Result<(String, FormatMap), InconsistentPath>) -> Result<
    (Seq<char>, Map<Seq<char>, Seq<char>>),
    PathFault,
> {
    match r {
        Ok(p) => Ok((p.0@, p.1@)),
        Err(e) => Err(e@),
    }
}

/// The base path of the notebook at `main_path` and the first of `formats` that gives one,
/// in a project whose configuration file is in `config_dir`, on a platform whose main path
/// separator is `main_sep`.
pub fn find_base_path_and_format_on(
    main_path: &str,
    formats: &[FormatMap],
    config_dir: Option<&str>,
    main_sep: char,
) -> (r: Result<(String, FormatMap), InconsistentPath>)
    requires
        splittable(main_path@),
    ensures
        found_result(r) == find_base_spec(
            main_path@,
            map_views(formats@),
            match config_dir {
                Some(c) => Some(c@),
                None => None,
            },
            main_sep,
        ),
{
    let ghost fs = map_views(formats@);
    let ghost cdv = match config_dir {
        Some(c) => Some(c@),
        None => None,
    };
    let ghost pred = gives_base_pred(main_path@, fs, cdv, main_sep);
    let mut i: usize = 0;
    while i < formats.len()
        invariant
            i <= formats@.len(),
            splittable(main_path@),
            fs == map_views(formats@),
            cdv == match config_dir {
                Some(c) => Some(c@),
                None => None::<Seq<char>>,
            },
            pred == gives_base_pred(main_path@, fs, cdv, main_sep),
            forall|j: int| 0 <= j < i ==> !pred(#[trigger] fs[j]),
        decreases formats.len() - i,
    {
        assert(fs[i as int] == formats@[i as int]@);
        match base_path_on(main_path, &formats[i], formats, config_dir, main_sep) {
            Ok(bp) => {
                proof {
                    assert(pred(fs[i as int]));
                    first_match_is(fs, pred, i as int);
                }
                return Ok((bp, formats[i].clone()));
            },
            Err(_) => {
                assert(!pred(fs[i as int]));
            },
        }
        i += 1;
    }
    proof {
        first_match_none(fs, pred);
    }
    Err(InconsistentPath::NoMatchingFormat(owned(main_path), short_forms_joined(formats, ", ")))
}

/// The base path of the notebook at `main_path` and the first of `formats` that gives one.
pub fn find_base_path_and_format(main_path: &str, formats: &[FormatMap]) -> (r: Result<
    (String, FormatMap),
    InconsistentPath,
>)
    requires
        splittable(main_path@),
    ensures
        exists|main_sep: char|
            found_result(r) == #[trigger] find_base_spec(
                main_path@,
                map_views(formats@),
                None,
                main_sep,
            ),
        !has_char(main_path@, '\\') ==> found_result(r) == find_base_spec(
            main_path@,
            map_views(formats@),
            None,
            '/',
        ),
{
    let main_sep = main_separator();
    proof {
        if !has_char(main_path@, '\\') {
            find_base_separator_free(main_path@, map_views(formats@), main_sep);
        }
    }
    find_base_path_and_format_on(main_path, formats, None, main_sep)
}

} // verus!

verus! {

/// The full path, in a format without prefix, of the base path of a notebook in that
/// format is the path of the notebook, when the path ends with its extension.
pub proof fn full_path_of_base_path(
    main: Seq<char>,
    fmt: Map<Seq<char>, Seq<char>>,
    config_dir: Option<Seq<char>>,
    main_sep: char,
)
    requires
        fmt.contains_key("extension"@),
        get_or_empty(fmt, "prefix"@).len() == 0,
        split_extension_spec(main).0 + split_extension_spec(main).1 == main,
        base_path_spec(main, fmt, Seq::empty(), config_dir, main_sep) is Ok,
    ensures
        full_path_spec(
            base_path_spec(main, fmt, Seq::empty(), config_dir, main_sep)->Ok_0,
            fmt,
            main_sep,
        ) == Ok::<Seq<char>, PathFault>(main),
{
    reveal(base_path_spec);
    let (base_name, ext) = split_extension_spec(main);
    assert(compatible_pred(fmt)(seq![fmt][0]));
    first_match_is(seq![fmt], compatible_pred(fmt), 0);
    assert(fmt.union_prefer_right(fmt) =~= fmt);
    assert(merged_format(fmt, Seq::empty()) == fmt);
    let suffix = get_or_empty(fmt, "suffix"@);
    let base = base_path_spec(main, fmt, Seq::empty(), config_dir, main_sep)->Ok_0;
    if suffix.len() > 0 {
        assert(base + suffix =~= base_name);
    } else {
        assert(base + suffix =~= base_name);
    }
    assert(base + suffix + fmt["extension"@] =~= main);
}

/// When the paired paths of a notebook are found, with paired formats, there is one path
/// for each format, with that format, the notebook's own path is among them, and no path
/// occurs twice.
pub proof fn paired_paths_facts(
    main: Seq<char>,
    fmt: Map<Seq<char>, Seq<char>>,
    formats: Seq<Map<Seq<char>, Seq<char>>>,
    config_dir: Option<Seq<char>>,
    main_sep: char,
)
    requires
        formats.len() > 0,
        paired_paths_spec(main, fmt, formats, config_dir, main_sep) is Ok,
    ensures
        ({
            let v = paired_paths_spec(main, fmt, formats, config_dir, main_sep)->Ok_0;
            &&& v.len() == formats.len()
            &&& forall|i: int| 0 <= i < v.len() ==> (#[trigger] v[i]).1 == formats[i]
            &&& exists|i: int| 0 <= i < v.len() && (#[trigger] v[i]).0 == main
            &&& forall|i: int, j: int| 0 <= i < j < v.len() ==> (#[trigger] v[i]).0 != (
            #[trigger] v[j]).0
        }),
{
    let base = base_path_spec(main, fmt, formats, config_dir, main_sep)->Ok_0;
    let paths = full_paths(base, formats, main_sep)->Ok_0;
    lemma_full_paths_len(base, formats, main_sep);
    let v = paired_paths_spec(main, fmt, formats, config_dir, main_sep)->Ok_0;
    assert(paths.contains(main));
    let k = choose|k: int| 0 <= k < paths.len() && paths[k] == main;
    assert(v[k].0 == main);
}

proof fn lemma_full_paths_len(base: Seq<char>, formats: Seq<Map<Seq<char>, Seq<char>>>, main_sep: char)
    ensures
        full_paths(base, formats, main_sep) is Ok ==> full_paths(base, formats, main_sep)->Ok_0.len()
            == formats.len(),
    decreases formats.len(),
{
    if formats.len() > 0 {
        lemma_full_paths_len(base, formats.drop_last(), main_sep);
    }
}

} // verus!

verus! {

/// The text holds no backslash.
pub open spec fn no_backslash(s: Seq<char>) -> bool {
    !has_char(s, '\\')
}

proof fn lemma_cut_bytes_range(s: Seq<char>, n: nat)
    ensures
        cut_bytes(s, n) matches Some(k) ==> 0 <= k <= s.len(),
    decreases s.len(),
{
    if n > 0 && s.len() > 0 && utf8_width(s.last()) <= n {
        lemma_cut_bytes_range(s.drop_last(), (n - utf8_width(s.last())) as nat);
    }
}

proof fn lemma_sub_no_backslash(s: Seq<char>, i: int, j: int)
    requires
        no_backslash(s),
        0 <= i <= j <= s.len(),
    ensures
        no_backslash(s.subrange(i, j)),
{
    if has_char(s.subrange(i, j), '\\') {
        let k = choose|k: int| 0 <= k < j - i && s.subrange(i, j)[k] == '\\';
        assert(s[i + k] == '\\');
    }
}

proof fn lemma_add_no_backslash(a: Seq<char>, b: Seq<char>)
    requires
        no_backslash(a),
        no_backslash(b),
    ensures
        no_backslash(a + b),
{
    if has_char(a + b, '\\') {
        let k = choose|k: int| 0 <= k < (a + b).len() && (a + b)[k] == '\\';
        if k < a.len() {
            assert(a[k] == '\\');
        } else {
            assert(b[k - a.len()] == '\\');
        }
    }
}

proof fn lemma_slash_no_backslash()
    ensures
        no_backslash(seq!['/']),
        no_backslash(seq!['/', '/']),
        no_backslash(Seq::<char>::empty()),
{
    if has_char(seq!['/'], '\\') {
        let k = choose|k: int| 0 <= k < 1 && seq!['/'][k] == '\\';
    }
    if has_char(seq!['/', '/'], '\\') {
        let k = choose|k: int| 0 <= k < 2 && seq!['/', '/'][k] == '\\';
        assert(k == 0 || k == 1);
    }
}

proof fn lemma_split_last_no_backslash(s: Seq<char>)
    requires
        no_backslash(s),
    ensures
        no_backslash(split_last_spec(s, '/').0),
        no_backslash(split_last_spec(s, '/').1),
{
    crate::text::rfind_char_facts(s, '/');
    match rfind_char(s, '/') {
        Some(p) => {
            lemma_sub_no_backslash(s, 0, p);
            lemma_sub_no_backslash(s, p + 1, s.len() as int);
        },
        None => {
            lemma_slash_no_backslash();
        },
    }
}

proof fn lemma_strip_dirs_no_backslash(ppd: Seq<char>, pnd: Seq<char>, folders: Seq<Seq<char>>)
    requires
        no_backslash(pnd),
        forall|i: int| 0 <= i < folders.len() ==> no_backslash(#[trigger] folders[i]),
    ensures
        strip_dirs(ppd, pnd, folders, '/') matches Some(x) ==> no_backslash(x),
    decreases ppd.len(),
{
    if ppd.len() > 0 {
        crate::text::rfind_char_facts(ppd, '/');
        let (rest, expected) = split_last_spec(ppd, '/');
        if expected == seq!['.', '.'] {
            if folders.len() > 0 {
                let j = join_parts_spec(pnd, folders.last(), '/');
                assert(no_backslash(folders.last())) by {
                    assert(folders.last() == folders[folders.len() - 1]);
                }
                if pnd.len() > 0 {
                    lemma_slash_no_backslash();
                    lemma_add_no_backslash(pnd, seq!['/']);
                    assert(pnd.push('/') =~= pnd + seq!['/']);
                    lemma_add_no_backslash(pnd.push('/'), folders.last());
                }
                let fd = folders.drop_last();
                assert forall|i: int| 0 <= i < fd.len() implies no_backslash(#[trigger] fd[i]) by {
                    assert(fd[i] == folders[i]);
                }
                lemma_strip_dirs_no_backslash(rest, j, fd);
            }
        } else {
            lemma_split_last_no_backslash(pnd);
            let (rd, actual) = split_last_spec(pnd, '/');
            let fp = folders.push(actual);
            assert forall|i: int| 0 <= i < fp.len() implies no_backslash(#[trigger] fp[i]) by {
                if i < folders.len() {
                    assert(fp[i] == folders[i]);
                }
            }
            lemma_strip_dirs_no_backslash(rest, rd, fp);
        }
    }
}

proof fn lemma_root_stripped_no_backslash(nd: Seq<char>, root: Seq<char>)
    requires
        no_backslash(nd),
    ensures
        root_stripped(nd, root, '/') matches Some(x) ==> no_backslash(x),
{
    let long_root = seq!['/'] + replace_char(root, '/', '/') + seq!['/'];
    let long_dir = seq!['/'] + nd + seq!['/'];
    lemma_slash_no_backslash();
    lemma_add_no_backslash(seq!['/'], nd);
    lemma_add_no_backslash(seq!['/'] + nd, seq!['/']);
    match rfind_sub(long_dir, long_root) {
        None => {},
        Some(pos) => {
            crate::text::rfind_sub_from_facts(long_dir, long_root, long_dir.len() - long_root.len());
            if 0 <= pos && pos + long_root.len() <= long_dir.len() {
                lemma_sub_no_backslash(long_dir, 0, pos);
                lemma_sub_no_backslash(long_dir, pos + long_root.len(), long_dir.len() as int);
                let mid = seq!['/', '/', '/'];
                assert(no_backslash(mid)) by {
                    if has_char(mid, '\\') {
                        let k = choose|k: int| 0 <= k < 3 && mid[k] == '\\';
                        assert(k == 0 || k == 1 || k == 2);
                    }
                }
                let a = long_dir.subrange(0, pos);
                let c = long_dir.subrange(pos + long_root.len(), long_dir.len() as int);
                lemma_add_no_backslash(a, mid);
                lemma_add_no_backslash(a + mid, c);
                let x = a + mid + c;
                if x.len() > 0 && x[0] == '/' {
                    lemma_sub_no_backslash(x, 1, x.len() as int);
                    assert(x.drop_first() =~= x.subrange(1, x.len() as int));
                }
                let y = if x.len() > 0 && x[0] == '/' { x.drop_first() } else { x };
                if y.len() > 0 && y.last() == '/' {
                    lemma_sub_no_backslash(y, 0, y.len() - 1);
                    assert(y.drop_last() =~= y.subrange(0, y.len() - 1));
                }
            }
        },
    }
}

/// Under a main separator other than the backslash, and for a base without backslash, the
/// base path stripped of its prefix is the same as with `/`, and holds no backslash.
proof fn lemma_prefix_stripped_slash(base: Seq<char>, prefix: Seq<char>, main_sep: char)
    requires
        no_backslash(base),
    ensures
        prefix_stripped(base, prefix, None, main_sep) == prefix_stripped(base, prefix, None, '/'),
        prefix_stripped(base, prefix, None, '/') matches Ok(x) ==> no_backslash(x),
{
    assert(separator_for(base, main_sep) == '/');
    assert(separator_for(base, '/') == '/');
    let (root, pdir, pfile) = decompose_prefix_spec(prefix);
    lemma_split_last_no_backslash(base);
    let (nd0, nf0) = split_last_spec(base, '/');
    let nf = if pfile.len() > 0 && has_prefix(nf0, pfile) {
        nf0.subrange(pfile.len() as int, nf0.len() as int)
    } else {
        nf0
    };
    if pfile.len() > 0 && has_prefix(nf0, pfile) {
        lemma_sub_no_backslash(nf0, pfile.len() as int, nf0.len() as int);
    }
    lemma_strip_dirs_no_backslash(pdir, nd0, Seq::empty());
    if pdir.len() > 0 {
        match strip_dirs(pdir, nd0, Seq::empty(), '/') {
            Some(nd3) => {
                lemma_root_stripped_no_backslash(nd3, root);
            },
            None => {},
        }
    } else {
        lemma_root_stripped_no_backslash(nd0, root);
    }
    lemma_slash_no_backslash();
    match prefix_stripped(base, prefix, None, '/') {
        Ok(x) => {
            let nd3 = if pdir.len() > 0 {
                strip_dirs(pdir, nd0, Seq::empty(), '/')->0
            } else {
                nd0
            };
            let nd5 = if root.len() > 0 {
                root_stripped(nd3, root, '/')->0
            } else {
                nd3
            };
            if nd5.len() > 0 {
                lemma_add_no_backslash(nd5, seq!['/']);
                assert(nd5.push('/') =~= nd5 + seq!['/']);
                lemma_add_no_backslash(nd5.push('/'), nf);
            }
        },
        Err(_) => {},
    }
}

/// For a main path without backslash, the base path is the same whatever the main
/// separator, and holds no backslash.
pub proof fn base_path_separator_free(
    main: Seq<char>,
    fmt: Map<Seq<char>, Seq<char>>,
    formats: Seq<Map<Seq<char>, Seq<char>>>,
    main_sep: char,
)
    requires
        no_backslash(main),
    ensures
        base_path_spec(main, fmt, formats, None, main_sep) == base_path_spec(main, fmt, formats, None, '/'),
        base_path_spec(main, fmt, formats, None, '/') matches Ok(b) ==> no_backslash(b),
{
    reveal(base_path_spec);
    let (base_name, ext) = split_extension_spec(main);
    match path_extension(main) {
        Some(x) => {
            let e = seq!['.'] + x;
            match cut_bytes(main, utf8_len(e)) {
                Some(k) => {
                    lemma_cut_bytes_range(main, utf8_len(e));
                    lemma_sub_no_backslash(main, 0, k);
                },
                None => {},
            }
        },
        None => {},
    }
    assert(no_backslash(base_name));
    let cur = if fmt.contains_key("extension"@) {
        fmt
    } else {
        fmt.insert("extension"@, ext)
    };
    let merged = merged_format(cur, formats);
    let suffix = get_or_empty(merged, "suffix"@);
    if suffix.len() > 0 && has_suffix(base_name, suffix) {
        lemma_sub_no_backslash(base_name, 0, base_name.len() - suffix.len());
    }
    let base = if suffix.len() > 0 {
        base_name.subrange(0, base_name.len() - suffix.len())
    } else {
        base_name
    };
    let prefix = get_or_empty(merged, "prefix"@);
    if suffix.len() == 0 || has_suffix(base_name, suffix) {
        lemma_prefix_stripped_slash(base, prefix, main_sep);
    }
}

/// The full paths of a base without backslash are the same whatever the main separator.
proof fn lemma_full_paths_slash(base: Seq<char>, formats: Seq<Map<Seq<char>, Seq<char>>>, main_sep: char)
    requires
        no_backslash(base),
    ensures
        full_paths(base, formats, main_sep) == full_paths(base, formats, '/'),
    decreases formats.len(),
{
    if formats.len() > 0 {
        lemma_full_paths_slash(base, formats.drop_last(), main_sep);
        assert(separator_for(base, main_sep) == '/');
        assert(full_path_spec(base, formats.last(), main_sep) == full_path_spec(base, formats.last(), '/'));
    }
}

/// For a main path without backslash, the paired paths are the same whatever the main
/// separator.
pub proof fn paired_paths_separator_free(
    main: Seq<char>,
    fmt: Map<Seq<char>, Seq<char>>,
    formats: Seq<Map<Seq<char>, Seq<char>>>,
    main_sep: char,
)
    requires
        no_backslash(main),
    ensures
        paired_paths_spec(main, fmt, formats, None, main_sep) == paired_paths_spec(main, fmt, formats, None, '/'),
{
    base_path_separator_free(main, fmt, formats, main_sep);
    match base_path_spec(main, fmt, formats, None, '/') {
        Ok(b) => {
            lemma_full_paths_slash(b, formats, main_sep);
        },
        Err(_) => {},
    }
}

/// For a main path without backslash, the base path and format found are the same
/// whatever the main separator.
pub proof fn find_base_separator_free(main: Seq<char>, formats: Seq<Map<Seq<char>, Seq<char>>>, main_sep: char)
    requires
        no_backslash(main),
    ensures
        find_base_spec(main, formats, None, main_sep) == find_base_spec(main, formats, None, '/'),
{
    assert forall|f: Map<Seq<char>, Seq<char>>| #[trigger] base_path_spec(main, f, formats, None, main_sep) == base_path_spec(main, f, formats, None, '/') by {
        base_path_separator_free(main, f, formats, main_sep);
    }
    assert(gives_base_pred(main, formats, None, main_sep) =~= gives_base_pred(main, formats, None, '/'));
}

} // verus!

verus! {

/// Two slashes follow each other at position `i` of `s`.
pub open spec fn slash_pair(s: Seq<char>, i: int) -> bool {
    s[i] == '/' && s[i + 1] == '/'
}

/// No two slashes follow each other in `s`: the path has no empty folder.
pub open spec fn no_double_slash(s: Seq<char>) -> bool {
    forall|i: int| 0 <= i < s.len() - 1 ==> !#[trigger] slash_pair(s, i)
}

/// The path does not start at the root of the file system.
pub open spec fn relative_path(s: Seq<char>) -> bool {
    s.len() == 0 || s[0] != '/'
}

/// `d` is made of folder names separated by single slashes, none of them empty or `..`.
pub open spec fn plain_folders(d: Seq<char>) -> bool
    decreases d.len(),
{
    if d.len() == 0 {
        true
    } else {
        proof {
            crate::text::rfind_char_facts(d, '/');
        }
        let (rest, last) = split_last_spec(d, '/');
        &&& last.len() > 0
        &&& last != seq!['.', '.']
        &&& (has_char(d, '/') ==> rest.len() > 0)
        &&& plain_folders(rest)
    }
}

proof fn lemma_sub_no_double_slash(s: Seq<char>, i: int, j: int)
    requires
        no_double_slash(s),
        0 <= i <= j <= s.len(),
    ensures
        no_double_slash(s.subrange(i, j)),
{
    let t = s.subrange(i, j);
    assert forall|k: int| 0 <= k < t.len() - 1 implies !#[trigger] slash_pair(t, k) by {
        assert(!slash_pair(s, i + k));
    }
}

proof fn lemma_no_slash_no_double_slash(s: Seq<char>)
    requires
        !has_char(s, '/'),
    ensures
        no_double_slash(s),
        relative_path(s),
{
    assert forall|k: int| 0 <= k < s.len() - 1 implies !#[trigger] slash_pair(s, k) by {
        if s[k] == '/' {
            assert(has_char(s, '/'));
        }
    }
    if s.len() > 0 && s[0] == '/' {
        assert(has_char(s, '/'));
    }
}

proof fn lemma_join_no_double_slash(a: Seq<char>, b: Seq<char>)
    requires
        no_double_slash(a),
        no_double_slash(b),
        a.len() == 0 || a.last() != '/',
        relative_path(b),
    ensures
        no_double_slash(join_parts_spec(a, b, '/')),
{
    if a.len() > 0 {
        let s = a.push('/') + b;
        assert forall|k: int| 0 <= k < s.len() - 1 implies !#[trigger] slash_pair(s, k) by {
            if k < a.len() - 1 {
                assert(!slash_pair(a, k));
            } else if k == a.len() - 1 {
                assert(s[k] == a.last());
            } else if k == a.len() {
                assert(s[k + 1] == b[0]);
            } else {
                assert(!slash_pair(b, k - a.len() - 1));
            }
        }
    }
}

proof fn lemma_no_double_slash_sub(s: Seq<char>)
    requires
        no_double_slash(s),
    ensures
        !contains_sub(s, seq!['/', '/']),
        double_slash(s) is None,
{
    let p = seq!['/', '/'];
    assert forall|i: int| !occurs_at(s, p, i) by {
        if occurs_at(s, p, i) {
            assert(s.subrange(i, i + 2)[0] == s[i]);
            assert(s.subrange(i, i + 2)[1] == s[i + 1]);
            assert(slash_pair(s, i));
        }
    }
    rfind_sub_from_facts(s, p, s.len() - p.len());
}

proof fn lemma_split_last_slash(s: Seq<char>)
    requires
        relative_path(s),
    ensures
        s == join_parts_spec(split_last_spec(s, '/').0, split_last_spec(s, '/').1, '/'),
        !has_char(split_last_spec(s, '/').1, '/'),
        relative_path(split_last_spec(s, '/').0),
        split_last_spec(s, '/').0.len() <= s.len(),
        split_last_spec(s, '/').0 == s.subrange(0, split_last_spec(s, '/').0.len() as int),
        no_double_slash(s) ==> no_double_slash(split_last_spec(s, '/').0),
        no_double_slash(s) && split_last_spec(s, '/').0.len() > 0 ==> split_last_spec(s, '/').0.last() != '/',
{
    crate::text::rfind_char_facts(s, '/');
    match rfind_char(s, '/') {
        Some(p) => {
            let l = s.subrange(0, p);
            let r = s.subrange(p + 1, s.len() as int);
            assert(s =~= l.push('/') + r);
            assert(l =~= s.subrange(0, l.len() as int));
            if no_double_slash(s) {
                lemma_sub_no_double_slash(s, 0, p);
                assert(!slash_pair(s, p - 1));
            }
        },
        None => {
            assert(Seq::<char>::empty() =~= s.subrange(0, 0));
        },
    }
}

proof fn lemma_split_last_join(l: Seq<char>, r: Seq<char>)
    requires
        !has_char(r, '/'),
    ensures
        split_last_spec(join_parts_spec(l, r, '/'), '/') == (l, r),
{
    let s = join_parts_spec(l, r, '/');
    crate::text::rfind_char_facts(s, '/');
    if l.len() == 0 {
        match rfind_char(s, '/') {
            Some(i) => {
                assert(r[i] == '/');
            },
            None => {},
        }
        assert(l =~= Seq::<char>::empty());
    } else {
        assert(s[l.len() as int] == '/');
        match rfind_char(s, '/') {
            Some(i) => {
                if i < l.len() {
                    assert(s.subrange(i + 1, s.len() as int)[l.len() - i - 1] == '/');
                } else if i > l.len() {
                    assert(r[i - l.len() - 1] == '/');
                }
                assert(s.subrange(0, i) =~= l);
                assert(s.subrange(i + 1, s.len() as int) =~= r);
            },
            None => {
                assert(has_char(s, '/'));
            },
        }
    }
}

proof fn lemma_join_assoc(r: Seq<char>, rest: Seq<char>, e: Seq<char>)
    requires
        rest.len() > 0,
    ensures
        join_parts_spec(join_parts_spec(r, rest, '/'), e, '/') == join_parts_spec(
            r,
            join_parts_spec(rest, e, '/'),
            '/',
        ),
{
    assert(join_parts_spec(join_parts_spec(r, rest, '/'), e, '/') =~= join_parts_spec(
        r,
        join_parts_spec(rest, e, '/'),
        '/',
    ));
}

proof fn lemma_plain_split(d: Seq<char>)
    requires
        d.len() > 0,
        plain_folders(d),
    ensures
        d == join_parts_spec(split_last_spec(d, '/').0, split_last_spec(d, '/').1, '/'),
        split_last_spec(d, '/').0.len() < d.len(),
{
    crate::text::rfind_char_facts(d, '/');
    match rfind_char(d, '/') {
        Some(p) => {
            assert(has_char(d, '/'));
            assert(d =~= d.subrange(0, p).push('/') + d.subrange(p + 1, d.len() as int));
        },
        None => {},
    }
}

proof fn lemma_plain_no_leading_dotdot(d: Seq<char>)
    requires
        plain_folders(d),
    ensures
        !has_prefix(d, seq!['.', '.', '/']),
    decreases d.len(),
{
    if d.len() > 0 && has_prefix(d, seq!['.', '.', '/']) {
        crate::text::rfind_char_facts(d, '/');
        assert(d.subrange(0, 3)[0] == d[0] && d.subrange(0, 3)[1] == d[1] && d.subrange(0, 3)[2] == d[2]);
        assert(d[0] == '.' && d[1] == '.' && d[2] == '/');
        assert(has_char(d, '/'));
        let (rest, last) = split_last_spec(d, '/');
        let p = rfind_char(d, '/')->0;
        if p < 2 {
            assert(d.subrange(p + 1, d.len() as int)[2 - p - 1] == '/');
        }
        if p >= 3 {
            assert(rest.subrange(0, 3) =~= d.subrange(0, 3));
            lemma_plain_no_leading_dotdot(rest);
        } else if p == 2 {
            assert(rest =~= seq!['.', '.']);
            reveal_with_fuel(plain_folders, 2);
            crate::text::rfind_char_facts(rest, '/');
            if rfind_char(rest, '/') is Some {
                let q = rfind_char(rest, '/')->0;
                assert(rest[q] == '.');
            }
            assert(split_last_spec(rest, '/').1 == rest);
        }
    }
}

proof fn lemma_strip_plain_dirs(ppd: Seq<char>, pnd: Seq<char>, folders: Seq<Seq<char>>)
    requires
        ppd.len() > 0,
        plain_folders(ppd),
        relative_path(pnd),
        strip_dirs(ppd, pnd, folders, '/') is Some,
    ensures
        pnd == join_parts_spec(strip_dirs(ppd, pnd, folders, '/')->0, ppd, '/'),
    decreases ppd.len(),
{
    crate::text::rfind_char_facts(ppd, '/');
    lemma_plain_split(ppd);
    let (rest, expected) = split_last_spec(ppd, '/');
    lemma_split_last_slash(pnd);
    let (rd, actual) = split_last_spec(pnd, '/');
    let r = strip_dirs(ppd, pnd, folders, '/')->0;
    assert(actual == expected);
    assert(strip_dirs(rest, rd, folders.push(actual), '/') == Some(r));
    if rest.len() > 0 {
        lemma_strip_plain_dirs(rest, rd, folders.push(actual));
        lemma_join_assoc(r, rest, expected);
    }
}

proof fn lemma_no_slash_pair_after(a: Seq<char>, t: Seq<char>, i: int)
    requires
        relative_path(t),
        no_double_slash(t),
        a.len() < i < a.len() + t.len() + 1,
    ensures
        !slash_pair(a + seq!['/', '/'] + t, i),
{
    let s = a + seq!['/', '/'] + t;
    let k = a.len() as int;
    if i == k + 1 {
        assert(s[i + 1] == t[0]);
    } else {
        assert(s[i] == t[i - k - 2]);
        assert(s[i + 1] == t[i - k - 1]);
        assert(!slash_pair(t, i - k - 2));
    }
}

proof fn lemma_occurs_slash_pair(s: Seq<char>, i: int)
    ensures
        occurs_at(s, seq!['/', '/'], i) <==> (0 <= i && i + 2 <= s.len() && slash_pair(s, i)),
{
    if 0 <= i && i + 2 <= s.len() {
        assert(s.subrange(i, i + 2)[0] == s[i]);
        assert(s.subrange(i, i + 2)[1] == s[i + 1]);
        if slash_pair(s, i) {
            assert(s.subrange(i, i + 2) =~= seq!['/', '/']);
        }
    }
}

/// The last two slashes in a row of `s` are at `k` when none follow.
proof fn lemma_last_pair_at(s: Seq<char>, k: int)
    requires
        0 <= k,
        k + 2 <= s.len(),
        slash_pair(s, k),
        forall|i: int| k < i < s.len() - 1 ==> !#[trigger] slash_pair(s, i),
    ensures
        contains_sub(s, seq!['/', '/']),
        double_slash(s) == Some(k),
{
    lemma_occurs_slash_pair(s, k);
    rfind_sub_from_facts(s, seq!['/', '/'], s.len() - 2);
    let r = rfind_sub(s, seq!['/', '/']);
    if r is Some {
        let i = r->0;
        lemma_occurs_slash_pair(s, i);
    }
}

/// The last two slashes in a row of `a + // + t` are the ones after `a`, when `t` has
/// none and does not start with one.
proof fn lemma_last_double_slash(a: Seq<char>, t: Seq<char>)
    requires
        relative_path(t),
        no_double_slash(t),
    ensures
        contains_sub(a + seq!['/', '/'] + t, seq!['/', '/']),
        double_slash(a + seq!['/', '/'] + t) == Some(a.len() as int),
{
    let s = a + seq!['/', '/'] + t;
    let k = a.len() as int;
    assert(s[k] == '/' && s[k + 1] == '/');
    assert forall|i: int| k < i < s.len() - 1 implies !#[trigger] slash_pair(s, i) by {
        lemma_no_slash_pair_after(a, t, i);
    }
    lemma_last_pair_at(s, k);
}

/// The notebook directory and file name that the full path of a base path with a root
/// puts back: what is before the last `//`, the root, and the folders after it.
pub open spec fn rooted_dir(base: Seq<char>, root: Seq<char>) -> (Seq<char>, Seq<char>) {
    let p = double_slash(base)->0;
    let (rd, f) = split_last_spec(base.subrange(p + 2, base.len() as int), '/');
    (base.subrange(0, p) + root + seq!['/'] + rd, f)
}

/// Where the root of the prefix is found in the notebook directory `n`: `n` with a final
/// slash is `a`, the root, a slash and `q`, and the directory with the root replaced by
/// `//` is `a`, `//` and `q`, without the final slash.
proof fn lemma_root_split(n: Seq<char>, root: Seq<char>) -> (aq: (Seq<char>, Seq<char>))
    requires
        n.len() > 0,
        relative_path(n),
        no_double_slash(n),
        n.last() != '/',
        root_stripped(n, root, '/') is Some,
    ensures
        n + seq!['/'] == aq.0 + root + seq!['/'] + aq.1,
        root_stripped(n, root, '/') == Some((aq.0 + seq!['/', '/'] + aq.1).drop_last()),
{
    assert(replace_char(root, '/', '/') =~= root);
    let r = seq!['/'] + root + seq!['/'];
    let d = seq!['/'] + n + seq!['/'];
    let m = r.len() as int;
    rfind_sub_from_facts(d, r, d.len() - r.len());
    let pos = rfind_sub(d, r)->0;
    assert(occurs_at(d, r, pos));
    let pp = d.subrange(0, pos);
    let q = d.subrange(pos + m, d.len() as int);
    assert(d =~= pp + r + q);
    let a = if pos > 0 {
        pp.drop_first().push('/')
    } else {
        Seq::<char>::empty()
    };
    if pos > 0 {
        assert(pp[0] == '/');
        assert(pp =~= seq!['/'] + pp.drop_first());
    }
    assert(pp + seq!['/'] =~= seq!['/'] + a);
    assert(pp + r + q =~= (pp + seq!['/']) + root + seq!['/'] + q);
    assert(d =~= seq!['/'] + (a + root + seq!['/'] + q));
    assert(n + seq!['/'] =~= a + root + seq!['/'] + q) by {
        assert(d.drop_first() =~= n + seq!['/']);
        assert((seq!['/'] + (a + root + seq!['/'] + q)).drop_first() =~= a + root + seq!['/'] + q);
    }
    let x = pp + seq!['/', '/', '/'] + q;
    assert(x[0] == '/');
    let y = x.drop_first();
    assert(y =~= a + seq!['/', '/'] + q);
    assert(y.last() == '/') by {
        if q.len() > 0 {
            assert(q.last() == d.last());
        }
    }
    (a, q)
}

/// A notebook directory `n` with its prefix root replaced by `//`, followed by the file
/// name `nf`, gives back `n` (up to a final slash) and `nf`.
#[verifier::spinoff_prover]
#[verifier::rlimit(50)]
proof fn lemma_root_round_trip(n: Seq<char>, root: Seq<char>, nf: Seq<char>)
    requires
        n.len() > 0,
        relative_path(n),
        no_double_slash(n),
        n.last() != '/',
        !has_char(nf, '/'),
        root_stripped(n, root, '/') is Some,
    ensures
        contains_sub(join_parts_spec(root_stripped(n, root, '/')->0, nf, '/'), seq!['/', '/']),
        double_slash(join_parts_spec(root_stripped(n, root, '/')->0, nf, '/')) is Some,
        rooted_dir(join_parts_spec(root_stripped(n, root, '/')->0, nf, '/'), root).1 == nf,
        with_trailing_sep(rooted_dir(join_parts_spec(root_stripped(n, root, '/')->0, nf, '/'), root).0, '/')
            == with_trailing_sep(n, '/'),
{
    lemma_no_slash_no_double_slash(nf);
    let (a, q) = lemma_root_split(n, root);
    let e = n + seq!['/'];
    assert forall|k: int| 0 <= k < e.len() - 1 implies !#[trigger] slash_pair(e, k) by {
        if k == n.len() - 1 {
            assert(e[k] == n.last());
        } else {
            assert(!slash_pair(n, k));
        }
    }
    let j: int = (a.len() + root.len() + 1) as int;
    assert(q =~= e.subrange(j, e.len() as int));
    let nd5 = (a + seq!['/', '/'] + q).drop_last();
    let q2 = if q.len() > 0 {
        q.drop_last()
    } else {
        Seq::<char>::empty()
    };
    if q.len() > 0 {
        assert(e[j - 1] == '/');
        assert(!slash_pair(e, j - 1));
        assert(q[0] == e[j]);
        assert(q.last() == '/');
        assert(q2 =~= n.subrange(j, n.len() as int));
        lemma_sub_no_double_slash(n, j, n.len() as int);
        assert(q2.len() > 0) by {
            if q2.len() == 0 {
                assert(q[0] == q.last());
            }
        }
        assert(q2.last() == n.last());
        assert(q2[0] == q[0]);
        assert(nd5 =~= a + seq!['/', '/'] + q2);
    } else {
        assert(nd5 =~= a + seq!['/']);
    }
    let t = join_parts_spec(q2, nf, '/');
    lemma_join_no_double_slash(q2, nf);
    if q2.len() > 0 {
        assert(t[0] == q2[0]);
    }
    let base = join_parts_spec(nd5, nf, '/');
    assert(base =~= a + seq!['/', '/'] + t);
    lemma_last_double_slash(a, t);
    let k = a.len() as int;
    assert(base.subrange(k + 2, base.len() as int) =~= t);
    assert(base.subrange(0, k) =~= a);
    lemma_split_last_join(q2, nf);
    let xd = a + root + seq!['/'] + q2;
    assert(rooted_dir(base, root) == (xd, nf));
    if q.len() > 0 {
        assert(q =~= q2.push('/'));
        assert(e =~= xd + seq!['/']);
        assert(n =~= xd) by {
            assert(e.drop_last() =~= n);
            assert((xd + seq!['/']).drop_last() =~= xd);
        }
    } else {
        assert(xd =~= e);
    }
}

/// The base path of `base0` under a prefix whose directory is made of plain folder names,
/// put back under that prefix, is `base0`.
#[verifier::spinoff_prover]
#[verifier::rlimit(50)]
proof fn lemma_prefixed_base_of_stripped(base0: Seq<char>, fmt: Map<Seq<char>, Seq<char>>)
    requires
        relative_path(base0),
        no_double_slash(base0),
        get_or_empty(fmt, "prefix"@).len() > 0,
        plain_folders(decompose_prefix_spec(get_or_empty(fmt, "prefix"@)).1),
        prefix_stripped(base0, get_or_empty(fmt, "prefix"@), None, '/') is Ok,
    ensures
        prefixed_base(
            prefix_stripped(base0, get_or_empty(fmt, "prefix"@), None, '/')->Ok_0,
            fmt,
            '/',
        ) == Ok::<Seq<char>, PathFault>(base0),
{
    let prefix = get_or_empty(fmt, "prefix"@);
    let (root, pdir, pfile) = decompose_prefix_spec(prefix);
    lemma_split_last_slash(base0);
    let (nd0, nf0) = split_last_spec(base0, '/');
    let nf = if pfile.len() > 0 {
        nf0.subrange(pfile.len() as int, nf0.len() as int)
    } else {
        nf0
    };
    assert(pfile + nf =~= nf0);
    if has_char(nf, '/') {
        let k = choose|k: int| 0 <= k < nf.len() && nf[k] == '/';
        assert(nf0[pfile.len() + k] == '/');
    }
    lemma_no_slash_no_double_slash(nf);
    let nd3 = if pdir.len() > 0 {
        strip_dirs(pdir, nd0, Seq::empty(), '/')->0
    } else {
        nd0
    };
    if pdir.len() > 0 {
        lemma_strip_plain_dirs(pdir, nd0, Seq::empty());
        if nd3.len() > 0 {
            assert(nd3 =~= nd0.subrange(0, nd3.len() as int));
            lemma_sub_no_double_slash(nd0, 0, nd3.len() as int);
            assert(!slash_pair(nd0, nd3.len() - 1));
            assert(nd3[0] == nd0[0]);
        }
    }
    assert(replace_char(pdir, '/', '/') =~= pdir);
    if pdir.len() > 0 {
        lemma_plain_no_leading_dotdot(pdir);
    }
    let base = prefix_stripped(base0, prefix, None, '/')->Ok_0;
    if root.len() == 0 {
        assert(base == join_parts_spec(nd3, nf, '/'));
        lemma_join_no_double_slash(nd3, nf);
        lemma_no_double_slash_sub(base);
        lemma_split_last_join(nd3, nf);
        if pdir.len() > 0 {
            assert(strip_dotdots(pdir, nd3, '/') == (pdir, nd3));
            assert(with_trailing_sep(nd3, '/') + pdir =~= join_parts_spec(nd3, pdir, '/'));
        }
        assert(with_trailing_sep(nd0, '/') + (pfile + nf) =~= join_parts_spec(nd0, nf0, '/'));
    } else {
        assert(nd3.len() > 0);
        let nd5 = root_stripped(nd3, root, '/')->0;
        assert(base == join_parts_spec(nd5, nf, '/'));
        lemma_root_round_trip(nd3, root, nf);
        let (xd, f) = rooted_dir(base, root);
        if pdir.len() > 0 {
            assert(strip_dotdots(pdir, xd, '/') == (pdir, xd));
            assert(with_trailing_sep(xd, '/') + pdir =~= join_parts_spec(nd3, pdir, '/'));
        }
        assert(with_trailing_sep(nd0, '/') + (pfile + nf) =~= join_parts_spec(nd0, nf0, '/'));
    }
}

/// The full path of the base path of a notebook is the path of the notebook: in a format
/// with an extension, and with a prefix (if any) whose directory is made of plain folder
/// names (no `..`), whatever its root and file name prefix, for a relative path with `/`
/// separators, no empty folder, and that ends with its extension.
pub proof fn full_path_inverts_base_path(main: Seq<char>, fmt: Map<Seq<char>, Seq<char>>)
    requires
        fmt.contains_key("extension"@),
        split_extension_spec(main).0 + split_extension_spec(main).1 == main,
        relative_path(main),
        no_double_slash(main),
        plain_folders(decompose_prefix_spec(get_or_empty(fmt, "prefix"@)).1),
        base_path_spec(main, fmt, Seq::empty(), None, '/') is Ok,
    ensures
        full_path_spec(base_path_spec(main, fmt, Seq::empty(), None, '/')->Ok_0, fmt, '/')
            == Ok::<Seq<char>, PathFault>(main),
{
    let prefix = get_or_empty(fmt, "prefix"@);
    if prefix.len() == 0 {
        full_path_of_base_path(main, fmt, None, '/');
    } else {
        reveal(base_path_spec);
        let (base_name, ext) = split_extension_spec(main);
        assert(compatible_pred(fmt)(seq![fmt][0]));
        first_match_is(seq![fmt], compatible_pred(fmt), 0);
        assert(fmt.union_prefer_right(fmt) =~= fmt);
        assert(merged_format(fmt, Seq::empty()) == fmt);
        let suffix = get_or_empty(fmt, "suffix"@);
        let base0 = if suffix.len() > 0 {
            base_name.subrange(0, base_name.len() - suffix.len())
        } else {
            base_name
        };
        assert(base0 + suffix =~= base_name);
        assert((base0 + suffix) + ext == main);
        assert(base0 =~= main.subrange(0, base0.len() as int));
        lemma_sub_no_double_slash(main, 0, base0.len() as int);
        if base0.len() > 0 {
            assert(base0[0] == main[0]);
        }
        lemma_prefixed_base_of_stripped(base0, fmt);
        assert(base0 + suffix + ext =~= main);
    }
}

} // verus!

verus! {

/// A folder name: not empty, without a slash.
pub open spec fn folder_name(p: Seq<char>) -> bool {
    p.len() > 0 && !has_char(p, '/')
}

/// A folder name other than `..`.
pub open spec fn plain_name(p: Seq<char>) -> bool {
    folder_name(p) && p != seq!['.', '.']
}

/// `k` times the parent folder `..`.
pub open spec fn dotdots(k: nat) -> Seq<Seq<char>> {
    Seq::new(k, |i: int| seq!['.', '.'])
}

/// The names of `ps` from the last to the first.
spec fn reversed(ps: Seq<Seq<char>>) -> Seq<Seq<char>>
    decreases ps.len(),
{
    if ps.len() == 0 {
        Seq::empty()
    } else {
        seq![ps.last()] + reversed(ps.drop_last())
    }
}

/// `strip_dirs` with `/`, on the folder names of the prefix directory.
spec fn strip_list(names: Seq<Seq<char>>, pnd: Seq<char>, folders: Seq<Seq<char>>) -> Option<Seq<char>>
    decreases names.len(),
{
    if names.len() == 0 {
        Some(pnd)
    } else if names.last() == seq!['.', '.'] {
        if folders.len() == 0 {
            None
        } else {
            strip_list(names.drop_last(), join_parts_spec(pnd, folders.last(), '/'), folders.drop_last())
        }
    } else {
        let (rd, actual) = split_last_spec(pnd, '/');
        if actual != names.last() {
            None
        } else {
            strip_list(names.drop_last(), rd, folders.push(actual))
        }
    }
}

proof fn lemma_join_names(names: Seq<Seq<char>>)
    requires
        names.len() > 0,
        forall|i: int| 0 <= i < names.len() ==> folder_name(#[trigger] names[i]),
    ensures
        join(names, "/"@) == join_parts_spec(join(names.drop_last(), "/"@), names.last(), '/'),
        split_last_spec(join(names, "/"@), '/') == (join(names.drop_last(), "/"@), names.last()),
        join(names, "/"@).len() > 0,
        relative_path(join(names, "/"@)),
        no_double_slash(join(names, "/"@)),
        join(names, "/"@).last() != '/',
    decreases names.len(),
{
    reveal_strlit("/");
    let l = names.last();
    assert(folder_name(names[names.len() - 1]));
    assert(l == names[names.len() - 1]);
    lemma_no_slash_no_double_slash(l);
    if l.last() == '/' {
        assert(has_char(l, '/'));
    }
    let dl = names.drop_last();
    if names.len() == 1 {
        assert(join(dl, "/"@) =~= Seq::<char>::empty());
        assert(join(names, "/"@) == names[0]);
    } else {
        assert forall|i: int| 0 <= i < dl.len() implies folder_name(#[trigger] dl[i]) by {
            assert(dl[i] == names[i]);
        }
        lemma_join_names(dl);
        assert(join(names, "/"@) =~= join(dl, "/"@).push('/') + l);
        lemma_join_no_double_slash(join(dl, "/"@), l);
        assert(join(names, "/"@)[0] == join(dl, "/"@)[0]);
    }
    lemma_split_last_join(join(dl, "/"@), l);
}

proof fn lemma_join_cons(a: Seq<char>, rest: Seq<Seq<char>>)
    requires
        rest.len() > 0,
    ensures
        join(seq![a] + rest, "/"@) == a + "/"@ + join(rest, "/"@),
    decreases rest.len(),
{
    reveal_strlit("/");
    let s = seq![a] + rest;
    assert(s.len() > 1);
    assert(join(s, "/"@) == join(s.drop_last(), "/"@) + "/"@ + s.last());
    assert(s.last() == rest.last());
    if rest.len() == 1 {
        assert(s.drop_last() =~= seq![a]);
        assert(join(seq![a], "/"@) == a);
        assert(join(rest, "/"@) == rest[0]);
        assert(rest.last() == rest[0]);
        assert(join(s, "/"@) =~= a + "/"@ + join(rest, "/"@));
    } else {
        assert(s.drop_last() =~= seq![a] + rest.drop_last());
        lemma_join_cons(a, rest.drop_last());
        assert(join(rest, "/"@) == join(rest.drop_last(), "/"@) + "/"@ + rest.last());
        assert(join(s, "/"@) =~= a + "/"@ + join(rest, "/"@));
    }
}

proof fn lemma_strip_list(names: Seq<Seq<char>>, pnd: Seq<char>, folders: Seq<Seq<char>>)
    requires
        forall|i: int| 0 <= i < names.len() ==> folder_name(#[trigger] names[i]),
    ensures
        strip_dirs(join(names, "/"@), pnd, folders, '/') == strip_list(names, pnd, folders),
    decreases names.len(),
{
    reveal_strlit("/");
    if names.len() == 0 {
        assert(join(names, "/"@).len() == 0);
    } else {
        lemma_join_names(names);
        let dl = names.drop_last();
        assert forall|i: int| 0 <= i < dl.len() implies folder_name(#[trigger] dl[i]) by {
            assert(dl[i] == names[i]);
        }
        let (rd, actual) = split_last_spec(pnd, '/');
        lemma_strip_list(dl, rd, folders.push(actual));
        if folders.len() > 0 {
            lemma_strip_list(dl, join_parts_spec(pnd, folders.last(), '/'), folders.drop_last());
        }
    }
}

/// Taking off the plain folders `ps` at the end of the notebook directory: what remains.
proof fn lemma_strip_plain_list(d: Seq<Seq<char>>, ps: Seq<Seq<char>>, pnd: Seq<char>, folders: Seq<Seq<char>>) -> (rr: Seq<char>)
    requires
        ps.len() > 0,
        forall|i: int| 0 <= i < ps.len() ==> plain_name(#[trigger] ps[i]),
        relative_path(pnd),
        strip_list(d + ps, pnd, folders) is Some,
    ensures
        pnd == join_parts_spec(rr, join(ps, "/"@), '/'),
        rr == pnd.subrange(0, rr.len() as int),
        strip_list(d + ps, pnd, folders) == strip_list(d, rr, folders + reversed(ps)),
    decreases ps.len(),
{
    let l = d + ps;
    assert(l.last() == ps.last());
    assert(plain_name(ps[ps.len() - 1]));
    lemma_split_last_slash(pnd);
    let (rd, actual) = split_last_spec(pnd, '/');
    assert(l.drop_last() =~= d + ps.drop_last());
    let dl = ps.drop_last();
    assert forall|i: int| 0 <= i < dl.len() implies plain_name(#[trigger] dl[i]) by {
        assert(dl[i] == ps[i]);
    }
    assert forall|i: int| 0 <= i < ps.len() implies folder_name(#[trigger] ps[i]) by {
        assert(plain_name(ps[i]));
    }
    lemma_join_names(ps);
    if dl.len() == 0 {
        assert(reversed(dl) =~= Seq::<Seq<char>>::empty());
        assert(reversed(ps) =~= seq![ps.last()]);
        assert(folders + reversed(ps) =~= folders.push(actual));
        assert(join(dl, "/"@) =~= Seq::<char>::empty());
        rd
    } else {
        let rr = lemma_strip_plain_list(d, dl, rd, folders.push(actual));
        assert(folders.push(actual) + reversed(dl) =~= folders + reversed(ps));
        lemma_join_names(dl);
        lemma_join_assoc(rr, join(dl, "/"@), actual);
        assert(rr =~= pnd.subrange(0, rr.len() as int));
        rr
    }
}

proof fn lemma_reversed_ends(ps: Seq<Seq<char>>)
    requires
        ps.len() > 0,
    ensures
        reversed(ps).len() == ps.len(),
        reversed(ps).last() == ps[0],
        reversed(ps).drop_last() == reversed(ps.drop_first()),
    decreases ps.len(),
{
    if ps.len() == 1 {
        assert(reversed(ps.drop_last()) =~= Seq::<Seq<char>>::empty());
        assert(reversed(ps.drop_first()) =~= Seq::<Seq<char>>::empty());
        assert(reversed(ps).drop_last() =~= Seq::<Seq<char>>::empty());
    } else {
        lemma_reversed_ends(ps.drop_last());
        assert(ps.drop_last()[0] == ps[0]);
        assert(ps.drop_last().drop_first() =~= ps.drop_first().drop_last());
        assert(ps.drop_first().last() == ps.last());
        assert(reversed(ps).drop_last() =~= seq![ps.last()] + reversed(ps.drop_last()).drop_last());
    }
}

/// Each `..` puts back the next folder taken off, the first one first.
proof fn lemma_strip_dotdots_list(k: nat, r: Seq<char>, ps: Seq<Seq<char>>)
    requires
        k >= 1,
        ps.len() > 0,
        forall|i: int| 0 <= i < ps.len() ==> plain_name(#[trigger] ps[i]),
        strip_list(dotdots(k), r, reversed(ps)) is Some,
    ensures
        k <= ps.len(),
        strip_list(dotdots(k), r, reversed(ps)) == Some(join_parts_spec(r, join(ps.take(k as int), "/"@), '/')),
    decreases k,
{
    reveal_strlit("/");
    lemma_reversed_ends(ps);
    assert(dotdots(k).last() == seq!['.', '.']);
    assert(dotdots(k).drop_last() =~= dotdots((k - 1) as nat));
    let r2 = join_parts_spec(r, ps[0], '/');
    let tail = ps.drop_first();
    if k == 1 {
        assert(ps.take(1) =~= seq![ps[0]]);
        assert(join(ps.take(1), "/"@) == ps[0]);
    } else {
        assert(tail.len() > 0) by {
            if tail.len() == 0 {
                assert(reversed(tail) =~= Seq::<Seq<char>>::empty());
                let d1 = dotdots((k - 1) as nat);
                assert(d1.len() > 0 && d1.last() == seq!['.', '.']);
                assert(strip_list(d1, r2, reversed(tail)) is None);
            }
        }
        assert forall|i: int| 0 <= i < tail.len() implies plain_name(#[trigger] tail[i]) by {
            assert(tail[i] == ps[i + 1]);
        }
        lemma_strip_dotdots_list((k - 1) as nat, r2, tail);
        assert(ps.take(k as int) =~= seq![ps[0]] + tail.take(k - 1));
        lemma_join_cons(ps[0], tail.take(k - 1));
        assert(plain_name(ps[0]));
        lemma_join_assoc(r, ps[0], join(tail.take(k - 1), "/"@));
        assert(join_parts_spec(ps[0], join(tail.take(k - 1), "/"@), '/') =~= ps[0] + "/"@ + join(
            tail.take(k - 1),
            "/"@,
        ));
    }
}

proof fn lemma_dotdot_name()
    ensures
        plain_name(seq!['.', '.']) == false,
        folder_name(seq!['.', '.']),
{
    let d = seq!['.', '.'];
    if has_char(d, '/') {
        let k = choose|k: int| 0 <= k < d.len() && d[k] == '/';
        assert(k == 0 || k == 1);
    }
}

proof fn lemma_plain_join_no_dotdot(ps: Seq<Seq<char>>)
    requires
        ps.len() > 0,
        forall|i: int| 0 <= i < ps.len() ==> plain_name(#[trigger] ps[i]),
    ensures
        !has_prefix(join(ps, "/"@), seq!['.', '.', '/']),
{
    reveal_strlit("/");
    let p0 = ps[0];
    assert(plain_name(p0));
    let s = join(ps, "/"@);
    if ps.len() == 1 {
        assert(s == p0);
    } else {
        assert(ps =~= seq![p0] + ps.drop_first());
        lemma_join_cons(p0, ps.drop_first());
        assert(s =~= p0 + "/"@ + join(ps.drop_first(), "/"@));
    }
    if has_prefix(s, seq!['.', '.', '/']) {
        assert(s.subrange(0, 3)[0] == s[0] && s.subrange(0, 3)[1] == s[1] && s.subrange(0, 3)[2] == s[2]);
        if p0.len() >= 3 {
            assert(s[2] == p0[2]);
            assert(has_char(p0, '/'));
        } else if p0.len() == 2 {
            assert(s[0] == p0[0] && s[1] == p0[1]);
            assert(p0 =~= seq!['.', '.']);
        } else {
            assert(s[1] == '/');
        }
    }
}

/// Each leading `..` of the prefix directory takes the last folder off the notebook
/// directory, which gives back the directory before the `..` were applied.
proof fn lemma_strip_dotdots_back(k: nat, r: Seq<char>, ps: Seq<Seq<char>>)
    requires
        1 <= k <= ps.len(),
        forall|i: int| 0 <= i < ps.len() ==> plain_name(#[trigger] ps[i]),
    ensures
        strip_dotdots(join(dotdots(k) + ps, "/"@), join_parts_spec(r, join(ps.take(k as int), "/"@), '/'), '/')
            == (join(ps, "/"@), r),
    decreases k,
{
    reveal_strlit("/");
    lemma_dotdot_name();
    let rest = dotdots((k - 1) as nat) + ps;
    assert(dotdots(k) + ps =~= seq![seq!['.', '.']] + rest);
    lemma_join_cons(seq!['.', '.'], rest);
    let s = join(dotdots(k) + ps, "/"@);
    assert(s =~= seq!['.', '.', '/'] + join(rest, "/"@));
    assert(s.subrange(0, 3) =~= seq!['.', '.', '/']);
    assert(s.subrange(3, s.len() as int) =~= join(rest, "/"@));
    let t = ps.take(k as int);
    assert forall|i: int| 0 <= i < t.len() implies folder_name(#[trigger] t[i]) by {
        assert(t[i] == ps[i]);
        assert(plain_name(ps[i]));
    }
    lemma_join_names(t);
    let p = t.last();
    assert(folder_name(t[t.len() - 1]));
    let nd = join_parts_spec(r, join(t, "/"@), '/');
    assert(has_prefix(s, seq!['.', '.', '/']));
    assert(strip_dotdots(s, nd, '/') == strip_dotdots(join(rest, "/"@), split_last_spec(nd, '/').0, '/'));
    if k == 1 {
        assert(t.drop_last() =~= Seq::<Seq<char>>::empty());
        assert(join(t, "/"@) == p);
        lemma_split_last_join(r, p);
        assert(rest =~= ps);
        lemma_plain_join_no_dotdot(ps);
    } else {
        let t2 = ps.take(k - 1);
        assert(t.drop_last() =~= t2);
        assert forall|i: int| 0 <= i < t2.len() implies folder_name(#[trigger] t2[i]) by {
            assert(t2[i] == ps[i]);
            assert(plain_name(ps[i]));
        }
        lemma_join_names(t2);
        let j2 = join(t2, "/"@);
        assert(join(t, "/"@) == join_parts_spec(j2, p, '/'));
        lemma_join_assoc(r, j2, p);
        lemma_split_last_join(join_parts_spec(r, j2, '/'), p);
        lemma_strip_dotdots_back((k - 1) as nat, r, ps);
    }
}

/// The base path of `base0` under a prefix without root whose directory is `k` times `..`
/// followed by plain folders, put back under that prefix, is `base0`.
#[verifier::spinoff_prover]
#[verifier::rlimit(50)]
proof fn lemma_prefixed_base_of_stripped_above(base0: Seq<char>, fmt: Map<Seq<char>, Seq<char>>, k: nat, ps: Seq<Seq<char>>)
    requires
        relative_path(base0),
        no_double_slash(base0),
        get_or_empty(fmt, "prefix"@).len() > 0,
        decompose_prefix_spec(get_or_empty(fmt, "prefix"@)).0.len() == 0,
        decompose_prefix_spec(get_or_empty(fmt, "prefix"@)).1 == join(dotdots(k) + ps, "/"@),
        k >= 1,
        ps.len() > 0,
        forall|i: int| 0 <= i < ps.len() ==> plain_name(#[trigger] ps[i]),
        prefix_stripped(base0, get_or_empty(fmt, "prefix"@), None, '/') is Ok,
    ensures
        prefixed_base(
            prefix_stripped(base0, get_or_empty(fmt, "prefix"@), None, '/')->Ok_0,
            fmt,
            '/',
        ) == Ok::<Seq<char>, PathFault>(base0),
{
    reveal_strlit("/");
    let prefix = get_or_empty(fmt, "prefix"@);
    let (root, pdir, pfile) = decompose_prefix_spec(prefix);
    let names = dotdots(k) + ps;
    lemma_dotdot_name();
    assert forall|i: int| 0 <= i < names.len() implies folder_name(#[trigger] names[i]) by {
        if i >= k {
            assert(names[i] == ps[i - k]);
            assert(plain_name(ps[i - k]));
        }
    }
    lemma_join_names(names);
    lemma_split_last_slash(base0);
    let (nd0, nf0) = split_last_spec(base0, '/');
    let nf = if pfile.len() > 0 {
        nf0.subrange(pfile.len() as int, nf0.len() as int)
    } else {
        nf0
    };
    assert(pfile + nf =~= nf0);
    if has_char(nf, '/') {
        let j = choose|j: int| 0 <= j < nf.len() && nf[j] == '/';
        assert(nf0[pfile.len() + j] == '/');
    }
    lemma_no_slash_no_double_slash(nf);
    lemma_strip_list(names, nd0, Seq::empty());
    let rr = lemma_strip_plain_list(dotdots(k), ps, nd0, Seq::empty());
    assert(Seq::<Seq<char>>::empty() + reversed(ps) =~= reversed(ps));
    lemma_strip_dotdots_list(k, rr, ps);
    let t = ps.take(k as int);
    assert forall|i: int| 0 <= i < t.len() implies folder_name(#[trigger] t[i]) by {
        assert(t[i] == ps[i]);
        assert(plain_name(ps[i]));
    }
    lemma_join_names(t);
    assert forall|i: int| 0 <= i < ps.len() implies folder_name(#[trigger] ps[i]) by {
        assert(plain_name(ps[i]));
    }
    lemma_join_names(ps);
    let jt = join(t, "/"@);
    let nd3 = join_parts_spec(rr, jt, '/');
    lemma_sub_no_double_slash(nd0, 0, rr.len() as int);
    if rr.len() > 0 {
        assert(nd0 =~= rr.push('/') + join(ps, "/"@));
        assert(!slash_pair(nd0, rr.len() - 1));
        assert(rr[0] == nd0[0]);
    }
    lemma_join_no_double_slash(rr, jt);
    assert(nd3.last() == jt.last());
    let base = prefix_stripped(base0, prefix, None, '/')->Ok_0;
    assert(base == join_parts_spec(nd3, nf, '/'));
    lemma_join_no_double_slash(nd3, nf);
    lemma_no_double_slash_sub(base);
    lemma_split_last_join(nd3, nf);
    assert(replace_char(pdir, '/', '/') =~= pdir);
    lemma_strip_dotdots_back(k, rr, ps);
    assert(with_trailing_sep(rr, '/') + join(ps, "/"@) =~= join_parts_spec(rr, join(ps, "/"@), '/'));
    assert(with_trailing_sep(nd0, '/') + (pfile + nf) =~= join_parts_spec(nd0, nf0, '/'));
}

/// The full path of the base path of a notebook is the path of the notebook, also for a
/// prefix without root whose directory starts with `k` parent folders `..` and goes on
/// with the plain folders `ps`: for a relative path with `/` separators, no empty folder,
/// and that ends with its extension.
pub proof fn full_path_inverts_base_path_above(
    main: Seq<char>,
    fmt: Map<Seq<char>, Seq<char>>,
    k: nat,
    ps: Seq<Seq<char>>,
)
    requires
        fmt.contains_key("extension"@),
        split_extension_spec(main).0 + split_extension_spec(main).1 == main,
        relative_path(main),
        no_double_slash(main),
        decompose_prefix_spec(get_or_empty(fmt, "prefix"@)).0.len() == 0,
        decompose_prefix_spec(get_or_empty(fmt, "prefix"@)).1 == join(dotdots(k) + ps, "/"@),
        k >= 1,
        ps.len() > 0,
        forall|i: int| 0 <= i < ps.len() ==> plain_name(#[trigger] ps[i]),
        base_path_spec(main, fmt, Seq::empty(), None, '/') is Ok,
    ensures
        full_path_spec(base_path_spec(main, fmt, Seq::empty(), None, '/')->Ok_0, fmt, '/')
            == Ok::<Seq<char>, PathFault>(main),
{
    reveal_strlit("/");
    let prefix = get_or_empty(fmt, "prefix"@);
    let names = dotdots(k) + ps;
    lemma_dotdot_name();
    assert forall|i: int| 0 <= i < names.len() implies folder_name(#[trigger] names[i]) by {
        if i >= k {
            assert(names[i] == ps[i - k]);
            assert(plain_name(ps[i - k]));
        }
    }
    lemma_join_names(names);
    if prefix.len() == 0 {
        assert(decompose_prefix_spec(prefix).1.len() == 0);
    }
    reveal(base_path_spec);
    let (base_name, ext) = split_extension_spec(main);
    assert(compatible_pred(fmt)(seq![fmt][0]));
    first_match_is(seq![fmt], compatible_pred(fmt), 0);
    assert(fmt.union_prefer_right(fmt) =~= fmt);
    assert(merged_format(fmt, Seq::empty()) == fmt);
    let suffix = get_or_empty(fmt, "suffix"@);
    let base0 = if suffix.len() > 0 {
        base_name.subrange(0, base_name.len() - suffix.len())
    } else {
        base_name
    };
    assert(base0 + suffix =~= base_name);
    assert((base0 + suffix) + ext == main);
    assert(base0 =~= main.subrange(0, base0.len() as int));
    lemma_sub_no_double_slash(main, 0, base0.len() as int);
    if base0.len() > 0 {
        assert(base0[0] == main[0]);
    }
    lemma_prefixed_base_of_stripped_above(base0, fmt, k, ps);
    assert(base0 + suffix + ext =~= main);
}

} // verus!
