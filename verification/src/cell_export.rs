//! The state of a cell exporter and the decisions it takes from it: whether a cell is
//! code, whether its markdown goes between triple quotes, how markdown becomes text, and
//! the markers of the light script format.

use vstd::prelude::*;
use crate::cell_metadata::{activity_active, is_active, CellActivity};
use crate::cell_to_text::{cell_source, source_lines};
use crate::format_map::FormatMap;
use crate::languages::{
    cell_language, cell_language_of, comment_lines, commented, script_entry,
    script_language_for_ext,
};
use crate::magics::{comment_magic, magics_toggled};
use crate::metadata_filter::{filter_metadata, kept_metadata_key};
use crate::notebook::CellType;
use crate::paired_paths::{cut_bytes, utf8_len};
use crate::pattern::{escape, regex_compiles, regex_escape, regex_matches, Pattern};
use crate::pep8::{pep8_lines, pep8_lines_between_cells};
use crate::text::{
    all_ws, chars_of, concat, concat3, ends_with, find_char, find_char_facts, has_char,
    has_prefix, has_suffix, is_blank, owned, split_char, split_on, starts_with, str_eq,
    string_of, vec_find_char, views,
};

verus! {

broadcast use crate::text::views_push;

/// The state that every cell exporter keeps of a cell. Its metadata is held by what the
/// exporters read of it: its keys (each once), and what decides whether the cell is
/// active; `cell_marker` is the `cell_marker` entry of the cell's unfiltered metadata, and
/// `cell_markers` and `format_name` the entries of the format options, where they are
/// strings.
pub struct BaseCellData {
    pub ext: String,
    pub cell_type: CellType,
    pub source: Vec<String>,
    pub metadata_keys: Vec<String>,
    pub activity: CellActivity,
    pub cell_marker: Option<String>,
    pub cell_markers: Option<String>,
    pub format_name: Option<String>,
    pub language: String,
    pub default_language: String,
    pub comment: String,
    pub comment_suffix: String,
    pub comment_magics: bool,
    pub cell_metadata_json: bool,
    pub use_runtools: bool,
    pub doxygen_equation_markers: bool,
    pub lines_to_next_cell: Option<usize>,
    pub lines_to_end_of_cell_marker: Option<usize>,
}

/// Some tag starts with `active-`.
pub open spec fn active_tag_in(tags: Seq<Seq<char>>) -> bool {
    exists|i: int| 0 <= i < tags.len() && has_prefix(#[trigger] tags[i], "active-"@)
}

/// A code cell, or a raw cell whose metadata has an `active` entry or an `active-` tag.
pub open spec fn code_cell(d: BaseCellData) -> bool {
    d.cell_type == CellType::Code || (d.cell_type == CellType::Raw && (views(d.metadata_keys@).contains(
        "active"@,
    ) || active_tag_in(views(d.activity.tags@))))
}

/// Three double quotes.
pub open spec fn triple_double() -> Seq<char> {
    seq!['"', '"', '"']
}

/// Three single quotes.
pub open spec fn triple_single() -> Seq<char> {
    seq!['\'', '\'', '\'']
}

/// The text before and after the first comma.
pub open spec fn comma_split(s: Seq<char>) -> (Seq<char>, Seq<char>) {
    match find_char(s, ',') {
        Some(p) => (s.subrange(0, p), s.subrange(p + 1, s.len() as int)),
        None => (s, Seq::empty()),
    }
}

/// A cell marker that sets markdown between triple quotes: three quotes, or a pair
/// `left,right` where `left` starts and `right` ends with the same three quotes.
pub open spec fn triple_quote_marker(marker: Seq<char>) -> bool {
    let (l, r) = comma_split(marker);
    ||| marker == triple_double()
    ||| marker == triple_single()
    ||| has_char(marker, ',') && ((has_prefix(l, triple_double()) && has_suffix(r, triple_double()))
        || (has_prefix(l, triple_single()) && has_suffix(r, triple_single())))
}

/// `n` bytes into `s` (at most its length in bytes) is a character boundary.
pub open spec fn boundary_from_start(s: Seq<char>, n: nat) -> bool {
    cut_bytes(s, (utf8_len(s) - n) as nat) is Some
}

/// `n` bytes before the end of `s` is a character boundary.
pub open spec fn boundary_from_end(s: Seq<char>, n: nat) -> bool {
    cut_bytes(s, n) is Some
}

/// The test of `use_triple_quotes` takes the first three bytes of the text before the
/// first comma and the last three bytes of the text after it, when both have that many;
/// these are whole characters.
pub open spec fn triple_quote_test_defined(marker: Seq<char>) -> bool {
    let (l, r) = comma_split(marker);
    ||| marker == triple_double()
    ||| marker == triple_single()
    ||| !has_char(marker, ',')
    ||| utf8_len(l) < 3
    ||| utf8_len(r) < 3
    ||| boundary_from_start(l, 3) && boundary_from_end(r, 3)
}

/// The text before and after the first comma of `s`.
#[verifier::spinoff_prover]
fn split_at_comma(s: &str) -> (r: (String, String))
    ensures
        r.0@ == comma_split(s@).0,
        r.1@ == comma_split(s@).1,
{
    let v = chars_of(s);
    proof {
        find_char_facts(s@, ',');
    }
    match vec_find_char(&v, ',') {
        Some(p) => {
            assert(v@ == s@);
            assert(p < v.len());
            let q: usize = p + 1;
            (string_of(&v, 0, p), string_of(&v, q, v.len()))
        },
        None => {
            assert(v@.subrange(0, v@.len() as int) =~= v@);
            (string_of(&v, 0, v.len()), String::new())
        },
    }
}

/// Is one of the tags an `active-` tag?
fn has_active_tag(tags: &Vec<String>) -> (r: bool)
    ensures
        r == active_tag_in(views(tags@)),
{
    proof {
        reveal_strlit("active-");
    }
    let mut i: usize = 0;
    while i < tags.len()
        invariant
            i <= tags@.len(),
            forall|j: int| 0 <= j < i ==> !has_prefix(#[trigger] views(tags@)[j], "active-"@),
        decreases tags.len() - i,
    {
        if starts_with(tags[i].as_str(), "active-") {
            assert(has_prefix(views(tags@)[i as int], "active-"@));
            return true;
        }
        i += 1;
    }
    false
}

/// The keys of the cell metadata that no text format keeps.
pub const IGNORE_CELL_METADATA: &'static str = "-autoscroll,-collapsed,-scrolled,-trusted,-execution,-ExecuteTime,-skipline,-noskipline,-cell_marker,-lines_to_next_cell,-lines_to_end_of_cell_marker";

/// What the exporters read of a notebook cell: its type and source; the keys of its
/// metadata (each once), whether its `tags` entry is an empty list, and what decides
/// whether it is active; and its `language`, `cell_marker`, `lines_to_next_cell` and
/// `lines_to_end_of_cell_marker` entries, where they are a string or a non-negative
/// integer.
pub struct ExporterCell {
    pub cell_type: CellType,
    pub source: String,
    pub metadata_keys: Vec<String>,
    pub empty_tags: bool,
    pub activity: CellActivity,
    pub language: Option<String>,
    pub cell_marker: Option<String>,
    pub lines_to_next_cell: Option<usize>,
    pub lines_to_end_of_cell_marker: Option<usize>,
}

/// The entry of the format options under `key`.
pub open spec fn fmt_entry(fmt: Map<Seq<char>, Seq<char>>, key: Seq<char>) -> Option<Seq<char>> {
    if fmt.contains_key(key) {
        Some(fmt[key])
    } else {
        None
    }
}

/// The flag of the format options under `key` (stored as `true` or `false`).
pub open spec fn fmt_flag(fmt: Map<Seq<char>, Seq<char>>, key: Seq<char>) -> Option<bool> {
    match fmt_entry(fmt, key) {
        Some(v) => if v == "true"@ {
            Some(true)
        } else if v == "false"@ {
            Some(false)
        } else {
            None
        },
        None => None,
    }
}

/// The keys with `k` added, when it is not there yet.
pub open spec fn with_key(keys: Seq<Seq<char>>, k: Seq<char>) -> Seq<Seq<char>> {
    if keys.contains(k) {
        keys
    } else {
        keys.push(k)
    }
}

/// The keys of the cell metadata that the cell metadata filter of the format keeps.
pub open spec fn filtered_keys(cell: ExporterCell, fmt: Map<Seq<char>, Seq<char>>) -> Seq<Seq<char>> {
    views(cell.metadata_keys@).filter(keeps_key(cell, fmt))
}

/// Whether the cell metadata filter of the format keeps a key of the cell's metadata.
pub open spec fn keeps_key(cell: ExporterCell, fmt: Map<Seq<char>, Seq<char>>) -> spec_fn(Seq<char>) -> bool {
    |k: Seq<char>|
        kept_metadata_key(
            k,
            cell.empty_tags,
            fmt_entry(fmt, "cell_metadata_filter"@).unwrap_or(Seq::empty()),
            IGNORE_CELL_METADATA@,
        )
}

/// The custom cell magics of the format: the non-empty parts of the option.
pub open spec fn custom_magics(fmt: Map<Seq<char>, Seq<char>>) -> Seq<Seq<char>> {
    split_on(fmt_entry(fmt, "custom_cell_magics"@).unwrap_or(Seq::empty()), ',').filter(
        |p: Seq<char>| p.len() > 0,
    )
}

/// The language and arguments of the cell magic that starts the cell, when the exporter
/// looks for one.
pub open spec fn magic_of(cell: ExporterCell, default_language: Seq<char>, fmt: Map<Seq<char>, Seq<char>>, parse: bool) -> Option<(Seq<char>, Seq<char>)> {
    if parse {
        cell_language_of(source_lines(cell.source@), default_language, custom_magics(fmt))
    } else {
        None
    }
}

/// The extension of the format options.
pub open spec fn fmt_ext(fmt: Map<Seq<char>, Seq<char>>) -> Seq<char> {
    fmt_entry(fmt, "extension"@).unwrap_or(Seq::empty())
}

/// The tags that remain in the filtered metadata.
pub open spec fn kept_tags(cell: ExporterCell, fmt: Map<Seq<char>, Seq<char>>) -> Seq<Seq<char>> {
    if filtered_keys(cell, fmt).contains("tags"@) {
        views(cell.activity.tags@)
    } else {
        Seq::empty()
    }
}

/// The keys before a raw cell is marked active: the filtered keys, with `magic_args`
/// after a cell magic, and `language` too outside R Markdown.
pub open spec fn keys_with_magic(cell: ExporterCell, default_language: Seq<char>, fmt: Map<Seq<char>, Seq<char>>, parse: bool) -> Seq<Seq<char>> {
    let k1 = filtered_keys(cell, fmt);
    let lm = magic_of(cell, default_language, fmt, parse);
    let k2 = if lm is Some {
        with_key(k1, "magic_args"@)
    } else {
        k1
    };
    if lm is Some && !has_suffix(fmt_ext(fmt), ".Rmd"@) {
        with_key(k2, "language"@)
    } else {
        k2
    }
}

/// A raw cell with no `active` entry and no `active-` tag gets an empty `active` entry.
pub open spec fn marked_active(cell: ExporterCell, default_language: Seq<char>, fmt: Map<Seq<char>, Seq<char>>, parse: bool) -> bool {
    cell.cell_type == CellType::Raw && !keys_with_magic(cell, default_language, fmt, parse).contains(
        "active"@,
    ) && !active_tag_in(kept_tags(cell, fmt))
}

/// The keys of the exporter's metadata.
pub open spec fn exported_keys(cell: ExporterCell, default_language: Seq<char>, fmt: Map<Seq<char>, Seq<char>>, parse: bool) -> Seq<Seq<char>> {
    let k = keys_with_magic(cell, default_language, fmt, parse);
    if marked_active(cell, default_language, fmt, parse) {
        with_key(k, "active"@)
    } else {
        k
    }
}

/// The value of an optional string.
pub open spec fn opt_seq(o: Option<String>) -> Option<Seq<char>> {
    match o {
        Some(s) => Some(s@),
        None => None,
    }
}

/// The state of an exporter built for a cell, but for the keys of its metadata and its
/// comment: its extension, type and source (without a leading cell magic that it reads),
/// what decides whether it is active after the filter, its markers and format name, its
/// language, comment suffix and flags.
pub open spec fn exporter_state(
    r: BaseCellData,
    cell: ExporterCell,
    default_language: Seq<char>,
    fmt: Map<Seq<char>, Seq<char>>,
    parse: bool,
    default_comment_magics: Option<bool>,
) -> bool {
    let lm = magic_of(cell, default_language, fmt, parse);
    let entry = script_entry(fmt_ext(fmt));
    &&& r.ext@ == fmt_ext(fmt)
    &&& r.cell_type == cell.cell_type
    &&& views(r.source@) == if lm is Some {
        source_lines(cell.source@).drop_first()
    } else {
        source_lines(cell.source@)
    }
    &&& r.activity.frozen == (cell.activity.frozen && filtered_keys(cell, fmt).contains("run_control"@))
    &&& views(r.activity.tags@) == kept_tags(cell, fmt)
    &&& opt_seq(r.activity.active) == if filtered_keys(cell, fmt).contains("active"@) {
        opt_seq(cell.activity.active)
    } else if marked_active(cell, default_language, fmt, parse) {
        Some(Seq::empty())
    } else {
        None
    }
    &&& opt_seq(r.cell_marker) == opt_seq(cell.cell_marker)
    &&& opt_seq(r.cell_markers) == fmt_entry(fmt, "cell_markers"@)
    &&& opt_seq(r.format_name) == fmt_entry(fmt, "format_name"@)
    &&& r.language@ == match lm {
        Some(m) => m.0,
        None => opt_seq(cell.language).unwrap_or(default_language),
    }
    &&& r.default_language@ == default_language
    &&& r.comment_suffix@ == match entry {
        Some(e) => e.2,
        None => Seq::empty(),
    }
    &&& r.comment_magics == match fmt_flag(fmt, "comment_magics"@) {
        Some(b) => b,
        None => default_comment_magics.unwrap_or(false),
    }
    &&& r.cell_metadata_json == fmt_flag(fmt, "cell_metadata_json"@).unwrap_or(false)
    &&& r.use_runtools == fmt_flag(fmt, "use_runtools"@).unwrap_or(false)
    &&& r.doxygen_equation_markers == fmt_flag(fmt, "doxygen_equation_markers"@).unwrap_or(false)
    &&& r.lines_to_next_cell == cell.lines_to_next_cell
    &&& r.lines_to_end_of_cell_marker == cell.lines_to_end_of_cell_marker
}

/// Adding a key keeps the keys that were there.
proof fn lemma_with_key_keeps(keys: Seq<Seq<char>>, k: Seq<char>, x: Seq<char>)
    ensures
        keys.contains(x) ==> with_key(keys, k).contains(x),
{
    if keys.contains(x) && !keys.contains(k) {
        let i = choose|i: int| 0 <= i < keys.len() && keys[i] == x;
        assert(keys.push(k)[i] == x);
    }
}

/// Does the list of keys hold `key`?
fn has_key(keys: &Vec<String>, key: &str) -> (r: bool)
    ensures
        r == views(keys@).contains(key@),
{
    let mut i: usize = 0;
    while i < keys.len()
        invariant
            i <= keys@.len(),
            forall|j: int| 0 <= j < i ==> views(keys@)[j] != key@,
        decreases keys.len() - i,
    {
        if str_eq(keys[i].as_str(), key) {
            assert(views(keys@)[i as int] == key@);
            return true;
        }
        i += 1;
    }
    false
}

/// Adds `key` to the keys, when it is not there yet.
fn add_key(keys: &mut Vec<String>, key: &str)
    ensures
        views(final(keys)@) == with_key(views(old(keys)@), key@),
{
    if !has_key(keys, key) {
        keys.push(owned(key));
    }
}

/// The flag of the format options under `key`.
pub(crate) fn flag_of(fmt: &FormatMap, key: &str) -> (r: Option<bool>)
    ensures
        r == fmt_flag(fmt@, key@),
{
    proof {
        reveal_strlit("true");
        reveal_strlit("false");
    }
    match fmt.get(key) {
        Some(v) => if str_eq(v.as_str(), "true") {
            Some(true)
        } else if str_eq(v.as_str(), "false") {
            Some(false)
        } else {
            None
        },
        None => None,
    }
}

/// The non-empty parts of the custom cell magics option.
fn custom_magics_of(fmt: &FormatMap) -> (r: Vec<String>)
    ensures
        views(r@) == custom_magics(fmt@),
{
    let text = match fmt.get("custom_cell_magics") {
        Some(v) => v,
        None => String::new(),
    };
    let parts = split_char(text.as_str(), ',');
    let ghost ps = views(parts@);
    let ghost f = |p: Seq<char>| p.len() > 0;
    let mut r: Vec<String> = Vec::new();
    let mut i: usize = 0;
    while i < parts.len()
        invariant
            i <= parts@.len(),
            ps == views(parts@),
            f == (|p: Seq<char>| p.len() > 0),
            views(r@) == ps.take(i as int).filter(f),
        decreases parts.len() - i,
    {
        proof {
            assert(ps.take(i + 1) =~= ps.take(i as int).push(ps[i as int]));
            ps.take(i as int).lemma_filter_push(ps[i as int], f);
        }
        if crate::text::char_len(parts[i].as_str()) > 0 {
            r.push(parts[i].clone());
        }
        i += 1;
    }
    assert(ps.take(parts@.len() as int) =~= ps);
    r
}

/// The cell markers that apply to the cell: its own, else those of the format.
pub open spec fn markers_of(d: BaseCellData) -> Option<Seq<char>> {
    match d.cell_marker {
        Some(m) => Some(m@),
        None => match d.cell_markers {
            Some(m) => Some(m@),
            None => None,
        },
    }
}

/// The text starts with `r` or `R`.
pub open spec fn starts_r(s: Seq<char>) -> bool {
    s.len() > 0 && (s[0] == 'r' || s[0] == 'R')
}

/// The texts that open and close a markdown cell for a cell marker: the two sides of its
/// first comma; else the marker and a newline, and a newline and the marker without its
/// `r` prefix.
pub open spec fn marker_sides(m: Seq<char>) -> (Seq<char>, Seq<char>) {
    if has_char(m, ',') {
        comma_split(m)
    } else {
        (m + seq!['\n'], seq!['\n'] + if starts_r(m) {
            m.drop_first()
        } else {
            m
        })
    }
}

/// The closing text ends with three quotes with which the opening text, past an `r`
/// prefix, starts.
pub open spec fn quote_sides(left: Seq<char>, right: Seq<char>) -> bool {
    ||| has_suffix(right, triple_double()) && (has_prefix(left, triple_double()) || (starts_r(left)
        && has_prefix(left.drop_first(), triple_double())))
    ||| has_suffix(right, triple_single()) && (has_prefix(left, triple_single()) || (starts_r(left)
        && has_prefix(left.drop_first(), triple_single())))
}

/// The test of `markdown_to_text` takes the first three bytes and, after an `r` prefix,
/// the next three bytes of the opening text, and the last three bytes of the closing
/// text, when they have that many; these are whole characters.
pub open spec fn sides_defined(left: Seq<char>, right: Seq<char>) -> bool {
    &&& utf8_len(left) >= 3 ==> boundary_from_start(left, 3)
    &&& utf8_len(right) >= 3 ==> boundary_from_end(right, 3)
    &&& utf8_len(left) >= 4 && starts_r(left) ==> boundary_from_start(left, 4)
}

/// The lines with the opening text before the first one and the closing text after the
/// last one.
pub open spec fn between(source: Seq<Seq<char>>, left: Seq<char>, right: Seq<char>) -> Seq<Seq<char>> {
    let s1 = source.update(0, left + source[0]);
    s1.update(s1.len() - 1, s1[s1.len() - 1] + right)
}

/// Some line holds a backslash.
pub open spec fn has_backslash(source: Seq<Seq<char>>) -> bool {
    exists|i: int| 0 <= i < source.len() && has_char(#[trigger] source[i], '\\')
}

/// The format options name the format `name`.
pub open spec fn format_is(d: BaseCellData, name: Seq<char>) -> bool {
    d.format_name matches Some(f) && f@ == name
}

/// The cell markers of the cell set its markdown between triple quotes.
pub open spec fn quoted_markdown(d: BaseCellData) -> bool {
    markers_of(d) matches Some(m) && quote_sides(marker_sides(m).0, marker_sides(m).1)
}

/// A markdown cell as text: between the triple quotes of its cell markers (with an `r`
/// prefix in the percent format when a line holds a backslash); else, for a comment
/// other than `#'`, in an active cell and outside the percent and hydrogen formats, with
/// its magics commented and then every line commented; else with every line commented.
pub open spec fn markdown_text(d: BaseCellData, source: Seq<Seq<char>>) -> Seq<Seq<char>> {
    if quoted_markdown(d) {
        let (l, r) = marker_sides(markers_of(d)->0);
        let raw = !starts_r(l) && has_backslash(source) && format_is(d, "percent"@);
        between(
            source,
            if raw {
                seq!['r'] + l
            } else {
                l
            },
            r,
        )
    } else if d.comment@.len() > 0 && d.comment@ != "#'"@ && activity_active(d.ext@, d.activity, true)
        && !format_is(d, "percent"@) && !format_is(d, "hydrogen"@) {
        commented(
            magics_toggled(source, d.language@, d.comment_magics, d.cell_type == CellType::Code, true),
            d.comment@,
            d.comment_suffix@,
        )
    } else {
        commented(source, d.comment@, d.comment_suffix@)
    }
}

/// `markdown_to_text` is defined: the slices of its marker test are whole characters,
/// and a cell set between triple quotes has a line.
pub open spec fn markdown_text_defined(d: BaseCellData, source: Seq<Seq<char>>) -> bool {
    match markers_of(d) {
        Some(m) => sides_defined(marker_sides(m).0, marker_sides(m).1) && (quote_sides(
            marker_sides(m).0,
            marker_sides(m).1,
        ) ==> source.len() > 0),
        None => true,
    }
}

/// A copy of the lines.
fn copy_lines(v: &[String]) -> (r: Vec<String>)
    ensures
        views(r@) == views(v@),
{
    let mut r: Vec<String> = Vec::new();
    let mut i: usize = 0;
    while i < v.len()
        invariant
            i <= v@.len(),
            views(r@) == views(v@).take(i as int),
        decreases v.len() - i,
    {
        r.push(v[i].clone());
        assert(views(r@) =~= views(v@).take(i + 1));
        i += 1;
    }
    assert(views(v@).take(v@.len() as int) =~= views(v@));
    r
}

/// Does a line hold a backslash?
fn any_backslash(source: &[String]) -> (r: bool)
    ensures
        r == has_backslash(views(source@)),
{
    let mut i: usize = 0;
    while i < source.len()
        invariant
            i <= source@.len(),
            forall|j: int| 0 <= j < i ==> !has_char(#[trigger] views(source@)[j], '\\'),
        decreases source.len() - i,
    {
        if crate::text::contains_char(source[i].as_str(), '\\') {
            assert(has_char(views(source@)[i as int], '\\'));
            return true;
        }
        i += 1;
    }
    false
}

fn starts_with_r(s: &str) -> (r: bool)
    ensures
        r == starts_r(s@),
{
    crate::text::starts_with_char(s, 'r') || crate::text::starts_with_char(s, 'R')
}

/// The text without its first character.
fn drop_first_char(s: &str) -> (r: String)
    requires
        s@.len() > 0,
    ensures
        r@ == s@.drop_first(),
{
    let v = chars_of(s);
    let r = string_of(&v, 1, v.len());
    assert(r@ =~= s@.drop_first());
    r
}

/// The opening and closing texts for a cell marker.
fn marker_sides_of(m: &str) -> (r: (String, String))
    ensures
        r.0@ == marker_sides(m@).0,
        r.1@ == marker_sides(m@).1,
{
    if crate::text::contains_char(m, ',') {
        split_at_comma(m)
    } else {
        let left = concat(m, "\n");
        let unmarked = if starts_with_r(m) {
            drop_first_char(m)
        } else {
            owned(m)
        };
        let right = concat("\n", unmarked.as_str());
        proof {
            reveal_strlit("\n");
            assert(left@ =~= m@ + seq!['\n']);
            assert(right@ =~= seq!['\n'] + unmarked@);
        }
        (left, right)
    }
}

/// Do the opening and closing texts set the cell between triple quotes?
fn quote_sides_of(left: &str, right: &str) -> (r: bool)
    ensures
        r == quote_sides(left@, right@),
{
    proof {
        reveal_strlit("\"\"\"");
        reveal_strlit("'''");
        assert("\"\"\""@ =~= triple_double());
        assert("'''"@ =~= triple_single());
    }
    let r = starts_with_r(left);
    let rest = if r {
        drop_first_char(left)
    } else {
        owned(left)
    };
    (ends_with(right, "\"\"\"") && (starts_with(left, "\"\"\"") || (r && starts_with(rest.as_str(), "\"\"\""))))
        || (ends_with(right, "'''") && (starts_with(left, "'''") || (r && starts_with(rest.as_str(), "'''"))))
}

fn format_named(f: &Option<String>, name: &str) -> (r: bool)
    ensures
        r == (f matches Some(g) && g@ == name@),
{
    match f {
        Some(g) => str_eq(g.as_str(), name),
        None => false,
    }
}

impl BaseCellData {
    /// The exporter's state for a cell: its source (without a leading cell magic, when
    /// `parse_cell_language` asks for one to be read), its filtered metadata with the keys
    /// that record the magic and mark a raw cell active, its language, the comment of its
    /// extension and the flags of the format options.
    pub fn new(
        cell: &ExporterCell,
        default_language: &str,
        fmt: &FormatMap,
        parse_cell_language: bool,
        default_comment_magics: Option<bool>,
    ) -> (r: BaseCellData)
        ensures
            exporter_state(r, *cell, default_language@, fmt@, parse_cell_language, default_comment_magics),
            views(r.metadata_keys@) == exported_keys(*cell, default_language@, fmt@, parse_cell_language),
            r.comment@ == match script_entry(fmt_ext(fmt@)) {
                Some(e) => e.1,
                None => "#"@,
            },
    {
        proof {
            reveal_strlit("");
            reveal_strlit("#");
            reveal_strlit(".Rmd");
            reveal_strlit("active");
            reveal_strlit("tags");
            reveal_strlit("run_control");
            reveal_strlit("magic_args");
            reveal_strlit("language");
        }
        let ext = match fmt.get("extension") {
            Some(e) => e,
            None => String::new(),
        };
        let mut source = cell_source(cell.source.as_str());
        let filter = match fmt.get("cell_metadata_filter") {
            Some(f) => f,
            None => String::new(),
        };
        let kept = filter_metadata(&cell.metadata_keys, cell.empty_tags, filter.as_str(), IGNORE_CELL_METADATA);
        proof {
            let uf = fmt_entry(fmt@, "cell_metadata_filter"@).unwrap_or(Seq::empty());
            assert(filter@ == uf);
            let f1 = |k: Seq<char>| kept_metadata_key(k, cell.empty_tags, filter@, IGNORE_CELL_METADATA@);
            let f2 = |k: Seq<char>| kept_metadata_key(k, cell.empty_tags, uf, IGNORE_CELL_METADATA@);
            assert(f1 =~= f2);
            assert(f2 =~= keeps_key(*cell, fmt@));
        }
        assert(views(kept@) =~= filtered_keys(*cell, fmt@));
        let mut keys = kept.clone();
        assert(views(keys@) == views(kept@));
        let ghost src0 = views(source@);
        let mut magic_language: Option<String> = None;
        if parse_cell_language {
            let custom = custom_magics_of(fmt);
            let (lang, args) = cell_language(&mut source, default_language, &custom);
            if args.is_some() {
                add_key(&mut keys, "magic_args");
            }
            magic_language = lang;
        }
        proof {
            if parse_cell_language {
                assert(magic_of(*cell, default_language@, fmt@, parse_cell_language) == cell_language_of(src0, default_language@, custom_magics(fmt@)));
            }
        }
        if magic_language.is_some() && !ends_with(ext.as_str(), ".Rmd") {
            add_key(&mut keys, "language");
        }
        assert(views(keys@) == keys_with_magic(*cell, default_language@, fmt@, parse_cell_language));
        let language = match magic_language {
            Some(l) => l,
            None => match &cell.language {
                Some(l) => owned(l.as_str()),
                None => owned(default_language),
            },
        };
        let (comment, comment_suffix) = match script_language_for_ext(ext.as_str()) {
            Some(sl) => (owned(sl.comment), owned(sl.comment_suffix)),
            None => (owned("#"), String::new()),
        };
        let comment_magics = match flag_of(fmt, "comment_magics") {
            Some(b) => b,
            None => match default_comment_magics {
                Some(b) => b,
                None => false,
            },
        };
        let cell_metadata_json = match flag_of(fmt, "cell_metadata_json") {
            Some(b) => b,
            None => false,
        };
        let use_runtools = match flag_of(fmt, "use_runtools") {
            Some(b) => b,
            None => false,
        };
        let doxygen_equation_markers = match flag_of(fmt, "doxygen_equation_markers") {
            Some(b) => b,
            None => false,
        };
        let has_tags = has_key(&kept, "tags");
        let tags: Vec<String> = if has_tags {
            copy_lines(cell.activity.tags.as_slice())
        } else {
            Vec::new()
        };
        assert(views(tags@) =~= kept_tags(*cell, fmt@));
        let frozen = cell.activity.frozen && has_key(&kept, "run_control");
        let mut active: Option<String> = if has_key(&kept, "active") {
            match &cell.activity.active {
                Some(a) => Some(owned(a.as_str())),
                None => None,
            }
        } else {
            None
        };
        let raw = match cell.cell_type {
            CellType::Raw => true,
            _ => false,
        };
        if raw && !has_key(&keys, "active") && !has_active_tag(&tags) {
            add_key(&mut keys, "active");
            active = Some(String::new());
        }
        proof {
            let k1 = filtered_keys(*cell, fmt@);
            let k2 = if magic_of(*cell, default_language@, fmt@, parse_cell_language) is Some {
                with_key(k1, "magic_args"@)
            } else {
                k1
            };
            lemma_with_key_keeps(k1, "magic_args"@, "active"@);
            lemma_with_key_keeps(k2, "language"@, "active"@);
        }
        let cell_markers = fmt.get("cell_markers");
        let format_name = fmt.get("format_name");
        let cell_marker = match &cell.cell_marker {
            Some(m) => Some(owned(m.as_str())),
            None => None,
        };
        BaseCellData {
            ext,
            cell_type: cell.cell_type,
            source,
            metadata_keys: keys,
            activity: CellActivity { frozen, tags, active },
            cell_marker,
            cell_markers,
            format_name,
            language,
            default_language: owned(default_language),
            comment,
            comment_suffix,
            comment_magics,
            cell_metadata_json,
            use_runtools,
            doxygen_equation_markers,
            lines_to_next_cell: cell.lines_to_next_cell,
            lines_to_end_of_cell_marker: cell.lines_to_end_of_cell_marker,
        }
    }

    /// Is this a code cell, or a raw cell with `active` metadata?
    pub fn is_code(&self) -> (r: bool)
        ensures
            r == code_cell(*self),
    {
        proof {
            reveal_strlit("active");
        }
        match self.cell_type {
            CellType::Code => true,
            CellType::Raw => has_key(&self.metadata_keys, "active") || has_active_tag(&self.activity.tags),
            CellType::Markdown => false,
        }
    }

    /// Does the cell marker of the cell set its markdown between triple quotes?
    pub fn use_triple_quotes(&self) -> (r: bool)
        requires
            self.cell_marker matches Some(m) ==> triple_quote_test_defined(m@),
        ensures
            r == (self.cell_marker matches Some(m) && triple_quote_marker(m@)),
    {
        let marker = match &self.cell_marker {
            Some(m) => m.as_str(),
            None => return false,
        };
        proof {
            reveal_strlit("\"\"\"");
            reveal_strlit("'''");
            assert("\"\"\""@ =~= triple_double());
            assert("'''"@ =~= triple_single());
        }
        if str_eq(marker, "\"\"\"") || str_eq(marker, "'''") {
            return true;
        }
        if !crate::text::contains_char(marker, ',') {
            return false;
        }
        let (left, right) = split_at_comma(marker);
        (starts_with(left.as_str(), "\"\"\"") && ends_with(right.as_str(), "\"\"\""))
            || (starts_with(left.as_str(), "'''") && ends_with(right.as_str(), "'''"))
    }
    /// A markdown cell as commented text, or between the triple quotes of its cell
    /// markers.
    pub fn markdown_to_text(&self, source: &[String]) -> (r: Vec<String>)
        requires
            markdown_text_defined(*self, views(source@)),
        ensures
            views(r@) == markdown_text(*self, views(source@)),
    {
        let markers: Option<&str> = match &self.cell_marker {
            Some(m) => Some(m.as_str()),
            None => match &self.cell_markers {
                Some(m) => Some(m.as_str()),
                None => None,
            },
        };
        if let Some(m) = markers {
            let (left, right) = marker_sides_of(m);
            if quote_sides_of(left.as_str(), right.as_str()) {
                proof {
                    reveal_strlit("percent");
                    reveal_strlit("r");
                }
                let raw = !starts_with_r(left.as_str()) && any_backslash(source) && format_named(
                    &self.format_name,
                    "percent",
                );
                let left = if raw {
                    concat("r", left.as_str())
                } else {
                    left
                };
                let mut out = copy_lines(source);
                let first = concat(left.as_str(), out[0].as_str());
                out.set(0, first);
                let last = out.len() - 1;
                let closed = concat(out[last].as_str(), right.as_str());
                out.set(last, closed);
                proof {
                    let sm = markers_of(*self)->0;
                    assert(sm == m@);
                    assert(quoted_markdown(*self));
                    let l0 = marker_sides(sm).0;
                    let rr = !starts_r(l0) && has_backslash(views(source@)) && format_is(*self, "percent"@);
                    assert(raw == rr);
                    assert(left@ == if rr { seq!['r'] + l0 } else { l0 });
                    assert(views(out@) =~= between(views(source@), left@, right@));
                }
                return out;
            }
        }
        assert(!quoted_markdown(*self));
        proof {
            reveal_strlit("#'");
            reveal_strlit("hydrogen");
            reveal_strlit("percent");
        }
        if crate::text::char_len(self.comment.as_str()) > 0 && !str_eq(self.comment.as_str(), "#'")
            && is_active(self.ext.as_str(), &self.activity, true) && !format_named(&self.format_name, "percent")
            && !format_named(&self.format_name, "hydrogen") {
            let mut src = copy_lines(source);
            let code = match self.cell_type {
                CellType::Code => true,
                _ => false,
            };
            comment_magic(&mut src, self.language.as_str(), self.comment_magics, code);
            return comment_lines(&src, self.comment.as_str(), self.comment_suffix.as_str());
        }
        comment_lines(source, self.comment.as_str(), self.comment_suffix.as_str())
    }
}

/// The fields of the exporter's state that the light script exporter does not change.
pub open spec fn rest_kept(a: BaseCellData, b: BaseCellData) -> bool {
    &&& a.ext == b.ext
    &&& a.activity == b.activity
    &&& a.cell_markers == b.cell_markers
    &&& a.format_name == b.format_name
    &&& a.language == b.language
    &&& a.default_language == b.default_language
    &&& a.comment == b.comment
    &&& a.comment_suffix == b.comment_suffix
    &&& a.comment_magics == b.comment_magics
    &&& a.cell_metadata_json == b.cell_metadata_json
    &&& a.use_runtools == b.use_runtools
    &&& a.doxygen_equation_markers == b.doxygen_equation_markers
    &&& a.lines_to_end_of_cell_marker == b.lines_to_end_of_cell_marker
}

/// The custom cell markers of the light format: the two sides of the first comma of the
/// `cell_markers` option, unless that has no comma or is `+,-`.
pub open spec fn light_markers(fmt: Map<Seq<char>, Seq<char>>) -> Option<(Seq<char>, Seq<char>)> {
    match fmt_entry(fmt, "cell_markers"@) {
        Some(m) => if has_char(m, ',') && m != "+,-"@ {
            Some(comma_split(m))
        } else {
            None
        },
        None => None,
    }
}

/// A markdown cell with metadata, or one set between triple quotes, is written as code.
pub open spec fn light_code_trigger(d: BaseCellData) -> bool {
    (d.cell_type == CellType::Markdown && d.metadata_keys@.len() > 0) || (d.cell_marker matches Some(
        m,
    ) && triple_quote_marker(m@))
}

/// The pattern of a line that starts a cell with the custom start marker.
pub open spec fn custom_start_pattern(comment: Seq<char>, start: Seq<char>) -> Seq<char> {
    "^"@ + regex_escape(comment) + r"\s*"@ + regex_escape(start) + r"\s*(.*)$"@
}

/// The pattern of a line that ends a cell with the custom end marker.
pub open spec fn custom_end_pattern(comment: Seq<char>, end: Seq<char>) -> Seq<char> {
    "^"@ + regex_escape(comment) + r"\s*"@ + regex_escape(end) + r"\s*$"@
}

/// The first line already holds one of the custom markers.
pub open spec fn custom_marker_first(e: LightScriptCellExporter, source: Seq<Seq<char>>) -> bool {
    match (e.cell_marker_start, e.cell_marker_end) {
        (Some(s), Some(t)) => {
            let sp = custom_start_pattern(e.data.comment@, s@);
            let ep = custom_end_pattern(e.data.comment@, t@);
            regex_compiles(sp) && regex_compiles(ep) && source.len() > 0 && (regex_matches(sp, source[0])
                || regex_matches(ep, source[0]))
        },
        _ => false,
    }
}

/// Every line starts with the comment.
pub open spec fn all_commented(lines: Seq<Seq<char>>, comment: Seq<char>) -> bool {
    forall|i: int| 0 <= i < lines.len() ==> has_prefix(#[trigger] lines[i], comment)
}

/// A blank line stands between the first and the last line.
pub open spec fn inner_blank_line(source: Seq<Seq<char>>) -> bool {
    exists|i: int| 0 < i < source.len() - 1 && all_ws(#[trigger] source[i])
}

/// Whether a cell needs an explicit start marker in the light format: never without cell
/// markers; always with metadata; not when its first line holds a custom marker; always
/// when every line of the cell is a comment, or when a blank line stands inside it.
pub open spec fn needs_start_marker(e: LightScriptCellExporter, source: Seq<Seq<char>>) -> bool {
    if !e.use_cell_markers {
        false
    } else if e.data.metadata_keys@.len() > 0 {
        true
    } else if custom_marker_first(e, source) {
        false
    } else {
        all_commented(views(e.data.source@), e.data.comment@) || inner_blank_line(source)
    }
}

/// The end-of-cell marker of the light format.
pub open spec fn eoc_line(comment: Seq<char>) -> Seq<char> {
    comment + " -"@
}

/// The end-of-cell marker of a code cell goes when no next cell follows or the next cell
/// starts with a start marker; else blank lines go before it: as many as the cell asks
/// for, else two when the PEP8 rules of the extension ask for two or more.
pub open spec fn eoc_removed(d: BaseCellData, text: Seq<Seq<char>>, next: Seq<Seq<char>>) -> bool {
    code_cell(d) && text.len() > 0 && text.last() == eoc_line(d.comment@) && (next.len() == 0
        || has_prefix(next[0], d.comment@ + " +"@))
}

/// The end-of-cell marker of a code cell stays, after blank lines.
pub open spec fn eoc_kept(d: BaseCellData, text: Seq<Seq<char>>, next: Seq<Seq<char>>) -> bool {
    code_cell(d) && text.len() > 0 && text.last() == eoc_line(d.comment@) && !eoc_removed(d, text, next)
}

/// The blank lines before a kept end-of-cell marker.
pub open spec fn eoc_blank_lines(d: BaseCellData, text: Seq<Seq<char>>, next: Seq<Seq<char>>) -> nat {
    match d.lines_to_end_of_cell_marker {
        Some(n) => n as nat,
        None => if pep8_lines(text.drop_last(), next, d.ext@) < 2 {
            0
        } else {
            2
        },
    }
}

/// The blank lines after a cell whose end-of-cell marker went: those that the cell asks
/// for before its end-of-cell marker, when there are more of them.
pub open spec fn next_lines_after_removal(d: BaseCellData) -> Option<usize> {
    match d.lines_to_end_of_cell_marker {
        Some(e) => if d.lines_to_next_cell is None || e > d.lines_to_next_cell.unwrap_or(0) {
            Some(e)
        } else {
            d.lines_to_next_cell
        },
        None => d.lines_to_next_cell,
    }
}

/// Exports cells in the light script format, with `# +` and `# -` cell markers or custom
/// ones.
pub struct LightScriptCellExporter {
    pub data: BaseCellData,
    pub use_cell_markers: bool,
    pub cell_marker_start: Option<String>,
    pub cell_marker_end: Option<String>,
}

/// Exports cells as a script without cell markers.
pub struct BareScriptCellExporter {
    pub inner: LightScriptCellExporter,
}

/// The light exporter built for a cell: the common state (with a cell magic read and
/// magics commented by default), the `endofcell` key of the cell kept in its metadata,
/// and the custom markers of the format.
pub open spec fn light_state(
    e: LightScriptCellExporter,
    cell: ExporterCell,
    default_language: Seq<char>,
    fmt: Map<Seq<char>, Seq<char>>,
    use_cell_markers: bool,
) -> bool {
    let keys = exported_keys(cell, default_language, fmt, true);
    &&& exporter_state(e.data, cell, default_language, fmt, true, Some(true))
    &&& e.data.comment@ == match script_entry(fmt_ext(fmt)) {
        Some(x) => x.1,
        None => "#"@,
    }
    &&& views(e.data.metadata_keys@) == if views(cell.metadata_keys@).contains("endofcell"@) {
        with_key(keys, "endofcell"@)
    } else {
        keys
    }
    &&& e.use_cell_markers == use_cell_markers
    &&& match light_markers(fmt) {
        Some((s, t)) => opt_seq(e.cell_marker_start) == Some(s) && opt_seq(e.cell_marker_end) == Some(t),
        None => e.cell_marker_start is None && e.cell_marker_end is None,
    }
}

/// Does every line start with the comment?
fn lines_commented(lines: &Vec<String>, comment: &str) -> (r: bool)
    ensures
        r == all_commented(views(lines@), comment@),
{
    let mut i: usize = 0;
    while i < lines.len()
        invariant
            i <= lines@.len(),
            forall|k: int| 0 <= k < i ==> has_prefix(#[trigger] views(lines@)[k], comment@),
        decreases lines.len() - i,
    {
        if !starts_with(lines[i].as_str(), comment) {
            assert(!has_prefix(views(lines@)[i as int], comment@));
            return false;
        }
        i += 1;
    }
    true
}

/// Does a blank line stand between the first and the last line?
fn has_inner_blank(source: &[String]) -> (r: bool)
    ensures
        r == inner_blank_line(views(source@)),
{
    if source.len() < 3 {
        return false;
    }
    let mut j: usize = 1;
    while j < source.len() - 1
        invariant
            1 <= j <= source@.len() - 1,
            source@.len() >= 3,
            forall|k: int| 0 < k < j ==> !all_ws(#[trigger] views(source@)[k]),
        decreases source.len() - j,
    {
        if is_blank(source[j].as_str()) {
            assert(all_ws(views(source@)[j as int]));
            return true;
        }
        j += 1;
    }
    false
}

impl LightScriptCellExporter {
    /// The light exporter of a cell, with cell markers.
    pub fn new(cell: &ExporterCell, default_language: &str, fmt: &FormatMap) -> (r: LightScriptCellExporter)
        ensures
            light_state(r, *cell, default_language@, fmt@, true),
    {
        Self::new_inner(cell, default_language, fmt, true)
    }

    fn new_inner(cell: &ExporterCell, default_language: &str, fmt: &FormatMap, use_cell_markers: bool) -> (r: LightScriptCellExporter)
        ensures
            light_state(r, *cell, default_language@, fmt@, use_cell_markers),
    {
        proof {
            reveal_strlit("+,-");
            reveal_strlit("endofcell");
        }
        let mut data = BaseCellData::new(cell, default_language, fmt, true, Some(true));
        let mut cell_marker_start: Option<String> = None;
        let mut cell_marker_end: Option<String> = None;
        match fmt.get("cell_markers") {
            Some(markers) => {
                if crate::text::contains_char(markers.as_str(), ',') && !str_eq(markers.as_str(), "+,-") {
                    let (s, t) = split_at_comma(markers.as_str());
                    cell_marker_start = Some(s);
                    cell_marker_end = Some(t);
                }
            },
            None => {},
        }
        if has_key(&cell.metadata_keys, "endofcell") {
            add_key(&mut data.metadata_keys, "endofcell");
        }
        LightScriptCellExporter { data, use_cell_markers, cell_marker_start, cell_marker_end }
    }

    /// Is the cell written as code? A markdown cell with metadata, or one set between
    /// triple quotes, is; when it is active, its text becomes the commented markdown, its
    /// type code, and it gets a `cell_type` key in place of its cell marker.
    pub fn is_code_light(&mut self) -> (r: bool)
        requires
            old(self).data.cell_marker matches Some(m) ==> triple_quote_test_defined(m@),
            light_code_trigger(old(self).data) && activity_active(old(self).data.ext@, old(self).data.activity, true)
                ==> markdown_text_defined(old(self).data, views(old(self).data.source@)),
        ensures
            r == (light_code_trigger(old(self).data) || code_cell(old(self).data)),
            rest_kept(final(self).data, old(self).data),
            final(self).data.lines_to_next_cell == old(self).data.lines_to_next_cell,
            final(self).use_cell_markers == old(self).use_cell_markers,
            final(self).cell_marker_start == old(self).cell_marker_start,
            final(self).cell_marker_end == old(self).cell_marker_end,
            if light_code_trigger(old(self).data) && activity_active(old(self).data.ext@, old(self).data.activity, true) {
                &&& views(final(self).data.metadata_keys@) == with_key(views(old(self).data.metadata_keys@), "cell_type"@)
                &&& views(final(self).data.source@) == markdown_text(old(self).data, views(old(self).data.source@))
                &&& final(self).data.cell_type == CellType::Code
                &&& final(self).data.cell_marker is None
            } else {
                &&& final(self).data.metadata_keys == old(self).data.metadata_keys
                &&& final(self).data.source == old(self).data.source
                &&& final(self).data.cell_type == old(self).data.cell_type
                &&& final(self).data.cell_marker == old(self).data.cell_marker
            },
    {
        let markdown = match self.data.cell_type {
            CellType::Markdown => true,
            _ => false,
        };
        if (markdown && self.data.metadata_keys.len() > 0) || self.data.use_triple_quotes() {
            if is_active(self.data.ext.as_str(), &self.data.activity, true) {
                proof {
                    reveal_strlit("cell_type");
                }
                let text = self.data.markdown_to_text(self.data.source.as_slice());
                add_key(&mut self.data.metadata_keys, "cell_type");
                self.data.source = text;
                self.data.cell_type = CellType::Code;
                self.data.cell_marker = None;
            }
            return true;
        }
        self.data.is_code()
    }

    /// Does the cell need an explicit start marker?
    pub fn explicit_start_marker(&self, source: &[String]) -> (r: bool)
        requires
            self.cell_marker_start is Some ==> self.cell_marker_end is Some,
        ensures
            r == needs_start_marker(*self, views(source@)),
    {
        if !self.use_cell_markers {
            return false;
        }
        if self.data.metadata_keys.len() > 0 {
            return true;
        }
        match (&self.cell_marker_start, &self.cell_marker_end) {
            (Some(start), Some(end)) => {
                proof {
                    reveal_strlit("^");
                    reveal_strlit(r"\s*");
                    reveal_strlit(r"\s*(.*)$");
                    reveal_strlit(r"\s*$");
                }
                let comment = escape(self.data.comment.as_str());
                let start_pat = concat(
                    concat3("^", comment.as_str(), r"\s*").as_str(),
                    concat(escape(start.as_str()).as_str(), r"\s*(.*)$").as_str(),
                );
                let end_pat = concat(
                    concat3("^", comment.as_str(), r"\s*").as_str(),
                    concat(escape(end.as_str()).as_str(), r"\s*$").as_str(),
                );
                assert(start_pat@ =~= custom_start_pattern(self.data.comment@, start@));
                assert(end_pat@ =~= custom_end_pattern(self.data.comment@, end@));
                match (Pattern::new(start_pat.as_str()), Pattern::new(end_pat.as_str())) {
                    (Some(sp), Some(ep)) => {
                        if source.len() > 0 && (sp.is_match(source[0].as_str()) || ep.is_match(source[0].as_str())) {
                            return false;
                        }
                    },
                    _ => {},
                }
            },
            _ => {},
        }
        lines_commented(&self.data.source, self.data.comment.as_str()) || has_inner_blank(source)
    }

    /// The text of the cell without its end-of-cell marker when the next cell starts with
    /// a start marker (or none follows), or with blank lines before that marker.
    pub fn remove_eoc_marker(&mut self, text: Vec<String>, next_text: &[String]) -> (r: Vec<String>)
        ensures
            rest_kept(final(self).data, old(self).data),
            final(self).data.source == old(self).data.source,
            final(self).data.metadata_keys == old(self).data.metadata_keys,
            final(self).data.cell_type == old(self).data.cell_type,
            final(self).data.cell_marker == old(self).data.cell_marker,
            final(self).use_cell_markers == old(self).use_cell_markers,
            final(self).cell_marker_start == old(self).cell_marker_start,
            final(self).cell_marker_end == old(self).cell_marker_end,
            final(self).data.lines_to_next_cell == if old(self).cell_marker_start is None && eoc_removed(
                old(self).data,
                views(text@),
                views(next_text@),
            ) {
                next_lines_after_removal(old(self).data)
            } else {
                old(self).data.lines_to_next_cell
            },
            views(r@) == if old(self).cell_marker_start is Some {
                views(text@)
            } else if eoc_removed(old(self).data, views(text@), views(next_text@)) {
                views(text@).drop_last()
            } else if eoc_kept(old(self).data, views(text@), views(next_text@)) {
                views(text@).drop_last() + Seq::new(
                    eoc_blank_lines(old(self).data, views(text@), views(next_text@)),
                    |i: int| Seq::<char>::empty(),
                ).push(eoc_line(old(self).data.comment@))
            } else {
                views(text@)
            },
    {
        let mut text = text;
        if self.cell_marker_start.is_some() {
            return text;
        }
        proof {
            reveal_strlit(" -");
            reveal_strlit(" +");
        }
        let eoc = concat(self.data.comment.as_str(), " -");
        let ghost t0 = views(text@);
        if self.data.is_code() && text.len() > 0 && str_eq(text[text.len() - 1].as_str(), eoc.as_str()) {
            let next_start = concat(self.data.comment.as_str(), " +");
            if next_text.len() == 0 || starts_with(next_text[0].as_str(), next_start.as_str()) {
                text.pop();
                assert(views(text@) =~= t0.drop_last());
                match self.data.lines_to_end_of_cell_marker {
                    Some(e) => {
                        let replace = match self.data.lines_to_next_cell {
                            Some(n) => e > n,
                            None => true,
                        };
                        if replace {
                            self.data.lines_to_next_cell = Some(e);
                        }
                    },
                    None => {},
                }
            } else {
                let marker = text.pop().unwrap();
                assert(views(text@) =~= t0.drop_last());
                let blank_lines: usize = match self.data.lines_to_end_of_cell_marker {
                    Some(n) => n,
                    None => {
                        let bl = pep8_lines_between_cells(text.as_slice(), next_text, self.data.ext.as_str());
                        if bl < 2 {
                            0
                        } else {
                            2
                        }
                    },
                };
                let ghost before = views(text@);
                let mut k: usize = 0;
                while k < blank_lines
                    invariant
                        k <= blank_lines,
                        views(text@) == before + Seq::new(k as nat, |i: int| Seq::<char>::empty()),
                    decreases blank_lines - k,
                {
                    text.push(String::new());
                    assert(views(text@) =~= before + Seq::new((k + 1) as nat, |i: int| Seq::<char>::empty()));
                    k += 1;
                }
                text.push(marker);
            }
        }
        text
    }
}

impl BareScriptCellExporter {
    /// The light exporter of a cell, without cell markers.
    pub fn new(cell: &ExporterCell, default_language: &str, fmt: &FormatMap) -> (r: BareScriptCellExporter)
        ensures
            light_state(r.inner, *cell, default_language@, fmt@, false),
    {
        BareScriptCellExporter { inner: LightScriptCellExporter::new_inner(cell, default_language, fmt, false) }
    }
}


/// `n` hash signs.
pub open spec fn hashes(n: nat) -> Seq<char> {
    Seq::new(n, |i: int| '#')
}

/// The keys without `k`.
pub open spec fn without_key(keys: Seq<Seq<char>>, k: Seq<char>) -> Seq<Seq<char>> {
    keys.filter(|x: Seq<char>| x != k)
}

/// Exports cells as a Sphinx Gallery script: code as it is, text as comments after a line
/// of hash signs, or between triple quotes.
pub struct SphinxGalleryCellExporter {
    pub data: BaseCellData,
    pub default_cell_marker: String,
}

/// The Sphinx Gallery exporter built for a cell: the common state with the `#` comment, the
/// `cell_marker` entry of the cell kept in its metadata, and a line of 79 hash signs as the
/// default cell marker.
pub open spec fn sphinx_state(
    e: SphinxGalleryCellExporter,
    cell: ExporterCell,
    default_language: Seq<char>,
    fmt: Map<Seq<char>, Seq<char>>,
) -> bool {
    let keys = exported_keys(cell, default_language, fmt, true);
    &&& exporter_state(e.data, cell, default_language, fmt, true, Some(true))
    &&& e.data.comment@ == "#"@
    &&& views(e.data.metadata_keys@) == if views(cell.metadata_keys@).contains("cell_marker"@) {
        with_key(keys, "cell_marker"@)
    } else {
        keys
    }
    &&& e.default_cell_marker@ == hashes(79)
}

/// The marker of a text cell: the `cell_marker` entry of its metadata when that is a
/// string, else the default one.
pub open spec fn sphinx_cell_marker(e: SphinxGalleryCellExporter) -> Seq<char> {
    if views(e.data.metadata_keys@).contains("cell_marker"@) && e.data.cell_marker is Some {
        e.data.cell_marker->0@
    } else {
        e.default_cell_marker@
    }
}

/// A cell as Sphinx Gallery text: a code cell with its magics commented; an empty text
/// cell as its two-quote marker (or `""`); a text cell between the triple quotes of its
/// marker; else its marker (when that starts with twenty hash signs, else the default one)
/// and its commented lines.
pub open spec fn sphinx_text(e: SphinxGalleryCellExporter) -> Seq<Seq<char>> {
    let d = e.data;
    let src = views(d.source@);
    let m = sphinx_cell_marker(e);
    if d.cell_type == CellType::Code {
        magics_toggled(src, d.language@, d.comment_magics, true, true)
    } else if src == seq![Seq::<char>::empty()] {
        if m == seq!['"', '"'] || m == seq!['\'', '\''] {
            seq![m]
        } else {
            seq![seq!['"', '"']]
        }
    } else if m == triple_double() || m == triple_single() {
        seq![m] + src + seq![m]
    } else {
        seq![
            if has_prefix(m, hashes(20)) {
                m
            } else {
                e.default_cell_marker@
            },
        ] + commented(src, d.comment@, d.comment_suffix@)
    }
}

/// `n` hash signs.
fn hash_line(n: usize) -> (r: String)
    ensures
        r@ == hashes(n as nat),
{
    let mut r = String::new();
    let mut i: usize = 0;
    while i < n
        invariant
            i <= n,
            r@ =~= hashes(i as nat),
        decreases n - i,
    {
        crate::text::push_char(&mut r, '#');
        i += 1;
        assert(r@ =~= hashes(i as nat));
    }
    r
}

/// Removes `key` from the keys.
fn remove_key(keys: &mut Vec<String>, key: &str)
    ensures
        views(final(keys)@) == without_key(views(old(keys)@), key@),
{
    let ghost ks = views(keys@);
    let ghost f = |x: Seq<char>| x != key@;
    let mut r: Vec<String> = Vec::new();
    let mut i: usize = 0;
    while i < keys.len()
        invariant
            i <= keys@.len(),
            ks == views(keys@),
            f == (|x: Seq<char>| x != key@),
            views(r@) == ks.take(i as int).filter(f),
        decreases keys.len() - i,
    {
        proof {
            assert(ks.take(i + 1) =~= ks.take(i as int).push(ks[i as int]));
            ks.take(i as int).lemma_filter_push(ks[i as int], f);
        }
        if !str_eq(keys[i].as_str(), key) {
            r.push(keys[i].clone());
        }
        i += 1;
    }
    assert(ks.take(keys@.len() as int) =~= ks);
    *keys = r;
}

impl SphinxGalleryCellExporter {
    /// The Sphinx Gallery exporter of a cell. The `rst2md` option only reads.
    pub fn new(cell: &ExporterCell, default_language: &str, fmt: &FormatMap) -> (r: SphinxGalleryCellExporter)
        requires
            fmt_flag(fmt@, "rst2md"@) != Some(true),
        ensures
            sphinx_state(r, *cell, default_language@, fmt@),
    {
        proof {
            reveal_strlit("#");
            reveal_strlit("cell_marker");
        }
        let mut data = BaseCellData::new(cell, default_language, fmt, true, Some(true));
        data.comment = owned("#");
        if has_key(&cell.metadata_keys, "cell_marker") {
            add_key(&mut data.metadata_keys, "cell_marker");
        }
        SphinxGalleryCellExporter { data, default_cell_marker: hash_line(79) }
    }

    /// The text of the cell; a text cell loses the `cell_marker` entry of its metadata.
    pub fn cell_to_text(&mut self) -> (r: Vec<String>)
        ensures
            views(r@) == sphinx_text(*old(self)),
            rest_kept(final(self).data, old(self).data),
            final(self).data.source == old(self).data.source,
            final(self).data.cell_type == old(self).data.cell_type,
            final(self).data.cell_marker == old(self).data.cell_marker,
            final(self).data.lines_to_next_cell == old(self).data.lines_to_next_cell,
            final(self).default_cell_marker == old(self).default_cell_marker,
            views(final(self).data.metadata_keys@) == if old(self).data.cell_type == CellType::Code {
                views(old(self).data.metadata_keys@)
            } else {
                without_key(views(old(self).data.metadata_keys@), "cell_marker"@)
            },
    {
        proof {
            reveal_strlit("cell_marker");
            reveal_strlit("\"\"");
            reveal_strlit("''");
            reveal_strlit("\"\"\"");
            reveal_strlit("'''");
            assert("\"\"\""@ =~= triple_double());
            assert("'''"@ =~= triple_single());
            assert("\"\""@ =~= seq!['"', '"']);
            assert("''"@ =~= seq!['\'', '\'']);
        }
        let code = match self.data.cell_type {
            CellType::Code => true,
            _ => false,
        };
        if code {
            let mut source = copy_lines(self.data.source.as_slice());
            comment_magic(&mut source, self.data.language.as_str(), self.data.comment_magics, true);
            return source;
        }
        let ghost e0 = *self;
        let marker: String = if has_key(&self.data.metadata_keys, "cell_marker") {
            match &self.data.cell_marker {
                Some(m) => owned(m.as_str()),
                None => owned(self.default_cell_marker.as_str()),
            }
        } else {
            owned(self.default_cell_marker.as_str())
        };
        assert(marker@ == sphinx_cell_marker(e0));
        remove_key(&mut self.data.metadata_keys, "cell_marker");
        let src = &self.data.source;
        if src.len() == 1 && crate::text::char_len(src[0].as_str()) == 0 {
            assert(views(src@)[0] =~= Seq::<char>::empty());
            assert(views(src@) =~= seq![Seq::<char>::empty()]);
            let mut out: Vec<String> = Vec::new();
            if str_eq(marker.as_str(), "\"\"") || str_eq(marker.as_str(), "''") {
                out.push(marker);
            } else {
                out.push(owned("\"\""));
            }
            return out;
        }
        assert(views(src@) != seq![Seq::<char>::empty()]) by {
            if views(src@) == seq![Seq::<char>::empty()] {
                assert(views(src@).len() == 1);
                assert(views(src@)[0] == src@[0]@);
            }
        }
        if str_eq(marker.as_str(), "\"\"\"") || str_eq(marker.as_str(), "'''") {
            let mut out: Vec<String> = Vec::new();
            out.push(marker.clone());
            let ghost before = views(out@);
            let mut i: usize = 0;
            while i < src.len()
                invariant
                    i <= src@.len(),
                    before == seq![marker@],
                    views(out@) == before + views(src@).take(i as int),
                decreases src.len() - i,
            {
                out.push(src[i].clone());
                assert(views(out@) =~= before + views(src@).take(i + 1));
                i += 1;
            }
            assert(views(src@).take(src@.len() as int) =~= views(src@));
            out.push(marker);
            assert(views(out@) =~= seq![marker@] + views(src@) + seq![marker@]);
            return out;
        }
        let twenty = hash_line(20);
        let first = if starts_with(marker.as_str(), twenty.as_str()) {
            marker
        } else {
            owned(self.default_cell_marker.as_str())
        };
        let commented_src = comment_lines(src.as_slice(), self.data.comment.as_str(), self.data.comment_suffix.as_str());
        let mut out: Vec<String> = Vec::new();
        out.push(first);
        let ghost before = views(out@);
        let mut i: usize = 0;
        while i < commented_src.len()
            invariant
                i <= commented_src@.len(),
                views(out@) == before + views(commented_src@).take(i as int),
            decreases commented_src.len() - i,
        {
            out.push(commented_src[i].clone());
            assert(views(out@) =~= before + views(commented_src@).take(i + 1));
            i += 1;
        }
        assert(views(commented_src@).take(commented_src@.len() as int) =~= views(commented_src@));
        out
    }
}


} // verus!
