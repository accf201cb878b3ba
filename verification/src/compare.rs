//! Comparison of texts: line diffs, and cell sources that are the same up to a final
//! blank line.

use vstd::prelude::*;
use crate::text::{
    all_ws, concat, concat3, decimal, decimal_text, ends_with_char, is_blank, join, join_strings, lines,
    lines_of, owned, split_char, split_on, str_eq, views,
};
use crate::notebook::{cell_type_name, cell_view, copy_entries, entries_view, same_entries, entry_value, valid_entries, Cell, CellType};
use crate::json::{metadata_debug, metadata_debug_text, option_debug, option_debug_text};
use crate::cell_export::IGNORE_CELL_METADATA;
use crate::metadata_filter::{filter_metadata, kept_metadata_key};
use crate::cell_export::fmt_entry;
use crate::format_map::FormatMap;
use crate::json::{entry_views, remove_entry, sub_string, sub_string_of, without_entry};
use crate::notebook::Notebook;

verus! {

broadcast use crate::text::views_push;

/// Two notebooks, or two texts, differ.
#[derive(Debug, Clone)]
pub struct NotebookDifference {
    pub message: String,
}

impl NotebookDifference {
    /// A difference with the given message.
    pub fn new(msg: String) -> (r: NotebookDifference)
        ensures
            r.message@ == msg@,
    {
        NotebookDifference { message: msg }
    }
}

/// The lines of `s`, with an empty last line when `s` ends with a newline.
pub open spec fn multilines_spec(s: Seq<char>) -> Seq<Seq<char>> {
    let ls = lines_of(s);
    if s.len() > 0 && s.last() == '\n' && ls.len() > 0 {
        ls.push(Seq::empty())
    } else {
        ls
    }
}

/// Line `i` of `v`, or the empty line past its end.
pub open spec fn line_or_empty(v: Seq<Seq<char>>, i: int) -> Seq<char> {
    if i < v.len() {
        v[i]
    } else {
        Seq::empty()
    }
}

/// The diff lines of row `i`: ` line` when both sides agree, else `-old` and `+new` for the
/// sides that have a line `i`.
pub open spec fn diff_row(left: Seq<Seq<char>>, right: Seq<Seq<char>>, i: int) -> Seq<Seq<char>> {
    let o = line_or_empty(left, i);
    let n = line_or_empty(right, i);
    if o != n {
        (if i < left.len() {
            seq![seq!['-'] + o]
        } else {
            Seq::empty()
        }) + (if i < right.len() {
            seq![seq!['+'] + n]
        } else {
            Seq::empty()
        })
    } else {
        seq![seq![' '] + o]
    }
}

/// The diff lines of the first `n` rows.
pub open spec fn diff_rows(left: Seq<Seq<char>>, right: Seq<Seq<char>>, n: int) -> Seq<Seq<char>>
    decreases n,
{
    if n <= 0 {
        Seq::empty()
    } else {
        diff_rows(left, right, n - 1) + diff_row(left, right, n - 1)
    }
}

/// The number of rows of a diff.
pub open spec fn row_count(left: Seq<Seq<char>>, right: Seq<Seq<char>>) -> int {
    if left.len() >= right.len() {
        left.len() as int
    } else {
        right.len() as int
    }
}

/// The line diff of `expected` (lines marked `-`) and `actual` (lines marked `+`), with a
/// header that names them when either name is non-empty.
pub open spec fn unified_diff_spec(
    expected: Seq<Seq<char>>,
    actual: Seq<Seq<char>>,
    expected_name: Seq<char>,
    actual_name: Seq<char>,
) -> Seq<char> {
    let header = if expected_name.len() > 0 || actual_name.len() > 0 {
        seq!["--- "@ + expected_name, "+++ "@ + actual_name]
    } else {
        Seq::empty()
    };
    join(header + diff_rows(expected, actual, row_count(expected, actual)), "\n"@)
}

/// The lines of `s`, with an empty last line when `s` ends with a newline.
pub fn multilines(s: &str) -> (r: Vec<String>)
    ensures
        views(r@) == multilines_spec(s@),
{
    let mut ls = lines(s);
    if ends_with_char(s, '\n') && ls.len() > 0 {
        ls.push(String::new());
    }
    ls
}

fn prefixed(c: char, s: &str) -> (r: String)
    ensures
        r@ == seq![c] + s@,
{
    let mut p = String::new();
    crate::text::push_char(&mut p, c);
    concat(p.as_str(), s)
}

/// Appends the diff lines of all rows to `out`.
pub fn push_diff_rows(out: &mut Vec<String>, left: &Vec<String>, right: &Vec<String>)
    ensures
        views(final(out)@) == views(old(out)@) + diff_rows(
            views(left@),
            views(right@),
            row_count(views(left@), views(right@)),
        ),
{
    let ghost o = views(left@);
    let ghost n = views(right@);
    let ghost start = views(out@);
    let max = if left.len() >= right.len() {
        left.len()
    } else {
        right.len()
    };
    let mut i: usize = 0;
    while i < max
        invariant
            o == views(left@),
            n == views(right@),
            max == row_count(o, n),
            i <= max,
            views(out@) == start + diff_rows(o, n, i as int),
        decreases max - i,
    {
        let e = if i < left.len() {
            left[i].clone()
        } else {
            String::new()
        };
        let a = if i < right.len() {
            right[i].clone()
        } else {
            String::new()
        };
        assert(e@ == line_or_empty(o, i as int));
        assert(a@ == line_or_empty(n, i as int));
        let ghost before = views(out@);
        if !str_eq(e.as_str(), a.as_str()) {
            if i < left.len() {
                out.push(prefixed('-', e.as_str()));
            }
            if i < right.len() {
                out.push(prefixed('+', a.as_str()));
            }
        } else {
            out.push(prefixed(' ', e.as_str()));
        }
        assert(views(out@) =~= before + diff_row(o, n, i as int));
        assert(start + diff_rows(o, n, i + 1) =~= start + diff_rows(o, n, i as int) + diff_row(
            o,
            n,
            i as int,
        ));
        i += 1;
    }
}

/// The line diff of `expected` and `actual`.
pub fn unified_diff(
    expected: &Vec<String>,
    actual: &Vec<String>,
    expected_name: &str,
    actual_name: &str,
) -> (r: String)
    ensures
        r@ == unified_diff_spec(views(expected@), views(actual@), expected_name@, actual_name@),
{
    let mut output: Vec<String> = Vec::new();
    let named = expected_name.unicode_len() > 0 || actual_name.unicode_len() > 0;
    if named {
        output.push(concat("--- ", expected_name));
        output.push(concat("+++ ", actual_name));
    }
    let ghost header = views(output@);
    assert(header =~= (if named {
        seq!["--- "@ + expected_name@, "+++ "@ + actual_name@]
    } else {
        Seq::<Seq<char>>::empty()
    }));
    push_diff_rows(&mut output, expected, actual);
    join_strings(&output, "\n")
}

/// The result of `compare`: nothing when the texts are equal, else their line diff,
/// returned or (with a leading newline) reported as a difference.
pub open spec fn compare_spec(
    actual: Seq<char>,
    expected: Seq<char>,
    actual_name: Seq<char>,
    expected_name: Seq<char>,
    return_diff: bool,
) -> Result<Seq<char>, Seq<char>> {
    if actual == expected {
        Ok(Seq::empty())
    } else {
        let diff = unified_diff_spec(
            multilines_spec(expected),
            multilines_spec(actual),
            expected_name,
            actual_name,
        );
        if return_diff {
            Ok(diff)
        } else {
            Err(seq!['\n'] + diff)
        }
    }
}

/// Compares two texts: the empty string when they are equal; otherwise their line diff,
/// returned when `return_diff` holds and reported as a difference when it does not.
pub fn compare(
    actual: &str,
    expected: &str,
    actual_name: &str,
    expected_name: &str,
    return_diff: bool,
) -> (r: Result<String, NotebookDifference>)
    ensures
        compare_spec(actual@, expected@, actual_name@, expected_name@, return_diff) == match r {
            Ok(s) => Ok::<Seq<char>, Seq<char>>(s@),
            Err(d) => Err(d.message@),
        },
{
    if str_eq(actual, expected) {
        return Ok(String::new());
    }
    let expected_lines = multilines(expected);
    let actual_lines = multilines(actual);
    let diff = unified_diff(&expected_lines, &actual_lines, expected_name, actual_name);
    if return_diff {
        Ok(diff)
    } else {
        let m = prefixed('\n', diff.as_str());
        Err(NotebookDifference::new(m))
    }
}

/// A blank line: only whitespace.
pub fn is_blank_line(line: &str) -> (r: bool)
    ensures
        r == all_ws(line@),
{
    is_blank(line)
}

/// `longer` is `shorter` with one more, blank, line.
pub open spec fn one_more_blank_line(longer: Seq<Seq<char>>, shorter: Seq<Seq<char>>) -> bool {
    longer.len() == shorter.len() + 1 && all_ws(longer.last()) && longer.drop_last() == shorter
}

/// Two cell sources are the same, or, when allowed, differ only by a final blank line.
pub open spec fn same_source(r: Seq<char>, t: Seq<char>, allow_removed_final_blank: bool) -> bool {
    r == t || (allow_removed_final_blank && (one_more_blank_line(split_on(r, '\n'), split_on(t, '\n'))
        || one_more_blank_line(split_on(t, '\n'), split_on(r, '\n'))))
}

fn one_more_blank(longer: &Vec<String>, shorter: &Vec<String>) -> (r: bool)
    ensures
        r == one_more_blank_line(views(longer@), views(shorter@)),
{
    if longer.len() == 0 || longer.len() - 1 != shorter.len() {
        return false;
    }
    if !is_blank(longer[longer.len() - 1].as_str()) {
        return false;
    }
    let ghost l = views(longer@);
    let ghost s = views(shorter@);
    let mut i: usize = 0;
    while i < shorter.len()
        invariant
            l == views(longer@),
            s == views(shorter@),
            l.len() == s.len() + 1,
            i <= s.len(),
            forall|j: int| 0 <= j < i ==> l[j] == s[j],
        decreases shorter.len() - i,
    {
        if !str_eq(longer[i].as_str(), shorter[i].as_str()) {
            assert(l.drop_last()[i as int] != s[i as int]);
            return false;
        }
        i += 1;
    }
    assert(l.drop_last() =~= s);
    true
}

/// Are two cell sources the same, allowing for an optional final blank line?
pub fn same_content(ref_source: &str, test_source: &str, allow_removed_final_blank: bool) -> (r: bool)
    ensures
        r == same_source(ref_source@, test_source@, allow_removed_final_blank),
{
    if str_eq(ref_source, test_source) {
        return true;
    }
    if !allow_removed_final_blank {
        return false;
    }
    let ref_lines = split_char(ref_source, '\n');
    let test_lines = split_char(test_source, '\n');
    one_more_blank(&ref_lines, &test_lines) || one_more_blank(&test_lines, &ref_lines)
}

} // verus!

verus! {

/// Sources are the same as themselves; being the same up to a final blank line does not
/// depend on the order of the two sources; without that allowance, only equal sources
/// are the same.
pub proof fn same_source_facts(r: Seq<char>, t: Seq<char>, allow: bool)
    ensures
        same_source(r, r, allow),
        same_source(r, t, allow) == same_source(t, r, allow),
        !allow ==> (same_source(r, t, allow) <==> r == t),
{
}

/// Equal texts compare equal: `compare` gives the empty string, and `diff_strings` too.
pub proof fn compare_equal_texts(a: Seq<char>, name_a: Seq<char>, name_b: Seq<char>, return_diff: bool)
    ensures
        compare_spec(a, a, name_a, name_b, return_diff) == Ok::<Seq<char>, Seq<char>>(Seq::empty()),
        crate::cli::diff_strings_spec(a, a, name_a, name_b) == Seq::<char>::empty(),
{
}

} // verus!

verus! {

proof fn lemma_join_last(parts: Seq<Seq<char>>, sep: Seq<char>)
    requires
        parts.len() > 0,
    ensures
        join(parts, sep).len() >= parts.last().len(),
{
}

/// The diff of two line lists of which one is not empty is not empty.
proof fn lemma_diff_nonempty(
    expected: Seq<Seq<char>>,
    actual: Seq<Seq<char>>,
    expected_name: Seq<char>,
    actual_name: Seq<char>,
)
    requires
        expected.len() > 0 || actual.len() > 0,
    ensures
        unified_diff_spec(expected, actual, expected_name, actual_name).len() > 0,
{
    let n = row_count(expected, actual);
    let rows = diff_rows(expected, actual, n);
    let last_row = diff_row(expected, actual, n - 1);
    assert(rows == diff_rows(expected, actual, n - 1) + last_row);
    assert(last_row.len() > 0 && last_row.last().len() > 0);
    let header = if expected_name.len() > 0 || actual_name.len() > 0 {
        seq!["--- "@ + expected_name, "+++ "@ + actual_name]
    } else {
        Seq::<Seq<char>>::empty()
    };
    assert((header + rows).last() == last_row.last());
    lemma_join_last(header + rows, "\n"@);
}

/// Comparing two texts gives nothing exactly when they are equal; when they differ, the
/// diff that is returned is not empty, and the difference reported is that diff after a
/// newline.
pub proof fn compare_finds_differences(
    actual: Seq<char>,
    expected: Seq<char>,
    actual_name: Seq<char>,
    expected_name: Seq<char>,
)
    ensures
        (compare_spec(actual, expected, actual_name, expected_name, true) == Ok::<Seq<char>, Seq<char>>(Seq::empty()))
            <==> actual == expected,
        (compare_spec(actual, expected, actual_name, expected_name, false) is Err) <==> actual != expected,
        actual != expected ==> compare_spec(actual, expected, actual_name, expected_name, true)->Ok_0.len() > 0,
        actual != expected ==> compare_spec(actual, expected, actual_name, expected_name, false) == Err::<Seq<char>, Seq<char>>(
            seq!['\n'] + compare_spec(actual, expected, actual_name, expected_name, true)->Ok_0,
        ),
{
    if actual != expected {
        if actual.len() > 0 {
            crate::text::lemma_lines_of_nonempty(actual);
        } else {
            if expected.len() == 0 {
                assert(actual =~= expected);
            }
            crate::text::lemma_lines_of_nonempty(expected);
        }
        lemma_diff_nonempty(multilines_spec(expected), multilines_spec(actual), expected_name, actual_name);
    }
}

} // verus!

verus! {

/// How two lists of cells are compared.
#[derive(Debug, Clone)]
pub struct CompareOptions {
    pub raise_on_first_difference: bool,
    pub compare_outputs: bool,
    pub compare_ids: bool,
    pub cell_metadata_filter: Option<String>,
    pub allow_missing_code_cell_metadata: bool,
    pub allow_missing_markdown_cell_metadata: bool,
    pub allow_filtered_cell_metadata: bool,
    pub allow_removed_final_blank_line: bool,
}

/// What has been found to differ so far: the numbers of the cells (from 1), and the keys
/// of the cell metadata.
pub type CompareState = (Seq<usize>, Seq<Seq<char>>);

/// A cell metadata key that the comparison leaves out when filtered metadata is allowed:
/// one of those of `IGNORE_CELL_METADATA`.
pub open spec fn ignored_key(k: Seq<char>) -> bool {
    split_on(IGNORE_CELL_METADATA@, ',').contains(seq!['-'] + k)
}

/// The metadata entries whose keys are not left out.
pub open spec fn kept_entries(m: Seq<(Seq<char>, Seq<char>)>) -> Seq<(Seq<char>, Seq<char>)> {
    m.filter(|p: (Seq<char>, Seq<char>)| !ignored_key(p.0))
}

/// `ks` pushed in order onto `l`, each key `k` with `f(k)` that is not there yet.
pub open spec fn push_new_keys(l: Seq<Seq<char>>, ks: Seq<Seq<char>>, f: spec_fn(Seq<char>) -> bool) -> Seq<Seq<char>>
    decreases ks.len(),
{
    if ks.len() == 0 {
        l
    } else {
        let prev = push_new_keys(l, ks.drop_last(), f);
        if f(ks.last()) && !prev.contains(ks.last()) {
            prev.push(ks.last())
        } else {
            prev
        }
    }
}

/// The keys of metadata entries, in order.
pub open spec fn entry_keys(m: Seq<(Seq<char>, Seq<char>)>) -> Seq<Seq<char>> {
    m.map_values(|p: (Seq<char>, Seq<char>)| p.0)
}

/// The keys in which two metadata differ, added to `l`: those of `tm` missing from `rm`,
/// those of `rm` missing from `tm`, then those with different values.
pub open spec fn differing_keys(l: Seq<Seq<char>>, tm: Seq<(Seq<char>, Seq<char>)>, rm: Seq<(Seq<char>, Seq<char>)>) -> Seq<Seq<char>> {
    let t = crate::format_map::map_of(tm);
    let r = crate::format_map::map_of(rm);
    let l1 = push_new_keys(l, entry_keys(tm), |k: Seq<char>| !r.contains_key(k));
    let l2 = push_new_keys(l1, entry_keys(rm), |k: Seq<char>| !t.contains_key(k));
    push_new_keys(l2, entry_keys(rm), |k: Seq<char>| t.contains_key(k) && r[k] != t[k])
}

/// The lines of a source that are not blank.
pub open spec fn nonblank_lines(s: Seq<char>) -> Seq<Seq<char>> {
    lines_of(s).filter(|l: Seq<char>| !all_ws(l))
}

/// `n` added to the cell numbers unless it is there already.
pub open spec fn with_cell(st: CompareState, n: usize) -> CompareState {
    if st.0.contains(n) {
        st
    } else {
        (st.0.push(n), st.1)
    }
}

/// The metadata of a cell as the comparison sees it.
pub open spec fn compared_metadata(c: Cell, o: CompareOptions) -> Seq<(Seq<char>, Seq<char>)> {
    if o.allow_filtered_cell_metadata {
        kept_entries(entries_view(c.metadata@))
    } else {
        entries_view(c.metadata@)
    }
}

/// The metadata of a cell is not compared.
pub open spec fn skips_metadata(e: Cell, o: CompareOptions) -> bool {
    (e.cell_type == CellType::Code && o.allow_missing_code_cell_metadata) || (e.cell_type != CellType::Code
        && o.allow_missing_markdown_cell_metadata)
}

/// The metadata entries whose keys the cell metadata filter keeps.
pub open spec fn kept_by_filter(m: Seq<(Seq<char>, Seq<char>)>, empty_tags: bool, filter: Seq<char>, default: Seq<char>) -> Seq<(Seq<char>, Seq<char>)> {
    m.filter(|p: (Seq<char>, Seq<char>)| kept_metadata_key(p.0, empty_tags, filter, default))
}

/// The view of a cell once filtered for the comparison of outputs: type, source, metadata
/// keys kept by the filter with their values, execution count and outputs.
pub open spec fn output_view(c: Cell, filter: Seq<char>) -> (CellType, Seq<char>, Map<Seq<char>, Seq<char>>, Option<Seq<char>>, Option<Seq<Seq<char>>>) {
    let m = entries_view(c.metadata@);
    let empty_tags = crate::format_map::map_of(m).contains_key("tags"@) && crate::format_map::map_of(m)["tags"@] == "[]"@;
    (
        c.cell_type,
        c.source@,
        crate::format_map::map_of(kept_by_filter(m, empty_tags, filter, IGNORE_CELL_METADATA@)),
        cell_view(c).3,
        cell_view(c).4,
    )
}

/// The comparison of the test cell `t` with the expected cell `e`, number `n`.
pub open spec fn compare_one(t: Cell, e: Cell, n: usize, o: CompareOptions, st: CompareState) -> Result<CompareState, Seq<char>> {
    let tn = cell_type_name(t.cell_type);
    let en = cell_type_name(e.cell_type);
    let nd = decimal(n as nat);
    // cell types
    if e.cell_type != t.cell_type && o.raise_on_first_difference {
        Err("When comparing cell #"@ + nd + ": expecting a "@ + en + " cell, but got a "@ + tn
            + " cell.\nExpected content:\n"@ + e.source@ + "\nActual content:\n"@ + t.source@)
    } else {
        let st1 = if e.cell_type != t.cell_type { (st.0.push(n), st.1) } else { st };
        let tid = cell_view(t).5;
        let eid = cell_view(e).5;
        if o.compare_ids && tid != eid && o.raise_on_first_difference {
            Err("Cell ids differ on "@ + tn + " cell #"@ + nd + ": '"@ + option_debug(tid) + "' != '"@
                + option_debug(eid) + "'"@)
        } else {
            let st2 = if o.compare_ids && tid != eid { (st1.0.push(n), st1.1) } else { st1 };
            let rm = compared_metadata(e, o);
            let tm = compared_metadata(t, o);
            let meta_differ = !skips_metadata(e, o) && crate::format_map::map_of(rm) != crate::format_map::map_of(tm);
            if meta_differ && o.raise_on_first_difference {
                Err("Metadata differ on "@ + tn + " cell #"@ + nd + ": "@ + compare_spec(
                    metadata_debug(tm),
                    metadata_debug(rm),
                    "actual"@,
                    "expected"@,
                    true,
                )->Ok_0 + "\nCell content:\n"@ + e.source@)
            } else {
                let st3 = if meta_differ { (st2.0, differing_keys(st2.1, tm, rm)) } else { st2 };
                let rl = nonblank_lines(e.source@);
                let tl = nonblank_lines(t.source@);
                if rl != tl && o.raise_on_first_difference {
                    Err("Cell content differ on "@ + tn + " cell #"@ + nd + ": "@ + compare_spec(
                        join(tl, "\n"@),
                        join(rl, "\n"@),
                        "actual"@,
                        "expected"@,
                        true,
                    )->Ok_0)
                } else {
                    let st4 = if rl != tl { (st3.0.push(n), st3.1) } else { st3 };
                    let content_differ = !same_source(e.source@, t.source@, o.allow_removed_final_blank_line)
                        && e.source@ != t.source@;
                    if content_differ && o.raise_on_first_difference {
                        Err("Cell content differ on "@ + tn + " cell #"@ + nd + ": "@ + compare_spec(
                            t.source@,
                            e.source@,
                            ""@,
                            ""@,
                            true,
                        )->Ok_0)
                    } else {
                        let st5 = if content_differ { with_cell(st4, n) } else { st4 };
                        let filter = match o.cell_metadata_filter {
                            Some(f) => f@,
                            None => ""@,
                        };
                        let outputs_differ = o.compare_outputs && e.cell_type == CellType::Code && output_view(e, filter)
                            != output_view(t, filter);
                        if outputs_differ && o.raise_on_first_difference {
                            Err("Cell outputs differ on "@ + tn + " cell #"@ + nd)
                        } else if outputs_differ {
                            Ok(with_cell(st5, n))
                        } else {
                            Ok(st5)
                        }
                    }
                }
            }
        }
    }
}

/// The numbers from `a` to `b` included.
pub open spec fn numbers_from(a: int, b: int) -> Seq<usize>
    decreases b - a + 1,
{
    if b < a {
        Seq::empty()
    } else {
        numbers_from(a, b - 1).push(b as usize)
    }
}

/// The comparison of the first `k` expected cells.
pub open spec fn compared_upto(actual: Seq<Cell>, expected: Seq<Cell>, o: CompareOptions, k: int) -> Result<CompareState, Seq<char>>
    decreases k,
{
    if k <= 0 {
        Ok((Seq::empty(), Seq::empty()))
    } else {
        match compared_upto(actual, expected, o, k - 1) {
            Err(m) => Err(m),
            Ok(st) => if k - 1 < actual.len() {
                compare_one(actual[k - 1], expected[k - 1], k as usize, o, st)
            } else if k - 1 == actual.len() {
                if o.raise_on_first_difference {
                    Err("No cell corresponding to "@ + cell_type_name(expected[k - 1].cell_type) + " cell #"@
                        + decimal(k as nat) + ":\n"@ + expected[k - 1].source@)
                } else {
                    Ok((st.0 + numbers_from(k, expected.len() as int), st.1))
                }
            } else {
                Ok(st)
            },
        }
    }
}

/// The comparison of the cells of a notebook (`actual`) with the expected ones: the
/// numbers of the cells that differ (from 1, the extra cells of `actual` after the others)
/// and the metadata keys that differ; with `raise_on_first_difference`, the first
/// difference instead.
pub open spec fn compared_cells(actual: Seq<Cell>, expected: Seq<Cell>, o: CompareOptions) -> Result<CompareState, Seq<char>> {
    match compared_upto(actual, expected, o, expected.len() as int) {
        Err(m) => Err(m),
        Ok(st) => if actual.len() > expected.len() {
            if o.raise_on_first_difference {
                let c = actual[expected.len() as int];
                Err("Additional "@ + cell_type_name(c.cell_type) + " cell: "@ + c.source@)
            } else {
                Ok((st.0 + numbers_from(expected.len() + 1int, actual.len() as int), st.1))
            }
        } else {
            Ok(st)
        },
    }
}

} // verus!

verus! {

fn is_ignored_key(k: &str) -> (r: bool)
    ensures
        r == ignored_key(k@),
{
    let pieces = split_char(IGNORE_CELL_METADATA, ',');
    let dashed = concat("-", k);
    proof {
        reveal_strlit("-");
        assert("-"@ + k@ =~= seq!['-'] + k@);
    }
    let ghost ps = views(pieces@);
    let mut i: usize = 0;
    while i < pieces.len()
        invariant
            i <= pieces@.len(),
            ps == views(pieces@),
            ps == split_on(IGNORE_CELL_METADATA@, ','),
            dashed@ == seq!['-'] + k@,
            forall|j: int| 0 <= j < i ==> ps[j] != dashed@,
        decreases pieces.len() - i,
    {
        if str_eq(pieces[i].as_str(), dashed.as_str()) {
            assert(ps[i as int] == dashed@);
            return true;
        }
        i += 1;
    }
    false
}

/// The entries of `m` that `keep` keeps, in order.
fn kept_entries_of(m: &Vec<(String, String)>) -> (r: Vec<(String, String)>)
    ensures
        entries_view(r@) == kept_entries(entries_view(m@)),
        valid_entries(m@) ==> valid_entries(r@),
{
    let ghost mv = entries_view(m@);
    let ghost f = |p: (Seq<char>, Seq<char>)| !ignored_key(p.0);
    let mut out: Vec<(String, String)> = Vec::new();
    let mut i: usize = 0;
    while i < m.len()
        invariant
            i <= m@.len(),
            mv == entries_view(m@),
            f == (|p: (Seq<char>, Seq<char>)| !ignored_key(p.0)),
            entries_view(out@) == mv.take(i as int).filter(f),
        decreases m.len() - i,
    {
        let ghost before = entries_view(out@);
        assert(mv.take(i + 1).drop_last() =~= mv.take(i as int));
        assert(mv[i as int] == (m@[i as int].0@, m@[i as int].1@));
        if !is_ignored_key(m[i].0.as_str()) {
            out.push((m[i].0.clone(), m[i].1.clone()));
            assert(entries_view(out@) =~= before.push(mv[i as int]));
        } else {
            assert(entries_view(out@) =~= before);
        }
        proof {
            assert(mv.take(i + 1) =~= mv.take(i as int).push(mv[i as int]));
            mv.take(i as int).lemma_filter_push(mv[i as int], f);
        }
        i += 1;
    }
    assert(mv.take(m@.len() as int) =~= mv);
    proof {
        if valid_entries(m@) {
            let o = entries_view(out@);
            assert forall|a: int, b: int| 0 <= a < b < o.len() implies o[a].0 != o[b].0 by {
                lemma_filter_distinct(mv, f);
            }
        }
    }
    out
}

proof fn lemma_filter_distinct(s: Seq<(Seq<char>, Seq<char>)>, f: spec_fn((Seq<char>, Seq<char>)) -> bool)
    requires
        crate::format_map::distinct_keys(s),
    ensures
        crate::format_map::distinct_keys(s.filter(f)),
    decreases s.len(),
{
    if s.len() > 0 {
        lemma_filter_distinct(s.drop_last(), f);
        assert(crate::format_map::distinct_keys(s.drop_last())) by {
            assert forall|a: int, b: int| 0 <= a < b < s.drop_last().len() implies s.drop_last()[a].0 != s.drop_last()[b].0 by {
                assert(s.drop_last()[a] == s[a] && s.drop_last()[b] == s[b]);
            }
        }
        assert(s =~= s.drop_last().push(s.last()));
        s.drop_last().lemma_filter_push(s.last(), f);
        let t = s.drop_last().filter(f);
        if f(s.last()) {
            assert forall|a: int| 0 <= a < t.len() implies t[a].0 != s.last().0 by {
                assert(t.contains(t[a]));
                s.drop_last().lemma_filter_contains_rev(f, t[a]);
                let j = choose|j: int| 0 <= j < s.drop_last().len() && s.drop_last()[j] == t[a];
                assert(s[j] == s.drop_last()[j]);
                assert(s[s.len() - 1] == s.last());
            }
            let u = s.filter(f);
            assert(u =~= t.push(s.last()));
            assert forall|a: int, b: int| 0 <= a < b < u.len() implies u[a].0 != u[b].0 by {
                if b == u.len() - 1 {
                    assert(u[a] == t[a]);
                } else {
                    assert(u[a] == t[a] && u[b] == t[b]);
                }
            }
        } else {
            assert(s.filter(f) =~= t);
        }
    }
}

} // verus!

verus! {

fn list_has(l: &Vec<String>, k: &str) -> (r: bool)
    ensures
        r == views(l@).contains(k@),
{
    let mut i: usize = 0;
    while i < l.len()
        invariant
            i <= l@.len(),
            forall|j: int| 0 <= j < i ==> views(l@)[j] != k@,
        decreases l.len() - i,
    {
        if str_eq(l[i].as_str(), k) {
            assert(views(l@)[i as int] == k@);
            return true;
        }
        i += 1;
    }
    false
}

fn nums_have(l: &Vec<usize>, n: usize) -> (r: bool)
    ensures
        r == l@.contains(n),
{
    let mut i: usize = 0;
    while i < l.len()
        invariant
            i <= l@.len(),
            forall|j: int| 0 <= j < i ==> l@[j] != n,
        decreases l.len() - i,
    {
        if l[i] == n {
            return true;
        }
        i += 1;
    }
    false
}

/// The lines of a source that are not blank.
fn nonblank_lines_of(s: &str) -> (r: Vec<String>)
    ensures
        views(r@) == nonblank_lines(s@),
{
    let ls = lines(s);
    let ghost v = views(ls@);
    let ghost f = |l: Seq<char>| !all_ws(l);
    let mut out: Vec<String> = Vec::new();
    let mut i: usize = 0;
    while i < ls.len()
        invariant
            i <= ls@.len(),
            v == views(ls@),
            v == lines_of(s@),
            f == (|l: Seq<char>| !all_ws(l)),
            views(out@) == v.take(i as int).filter(f),
        decreases ls.len() - i,
    {
        proof {
            assert(v.take(i + 1) =~= v.take(i as int).push(v[i as int]));
            v.take(i as int).lemma_filter_push(v[i as int], f);
        }
        let ghost before = views(out@);
        if !is_blank(ls[i].as_str()) {
            out.push(ls[i].clone());
            assert(views(out@) =~= before.push(v[i as int]));
        }
        i += 1;
    }
    assert(v.take(ls@.len() as int) =~= v);
    out
}

/// Adds to `l`, in order, the keys of `ks` that `pick` selects and that `l` lacks.
fn push_new_keys_of(l: &mut Vec<String>, ks: &Vec<(String, String)>, pick: &Vec<bool>, Ghost(f): Ghost<spec_fn(Seq<char>) -> bool>)
    requires
        pick@.len() == ks@.len(),
        forall|i: int| 0 <= i < ks@.len() ==> pick@[i] == f(ks@[i].0@),
    ensures
        views(final(l)@) == push_new_keys(views(old(l)@), entry_keys(entries_view(ks@)), f),
{
    let ghost l0 = views(l@);
    let ghost kv = entry_keys(entries_view(ks@));
    let mut i: usize = 0;
    while i < ks.len()
        invariant
            i <= ks@.len(),
            pick@.len() == ks@.len(),
            forall|j: int| 0 <= j < ks@.len() ==> pick@[j] == f(ks@[j].0@),
            kv == entry_keys(entries_view(ks@)),
            views(l@) == push_new_keys(l0, kv.take(i as int), f),
        decreases ks.len() - i,
    {
        assert(kv[i as int] == ks@[i as int].0@);
        assert(kv.take(i + 1).drop_last() =~= kv.take(i as int));
        let k = ks[i].0.as_str();
        if pick[i] && !list_has(l, k) {
            l.push(ks[i].0.clone());
        }
        i += 1;
    }
    assert(kv.take(ks@.len() as int) =~= kv);
}

} // verus!

verus! {

/// Adds the keys in which two metadata differ.
fn add_differing_keys(l: &mut Vec<String>, tm: &Vec<(String, String)>, rm: &Vec<(String, String)>)
    requires
        valid_entries(tm@),
        valid_entries(rm@),
    ensures
        views(final(l)@) == differing_keys(views(old(l)@), entries_view(tm@), entries_view(rm@)),
{
    let ghost t = crate::format_map::map_of(entries_view(tm@));
    let ghost r = crate::format_map::map_of(entries_view(rm@));
    let ghost f1 = |k: Seq<char>| !r.contains_key(k);
    let ghost f2 = |k: Seq<char>| !t.contains_key(k);
    let ghost f3 = |k: Seq<char>| t.contains_key(k) && r[k] != t[k];
    proof {
        crate::format_map::lemma_map_of(entries_view(rm@));
    }
    let mut p1: Vec<bool> = Vec::new();
    let mut i: usize = 0;
    while i < tm.len()
        invariant
            i <= tm@.len(),
            p1@.len() == i,
            valid_entries(rm@),
            r == crate::format_map::map_of(entries_view(rm@)),
            f1 == (|k: Seq<char>| !r.contains_key(k)),
            forall|j: int| 0 <= j < i ==> p1@[j] == f1(tm@[j].0@),
        decreases tm.len() - i,
    {
        p1.push(entry_value(rm, tm[i].0.as_str()).is_none());
        i += 1;
    }
    let mut p2: Vec<bool> = Vec::new();
    let mut p3: Vec<bool> = Vec::new();
    let mut j: usize = 0;
    while j < rm.len()
        invariant
            j <= rm@.len(),
            p2@.len() == j,
            p3@.len() == j,
            valid_entries(rm@),
            valid_entries(tm@),
            r == crate::format_map::map_of(entries_view(rm@)),
            t == crate::format_map::map_of(entries_view(tm@)),
            f2 == (|k: Seq<char>| !t.contains_key(k)),
            f3 == (|k: Seq<char>| t.contains_key(k) && r[k] != t[k]),
            forall|x: int| 0 <= x < j ==> p2@[x] == f2(rm@[x].0@),
            forall|x: int| 0 <= x < j ==> p3@[x] == f3(rm@[x].0@),
        decreases rm.len() - j,
    {
        proof {
            crate::format_map::lemma_map_of(entries_view(rm@));
        }
        assert(entries_view(rm@)[j as int] == (rm@[j as int].0@, rm@[j as int].1@));
        assert(r[rm@[j as int].0@] == rm@[j as int].1@);
        match entry_value(tm, rm[j].0.as_str()) {
            Some(v) => {
                p2.push(false);
                p3.push(!str_eq(v.as_str(), rm[j].1.as_str()));
            },
            None => {
                p2.push(true);
                p3.push(false);
            },
        }
        j += 1;
    }
    push_new_keys_of(l, tm, &p1, Ghost(f1));
    push_new_keys_of(l, rm, &p2, Ghost(f2));
    push_new_keys_of(l, rm, &p3, Ghost(f3));
}

fn opt_string_eq(a: &Option<String>, b: &Option<String>) -> (r: bool)
    ensures
        r == ((match a {
            Some(s) => Some(s@),
            None => None::<Seq<char>>,
        }) == (match b {
            Some(s) => Some(s@),
            None => None::<Seq<char>>,
        })),
{
    match (a, b) {
        (Some(x), Some(y)) => str_eq(x.as_str(), y.as_str()),
        (None, None) => true,
        _ => false,
    }
}

fn lines_eq(x: &Vec<String>, y: &Vec<String>) -> (r: bool)
    ensures
        r == (views(x@) == views(y@)),
{
    if x.len() != y.len() {
        assert(views(x@).len() != views(y@).len());
        return false;
    }
    let mut i: usize = 0;
    while i < x.len()
        invariant
            i <= x@.len(),
            x@.len() == y@.len(),
            forall|j: int| 0 <= j < i ==> views(x@)[j] == views(y@)[j],
        decreases x.len() - i,
    {
        if !str_eq(x[i].as_str(), y[i].as_str()) {
            assert(views(x@)[i as int] != views(y@)[i as int]);
            return false;
        }
        i += 1;
    }
    assert(views(x@) =~= views(y@));
    true
}

fn opt_lines_eq(a: &Option<Vec<String>>, b: &Option<Vec<String>>) -> (r: bool)
    ensures
        r == ((match a {
            Some(v) => Some(views(v@)),
            None => None::<Seq<Seq<char>>>,
        }) == (match b {
            Some(v) => Some(views(v@)),
            None => None::<Seq<Seq<char>>>,
        })),
{
    match (a, b) {
        (Some(x), Some(y)) => lines_eq(x, y),
        (None, None) => true,
        _ => false,
    }
}

/// The entries whose keys the cell metadata filter keeps.
pub fn kept_by_filter_of(m: &Vec<(String, String)>, empty_tags: bool, filter: &str, default: &str) -> (r: Vec<(String, String)>)
    ensures
        entries_view(r@) == kept_by_filter(entries_view(m@), empty_tags, filter@, default@),
        valid_entries(m@) ==> valid_entries(r@),
{
    let ghost mv = entries_view(m@);
    let ghost f = |p: (Seq<char>, Seq<char>)| kept_metadata_key(p.0, empty_tags, filter@, default@);
    let ghost g = |k: Seq<char>| kept_metadata_key(k, empty_tags, filter@, default@);
    let mut out: Vec<(String, String)> = Vec::new();
    let mut i: usize = 0;
    while i < m.len()
        invariant
            i <= m@.len(),
            mv == entries_view(m@),
            f == (|p: (Seq<char>, Seq<char>)| kept_metadata_key(p.0, empty_tags, filter@, default@)),
            g == (|k: Seq<char>| kept_metadata_key(k, empty_tags, filter@, default@)),
            entries_view(out@) == mv.take(i as int).filter(f),
        decreases m.len() - i,
    {
        proof {
            assert(mv.take(i + 1) =~= mv.take(i as int).push(mv[i as int]));
            mv.take(i as int).lemma_filter_push(mv[i as int], f);
        }
        assert(mv[i as int] == (m@[i as int].0@, m@[i as int].1@));
        let mut one: Vec<String> = Vec::new();
        one.push(m[i].0.clone());
        let kept = filter_metadata(&one, empty_tags, filter, default);
        proof {
            assert(views(one@) =~= Seq::<Seq<char>>::empty().push(m@[i as int].0@));
            Seq::<Seq<char>>::empty().lemma_filter_push(m@[i as int].0@, g);
            assert(Seq::<Seq<char>>::empty().filter(g) =~= Seq::<Seq<char>>::empty()) by {
                reveal(Seq::filter);
            }
        }
        let ghost before = entries_view(out@);
        if kept.len() == 1 {
            out.push((m[i].0.clone(), m[i].1.clone()));
            assert(entries_view(out@) =~= before.push(mv[i as int]));
        } else {
            assert(entries_view(out@) =~= before);
        }
        i += 1;
    }
    assert(mv.take(m@.len() as int) =~= mv);
    proof {
        if valid_entries(m@) {
            lemma_filter_distinct(mv, f);
        }
    }
    out
}

/// Do the two cells agree once filtered for the comparison of outputs?
fn same_outputs(e: &Cell, t: &Cell, filter: &str) -> (r: bool)
    requires
        valid_entries(e.metadata@),
        valid_entries(t.metadata@),
    ensures
        r == (output_view(*e, filter@) == output_view(*t, filter@)),
{
    proof {
        reveal_strlit("tags");
        reveal_strlit("[]");
    }
    let e_tags = match entry_value(&e.metadata, "tags") {
        Some(v) => str_eq(v.as_str(), "[]"),
        None => false,
    };
    let t_tags = match entry_value(&t.metadata, "tags") {
        Some(v) => str_eq(v.as_str(), "[]"),
        None => false,
    };
    let ek = kept_by_filter_of(&e.metadata, e_tags, filter, IGNORE_CELL_METADATA);
    let tk = kept_by_filter_of(&t.metadata, t_tags, filter, IGNORE_CELL_METADATA);
    let same_type = match (e.cell_type, t.cell_type) {
        (CellType::Code, CellType::Code) => true,
        (CellType::Markdown, CellType::Markdown) => true,
        (CellType::Raw, CellType::Raw) => true,
        _ => false,
    };
    same_type && str_eq(e.source.as_str(), t.source.as_str()) && same_entries(&ek, &tk) && opt_string_eq(
        &e.execution_count,
        &t.execution_count,
    ) && opt_lines_eq(&e.outputs, &t.outputs)
}

} // verus!

verus! {

/// The line diff of two texts (what `compare` returns when asked for the diff).
fn diff_text(actual: &str, expected: &str, actual_name: &str, expected_name: &str) -> (r: String)
    ensures
        r@ == compare_spec(actual@, expected@, actual_name@, expected_name@, true)->Ok_0,
{
    match compare(actual, expected, actual_name, expected_name, true) {
        Ok(s) => s,
        Err(_) => String::new(),
    }
}

/// The state as plain values.
pub open spec fn state_view(st: &(Vec<usize>, Vec<String>)) -> CompareState {
    (st.0@, views(st.1@))
}

/// Compares the test cell `t` with the expected cell `e`, number `n`.
#[verifier::rlimit(60)]
fn compare_one_of(t: &Cell, e: &Cell, n: usize, o: &CompareOptions, st: &mut (Vec<usize>, Vec<String>)) -> (r: Result<(), NotebookDifference>)
    requires
        valid_entries(t.metadata@),
        valid_entries(e.metadata@),
    ensures
        match compare_one(*t, *e, n, *o, state_view(old(st))) {
            Ok(s) => r is Ok && state_view(final(st)) == s,
            Err(m) => r matches Err(d) && d.message@ == m,
        },
{
    proof {
        reveal_strlit("When comparing cell #");
        reveal_strlit(": expecting a ");
        reveal_strlit(" cell, but got a ");
        reveal_strlit(" cell.\nExpected content:\n");
        reveal_strlit("\nActual content:\n");
    }
    let tn = t.cell_type.to_string();
    let en = e.cell_type.to_string();
    let nd = decimal_text(n);
    let same_type = match (e.cell_type, t.cell_type) {
        (CellType::Code, CellType::Code) => true,
        (CellType::Markdown, CellType::Markdown) => true,
        (CellType::Raw, CellType::Raw) => true,
        _ => false,
    };
    if !same_type {
        if o.raise_on_first_difference {
            let m = concat(concat3(concat3(concat3("When comparing cell #", nd.as_str(), ": expecting a ").as_str(), en.as_str(), " cell, but got a ").as_str(), tn.as_str(), " cell.\nExpected content:\n").as_str(),
                concat3(e.source.as_str(), "\nActual content:\n", t.source.as_str()).as_str());
            return Err(NotebookDifference::new(m));
        }
        st.0.push(n);
    }
    let tid = option_debug_text(&t.id);
    let eid = option_debug_text(&e.id);
    let ids_differ = o.compare_ids && !opt_eq_id(&t.id, &e.id);
    if ids_differ {
        if o.raise_on_first_difference {
            let m = concat(concat3(concat3("Cell ids differ on ", tn.as_str(), " cell #").as_str(), nd.as_str(), ": '").as_str(),
                concat3(tid.as_str(), "' != '", concat(eid.as_str(), "'").as_str()).as_str());
            return Err(NotebookDifference::new(m));
        }
        st.0.push(n);
    }
    let e_code = match e.cell_type {
        CellType::Code => true,
        _ => false,
    };
    let skip = (e_code && o.allow_missing_code_cell_metadata) || (!e_code && o.allow_missing_markdown_cell_metadata);
    if !skip {
        let rm = if o.allow_filtered_cell_metadata { kept_entries_of(&e.metadata) } else { copy_entries(&e.metadata) };
        let tm = if o.allow_filtered_cell_metadata { kept_entries_of(&t.metadata) } else { copy_entries(&t.metadata) };
        if !same_entries(&rm, &tm) {
            if o.raise_on_first_difference {
                let dt = metadata_debug_text(&tm);
                let dr = metadata_debug_text(&rm);
                let diff = diff_text(dt.as_str(), dr.as_str(), "actual", "expected");
                let m = concat(concat3(concat3("Metadata differ on ", tn.as_str(), " cell #").as_str(), nd.as_str(), ": ").as_str(),
                    concat3(diff.as_str(), "\nCell content:\n", e.source.as_str()).as_str());
                return Err(NotebookDifference::new(m));
            }
            add_differing_keys(&mut st.1, &tm, &rm);
        }
    }
    let rl = nonblank_lines_of(e.source.as_str());
    let tl = nonblank_lines_of(t.source.as_str());
    if !lines_eq(&rl, &tl) {
        if o.raise_on_first_difference {
            let jt = join_strings(&tl, "\n");
            let jr = join_strings(&rl, "\n");
            let diff = diff_text(jt.as_str(), jr.as_str(), "actual", "expected");
            let m = concat(concat3(concat3("Cell content differ on ", tn.as_str(), " cell #").as_str(), nd.as_str(), ": ").as_str(), diff.as_str());
            return Err(NotebookDifference::new(m));
        }
        st.0.push(n);
    }
    if !same_content(e.source.as_str(), t.source.as_str(), o.allow_removed_final_blank_line) && !str_eq(e.source.as_str(), t.source.as_str()) {
        if o.raise_on_first_difference {
            let diff = diff_text(t.source.as_str(), e.source.as_str(), "", "");
            let m = concat(concat3(concat3("Cell content differ on ", tn.as_str(), " cell #").as_str(), nd.as_str(), ": ").as_str(), diff.as_str());
            return Err(NotebookDifference::new(m));
        }
        if !nums_have(&st.0, n) {
            st.0.push(n);
        }
    }
    if o.compare_outputs && e_code {
        let filter = match &o.cell_metadata_filter {
            Some(f) => f.as_str(),
            None => "",
        };
        if !same_outputs(e, t, filter) {
            if o.raise_on_first_difference {
                let m = concat(concat3("Cell outputs differ on ", tn.as_str(), " cell #").as_str(), nd.as_str());
                return Err(NotebookDifference::new(m));
            }
            if !nums_have(&st.0, n) {
                st.0.push(n);
            }
        }
    }
    Ok(())
}

fn opt_eq_id(a: &Option<String>, b: &Option<String>) -> (r: bool)
    ensures
        r == ((match a {
            Some(s) => Some(s@),
            None => None::<Seq<char>>,
        }) == (match b {
            Some(s) => Some(s@),
            None => None::<Seq<char>>,
        })),
{
    opt_string_eq(a, b)
}

} // verus!

verus! {

/// All the cells have metadata without a key twice.
pub open spec fn valid_cells(cs: Seq<Cell>) -> bool {
    forall|i: int| 0 <= i < cs.len() ==> valid_entries(#[trigger] cs[i].metadata@)
}

/// Compares the cells of a notebook (`actual`) with the expected ones: the numbers of the
/// cells that differ (from 1) and the cell metadata keys that differ; with
/// `raise_on_first_difference`, the first difference found.
pub fn compare_cells(actual: &[Cell], expected: &[Cell], o: &CompareOptions) -> (r: Result<(Vec<usize>, Vec<String>), NotebookDifference>)
    requires
        valid_cells(actual@),
        valid_cells(expected@),
        expected@.len() + actual@.len() < usize::MAX,
    ensures
        match compared_cells(actual@, expected@, *o) {
            Ok(s) => r matches Ok(v) && (v.0@, views(v.1@)) == s,
            Err(m) => r matches Err(d) && d.message@ == m,
        },
{
    proof {
        reveal_strlit("No cell corresponding to ");
        reveal_strlit(" cell #");
        reveal_strlit(":\n");
        reveal_strlit("Additional ");
        reveal_strlit(" cell: ");
    }
    let mut st: (Vec<usize>, Vec<String>) = (Vec::new(), Vec::new());
    assert(state_view(&st) =~= (Seq::<usize>::empty(), Seq::<Seq<char>>::empty()));
    let mut k: usize = 0;
    while k < expected.len()
        invariant
            k <= expected@.len(),
            valid_cells(actual@),
            valid_cells(expected@),
            expected@.len() + actual@.len() < usize::MAX,
            compared_upto(actual@, expected@, *o, k as int) == Ok::<CompareState, Seq<char>>(state_view(&st)),
            k <= actual@.len(),
        decreases expected.len() - k,
    {
        if k < actual.len() {
            let ghost st0 = state_view(&st);
            match compare_one_of(&actual[k], &expected[k], k + 1, o, &mut st) {
                Err(d) => {
                    proof {
                        assert(compared_upto(actual@, expected@, *o, (k + 1) as int) == Err::<CompareState, Seq<char>>(d.message@));
                        lemma_compared_err(actual@, expected@, *o, (k + 1) as int, d.message@);
                    }
                    return Err(d);
                },
                Ok(()) => {},
            }
        } else {
            if o.raise_on_first_difference {
                let tn = expected[k].cell_type.to_string();
                let nd = decimal_text(k + 1);
                let m = concat(concat3(concat3("No cell corresponding to ", tn.as_str(), " cell #").as_str(), nd.as_str(), ":\n").as_str(), expected[k].source.as_str());
                proof {
                    assert(compared_upto(actual@, expected@, *o, (k + 1) as int) == Err::<CompareState, Seq<char>>(m@));
                    lemma_compared_err(actual@, expected@, *o, (k + 1) as int, m@);
                }
                return Err(NotebookDifference::new(m));
            }
            let ghost before = st.0@;
            let ghost before1 = views(st.1@);
            let mut j: usize = k + 1;
            while j <= expected.len()
                invariant
                    k + 1 <= j <= expected@.len() + 1,
                    expected@.len() + actual@.len() < usize::MAX,
                    st.0@ == before + numbers_from(k + 1, j - 1),
                    views(st.1@) == before1,
                decreases expected.len() + 1 - j,
            {
                st.0.push(j);
                j += 1;
            }
            assert(compared_upto(actual@, expected@, *o, (k + 1) as int) == Ok::<CompareState, Seq<char>>(state_view(&st)));
            let ghost fin = state_view(&st);
            proof {
                lemma_compared_after_break(actual@, expected@, *o, (k + 1) as int, fin);
            }
            return Ok(st);
        }
        k += 1;
    }
    if actual.len() > expected.len() {
        if o.raise_on_first_difference {
            let c = &actual[expected.len()];
            let m = concat(concat3("Additional ", c.cell_type.to_string().as_str(), " cell: ").as_str(), c.source.as_str());
            return Err(NotebookDifference::new(m));
        }
        let ghost before = st.0@;
        let ghost before1 = views(st.1@);
        let mut j: usize = expected.len() + 1;
        while j <= actual.len()
            invariant
                expected@.len() + 1 <= j <= actual@.len() + 1,
                expected@.len() + actual@.len() < usize::MAX,
                views(st.1@) == before1,
                st.0@ == before + numbers_from(expected@.len() + 1int, j - 1),
            decreases actual.len() + 1 - j,
        {
            st.0.push(j);
            j += 1;
        }
    }
    Ok(st)
}

/// A difference found among the first `k` cells is the one reported.
proof fn lemma_compared_err(actual: Seq<Cell>, expected: Seq<Cell>, o: CompareOptions, k: int, m: Seq<char>)
    requires
        0 <= k <= expected.len(),
        compared_upto(actual, expected, o, k) == Err::<CompareState, Seq<char>>(m),
    ensures
        compared_cells(actual, expected, o) == Err::<CompareState, Seq<char>>(m),
    decreases expected.len() - k,
{
    if k < expected.len() {
        assert(compared_upto(actual, expected, o, k + 1) == Err::<CompareState, Seq<char>>(m));
        lemma_compared_err(actual, expected, o, k + 1, m);
    }
}

/// After the first missing cell, the comparison goes no further.
proof fn lemma_compared_after_break(actual: Seq<Cell>, expected: Seq<Cell>, o: CompareOptions, k: int, st: CompareState)
    requires
        actual.len() < k <= expected.len(),
        compared_upto(actual, expected, o, k) == Ok::<CompareState, Seq<char>>(st),
    ensures
        compared_cells(actual, expected, o) == Ok::<CompareState, Seq<char>>(st),
    decreases expected.len() - k,
{
    if k < expected.len() {
        assert(compared_upto(actual, expected, o, k + 1) == Ok::<CompareState, Seq<char>>(st));
        lemma_compared_after_break(actual, expected, o, k + 1, st);
    }
}


/// The notebook metadata filter that the notebook's `jupytext` metadata records.
pub open spec fn recorded_notebook_filter(m: Seq<(Seq<char>, Seq<char>)>) -> Seq<char> {
    match sub_string(m, "jupytext"@, "notebook_metadata_filter"@) {
        Some(f) => f,
        None => Seq::empty(),
    }
}

/// The notebook metadata that a comparison looks at: what the notebook's own notebook
/// metadata filter keeps, without `kernelspec` when it is ignored, and without `jupytext`.
pub open spec fn notebook_metadata_compared(m: Seq<(Seq<char>, Seq<char>)>, ignore_kernelspec: bool) -> Seq<(Seq<char>, Seq<char>)> {
    let kept = crate::notebook_writer::kept_entries(m, recorded_notebook_filter(m));
    let k1 = if ignore_kernelspec {
        without_entry(kept, "kernelspec"@)
    } else {
        kept
    };
    without_entry(k1, "jupytext"@)
}

/// The format name of optional format options (empty without one).
pub open spec fn format_name_of(fmt: Map<Seq<char>, Seq<char>>) -> Seq<char> {
    match fmt_entry(fmt, "format_name"@) {
        Some(n) => n,
        None => Seq::empty(),
    }
}

/// The options with which the cells of two notebooks are compared, for the format `name`:
/// no outputs nor ids; the cell metadata filter of the actual notebook (all of it left out
/// for marimo); the differences that the format is expected to make allowed when asked.
pub open spec fn notebook_compare_options(o: CompareOptions, actual_meta: Seq<(Seq<char>, Seq<char>)>, name: Seq<char>, allow: bool, raise: bool) -> bool {
    &&& o.raise_on_first_difference == raise
    &&& !o.compare_outputs
    &&& !o.compare_ids
    &&& (match o.cell_metadata_filter {
        Some(f) => Some(f@),
        None => None,
    }) == if name == "marimo"@ {
        Some("-all"@)
    } else {
        sub_string(actual_meta, "jupytext"@, "cell_metadata_filter"@)
    }
    &&& o.allow_missing_code_cell_metadata == (allow && (name == "sphinx"@ || name == "marimo"@))
    &&& o.allow_missing_markdown_cell_metadata == (allow && (name == "sphinx"@ || name == "spin"@ || name == "marimo"@))
    &&& o.allow_filtered_cell_metadata == allow
    &&& o.allow_removed_final_blank_line == allow
}

/// The cells of the actual notebook that are compared: without the first `%matplotlib
/// inline` cell of a Sphinx Gallery notebook.
pub open spec fn compared_actual_cells(cs: Seq<Cell>, name: Seq<char>) -> Seq<Cell> {
    if name == "sphinx"@ && cs.len() > 0 && cs[0].source@ == "%matplotlib inline"@ {
        cs.drop_first()
    } else {
        cs
    }
}

/// The parts of the message of the differences found: the numbers of the cells that
/// differ (out of `n`), the cell metadata keys that differ, and whether the notebook
/// metadata differ.
pub open spec fn difference_parts(cells: Seq<usize>, keys: Seq<Seq<char>>, n: nat, meta_differ: bool) -> Seq<Seq<char>> {
    (if cells.len() > 0 {
        seq![
            "Cells "@ + join(cells.map_values(|c: usize| decimal(c as nat)), ","@) + " differ ("@ + decimal(cells.len()) + "/"@
                + decimal(n) + ")"@,
        ]
    } else {
        Seq::empty()
    }) + (if keys.len() > 0 {
        seq!["Cell metadata '"@ + join(keys, "', '"@) + "' differ"@]
    } else {
        Seq::empty()
    }) + (if meta_differ {
        seq!["Notebook metadata differ"@]
    } else {
        Seq::empty()
    })
}

/// The comparison of two notebooks with the cell options `o`: the first difference (with
/// `raise`), or all the differences found, as a message; nothing when they agree.
pub open spec fn notebooks_compared(actual: Notebook, expected: Notebook, fmt: Map<Seq<char>, Seq<char>>, allow: bool, raise: bool, o: CompareOptions) -> Result<(), Seq<char>> {
    let name = format_name_of(fmt);
    match compared_cells(compared_actual_cells(actual.cells@, name), expected.cells@, o) {
        Err(m) => Err(m),
        Ok(st) => {
            let ignore = fmt_entry(fmt, "extension"@) == Some(".qmd"@) && allow;
            let ma = notebook_metadata_compared(entries_view(actual.metadata@), ignore);
            let me = notebook_metadata_compared(entries_view(expected.metadata@), ignore);
            let differ = name != "marimo"@ && crate::format_map::map_of(ma) != crate::format_map::map_of(me);
            if differ && raise {
                Err("Notebook metadata differ: "@ + match compare_spec(metadata_debug(ma), metadata_debug(me), "actual"@, "expected"@, true) {
                    Ok(d) => d,
                    Err(_) => Seq::empty(),
                })
            } else if st.0.len() > 0 || st.1.len() > 0 || differ {
                Err(join(difference_parts(st.0, st.1, expected.cells@.len(), differ), " | "@))
            } else {
                Ok(())
            }
        },
    }
}

/// The plain value of the outcome of a comparison.
pub open spec fn outcome_view(r: Result<(), NotebookDifference>) -> Result<(), Seq<char>> {
    match r {
        Ok(()) => Ok(()),
        Err(d) => Err(d.message@),
    }
}

/// The format options given, or none.
pub open spec fn given_fmt(fmt: Option<&FormatMap>) -> Map<Seq<char>, Seq<char>> {
    match fmt {
        Some(f) => f@,
        None => Map::empty(),
    }
}

/// The notebook metadata that a comparison looks at (see `notebook_metadata_compared`).
fn notebook_metadata_compared_of(m: &Vec<(String, String)>, ignore_kernelspec: bool) -> (r: Vec<(String, String)>)
    requires
        valid_entries(m@),
    ensures
        entry_views(r@) == notebook_metadata_compared(entries_view(m@), ignore_kernelspec),
        valid_entries(r@),
{
    proof {
        reveal_strlit("kernelspec");
        reveal_strlit("jupytext");
        reveal_strlit("notebook_metadata_filter");
        reveal_strlit("");
        assert(entry_views(m@) =~= entries_view(m@));
    }
    let user = match sub_string_of(m, "jupytext", "notebook_metadata_filter") {
        Some(f) => f,
        None => String::new(),
    };
    let mut kept = crate::notebook_writer::kept_by_filter(m, user.as_str());
    proof {
        assert(entry_views(kept@) =~= entries_view(kept@));
        lemma_without_entry_distinct(entry_views(kept@), "kernelspec"@);
    }
    if ignore_kernelspec {
        remove_entry(&mut kept, "kernelspec");
    }
    proof {
        assert(entry_views(kept@) =~= entries_view(kept@));
        lemma_without_entry_distinct(entry_views(kept@), "jupytext"@);
    }
    remove_entry(&mut kept, "jupytext");
    assert(entry_views(kept@) =~= entries_view(kept@));
    kept
}

/// Removing an entry keeps the keys distinct.
proof fn lemma_without_entry_distinct(m: Seq<(Seq<char>, Seq<char>)>, k: Seq<char>)
    requires
        crate::format_map::distinct_keys(m),
    ensures
        crate::format_map::distinct_keys(without_entry(m, k)),
{
    match crate::json::key_index(m, k) {
        Some(i) => {
            crate::json::lemma_key_index(m, k);
            let r = m.remove(i);
            assert forall|x: int, y: int| 0 <= x < y < r.len() implies r[x].0 != r[y].0 by {
                let a = if x < i { x } else { x + 1 };
                let b = if y < i { y } else { y + 1 };
                assert(r[x] == m[a]);
                assert(r[y] == m[b]);
            }
        },
        None => {},
    }
}

/// The message of the differences found (see `difference_parts`).
fn difference_message(cells: &Vec<usize>, keys: &Vec<String>, n: usize, meta_differ: bool) -> (r: String)
    ensures
        r@ == join(difference_parts(cells@, views(keys@), n as nat, meta_differ), " | "@),
{
    proof {
        reveal_strlit("Cells ");
        reveal_strlit(",");
        reveal_strlit(" differ (");
        reveal_strlit("/");
        reveal_strlit(")");
        reveal_strlit("Cell metadata '");
        reveal_strlit("', '");
        reveal_strlit("' differ");
        reveal_strlit("Notebook metadata differ");
        reveal_strlit(" | ");
    }
    let mut parts: Vec<String> = Vec::new();
    if cells.len() > 0 {
        let mut nums: Vec<String> = Vec::new();
        let mut i: usize = 0;
        while i < cells.len()
            invariant
                i <= cells@.len(),
                views(nums@) == cells@.take(i as int).map_values(|c: usize| decimal(c as nat)),
            decreases cells.len() - i,
        {
            nums.push(decimal_text(cells[i]));
            assert(cells@.take(i + 1).map_values(|c: usize| decimal(c as nat)) =~= cells@.take(i as int).map_values(|c: usize| decimal(c as nat)).push(decimal(cells@[i as int] as nat)));
            i += 1;
        }
        assert(cells@.take(cells@.len() as int) =~= cells@);
        let joined = join_strings(nums.as_slice(), ",");
        let a = concat3("Cells ", joined.as_str(), " differ (");
        let b = concat3(a.as_str(), decimal_text(cells.len()).as_str(), "/");
        let c = concat3(b.as_str(), decimal_text(n).as_str(), ")");
        parts.push(c);
    }
    if keys.len() > 0 {
        let joined = join_strings(keys.as_slice(), "', '");
        parts.push(concat3("Cell metadata '", joined.as_str(), "' differ"));
    }
    if meta_differ {
        parts.push(owned("Notebook metadata differ"));
    }
    proof {
        let p = difference_parts(cells@, views(keys@), n as nat, meta_differ);
        assert(views(parts@) =~= p);
    }
    join_strings(parts.as_slice(), " | ")
}

/// Compares a notebook (`actual`) with the expected one, in the format `fmt`: their cells
/// (see `compare_cells`), then their notebook metadata (but for marimo); the differences
/// that the format is expected to make are allowed with `allow_expected_differences`.
/// With `raise_on_first_difference` the first difference is the error; otherwise all
/// the differences found are.
#[verifier::rlimit(40)]
pub fn compare_notebooks(
    actual: &Notebook,
    expected: &Notebook,
    fmt: Option<&FormatMap>,
    allow_expected_differences: bool,
    raise_on_first_difference: bool,
) -> (r: Result<(), NotebookDifference>)
    requires
        valid_cells(actual.cells@),
        valid_cells(expected.cells@),
        valid_entries(actual.metadata@),
        valid_entries(expected.metadata@),
        expected.cells@.len() + actual.cells@.len() < usize::MAX,
    ensures
        exists|o: CompareOptions|
            notebook_compare_options(
                o,
                entries_view(actual.metadata@),
                format_name_of(given_fmt(fmt)),
                allow_expected_differences,
                raise_on_first_difference,
            ) && outcome_view(r) == #[trigger] notebooks_compared(
                *actual,
                *expected,
                given_fmt(fmt),
                allow_expected_differences,
                raise_on_first_difference,
                o,
            ),
{
    proof {
        reveal_strlit("format_name");
        reveal_strlit("extension");
        reveal_strlit("sphinx");
        reveal_strlit("marimo");
        reveal_strlit("spin");
        reveal_strlit("-all");
        reveal_strlit("jupytext");
        reveal_strlit("cell_metadata_filter");
        reveal_strlit("%matplotlib inline");
        reveal_strlit(".qmd");
        reveal_strlit("Notebook metadata differ: ");
        reveal_strlit("actual");
        reveal_strlit("expected");
        reveal_strlit("");
    }
    let name: String = match fmt {
        Some(f) => match f.get("format_name") {
            Some(n) => n,
            None => String::new(),
        },
        None => String::new(),
    };
    assert(name@ == format_name_of(given_fmt(fmt)));
    let ext: Option<String> = match fmt {
        Some(f) => f.get("extension"),
        None => None,
    };
    let is_sphinx = str_eq(name.as_str(), "sphinx");
    let is_marimo = str_eq(name.as_str(), "marimo");
    let acells: &[Cell] = if is_sphinx && actual.cells.len() > 0 && str_eq(actual.cells[0].source.as_str(), "%matplotlib inline") {
        vstd::slice::slice_subrange(actual.cells.as_slice(), 1, actual.cells.len())
    } else {
        actual.cells.as_slice()
    };
    assert(acells@ =~= compared_actual_cells(actual.cells@, name@));
    let cmf = if is_marimo {
        Some(owned("-all"))
    } else {
        proof {
            assert(entry_views(actual.metadata@) =~= entries_view(actual.metadata@));
        }
        sub_string_of(&actual.metadata, "jupytext", "cell_metadata_filter")
    };
    let allow = allow_expected_differences;
    let o = CompareOptions {
        raise_on_first_difference,
        compare_outputs: false,
        compare_ids: false,
        cell_metadata_filter: cmf,
        allow_missing_code_cell_metadata: allow && (is_sphinx || is_marimo),
        allow_missing_markdown_cell_metadata: allow && (is_sphinx || str_eq(name.as_str(), "spin") || is_marimo),
        allow_filtered_cell_metadata: allow,
        allow_removed_final_blank_line: allow,
    };
    assert(notebook_compare_options(o, entries_view(actual.metadata@), name@, allow, raise_on_first_difference));
    assert(valid_cells(acells@)) by {
        assert forall|i: int| 0 <= i < acells@.len() implies valid_entries(#[trigger] acells@[i].metadata@) by {
            if acells@.len() < actual.cells@.len() {
                assert(acells@[i] == actual.cells@[i + 1]);
            } else {
                assert(acells@[i] == actual.cells@[i]);
            }
        }
    }
    let st = match compare_cells(acells, expected.cells.as_slice(), &o) {
        Ok(st) => st,
        Err(d) => {
            assert(outcome_view(Err(d)) == notebooks_compared(*actual, *expected, given_fmt(fmt), allow, raise_on_first_difference, o));
            return Err(d);
        },
    };
    let ignore = match &ext {
        Some(e) => str_eq(e.as_str(), ".qmd"),
        None => false,
    } && allow;
    let ma = notebook_metadata_compared_of(&actual.metadata, ignore);
    let me = notebook_metadata_compared_of(&expected.metadata, ignore);
    let differ = !is_marimo && !same_entries(&ma, &me);
    proof {
        assert(entry_views(ma@) =~= entries_view(ma@));
        assert(entry_views(me@) =~= entries_view(me@));
    }
    if differ && raise_on_first_difference {
        let da = metadata_debug_text(&ma);
        let de = metadata_debug_text(&me);
        let d = match compare(da.as_str(), de.as_str(), "actual", "expected", true) {
            Ok(d) => d,
            Err(_) => String::new(),
        };
        return Err(NotebookDifference::new(concat("Notebook metadata differ: ", d.as_str())));
    }
    assert(ignore == (fmt_entry(given_fmt(fmt), "extension"@) == Some(".qmd"@) && allow));
    assert(differ == (name@ != "marimo"@ && crate::format_map::map_of(notebook_metadata_compared(entries_view(actual.metadata@), ignore)) != crate::format_map::map_of(notebook_metadata_compared(entries_view(expected.metadata@), ignore))));
    if st.0.len() > 0 || st.1.len() > 0 || differ {
        let m = difference_message(&st.0, &st.1, expected.cells.len(), differ);
        let r = Err(NotebookDifference::new(m));
        assert(outcome_view(r) == notebooks_compared(*actual, *expected, given_fmt(fmt), allow, raise_on_first_difference, o));
        return r;
    }
    assert(outcome_view(Ok(())) == notebooks_compared(*actual, *expected, given_fmt(fmt), allow, raise_on_first_difference, o));
    Ok(())
}

} // verus!
