//! Notebooks written as text: the shebang and encoding lines, the YAML header made of the
//! notebook metadata, then the text of each cell from the cell exporter of the format,
//! with the blank lines between cells.

use vstd::prelude::*;
use crate::cell_export::{
    custom_magics, exported_keys, fmt_entry, fmt_ext, fmt_flag, hashes, opt_seq, sphinx_state, sphinx_text, triple_double, triple_single, with_key, ExporterCell,
    SphinxGalleryCellExporter,
};
use crate::cell_metadata::CellActivity;
use crate::cell_to_text::source_lines;
use crate::format_map::FormatMap;
use crate::formats::{
    format_table, get_format_implementation, implementation_error, implementation_index, normalised_ext,
    ExporterType, NotebookLanguage,
};
use crate::json::{
    entry_of, entry_text, entry_views, json_entries, json_object, json_object_entries, json_object_text,
    json_string_of, json_string_value, json_u64_of, json_u64_value, remove_sub_entry, sub_string, sub_string_of,
    without_sub_entry, yaml_mapping, yaml_mapping_text,
};
use crate::languages::{cell_language_of, comment_lines, commented, default_language_for, default_language_from_metadata_and_ext, script_entry, script_language_for_ext};
use crate::metadata_filter::{filter_metadata, kept_metadata_key, DEFAULT_NOTEBOOK_METADATA};
use crate::notebook::{cells_view, entries_view, Cell, CellType, Notebook};
use crate::notebook_io::{external_format, external_message, CellTuple, JupytextError};
use crate::pep8::{pep8_lines, pep8_lines_between_cells};
use crate::text::{concat, has_prefix, join, join_strings, lines, lines_of, owned, str_eq, trim, trim_str, views};

verus! {

broadcast use crate::text::views_push;

/// The string that the entry `k` holds.
pub open spec fn entry_string(m: Seq<(Seq<char>, Seq<char>)>, k: Seq<char>) -> Option<Seq<char>> {
    match entry_of(m, k) {
        Some(t) => json_string_value(t),
        None => None,
    }
}

/// The count that the entry `k` holds: a JSON integer that `as_u64` reads and that fits in
/// `usize`.
pub open spec fn entry_count(m: Seq<(Seq<char>, Seq<char>)>, k: Seq<char>) -> Option<usize> {
    match entry_of(m, k) {
        Some(t) => match json_u64_value(t) {
            Some(n) => if n <= usize::MAX {
                Some(n as usize)
            } else {
                None
            },
            None => None,
        },
        None => None,
    }
}

/// The keys of metadata entries, in order.
pub open spec fn entry_keys(m: Seq<(Seq<char>, Seq<char>)>) -> Seq<Seq<char>> {
    m.map_values(|p: (Seq<char>, Seq<char>)| p.0)
}

/// The Sphinx Gallery text of a cell of type `t`, with the source `source` and the metadata
/// `m`, for the default language `dl` and the format options `fmt`: a code cell is its
/// source (without a leading cell magic) with its magics commented; a text cell is written
/// with the marker of its `cell_marker` entry, or the line of 79 hash signs.
pub open spec fn sphinx_cell_text(
    t: CellType,
    source: Seq<char>,
    m: Seq<(Seq<char>, Seq<char>)>,
    dl: Seq<char>,
    fmt: Map<Seq<char>, Seq<char>>,
) -> Seq<Seq<char>> {
    let lm = cell_language_of(source_lines(source), dl, custom_magics(fmt));
    let src = if lm is Some {
        source_lines(source).drop_first()
    } else {
        source_lines(source)
    };
    let language = match lm {
        Some(x) => x.0,
        None => match entry_string(m, "language"@) {
            Some(l) => l,
            None => dl,
        },
    };
    let cm = match fmt_flag(fmt, "comment_magics"@) {
        Some(b) => b,
        None => true,
    };
    let marker = match entry_string(m, "cell_marker"@) {
        Some(x) => x,
        None => hashes(79),
    };
    let suffix = match script_entry(fmt_ext(fmt)) {
        Some(e) => e.2,
        None => Seq::empty(),
    };
    if t == CellType::Code {
        crate::magics::magics_toggled(src, language, cm, true, true)
    } else if src == seq![Seq::<char>::empty()] {
        if marker == seq!['"', '"'] || marker == seq!['\'', '\''] {
            seq![marker]
        } else {
            seq![seq!['"', '"']]
        }
    } else if marker == triple_double() || marker == triple_single() {
        seq![marker] + src + seq![marker]
    } else {
        seq![
            if has_prefix(marker, hashes(20)) {
                marker
            } else {
                hashes(79)
            },
        ] + commented(src, "#"@, suffix)
    }
}

/// The exporter cell of a notebook cell: its type, source and metadata keys, and the
/// language, cell marker and counts that its metadata holds.
pub open spec fn exports_cell(x: ExporterCell, t: CellType, source: Seq<char>, m: Seq<(Seq<char>, Seq<char>)>) -> bool {
    &&& x.cell_type == t
    &&& x.source@ == source
    &&& views(x.metadata_keys@) == entry_keys(m)
    &&& opt_seq(x.language) == entry_string(m, "language"@)
    &&& opt_seq(x.cell_marker) == entry_string(m, "cell_marker"@)
    &&& x.lines_to_next_cell == entry_count(m, "lines_to_next_cell"@)
    &&& x.lines_to_end_of_cell_marker == entry_count(m, "lines_to_end_of_cell_marker"@)
}

/// A key that `entry_of` finds is among the keys.
proof fn lemma_entry_key(m: Seq<(Seq<char>, Seq<char>)>, k: Seq<char>)
    requires
        entry_of(m, k) is Some,
    ensures
        entry_keys(m).contains(k),
{
    crate::json::lemma_key_index(m, k);
    let i = key_index_of(m, k);
    assert(entry_keys(m)[i] == k);
}

/// The position that `key_index` gives.
spec fn key_index_of(m: Seq<(Seq<char>, Seq<char>)>, k: Seq<char>) -> int {
    match crate::json::key_index(m, k) {
        Some(i) => i,
        None => 0,
    }
}

/// The Sphinx Gallery exporter built for the exporter cell of a notebook cell writes
/// `sphinx_cell_text`.
proof fn lemma_sphinx_text(e: SphinxGalleryCellExporter, x: ExporterCell, m: Seq<(Seq<char>, Seq<char>)>, dl: Seq<char>, fmt: Map<Seq<char>, Seq<char>>)
    requires
        sphinx_state(e, x, dl, fmt),
        exports_cell(x, x.cell_type, x.source@, m),
    ensures
        sphinx_text(e) == sphinx_cell_text(x.cell_type, x.source@, m, dl, fmt),
{
    reveal_strlit("cell_marker");
    reveal_strlit("language");
    reveal_strlit("comment_magics");
    let keys = exported_keys(x, dl, fmt, true);
    if x.cell_marker is Some {
        lemma_entry_key(m, "cell_marker"@);
        assert(views(x.metadata_keys@).contains("cell_marker"@));
        assert(views(e.data.metadata_keys@) == with_key(keys, "cell_marker"@));
        if !keys.contains("cell_marker"@) {
            assert(keys.push("cell_marker"@)[keys.len() as int] == "cell_marker"@);
        }
        assert(views(e.data.metadata_keys@).contains("cell_marker"@));
    }
}

/// The exporter cell of a notebook cell.
fn exporter_cell_of(c: &Cell) -> (r: ExporterCell)
    ensures
        exports_cell(r, c.cell_type, c.source@, entries_view(c.metadata@)),
{
    proof {
        reveal_strlit("language");
        reveal_strlit("cell_marker");
        reveal_strlit("lines_to_next_cell");
        reveal_strlit("lines_to_end_of_cell_marker");
        reveal_strlit("tags");
        reveal_strlit("[]");
    }
    let ghost mv = entries_view(c.metadata@);
    assert(entry_views(c.metadata@) =~= mv);
    let mut keys: Vec<String> = Vec::new();
    let mut i: usize = 0;
    while i < c.metadata.len()
        invariant
            i <= c.metadata@.len(),
            mv == entries_view(c.metadata@),
            views(keys@) == entry_keys(mv).take(i as int),
        decreases c.metadata.len() - i,
    {
        keys.push(owned(c.metadata[i].0.as_str()));
        assert(entry_keys(mv).take(i + 1) =~= entry_keys(mv).take(i as int).push(mv[i as int].0));
        i += 1;
    }
    assert(entry_keys(mv).take(c.metadata@.len() as int) =~= entry_keys(mv));
    let language = match entry_text(&c.metadata, "language") {
        Some(t) => json_string_of(t.as_str()),
        None => None,
    };
    let cell_marker = match entry_text(&c.metadata, "cell_marker") {
        Some(t) => json_string_of(t.as_str()),
        None => None,
    };
    let lines_to_next_cell = count_of(&c.metadata, "lines_to_next_cell");
    let lines_to_end_of_cell_marker = count_of(&c.metadata, "lines_to_end_of_cell_marker");
    let empty_tags = match entry_text(&c.metadata, "tags") {
        Some(t) => str_eq(t.as_str(), "[]"),
        None => false,
    };
    let cell_type = match c.cell_type {
        CellType::Code => CellType::Code,
        CellType::Markdown => CellType::Markdown,
        CellType::Raw => CellType::Raw,
    };
    ExporterCell {
        cell_type,
        source: owned(c.source.as_str()),
        metadata_keys: keys,
        empty_tags,
        activity: CellActivity { frozen: false, tags: Vec::new(), active: None },
        language,
        cell_marker,
        lines_to_next_cell,
        lines_to_end_of_cell_marker,
    }
}

/// The count that the entry `k` holds (see `entry_count`).
fn count_of(m: &Vec<(String, String)>, k: &str) -> (r: Option<usize>)
    ensures
        r == entry_count(entry_views(m@), k@),
{
    match entry_text(m, k) {
        Some(t) => match json_u64_of(t.as_str()) {
            Some(n) => if n <= usize::MAX as u64 {
                Some(n as usize)
            } else {
                None
            },
            None => None,
        },
        None => None,
    }
}

/// The Sphinx Gallery text of a notebook cell (see `sphinx_cell_text`).
pub fn sphinx_cell_lines(c: &Cell, dl: &str, fmt: &FormatMap) -> (r: Vec<String>)
    requires
        fmt_flag(fmt@, "rst2md"@) != Some(true),
    ensures
        views(r@) == sphinx_cell_text(c.cell_type, c.source@, entries_view(c.metadata@), dl@, fmt@),
{
    let x = exporter_cell_of(c);
    let mut e = SphinxGalleryCellExporter::new(&x, dl, fmt);
    proof {
        lemma_sphinx_text(e, x, entries_view(c.metadata@), dl@, fmt@);
    }
    e.cell_to_text()
}


/// `n` empty lines.
pub open spec fn blanks(n: nat) -> Seq<Seq<char>> {
    Seq::new(n, |i: int| Seq::<char>::empty())
}

/// The metadata holds a `jupytext` object.
pub open spec fn has_jupytext_object(m: Seq<(Seq<char>, Seq<char>)>) -> bool {
    match entry_of(m, "jupytext"@) {
        Some(t) => json_object_entries(t) is Some,
        None => false,
    }
}

/// The shebang and encoding lines of a script: for a script extension and metadata with a
/// `jupytext` object, `#!` and the `executable` string of that object, then its `encoding`
/// string.
pub open spec fn script_lines(m: Seq<(Seq<char>, Seq<char>)>, ext: Seq<char>) -> Seq<Seq<char>> {
    if script_entry(ext) is Some && has_jupytext_object(m) {
        (match sub_string(m, "jupytext"@, "executable"@) {
            Some(x) => seq!["#!"@ + x],
            None => Seq::empty(),
        }) + (match sub_string(m, "jupytext"@, "encoding"@) {
            Some(x) => seq![x],
            None => Seq::empty(),
        })
    } else {
        Seq::empty()
    }
}

/// The metadata without the `executable` and `encoding` entries of its `jupytext` object,
/// which the script lines take.
pub open spec fn metadata_after_script(m: Seq<(Seq<char>, Seq<char>)>, ext: Seq<char>) -> Seq<(Seq<char>, Seq<char>)> {
    if script_entry(ext) is Some && has_jupytext_object(m) {
        without_sub_entry(without_sub_entry(m, "jupytext"@, "executable"@), "jupytext"@, "encoding"@)
    } else {
        m
    }
}

/// The notebook metadata filter of the format options.
pub open spec fn notebook_filter(fmt: Map<Seq<char>, Seq<char>>) -> Seq<char> {
    match fmt_entry(fmt, "notebook_metadata_filter"@) {
        Some(f) => f,
        None => Seq::empty(),
    }
}

/// The metadata entries that the notebook metadata filter `user` keeps, in order.
pub open spec fn kept_entries(m: Seq<(Seq<char>, Seq<char>)>, user: Seq<char>) -> Seq<(Seq<char>, Seq<char>)> {
    let empty_tags = entry_of(m, "tags"@) == Some("[]"@);
    m.filter(|p: (Seq<char>, Seq<char>)| kept_metadata_key(p.0, empty_tags, user, DEFAULT_NOTEBOOK_METADATA@))
}

/// The metadata entries that the notebook metadata filter of the format keeps, in order.
pub open spec fn kept_notebook_entries(m: Seq<(Seq<char>, Seq<char>)>, fmt: Map<Seq<char>, Seq<char>>) -> Seq<(Seq<char>, Seq<char>)> {
    kept_entries(m, notebook_filter(fmt))
}

/// The YAML lines of the header: the kept metadata under `jupyter`, as `serde_yaml` writes
/// it, trimmed; none when nothing is kept or `serde_yaml` fails.
pub open spec fn yaml_lines(m: Seq<(Seq<char>, Seq<char>)>, fmt: Map<Seq<char>, Seq<char>>) -> Seq<Seq<char>> {
    let kept = kept_notebook_entries(m, fmt);
    if kept.len() == 0 {
        Seq::empty()
    } else {
        match yaml_mapping_text(seq![("jupyter"@, json_object_text(kept))]) {
            Some(y) => lines_of(trim(y)),
            None => Seq::empty(),
        }
    }
}

/// The header of a text notebook: the YAML lines between `---` lines, inside an HTML
/// comment when the format hides the notebook metadata, each line commented with the
/// header prefix and suffix; nothing when there are no YAML lines.
pub open spec fn header_text(m: Seq<(Seq<char>, Seq<char>)>, fmt: Map<Seq<char>, Seq<char>>, prefix: Seq<char>, suffix: Seq<char>) -> Seq<Seq<char>> {
    let y = yaml_lines(m, fmt);
    if y.len() == 0 {
        Seq::empty()
    } else {
        let full = seq!["---"@] + y + seq!["---"@];
        let wrapped = if fmt_flag(fmt, "hide_notebook_metadata"@) == Some(true) {
            seq!["<!--"@, Seq::<char>::empty()] + full + seq![Seq::<char>::empty(), "-->"@]
        } else {
            full
        };
        commented(wrapped, prefix, suffix)
    }
}

/// The Sphinx Gallery texts of the cells.
pub open spec fn cell_texts(cs: Seq<CellTuple>, dl: Seq<char>, fmt: Map<Seq<char>, Seq<char>>) -> Seq<Seq<Seq<char>>> {
    cs.map_values(|c: CellTuple| sphinx_cell_text(c.0, c.1, c.2, dl, fmt))
}

/// The text of a `%matplotlib inline` cell, which Sphinx Gallery scripts leave out.
pub open spec fn matplotlib_text(t: Seq<Seq<char>>) -> bool {
    t == seq!["%matplotlib inline"@] || t == seq!["# %matplotlib inline"@]
}

/// The lines of the cells from the `i`-th on: the text of each cell, its blank lines (its
/// `lines_to_next_cell` count, else the PEP8 count before what follows), and `""` between
/// two code cells; a first cell that is `%matplotlib inline` is left out.
pub open spec fn cells_lines(ts: Seq<Seq<Seq<char>>>, cs: Seq<CellTuple>, i: int, ext: Seq<char>) -> Seq<Seq<char>>
    decreases ts.len() - i,
{
    if i < 0 || i >= ts.len() {
        Seq::empty()
    } else {
        let rest = cells_lines(ts, cs, i + 1, ext);
        if i == 0 && matplotlib_text(ts[0]) {
            rest
        } else {
            let b = match entry_count(cs[i].2, "lines_to_next_cell"@) {
                Some(n) => n as nat,
                None => pep8_lines(ts[i], rest, ext) as nat,
            };
            let sep = if cs[i].0 == CellType::Code && i + 1 < ts.len() && cs[i + 1].0 == CellType::Code {
                seq!["\"\""@]
            } else {
                Seq::empty()
            };
            ts[i] + blanks(b) + sep + rest
        }
    }
}

/// The message for a format whose cells this library cannot write.
pub open spec fn no_writer_message(name: Seq<char>) -> Seq<char> {
    "The cells of the '"@ + name + "' format cannot be written by this library."@
}

/// The format options choose the Sphinx Gallery writer.
pub open spec fn sphinx_writer(fmt: Map<Seq<char>, Seq<char>>) -> bool {
    let ext = match fmt_entry(fmt, "extension"@) {
        Some(e) => e,
        None => Seq::empty(),
    };
    let name = fmt_entry(fmt, "format_name"@);
    &&& implementation_index(normalised_ext(ext), name) matches Some(i)
        && format_table()[i].5 == ExporterType::SphinxGallery
    &&& !external_format(name)
}

/// What writing a notebook with the metadata `meta` and the cells `cs` in the format `fmt`
/// gives: the text, or the error (`true` for a format error, with its message).
pub open spec fn writes_spec(meta: Seq<(Seq<char>, Seq<char>)>, cs: Seq<CellTuple>, fmt: Map<Seq<char>, Seq<char>>) -> Result<Seq<char>, (bool, Seq<char>)> {
    let ext = match fmt_entry(fmt, "extension"@) {
        Some(e) => e,
        None => Seq::empty(),
    };
    let name = fmt_entry(fmt, "format_name"@);
    match implementation_index(normalised_ext(ext), name) {
        None => Err((true, implementation_error(normalised_ext(ext), name))),
        Some(i) => {
            let d = format_table()[i];
            if external_format(name) {
                Err((false, external_message(name->0)))
            } else if cs.len() > 0 && d.5 != ExporterType::SphinxGallery {
                Err((false, no_writer_message(d.0)))
            } else {
                let dl = match default_language_for(
                    sub_string(meta, "jupytext"@, "main_language"@),
                    sub_string(meta, "kernelspec"@, "language"@),
                    d.1,
                ) {
                    Some(l) => l,
                    None => "python"@,
                };
                let sl = script_lines(meta, d.1);
                let hc = header_text(metadata_after_script(meta, d.1), fmt, d.2, d.3);
                let body = cells_lines(cell_texts(cs, dl, fmt), cs, 0, d.1);
                let hb = if hc.len() == 0 {
                    0nat
                } else {
                    pep8_lines(hc, body, d.1) as nat
                };
                Ok(join(sl + hc + blanks(hb) + body, "\n"@))
            }
        },
    }
}

/// The plain values of what `writes` returns.
pub open spec fn writes_view(r: Result<String, JupytextError>) -> Result<Seq<char>, (bool, Seq<char>)> {
    match r {
        Ok(s) => Ok(s@),
        Err(JupytextError::Format(e)) => Err((true, e.0@)),
        Err(JupytextError::Other(m)) => Err((false, m@)),
    }
}


/// Takes the shebang and encoding lines of a script out of the metadata (see
/// `script_lines` and `metadata_after_script`).
fn take_script_lines(m: &mut Vec<(String, String)>, ext: &str) -> (r: Vec<String>)
    ensures
        views(r@) == script_lines(entry_views(old(m)@), ext@),
        entry_views(final(m)@) == metadata_after_script(entry_views(old(m)@), ext@),
{
    proof {
        reveal_strlit("jupytext");
        reveal_strlit("executable");
        reveal_strlit("encoding");
        reveal_strlit("#!");
    }
    let has_object = match entry_text(m, "jupytext") {
        Some(t) => json_entries(t.as_str()).is_some(),
        None => false,
    };
    let mut r: Vec<String> = Vec::new();
    if script_language_for_ext(ext).is_some() && has_object {
        let ghost m0 = entry_views(m@);
        match sub_string_of(m, "jupytext", "executable") {
            Some(x) => r.push(concat("#!", x.as_str())),
            None => {},
        }
        match sub_string_of(m, "jupytext", "encoding") {
            Some(x) => r.push(x),
            None => {},
        }
        assert(views(r@) =~= script_lines(m0, ext@));
        remove_sub_entry(m, "jupytext", "executable");
        remove_sub_entry(m, "jupytext", "encoding");
    }
    r
}

/// The notebook metadata filter keeps the key `k` (see `kept_metadata_key`).
fn keeps_notebook_key(k: &str, empty_tags: bool, user: &str) -> (r: bool)
    ensures
        r == kept_metadata_key(k@, empty_tags, user@, DEFAULT_NOTEBOOK_METADATA@),
{
    let mut one: Vec<String> = Vec::new();
    one.push(owned(k));
    let kept = filter_metadata(one.as_slice(), empty_tags, user, DEFAULT_NOTEBOOK_METADATA);
    let ghost f = |x: Seq<char>| kept_metadata_key(x, empty_tags, user@, DEFAULT_NOTEBOOK_METADATA@);
    proof {
        assert(views(one@) =~= seq![k@]);
        assert(seq![k@].drop_last() =~= Seq::<Seq<char>>::empty());
        reveal_with_fuel(Seq::filter, 2);
        assert(Seq::<Seq<char>>::empty().filter(f) =~= Seq::<Seq<char>>::empty());
    }
    kept.len() == 1
}

/// The metadata entries that the notebook metadata filter of the format keeps (see
/// `kept_notebook_entries`).
fn kept_entries_of(m: &Vec<(String, String)>, fmt: &FormatMap) -> (r: Vec<(String, String)>)
    ensures
        entry_views(r@) == kept_notebook_entries(entry_views(m@), fmt@),
{
    proof {
        reveal_strlit("notebook_metadata_filter");
    }
    let user = match fmt.get("notebook_metadata_filter") {
        Some(f) => f,
        None => String::new(),
    };
    assert(user@ == notebook_filter(fmt@));
    kept_by_filter(m, user.as_str())
}

/// The metadata entries that the notebook metadata filter `user` keeps (see
/// `kept_entries`); with distinct keys, they keep them distinct.
pub(crate) fn kept_by_filter(m: &Vec<(String, String)>, user: &str) -> (r: Vec<(String, String)>)
    ensures
        entry_views(r@) == kept_entries(entry_views(m@), user@),
        crate::format_map::distinct_keys(entry_views(m@)) ==> crate::format_map::distinct_keys(entry_views(r@)),
{
    proof {
        reveal_strlit("tags");
        reveal_strlit("[]");
    }
    let empty_tags = match entry_text(m, "tags") {
        Some(t) => str_eq(t.as_str(), "[]"),
        None => false,
    };
    let ghost mv = entry_views(m@);
    let ghost f = |p: (Seq<char>, Seq<char>)| kept_metadata_key(p.0, empty_tags, user@, DEFAULT_NOTEBOOK_METADATA@);
    let mut r: Vec<(String, String)> = Vec::new();
    let mut i: usize = 0;
    proof {
        reveal(Seq::filter);
        assert(mv.take(0).filter(f) =~= Seq::<(Seq<char>, Seq<char>)>::empty());
    }
    while i < m.len()
        invariant
            i <= m@.len(),
            mv == entry_views(m@),
            f == (|p: (Seq<char>, Seq<char>)| kept_metadata_key(p.0, empty_tags, user@, DEFAULT_NOTEBOOK_METADATA@)),
            entry_views(r@) == mv.take(i as int).filter(f),
            forall|a: int| 0 <= a < r@.len() ==> exists|b: int| 0 <= b < i && #[trigger] entry_views(r@)[a] == mv[b],
            crate::format_map::distinct_keys(mv) ==> crate::format_map::distinct_keys(entry_views(r@)),
        decreases m.len() - i,
    {
        proof {
            assert(mv.take(i + 1) =~= mv.take(i as int).push(mv[i as int]));
            mv.take(i as int).lemma_filter_push(mv[i as int], f);
        }
        if keeps_notebook_key(m[i].0.as_str(), empty_tags, user) {
            let ghost before = entry_views(r@);
            r.push((owned(m[i].0.as_str()), owned(m[i].1.as_str())));
            assert(entry_views(r@) =~= before.push(mv[i as int]));
            proof {
                assert forall|a: int| 0 <= a < r@.len() implies exists|b: int| 0 <= b < i + 1 && #[trigger] entry_views(r@)[a] == mv[b] by {
                    if a < before.len() {
                        assert(entry_views(r@)[a] == before[a]);
                    } else {
                        assert(entry_views(r@)[a] == mv[i as int]);
                    }
                }
                if crate::format_map::distinct_keys(mv) {
                    assert forall|x: int, y: int| 0 <= x < y < entry_views(r@).len() implies entry_views(r@)[x].0 != entry_views(r@)[y].0 by {
                        if y < before.len() {
                            assert(entry_views(r@)[x] == before[x]);
                            assert(entry_views(r@)[y] == before[y]);
                        } else {
                            assert(entry_views(r@)[x] == before[x]);
                            let b = choose|b: int| 0 <= b < i && #[trigger] before[x] == mv[b];
                            assert(entry_views(r@)[y] == mv[i as int]);
                        }
                    }
                }
            }
        }
        i += 1;
    }
    assert(mv.take(m@.len() as int) =~= mv);
    r
}

/// The header of a text notebook (see `header_text`), and the number of blank lines that
/// follows it when that does not depend on the cells: none after an empty header.
pub fn metadata_and_cell_to_header(m: &Vec<(String, String)>, fmt: &FormatMap, prefix: &str, suffix: &str) -> (r: (Vec<String>, Option<usize>))
    ensures
        views(r.0@) == header_text(entry_views(m@), fmt@, prefix@, suffix@),
        r.1 == if r.0@.len() == 0 {
            Some(0usize)
        } else {
            None
        },
{
    let h = header_lines_of(m, fmt, prefix, suffix);
    if h.len() == 0 {
        (h, Some(0))
    } else {
        (h, None)
    }
}

/// The header of a text notebook (see `header_text`).
fn header_lines_of(m: &Vec<(String, String)>, fmt: &FormatMap, prefix: &str, suffix: &str) -> (r: Vec<String>)
    ensures
        views(r@) == header_text(entry_views(m@), fmt@, prefix@, suffix@),
{
    proof {
        reveal_strlit("jupyter");
        reveal_strlit("---");
        reveal_strlit("<!--");
        reveal_strlit("-->");
        reveal_strlit("");
        reveal_strlit("hide_notebook_metadata");
    }
    let kept = kept_entries_of(m, fmt);
    let mut y: Vec<String> = Vec::new();
    if kept.len() > 0 {
        let mut wrapper: Vec<(String, String)> = Vec::new();
        wrapper.push((owned("jupyter"), json_object(&kept)));
        assert(entry_views(wrapper@) =~= seq![("jupyter"@, json_object_text(entry_views(kept@)))]);
        match yaml_mapping(&wrapper) {
            Some(text) => {
                let t = trim_str(text.as_str());
                y = lines(t.as_str());
            },
            None => {},
        }
    }
    assert(views(y@) == yaml_lines(entry_views(m@), fmt@));
    if y.len() == 0 {
        return Vec::new();
    }
    let mut full: Vec<String> = Vec::new();
    let hide = match crate::cell_export::flag_of(fmt, "hide_notebook_metadata") {
        Some(b) => b,
        None => false,
    };
    if hide {
        full.push(owned("<!--"));
        full.push(String::new());
    }
    full.push(owned("---"));
    let ghost head = views(full@);
    let mut i: usize = 0;
    while i < y.len()
        invariant
            i <= y@.len(),
            views(full@) == head + views(y@).take(i as int),
        decreases y.len() - i,
    {
        full.push(owned(y[i].as_str()));
        assert(views(full@) =~= head + views(y@).take(i + 1));
        i += 1;
    }
    full.push(owned("---"));
    if hide {
        full.push(String::new());
        full.push(owned("-->"));
    }
    proof {
        assert(views(y@).take(y@.len() as int) =~= views(y@));
        let yl = yaml_lines(entry_views(m@), fmt@);
        let fl = seq!["---"@] + yl + seq!["---"@];
        if hide {
            assert(views(full@) =~= seq!["<!--"@, Seq::<char>::empty()] + fl + seq![Seq::<char>::empty(), "-->"@]);
        } else {
            assert(views(full@) =~= fl);
        }
    }
    comment_lines(full.as_slice(), prefix, suffix)
}


/// The Sphinx Gallery texts of the cells (see `cell_texts`).
fn cell_texts_of(cells: &Vec<Cell>, dl: &str, fmt: &FormatMap) -> (r: Vec<Vec<String>>)
    requires
        cells@.len() > 0 ==> fmt_flag(fmt@, "rst2md"@) != Some(true),
    ensures
        r@.len() == cells@.len(),
        forall|j: int| 0 <= j < r@.len() ==> views(#[trigger] r@[j]@) == cell_texts(cells_view(cells@), dl@, fmt@)[j],
{
    let ghost tv = cell_texts(cells_view(cells@), dl@, fmt@);
    let mut r: Vec<Vec<String>> = Vec::new();
    let mut i: usize = 0;
    while i < cells.len()
        invariant
            i <= cells@.len(),
            cells@.len() > 0 ==> fmt_flag(fmt@, "rst2md"@) != Some(true),
            tv == cell_texts(cells_view(cells@), dl@, fmt@),
            r@.len() == i,
            forall|j: int| 0 <= j < i ==> views(#[trigger] r@[j]@) == tv[j],
        decreases cells.len() - i,
    {
        let t = sphinx_cell_lines(&cells[i], dl, fmt);
        r.push(t);
        i += 1;
    }
    r
}

/// `n` empty lines pushed on `v`.
fn push_blanks(v: &mut Vec<String>, n: usize)
    ensures
        views(final(v)@) == views(old(v)@) + blanks(n as nat),
{
    let ghost v0 = views(v@);
    let mut k: usize = 0;
    while k < n
        invariant
            k <= n,
            views(v@) == v0 + blanks(k as nat),
        decreases n - k,
    {
        v.push(String::new());
        k += 1;
        assert(views(v@) =~= v0 + blanks(k as nat));
    }
}

/// The lines of `w` pushed on `v`.
fn push_all(v: &mut Vec<String>, w: &Vec<String>)
    ensures
        views(final(v)@) == views(old(v)@) + views(w@),
{
    let ghost v0 = views(v@);
    let mut k: usize = 0;
    while k < w.len()
        invariant
            k <= w@.len(),
            views(v@) == v0 + views(w@).take(k as int),
        decreases w.len() - k,
    {
        v.push(owned(w[k].as_str()));
        k += 1;
        assert(views(v@) =~= v0 + views(w@).take(k as int));
    }
    assert(views(w@).take(w@.len() as int) =~= views(w@));
}

/// A code cell.
fn is_code_cell(c: &Cell) -> (r: bool)
    ensures
        r == (c.cell_type == CellType::Code),
{
    match c.cell_type {
        CellType::Code => true,
        _ => false,
    }
}

/// The lines of all the cells (see `cells_lines`), given their texts.
fn cells_lines_of(ts: &Vec<Vec<String>>, cells: &Vec<Cell>, ext: &str, Ghost(tv): Ghost<Seq<Seq<Seq<char>>>>) -> (r: Vec<String>)
    requires
        ts@.len() == cells@.len(),
        tv.len() == ts@.len(),
        forall|j: int| 0 <= j < ts@.len() ==> views(#[trigger] ts@[j]@) == tv[j],
    ensures
        views(r@) == cells_lines(tv, cells_view(cells@), 0, ext@),
{
    proof {
        reveal_strlit("lines_to_next_cell");
        reveal_strlit("%matplotlib inline");
        reveal_strlit("# %matplotlib inline");
        reveal_strlit("\"\"");
    }
    let ghost cs = cells_view(cells@);
    let mut acc: Vec<String> = Vec::new();
    let mut i: usize = ts.len();
    while i > 0
        invariant
            i <= ts@.len(),
            ts@.len() == cells@.len(),
            tv.len() == ts@.len(),
            cs == cells_view(cells@),
            forall|j: int| 0 <= j < ts@.len() ==> views(#[trigger] ts@[j]@) == tv[j],
            views(acc@) == cells_lines(tv, cs, i as int, ext@),
        decreases i,
    {
        i -= 1;
        let ghost rest = views(acc@);
        let t = &ts[i];
        assert(views(t@) == tv[i as int]);
        let skip = i == 0 && t.len() == 1 && (str_eq(t[0].as_str(), "%matplotlib inline") || str_eq(t[0].as_str(), "# %matplotlib inline"));
        proof {
            if i == 0 {
                if t@.len() == 1 {
                    assert(views(t@) =~= seq![t@[0]@]);
                }
                if matplotlib_text(tv[0]) {
                    assert(views(t@).len() == 1);
                    assert(views(t@)[0] == t@[0]@);
                }
            }
        }
        if !skip {
            let m = &cells[i].metadata;
            assert(entry_views(m@) =~= entries_view(m@));
            assert(cs[i as int].2 == entries_view(m@));
            let b: usize = match count_of(m, "lines_to_next_cell") {
                Some(n) => n,
                None => pep8_lines_between_cells(t.as_slice(), acc.as_slice(), ext),
            };
            let mut out: Vec<String> = Vec::new();
            push_all(&mut out, t);
            push_blanks(&mut out, b);
            if is_code_cell(&cells[i]) && i + 1 < ts.len() && is_code_cell(&cells[i + 1]) {
                out.push(owned("\"\""));
            }
            push_all(&mut out, &acc);
            proof {
                let sep = if cs[i as int].0 == CellType::Code && i + 1 < tv.len() && cs[i + 1].0 == CellType::Code {
                    seq!["\"\""@]
                } else {
                    Seq::<Seq<char>>::empty()
                };
                assert(views(out@) =~= tv[i as int] + blanks(b as nat) + sep + rest);
            }
            acc = out;
        }
    }
    acc
}

/// Writes a notebook as text in the format `fmt` (its extension and format name, and its
/// format options): the shebang and encoding lines, the YAML header of the notebook
/// metadata, then the text of each cell from the cell exporter of the format. Formats that
/// are converted outside this library, and formats whose cells this library cannot write
/// (all but Sphinx Gallery scripts, when there are cells), give an error, as does a
/// format that is not registered. The `rst2md` option of Sphinx Gallery only reads. The
/// format options are those of `fmt` alone: the options that the notebook's `jupytext`
/// metadata records are neither merged into them nor written back.
#[verifier::spinoff_prover]
#[verifier::rlimit(80)]
pub fn writes(nb: &Notebook, fmt: &FormatMap) -> (r: Result<String, JupytextError>)
    requires
        nb.cells@.len() > 0 && sphinx_writer(fmt@) ==> fmt_flag(fmt@, "rst2md"@) != Some(true),
    ensures
        writes_view(r) == writes_spec(entries_view(nb.metadata@), cells_view(nb.cells@), fmt@),
{
    proof {
        reveal_strlit("extension");
        reveal_strlit("format_name");
        reveal_strlit("");
        reveal_strlit("pandoc");
        reveal_strlit("quarto");
        reveal_strlit("marimo");
        reveal_strlit("myst");
        reveal_strlit("jupytext");
        reveal_strlit("main_language");
        reveal_strlit("kernelspec");
        reveal_strlit("language");
        reveal_strlit("python");
        reveal_strlit("\n");
    }
    let ext = match fmt.get("extension") {
        Some(e) => e,
        None => String::new(),
    };
    let name = fmt.get("format_name");
    let imp = match get_format_implementation(ext.as_str(), match &name {
        Some(n) => Some(n.as_str()),
        None => None,
    }) {
        Ok(d) => d,
        Err(e) => {
            return Err(JupytextError::Format(e));
        },
    };
    match &name {
        Some(n) => {
            if str_eq(n.as_str(), "pandoc") || str_eq(n.as_str(), "quarto") || str_eq(n.as_str(), "marimo") || str_eq(n.as_str(), "myst") {
                let m = concat(concat("The '", n.as_str()).as_str(), "' format requires an external converter not yet implemented in Rust.");
                return Err(JupytextError::Other(m));
            }
        },
        None => {},
    }
    let sphinx_exporter = match imp.exporter_type {
        ExporterType::SphinxGallery => true,
        _ => false,
    };
    if nb.cells.len() > 0 && !sphinx_exporter {
        let m = concat(concat("The cells of the '", imp.format_name).as_str(), "' format cannot be written by this library.");
        return Err(JupytextError::Other(m));
    }
    let ghost meta0 = entries_view(nb.metadata@);
    let mut meta = crate::notebook::copy_entries(&nb.metadata);
    assert(entry_views(meta@) =~= meta0);
    let main = sub_string_of(&meta, "jupytext", "main_language");
    let kernel = sub_string_of(&meta, "kernelspec", "language");
    let lang = NotebookLanguage { file_extension: None, kernel_language: kernel, main_language: main };
    let dl = match default_language_from_metadata_and_ext(&lang, imp.extension, true) {
        Some(l) => l,
        None => owned("python"),
    };
    let mut all = take_script_lines(&mut meta, imp.extension);
    let (hc, next) = metadata_and_cell_to_header(&meta, fmt, imp.header_prefix, imp.header_suffix);
    let texts = cell_texts_of(&nb.cells, dl.as_str(), fmt);
    let body = cells_lines_of(&texts, &nb.cells, imp.extension, Ghost(cell_texts(cells_view(nb.cells@), dl@, fmt@)));
    let hb: usize = match next {
        Some(n) => n,
        None => pep8_lines_between_cells(hc.as_slice(), body.as_slice(), imp.extension),
    };
    push_all(&mut all, &hc);
    push_blanks(&mut all, hb);
    push_all(&mut all, &body);
    Ok(join_strings(all.as_slice(), "\n"))
}

} // verus!
