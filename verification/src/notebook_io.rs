//! Text notebooks read into notebooks: the header gives the notebook metadata, the cell
//! reader of the format gives the cells.

use vstd::prelude::*;
use crate::cell_reader::{sphinx_read, CellReader, FormatOptions, SphinxGalleryScriptCellReader};
use crate::format_check::{json_literal, json_string_literal};
use crate::format_map::FormatMap;
use crate::formats::{
    desc_view, format_table, get_format_implementation, implementation_error, implementation_index,
    normalised_ext, FormatTuple, JupytextFormatError, NotebookLanguage, ReaderType,
};
use crate::header::{header_result, header_to_metadata_and_cell, HeaderParseResult};
use crate::json::{
    entry_of, entry_text, entry_views, has_sub_entry, has_sub_entry_of, json_object, json_object_text,
    set_entry, set_sub_entry, sub_string, sub_string_of, with_entry, with_sub_entry, yaml_entries,
    yaml_json, yaml_mapping_entries, yaml_value_text, json_entries, json_object_entries,
};
use crate::languages::{default_language_from_metadata_and_ext, default_language_for};
use crate::metadata_filter::{cell_filter_for, jupytext_cell_metadata_keys, sort_keys, is_jupytext_cell_metadata, keys_in_order};
use crate::notebook::{cell_view, cells_view, Cell, CellType, Notebook};
use crate::text::{concat, decimal, decimal_text, join, join_strings, lines, lines_of, owned, str_eq, views};

verus! {

broadcast use crate::text::views_push;

/// Why a text could not be read into a notebook, or a notebook written as text.
#[derive(Debug, Clone)]
pub enum JupytextError {
    Format(JupytextFormatError),
    Other(String),
}

/// A cell as plain values (see `cell_view`).
pub type CellTuple = (CellType, Seq<char>, Seq<(Seq<char>, Seq<char>)>, Option<Seq<char>>, Option<Seq<Seq<char>>>, Option<Seq<char>>);

/// A new cell of type `t` with the source `s` and the metadata `m`: a code cell has a null
/// execution count and no outputs.
pub open spec fn new_cell(t: CellType, s: Seq<char>, m: Seq<(Seq<char>, Seq<char>)>) -> CellTuple {
    if t == CellType::Code {
        (t, s, m, Some("null"@), Some(Seq::empty()), None)
    } else {
        (t, s, m, None, None, None)
    }
}

/// The metadata entry `lines_to_next_cell`, when there is a count to record.
pub open spec fn lines_entry(n: Option<int>) -> Seq<(Seq<char>, Seq<char>)> {
    match n {
        Some(k) => seq![("lines_to_next_cell"@, decimal(k as nat))],
        None => Seq::empty(),
    }
}

/// The `jupytext` entry that the shebang and the encoding line of a header give.
pub open spec fn header_extra(exe: Option<Seq<char>>, enc: Option<Seq<char>>) -> Seq<(Seq<char>, Seq<char>)> {
    let a = match exe {
        Some(e) => seq![("executable"@, json_string_literal(e))],
        None => Seq::empty(),
    };
    let b = match enc {
        Some(e) => with_entry(a, "encoding"@, json_string_literal(e)),
        None => a,
    };
    if b.len() == 0 {
        Seq::empty()
    } else {
        seq![("jupytext"@, json_object_text(b))]
    }
}

/// The notebook metadata of a header: the entries of its `jupyter:` section (when its YAML
/// reads), the shebang and encoding under `jupytext`, and the other root-level entries
/// under `jupytext.root_level_metadata` when they do not make a raw cell.
pub open spec fn header_metadata(h: (Option<Seq<char>>, Option<Seq<char>>, Option<Seq<char>>, Option<Seq<char>>, bool, Option<(Seq<char>, Option<int>)>, int)) -> Seq<(Seq<char>, Seq<char>)> {
    let extra = header_extra(h.0, h.1);
    let section = match h.2 {
        Some(y) => match yaml_mapping_entries(y) {
            Some(top) => match entry_of(top, "jupyter"@) {
                Some(j) => json_object_entries(j),
                None => None,
            },
            None => None,
        },
        None => None,
    };
    let m1 = match section {
        Some(jm) => if extra.len() > 0 {
            with_entry(jm, "jupytext"@, extra[0].1)
        } else {
            jm
        },
        None => extra,
    };
    match h.3 {
        Some(r) => match yaml_value_text(r) {
            Some(rt) => with_sub_entry(m1, "jupytext"@, "root_level_metadata"@, rt),
            None => m1,
        },
        None => m1,
    }
}

/// The cells that a fresh Sphinx Gallery reader reads from line `pos` on.
pub open spec fn sphinx_cells_from(ls: Seq<Seq<char>>, pos: int, cm: Option<bool>, dl: Seq<char>) -> Seq<CellTuple>
    decreases ls.len() - pos,
{
    if pos < 0 || pos >= ls.len() {
        Seq::empty()
    } else {
        let rd = choose|rd: SphinxGalleryScriptCellReader| rd.comment_magics == cm && rd.default_language@ == dl && rd.cell_marker is None;
        let r = sphinx_read(ls.subrange(pos, ls.len() as int), rd);
        let m = match r.2 {
            Some(k) => seq![("cell_marker"@, json_string_literal(k))],
            None => Seq::empty(),
        } + lines_entry(r.3);
        let c = new_cell(r.0, r.1, m);
        if r.4 <= 0 || pos + r.4 >= ls.len() {
            seq![c]
        } else {
            seq![c] + sphinx_cells_from(ls, pos + r.4, cm, dl)
        }
    }
}

/// A cell that a Sphinx Gallery notebook drops: an empty cell between two cells that are
/// not markdown.
pub open spec fn sphinx_dropped(cs: Seq<CellTuple>, i: int) -> bool {
    cs[i].1.len() == 0 && i > 0 && i + 1 < cs.len() && cs[i - 1].0 != CellType::Markdown && cs[i + 1].0
        != CellType::Markdown
}

/// The first `n` cells, without the dropped ones.
pub open spec fn sphinx_kept(cs: Seq<CellTuple>, n: int) -> Seq<CellTuple>
    decreases n,
{
    if n <= 0 {
        Seq::empty()
    } else if sphinx_dropped(cs, n - 1) {
        sphinx_kept(cs, n - 1)
    } else {
        sphinx_kept(cs, n - 1).push(cs[n - 1])
    }
}

/// The metadata keys of the cells, each once, in the order in which they first come.
pub open spec fn cell_keys_upto(cs: Seq<CellTuple>, n: int) -> Seq<Seq<char>>
    decreases n,
{
    if n <= 0 {
        Seq::empty()
    } else {
        keys_added(cell_keys_upto(cs, n - 1), cs[n - 1].2, cs[n - 1].2.len() as int)
    }
}

/// `l` with the keys of the first `k` entries of `m` that it lacks.
pub open spec fn keys_added(l: Seq<Seq<char>>, m: Seq<(Seq<char>, Seq<char>)>, k: int) -> Seq<Seq<char>>
    decreases k,
{
    if k <= 0 {
        l
    } else {
        let prev = keys_added(l, m, k - 1);
        if prev.contains(m[k - 1].0) {
            prev
        } else {
            prev.push(m[k - 1].0)
        }
    }
}

/// The notebook metadata once read: the main language recorded (when the kernel gives
/// none and there are cells) and, for a script without a `jupyter:` section, the metadata
/// filters set (`f` being the cell metadata filter of the keys of the cells).
pub open spec fn finished_metadata(m: Seq<(Seq<char>, Seq<char>)>, ext: Seq<char>, has_jupyter_md: bool, has_cells: bool, f: Seq<char>) -> Seq<(Seq<char>, Seq<char>)> {
    let kernel = sub_string(m, "kernelspec"@, "language"@);
    let main = match default_language_for(sub_string(m, "jupytext"@, "main_language"@), kernel, ext) {
        Some(l) => l,
        None => "python"@,
    };
    let m1 = if kernel is None && has_cells {
        with_sub_entry(m, "jupytext"@, "main_language"@, json_string_literal(main))
    } else {
        m
    };
    if has_jupyter_md {
        m1
    } else {
        let m2 = with_sub_entry(m1, "jupytext"@, "notebook_metadata_filter"@, json_string_literal("-all"@));
        if has_sub_entry(m2, "jupytext"@, "cell_metadata_filter"@) {
            m2
        } else {
            with_sub_entry(m2, "jupytext"@, "cell_metadata_filter"@, json_string_literal(f))
        }
    }
}

/// A format that this library does not convert itself.
pub open spec fn external_format(name: Option<Seq<char>>) -> bool {
    name == Some("pandoc"@) || name == Some("quarto"@) || name == Some("marimo"@) || name == Some("myst"@)
}

/// The message for a format converted outside this library.
pub open spec fn external_message(name: Seq<char>) -> Seq<char> {
    "The '"@ + name + "' format requires an external converter not yet implemented in Rust."@
}

/// The message for a format whose cells this library cannot read.
pub open spec fn no_reader_message(name: Seq<char>) -> Seq<char> {
    "The cells of the '"@ + name + "' format cannot be read by this library."@
}

/// The cells of a notebook read from the lines `ls`: the header cell, the `%matplotlib
/// inline` cell of a Sphinx Gallery notebook, then the cells that the reader finds after
/// the header.
pub open spec fn read_cells(ls: Seq<Seq<char>>, d: FormatTuple, h: (Option<Seq<char>>, Option<Seq<char>>, Option<Seq<char>>, Option<Seq<char>>, bool, Option<(Seq<char>, Option<int>)>, int), cm: Option<bool>, dl: Seq<char>) -> Seq<CellTuple> {
    let head = match h.5 {
        Some(c) => seq![new_cell(CellType::Raw, c.0, lines_entry(c.1))],
        None => Seq::empty(),
    };
    let sphinx = crate::text::has_prefix(d.0, "sphinx"@);
    let mpl = if sphinx {
        seq![new_cell(CellType::Code, "%matplotlib inline"@, Seq::empty())]
    } else {
        Seq::empty()
    };
    head + mpl + sphinx_cells_from(ls, h.6, cm, dl)
}

/// What reading the text `text` in the format `fmt` gives: the notebook metadata and its
/// cells, or the error (`true` for a format error, with its message).
pub open spec fn reads_spec(text: Seq<char>, fmt: Map<Seq<char>, Seq<char>>) -> Result<(Seq<(Seq<char>, Seq<char>)>, Seq<CellTuple>), (bool, Seq<char>)> {
    let ext = match crate::cell_export::fmt_entry(fmt, "extension"@) {
        Some(e) => e,
        None => Seq::empty(),
    };
    let name = crate::cell_export::fmt_entry(fmt, "format_name"@);
    match implementation_index(normalised_ext(ext), name) {
        None => Err((true, implementation_error(normalised_ext(ext), name))),
        Some(i) => {
            let d = format_table()[i];
            if external_format(name) {
                Err((false, external_message(name->0)))
            } else {
                let ls = lines_of(text);
                let root_raw = match crate::cell_export::fmt_flag(fmt, "root_level_metadata_as_raw_cell"@) {
                    Some(b) => b,
                    None => true,
                };
                let h = header_result(ls, d.2, d.3, d.1, root_raw);
                if h.6 < ls.len() && d.4 != ReaderType::SphinxGallery {
                    Err((false, no_reader_message(d.0)))
                } else {
                    let cm = crate::cell_export::fmt_flag(fmt, "comment_magics"@);
                    let dl = match default_language_for(
                        sub_string(header_metadata(h), "jupytext"@, "main_language"@),
                        sub_string(header_metadata(h), "kernelspec"@, "language"@),
                        d.1,
                    ) {
                        Some(l) => l,
                        None => "python"@,
                    };
                    let cells = read_cells(ls, d, h, match cm { Some(b) => Some(b), None => Some(true) }, dl);
                    let meta = finished_metadata(header_metadata(h), d.1, h.4, cells.len() > 0, "-all"@);
                    let kept = if crate::text::has_prefix(d.0, "sphinx"@) {
                        sphinx_kept(cells, cells.len() as int)
                    } else {
                        cells
                    };
                    Ok((meta, kept))
                }
            }
        },
    }
}

/// The plain values of what `reads` returns.
pub open spec fn reads_view(r: Result<Notebook, JupytextError>) -> Result<(Seq<(Seq<char>, Seq<char>)>, Seq<CellTuple>), (bool, Seq<char>)> {
    match r {
        Ok(nb) => Ok((entry_views(nb.metadata@), cells_view(nb.cells@))),
        Err(JupytextError::Format(e)) => Err((true, e.0@)),
        Err(JupytextError::Other(m)) => Err((false, m@)),
    }
}

} // verus!

verus! {

/// A new cell (see `new_cell`).
pub fn new_cell_of(t: CellType, source: String, m: Vec<(String, String)>) -> (r: Cell)
    ensures
        cell_view(r) == new_cell(t, source@, entry_views(m@)),
{
    proof {
        reveal_strlit("null");
    }
    match t {
        CellType::Code => {
            let out: Vec<String> = Vec::new();
            assert(views(out@) =~= Seq::<Seq<char>>::empty());
            Cell { cell_type: t, source, metadata: m, execution_count: Some(owned("null")), outputs: Some(out), id: None }
        },
        _ => Cell { cell_type: t, source, metadata: m, execution_count: None, outputs: None, id: None },
    }
}

fn lines_entry_of(n: Option<usize>) -> (r: Vec<(String, String)>)
    ensures
        entry_views(r@) == lines_entry(match n {
            Some(k) => Some(k as int),
            None => None,
        }),
{
    let mut m: Vec<(String, String)> = Vec::new();
    match n {
        Some(k) => {
            m.push((owned("lines_to_next_cell"), decimal_text(k)));
            proof {
                reveal_strlit("lines_to_next_cell");
            }
            assert(entry_views(m@) =~= seq![("lines_to_next_cell"@, decimal(k as nat))]);
        },
        None => {
            assert(entry_views(m@) =~= Seq::<(Seq<char>, Seq<char>)>::empty());
        },
    }
    m
}

/// The notebook metadata of a header (see `header_metadata`).
pub(crate) fn header_metadata_of(h: &HeaderParseResult) -> (r: Vec<(String, String)>)
    ensures
        entry_views(r@) == header_metadata(crate::header::header_result_view(*h)),
{
    proof {
        reveal_strlit("executable");
        reveal_strlit("encoding");
        reveal_strlit("jupytext");
        reveal_strlit("jupyter");
        reveal_strlit("root_level_metadata");
    }
    let mut a: Vec<(String, String)> = Vec::new();
    match &h.executable {
        Some(e) => {
            a.push((owned("executable"), json_literal(e.as_str())));
            assert(entry_views(a@) =~= seq![("executable"@, json_string_literal(e@))]);
        },
        None => {
            assert(entry_views(a@) =~= Seq::<(Seq<char>, Seq<char>)>::empty());
        },
    }
    match &h.encoding {
        Some(e) => set_entry(&mut a, "encoding", json_literal(e.as_str())),
        None => {},
    }
    let mut extra: Vec<(String, String)> = Vec::new();
    if a.len() > 0 {
        extra.push((owned("jupytext"), json_object(&a)));
        assert(entry_views(extra@) =~= seq![("jupytext"@, json_object_text(entry_views(a@)))]);
    } else {
        assert(entry_views(extra@) =~= Seq::<(Seq<char>, Seq<char>)>::empty());
    }
    let section: Option<Vec<(String, String)>> = match &h.jupyter_yaml {
        Some(y) => match yaml_entries(y.as_str()) {
            Some(top) => match entry_text(&top, "jupyter") {
                Some(j) => json_entries(j.as_str()),
                None => None,
            },
            None => None,
        },
        None => None,
    };
    let mut m1: Vec<(String, String)> = match section {
        Some(mut jm) => {
            if extra.len() > 0 {
                let v = owned(extra[0].1.as_str());
                set_entry(&mut jm, "jupytext", v);
            }
            jm
        },
        None => extra,
    };
    match &h.root_level_yaml {
        Some(r) => match yaml_json(r.as_str()) {
            Some(rt) => set_sub_entry(&mut m1, "jupytext", "root_level_metadata", rt),
            None => {},
        },
        None => {},
    }
    m1
}

} // verus!

verus! {

fn lines_from(lines: &Vec<String>, pos: usize) -> (r: Vec<String>)
    requires
        pos <= lines@.len(),
    ensures
        views(r@) == views(lines@).subrange(pos as int, lines@.len() as int),
{
    let mut out: Vec<String> = Vec::new();
    let mut k: usize = pos;
    while k < lines.len()
        invariant
            pos <= k <= lines@.len(),
            views(out@) == views(lines@).subrange(pos as int, k as int),
        decreases lines.len() - k,
    {
        out.push(lines[k].clone());
        assert(views(lines@).subrange(pos as int, k + 1) =~= views(lines@).subrange(pos as int, k as int).push(views(lines@)[k as int]));
        k += 1;
    }
    out
}

/// The cells that fresh Sphinx Gallery readers read from line `pos0` on.
fn sphinx_cells_of(lines: &Vec<String>, pos0: usize, fo: &FormatOptions, dl: &str) -> (r: Vec<Cell>)
    requires
        lines@.len() < usize::MAX,
    ensures
        cells_view(r@) == sphinx_cells_from(
            views(lines@),
            pos0 as int,
            match fo.comment_magics {
                Some(b) => Some(b),
                None => Some(true),
            },
            dl@,
        ),
{
    let ghost ls = views(lines@);
    let ghost cm = match fo.comment_magics {
        Some(b) => Some(b),
        None => Some(true),
    };
    let mut cells: Vec<Cell> = Vec::new();
    if pos0 >= lines.len() {
        assert(cells_view(cells@) =~= Seq::<CellTuple>::empty());
        return cells;
    }
    let mut pos: usize = pos0;
    loop
        invariant
            pos < lines@.len(),
            lines@.len() < usize::MAX,
            ls == views(lines@),
            cm == match fo.comment_magics {
                Some(b) => Some(b),
                None => Some(true),
            },
            cells_view(cells@) + sphinx_cells_from(ls, pos as int, cm, dl@) == sphinx_cells_from(ls, pos0 as int, cm, dl@),
        decreases lines.len() - pos,
    {
        let rest = lines_from(lines, pos);
        let mut reader = SphinxGalleryScriptCellReader::new(fo, Some(dl));
        let ghost r0 = reader;
        let res = reader.read(&rest);
        proof {
            let rd = choose|rd: SphinxGalleryScriptCellReader| rd.comment_magics == cm && rd.default_language@ == dl@ && rd.cell_marker is None;
            assert(r0.comment_magics == cm && r0.default_language@ == dl@ && r0.cell_marker is None);
            assert(sphinx_read(views(rest@), rd) == sphinx_read(views(rest@), r0));
        }
        let mut m: Vec<(String, String)> = Vec::new();
        match &res.cell_marker {
            Some(k) => {
                m.push((owned("cell_marker"), json_literal(k.as_str())));
            },
            None => {},
        }
        let ghost m0 = entry_views(m@);
        let tail = lines_entry_of(res.lines_to_next_cell);
        let mut t = tail;
        let mut i: usize = 0;
        let ghost tv = entry_views(t@);
        while i < t.len()
            invariant
                i <= t@.len(),
                entry_views(t@) == tv,
                entry_views(m@) == m0 + tv.take(i as int),
            decreases t.len() - i,
        {
            let ghost mb = entry_views(m@);
            assert(tv[i as int] == (t@[i as int].0@, t@[i as int].1@));
            m.push((owned(t[i].0.as_str()), owned(t[i].1.as_str())));
            assert(entry_views(m@) =~= mb.push(tv[i as int]));
            assert(m0 + tv.take(i + 1) =~= (m0 + tv.take(i as int)).push(tv[i as int]));
            i += 1;
        }
        assert(tv.take(t@.len() as int) =~= tv);
        proof {
            reveal_strlit("cell_marker");
            assert(m0 =~= match opt_marker(res.cell_marker) {
                Some(k) => seq![("cell_marker"@, json_string_literal(k))],
                None => Seq::<(Seq<char>, Seq<char>)>::empty(),
            });
        }
        let next = res.next_position;
        let cell = new_cell_of(res.cell_type, res.source, m);
        let ghost before = cells_view(cells@);
        cells.push(cell);
        assert(cells_view(cells@) =~= before.push(cell_view(cell)));
        assert(ls.subrange(pos as int, ls.len() as int) == views(rest@));
        if next == 0 || next >= lines.len() - pos {
            assert(cells_view(cells@) =~= before + seq![cell_view(cell)]);
            return cells;
        }
        assert(before + sphinx_cells_from(ls, pos as int, cm, dl@) =~= cells_view(cells@) + sphinx_cells_from(ls, pos + next, cm, dl@));
        pos = pos + next;
    }
}

/// The plain value of an optional marker.
pub open spec fn opt_marker(o: Option<String>) -> Option<Seq<char>> {
    match o {
        Some(s) => Some(s@),
        None => None,
    }
}

} // verus!

verus! {

/// The notebook metadata once read (see `finished_metadata`), with `-all` as the cell
/// metadata filter.
fn finish_metadata(m: &mut Vec<(String, String)>, ext: &str, has_jupyter_md: bool, has_cells: bool)
    ensures
        entry_views(final(m)@) == finished_metadata(entry_views(old(m)@), ext@, has_jupyter_md, has_cells, "-all"@),
{
    proof {
        reveal_strlit("kernelspec");
        reveal_strlit("language");
        reveal_strlit("jupytext");
        reveal_strlit("main_language");
        reveal_strlit("notebook_metadata_filter");
        reveal_strlit("cell_metadata_filter");
        reveal_strlit("-all");
        reveal_strlit("python");
    }
    let kernel = sub_string_of(m, "kernelspec", "language");
    let main_set = sub_string_of(m, "jupytext", "main_language");
    let lang = NotebookLanguage { file_extension: None, kernel_language: kernel, main_language: main_set };
    let main = match default_language_from_metadata_and_ext(&lang, ext, false) {
        Some(l) => l,
        None => owned("python"),
    };
    if lang.kernel_language.is_none() && has_cells {
        set_sub_entry(m, "jupytext", "main_language", json_literal(main.as_str()));
    }
    if !has_jupyter_md {
        set_sub_entry(m, "jupytext", "notebook_metadata_filter", json_literal("-all"));
        if !has_sub_entry_of(m, "jupytext", "cell_metadata_filter") {
            set_sub_entry(m, "jupytext", "cell_metadata_filter", json_literal("-all"));
        }
    }
}

/// The cells of a Sphinx Gallery notebook without the dropped ones (see `sphinx_kept`).
fn sphinx_kept_of(cells: Vec<Cell>) -> (r: Vec<Cell>)
    ensures
        cells_view(r@) == sphinx_kept(cells_view(cells@), cells@.len() as int),
{
    let ghost cs = cells_view(cells@);
    let n = cells.len();
    let mut out: Vec<Cell> = Vec::new();
    let mut i: usize = 0;
    while i < n
        invariant
            i <= n,
            n == cells@.len(),
            cs == cells_view(cells@),
            cells_view(out@) == sphinx_kept(cs, i as int),
        decreases n - i,
    {
        let empty = crate::text::char_len(cells[i].source.as_str()) == 0;
        let dropped = empty && i > 0 && i + 1 < n && !is_markdown(&cells[i - 1]) && !is_markdown(&cells[i + 1]);
        assert(cs[i as int] == cell_view(cells@[i as int]));
        proof {
            if i > 0 {
                assert(cs[i - 1] == cell_view(cells@[i - 1]));
            }
            if i + 1 < n {
                assert(cs[i + 1] == cell_view(cells@[i + 1]));
            }
        }
        assert(dropped == sphinx_dropped(cs, i as int));
        if !dropped {
            let ghost before = cells_view(out@);
            out.push(crate::notebook::copy_cell(&cells[i]));
            assert(cells_view(out@) =~= before.push(cs[i as int]));
        }
        i += 1;
    }
    out
}

fn is_markdown(c: &Cell) -> (r: bool)
    ensures
        r == (c.cell_type == CellType::Markdown),
{
    match c.cell_type {
        CellType::Markdown => true,
        _ => false,
    }
}

} // verus!

verus! {

fn flag_of(fmt: &FormatMap, key: &str) -> (r: Option<bool>)
    ensures
        r == crate::cell_export::fmt_flag(fmt@, key@),
{
    proof {
        reveal_strlit("true");
        reveal_strlit("false");
    }
    match fmt.get(key) {
        Some(v) => if str_eq(v.as_str(), "true") {
            Some(true)
        } else if str_eq(v.as_str(), "false") {
            Some(false)
        } else {
            None
        },
        None => None,
    }
}

/// Reads a text notebook in the format `fmt` (its extension and format name, and its
/// format options): the metadata comes from its header, the cells from the cell reader
/// of the format. Formats that are converted outside this library, and formats whose
/// cells this library cannot read (all but Sphinx Gallery scripts), give an error, as
/// does a format that is not registered. The format options are those of `fmt` alone:
/// the options that the header's `jupytext` metadata records are not merged into them.
#[verifier::spinoff_prover]
#[verifier::rlimit(80)]
pub fn reads(text: &str, fmt: &FormatMap) -> (r: Result<Notebook, JupytextError>)
    requires
        lines_of(text@).len() < usize::MAX,
    ensures
        reads_view(r) == reads_spec(text@, fmt@),
{
    proof {
        reveal_strlit("extension");
        reveal_strlit("format_name");
        reveal_strlit("");
        reveal_strlit("pandoc");
        reveal_strlit("quarto");
        reveal_strlit("marimo");
        reveal_strlit("myst");
        reveal_strlit("root_level_metadata_as_raw_cell");
        reveal_strlit("comment_magics");
        reveal_strlit("sphinx");
        reveal_strlit("%matplotlib inline");
        reveal_strlit("jupytext");
        reveal_strlit("main_language");
        reveal_strlit("kernelspec");
        reveal_strlit("language");
        reveal_strlit("python");
    }
    let ext = match fmt.get("extension") {
        Some(e) => e,
        None => String::new(),
    };
    let name = fmt.get("format_name");
    let imp = match get_format_implementation(ext.as_str(), match &name {
        Some(n) => Some(n.as_str()),
        None => None,
    }) {
        Ok(d) => d,
        Err(e) => {
            return Err(JupytextError::Format(e));
        },
    };
    match &name {
        Some(n) => {
            if str_eq(n.as_str(), "pandoc") || str_eq(n.as_str(), "quarto") || str_eq(n.as_str(), "marimo") || str_eq(n.as_str(), "myst") {
                let m = concat(concat("The '", n.as_str()).as_str(), "' format requires an external converter not yet implemented in Rust.");
                return Err(JupytextError::Other(m));
            }
        },
        None => {},
    }
    let ls = lines(text);
    let root_raw = match flag_of(fmt, "root_level_metadata_as_raw_cell") {
        Some(b) => b,
        None => true,
    };
    let h = header_to_metadata_and_cell(&ls, imp.header_prefix, imp.header_suffix, imp.extension, root_raw);
    let is_sphinx_reader = match imp.reader_type {
        ReaderType::SphinxGallery => true,
        _ => false,
    };
    if h.next_line < ls.len() && !is_sphinx_reader {
        let m = concat(concat("The cells of the '", imp.format_name).as_str(), "' format cannot be read by this library.");
        return Err(JupytextError::Other(m));
    }
    let mut metadata = header_metadata_of(&h);
    let main = sub_string_of(&metadata, "jupytext", "main_language");
    let kernel = sub_string_of(&metadata, "kernelspec", "language");
    let lang = NotebookLanguage { file_extension: None, kernel_language: kernel, main_language: main };
    let dl = match default_language_from_metadata_and_ext(&lang, imp.extension, false) {
        Some(l) => l,
        None => owned("python"),
    };
    let cm = flag_of(fmt, "comment_magics");
    let cells = read_cells_of(&ls, &imp, &h, cm, dl.as_str());
    let has_cells = cells.len() > 0;
    finish_metadata(&mut metadata, imp.extension, h.has_jupyter_md, has_cells);
    let sphinx = crate::text::starts_with(imp.format_name, "sphinx");
    let kept = if sphinx { sphinx_kept_of(cells) } else { cells };
    Ok(Notebook { nbformat: 4, nbformat_minor: 5, metadata, cells: kept })
}

} // verus!

verus! {

/// The cells of a notebook read from its lines (see `read_cells`).
#[verifier::rlimit(40)]
fn read_cells_of(ls: &Vec<String>, imp: &crate::formats::NotebookFormatDescription, h: &HeaderParseResult, cm: Option<bool>, dl: &str) -> (r: Vec<Cell>)
    requires
        ls@.len() < usize::MAX,
    ensures
        cells_view(r@) == read_cells(views(ls@), desc_view(*imp), crate::header::header_result_view(*h), match cm {
            Some(b) => Some(b),
            None => Some(true),
        }, dl@),
{
    proof {
        reveal_strlit("sphinx");
        reveal_strlit("%matplotlib inline");
    }
    let ext = imp.extension;
    let mut cells: Vec<Cell> = Vec::new();
    match &h.header_cell {
        Some(c) => {
            let m = lines_entry_of(c.lines_to_next_cell);
            cells.push(new_cell_of(CellType::Raw, owned(c.source.as_str()), m));
        },
        None => {},
    }
    let sphinx = crate::text::starts_with(imp.format_name, "sphinx");
    let ghost hv = crate::header::header_result_view(*h);
    let ghost hc = match hv.5 {
        Some(c) => seq![new_cell(CellType::Raw, c.0, lines_entry(c.1))],
        None => Seq::<CellTuple>::empty(),
    };
    assert(cells_view(cells@) =~= hc);
    if sphinx {
        let em: Vec<(String, String)> = Vec::new();
        assert(entry_views(em@) =~= Seq::<(Seq<char>, Seq<char>)>::empty());
        let ghost before = cells_view(cells@);
        let c = new_cell_of(CellType::Code, owned("%matplotlib inline"), em);
        cells.push(c);
        assert(cells_view(cells@) =~= before.push(cell_view(c)));
    }
    let ghost head = cells_view(cells@);
    assert(head =~= hc + if crate::text::has_prefix(imp.format_name@, "sphinx"@) {
        seq![new_cell(CellType::Code, "%matplotlib inline"@, Seq::empty())]
    } else {
        Seq::<CellTuple>::empty()
    });
    let fo = FormatOptions {
        extension: Some(owned(ext)),
        format_name: Some(owned(imp.format_name)),
        format_version: None,
        comment_magics: cm,
        cell_metadata_json: false,
        use_runtools: false,
        split_at_heading: false,
        cell_markers: None,
        rst2md: false,
        doxygen_equation_markers: false,
    };
    {
        let read = sphinx_cells_of(ls, h.next_line, &fo, dl);
        let mut i: usize = 0;
        let ghost rv = cells_view(read@);
        while i < read.len()
            invariant
                i <= read@.len(),
                rv == cells_view(read@),
                cells_view(cells@) == head + rv.take(i as int),
            decreases read.len() - i,
        {
            let ghost before = cells_view(cells@);
            cells.push(crate::notebook::copy_cell(&read[i]));
            assert(cells_view(cells@) =~= before.push(rv[i as int]));
            assert(head + rv.take(i + 1) =~= (head + rv.take(i as int)).push(rv[i as int]));
            i += 1;
        }
        assert(rv.take(read@.len() as int) =~= rv);
    }
    cells
}

} // verus!

verus! {

/// The first `n` entries of `s` set in `r`, in order.
pub open spec fn entries_set(r: Seq<(Seq<char>, Seq<char>)>, s: Seq<(Seq<char>, Seq<char>)>, n: int) -> Seq<(Seq<char>, Seq<char>)>
    decreases n,
{
    if n <= 0 {
        r
    } else {
        let prev = entries_set(r, s, n - 1);
        with_entry(prev, s[n - 1].0, s[n - 1].1)
    }
}

/// The first `n` entries of `s` whose keys `r` lacks added to `r`, in order.
pub open spec fn entries_added(r: Seq<(Seq<char>, Seq<char>)>, s: Seq<(Seq<char>, Seq<char>)>, n: int) -> Seq<(Seq<char>, Seq<char>)>
    decreases n,
{
    if n <= 0 {
        r
    } else {
        let prev = entries_added(r, s, n - 1);
        if crate::json::key_index(prev, s[n - 1].0) is None {
            prev.push(s[n - 1])
        } else {
            prev
        }
    }
}

/// The metadata of a source merged into that of an output: all of the output's when the
/// filter is `-all`; otherwise the output's, with the source entries that the filter keeps
/// set over them, and the other source entries added where the output lacks them.
pub open spec fn restored_metadata(src: Seq<(Seq<char>, Seq<char>)>, out: Seq<(Seq<char>, Seq<char>)>, filter: Option<Seq<char>>, default: Seq<char>) -> Seq<(Seq<char>, Seq<char>)> {
    if filter == Some("-all"@) {
        out
    } else {
        let f = match filter {
            Some(x) => x,
            None => Seq::empty(),
        };
        let tags = entry_of(src, "tags"@) == Some("[]"@);
        let fs = crate::compare::kept_by_filter(src, tags, f, default);
        entries_added(entries_set(out, fs, fs.len() as int), src, src.len() as int)
    }
}

fn entries_set_of(r: &mut Vec<(String, String)>, s: &Vec<(String, String)>)
    ensures
        entry_views(final(r)@) == entries_set(entry_views(old(r)@), entry_views(s@), s@.len() as int),
{
    let ghost r0 = entry_views(r@);
    let mut i: usize = 0;
    while i < s.len()
        invariant
            i <= s@.len(),
            entry_views(r@) == entries_set(r0, entry_views(s@), i as int),
        decreases s.len() - i,
    {
        assert(entry_views(s@)[i as int] == (s@[i as int].0@, s@[i as int].1@));
        set_entry(r, s[i].0.as_str(), owned(s[i].1.as_str()));
        i += 1;
    }
}

fn entries_added_of(r: &mut Vec<(String, String)>, s: &Vec<(String, String)>)
    ensures
        entry_views(final(r)@) == entries_added(entry_views(old(r)@), entry_views(s@), s@.len() as int),
{
    let ghost r0 = entry_views(r@);
    let mut i: usize = 0;
    while i < s.len()
        invariant
            i <= s@.len(),
            entry_views(r@) == entries_added(r0, entry_views(s@), i as int),
        decreases s.len() - i,
    {
        assert(entry_views(s@)[i as int] == (s@[i as int].0@, s@[i as int].1@));
        if crate::json::key_position(r, s[i].0.as_str()).is_none() {
            let ghost before = entry_views(r@);
            r.push((owned(s[i].0.as_str()), owned(s[i].1.as_str())));
            assert(entry_views(r@) =~= before.push(entry_views(s@)[i as int]));
        }
        i += 1;
    }
}

/// Merges the metadata of a source into that of an output (see `restored_metadata`).
fn restored_metadata_of(src: &Vec<(String, String)>, out: &Vec<(String, String)>, filter: Option<&str>, default: &str) -> (r: Vec<(String, String)>)
    ensures
        entry_views(r@) == restored_metadata(entry_views(src@), entry_views(out@), match filter {
            Some(f) => Some(f@),
            None => None,
        }, default@),
{
    proof {
        reveal_strlit("-all");
        reveal_strlit("tags");
        reveal_strlit("[]");
        reveal_strlit("");
    }
    match filter {
        Some(f) => {
            if str_eq(f, "-all") {
                return crate::notebook::copy_entries(out);
            }
        },
        None => {},
    }
    let f = match filter {
        Some(x) => x,
        None => "",
    };
    let tags = match entry_text(src, "tags") {
        Some(t) => str_eq(t.as_str(), "[]"),
        None => false,
    };
    let fs = crate::compare::kept_by_filter_of(src, tags, f, default);
    assert(f@ == match filter {
        Some(x) => x@,
        None => Seq::<char>::empty(),
    });
    let mut r = crate::notebook::copy_entries(out);
    entries_set_of(&mut r, &fs);
    entries_added_of(&mut r, src);
    r
}

} // verus!

verus! {

/// A markdown extension.
pub open spec fn markdown_ext(e: Seq<char>) -> bool {
    e == ".md"@ || e == ".markdown"@ || e == ".Rmd"@
}

/// The entry `key` of the format, or of the text representation that the source notebook
/// records, or the empty text.
pub open spec fn fmt_or_recorded(fmt: Map<Seq<char>, Seq<char>>, src: Seq<(Seq<char>, Seq<char>)>, key: Seq<char>) -> Seq<char> {
    match crate::cell_export::fmt_entry(fmt, key) {
        Some(v) => v,
        None => match crate::json::sub_sub_string(src, "jupytext"@, "text_representation"@, key) {
            Some(v) => v,
            None => Seq::empty(),
        },
    }
}

/// The notebook metadata of the combined notebook: that of the source merged into that of
/// the outputs, without the text representation when there are paired formats or the text
/// is markdown, and without an empty `jupytext` entry.
pub open spec fn combined_metadata(src: Seq<(Seq<char>, Seq<char>)>, out: Seq<(Seq<char>, Seq<char>)>, is_md: bool) -> Seq<(Seq<char>, Seq<char>)> {
    let nmf = sub_string(src, "jupytext"@, "notebook_metadata_filter"@);
    let m0 = restored_metadata(src, out, nmf, crate::metadata_filter::DEFAULT_NOTEBOOK_METADATA@);
    let m1 = if has_sub_entry(m0, "jupytext"@, "formats"@) || is_md {
        crate::json::without_sub_entry(m0, "jupytext"@, "text_representation"@)
    } else {
        m0
    };
    if crate::json::holds_empty_object(m1, "jupytext"@) {
        crate::json::without_entry(m1, "jupytext"@)
    } else {
        m1
    }
}

/// The type and source of each cell.
pub open spec fn type_and_source(cs: Seq<CellTuple>) -> Seq<(CellType, Seq<char>)> {
    cs.map_values(|c: CellTuple| (c.0, c.1))
}

/// Cell `i` of the combined notebook: the source cell when no output cell matches it, else
/// the matching output cell (its type, execution count, outputs and id) with the source of
/// the source cell and the metadata of both merged.
pub open spec fn combined_cell(s: Seq<CellTuple>, o: Seq<CellTuple>, map: Seq<Option<int>>, i: int, cmf: Option<Seq<char>>, spin: bool) -> CellTuple {
    match map[i] {
        None => s[i],
        Some(j) => {
            let eff = if spin && s[i].0 != CellType::Code {
                Some("-all"@)
            } else {
                cmf
            };
            (o[j].0, s[i].1, restored_metadata(s[i].2, o[j].2, eff, crate::cell_export::IGNORE_CELL_METADATA@), o[j].3, o[j].4, o[j].5)
        },
    }
}

/// The combined notebook: metadata and cells.
pub open spec fn combined(s_meta: Seq<(Seq<char>, Seq<char>)>, s: Seq<CellTuple>, o_meta: Seq<(Seq<char>, Seq<char>)>, o: Seq<CellTuple>, fmt: Map<Seq<char>, Seq<char>>) -> (Seq<(Seq<char>, Seq<char>)>, Seq<CellTuple>) {
    let ext = fmt_or_recorded(fmt, s_meta, "extension"@);
    let name = fmt_or_recorded(fmt, s_meta, "format_name"@);
    let is_md = markdown_ext(ext);
    let meta = combined_metadata(s_meta, o_meta, is_md);
    let md_v1 = is_md && crate::json::sub_sub_string(s_meta, "jupytext"@, "text_representation"@, "format_version"@) == Some("1.0"@);
    let cmf = if name == "nomarker"@ || name == "sphinx"@ || name == "marimo"@ || md_v1 {
        Some("-all"@)
    } else {
        sub_string(meta, "jupytext"@, "cell_metadata_filter"@)
    };
    let map = crate::combine::outputs_for_inputs(type_and_source(s), type_and_source(o));
    (meta, Seq::new(s.len(), |i: int| combined_cell(s, o, map, i, cmf, name == "spin"@)))
}

/// Combining keeps the source cells, in order: a source cell that an output cell matches
/// keeps its source and takes the type, execution count, outputs and id of that output
/// cell; a source cell that no output cell matches stays as it is.
pub proof fn combined_cells_take_matched_outputs(
    s_meta: Seq<(Seq<char>, Seq<char>)>,
    s: Seq<CellTuple>,
    o_meta: Seq<(Seq<char>, Seq<char>)>,
    o: Seq<CellTuple>,
    fmt: Map<Seq<char>, Seq<char>>,
    i: int,
)
    requires
        0 <= i < s.len(),
    ensures
        combined(s_meta, s, o_meta, o, fmt).1.len() == s.len(),
        ({
            let c = combined(s_meta, s, o_meta, o, fmt).1[i];
            match crate::combine::outputs_for_inputs(type_and_source(s), type_and_source(o))[i] {
                Some(j) => c.0 == o[j].0 && c.1 == s[i].1 && c.3 == o[j].3 && c.4 == o[j].4 && c.5 == o[j].5,
                None => c == s[i],
            }
        }),
{
}

fn fmt_text_or_recorded(fmt: &FormatMap, src: &Vec<(String, String)>, key: &str) -> (r: String)
    ensures
        r@ == fmt_or_recorded(fmt@, entry_views(src@), key@),
{
    proof {
        reveal_strlit("jupytext");
        reveal_strlit("text_representation");
    }
    match fmt.get(key) {
        Some(v) => v,
        None => match crate::json::sub_sub_string_of(src, "jupytext", "text_representation", key) {
            Some(v) => v,
            None => String::new(),
        },
    }
}

/// The source notebook's cells (their text, type and metadata) combined with the outputs of
/// the cells of `nb_outputs` that match them, and the metadata of both notebooks merged;
/// the format version is that of `nb_outputs`. `fmt` is the text format of the source, when
/// known (an empty map otherwise).
#[verifier::rlimit(60)]
pub fn combine_inputs_with_outputs(nb_source: &Notebook, nb_outputs: &Notebook, fmt: &FormatMap) -> (r: Notebook)
    ensures
        r.nbformat == nb_outputs.nbformat,
        r.nbformat_minor == nb_outputs.nbformat_minor,
        (entry_views(r.metadata@), cells_view(r.cells@)) == combined(
            entry_views(nb_source.metadata@),
            cells_view(nb_source.cells@),
            entry_views(nb_outputs.metadata@),
            cells_view(nb_outputs.cells@),
            fmt@,
        ),
{
    proof {
        reveal_strlit("extension");
        reveal_strlit("format_name");
        reveal_strlit(".md");
        reveal_strlit(".markdown");
        reveal_strlit(".Rmd");
        reveal_strlit("jupytext");
        reveal_strlit("notebook_metadata_filter");
        reveal_strlit("formats");
        reveal_strlit("text_representation");
        reveal_strlit("format_version");
        reveal_strlit("1.0");
        reveal_strlit("nomarker");
        reveal_strlit("sphinx");
        reveal_strlit("marimo");
        reveal_strlit("spin");
        reveal_strlit("-all");
        reveal_strlit("cell_metadata_filter");
    }
    let ghost sv = cells_view(nb_source.cells@);
    let ghost ov = cells_view(nb_outputs.cells@);
    let ext = fmt_text_or_recorded(fmt, &nb_source.metadata, "extension");
    let name = fmt_text_or_recorded(fmt, &nb_source.metadata, "format_name");
    let is_md = str_eq(ext.as_str(), ".md") || str_eq(ext.as_str(), ".markdown") || str_eq(ext.as_str(), ".Rmd");
    let nmf = sub_string_of(&nb_source.metadata, "jupytext", "notebook_metadata_filter");
    let mut meta = restored_metadata_of(&nb_source.metadata, &nb_outputs.metadata, match &nmf {
        Some(f) => Some(f.as_str()),
        None => None,
    }, crate::metadata_filter::DEFAULT_NOTEBOOK_METADATA);
    if has_sub_entry_of(&meta, "jupytext", "formats") || is_md {
        crate::json::remove_sub_entry(&mut meta, "jupytext", "text_representation");
    }
    if crate::json::holds_empty_object_of(&meta, "jupytext") {
        crate::json::remove_entry(&mut meta, "jupytext");
    }
    let md_v1 = is_md && match crate::json::sub_sub_string_of(&nb_source.metadata, "jupytext", "text_representation", "format_version") {
        Some(v) => str_eq(v.as_str(), "1.0"),
        None => false,
    };
    let cmf: Option<String> = if str_eq(name.as_str(), "nomarker") || str_eq(name.as_str(), "sphinx") || str_eq(name.as_str(), "marimo") || md_v1 {
        Some(owned("-all"))
    } else {
        sub_string_of(&meta, "jupytext", "cell_metadata_filter")
    };
    let spin = str_eq(name.as_str(), "spin");
    let ins = pairs_of(&nb_source.cells);
    let outs = pairs_of(&nb_outputs.cells);
    let map = crate::combine::map_outputs_to_inputs(&ins, &outs);
    let ghost mv = crate::combine::mapping_view(map@);
    assert(crate::combine::cell_views(ins@) == type_and_source(sv));
    assert(crate::combine::cell_views(outs@) == type_and_source(ov));
    proof {
        crate::combine::outputs_for_inputs_facts(type_and_source(sv), type_and_source(ov));
        assert(mv.len() == map@.len());
    }
    let mut cells: Vec<Cell> = Vec::new();
    let mut i: usize = 0;
    while i < nb_source.cells.len()
        invariant
            i <= nb_source.cells@.len(),
            sv == cells_view(nb_source.cells@),
            ov == cells_view(nb_outputs.cells@),
            map@.len() == nb_source.cells@.len(),
            mv == crate::combine::mapping_view(map@),
            mv == crate::combine::outputs_for_inputs(type_and_source(sv), type_and_source(ov)),
            forall|k: int| 0 <= k < mv.len() ==> (#[trigger] mv[k] matches Some(j) ==> 0 <= j < ov.len()),
            cells@.len() == i,
            forall|k: int| 0 <= k < i ==> cell_view(#[trigger] cells@[k]) == combined_cell(sv, ov, mv, k, match cmf {
                Some(f) => Some(f@),
                None => None,
            }, spin),
            spin == (name@ == "spin"@),
        decreases nb_source.cells.len() - i,
    {
        let sc = &nb_source.cells[i];
        assert(sv[i as int] == cell_view(*sc));
        assert(mv[i as int] == match map@[i as int] {
            Some(j) => Some(j as int),
            None => None::<int>,
        });
        match map[i] {
            None => {
                cells.push(crate::notebook::copy_cell(sc));
            },
            Some(j) => {
                assert(mv[i as int] == Some(j as int));
                let oc = &nb_outputs.cells[j];
                assert(ov[j as int] == cell_view(*oc));
                let code = match sc.cell_type {
                    CellType::Code => true,
                    _ => false,
                };
                let eff: Option<&str> = if spin && !code {
                    Some("-all")
                } else {
                    match &cmf {
                        Some(f) => Some(f.as_str()),
                        None => None,
                    }
                };
                let md = restored_metadata_of(&sc.metadata, &oc.metadata, eff, crate::cell_export::IGNORE_CELL_METADATA);
                let mut c = crate::notebook::copy_cell(oc);
                c.source = owned(sc.source.as_str());
                c.metadata = md;
                cells.push(c);
            },
        }
        i += 1;
    }
    assert(cells_view(cells@) =~= Seq::new(sv.len(), |k: int| combined_cell(sv, ov, mv, k, match cmf {
        Some(f) => Some(f@),
        None => None,
    }, spin)));
    Notebook { nbformat: nb_outputs.nbformat, nbformat_minor: nb_outputs.nbformat_minor, metadata: meta, cells }
}

fn pairs_of(cells: &Vec<Cell>) -> (r: Vec<(CellType, String)>)
    ensures
        crate::combine::cell_views(r@) == type_and_source(cells_view(cells@)),
{
    let mut out: Vec<(CellType, String)> = Vec::new();
    let mut i: usize = 0;
    while i < cells.len()
        invariant
            i <= cells@.len(),
            crate::combine::cell_views(out@) == type_and_source(cells_view(cells@)).take(i as int),
        decreases cells.len() - i,
    {
        let ghost before = crate::combine::cell_views(out@);
        assert(cells_view(cells@)[i as int] == cell_view(cells@[i as int]));
        out.push((cells[i].cell_type, owned(cells[i].source.as_str())));
        assert(crate::combine::cell_views(out@) =~= before.push((cells@[i as int].cell_type, cells@[i as int].source@)));
        assert(crate::combine::cell_views(out@) =~= type_and_source(cells_view(cells@)).take(i + 1));
        i += 1;
    }
    assert(type_and_source(cells_view(cells@)).take(cells@.len() as int) =~= type_and_source(cells_view(cells@)));
    out
}

} // verus!
