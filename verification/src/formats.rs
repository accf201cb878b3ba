//! Format registry for text notebooks, and the string forms of format specifications
//! (`"sfx.py:percent"`).

use vstd::prelude::*;
use crate::languages::{
    same_language, script_extensions, script_table, str_views, table_view, usual_name, ScriptLanguage,
};
use crate::format_map::FormatMap;
use crate::text::{
    char_len, chars_of, concat, concat3, contains_char, first_match, first_match_is,
    first_match_none, has_char, join, join_strings, lowercase, owned, rfind_char, rfind_char_facts,
    split_char,
    split_on, starts_with_char, str_eq, string_of, to_lowercase, trim, trim_str, vec_rfind_char,
    views,
};

verus! {

broadcast use crate::text::views_push;

/// Error in the specification of the format for the text notebook.
#[derive(Debug, Clone)]
pub struct JupytextFormatError(pub String);

/// Identifies which cell reader implementation to use.
#[derive(Debug, Clone, Copy, PartialEq, Eq)]
pub enum ReaderType {
    Markdown,
    RMarkdown,
    LightScript,
    DoublePercent,
    Hydrogen,
    SphinxGallery,
    RScript,
    /// For formats handled externally (pandoc, myst, quarto, marimo)
    External,
}

/// Identifies which cell exporter implementation to use.
#[derive(Debug, Clone, Copy, PartialEq, Eq)]
pub enum ExporterType {
    Markdown,
    RMarkdown,
    LightScript,
    BareScript,
    DoublePercent,
    Hydrogen,
    SphinxGallery,
    RScript,
    /// For formats handled externally (pandoc, myst, quarto, marimo)
    External,
}

/// Description of a single notebook text format.
#[derive(Debug, Clone, Copy)]
pub struct NotebookFormatDescription {
    pub format_name: &'static str,
    pub extension: &'static str,
    pub header_prefix: &'static str,
    pub header_suffix: &'static str,
    pub reader_type: ReaderType,
    pub exporter_type: ExporterType,
    pub current_version_number: &'static str,
    pub min_readable_version_number: Option<&'static str>,
}

/// A format description as plain values: name, extension, header prefix and suffix,
/// reader, exporter, current version and minimal readable version.
pub type FormatTuple = (Seq<char>, Seq<char>, Seq<char>, Seq<char>, ReaderType, ExporterType, Seq<char>, Option<Seq<char>>);

/// The plain values of a format description.
pub open spec fn desc_view(d: NotebookFormatDescription) -> FormatTuple {
    (
        d.format_name@,
        d.extension@,
        d.header_prefix@,
        d.header_suffix@,
        d.reader_type,
        d.exporter_type,
        d.current_version_number@,
        match d.min_readable_version_number {
            Some(m) => Some(m@),
            None => None,
        },
    )
}

/// The plain values of a list of format descriptions.
pub open spec fn descs_view(v: Seq<NotebookFormatDescription>) -> Seq<FormatTuple> {
    v.map_values(|d: NotebookFormatDescription| desc_view(d))
}

/// A block of formats, one for each script extension.
pub open spec fn script_format_block(name: Seq<char>, reader: ReaderType, exporter: ExporterType, current: Seq<char>, min: Option<Seq<char>>) -> Seq<FormatTuple> {
    Seq::new(script_table().len(), |i: int| (name, script_table()[i].0, script_table()[i].2, script_table()[i].3, reader, exporter, current, min))
}

/// The first formats of the registry: markdown and R markdown.
pub open spec fn format_table_head() -> Seq<FormatTuple> {
    seq![
        ("markdown"@, ".md"@, ""@, ""@, ReaderType::Markdown, ExporterType::Markdown, "1.3"@, Some("1.0"@)),
        ("markdown"@, ".markdown"@, ""@, ""@, ReaderType::Markdown, ExporterType::Markdown, "1.2"@, Some("1.0"@)),
        ("rmarkdown"@, ".Rmd"@, ""@, ""@, ReaderType::RMarkdown, ExporterType::RMarkdown, "1.2"@, Some("1.0"@)),
    ]
}

/// The last formats of the registry: spin, sphinx and the externally handled ones.
pub open spec fn format_table_tail() -> Seq<FormatTuple> {
    seq![
            ("spin"@, ".r"@, "#'"@, ""@, ReaderType::RScript, ExporterType::RScript, "1.0"@, None),
            ("spin"@, ".R"@, "#'"@, ""@, ReaderType::RScript, ExporterType::RScript, "1.0"@, None),
            ("sphinx"@, ".py"@, "#"@, ""@, ReaderType::SphinxGallery, ExporterType::SphinxGallery, "1.1"@, None),
            ("pandoc"@, ".md"@, ""@, ""@, ReaderType::External, ExporterType::External, "1.0"@, None),
            ("quarto"@, ".qmd"@, ""@, ""@, ReaderType::External, ExporterType::External, "1.0"@, None),
            ("marimo"@, ".py"@, ""@, ""@, ReaderType::External, ExporterType::External, "1.0"@, None),
            ("myst"@, ".md"@, ""@, ""@, ReaderType::External, ExporterType::External, "0.13"@, None),
        ]
}

/// All registered notebook text formats, in order.
pub open spec fn format_table() -> Seq<FormatTuple> {
    format_table_head()
        + script_format_block("light"@, ReaderType::LightScript, ExporterType::LightScript, "1.5"@, Some("1.1"@))
        + script_format_block("nomarker"@, ReaderType::LightScript, ExporterType::BareScript, "1.0"@, Some("1.0"@))
        + script_format_block("percent"@, ReaderType::DoublePercent, ExporterType::DoublePercent, "1.3"@, Some("1.1"@))
        + script_format_block("hydrogen"@, ReaderType::Hydrogen, ExporterType::Hydrogen, "1.3"@, Some("1.1"@))
        + format_table_tail()
}

/// All registered notebook text format descriptions.
#[verifier::rlimit(100)]
pub fn jupytext_formats() -> (r: Vec<NotebookFormatDescription>)
    ensures
        descs_view(r@) == format_table(),
{
    let mut v: Vec<NotebookFormatDescription> = Vec::new();
    v.push(NotebookFormatDescription { format_name: "markdown", extension: ".md", header_prefix: "", header_suffix: "", reader_type: ReaderType::Markdown, exporter_type: ExporterType::Markdown, current_version_number: "1.3", min_readable_version_number: Some("1.0") });
    v.push(NotebookFormatDescription { format_name: "markdown", extension: ".markdown", header_prefix: "", header_suffix: "", reader_type: ReaderType::Markdown, exporter_type: ExporterType::Markdown, current_version_number: "1.2", min_readable_version_number: Some("1.0") });
    v.push(NotebookFormatDescription { format_name: "rmarkdown", extension: ".Rmd", header_prefix: "", header_suffix: "", reader_type: ReaderType::RMarkdown, exporter_type: ExporterType::RMarkdown, current_version_number: "1.2", min_readable_version_number: Some("1.0") });
    assert(descs_view(v@) =~= format_table_head());
    push_script_formats(&mut v, "light", ReaderType::LightScript, ExporterType::LightScript, "1.5", Some("1.1"));
    push_script_formats(&mut v, "nomarker", ReaderType::LightScript, ExporterType::BareScript, "1.0", Some("1.0"));
    push_script_formats(&mut v, "percent", ReaderType::DoublePercent, ExporterType::DoublePercent, "1.3", Some("1.1"));
    push_script_formats(&mut v, "hydrogen", ReaderType::Hydrogen, ExporterType::Hydrogen, "1.3", Some("1.1"));
    let ghost mid = descs_view(v@);
    v.push(NotebookFormatDescription { format_name: "spin", extension: ".r", header_prefix: "#'", header_suffix: "", reader_type: ReaderType::RScript, exporter_type: ExporterType::RScript, current_version_number: "1.0", min_readable_version_number: None });
    v.push(NotebookFormatDescription { format_name: "spin", extension: ".R", header_prefix: "#'", header_suffix: "", reader_type: ReaderType::RScript, exporter_type: ExporterType::RScript, current_version_number: "1.0", min_readable_version_number: None });
    v.push(NotebookFormatDescription { format_name: "sphinx", extension: ".py", header_prefix: "#", header_suffix: "", reader_type: ReaderType::SphinxGallery, exporter_type: ExporterType::SphinxGallery, current_version_number: "1.1", min_readable_version_number: None });
    v.push(NotebookFormatDescription { format_name: "pandoc", extension: ".md", header_prefix: "", header_suffix: "", reader_type: ReaderType::External, exporter_type: ExporterType::External, current_version_number: "1.0", min_readable_version_number: None });
    v.push(NotebookFormatDescription { format_name: "quarto", extension: ".qmd", header_prefix: "", header_suffix: "", reader_type: ReaderType::External, exporter_type: ExporterType::External, current_version_number: "1.0", min_readable_version_number: None });
    v.push(NotebookFormatDescription { format_name: "marimo", extension: ".py", header_prefix: "", header_suffix: "", reader_type: ReaderType::External, exporter_type: ExporterType::External, current_version_number: "1.0", min_readable_version_number: None });
    v.push(NotebookFormatDescription { format_name: "myst", extension: ".md", header_prefix: "", header_suffix: "", reader_type: ReaderType::External, exporter_type: ExporterType::External, current_version_number: "0.13", min_readable_version_number: None });
    assert(descs_view(v@) =~= mid + format_table_tail());
    v
}

fn push_script_formats(
    v: &mut Vec<NotebookFormatDescription>,
    format_name: &'static str,
    reader_type: ReaderType,
    exporter_type: ExporterType,
    current_version_number: &'static str,
    min_readable_version_number: Option<&'static str>,
)
    ensures
        descs_view(final(v)@) == descs_view(old(v)@) + script_format_block(
            format_name@,
            reader_type,
            exporter_type,
            current_version_number@,
            match min_readable_version_number {
                Some(m) => Some(m@),
                None => None,
            },
        ),
{
    let ghost start = descs_view(v@);
    let ghost block = script_format_block(
        format_name@,
        reader_type,
        exporter_type,
        current_version_number@,
        match min_readable_version_number {
            Some(m) => Some(m@),
            None => None,
        },
    );
    let t = script_extensions();
    let mut i: usize = 0;
    while i < t.len()
        invariant
            table_view(t@) == script_table(),
            i <= t@.len(),
            block == script_format_block(
                format_name@,
                reader_type,
                exporter_type,
                current_version_number@,
                match min_readable_version_number {
                    Some(m) => Some(m@),
                    None => None,
                },
            ),
            descs_view(v@) == start + block.take(i as int),
        decreases t.len() - i,
    {
        let (ext, sl) = t[i];
        assert(table_view(t@)[i as int] == (ext@, sl.language@, sl.comment@, sl.comment_suffix@));
        let d = NotebookFormatDescription {
            format_name,
            extension: ext,
            header_prefix: sl.comment,
            header_suffix: sl.comment_suffix,
            reader_type,
            exporter_type,
            current_version_number,
            min_readable_version_number,
        };
        let ghost old_v = v@;
        v.push(d);
        assert(descs_view(v@) =~= descs_view(old_v).push(desc_view(d)));
        assert(desc_view(d) == block[i as int]);
        assert(descs_view(v@) =~= start + block.take(i + 1));
        i += 1;
    }
    assert(block.take(t@.len() as int) =~= block);
}

} // verus!

verus! {

/// `ext` reduced to its last dot-separated component, with a leading dot
/// (`".lgt.py"` becomes `".py"`, `"py"` becomes `".py"`).
pub open spec fn normalised_ext(ext: Seq<char>) -> Seq<char> {
    seq!['.'] + match rfind_char(ext, '.') {
        Some(i) => ext.subrange(i + 1, ext.len() as int),
        None => ext,
    }
}

/// The registered format `f` has extension `ext` and, when a name is asked for, that name.
pub open spec fn implements(f: FormatTuple, ext: Seq<char>, name: Option<Seq<char>>) -> bool {
    f.1 == ext && match name {
        Some(n) => f.0 == n,
        None => true,
    }
}

/// `implements` as a predicate on formats.
pub open spec fn implements_pred(ext: Seq<char>, name: Option<Seq<char>>) -> spec_fn(FormatTuple) -> bool {
    |f: FormatTuple| implements(f, ext, name)
}

/// Position of the first registered format matching `ext` and `name`.
pub open spec fn implementation_index(ext: Seq<char>, name: Option<Seq<char>>) -> Option<int> {
    first_match(format_table(), implements_pred(ext, name))
}

/// The names of the formats of `s` that have extension `ext`, in order.
pub open spec fn names_for_ext(s: Seq<FormatTuple>, ext: Seq<char>) -> Seq<Seq<char>>
    decreases s.len(),
{
    if s.len() == 0 {
        Seq::empty()
    } else if s.last().1 == ext {
        names_for_ext(s.drop_last(), ext).push(s.last().0)
    } else {
        names_for_ext(s.drop_last(), ext)
    }
}

/// The error message of `get_format_implementation` when no registered format matches.
pub open spec fn implementation_error(ext: Seq<char>, name: Option<Seq<char>>) -> Seq<char> {
    let names = names_for_ext(format_table(), ext);
    if names.len() > 0 {
        "Format '"@ + match name {
            Some(n) => n,
            None => Seq::empty(),
        } + "' is not associated to extension '"@ + ext + "'. Please choose one of: "@ + join(
            names,
            ", "@,
        ) + "."@
    } else {
        "No format associated to extension '"@ + ext + "'"@
    }
}

/// The last component of `ext`, with a leading dot.
pub fn normalise_ext(ext: &str) -> (r: String)
    ensures
        r@ == normalised_ext(ext@),
{
    let v = chars_of(ext);
    let len = v.len();
    let tail = match vec_rfind_char(&v, '.') {
        Some(i) => {
            assert(i < len);
            string_of(&v, i + 1, len)
        },
        None => owned(ext),
    };
    proof {
        reveal_strlit(".");
    }
    concat(".", tail.as_str())
}

/// The description of the format for extension `ext` (normalised to its last component)
/// and, when given, the format name `format_name`: the first registered format that matches.
pub fn get_format_implementation(ext: &str, format_name: Option<&str>) -> (r: Result<
    NotebookFormatDescription,
    JupytextFormatError,
>)
    ensures
        ({
            let e = normalised_ext(ext@);
            let n = match format_name {
                Some(s) => Some(s@),
                None => None,
            };
            match r {
                Ok(d) => implementation_index(e, n) matches Some(i) && desc_view(d)
                    == format_table()[i],
                Err(err) => implementation_index(e, n) is None && err.0@ == implementation_error(
                    e,
                    n,
                ),
            }
        }),
{
    let e = normalise_ext(ext);
    let ghost n = match format_name {
        Some(s) => Some(s@),
        None => None,
    };
    let formats = jupytext_formats();
    let ghost t = format_table();
    let mut names: Vec<String> = Vec::new();
    let mut i: usize = 0;
    while i < formats.len()
        invariant
            descs_view(formats@) == t,
            t == format_table(),
            e@ == normalised_ext(ext@),
            i <= t.len(),
            n == match format_name {
                Some(s) => Some(s@),
                None => None::<Seq<char>>,
            },
            forall|j: int| 0 <= j < i ==> !implements(#[trigger] t[j], e@, n),
            views(names@) == names_for_ext(t.take(i as int), e@),
        decreases formats.len() - i,
    {
        let d = formats[i];
        assert(desc_view(d) == t[i as int]);
        assert(t.take(i + 1).drop_last() =~= t.take(i as int));
        if str_eq(d.extension, e.as_str()) {
            let hit = match format_name {
                Some(name) => str_eq(name, d.format_name),
                None => true,
            };
            if hit {
                proof {
                    assert(implements(t[i as int], e@, n));
                    assert(implements_pred(e@, n)(t[i as int]));
                    first_match_is(t, implements_pred(e@, n), i as int);
                }
                return Ok(d);
            }
            names.push(owned(d.format_name));
        }
        i += 1;
    }
    proof {
        assert forall|j: int| 0 <= j < t.len() implies !implements_pred(e@, n)(t[j]) by {
            assert(!implements(t[j], e@, n));
        }
        first_match_none(t, implements_pred(e@, n));
        assert(t.take(t.len() as int) =~= t);
    }
    if names.len() > 0 {
        let name = match format_name {
            Some(s) => s,
            None => "",
        };
        let listed = join_strings(&names, ", ");
        let a = concat3("Format '", name, "' is not associated to extension '");
        let b = concat3(a.as_str(), e.as_str(), "'. Please choose one of: ");
        let c = concat3(b.as_str(), listed.as_str(), ".");
        proof {
            reveal_strlit("");
        }
        Err(JupytextFormatError(c))
    } else {
        let a = concat3("No format associated to extension '", e.as_str(), "'");
        Err(JupytextFormatError(a))
    }
}

} // verus!

verus! {

/// The extensions of the first `n` registered formats, after `.ipynb`, each kept at its
/// first appearance.
pub open spec fn extensions_upto(n: int) -> Seq<Seq<char>>
    decreases n,
{
    if n <= 0 {
        seq![".ipynb"@]
    } else {
        let prev = extensions_upto(n - 1);
        let e = format_table()[n - 1].1;
        if prev.contains(e) {
            prev
        } else {
            prev.push(e)
        }
    }
}

/// All supported notebook extensions: `.ipynb`, then the extensions of the registered
/// formats in the order they first appear.
pub open spec fn notebook_extension_list() -> Seq<Seq<char>> {
    extensions_upto(format_table().len() as int)
}

/// `e` is a notebook extension.
pub open spec fn is_notebook_ext(e: Seq<char>) -> bool {
    notebook_extension_list().contains(e)
}

proof fn lemma_extensions_upto(n: int)
    requires
        0 <= n <= format_table().len(),
    ensures
        extensions_upto(n).len() >= 1,
        extensions_upto(n)[0] == ".ipynb"@,
        extensions_upto(n).no_duplicates(),
        forall|e: Seq<char>|
            extensions_upto(n).contains(e) <==> (e == ".ipynb"@ || exists|j: int|
                0 <= j < n && #[trigger] format_table()[j].1 == e),
    decreases n,
{
    if n > 0 {
        lemma_extensions_upto(n - 1);
        let prev = extensions_upto(n - 1);
        let e = format_table()[n - 1].1;
        if !prev.contains(e) {
            assert forall|x: Seq<char>| prev.push(e).contains(x) <==> (x == ".ipynb"@ || exists|
                j: int,
            | 0 <= j < n && #[trigger] format_table()[j].1 == x) by {
                if prev.push(e).contains(x) {
                    let k = choose|k: int| 0 <= k < prev.push(e).len() && prev.push(e)[k] == x;
                    if k < prev.len() {
                        assert(prev.contains(x));
                    }
                }
                if prev.contains(x) {
                    let k = choose|k: int| 0 <= k < prev.len() && prev[k] == x;
                    assert(prev.push(e)[k] == x);
                }
                if exists|j: int| 0 <= j < n && #[trigger] format_table()[j].1 == x {
                    let j = choose|j: int| 0 <= j < n && #[trigger] format_table()[j].1 == x;
                    if j == n - 1 {
                        assert(prev.push(e)[prev.len() as int] == x);
                    }
                }
            }
        } else {
            assert forall|x: Seq<char>| prev.contains(x) <==> (x == ".ipynb"@ || exists|j: int|
                0 <= j < n && #[trigger] format_table()[j].1 == x) by {
                if exists|j: int| 0 <= j < n && #[trigger] format_table()[j].1 == x {
                    let j = choose|j: int| 0 <= j < n && #[trigger] format_table()[j].1 == x;
                    if j < n - 1 {
                        assert(exists|j: int| 0 <= j < n - 1 && #[trigger] format_table()[j].1 == x);
                    }
                }
            }
        }
    }
}

/// `notebook_extension_list` starts with `.ipynb`, holds no extension twice, and holds
/// exactly `.ipynb` and the extensions of the registered formats.
pub proof fn notebook_extension_list_facts()
    ensures
        notebook_extension_list()[0] == ".ipynb"@,
        notebook_extension_list().no_duplicates(),
        forall|e: Seq<char>|
            is_notebook_ext(e) <==> (e == ".ipynb"@ || exists|j: int|
                0 <= j < format_table().len() && #[trigger] format_table()[j].1 == e),
{
    lemma_extensions_upto(format_table().len() as int);
}

pub(crate) fn contains_str_slice(v: &Vec<&'static str>, s: &str) -> (r: bool)
    ensures
        r == str_views(v@).contains(s@),
{
    let mut i: usize = 0;
    while i < v.len()
        invariant
            i <= v@.len(),
            forall|j: int| 0 <= j < i ==> v@[j]@ != s@,
        decreases v.len() - i,
    {
        if str_eq(v[i], s) {
            assert(str_views(v@)[i as int] == s@);
            return true;
        }
        i += 1;
    }
    proof {
        if str_views(v@).contains(s@) {
            let k = choose|k: int| 0 <= k < str_views(v@).len() && str_views(v@)[k] == s@;
            assert(v@[k]@ == s@);
        }
    }
    false
}

/// All supported notebook extensions (including `.ipynb`), in the order they first appear.
pub fn notebook_extensions() -> (r: Vec<&'static str>)
    ensures
        str_views(r@) == notebook_extension_list(),
{
    let formats = jupytext_formats();
    let ghost t = format_table();
    let mut r: Vec<&'static str> = Vec::new();
    r.push(".ipynb");
    assert(str_views(r@) =~= extensions_upto(0));
    let mut i: usize = 0;
    while i < formats.len()
        invariant
            descs_view(formats@) == t,
            t == format_table(),
            i <= t.len(),
            str_views(r@) == extensions_upto(i as int),
        decreases formats.len() - i,
    {
        let e = formats[i].extension;
        assert(e@ == t[i as int].1);
        if !contains_str_slice(&r, e) {
            let ghost before = str_views(r@);
            r.push(e);
            assert(str_views(r@) =~= before.push(e@));
        }
        i += 1;
    }
    r
}

/// `name` is the name of a registered format.
pub open spec fn is_valid_format_name(name: Seq<char>) -> bool {
    exists|j: int| 0 <= j < format_table().len() && #[trigger] format_table()[j].0 == name
}

/// `name` is the name of a registered format.
pub fn valid_format_name(name: &str) -> (r: bool)
    ensures
        r == is_valid_format_name(name@),
{
    let formats = jupytext_formats();
    let ghost t = format_table();
    let mut i: usize = 0;
    while i < formats.len()
        invariant
            descs_view(formats@) == t,
            t == format_table(),
            i <= t.len(),
            forall|j: int| 0 <= j < i ==> #[trigger] t[j].0 != name@,
        decreases formats.len() - i,
    {
        assert(formats[i as int].format_name@ == t[i as int].0);
        if str_eq(formats[i].format_name, name) {
            return true;
        }
        i += 1;
    }
    false
}

/// The names of the formats that do not support cell-level metadata.
pub open spec fn no_cell_metadata_names() -> Seq<Seq<char>> {
    seq!["sphinx"@, "nomarker"@, "spin"@, "quarto"@, "marimo"@]
}

/// Formats that do not support cell-level metadata.
pub fn formats_with_no_cell_metadata() -> (r: Vec<&'static str>)
    ensures
        str_views(r@) == no_cell_metadata_names(),
{
    let r: Vec<&'static str> = vec!["sphinx", "nomarker", "spin", "quarto", "marimo"];
    assert(str_views(r@) =~= no_cell_metadata_names());
    r
}

/// An extension without its leading character (the dot).
pub open spec fn undotted(e: Seq<char>) -> Seq<char> {
    if e.len() > 0 {
        e.drop_first()
    } else {
        e
    }
}

/// The `"ext:format_name"` entries (extension without its dot) of the registered formats in
/// `s` that support cell metadata and are read by one of the cell readers.
pub open spec fn cell_metadata_formats(s: Seq<FormatTuple>) -> Seq<Seq<char>>
    decreases s.len(),
{
    if s.len() == 0 {
        Seq::empty()
    } else {
        let f = s.last();
        let prev = cell_metadata_formats(s.drop_last());
        if !no_cell_metadata_names().contains(f.0) && f.4 != ReaderType::External {
            prev.push(undotted(f.1) + ":"@ + f.0)
        } else {
            prev
        }
    }
}

fn cell_metadata_entry(d: NotebookFormatDescription) -> (r: String)
    ensures
        r@ == undotted(d.extension@) + ":"@ + d.format_name@,
{
    let v = chars_of(d.extension);
    let len = v.len();
    let bare = if len > 0 {
        string_of(&v, 1, len)
    } else {
        String::new()
    };
    assert(len > 0 ==> v@.subrange(1, len as int) =~= v@.drop_first());
    concat3(bare.as_str(), ":", d.format_name)
}

/// `"ext:format_name"` for every registered format that supports cell metadata.
#[verifier::rlimit(40)]
pub fn formats_with_support_for_cell_metadata() -> (r: Vec<String>)
    ensures
        views(r@) == cell_metadata_formats(format_table()),
{
    let formats = jupytext_formats();
    let excluded = formats_with_no_cell_metadata();
    let ghost t = format_table();
    let mut r: Vec<String> = Vec::new();
    let mut i: usize = 0;
    while i < formats.len()
        invariant
            descs_view(formats@) == t,
            t == format_table(),
            str_views(excluded@) == no_cell_metadata_names(),
            i <= t.len(),
            views(r@) == cell_metadata_formats(t.take(i as int)),
        decreases formats.len() - i,
    {
        let d = formats[i];
        assert(desc_view(d) == t[i as int]);
        assert(t.take(i + 1).drop_last() =~= t.take(i as int));
        let external = match d.reader_type {
            ReaderType::External => true,
            _ => false,
        };
        let excluded_name = contains_str_slice(&excluded, d.format_name);
        let ghost before = views(r@);
        if !excluded_name && !external {
            let a = cell_metadata_entry(d);
            r.push(a);
            assert(views(r@) == before.push(a@));
        }
        i += 1;
    }
    assert(t.take(t.len() as int) =~= t);
    r
}

} // verus!

verus! {

/// What a common format name (lower-cased) stands for.
pub open spec fn common_name_target(l: Seq<char>) -> Option<Seq<char>> {
    if l == "notebook"@ {
        Some("ipynb"@)
    } else if l == "rmarkdown"@ {
        Some("Rmd"@)
    } else if l == "quarto"@ {
        Some("qmd"@)
    } else if l == "marimo"@ {
        Some("py"@)
    } else if l == "markdown"@ {
        Some("md"@)
    } else if l == "script"@ {
        Some("auto"@)
    } else if l == "c++"@ {
        Some("cpp"@)
    } else if l == "myst"@ {
        Some("md:myst"@)
    } else if l == "pandoc"@ {
        Some("md:pandoc"@)
    } else {
        None
    }
}

/// A format string with a common name replaced by what it stands for; `low` is the
/// string in lower case, which is what the common names are matched against.
pub open spec fn resolved_format(s: Seq<char>, low: Seq<char>) -> Seq<char> {
    match common_name_target(low) {
        Some(t) => t,
        None => s,
    }
}

/// The prefix (before the last `/`, when that is not the first character) and the rest.
pub open spec fn prefix_split(fs: Seq<char>) -> (Option<Seq<char>>, Seq<char>) {
    match rfind_char(fs, '/') {
        Some(p) => if p > 0 {
            (Some(fs.subrange(0, p)), fs.subrange(p + 1, fs.len() as int))
        } else {
            (None, fs)
        },
        None => (None, fs),
    }
}

/// The format name and the extension part of a format string without prefix;
/// `None` when it is neither an extension nor a format name.
pub open spec fn name_split(fs: Seq<char>) -> Option<(Option<Seq<char>>, Seq<char>)> {
    match rfind_char(fs, ':') {
        Some(c) => {
            let name = fs.subrange(c + 1, fs.len() as int);
            Some(
                (
                    Some(
                        if name == "bare"@ {
                            "nomarker"@
                        } else {
                            name
                        },
                    ),
                    fs.subrange(0, c),
                ),
            )
        },
        None => if fs.len() == 0 || has_char(fs, '.') || is_notebook_ext(seq!['.'] + fs) || fs
            == "auto"@ {
            Some((None, fs))
        } else if is_valid_format_name(fs) {
            Some((Some(fs), Seq::empty()))
        } else {
            None
        },
    }
}

/// The suffix (before the last `.`, when that is not the first character) and the extension.
pub open spec fn suffix_split(ext: Seq<char>) -> (Option<Seq<char>>, Seq<char>) {
    match rfind_char(ext, '.') {
        Some(d) => if d > 0 {
            (Some(ext.subrange(0, d)), ext.subrange(d, ext.len() as int))
        } else {
            (None, ext)
        },
        None => (None, ext),
    }
}

/// `e` with a leading dot.
pub open spec fn dotted(e: Seq<char>) -> Seq<char> {
    if e.len() > 0 && e[0] == '.' {
        e
    } else {
        seq!['.'] + e
    }
}

/// `m` with `k` set to `v` when there is a value.
pub open spec fn with_entry(m: Map<Seq<char>, Seq<char>>, k: Seq<char>, v: Option<Seq<char>>) -> Map<
    Seq<char>,
    Seq<char>,
> {
    match v {
        Some(x) => m.insert(k, x),
        None => m,
    }
}

/// The long form of a format string such as `"dir/sfx.py:percent"`, with keys `prefix`,
/// `format_name`, `suffix` and `extension`; `None` when the string is not a valid format.
pub open spec fn long_form(s: Seq<char>) -> Option<Map<Seq<char>, Seq<char>>> {
    long_form_lowered(s, lowercase(s))
}

/// `long_form` of `s`, given `low`, the string in lower case.
pub open spec fn long_form_lowered(s: Seq<char>, low: Seq<char>) -> Option<Map<Seq<char>, Seq<char>>> {
    if s.len() == 0 {
        Some(Map::empty())
    } else {
        let (prefix, fs) = prefix_split(resolved_format(s, low));
        match name_split(fs) {
            None => None,
            Some((name, ext)) => {
                let (suffix, e) = suffix_split(ext);
                let extension = dotted(e);
                let m = with_entry(
                    with_entry(with_entry(Map::empty(), "prefix"@, prefix), "format_name"@, name),
                    "suffix"@,
                    suffix,
                ).insert("extension"@, extension);
                let name_ok = match name {
                    Some(n) => is_valid_format_name(n),
                    None => true,
                };
                if name_ok && (extension == ".auto"@ || is_notebook_ext(extension)) {
                    Some(m)
                } else {
                    None
                }
            },
        }
    }
}

/// The long form of a format string as strings: that of `long_form`, or, for an invalid
/// string, just its extension (the string itself, with a leading dot).
pub open spec fn long_form_strings(s: Seq<char>) -> Map<Seq<char>, Seq<char>> {
    match long_form(s) {
        Some(m) => m,
        None => Map::empty().insert("extension"@, dotted(s)),
    }
}

/// The long forms of the comma-separated pieces `parts`: empty pieces, invalid ones and
/// those with extension `.auto` are left out.
pub open spec fn long_forms(parts: Seq<Seq<char>>) -> Seq<Map<Seq<char>, Seq<char>>>
    decreases parts.len(),
{
    if parts.len() == 0 {
        Seq::empty()
    } else {
        let prev = long_forms(parts.drop_last());
        let p = parts.last();
        if p.len() == 0 {
            prev
        } else {
            match long_form(trim(p)) {
                Some(m) => if m.contains_key("extension"@) && m["extension"@] == ".auto"@ {
                    prev
                } else {
                    prev.push(m)
                },
                None => prev,
            }
        }
    }
}

fn common_name_target_of(l: &str) -> (r: Option<&'static str>)
    ensures
        match r {
            Some(t) => common_name_target(l@) == Some(t@),
            None => common_name_target(l@) is None,
        },
{
    if str_eq(l, "notebook") {
        Some("ipynb")
    } else if str_eq(l, "rmarkdown") {
        Some("Rmd")
    } else if str_eq(l, "quarto") {
        Some("qmd")
    } else if str_eq(l, "marimo") {
        Some("py")
    } else if str_eq(l, "markdown") {
        Some("md")
    } else if str_eq(l, "script") {
        Some("auto")
    } else if str_eq(l, "c++") {
        Some("cpp")
    } else if str_eq(l, "myst") {
        Some("md:myst")
    } else if str_eq(l, "pandoc") {
        Some("md:pandoc")
    } else {
        None
    }
}

fn split_prefix(fs: &str) -> (r: (Option<String>, String))
    ensures
        ({
            let (p, rest) = prefix_split(fs@);
            &&& r.1@ == rest
            &&& match r.0 {
                Some(x) => p == Some(x@),
                None => p is None,
            }
        }),
{
    let v = chars_of(fs);
    let len = v.len();
    match vec_rfind_char(&v, '/') {
        Some(p) => {
            if p > 0 {
                assert(p < len);
                (Some(string_of(&v, 0, p)), string_of(&v, p + 1, len))
            } else {
                (None, owned(fs))
            }
        },
        None => (None, owned(fs)),
    }
}

fn split_name(fs: &str) -> (r: Option<(Option<String>, String)>)
    ensures
        match r {
            Some((n, e)) => name_split(fs@) matches Some((sn, se)) && se == e@ && match n {
                Some(x) => sn == Some(x@),
                None => sn is None,
            },
            None => name_split(fs@) is None,
        },
{
    let v = chars_of(fs);
    let len = v.len();
    match vec_rfind_char(&v, ':') {
        Some(c) => {
            assert(c < len);
            let raw = string_of(&v, c + 1, len);
            let name = if str_eq(raw.as_str(), "bare") {
                owned("nomarker")
            } else {
                raw
            };
            let e = string_of(&v, 0, c);
            assert(name_split(fs@) == Some((Some(name@), e@)));
            Some((Some(name), e))
        },
        None => {
            let dotted_fs = concat(".", fs);
            proof {
                reveal_strlit(".");
                assert(dotted_fs@ =~= seq!['.'] + fs@);
            }
            if len == 0 || contains_char(fs, '.') || contains_str_slice(
                &notebook_extensions(),
                dotted_fs.as_str(),
            ) || str_eq(fs, "auto") {
                assert(name_split(fs@) == Some((None::<Seq<char>>, fs@)));
                Some((None, owned(fs)))
            } else if valid_format_name(fs) {
                let empty = String::new();
                assert(name_split(fs@) == Some((Some(fs@), empty@)));
                Some((Some(owned(fs)), empty))
            } else {
                None
            }
        },
    }
}

fn split_suffix(ext: &str) -> (r: (Option<String>, String))
    ensures
        ({
            let (sfx, e) = suffix_split(ext@);
            &&& r.1@ == e
            &&& match r.0 {
                Some(x) => sfx == Some(x@),
                None => sfx is None,
            }
        }),
{
    let v = chars_of(ext);
    let len = v.len();
    match vec_rfind_char(&v, '.') {
        Some(d) => {
            if d > 0 {
                (Some(string_of(&v, 0, d)), string_of(&v, d, len))
            } else {
                (None, owned(ext))
            }
        },
        None => (None, owned(ext)),
    }
}

fn with_dot(e: &str) -> (r: String)
    ensures
        r@ == dotted(e@),
{
    proof {
        reveal_strlit(".");
    }
    if starts_with_char(e, '.') {
        owned(e)
    } else {
        concat(".", e)
    }
}

fn insert_opt(m: &mut FormatMap, key: &str, value: Option<String>)
    ensures
        final(m)@ == with_entry(
            old(m)@,
            key@,
            match value {
                Some(x) => Some(x@),
                None => None,
            },
        ),
{
    match value {
        Some(x) => m.insert(owned(key), x),
        None => {},
    }
}

/// The long form of a format string; `None` when the string is not a valid format.
pub fn parse_format(format_str: &str) -> (r: Option<FormatMap>)
    ensures
        match r {
            Some(m) => long_form(format_str@) == Some(m@),
            None => long_form(format_str@) is None,
        },
{
    let low = to_lowercase(format_str);
    parse_format_lowered(format_str, low.as_str())
}

/// The long form of a format string, given the string in lower case; `None` when the
/// string is not a valid format.
pub fn parse_format_lowered(format_str: &str, lowered: &str) -> (r: Option<FormatMap>)
    ensures
        match r {
            Some(m) => long_form_lowered(format_str@, lowered@) == Some(m@),
            None => long_form_lowered(format_str@, lowered@) is None,
        },
{
    if char_len(format_str) == 0 {
        return Some(FormatMap::new());
    }
    let fs = match common_name_target_of(lowered) {
        Some(t) => owned(t),
        None => owned(format_str),
    };
    assert(fs@ == resolved_format(format_str@, lowered@));
    let (prefix, rest) = split_prefix(fs.as_str());
    let (name, ext) = match split_name(rest.as_str()) {
        Some(p) => p,
        None => return None,
    };
    let (suffix, e) = split_suffix(ext.as_str());
    let extension = with_dot(e.as_str());
    let name_ok = match &name {
        Some(n) => valid_format_name(n.as_str()),
        None => true,
    };
    let ext_ok = str_eq(extension.as_str(), ".auto") || contains_str_slice(
        &notebook_extensions(),
        extension.as_str(),
    );
    if !(name_ok && ext_ok) {
        return None;
    }
    let mut m = FormatMap::new();
    insert_opt(&mut m, "prefix", prefix);
    insert_opt(&mut m, "format_name", name);
    insert_opt(&mut m, "suffix", suffix);
    m.insert(owned("extension"), extension);
    Some(m)
}

/// The long form of a format string such as `"dir/sfx.py:percent"` as a map of strings;
/// for a string that is not a valid format, a map that holds only its extension.
pub fn long_form_one_format_as_strings(format_str: &str) -> (r: FormatMap)
    ensures
        r@ == long_form_strings(format_str@),
{
    match parse_format(format_str) {
        Some(m) => m,
        None => {
            let mut m = FormatMap::new();
            m.insert(owned("extension"), with_dot(format_str));
            m
        },
    }
}

/// The long forms of a comma-separated list of formats; empty or invalid entries, and
/// those with the `.auto` extension, are left out.
pub fn long_form_multiple_formats_as_strings(formats_str: &str) -> (r: Vec<FormatMap>)
    ensures
        r@.len() == long_forms(split_on(formats_str@, ',')).len(),
        forall|i: int| 0 <= i < r@.len() ==> (#[trigger] r@[i])@ == long_forms(
            split_on(formats_str@, ','),
        )[i],
{
    let parts = split_char(formats_str, ',');
    let ghost ps = split_on(formats_str@, ',');
    let mut r: Vec<FormatMap> = Vec::new();
    let mut i: usize = 0;
    while i < parts.len()
        invariant
            views(parts@) == ps,
            i <= ps.len(),
            r@.len() == long_forms(ps.take(i as int)).len(),
            forall|j: int| 0 <= j < r@.len() ==> (#[trigger] r@[j])@ == long_forms(
                ps.take(i as int),
            )[j],
        decreases parts.len() - i,
    {
        let p = parts[i].as_str();
        assert(p@ == ps[i as int]);
        assert(ps.take(i + 1).drop_last() =~= ps.take(i as int));
        let ghost before = long_forms(ps.take(i as int));
        if char_len(p) > 0 {
            let t = trim_str(p);
            match parse_format(t.as_str()) {
                Some(m) => {
                    let auto = match m.get("extension") {
                        Some(x) => str_eq(x.as_str(), ".auto"),
                        None => false,
                    };
                    if !auto {
                        r.push(m);
                    }
                },
                None => {},
            }
        }
        i += 1;
    }
    assert(ps.take(ps.len() as int) =~= ps);
    r
}

/// `m` holds a string value under `k` (the values `true` and `false` stand for booleans).
pub open spec fn holds_string(m: Map<Seq<char>, Seq<char>>, k: Seq<char>) -> bool {
    m.contains_key(k) && m[k] != "true"@ && m[k] != "false"@
}

/// The short form of a long-form format: `[prefix/][suffix]ext[:format_name]`, the extension
/// without its dot when there is no suffix, and no format name for the default markdown ones.
pub open spec fn short_form(m: Map<Seq<char>, Seq<char>>) -> Seq<char> {
    let ext = if holds_string(m, "extension"@) {
        m["extension"@]
    } else {
        Seq::empty()
    };
    let base = if holds_string(m, "suffix"@) {
        m["suffix"@] + ext
    } else if ext.len() > 0 && ext[0] == '.' {
        ext.drop_first()
    } else {
        ext
    };
    let with_prefix = if holds_string(m, "prefix"@) {
        m["prefix"@] + "/"@ + base
    } else {
        base
    };
    let name = m["format_name"@];
    let markdown = ext == ".md"@ || ext == ".markdown"@ || ext == ".Rmd"@;
    if holds_string(m, "format_name"@) && name.len() > 0 && !(markdown && !(name == "pandoc"@
        || name == "myst"@)) {
        with_prefix + ":"@ + name
    } else {
        with_prefix
    }
}

pub(crate) fn string_value(m: &FormatMap, key: &str) -> (r: Option<String>)
    ensures
        match r {
            Some(v) => holds_string(m@, key@) && v@ == m@[key@],
            None => !holds_string(m@, key@),
        },
{
    match m.get(key) {
        Some(v) => {
            if str_eq(v.as_str(), "true") || str_eq(v.as_str(), "false") {
                None
            } else {
                Some(v)
            }
        },
        None => None,
    }
}

/// The short form of a long-form format, such as `"py:percent"`.
pub fn short_form_one_format_str(fmt: &FormatMap) -> (r: String)
    ensures
        r@ == short_form(fmt@),
{
    let ext = match string_value(fmt, "extension") {
        Some(e) => e,
        None => String::new(),
    };
    let base = match string_value(fmt, "suffix") {
        Some(sfx) => concat(sfx.as_str(), ext.as_str()),
        None => {
            if starts_with_char(ext.as_str(), '.') {
                let v = chars_of(ext.as_str());
                let len = v.len();
                let b = string_of(&v, 1, len);
                assert(b@ =~= ext@.drop_first());
                b
            } else {
                ext.clone()
            }
        },
    };
    let with_prefix = match string_value(fmt, "prefix") {
        Some(p) => concat3(p.as_str(), "/", base.as_str()),
        None => base,
    };
    match string_value(fmt, "format_name") {
        Some(name) => {
            let markdown = str_eq(ext.as_str(), ".md") || str_eq(ext.as_str(), ".markdown")
                || str_eq(ext.as_str(), ".Rmd");
            let special = str_eq(name.as_str(), "pandoc") || str_eq(name.as_str(), "myst");
            if char_len(name.as_str()) > 0 && !(markdown && !special) {
                concat3(with_prefix.as_str(), ":", name.as_str())
            } else {
                with_prefix
            }
        },
        None => with_prefix,
    }
}

/// The short forms of `fmts`, joined with commas.
pub fn short_form_multiple_formats_str(fmts: &[FormatMap]) -> (r: String)
    ensures
        r@ == join(fmts@.map_values(|f: FormatMap| short_form(f@)), ","@),
{
    let mut parts: Vec<String> = Vec::new();
    let mut i: usize = 0;
    while i < fmts.len()
        invariant
            i <= fmts@.len(),
            views(parts@) == fmts@.take(i as int).map_values(|f: FormatMap| short_form(f@)),
        decreases fmts.len() - i,
    {
        let s = short_form_one_format_str(&fmts[i]);
        parts.push(s);
        assert(fmts@.take(i + 1).map_values(|f: FormatMap| short_form(f@)) =~= fmts@.take(
            i as int,
        ).map_values(|f: FormatMap| short_form(f@)).push(short_form(fmts@[i as int]@)));
        i += 1;
    }
    assert(fmts@.take(fmts@.len() as int) =~= fmts@);
    join_strings(&parts, ",")
}

} // verus!

verus! {

/// The format that `get_format_implementation` finds has the normalised extension and,
/// when one was asked for, the format name; none is found exactly when no registered
/// format has them.
pub proof fn implementation_facts(ext: Seq<char>, name: Option<Seq<char>>)
    ensures
        implementation_index(ext, name) matches Some(i) ==> 0 <= i < format_table().len()
            && format_table()[i].1 == ext && (name matches Some(n) ==> format_table()[i].0 == n),
        implementation_index(ext, name) is None <==> !exists|i: int|
            0 <= i < format_table().len() && implements(#[trigger] format_table()[i], ext, name),
{
    crate::text::first_match_facts(format_table(), implements_pred(ext, name));
    if implementation_index(ext, name) is None {
        assert forall|i: int| 0 <= i < format_table().len() implies !implements(
            #[trigger] format_table()[i],
            ext,
            name,
        ) by {
            assert(!implements_pred(ext, name)(format_table()[i]));
        }
    } else {
        let i = implementation_index(ext, name)->0;
        assert(implements_pred(ext, name)(format_table()[i]));
    }
}

/// The long form of a non-empty format string always has an extension, which starts
/// with a dot.
pub proof fn long_form_has_extension(s: Seq<char>)
    requires
        s.len() > 0,
    ensures
        long_form_strings(s).contains_key("extension"@),
        long_form_strings(s)["extension"@].len() > 0,
        long_form_strings(s)["extension"@][0] == '.',
{
}

} // verus!

verus! {

/// A normalised extension is its own normal form.
pub proof fn normalised_ext_idempotent(ext: Seq<char>)
    ensures
        normalised_ext(normalised_ext(ext)) == normalised_ext(ext),
{
    let tail = match rfind_char(ext, '.') {
        Some(i) => ext.subrange(i + 1, ext.len() as int),
        None => ext,
    };
    crate::text::rfind_char_facts(ext, '.');
    assert(!has_char(tail, '.')) by {
        match rfind_char(ext, '.') {
            Some(i) => {
                if has_char(tail, '.') {
                    let k = choose|k: int| 0 <= k < tail.len() && tail[k] == '.';
                    assert(ext[i + 1 + k] == '.');
                    assert(ext.subrange(i + 1, ext.len() as int)[k] == '.');
                }
            },
            None => {},
        }
    }
    let e = seq!['.'] + tail;
    lemma_rfind_first_dot(tail);
    assert(e.subrange(1, e.len() as int) =~= tail);
}

proof fn lemma_rfind_first_dot(tail: Seq<char>)
    requires
        !has_char(tail, '.'),
    ensures
        rfind_char(seq!['.'] + tail, '.') == Some(0int),
    decreases tail.len(),
{
    let e = seq!['.'] + tail;
    if tail.len() > 0 {
        assert(e.last() == tail.last());
        assert(e.drop_last() =~= seq!['.'] + tail.drop_last());
        assert(!has_char(tail.drop_last(), '.')) by {
            if has_char(tail.drop_last(), '.') {
                let k = choose|k: int| 0 <= k < tail.drop_last().len() && tail.drop_last()[k] == '.';
                assert(tail[k] == '.');
            }
        }
        lemma_rfind_first_dot(tail.drop_last());
        assert(tail[tail.len() - 1] != '.');
    } else {
        assert(e.drop_last() =~= Seq::<char>::empty());
    }
}

} // verus!

verus! {

/// What a notebook's metadata says of its language: the `file_extension` of its
/// `language_info`, the `language` of its `kernelspec`, and the `main_language` of its
/// `jupytext` entry, where they are strings.
#[derive(Debug, Clone, Default)]
pub struct NotebookLanguage {
    pub file_extension: Option<String>,
    pub kernel_language: Option<String>,
    pub main_language: Option<String>,
}

/// The first script extension whose language is `language` (up to the usual names).
pub open spec fn ext_for_language(language: Seq<char>) -> Option<Seq<char>> {
    match first_match(
        script_table(),
        |e: (Seq<char>, Seq<char>, Seq<char>, Seq<char>)| usual_name(language) == usual_name(e.1),
    ) {
        Some(i) => Some(script_table()[i].0),
        None => None,
    }
}

/// The usual form of a script extension: `.R`, `.fsx`, `.robot` and `.cpp` for `.r`, `.fs`,
/// `.resource` and `.C`.
pub open spec fn usual_ext(e: Seq<char>) -> Seq<char> {
    if e == ".r"@ {
        ".R"@
    } else if e == ".fs"@ {
        ".fsx"@
    } else if e == ".resource"@ {
        ".robot"@
    } else if e == ".C"@ {
        ".cpp"@
    } else {
        e
    }
}

/// The script extension of a notebook: that of its `language_info` (`.sage` for a Python
/// extension of a Sage kernel), else the first one of the language of its kernel or, without
/// one, of its main language; in its usual form.
pub open spec fn auto_ext_of(l: NotebookLanguage) -> Option<Seq<char>> {
    let from_info = match l.file_extension {
        Some(e) => if e@ == ".py"@ && opt_view(l.kernel_language) == Some("sage"@) {
            Some(".sage"@)
        } else {
            Some(e@)
        },
        None => None,
    };
    let found = match from_info {
        Some(e) => Some(e),
        None => match opt_view(l.kernel_language) {
            Some(k) => ext_for_language(k),
            None => match opt_view(l.main_language) {
                Some(m) => ext_for_language(m),
                None => None,
            },
        },
    };
    match found {
        Some(e) => Some(usual_ext(e)),
        None => None,
    }
}

/// The plain value of an optional string.
pub open spec fn opt_view(o: Option<String>) -> Option<Seq<char>> {
    match o {
        Some(s) => Some(s@),
        None => None,
    }
}

/// The first script extension whose language is `language`.
fn ext_for_language_exec(language: &str) -> (r: Option<&'static str>)
    ensures
        match r {
            Some(e) => ext_for_language(language@) == Some(e@),
            None => ext_for_language(language@) is None,
        },
{
    let t = script_extensions();
    let ghost f = |e: (Seq<char>, Seq<char>, Seq<char>, Seq<char>)| usual_name(language@) == usual_name(e.1);
    let mut i: usize = 0;
    while i < t.len()
        invariant
            table_view(t@) == script_table(),
            i <= t@.len(),
            f == (|e: (Seq<char>, Seq<char>, Seq<char>, Seq<char>)| usual_name(language@) == usual_name(e.1)),
            forall|j: int| 0 <= j < i ==> !f(script_table()[j]),
        decreases t.len() - i,
    {
        assert(table_view(t@)[i as int] == (t@[i as int].0@, t@[i as int].1.language@, t@[i as int].1.comment@, t@[i as int].1.comment_suffix@));
        if same_language(language, t[i].1.language) {
            proof {
                first_match_is(script_table(), f, i as int);
            }
            return Some(t[i].0);
        }
        i += 1;
    }
    proof {
        first_match_none(script_table(), f);
    }
    None
}

/// The script extension of a notebook, from what its metadata says of its language.
pub fn auto_ext_from_metadata(language: &NotebookLanguage) -> (r: Option<String>)
    ensures
        opt_view(r) == auto_ext_of(*language),
{
    proof {
        reveal_strlit(".py");
        reveal_strlit("sage");
    }
    let found: Option<String> = match &language.file_extension {
        Some(e) => {
            let sage = match &language.kernel_language {
                Some(k) => str_eq(k.as_str(), "sage"),
                None => false,
            };
            if str_eq(e.as_str(), ".py") && sage {
                Some(owned(".sage"))
            } else {
                Some(owned(e.as_str()))
            }
        },
        None => {
            let lang = match &language.kernel_language {
                Some(k) => Some(k.as_str()),
                None => match &language.main_language {
                    Some(m) => Some(m.as_str()),
                    None => None,
                },
            };
            match lang {
                Some(l) => match ext_for_language_exec(l) {
                    Some(e) => Some(owned(e)),
                    None => None,
                },
                None => None,
            }
        },
    };
    match found {
        Some(e) => {
            let s = e.as_str();
            if str_eq(s, ".r") {
                Some(owned(".R"))
            } else if str_eq(s, ".fs") {
                Some(owned(".fsx"))
            } else if str_eq(s, ".resource") {
                Some(owned(".robot"))
            } else if str_eq(s, ".C") {
                Some(owned(".cpp"))
            } else {
                Some(e)
            }
        },
        None => None,
    }
}

/// The message of `check_auto_ext` when the extension cannot be found.
pub open spec fn auto_ext_message(option: Seq<char>, current: Seq<char>) -> Seq<char> {
    "The notebook does not have a 'language_info' metadata. Please replace 'auto' with the actual language extension in the "@
        + option + " option (currently "@ + current + ")."@
}

/// The format with an `.auto` extension replaced by the notebook's script extension;
/// the error message, naming the option, when the notebook does not say.
pub open spec fn auto_ext_checked(fmt: Map<Seq<char>, Seq<char>>, l: NotebookLanguage, option: Seq<char>) -> Result<
    Map<Seq<char>, Seq<char>>,
    Seq<char>,
> {
    if !(fmt.contains_key("extension"@) && fmt["extension"@] == ".auto"@) {
        Ok(fmt)
    } else {
        match auto_ext_of(l) {
            Some(e) => Ok(fmt.insert("extension"@, e)),
            None => Err(auto_ext_message(option, short_form(fmt))),
        }
    }
}

/// Replaces the `.auto` extension of a format with the notebook's script extension; an
/// error, naming `option`, when the notebook's metadata does not give it.
pub fn check_auto_ext(fmt: &FormatMap, language: &NotebookLanguage, option: &str) -> (r: Result<
    FormatMap,
    JupytextFormatError,
>)
    ensures
        match r {
            Ok(m) => auto_ext_checked(fmt@, *language, option@) == Ok::<Map<Seq<char>, Seq<char>>, Seq<char>>(m@),
            Err(e) => auto_ext_checked(fmt@, *language, option@) == Err::<Map<Seq<char>, Seq<char>>, Seq<char>>(e.0@),
        },
{
    let auto = match fmt.get("extension") {
        Some(e) => str_eq(e.as_str(), ".auto"),
        None => false,
    };
    if !auto {
        return Ok(fmt.clone());
    }
    match auto_ext_from_metadata(language) {
        Some(e) => {
            let mut m = fmt.clone();
            m.insert(owned("extension"), e);
            Ok(m)
        },
        None => {
            let current = short_form_one_format_str(fmt);
            let head = concat3(
                "The notebook does not have a 'language_info' metadata. Please replace 'auto' with the actual language extension in the ",
                option,
                " option (currently ",
            );
            Err(JupytextFormatError(concat3(head.as_str(), current.as_str(), ").")))
        },
    }
}

/// The key has the same value, or none, in both formats.
pub open spec fn same_entry(a: Map<Seq<char>, Seq<char>>, b: Map<Seq<char>, Seq<char>>, k: Seq<char>) -> bool {
    a.contains_key(k) == b.contains_key(k) && (a.contains_key(k) ==> a[k] == b[k])
}

/// Do two long-form formats target the same file path: the same extension, prefix and
/// suffix?
pub fn identical_format_path(fmt1: &FormatMap, fmt2: &FormatMap) -> (r: bool)
    ensures
        r == (same_entry(fmt1@, fmt2@, "extension"@) && same_entry(fmt1@, fmt2@, "prefix"@)
            && same_entry(fmt1@, fmt2@, "suffix"@)),
{
    same_value(fmt1, fmt2, "extension") && same_value(fmt1, fmt2, "prefix") && same_value(fmt1, fmt2, "suffix")
}

fn same_value(a: &FormatMap, b: &FormatMap, key: &str) -> (r: bool)
    ensures
        r == same_entry(a@, b@, key@),
{
    match (a.get(key), b.get(key)) {
        (Some(x), Some(y)) => str_eq(x.as_str(), y.as_str()),
        (None, None) => true,
        _ => false,
    }
}

} // verus!


verus! {

/// A registered format name is not empty, holds no colon or slash, and is none of `bare`,
/// `true` and `false`.
pub open spec fn plain_format_name(n: Seq<char>) -> bool {
    &&& n.len() > 0
    &&& !has_char(n, ':')
    &&& !has_char(n, '/')
    &&& n != "bare"@
    &&& n != "true"@
    &&& n != "false"@
}

proof fn lemma_plain_literal(n: Seq<char>, chars: Seq<char>)
    requires
        n == chars,
        chars.len() > 0,
        forall|i: int| 0 <= i < chars.len() ==> 'a' <= #[trigger] chars[i] <= 'z',
        n != "bare"@,
        n != "true"@,
        n != "false"@,
    ensures
        plain_format_name(n),
{
    if has_char(n, ':') {
        let i = choose|i: int| 0 <= i < n.len() && n[i] == ':';
        assert('a' <= chars[i] <= 'z');
    }
    if has_char(n, '/') {
        let i = choose|i: int| 0 <= i < n.len() && n[i] == '/';
        assert('a' <= chars[i] <= 'z');
    }
}

/// The registered format names are plain.
pub proof fn registered_names_are_plain(n: Seq<char>)
    requires
        is_valid_format_name(n),
    ensures
        plain_format_name(n),
{
    reveal_strlit("bare");
    reveal_strlit("true");
    reveal_strlit("false");
    let j = choose|j: int| 0 <= j < format_table().len() && #[trigger] format_table()[j].0 == n;
    let head = format_table_head();
    let blocks = script_format_block("light"@, ReaderType::LightScript, ExporterType::LightScript, "1.5"@, Some("1.1"@))
        + script_format_block("nomarker"@, ReaderType::LightScript, ExporterType::BareScript, "1.0"@, Some("1.0"@))
        + script_format_block("percent"@, ReaderType::DoublePercent, ExporterType::DoublePercent, "1.3"@, Some("1.1"@))
        + script_format_block("hydrogen"@, ReaderType::Hydrogen, ExporterType::Hydrogen, "1.3"@, Some("1.1"@));
    let k = script_table().len() as int;
    assert(format_table() =~= head + blocks + format_table_tail());
    if j < 3 {
        assert(format_table()[j] == head[j]);
        if j == 2 {
            reveal_strlit("rmarkdown");
            assert("rmarkdown"@ =~= seq!['r', 'm', 'a', 'r', 'k', 'd', 'o', 'w', 'n']);
            lemma_plain_literal(n, seq!['r', 'm', 'a', 'r', 'k', 'd', 'o', 'w', 'n']);
        } else {
            reveal_strlit("markdown");
            assert("markdown"@ =~= seq!['m', 'a', 'r', 'k', 'd', 'o', 'w', 'n']);
            lemma_plain_literal(n, seq!['m', 'a', 'r', 'k', 'd', 'o', 'w', 'n']);
        }
    } else if j < 3 + 4 * k {
        let b = j - 3;
        assert(format_table()[j] == blocks[b]);
        if b < k {
            assert(blocks[b].0 == "light"@);
        } else if b < 2 * k {
            assert(blocks[b].0 == "nomarker"@);
        } else if b < 3 * k {
            assert(blocks[b].0 == "percent"@);
        } else {
            assert(blocks[b].0 == "hydrogen"@);
        }
        if b < k {
            reveal_strlit("light");
            assert("light"@ =~= seq!['l', 'i', 'g', 'h', 't']);
            lemma_plain_literal(n, seq!['l', 'i', 'g', 'h', 't']);
        } else if b < 2 * k {
            reveal_strlit("nomarker");
            assert("nomarker"@ =~= seq!['n', 'o', 'm', 'a', 'r', 'k', 'e', 'r']);
            lemma_plain_literal(n, seq!['n', 'o', 'm', 'a', 'r', 'k', 'e', 'r']);
        } else if b < 3 * k {
            reveal_strlit("percent");
            assert("percent"@ =~= seq!['p', 'e', 'r', 'c', 'e', 'n', 't']);
            lemma_plain_literal(n, seq!['p', 'e', 'r', 'c', 'e', 'n', 't']);
        } else {
            reveal_strlit("hydrogen");
            assert("hydrogen"@ =~= seq!['h', 'y', 'd', 'r', 'o', 'g', 'e', 'n']);
            lemma_plain_literal(n, seq!['h', 'y', 'd', 'r', 'o', 'g', 'e', 'n']);
        }
    } else {
        let t = j - 3 - 4 * k;
        assert(format_table()[j] == format_table_tail()[t]);
        if t < 2 {
            reveal_strlit("spin");
            assert("spin"@ =~= seq!['s', 'p', 'i', 'n']);
            lemma_plain_literal(n, seq!['s', 'p', 'i', 'n']);
        } else if t == 2 {
            reveal_strlit("sphinx");
            assert("sphinx"@ =~= seq!['s', 'p', 'h', 'i', 'n', 'x']);
            lemma_plain_literal(n, seq!['s', 'p', 'h', 'i', 'n', 'x']);
        } else if t == 3 {
            reveal_strlit("pandoc");
            assert("pandoc"@ =~= seq!['p', 'a', 'n', 'd', 'o', 'c']);
            lemma_plain_literal(n, seq!['p', 'a', 'n', 'd', 'o', 'c']);
        } else if t == 4 {
            reveal_strlit("quarto");
            assert("quarto"@ =~= seq!['q', 'u', 'a', 'r', 't', 'o']);
            lemma_plain_literal(n, seq!['q', 'u', 'a', 'r', 't', 'o']);
        } else if t == 5 {
            reveal_strlit("marimo");
            assert("marimo"@ =~= seq!['m', 'a', 'r', 'i', 'm', 'o']);
            lemma_plain_literal(n, seq!['m', 'a', 'r', 'i', 'm', 'o']);
        } else {
            reveal_strlit("myst");
            assert("myst"@ =~= seq!['m', 'y', 's', 't']);
            lemma_plain_literal(n, seq!['m', 'y', 's', 't']);
        }
    }
}

/// An extension that a short form can hold: a dot and a name without dots, slashes or
/// colons.
pub open spec fn plain_extension(e: Seq<char>) -> bool {
    &&& e.len() >= 2
    &&& e[0] == '.'
    &&& !has_char(e.drop_first(), '.')
    &&& !has_char(e, '/')
    &&& !has_char(e, ':')
}

/// A long-form format that a short form can hold: only the keys `extension`, `suffix`,
/// `prefix` and `format_name`, none with a flag for its value; a plain extension that is
/// `.auto` or a notebook extension; a non-empty suffix without slashes or colons; a
/// non-empty prefix; a registered format name.
pub open spec fn short_form_holds(m: Map<Seq<char>, Seq<char>>) -> bool {
    &&& forall|k: Seq<char>| #[trigger] m.contains_key(k) ==> k == "extension"@ || k == "suffix"@ || k
        == "prefix"@ || k == "format_name"@
    &&& holds_string(m, "extension"@)
    &&& plain_extension(m["extension"@])
    &&& m["extension"@] == ".auto"@ || is_notebook_ext(m["extension"@])
    &&& m.contains_key("suffix"@) ==> holds_string(m, "suffix"@) && m["suffix"@].len() > 0 && !has_char(
        m["suffix"@],
        '/',
    ) && !has_char(m["suffix"@], ':')
    &&& m.contains_key("prefix"@) ==> holds_string(m, "prefix"@) && m["prefix"@].len() > 0
    &&& m.contains_key("format_name"@) ==> is_valid_format_name(m["format_name"@])
}

/// The format name that the short form leaves out: that of a markdown format, but
/// `pandoc` and `myst`.
pub open spec fn name_left_out(m: Map<Seq<char>, Seq<char>>) -> bool {
    let ext = m["extension"@];
    let name = m["format_name"@];
    &&& m.contains_key("format_name"@)
    &&& ext == ".md"@ || ext == ".markdown"@ || ext == ".Rmd"@
    &&& !(name == "pandoc"@ || name == "myst"@)
}

proof fn lemma_has_char_add(a: Seq<char>, b: Seq<char>, c: char)
    ensures
        has_char(a + b, c) <==> (has_char(a, c) || has_char(b, c)),
{
    if has_char(a + b, c) {
        let i = choose|i: int| 0 <= i < (a + b).len() && (a + b)[i] == c;
        if i < a.len() {
            assert(a[i] == c);
        } else {
            assert(b[i - a.len()] == c);
        }
    }
    if has_char(a, c) {
        let i = choose|i: int| 0 <= i < a.len() && a[i] == c;
        assert((a + b)[i] == c);
    }
    if has_char(b, c) {
        let i = choose|i: int| 0 <= i < b.len() && b[i] == c;
        assert((a + b)[a.len() + i] == c);
    }
}

/// The last occurrence of `c` in `a + [c] + b`, when `b` has none, is at the length of `a`.
proof fn lemma_rfind_at(a: Seq<char>, b: Seq<char>, c: char)
    requires
        !has_char(b, c),
    ensures
        rfind_char(a + seq![c] + b, c) == Some(a.len() as int),
{
    let s = a + seq![c] + b;
    rfind_char_facts(s, c);
    let k = a.len() as int;
    assert(s[k] == c);
    match rfind_char(s, c) {
        Some(i) => {
            if i < k {
                assert(s.subrange(i + 1, s.len() as int)[k - i - 1] == c);
            } else if i > k {
                assert(b[i - k - 1] == c);
            }
        },
        None => {},
    }
}

/// A text without `c` has no last occurrence of it.
proof fn lemma_rfind_none(s: Seq<char>, c: char)
    requires
        !has_char(s, c),
    ensures
        rfind_char(s, c) is None,
{
    rfind_char_facts(s, c);
}

/// The entries that the long form of the short form of a format sets are those of the
/// format, but for a format name that is not shown.
proof fn lemma_long_form_entries(m: Map<Seq<char>, Seq<char>>, shown: bool)
    requires
        short_form_holds(m),
        shown == (m.contains_key("format_name"@) && !name_left_out(m)),
    ensures
        with_entry(
            with_entry(
                with_entry(
                    Map::empty(),
                    "prefix"@,
                    if m.contains_key("prefix"@) {
                        Some(m["prefix"@])
                    } else {
                        None
                    },
                ),
                "format_name"@,
                if shown {
                    Some(m["format_name"@])
                } else {
                    None
                },
            ),
            "suffix"@,
            if m.contains_key("suffix"@) {
                Some(m["suffix"@])
            } else {
                None
            },
        ).insert("extension"@, m["extension"@]) == if name_left_out(m) {
            m.remove("format_name"@)
        } else {
            m
        },
{
    let built = with_entry(
        with_entry(
            with_entry(
                Map::empty(),
                "prefix"@,
                if m.contains_key("prefix"@) {
                    Some(m["prefix"@])
                } else {
                    None
                },
            ),
            "format_name"@,
            if shown {
                Some(m["format_name"@])
            } else {
                None
            },
        ),
        "suffix"@,
        if m.contains_key("suffix"@) {
            Some(m["suffix"@])
        } else {
            None
        },
    ).insert("extension"@, m["extension"@]);
    let expected = if name_left_out(m) {
        m.remove("format_name"@)
    } else {
        m
    };
    let m0: Map<Seq<char>, Seq<char>> = Map::empty();
    let m1 = with_entry(m0, "prefix"@, if m.contains_key("prefix"@) { Some(m["prefix"@]) } else { None });
    let m2 = with_entry(m1, "format_name"@, if shown { Some(m["format_name"@]) } else { None });
    let m3 = with_entry(m2, "suffix"@, if m.contains_key("suffix"@) { Some(m["suffix"@]) } else { None });
    assert(built == m3.insert("extension"@, m["extension"@]));
    assert forall|k: Seq<char>| #[trigger] built.contains_key(k) <==> expected.contains_key(k) by {
        if m.contains_key(k) {
            assert(k == "extension"@ || k == "suffix"@ || k == "prefix"@ || k == "format_name"@);
        }
        assert(m1.contains_key(k) <==> (k == "prefix"@ && m.contains_key("prefix"@)));
        assert(m2.contains_key(k) <==> (m1.contains_key(k) || (k == "format_name"@ && shown)));
        assert(m3.contains_key(k) <==> (m2.contains_key(k) || (k == "suffix"@ && m.contains_key("suffix"@))));
        assert(built.contains_key(k) <==> (m3.contains_key(k) || k == "extension"@));
        assert(m.contains_key("extension"@));
        assert(expected.contains_key(k) <==> (m.contains_key(k) && !(name_left_out(m) && k == "format_name"@)));
        reveal_strlit("extension");
        reveal_strlit("suffix");
        reveal_strlit("prefix");
        reveal_strlit("format_name");
        assert("extension"@.len() == 9);
        assert("format_name"@.len() == 11);
        assert("prefix"@.len() == 6);
        assert("suffix"@.len() == 6);
    }
    assert forall|k: Seq<char>| #[trigger] built.contains_key(k) implies built[k] == expected[k] by {
        if m.contains_key(k) {
            assert(k == "extension"@ || k == "suffix"@ || k == "prefix"@ || k == "format_name"@);
        }
    }
    assert(built =~= expected);
}

/// The long form of the short form of a format gives the format back, but for a format
/// name that the short form leaves out (that of a markdown format other than pandoc and
/// myst), when the short form in lower case is not one of the common names that stand
/// for other formats (as `markdown`, the short form of the extension `.markdown`, does).
#[verifier::rlimit(50)]
pub proof fn short_form_reads_back(m: Map<Seq<char>, Seq<char>>)
    requires
        short_form_holds(m),
        common_name_target(lowercase(short_form(m))) is None,
    ensures
        long_form(short_form(m)) == Some(
            if name_left_out(m) {
                m.remove("format_name"@)
            } else {
                m
            },
        ),
{
    reveal_strlit("/");
    reveal_strlit(":");
    reveal_strlit("bare");
    reveal_strlit("true");
    reveal_strlit("false");
    reveal_strlit("auto");
    reveal_strlit(".auto");
    assert("/"@ =~= seq!['/']);
    assert(":"@ =~= seq![':']);
    let ext = m["extension"@];
    let e1 = ext.drop_first();
    assert(seq!['.'] + e1 =~= ext);
    let has_s = m.contains_key("suffix"@);
    let has_p = m.contains_key("prefix"@);
    let has_n = m.contains_key("format_name"@);
    let s = m["suffix"@];
    let p = m["prefix"@];
    let n = m["format_name"@];
    if has_n {
        registered_names_are_plain(n);
    }
    let shown = has_n && !name_left_out(m);
    // The pieces of the short form hold no slash, and no colon.
    assert(!has_char(e1, '/') && !has_char(e1, ':')) by {
        if has_char(e1, '/') {
            let i = choose|i: int| 0 <= i < e1.len() && e1[i] == '/';
            assert(ext[i + 1] == '/');
        }
        if has_char(e1, ':') {
            let i = choose|i: int| 0 <= i < e1.len() && e1[i] == ':';
            assert(ext[i + 1] == ':');
        }
    }
    let base = if has_s {
        s + ext
    } else {
        e1
    };
    lemma_has_char_add(s, ext, '/');
    lemma_has_char_add(s, ext, ':');
    lemma_has_char_add(s, ext, '.');
    assert(!has_char(base, '/') && !has_char(base, ':'));
    assert(base.len() > 0);
    let rest = if shown {
        base + seq![':'] + n
    } else {
        base
    };
    lemma_has_char_add(base, seq![':'], '/');
    lemma_has_char_add(base + seq![':'], n, '/');
    assert(!has_char(seq![':'], '/')) by {
        if has_char(seq![':'], '/') {
            let i = choose|i: int| 0 <= i < 1 && seq![':'][i] == '/';
        }
    }
    assert(!has_char(rest, '/'));
    let full = if has_p {
        p + seq!['/'] + rest
    } else {
        rest
    };
    let name_shown = holds_string(m, "format_name"@) && n.len() > 0 && !((ext == ".md"@ || ext
        == ".markdown"@ || ext == ".Rmd"@) && !(n == "pandoc"@ || n == "myst"@));
    assert(name_shown == shown);
    assert(short_form(m) == full);
    assert(full.len() > 0);
    let low = lowercase(full);
    assert(resolved_format(full, low) == full);
    // The prefix.
    if has_p {
        lemma_rfind_at(p, rest, '/');
        assert(full.subrange(0, p.len() as int) =~= p);
        assert(full.subrange(p.len() as int + 1, full.len() as int) =~= rest);
        assert(prefix_split(full) == (Some(p), rest));
    } else {
        lemma_rfind_none(full, '/');
        assert(prefix_split(full) == (None::<Seq<char>>, rest));
    }
    // The format name.
    if shown {
        lemma_rfind_at(base, n, ':');
        assert(rest.subrange(base.len() as int + 1, rest.len() as int) =~= n);
        assert(rest.subrange(0, base.len() as int) =~= base);
        assert(name_split(rest) == Some((Some(n), base)));
    } else {
        lemma_rfind_none(rest, ':');
        if has_s {
            assert(base[s.len() as int] == '.');
            assert(has_char(base, '.'));
        } else if ext == ".auto"@ {
            assert(e1 =~= "auto"@);
        }
        assert(name_split(rest) == Some((None::<Seq<char>>, base)));
    }
    // The suffix and the extension.
    if has_s {
        lemma_rfind_at(s, e1, '.');
        assert(s + seq!['.'] + e1 =~= base);
        assert(base.subrange(0, s.len() as int) =~= s);
        assert(base.subrange(s.len() as int, base.len() as int) =~= ext);
        assert(suffix_split(base) == (Some(s), ext));
        assert(dotted(ext) == ext);
    } else {
        lemma_rfind_none(e1, '.');
        assert(suffix_split(base) == (None::<Seq<char>>, e1));
        assert(e1[0] != '.');
        assert(dotted(e1) == ext);
    }
    let expected = if name_left_out(m) {
        m.remove("format_name"@)
    } else {
        m
    };
    lemma_long_form_entries(m, shown);
    assert(long_form_lowered(full, low) == Some(expected));
}


/// A name made of ASCII lower-case letters is its own lower case.
proof fn lemma_lower_letters(n: Seq<char>)
    requires
        forall|i: int| 0 <= i < n.len() ==> 'a' <= #[trigger] n[i] <= 'z',
    ensures
        lowercase(n) == n,
{
    assert forall|i: int| 0 <= i < n.len() implies (#[trigger] n[i] as u32) < 128 by {
        assert('a' <= n[i] <= 'z');
    }
    assert(lowercase(n) =~= n);
}

/// The long form of a common name that stands for an extension alone (no `:`, `/` or `.`
/// in it) that the registry has.
proof fn lemma_long_form_extension_name(n: Seq<char>, t: Seq<char>, j: int)
    requires
        n.len() > 0,
        lowercase(n) == n,
        common_name_target(n) == Some(t),
        t.len() > 0,
        forall|i: int| 0 <= i < t.len() ==> #[trigger] t[i] != '/' && t[i] != ':' && t[i] != '.',
        0 <= j < format_table().len(),
        format_table()[j].1 == seq!['.'] + t,
    ensures
        long_form(n) matches Some(m) && m.contains_key("extension"@) && m["extension"@] == seq!['.'] + t,
{
    reveal_strlit("auto");
    reveal_strlit(".auto");
    rfind_char_facts(t, '/');
    rfind_char_facts(t, ':');
    rfind_char_facts(t, '.');
    lemma_extensions_upto(format_table().len() as int);
    assert(is_notebook_ext(seq!['.'] + t));
    assert(!has_char(t, '.'));
    assert(prefix_split(t) == (None::<Seq<char>>, t));
    assert(name_split(t) == Some((None::<Seq<char>>, t)));
    assert(suffix_split(t) == (None::<Seq<char>>, t));
    assert(dotted(t) == seq!['.'] + t);
}

/// The long form of a common name that stands for an extension and a format name.
proof fn lemma_long_form_format_name(n: Seq<char>, e: Seq<char>, name: Seq<char>, j: int, k: int)
    requires
        n.len() > 0,
        lowercase(n) == n,
        common_name_target(n) == Some(e + seq![':'] + name),
        e.len() > 0,
        forall|i: int| 0 <= i < e.len() ==> #[trigger] e[i] != '/' && e[i] != ':' && e[i] != '.',
        forall|i: int| 0 <= i < name.len() ==> #[trigger] name[i] != '/' && name[i] != ':',
        name != "bare"@,
        0 <= j < format_table().len(),
        format_table()[j].1 == seq!['.'] + e,
        0 <= k < format_table().len(),
        format_table()[k].0 == name,
    ensures
        long_form(n) matches Some(m) && m.contains_key("extension"@) && m["extension"@] == seq!['.'] + e,
{
    let t = e + seq![':'] + name;
    let p = e.len() as int;
    assert(t[p] == ':');
    rfind_char_facts(t, '/');
    rfind_char_facts(t, ':');
    rfind_char_facts(e, '.');
    assert(!has_char(t, '/')) by {
        if has_char(t, '/') {
            let i = choose|i: int| 0 <= i < t.len() && t[i] == '/';
            if i < p {
                assert(t[i] == e[i]);
            } else if i > p {
                assert(t[i] == name[i - p - 1]);
            }
        }
    }
    assert(rfind_char(t, ':') == Some(p)) by {
        match rfind_char(t, ':') {
            Some(i) => {
                if i < p {
                    assert(t.subrange(i + 1, t.len() as int)[p - i - 1] == ':');
                } else if i > p {
                    assert(t[i] == name[i - p - 1]);
                }
            },
            None => {
                assert(t[p] == ':');
            },
        }
    }
    assert(t.subrange(p + 1, t.len() as int) =~= name);
    assert(t.subrange(0, p) =~= e);
    assert(is_valid_format_name(name));
    lemma_extensions_upto(format_table().len() as int);
    assert(is_notebook_ext(seq!['.'] + e));
    assert(!has_char(e, '.'));
    assert(suffix_split(e) == (None::<Seq<char>>, e));
    assert(dotted(e) == seq!['.'] + e);
}

/// The common name of a registered format stands for that format: for markdown, R
/// markdown and the formats converted outside this library, the long form of the format
/// name has the extension that the registry gives the first format of that name.
pub proof fn common_names_name_their_format(i: int)
    requires
        0 <= i < format_table().len(),
        format_table()[i].4 == ReaderType::External || format_table()[i].0 == "markdown"@ || format_table()[i].0
            == "rmarkdown"@,
        forall|j: int| 0 <= j < i ==> format_table()[j].0 != format_table()[i].0,
    ensures
        long_form(format_table()[i].0) matches Some(m) && m.contains_key("extension"@) && m["extension"@]
            == format_table()[i].1,
{
    reveal_strlit("markdown");
    reveal_strlit("rmarkdown");
    reveal_strlit("pandoc");
    reveal_strlit("quarto");
    reveal_strlit("marimo");
    reveal_strlit("myst");
    reveal_strlit("notebook");
    reveal_strlit("script");
    reveal_strlit("c++");
    reveal_strlit("md");
    reveal_strlit("Rmd");
    reveal_strlit("qmd");
    reveal_strlit("py");
    reveal_strlit("md:myst");
    reveal_strlit("md:pandoc");
    reveal_strlit("ipynb");
    reveal_strlit("auto");
    reveal_strlit("bare");
    reveal_strlit(".md");
    reveal_strlit(".Rmd");
    reveal_strlit(".qmd");
    reveal_strlit(".py");
    reveal_strlit("light");
    reveal_strlit("nomarker");
    reveal_strlit("percent");
    reveal_strlit("hydrogen");
    let head = format_table_head();
    let blocks = script_format_block("light"@, ReaderType::LightScript, ExporterType::LightScript, "1.5"@, Some("1.1"@))
        + script_format_block("nomarker"@, ReaderType::LightScript, ExporterType::BareScript, "1.0"@, Some("1.0"@))
        + script_format_block("percent"@, ReaderType::DoublePercent, ExporterType::DoublePercent, "1.3"@, Some("1.1"@))
        + script_format_block("hydrogen"@, ReaderType::Hydrogen, ExporterType::Hydrogen, "1.3"@, Some("1.1"@));
    let tail = format_table_tail();
    let k = script_table().len() as int;
    assert(format_table() =~= head + blocks + tail);
    let n = format_table()[i].0;
    if i < 3 {
        assert(format_table()[i] == head[i]);
        if i == 1 {
            assert(format_table()[0] == head[0]);
            assert(false);
        } else if i == 0 {
            assert("markdown"@ =~= seq!['m', 'a', 'r', 'k', 'd', 'o', 'w', 'n']);
            lemma_lower_letters(n);
            assert("md"@ =~= seq!['m', 'd']);
            assert(seq!['.'] + "md"@ =~= ".md"@);
            lemma_long_form_extension_name(n, "md"@, 0);
        } else {
            assert("rmarkdown"@ =~= seq!['r', 'm', 'a', 'r', 'k', 'd', 'o', 'w', 'n']);
            lemma_lower_letters(n);
            assert("Rmd"@ =~= seq!['R', 'm', 'd']);
            assert(seq!['.'] + "Rmd"@ =~= ".Rmd"@);
            lemma_long_form_extension_name(n, "Rmd"@, 2);
        }
    } else if i < 3 + 4 * k {
        let b = i - 3;
        assert(format_table()[i] == blocks[b]);
        assert("markdown"@ =~= seq!['m', 'a', 'r', 'k', 'd', 'o', 'w', 'n']);
        assert("rmarkdown"@ =~= seq!['r', 'm', 'a', 'r', 'k', 'd', 'o', 'w', 'n']);
        if b < k {
            assert(blocks[b].0 == "light"@);
            assert("light"@ =~= seq!['l', 'i', 'g', 'h', 't']);
        } else if b < 2 * k {
            assert(blocks[b].0 == "nomarker"@);
            assert("nomarker"@ =~= seq!['n', 'o', 'm', 'a', 'r', 'k', 'e', 'r']);
        } else if b < 3 * k {
            assert(blocks[b].0 == "percent"@);
            assert("percent"@ =~= seq!['p', 'e', 'r', 'c', 'e', 'n', 't']);
        } else {
            assert(blocks[b].0 == "hydrogen"@);
            assert("hydrogen"@ =~= seq!['h', 'y', 'd', 'r', 'o', 'g', 'e', 'n']);
        }
        assert(false);
    } else {
        let t = i - 3 - 4 * k;
        assert(format_table()[i] == tail[t]);
        assert("markdown"@ =~= seq!['m', 'a', 'r', 'k', 'd', 'o', 'w', 'n']);
        assert("rmarkdown"@ =~= seq!['r', 'm', 'a', 'r', 'k', 'd', 'o', 'w', 'n']);
        assert("md"@ =~= seq!['m', 'd']);
        assert(seq!['.'] + "md"@ =~= ".md"@);
        let md_index = 0int;
        assert(format_table()[md_index] == head[0]);
        if t < 3 {
            if t < 2 {
                reveal_strlit("spin");
                assert("spin"@ =~= seq!['s', 'p', 'i', 'n']);
            } else {
                reveal_strlit("sphinx");
                assert("sphinx"@ =~= seq!['s', 'p', 'h', 'i', 'n', 'x']);
            }
            assert(false);
        } else if t == 3 {
            assert("pandoc"@ =~= seq!['p', 'a', 'n', 'd', 'o', 'c']);
            lemma_lower_letters(n);
            assert("md:pandoc"@ =~= "md"@ + seq![':'] + "pandoc"@);
            lemma_long_form_format_name(n, "md"@, "pandoc"@, md_index, i);
        } else if t == 4 {
            assert("quarto"@ =~= seq!['q', 'u', 'a', 'r', 't', 'o']);
            lemma_lower_letters(n);
            assert("qmd"@ =~= seq!['q', 'm', 'd']);
            assert(seq!['.'] + "qmd"@ =~= ".qmd"@);
            lemma_long_form_extension_name(n, "qmd"@, i);
        } else if t == 5 {
            assert("marimo"@ =~= seq!['m', 'a', 'r', 'i', 'm', 'o']);
            lemma_lower_letters(n);
            assert("py"@ =~= seq!['p', 'y']);
            assert(seq!['.'] + "py"@ =~= ".py"@);
            lemma_long_form_extension_name(n, "py"@, i);
        } else {
            assert("myst"@ =~= seq!['m', 'y', 's', 't']);
            lemma_lower_letters(n);
            assert("md:myst"@ =~= "md"@ + seq![':'] + "myst"@);
            lemma_long_form_format_name(n, "md"@, "myst"@, md_index, i);
        }
    }
}

} // verus!
