//! Line-level helpers of the cell readers, the format options they read, and the choice
//! of a reader for a format.

use vstd::prelude::*;
use crate::cell_metadata::{activity_active, is_active, CellActivity};
use crate::formats::ReaderType;
use crate::languages::{script_entry, script_language_for_ext, uncomment_lines, uncommented};
use crate::magics::{magics_toggled, uncomment_magic};
use crate::pep8::{pep8_lines, pep8_lines_between_cells};
use crate::magics::{is_magic, is_magic_line};
use crate::notebook::CellType;
use crate::pattern::{
    compile_pattern, compiled_from, escape, matches_str, pattern_hit, regex_escape, regex_hit, Pattern,
};
use crate::string_parser::{initial_model, model_quoted, next_model, ParserModel, StringParser};
use crate::text::{
    chars_of, concat, concat3, ends_with, find_char, find_char_facts, has_prefix, has_suffix, owned,
    join, join_strings, rfind_sub, starts_with, str_eq, string_of, trim, trim_end, trim_end_str, trim_start, trim_start_str, trim_str,
    vec_find_char, vec_rfind_sub, views,
};

verus! {

/// The pattern of a blank line.
pub open spec fn blank_pattern() -> Seq<char> {
    r"^\s*$"@
}

/// The pattern of a line that starts with whitespace.
pub open spec fn indented_pattern() -> Seq<char> {
    r"^\s"@
}

/// Does `line` match the blank-line pattern `^\s*$`?
pub fn blank_line(line: &str) -> (r: bool)
    ensures
        r == regex_hit(blank_pattern(), line@),
{
    matches_str(r"^\s*$", line)
}

/// Removes the comment prefix (and suffix) from each line.
pub fn uncomment(lines: &[String], prefix: &str, suffix: &str) -> (r: Vec<String>)
    ensures
        views(r@) == uncommented(views(lines@), prefix@, suffix@),
{
    uncomment_lines(lines, prefix, suffix)
}

/// Whether the lines from position `i` on are a fully commented paragraph: each commented
/// line is either commented twice or not a magic command, up to the first line that is not
/// commented, which must be blank and not the first one.
pub open spec fn fully_commented_from(lines: Seq<Seq<char>>, comment: Seq<char>, lang: Seq<char>, i: int) -> bool
    decreases lines.len() - i,
{
    if i < 0 || i >= lines.len() {
        true
    } else {
        let line = lines[i];
        if has_prefix(line, comment) {
            if has_prefix(trim_start(line.subrange(comment.len() as int, line.len() as int)), comment)
                || !is_magic_line(line, lang, true, false) {
                fully_commented_from(lines, comment, lang, i + 1)
            } else {
                false
            }
        } else {
            i > 0 && regex_hit(blank_pattern(), line)
        }
    }
}

/// Is every line of the paragraph commented (or blank after at least one comment)?
pub fn paragraph_is_fully_commented(lines: &[String], comment: &str, main_language: &str) -> (r: bool)
    ensures
        r == fully_commented_from(views(lines@), comment@, main_language@, 0),
{
    let ghost ls = views(lines@);
    let mut i: usize = 0;
    while i < lines.len()
        invariant
            i <= lines@.len(),
            ls == views(lines@),
            fully_commented_from(ls, comment@, main_language@, 0) == fully_commented_from(
                ls,
                comment@,
                main_language@,
                i as int,
            ),
        decreases lines.len() - i,
    {
        let line = lines[i].as_str();
        assert(line@ == ls[i as int]);
        if starts_with(line, comment) {
            let v = chars_of(line);
            let rest = string_of(&v, comment.unicode_len(), v.len());
            let rest_trimmed = trim_start_str(rest.as_str());
            if !starts_with(rest_trimmed.as_str(), comment) && is_magic(
                line,
                main_language,
                true,
                false,
            ) {
                return false;
            }
        } else {
            return i > 0 && blank_line(line);
        }
        i += 1;
    }
    true
}

/// Whether the first line from position `i` on that is not blank starts with whitespace.
pub open spec fn indented_from(lines: Seq<Seq<char>>, i: int) -> bool
    decreases lines.len() - i,
{
    if i < 0 || i >= lines.len() {
        false
    } else if regex_hit(blank_pattern(), lines[i]) {
        indented_from(lines, i + 1)
    } else {
        regex_hit(indented_pattern(), lines[i])
    }
}

/// Is the next non-blank line indented?
pub fn next_code_is_indented(lines: &[String]) -> (r: bool)
    ensures
        r == indented_from(views(lines@), 0),
{
    let ghost ls = views(lines@);
    let mut i: usize = 0;
    while i < lines.len()
        invariant
            i <= lines@.len(),
            ls == views(lines@),
            indented_from(ls, 0) == indented_from(ls, i as int),
        decreases lines.len() - i,
    {
        let line = lines[i].as_str();
        assert(line@ == ls[i as int]);
        if !blank_line(line) {
            return matches_str(r"^\s", line);
        }
        i += 1;
    }
    false
}

/// Is the first line from position `start` on that is not blank indented?
pub fn code_is_indented_from(lines: &[String], start: usize) -> (r: bool)
    ensures
        r == indented_from(views(lines@), start as int),
{
    let ghost ls = views(lines@);
    let mut i: usize = start;
    if i > lines.len() {
        return false;
    }
    while i < lines.len()
        invariant
            start <= i <= lines@.len(),
            ls == views(lines@),
            indented_from(ls, start as int) == indented_from(ls, i as int),
        decreases lines.len() - i,
    {
        let line = lines[i].as_str();
        assert(line@ == ls[i as int]);
        if !blank_line(line) {
            return matches_str(r"^\s", line);
        }
        i += 1;
    }
    false
}

/// The number of blank lines between the end of a cell and the next cell.
pub open spec fn lines_to_next_cell_count(cell_end_marker: int, next_cell_start: int, total: int, explicit_eoc: bool) -> int {
    if cell_end_marker < total {
        let lines = if next_cell_start >= cell_end_marker {
            next_cell_start - cell_end_marker
        } else {
            0
        };
        let lines = if explicit_eoc && lines > 0 {
            lines - 1
        } else {
            lines
        };
        if next_cell_start >= total {
            lines + 1
        } else {
            lines
        }
    } else {
        1
    }
}

/// How many blank lines are there between the end-of-cell marker and the next cell?
pub fn count_lines_to_next_cell(
    cell_end_marker: usize,
    next_cell_start: usize,
    total: usize,
    explicit_eoc: bool,
) -> (r: usize)
    requires
        lines_to_next_cell_count(
            cell_end_marker as int,
            next_cell_start as int,
            total as int,
            explicit_eoc,
        ) <= usize::MAX,
    ensures
        r == lines_to_next_cell_count(
            cell_end_marker as int,
            next_cell_start as int,
            total as int,
            explicit_eoc,
        ),
{
    if cell_end_marker < total {
        let mut lines: usize = if next_cell_start >= cell_end_marker {
            next_cell_start - cell_end_marker
        } else {
            0
        };
        if explicit_eoc && lines > 0 {
            lines -= 1;
        }
        if next_cell_start >= total {
            lines += 1;
        }
        return lines;
    }
    1
}

/// The last two lines are blank and the third last is not.
pub open spec fn ends_with_two_blank_lines(source: Seq<Seq<char>>) -> bool {
    let n = source.len() as int;
    n >= 3 && !regex_hit(blank_pattern(), source[n - 3]) && regex_hit(blank_pattern(), source[n - 2])
        && regex_hit(blank_pattern(), source[n - 1])
}

/// Are the last two lines blank, and the third last not?
pub fn last_two_lines_blank(source: &[String]) -> (r: bool)
    ensures
        r == ends_with_two_blank_lines(views(source@)),
{
    if source.len() < 3 {
        return false;
    }
    let n = source.len();
    !blank_line(source[n - 3].as_str()) && blank_line(source[n - 2].as_str()) && blank_line(
        source[n - 1].as_str(),
    )
}

/// The format description that the cell readers use.
#[derive(Debug, Clone, Default)]
pub struct FormatOptions {
    pub extension: Option<String>,
    pub format_name: Option<String>,
    pub format_version: Option<String>,
    pub comment_magics: Option<bool>,
    pub cell_metadata_json: bool,
    pub use_runtools: bool,
    pub split_at_heading: bool,
    pub cell_markers: Option<String>,
    pub rst2md: bool,
    pub doxygen_equation_markers: bool,
}

impl FormatOptions {
    /// The extension of the format, or the empty string.
    pub fn ext(&self) -> (r: &str)
        ensures
            r@ == match self.extension {
                Some(e) => e@,
                None => Seq::empty(),
            },
    {
        proof {
            reveal_strlit("");
        }
        match &self.extension {
            Some(e) => e.as_str(),
            None => "",
        }
    }
}

/// The kind of a cell that a reader found.
#[derive(Debug, Clone, Copy, PartialEq, Eq, Structural)]
pub enum CellKind {
    Code,
    Markdown,
    Raw,
}

impl CellKind {
    /// The notebook cell type of this kind.
    pub fn to_cell_type(self) -> (r: CellType)
        ensures
            r == match self {
                CellKind::Code => CellType::Code,
                CellKind::Markdown => CellType::Markdown,
                CellKind::Raw => CellType::Raw,
            },
    {
        match self {
            CellKind::Code => CellType::Code,
            CellKind::Markdown => CellType::Markdown,
            CellKind::Raw => CellType::Raw,
        }
    }
}

/// The reader for a format: by format name, else by extension (markdown, R markdown,
/// R spin scripts, and the light script reader for any other extension).
pub open spec fn reader_for(ext: Seq<char>, name: Seq<char>) -> ReaderType {
    if name == "percent"@ {
        ReaderType::DoublePercent
    } else if name == "hydrogen"@ {
        ReaderType::Hydrogen
    } else if name == "sphinx"@ || name == "sphinx-gallery"@ {
        ReaderType::SphinxGallery
    } else if name == "spin"@ || name == "spin-r"@ {
        ReaderType::RScript
    } else if name == "light"@ {
        ReaderType::LightScript
    } else if ext == ".md"@ || ext == ".markdown"@ {
        ReaderType::Markdown
    } else if ext == ".Rmd"@ {
        ReaderType::RMarkdown
    } else if ext == ".R"@ || ext == ".r"@ {
        ReaderType::RScript
    } else {
        ReaderType::LightScript
    }
}

/// The cell reader to use for the format `fmt`.
pub fn create_cell_reader(fmt: &FormatOptions, default_language: Option<&str>) -> (r: ReaderType)
    ensures
        r == reader_for(
            match fmt.extension {
                Some(e) => e@,
                None => Seq::empty(),
            },
            match fmt.format_name {
                Some(n) => n@,
                None => Seq::empty(),
            },
        ),
{
    proof {
        reveal_strlit("");
        assert(""@ =~= Seq::<char>::empty());
    }
    let ext = fmt.ext();
    let name = match &fmt.format_name {
        Some(n) => n.as_str(),
        None => "",
    };
    if str_eq(name, "percent") {
        ReaderType::DoublePercent
    } else if str_eq(name, "hydrogen") {
        ReaderType::Hydrogen
    } else if str_eq(name, "sphinx") || str_eq(name, "sphinx-gallery") {
        ReaderType::SphinxGallery
    } else if str_eq(name, "spin") || str_eq(name, "spin-r") {
        ReaderType::RScript
    } else if str_eq(name, "light") {
        ReaderType::LightScript
    } else if str_eq(ext, ".md") || str_eq(ext, ".markdown") {
        ReaderType::Markdown
    } else if str_eq(ext, ".Rmd") {
        ReaderType::RMarkdown
    } else if str_eq(ext, ".R") || str_eq(ext, ".r") {
        ReaderType::RScript
    } else {
        ReaderType::LightScript
    }
}

/// A blank line.
pub open spec fn is_blank_line(line: Seq<char>) -> bool {
    regex_hit(blank_pattern(), line)
}

/// An optional pattern matches the line (never when there is none).
pub open spec fn opt_hit(source: Option<Seq<char>>, line: Seq<char>) -> bool {
    match source {
        Some(s) => regex_hit(s, line),
        None => false,
    }
}

/// `p` is the expression compiled from the optional pattern text `source`.
pub open spec fn opt_compiled(p: Option<Pattern>, source: Option<Seq<char>>) -> bool {
    match source {
        Some(s) => compiled_from(p, s),
        None => p is None,
    }
}

/// Compiles an optional pattern.
fn compile_opt(source: Option<&str>) -> (r: Option<Pattern>)
    ensures
        opt_compiled(
            r,
            match source {
                Some(s) => Some(s@),
                None => None,
            },
        ),
{
    match source {
        Some(s) => compile_pattern(s),
        None => None,
    }
}

/// Matches an optional pattern compiled by `compile_opt`.
fn opt_pattern_hit(p: &Option<Pattern>, source: Ghost<Option<Seq<char>>>, line: &str) -> (r: bool)
    requires
        opt_compiled(*p, source@),
    ensures
        r == opt_hit(source@, line@),
{
    match p {
        Some(q) => q.is_match(line),
        None => false,
    }
}

/// Line `i` starts a new region: it matches the start marker, or the simple start marker
/// after a blank line (or at the top, or with custom cell markers).
pub open spec fn light_start_at(
    ls: Seq<Seq<char>>,
    i: int,
    start: Seq<char>,
    simple: Option<Seq<char>>,
    marker_start: bool,
) -> bool {
    regex_hit(start, ls[i]) || (opt_hit(simple, ls[i]) && (marker_start || i == 0 || is_blank_line(
        ls[i - 1],
    )))
}

/// Where a region of a light script that started before line `i` ends, the string parser
/// being in state `m` before line `i`: the cell end, the next cell start, whether an end
/// marker closed it, and whether a new start marker did. A start marker ends it (before
/// the one or two blank lines above it); an end marker does when end markers are not
/// ignored; otherwise a blank line that is not followed by indented code does. Lines inside
/// a string are skipped.
pub open spec fn light_region_scan(
    ls: Seq<Seq<char>>,
    i: int,
    m: ParserModel,
    start: Seq<char>,
    simple: Option<Seq<char>>,
    end: Option<Seq<char>>,
    skip_first: bool,
    ignore_end: bool,
    marker_start: bool,
) -> (int, int, bool, bool)
    decreases ls.len() - i,
{
    if i < 0 || i >= ls.len() {
        (ls.len() as int, ls.len() as int, false, false)
    } else if skip_first && i == 0 {
        light_region_scan(ls, i + 1, m, start, simple, end, skip_first, ignore_end, marker_start)
    } else if model_quoted(m) {
        light_region_scan(ls, i + 1, next_model(m, ls[i]), start, simple, end, skip_first, ignore_end, marker_start)
    } else if light_start_at(ls, i, start, simple, marker_start) {
        if i > 0 && is_blank_line(ls[i - 1]) {
            if i > 1 && is_blank_line(ls[i - 2]) {
                (i - 2, i, false, true)
            } else {
                (i - 1, i, false, true)
            }
        } else {
            (i, i, false, true)
        }
    } else if !ignore_end && opt_hit(end, ls[i]) {
        (i, i + 1, true, false)
    } else if ignore_end && is_blank_line(ls[i]) && !indented_from(ls, i) {
        if i > 0 {
            (i, i + 1, false, false)
        } else if ls.len() > 1 && !is_blank_line(ls[1]) {
            (1, 1, false, false)
        } else {
            (1, 2, false, false)
        }
    } else {
        light_region_scan(ls, i + 1, next_model(m, ls[i]), start, simple, end, skip_first, ignore_end, marker_start)
    }
}

/// The plain value of an optional owned string.
pub open spec fn opt_view_string(o: Option<String>) -> Option<Seq<char>> {
    match o {
        Some(s) => Some(s@),
        None => None,
    }
}

/// The entries of a cell's options that decide where a script cell ends and what kind of
/// cell it is: its `endofcell` marker when it is a string, whether it has a `cell_type`
/// entry and that entry when it is a string, and what decides whether it is active.
pub struct CellOptions {
    pub endofcell: Option<String>,
    pub has_cell_type: bool,
    pub cell_type: Option<String>,
    pub activity: CellActivity,
}

/// The kind of cell that the options declare: `markdown`, `raw`, else code.
pub open spec fn declared_kind(options: Option<CellOptions>) -> CellKind {
    match options {
        Some(o) => match o.cell_type {
            Some(t) => if t@ == "markdown"@ {
                CellKind::Markdown
            } else if t@ == "raw"@ {
                CellKind::Raw
            } else {
                CellKind::Code
            },
            None => CellKind::Code,
        },
        None => CellKind::Code,
    }
}

/// The reader of light scripts: where their cells start and end. Cells start at an
/// explicit marker (`# +` with its options), or at any other line; they end at an end
/// marker, a new start marker, or a blank line that code does not continue.
pub struct LightScriptCellReader {
    pub ext: String,
    pub default_language: String,
    pub language: Option<String>,
    pub comment_magics: Option<bool>,
    pub comment: String,
    pub comment_suffix: String,
    /// The pattern of the start-of-cell marker.
    pub start_code: String,
    /// The pattern of a simpler start marker, for formats that have one.
    pub simple_start_code: Option<String>,
    /// The pattern of the end-of-cell marker.
    pub end_code: Option<String>,
    pub cell_marker_start: Option<String>,
    pub cell_marker_end: Option<String>,
    pub ignore_end_marker: bool,
    pub explicit_end_marker_required: bool,
    /// The options of the current cell, when its first line holds them.
    pub options: Option<CellOptions>,
    pub cell_type: Option<CellKind>,
}

/// Where the region of the current cell ends, for the reader `rd`.
pub open spec fn light_region_of(ls: Seq<Seq<char>>, rd: LightScriptCellReader) -> (int, int, bool, bool) {
    light_region_with(ls, rd, opt_view_string(rd.end_code))
}

/// Where the region of the current cell ends, for the reader `rd` with the end marker `end`.
pub open spec fn light_region_with(ls: Seq<Seq<char>>, rd: LightScriptCellReader, end: Option<Seq<char>>) -> (int, int, bool, bool) {
    light_region_scan(
        ls,
        0,
        initial_model(
            match rd.language {
                Some(l) => l@,
                None => rd.default_language@,
            },
        ),
        rd.start_code@,
        opt_view_string(rd.simple_start_code),
        end,
        rd.options is Some,
        rd.ignore_end_marker,
        rd.cell_marker_start is Some,
    )
}

/// The view of a `(cell end, next cell start, explicit end)` triple.
pub open spec fn bounds_view(r: (usize, usize, bool)) -> (int, int, bool) {
    (r.0 as int, r.1 as int, r.2)
}

/// The first three entries of a four-tuple.
pub open spec fn first_three(r: (int, int, bool, bool)) -> (int, int, bool) {
    (r.0, r.1, r.2)
}

impl LightScriptCellReader {
    /// The effective language of the current cell.
    pub fn effective_language(&self) -> (r: &str)
        ensures
            r@ == match self.language {
                Some(l) => l@,
                None => self.default_language@,
            },
    {
        match &self.language {
            Some(l) => l.as_str(),
            None => self.default_language.as_str(),
        }
    }

    /// Finds where the region of the cell that starts at the first line ends:
    /// `(cell end marker, next cell start, explicit end of cell)`. The cell is of the kind
    /// its options declare; where a new start marker ends it and the format requires
    /// explicit end markers, the options and language of the cell are dropped.
    pub fn find_region_end(&mut self, lines: &[String]) -> (r: (usize, usize, bool))
        ensures
            bounds_view(r) == first_three(light_region_of(views(lines@), *old(self))),
            final(self).cell_type == Some(declared_kind(old(self).options)),
            (light_region_of(views(lines@), *old(self)).3 && old(self).explicit_end_marker_required)
                ==> (final(self).options is None && final(self).language is None),
            !(light_region_of(views(lines@), *old(self)).3 && old(self).explicit_end_marker_required)
                ==> (final(self).options == old(self).options && final(self).language == old(self).language),
            final(self).start_code == old(self).start_code,
            final(self).end_code == old(self).end_code,
            final(self).simple_start_code == old(self).simple_start_code,
            final(self).ignore_end_marker == old(self).ignore_end_marker,
            final(self).explicit_end_marker_required == old(self).explicit_end_marker_required,
    {
        let ghost ls = views(lines@);
        let ghost rd0 = *self;
        let kind = match &self.options {
            Some(o) => match &o.cell_type {
                Some(t) => if str_eq(t.as_str(), "markdown") {
                    CellKind::Markdown
                } else if str_eq(t.as_str(), "raw") {
                    CellKind::Raw
                } else {
                    CellKind::Code
                },
                None => CellKind::Code,
            },
            None => CellKind::Code,
        };
        self.cell_type = Some(kind);
        let (a, b, e, by_start) = region_scan(lines, self);
        if by_start && self.explicit_end_marker_required {
            self.options = None;
            self.language = None;
        }
        (a, b, e)
    }
}

/// The region scan of `find_region_end`.
fn region_scan(lines: &[String], rd: &LightScriptCellReader) -> (r: (usize, usize, bool, bool))
    ensures
        (r.0 as int, r.1 as int, r.2, r.3) == light_region_of(views(lines@), *rd),
{
    let ghost ls = views(lines@);
    let ghost start = rd.start_code@;
    let ghost simple = opt_view_string(rd.simple_start_code);
    let ghost end = opt_view_string(rd.end_code);
    let skip_first = rd.options.is_some();
    let marker_start = rd.cell_marker_start.is_some();
    let start_re = compile_pattern(rd.start_code.as_str());
    let simple_re = compile_opt(
        match &rd.simple_start_code {
            Some(s) => Some(s.as_str()),
            None => None,
        },
    );
    let end_re = compile_opt(
        match &rd.end_code {
            Some(s) => Some(s.as_str()),
            None => None,
        },
    );
    let mut parser = StringParser::new(rd.effective_language());
    let n = lines.len();
    let mut i: usize = 0;
    while i < n
        invariant
            n == lines@.len(),
            i <= n,
            ls == views(lines@),
            compiled_from(start_re, start),
            opt_compiled(simple_re, simple),
            opt_compiled(end_re, end),
            light_region_of(ls, *rd) == light_region_scan(
                ls,
                i as int,
                parser@,
                start,
                simple,
                end,
                skip_first,
                rd.ignore_end_marker,
                marker_start,
            ),
        decreases n - i,
    {
        let line = lines[i].as_str();
        assert(line@ == ls[i as int]);
        if skip_first && i == 0 {
            i += 1;
            continue;
        }
        if parser.is_quoted() {
            parser.read_line(line);
            i += 1;
            continue;
        }
        parser.read_line(line);
        let simple_match = opt_pattern_hit(&simple_re, Ghost(simple), line) && (marker_start || i
            == 0 || blank_line(lines[i - 1].as_str()));
        if pattern_hit(&start_re, Ghost(start), line) || simple_match {
            if i > 0 && blank_line(lines[i - 1].as_str()) {
                if i > 1 && blank_line(lines[i - 2].as_str()) {
                    return (i - 2, i, false, true);
                }
                return (i - 1, i, false, true);
            }
            return (i, i, false, true);
        }
        if !rd.ignore_end_marker {
            if opt_pattern_hit(&end_re, Ghost(end), line) {
                return (i, i + 1, true, false);
            }
        } else if blank_line(line) {
            if !code_is_indented_from(lines, i) {
                if i > 0 {
                    return (i, i + 1, false, false);
                }
                if n > 1 && !blank_line(lines[1].as_str()) {
                    return (1, 1, false, false);
                }
                return (1, 2, false, false);
            }
        }
        i += 1;
    }
    (n, n, false, false)
}

/// The pattern of the end-of-cell marker `marker` after the escaped comment `c`.
pub open spec fn endofcell_pattern(c: Seq<char>, marker: Seq<char>) -> Seq<char> {
    "^"@ + c + " "@ + regex_escape(marker) + r"\s*$"@
}

/// The first blank line from position `i` on: the cell ends there and the next one starts
/// after it; without one, both are at the end.
pub open spec fn blank_line_end(ls: Seq<Seq<char>>, i: int) -> (int, int, bool)
    decreases ls.len() - i,
{
    if i < 0 || i >= ls.len() {
        (ls.len() as int, ls.len() as int, false)
    } else if is_blank_line(ls[i]) {
        (i, i + 1, false)
    } else {
        blank_line_end(ls, i + 1)
    }
}

/// The cell is a paragraph of comments: it has no options, does not start with the end
/// marker of custom cell markers, and is fully commented.
pub open spec fn light_paragraph(ls: Seq<Seq<char>>, rd: LightScriptCellReader) -> bool {
    &&& rd.options is None
    &&& !(rd.cell_marker_end is Some && opt_hit(opt_view_string(rd.end_code), ls[0]))
    &&& fully_commented_from(ls, rd.comment@, rd.default_language@, 0)
}

/// The end marker that the region scan uses: none for a cell without options; the
/// cell's `endofcell` marker (by default `-`) unless the format has custom markers.
pub open spec fn light_end_code(rd: LightScriptCellReader) -> Option<Seq<char>> {
    if rd.options is None {
        None
    } else if rd.cell_marker_end is None {
        Some(
            endofcell_pattern(
                regex_escape(rd.comment@),
                match rd.options->0.endofcell {
                    Some(e) => e@,
                    None => "-"@,
                },
            ),
        )
    } else {
        opt_view_string(rd.end_code)
    }
}

/// Where the cell that starts at the first line ends.
pub open spec fn light_cell_end(ls: Seq<Seq<char>>, rd: LightScriptCellReader) -> (int, int, bool) {
    if light_paragraph(ls, rd) {
        blank_line_end(ls, 0)
    } else {
        first_three(light_region_with(ls, rd, light_end_code(rd)))
    }
}

impl LightScriptCellReader {
    /// Finds where the cell that starts at the first line ends: a paragraph of comments is a
    /// markdown cell that ends at the first blank line; any other cell ends where its region
    /// does, with the end marker of its options.
    pub fn find_cell_end(&mut self, lines: &[String]) -> (r: (usize, usize, bool))
        requires
            lines@.len() > 0,
        ensures
            bounds_view(r) == light_cell_end(views(lines@), *old(self)),
            light_paragraph(views(lines@), *old(self)) ==> final(self).cell_type == Some(CellKind::Markdown),
            !light_paragraph(views(lines@), *old(self)) ==> {
                &&& final(self).cell_type == Some(declared_kind(old(self).options))
                &&& opt_view_string(final(self).end_code) == light_end_code(*old(self))
            },
    {
        let ghost ls = views(lines@);
        assert(lines@[0]@ == ls[0]);
        let end_matches_first = match &self.end_code {
            Some(e) => matches_str(e.as_str(), lines[0].as_str()),
            None => false,
        };
        if self.options.is_none() && !(self.cell_marker_end.is_some() && end_matches_first)
            && paragraph_is_fully_commented(lines, self.comment.as_str(), self.default_language.as_str()) {
            self.cell_type = Some(CellKind::Markdown);
            let mut i: usize = 0;
            while i < lines.len()
                invariant
                    i <= lines@.len(),
                    ls == views(lines@),
                    blank_line_end(ls, 0) == blank_line_end(ls, i as int),
                    self.cell_type == Some(CellKind::Markdown),
                    light_paragraph(ls, *old(self)),
                decreases lines.len() - i,
            {
                assert(lines@[i as int]@ == ls[i as int]);
                if blank_line(lines[i].as_str()) {
                    return (i, i + 1, false);
                }
                i += 1;
            }
            return (lines.len(), lines.len(), false);
        }
        if self.options.is_none() {
            self.end_code = None;
        } else if self.cell_marker_end.is_none() {
            let marker = match &self.options {
                Some(o) => match &o.endofcell {
                    Some(e) => owned(e.as_str()),
                    None => owned("-"),
                },
                None => owned("-"),
            };
            let c = escape(self.comment.as_str());
            let m = escape(marker.as_str());
            let head = concat3("^", c.as_str(), " ");
            let pat = concat3(head.as_str(), m.as_str(), r"\s*$");
            self.end_code = Some(pat);
        }
        proof {
            reveal_strlit("-");
        }
        self.find_region_end(lines)
    }
}

/// The default start marker of light scripts, `+`, after the escaped comment `c`.
pub open spec fn light_default_start(c: Seq<char>) -> Seq<char> {
    "^"@ + c + r"\s*\+(.*)$"@
}

/// The start marker `marker` of custom cell markers, after the escaped comment `c`.
pub open spec fn light_custom_start(c: Seq<char>, marker: Seq<char>) -> Seq<char> {
    "^"@ + c + r"\s*"@ + regex_escape(marker) + "(.*)$"@
}

/// The end marker `marker` of custom cell markers, after the escaped comment `c`.
pub open spec fn light_custom_end(c: Seq<char>, marker: Seq<char>) -> Seq<char> {
    "^"@ + c + r"\s*"@ + regex_escape(marker) + r"\s*$"@
}

/// The custom cell markers of a format, split at their first comma; none for the light
/// format's own `+,-` or for markers without a comma, or for another format.
pub open spec fn custom_markers(name: Option<Seq<char>>, markers: Option<Seq<char>>) -> Option<(Seq<char>, Seq<char>)> {
    let name = match name {
        Some(n) => n,
        None => "light"@,
    };
    if name == "light"@ {
        match markers {
            Some(m) => if m == "+,-"@ {
                None
            } else {
                match find_char(m, ',') {
                    Some(k) => Some((m.subrange(0, k), m.subrange(k + 1, m.len() as int))),
                    None => None,
                }
            },
            None => None,
        }
    } else {
        None
    }
}

/// The script language of an extension, else Python's.
pub open spec fn script_or_python(ext: Seq<char>) -> (Seq<char>, Seq<char>, Seq<char>) {
    match script_entry(ext) {
        Some(e) => e,
        None => ("python"@, "#"@, ""@),
    }
}

/// The extension of a format for the script readers: `.py` when it has none.
pub open spec fn script_ext(fmt: FormatOptions) -> Seq<char> {
    match fmt.extension {
        Some(e) => if e@.len() == 0 {
            ".py"@
        } else {
            e@
        },
        None => ".py"@,
    }
}

impl LightScriptCellReader {
    /// The reader for the format `fmt`: the script language of its extension (Python's by
    /// default) gives the comment; the start marker is `+` unless the light format has
    /// custom cell markers, which also give the end marker.
    pub fn new(fmt: &FormatOptions, default_language: Option<&str>) -> (r: Self)
        ensures
            r.ext@ == script_ext(*fmt),
            r.default_language@ == match default_language {
                Some(l) => l@,
                None => script_or_python(script_ext(*fmt)).0,
            },
            r.language is None,
            r.comment_magics == match fmt.comment_magics {
                Some(b) => Some(b),
                None => Some(true),
            },
            r.comment@ == script_or_python(script_ext(*fmt)).1,
            r.comment_suffix@ == script_or_python(script_ext(*fmt)).2,
            match custom_markers(opt_view_string(fmt.format_name), opt_view_string(fmt.cell_markers)) {
                Some((a, b)) => {
                    &&& r.start_code@ == light_custom_start(regex_escape(r.comment@), a)
                    &&& opt_view_string(r.end_code) == Some(light_custom_end(regex_escape(r.comment@), b))
                    &&& opt_view_string(r.cell_marker_start) == Some(a)
                    &&& opt_view_string(r.cell_marker_end) == Some(b)
                },
                None => {
                    &&& r.start_code@ == light_default_start(regex_escape(r.comment@))
                    &&& r.end_code is None
                    &&& r.cell_marker_start is None
                    &&& r.cell_marker_end is None
                },
            },
            r.simple_start_code is None,
            r.ignore_end_marker,
            !r.explicit_end_marker_required,
            r.options is None,
            r.cell_type is None,
    {
        proof {
            reveal_strlit("");
            reveal_strlit(".py");
            reveal_strlit("light");
            reveal_strlit("+,-");
            reveal_strlit("python");
            reveal_strlit("#");
        }
        let ext = match &fmt.extension {
            Some(e) => if e.unicode_len() == 0 {
                owned(".py")
            } else {
                owned(e.as_str())
            },
            None => owned(".py"),
        };
        let (lang, comment, suffix) = match script_language_for_ext(ext.as_str()) {
            Some(sl) => (sl.language, sl.comment, sl.comment_suffix),
            None => ("python", "#", ""),
        };
        let default_language = match default_language {
            Some(l) => owned(l),
            None => owned(lang),
        };
        let c = escape(comment);
        let name = match &fmt.format_name {
            Some(n) => n.as_str(),
            None => "light",
        };
        let mut split: Option<(String, String)> = None;
        if str_eq(name, "light") {
            match &fmt.cell_markers {
                Some(m) => {
                    if !str_eq(m.as_str(), "+,-") {
                        let v = chars_of(m.as_str());
                        proof {
                            find_char_facts(v@, ',');
                        }
                        match vec_find_char(&v, ',') {
                            Some(k) => {
                                assert(k < v.len());
                                split = Some((string_of(&v, 0, k), string_of(&v, k + 1, v.len())));
                            },
                            None => {},
                        }
                    }
                },
                None => {},
            }
        }
        let (start_code, end_code, cell_marker_start, cell_marker_end) = match split {
            Some((a, b)) => {
                let ea = escape(a.as_str());
                let eb = escape(b.as_str());
                let head = concat3("^", c.as_str(), r"\s*");
                let start = concat3(head.as_str(), ea.as_str(), "(.*)$");
                let end = concat3(head.as_str(), eb.as_str(), r"\s*$");
                (start, Some(end), Some(a), Some(b))
            },
            None => (concat3("^", c.as_str(), r"\s*\+(.*)$"), None, None, None),
        };
        LightScriptCellReader {
            ext,
            default_language,
            language: None,
            comment_magics: match fmt.comment_magics {
                Some(b) => Some(b),
                None => Some(true),
            },
            comment: owned(comment),
            comment_suffix: owned(suffix),
            start_code,
            simple_start_code: None,
            end_code,
            cell_marker_start,
            cell_marker_end,
            ignore_end_marker: true,
            explicit_end_marker_required: false,
            options: None,
            cell_type: None,
        }
    }
}

/// The start marker of the percent format, after the escaped comment `c`.
pub open spec fn percent_start(c: Seq<char>) -> Seq<char> {
    r"^\s*"@ + c + r"\s*%%(%*)\s(.*)$"@
}

/// The other start markers of the percent format (`%%` alone, `<codecell>`, `In[ ]:`),
/// after the escaped comment `c`.
pub open spec fn percent_alternative_start(c: Seq<char>) -> Seq<char> {
    r"^\s*"@ + c + r"\s*(%%|<codecell>|In\[[0-9 ]*\]:?)\s*$"@
}

/// The kind of a percent-format cell: the one its options declare, else raw when they make
/// it inactive in notebooks, else code.
pub open spec fn percent_kind(options: Option<CellOptions>) -> CellKind {
    match options {
        Some(o) => if o.has_cell_type {
            declared_kind(options)
        } else if !activity_active(".ipynb"@, o.activity, true) {
            CellKind::Raw
        } else {
            CellKind::Code
        },
        None => CellKind::Code,
    }
}

/// The first line from `i` on, after the first line, that starts a cell outside of a string
/// (the string parser being in state `m` before line `i`); the number of lines without one.
pub open spec fn percent_next(ls: Seq<Seq<char>>, i: int, m: ParserModel, start: Seq<char>, alt: Seq<char>) -> int
    decreases ls.len() - i,
{
    if i < 0 || i >= ls.len() {
        ls.len() as int
    } else if model_quoted(m) {
        percent_next(ls, i + 1, next_model(m, ls[i]), start, alt)
    } else if i > 0 && (regex_hit(start, ls[i]) || regex_hit(alt, ls[i])) {
        i
    } else {
        percent_next(ls, i + 1, next_model(m, ls[i]), start, alt)
    }
}

/// The reader of percent scripts (`# %%` cells).
pub struct DoublePercentScriptCellReader {
    pub ext: String,
    pub default_language: String,
    pub language: Option<String>,
    pub comment_magics: Option<bool>,
    pub comment: String,
    pub comment_suffix: String,
    /// The pattern of the cell marker with options.
    pub start_code: String,
    /// The pattern of the other cell markers.
    pub alternative_start_code: String,
    /// The options of the current cell.
    pub options: Option<CellOptions>,
    pub cell_type: Option<CellKind>,
}

/// Where the cell that starts at the first line of a percent script ends: before the next
/// cell marker, and before the one or two blank lines above it.
pub open spec fn percent_cell_end(ls: Seq<Seq<char>>, rd: DoublePercentScriptCellReader) -> (int, int, bool) {
    let lang = match rd.language {
        Some(l) => l@,
        None => rd.default_language@,
    };
    let k = percent_next(ls, 0, initial_model(lang), rd.start_code@, rd.alternative_start_code@);
    if ends_with_two_blank_lines(ls.subrange(0, k)) {
        (k - 2, k, false)
    } else if k > 0 && is_blank_line(ls[k - 1]) {
        (k - 1, k, false)
    } else {
        (k, k, false)
    }
}

impl DoublePercentScriptCellReader {
    /// The reader for the format `fmt`, with the comment of the script language of its
    /// extension (Python's by default).
    pub fn new(fmt: &FormatOptions, default_language: Option<&str>) -> (r: Self)
        ensures
            r.ext@ == script_ext(*fmt),
            r.default_language@ == match default_language {
                Some(l) => l@,
                None => script_or_python(script_ext(*fmt)).0,
            },
            r.language is None,
            r.comment_magics == match fmt.comment_magics {
                Some(b) => Some(b),
                None => Some(true),
            },
            r.comment@ == script_or_python(script_ext(*fmt)).1,
            r.comment_suffix@ == script_or_python(script_ext(*fmt)).2,
            r.start_code@ == percent_start(regex_escape(r.comment@)),
            r.alternative_start_code@ == percent_alternative_start(regex_escape(r.comment@)),
            r.options is None,
            r.cell_type is None,
    {
        proof {
            reveal_strlit("");
            reveal_strlit(".py");
            reveal_strlit("python");
            reveal_strlit("#");
        }
        let ext = match &fmt.extension {
            Some(e) => if e.unicode_len() == 0 {
                owned(".py")
            } else {
                owned(e.as_str())
            },
            None => owned(".py"),
        };
        let (lang, comment, suffix) = match script_language_for_ext(ext.as_str()) {
            Some(sl) => (sl.language, sl.comment, sl.comment_suffix),
            None => ("python", "#", ""),
        };
        let default_language = match default_language {
            Some(l) => owned(l),
            None => owned(lang),
        };
        let c = escape(comment);
        DoublePercentScriptCellReader {
            ext,
            default_language,
            language: None,
            comment_magics: match fmt.comment_magics {
                Some(b) => Some(b),
                None => Some(true),
            },
            comment: owned(comment),
            comment_suffix: owned(suffix),
            start_code: concat3(r"^\s*", c.as_str(), r"\s*%%(%*)\s(.*)$"),
            alternative_start_code: concat3(
                r"^\s*",
                c.as_str(),
                r"\s*(%%|<codecell>|In\[[0-9 ]*\]:?)\s*$",
            ),
            options: None,
            cell_type: None,
        }
    }

    /// The effective language of the current cell.
    pub fn effective_language(&self) -> (r: &str)
        ensures
            r@ == match self.language {
                Some(l) => l@,
                None => self.default_language@,
            },
    {
        match &self.language {
            Some(l) => l.as_str(),
            None => self.default_language.as_str(),
        }
    }

    /// Finds where the cell that starts at the first line ends, and sets its kind.
    pub fn find_cell_end(&mut self, lines: &[String]) -> (r: (usize, usize, bool))
        ensures
            bounds_view(r) == percent_cell_end(views(lines@), *old(self)),
            final(self).cell_type == Some(percent_kind(old(self).options)),
            final(self).options == old(self).options,
            final(self).language == old(self).language,
            final(self).start_code == old(self).start_code,
            final(self).alternative_start_code == old(self).alternative_start_code,
    {
        proof {
            reveal_strlit(".ipynb");
        }
        let kind = match &self.options {
            Some(o) => if o.has_cell_type {
                match &o.cell_type {
                    Some(t) => if str_eq(t.as_str(), "markdown") {
                        CellKind::Markdown
                    } else if str_eq(t.as_str(), "raw") {
                        CellKind::Raw
                    } else {
                        CellKind::Code
                    },
                    None => CellKind::Code,
                }
            } else if !is_active(".ipynb", &o.activity, true) {
                CellKind::Raw
            } else {
                CellKind::Code
            },
            None => CellKind::Code,
        };
        self.cell_type = Some(kind);
        let ghost ls = views(lines@);
        let ghost start = self.start_code@;
        let ghost alt = self.alternative_start_code@;
        let start_re = compile_pattern(self.start_code.as_str());
        let alt_re = compile_pattern(self.alternative_start_code.as_str());
        let mut parser = StringParser::new(self.effective_language());
        let ghost m0 = parser@;
        let n = lines.len();
        let mut found = n;
        let mut i: usize = 0;
        while i < n
            invariant_except_break
                found == n,
                percent_next(ls, 0, m0, start, alt) == percent_next(ls, i as int, parser@, start, alt),
            invariant
                n == lines@.len(),
                i <= n,
                ls == views(lines@),
                compiled_from(start_re, start),
                compiled_from(alt_re, alt),
            ensures
                found == percent_next(ls, 0, m0, start, alt),
                found <= n,
            decreases n - i,
        {
            let line = lines[i].as_str();
            assert(line@ == ls[i as int]);
            if parser.is_quoted() {
                parser.read_line(line);
                i += 1;
                continue;
            }
            parser.read_line(line);
            if i > 0 && (pattern_hit(&start_re, Ghost(start), line) || pattern_hit(&alt_re, Ghost(alt), line)) {
                found = i;
                break;
            }
            i += 1;
        }
        let k = found;
        assert(k == percent_next(ls, 0, m0, start, alt));
        let two = k >= 3 && !blank_line(lines[k - 3].as_str()) && blank_line(lines[k - 2].as_str())
            && blank_line(lines[k - 1].as_str());
        proof {
            let sub = ls.subrange(0, k as int);
            if k >= 3 {
                assert(sub[k - 3] == ls[k - 3]);
                assert(sub[k - 2] == ls[k - 2]);
                assert(sub[k - 1] == ls[k - 1]);
            }
            assert(two == ends_with_two_blank_lines(sub));
        }
        if two {
            return (k - 2, k, false);
        }
        if k > 0 && blank_line(lines[k - 1].as_str()) {
            return (k - 1, k, false);
        }
        (k, k, false)
    }

    /// The first line of the cell's content: after its marker, if it starts with one.
    pub fn cell_start(&self, lines: &[String]) -> (r: usize)
        requires
            lines@.len() > 0,
        ensures
            r == if regex_hit(self.start_code@, lines@[0]@) || regex_hit(
                self.alternative_start_code@,
                lines@[0]@,
            ) {
                1usize
            } else {
                0usize
            },
    {
        if matches_str(self.start_code.as_str(), lines[0].as_str()) || matches_str(
            self.alternative_start_code.as_str(),
            lines[0].as_str(),
        ) {
            1
        } else {
            0
        }
    }
}

/// The first line that matches `pattern`: the cell ends there and the next one starts
/// after it; without one, both are at the end.
pub open spec fn first_hit_end(ls: Seq<Seq<char>>, i: int, pattern: Option<Seq<char>>) -> (int, int, bool)
    decreases ls.len() - i,
{
    if i < 0 || i >= ls.len() {
        (ls.len() as int, ls.len() as int, false)
    } else if opt_hit(pattern, ls[i]) {
        (i, i + 1, true)
    } else {
        first_hit_end(ls, i + 1, pattern)
    }
}

/// The first line after the first one, outside of a string (the parser being in state `m`
/// before line `i`), that matches `pattern`: the end of a code cell.
pub open spec fn code_end_scan(ls: Seq<Seq<char>>, i: int, m: ParserModel, pattern: Seq<char>) -> (int, int, bool)
    decreases ls.len() - i,
{
    if i < 0 || i >= ls.len() {
        (ls.len() as int, ls.len() as int, false)
    } else if i == 0 {
        code_end_scan(ls, i + 1, m, pattern)
    } else if model_quoted(m) {
        code_end_scan(ls, i + 1, next_model(m, ls[i]), pattern)
    } else if regex_hit(pattern, ls[i]) {
        (i, i + 1, true)
    } else {
        code_end_scan(ls, i + 1, next_model(m, ls[i]), pattern)
    }
}

/// The reader of markdown documents: the ends of explicit regions and of code cells.
pub struct MarkdownCellReader {
    pub ext: String,
    pub default_language: String,
    pub language: Option<String>,
    /// The pattern that closes the current code cell.
    pub end_code: String,
    /// The pattern that closes the current region, once one is open.
    pub end_region: Option<String>,
    pub in_region: bool,
    pub cell_type: Option<CellKind>,
}

/// The pattern that closes a region `name`: `<!-- #end<name> -->`.
pub open spec fn end_region_pattern(name: Seq<char>) -> Seq<char> {
    r"^<!--\s*#end"@ + regex_escape(name) + r"\s*-->\s*$"@
}

impl MarkdownCellReader {
    /// A reader for markdown documents of the format `fmt`.
    pub fn new(fmt: &FormatOptions, default_language: Option<&str>) -> (r: Self)
        ensures
            r.ext@ == opt_view_string(fmt.extension).unwrap_or(Seq::empty()),
            r.default_language@ == match default_language {
                Some(l) => l@,
                None => match script_entry(opt_view_string(fmt.extension).unwrap_or(Seq::empty())) {
                    Some(e) => e.0,
                    None => "python"@,
                },
            },
            r.language is None,
            r.end_code@ == r"^```\s*$"@,
            r.end_region is None,
            !r.in_region,
            r.cell_type is None,
    {
        proof {
            reveal_strlit("");
            assert(""@ =~= Seq::<char>::empty());
        }
        let ext = match &fmt.extension {
            Some(e) => owned(e.as_str()),
            None => owned(""),
        };
        let default_language = match default_language {
            Some(l) => owned(l),
            None => match script_language_for_ext(ext.as_str()) {
                Some(sl) => owned(sl.language),
                None => owned("python"),
            },
        };
        MarkdownCellReader {
            ext,
            default_language,
            language: None,
            end_code: owned(r"^```\s*$"),
            end_region: None,
            in_region: false,
            cell_type: None,
        }
    }

    /// Opens the region `name` (`markdown`, `md` or `raw`): it ends at its `#end` marker.
    pub fn open_region(&mut self, name: &str)
        ensures
            final(self).in_region,
            opt_view_string(final(self).end_region) == Some(end_region_pattern(name@)),
            final(self).cell_type == Some(if name@ == "raw"@ {
                CellKind::Raw
            } else {
                CellKind::Markdown
            }),
            final(self).end_code == old(self).end_code,
            final(self).language == old(self).language,
    {
        let e = escape(name);
        self.end_region = Some(concat3(r"^<!--\s*#end", e.as_str(), r"\s*-->\s*$"));
        self.in_region = true;
        self.cell_type = Some(if str_eq(name, "raw") {
            CellKind::Raw
        } else {
            CellKind::Markdown
        });
    }

    /// Sets the end of a code cell that opened with three backticks and `extra` more.
    pub fn set_code_fence(&mut self, extra: &str)
        ensures
            final(self).end_code@ == "```"@ + regex_escape(extra@),
            final(self).end_region == old(self).end_region,
            final(self).in_region == old(self).in_region,
            final(self).language == old(self).language,
    {
        let e = escape(extra);
        self.end_code = concat("```", e.as_str());
    }

    /// Where an explicit region ends: at the first line that closes it.
    pub fn find_region_close(&self, lines: &[String]) -> (r: (usize, usize, bool))
        ensures
            bounds_view(r) == first_hit_end(views(lines@), 0, opt_view_string(self.end_region)),
    {
        let ghost ls = views(lines@);
        let ghost pat = opt_view_string(self.end_region);
        let re = compile_opt(
            match &self.end_region {
                Some(e) => Some(e.as_str()),
                None => None,
            },
        );
        let mut i: usize = 0;
        while i < lines.len()
            invariant
                i <= lines@.len(),
                ls == views(lines@),
                opt_compiled(re, pat),
                pat == opt_view_string(self.end_region),
                first_hit_end(ls, 0, pat) == first_hit_end(ls, i as int, pat),
            decreases lines.len() - i,
        {
            assert(lines@[i as int]@ == ls[i as int]);
            if opt_pattern_hit(&re, Ghost(pat), lines[i].as_str()) {
                return (i, i + 1, true);
            }
            i += 1;
        }
        (lines.len(), lines.len(), false)
    }

    /// Where a code cell ends: at the first line after its opening fence, outside of a
    /// string, that closes it. The cell is a code cell.
    pub fn find_code_end(&mut self, lines: &[String]) -> (r: (usize, usize, bool))
        ensures
            bounds_view(r) == code_end_scan(
                views(lines@),
                0,
                initial_model(
                    match old(self).language {
                        Some(l) => l@,
                        None => old(self).default_language@,
                    },
                ),
                old(self).end_code@,
            ),
            final(self).cell_type == Some(CellKind::Code),
            final(self).end_code == old(self).end_code,
            final(self).language == old(self).language,
    {
        self.cell_type = Some(CellKind::Code);
        let ghost ls = views(lines@);
        let ghost pat = self.end_code@;
        let re = compile_pattern(self.end_code.as_str());
        let mut parser = StringParser::new(
            match &self.language {
                Some(l) => l.as_str(),
                None => self.default_language.as_str(),
            },
        );
        let ghost m0 = parser@;
        let mut i: usize = 0;
        while i < lines.len()
            invariant
                i <= lines@.len(),
                ls == views(lines@),
                compiled_from(re, pat),
                code_end_scan(ls, 0, m0, pat) == code_end_scan(ls, i as int, parser@, pat),
                pat == old(self).end_code@,
                m0 == initial_model(
                    match old(self).language {
                        Some(l) => l@,
                        None => old(self).default_language@,
                    },
                ),
                self.cell_type == Some(CellKind::Code),
                self.end_code == old(self).end_code,
                self.language == old(self).language,
            decreases lines.len() - i,
        {
            let line = lines[i].as_str();
            assert(line@ == ls[i as int]);
            if i == 0 {
                i += 1;
                continue;
            }
            if parser.is_quoted() {
                parser.read_line(line);
                i += 1;
                continue;
            }
            parser.read_line(line);
            if pattern_hit(&re, Ghost(pat), line) {
                return (i, i + 1, true);
            }
            i += 1;
        }
        (lines.len(), lines.len(), false)
    }
}

/// After the end of a cell: the next cell starts one line later when exactly one blank line
/// separates them, and two lines later when an explicit end marker is followed by exactly
/// two blank lines.
pub open spec fn after_blank_lines(ls: Seq<Seq<char>>, next: int, explicit_eoc: bool) -> int {
    if next + 1 < ls.len() && is_blank_line(ls[next]) && !is_blank_line(ls[next + 1]) {
        next + 1
    } else if explicit_eoc && next + 2 < ls.len() && is_blank_line(ls[next]) && is_blank_line(ls[next + 1])
        && !is_blank_line(ls[next + 2]) {
        next + 2
    } else {
        next
    }
}

/// Moves the start of the next cell past the blank lines that separate it from the end of
/// the current one.
pub fn skip_blank_lines(lines: &[String], next_cell_start: usize, explicit_eoc: bool) -> (r: usize)
    ensures
        r == after_blank_lines(views(lines@), next_cell_start as int, explicit_eoc),
{
    let ghost ls = views(lines@);
    let n = lines.len();
    if n >= 1 && next_cell_start < n - 1 {
        assert(lines@[next_cell_start as int]@ == ls[next_cell_start as int]);
        assert(lines@[next_cell_start + 1]@ == ls[next_cell_start + 1]);
        if blank_line(lines[next_cell_start].as_str()) && !blank_line(lines[next_cell_start + 1].as_str()) {
            return next_cell_start + 1;
        }
    }
    if explicit_eoc && n >= 2 && next_cell_start < n - 2 {
        assert(lines@[next_cell_start as int]@ == ls[next_cell_start as int]);
        assert(lines@[next_cell_start + 1]@ == ls[next_cell_start + 1]);
        assert(lines@[next_cell_start + 2]@ == ls[next_cell_start + 2]);
        if blank_line(lines[next_cell_start].as_str()) && blank_line(lines[next_cell_start + 1].as_str())
            && !blank_line(lines[next_cell_start + 2].as_str()) {
            return next_cell_start + 2;
        }
    }
    next_cell_start
}

/// Where a code cell of an R spin script ends, the string parser being in state `m` before
/// line `i`: before a new cell marker (`#+` options or `#'` text) and the one or two blank
/// lines above it, or at a blank line that indented code does not continue.
pub open spec fn spin_code_scan(ls: Seq<Seq<char>>, i: int, m: ParserModel, start: Seq<char>, skip_first: bool) -> (int, int, bool)
    decreases ls.len() - i,
{
    if i < 0 || i >= ls.len() {
        (ls.len() as int, ls.len() as int, false)
    } else if skip_first && i == 0 {
        spin_code_scan(ls, i + 1, m, start, skip_first)
    } else if model_quoted(m) {
        spin_code_scan(ls, i + 1, next_model(m, ls[i]), start, skip_first)
    } else if regex_hit(start, ls[i]) || has_prefix(ls[i], "#'"@) {
        if i > 0 && is_blank_line(ls[i - 1]) {
            if i > 1 && is_blank_line(ls[i - 2]) {
                (i - 2, i, false)
            } else {
                (i - 1, i, false)
            }
        } else {
            (i, i, false)
        }
    } else if is_blank_line(ls[i]) && !indented_from(ls, i) {
        if i > 0 {
            (i, i + 1, false)
        } else if ls.len() > 1 && !is_blank_line(ls[1]) {
            (1, 1, false)
        } else {
            (1, 2, false)
        }
    } else {
        spin_code_scan(ls, i + 1, next_model(m, ls[i]), start, skip_first)
    }
}

/// The first line from `i` on that does not start with `#'`: a markdown cell of an R spin
/// script ends there (and the next cell starts after it when it is blank).
pub open spec fn spin_text_end(ls: Seq<Seq<char>>, i: int) -> (int, int, bool)
    decreases ls.len() - i,
{
    if i < 0 || i >= ls.len() {
        (ls.len() as int, ls.len() as int, false)
    } else if !has_prefix(ls[i], "#'"@) {
        if is_blank_line(ls[i]) {
            (i, i + 1, false)
        } else {
            (i, i, false)
        }
    } else {
        spin_text_end(ls, i + 1)
    }
}

/// The reader of R spin scripts: `#'` lines are markdown, `#+` lines start code cells with
/// options.
pub struct RScriptCellReader {
    pub ext: String,
    pub default_language: String,
    pub language: Option<String>,
    pub comment_magics: Option<bool>,
    /// The pattern of the start of a code cell with options.
    pub start_code: String,
    pub options: Option<CellOptions>,
    pub cell_type: Option<CellKind>,
}

/// A cell of an R spin script is markdown when it has no options and starts with `#'`.
pub open spec fn spin_text_cell(ls: Seq<Seq<char>>, rd: RScriptCellReader) -> bool {
    rd.options is None && has_prefix(ls[0], "#'"@)
}

/// Where the cell that starts at the first line of an R spin script ends.
pub open spec fn spin_cell_end(ls: Seq<Seq<char>>, rd: RScriptCellReader) -> (int, int, bool) {
    if spin_text_cell(ls, rd) {
        spin_text_end(ls, 0)
    } else {
        spin_code_scan(
            ls,
            0,
            initial_model(
                match rd.language {
                    Some(l) => l@,
                    None => rd.default_language@,
                },
            ),
            rd.start_code@,
            rd.options is Some,
        )
    }
}

impl RScriptCellReader {
    /// The reader for the format `fmt`; R is the default language.
    pub fn new(fmt: &FormatOptions, default_language: Option<&str>) -> (r: Self)
        ensures
            r.ext@ == opt_view_string(fmt.extension).unwrap_or(Seq::empty()),
            r.default_language@ == match default_language {
                Some(l) => l@,
                None => "R"@,
            },
            r.language is None,
            r.comment_magics == match fmt.comment_magics {
                Some(b) => Some(b),
                None => Some(true),
            },
            r.start_code@ == r"^#\+(.*)\s*$"@,
            r.options is None,
            r.cell_type is None,
    {
        proof {
            reveal_strlit("");
            assert(""@ =~= Seq::<char>::empty());
        }
        RScriptCellReader {
            ext: match &fmt.extension {
                Some(e) => owned(e.as_str()),
                None => owned(""),
            },
            default_language: match default_language {
                Some(l) => owned(l),
                None => owned("R"),
            },
            language: None,
            comment_magics: match fmt.comment_magics {
                Some(b) => Some(b),
                None => Some(true),
            },
            start_code: owned(r"^#\+(.*)\s*$"),
            options: None,
            cell_type: None,
        }
    }

    /// Finds where the cell that starts at the first line ends: a markdown cell at the first
    /// line that is not `#'` text; a code cell before the next cell marker, or at a blank
    /// line that indented code does not continue. Sets the kind of the cell.
    pub fn find_cell_end(&mut self, lines: &[String]) -> (r: (usize, usize, bool))
        requires
            lines@.len() > 0,
        ensures
            bounds_view(r) == spin_cell_end(views(lines@), *old(self)),
            final(self).cell_type == Some(
                if spin_text_cell(views(lines@), *old(self)) {
                    CellKind::Markdown
                } else {
                    declared_kind(old(self).options)
                },
            ),
            final(self).options == old(self).options,
            final(self).language == old(self).language,
    {
        let ghost ls = views(lines@);
        assert(lines@[0]@ == ls[0]);
        proof {
            reveal_strlit("#'");
        }
        if self.options.is_none() && starts_with(lines[0].as_str(), "#'") {
            self.cell_type = Some(CellKind::Markdown);
            let mut i: usize = 0;
            while i < lines.len()
                invariant
                    i <= lines@.len(),
                    ls == views(lines@),
                    spin_text_end(ls, 0) == spin_text_end(ls, i as int),
                    spin_text_cell(ls, *old(self)),
                    self.cell_type == Some(CellKind::Markdown),
                    self.options == old(self).options,
                    self.language == old(self).language,
                decreases lines.len() - i,
            {
                let line = lines[i].as_str();
                assert(line@ == ls[i as int]);
                if !starts_with(line, "#'") {
                    if blank_line(line) {
                        return (i, i + 1, false);
                    }
                    return (i, i, false);
                }
                i += 1;
            }
            return (lines.len(), lines.len(), false);
        }
        let kind = match &self.options {
            Some(o) => match &o.cell_type {
                Some(t) => if str_eq(t.as_str(), "markdown") {
                    CellKind::Markdown
                } else if str_eq(t.as_str(), "raw") {
                    CellKind::Raw
                } else {
                    CellKind::Code
                },
                None => CellKind::Code,
            },
            None => CellKind::Code,
        };
        self.cell_type = Some(kind);
        let ghost start = self.start_code@;
        let skip_first = self.options.is_some();
        let start_re = compile_pattern(self.start_code.as_str());
        let mut parser = StringParser::new(
            match &self.language {
                Some(l) => l.as_str(),
                None => self.default_language.as_str(),
            },
        );
        let ghost m0 = parser@;
        let n = lines.len();
        let mut i: usize = 0;
        while i < n
            invariant
                n == lines@.len(),
                i <= n,
                ls == views(lines@),
                compiled_from(start_re, start),
                spin_code_scan(ls, 0, m0, start, skip_first) == spin_code_scan(ls, i as int, parser@, start, skip_first),
                !spin_text_cell(ls, *old(self)),
                self.cell_type == Some(declared_kind(old(self).options)),
                self.options == old(self).options,
                self.language == old(self).language,
                start == old(self).start_code@,
                skip_first == (old(self).options is Some),
                m0 == initial_model(
                    match old(self).language {
                        Some(l) => l@,
                        None => old(self).default_language@,
                    },
                ),
            decreases n - i,
        {
            let line = lines[i].as_str();
            assert(line@ == ls[i as int]);
            if skip_first && i == 0 {
                i += 1;
                continue;
            }
            if parser.is_quoted() {
                parser.read_line(line);
                i += 1;
                continue;
            }
            parser.read_line(line);
            if pattern_hit(&start_re, Ghost(start), line) || starts_with(line, "#'") {
                if i > 0 && blank_line(lines[i - 1].as_str()) {
                    if i > 1 && blank_line(lines[i - 2].as_str()) {
                        return (i - 2, i, false);
                    }
                    return (i - 1, i, false);
                }
                return (i, i, false);
            }
            if blank_line(line) && !code_is_indented_from(lines, i) {
                if i > 0 {
                    return (i, i + 1, false);
                }
                if n > 1 && !blank_line(lines[1].as_str()) {
                    return (1, 1, false);
                }
                return (1, 2, false);
            }
            i += 1;
        }
        (n, n, false)
    }
}

/// A line of twenty or more `#`: the start of a markdown cell of a Sphinx Gallery script.
pub open spec fn twenty_hash_line() -> Seq<char> {
    r"^#( |)#{19,}\s*$"@
}

/// The marker that starts a markdown cell of a Sphinx Gallery script, if the line starts
/// one: an empty string `""` or `''`, a triple quote, or a line of twenty `#` or more.
pub open spec fn sphinx_marker(line: Seq<char>) -> Option<Seq<char>> {
    if line == "\"\""@ || line == "''"@ {
        Some(line)
    } else if has_prefix(line, "\"\"\""@) {
        Some("\"\"\""@)
    } else if has_prefix(line, "'''"@) {
        Some("'''"@)
    } else if regex_hit(twenty_hash_line(), line) {
        Some(line)
    } else {
        None
    }
}

/// Where a markdown cell in triple quotes ends: at the first line (the opening line too,
/// unless it is the bare marker) that ends with the marker.
pub open spec fn sphinx_triple_end(ls: Seq<Seq<char>>, i: int, marker: Seq<char>) -> (int, int, bool)
    decreases ls.len() - i,
{
    if i < 0 || i >= ls.len() {
        (ls.len() as int, ls.len() as int, false)
    } else if (i > 0 || trim(ls[i]) != marker) && has_suffix(trim_end(ls[i]), marker) {
        let explicit = trim(ls[i]) == marker;
        let end = if explicit {
            i
        } else {
            i + 1
        };
        if ls.len() <= i + 1 || is_blank_line(ls[i + 1]) {
            (end, if i + 2 < ls.len() { i + 2 } else { ls.len() as int }, explicit)
        } else {
            (end, i + 1, explicit)
        }
    } else {
        sphinx_triple_end(ls, i + 1, marker)
    }
}

/// Where a markdown cell of `#` comments ends: at the first line, after the first one, that
/// is not a comment (and the next cell starts after it when it is blank).
pub open spec fn sphinx_comment_end(ls: Seq<Seq<char>>, i: int) -> (int, int, bool)
    decreases ls.len() - i,
{
    if i < 1 || i >= ls.len() {
        (ls.len() as int, ls.len() as int, false)
    } else if !has_prefix(ls[i], "#"@) {
        if is_blank_line(ls[i]) {
            (i, i + 1, false)
        } else {
            (i, i, false)
        }
    } else {
        sphinx_comment_end(ls, i + 1)
    }
}

/// Where a code cell of a Sphinx Gallery script ends: before the next line, outside of a
/// string, that starts a markdown cell (and before the blank line above it).
pub open spec fn sphinx_code_end(ls: Seq<Seq<char>>, i: int, m: ParserModel) -> (int, int, bool)
    decreases ls.len() - i,
{
    if i < 0 || i >= ls.len() {
        (ls.len() as int, ls.len() as int, false)
    } else if model_quoted(m) {
        sphinx_code_end(ls, i + 1, next_model(m, ls[i]))
    } else if sphinx_marker(ls[i]) is Some {
        if i > 0 && is_blank_line(ls[i - 1]) {
            (i - 1, i, false)
        } else {
            (i, i, false)
        }
    } else {
        sphinx_code_end(ls, i + 1, next_model(m, ls[i]))
    }
}

/// The reader of Sphinx Gallery scripts: markdown cells are strings or blocks of comments
/// under a line of `#`, the rest is code.
pub struct SphinxGalleryScriptCellReader {
    pub ext: String,
    pub default_language: String,
    pub comment_magics: Option<bool>,
    pub rst2md: bool,
    /// The marker that opened the current markdown cell.
    pub markdown_marker: Option<String>,
    /// The marker to record in the cell's metadata, when it is not the default one.
    pub cell_marker: Option<String>,
    pub cell_type: Option<CellKind>,
    /// The lines of the current cell as they stand in the script.
    pub org_content: Vec<String>,
    /// The content of the current cell.
    pub content: Vec<String>,
    /// The number of lines between the current cell and the next one.
    pub lines_to_next_cell: usize,
}

/// The default marker of markdown cells: a line of 79 `#`.
pub open spec fn default_markdown_marker() -> Seq<char> {
    Seq::new(79, |i: int| '#')
}

/// Where the cell that starts at the first line of a Sphinx Gallery script ends.
pub open spec fn sphinx_cell_end(ls: Seq<Seq<char>>, rd: SphinxGalleryScriptCellReader) -> (int, int, bool) {
    sphinx_end_marker(ls, rd.cell_type, marker_of(rd))
}

impl SphinxGalleryScriptCellReader {
    /// The reader for the format `fmt`; its scripts are Python.
    pub fn new(fmt: &FormatOptions, default_language: Option<&str>) -> (r: Self)
        ensures
            r.ext@ == ".py"@,
            r.default_language@ == match default_language {
                Some(l) => l@,
                None => "python"@,
            },
            r.comment_magics == match fmt.comment_magics {
                Some(b) => Some(b),
                None => Some(true),
            },
            r.rst2md == fmt.rst2md,
            r.markdown_marker is None,
            r.cell_marker is None,
            r.cell_type is None,
            r.org_content@.len() == 0,
            r.content@.len() == 0,
            r.lines_to_next_cell == 1,
    {
        SphinxGalleryScriptCellReader {
            ext: owned(".py"),
            default_language: match default_language {
                Some(l) => owned(l),
                None => owned("python"),
            },
            comment_magics: match fmt.comment_magics {
                Some(b) => Some(b),
                None => Some(true),
            },
            rst2md: fmt.rst2md,
            markdown_marker: None,
            cell_marker: None,
            cell_type: None,
            org_content: Vec::new(),
            content: Vec::new(),
            lines_to_next_cell: 1,
        }
    }

    /// The marker that starts a markdown cell, if `line` starts one.
    pub fn start_of_new_markdown_cell(&self, line: &str) -> (r: Option<String>)
        ensures
            opt_view_string(r) == sphinx_marker(line@),
    {
        proof {
            reveal_strlit("\"\"");
            reveal_strlit("''");
            reveal_strlit("\"\"\"");
            reveal_strlit("'''");
        }
        if str_eq(line, "\"\"") || str_eq(line, "''") {
            return Some(owned(line));
        }
        if starts_with(line, "\"\"\"") {
            return Some(owned("\"\"\""));
        }
        if starts_with(line, "'''") {
            return Some(owned("'''"));
        }
        if matches_str(r"^#( |)#{19,}\s*$", line) {
            return Some(owned(line));
        }
        None
    }

    /// Reads the first line of a cell: a markdown marker makes it a markdown cell (which
    /// records its marker unless it is the default one), else it is a code cell.
    pub fn metadata_and_language_from_option_line(&mut self, line: &str)
        ensures
            opt_view_string(final(self).markdown_marker) == sphinx_marker(line@),
            final(self).cell_type == Some(
                if sphinx_marker(line@) is Some {
                    CellKind::Markdown
                } else {
                    CellKind::Code
                },
            ),
            opt_view_string(final(self).cell_marker) == match sphinx_marker(line@) {
                Some(m) => if m != default_markdown_marker() {
                    Some(m)
                } else {
                    opt_view_string(old(self).cell_marker)
                },
                None => opt_view_string(old(self).cell_marker),
            },
            final(self).comment_magics == old(self).comment_magics,
            final(self).default_language == old(self).default_language,
    {
        let marker = self.start_of_new_markdown_cell(line);
        match &marker {
            Some(m) => {
                self.cell_type = Some(CellKind::Markdown);
                if !is_default_marker(m.as_str()) {
                    self.cell_marker = Some(owned(m.as_str()));
                }
            },
            None => {
                self.cell_type = Some(CellKind::Code);
            },
        }
        self.markdown_marker = marker;
    }

    /// Finds where the cell that starts at the first line ends: an empty string is a cell of
    /// its own; a triple-quoted cell ends with its closing quotes; a cell of comments at the
    /// first line that is not one; a code cell before the next markdown cell.
    pub fn find_cell_end(&self, lines: &[String]) -> (r: (usize, usize, bool))
        ensures
            bounds_view(r) == sphinx_cell_end(views(lines@), *self),
    {
        let ghost ls = views(lines@);
        let n = lines.len();
        proof {
            reveal_strlit("");
            reveal_strlit("#");
        }
        if self.cell_type == Some(CellKind::Markdown) {
            let marker = match &self.markdown_marker {
                Some(m) => m.as_str(),
                None => "",
            };
            assert(marker@ == opt_view_string(self.markdown_marker).unwrap_or(Seq::empty()));
            let len = marker.unicode_len();
            if len <= 2 {
                if n == 1 || (n > 1 && blank_line(lines[1].as_str())) {
                    return (0, if n < 2 { n } else { 2 }, true);
                }
                return (0, 1, true);
            }
            if len == 3 {
                let mut i: usize = 0;
                while i < n
                    invariant
                        n == lines@.len(),
                        i <= n,
                        ls == views(lines@),
                        marker@.len() == 3,
                        sphinx_triple_end(ls, 0, marker@) == sphinx_triple_end(ls, i as int, marker@),
                        self.cell_type == Some(CellKind::Markdown),
                        marker@ == opt_view_string(self.markdown_marker).unwrap_or(Seq::empty()),
                    decreases n - i,
                {
                    let line = lines[i].as_str();
                    assert(line@ == ls[i as int]);
                    let t = trim_str(line);
                    let te = trim_end_str(line);
                    if (i > 0 || !str_eq(t.as_str(), marker)) && ends_with(te.as_str(), marker) {
                        let explicit = str_eq(t.as_str(), marker);
                        let end = if explicit {
                            i
                        } else {
                            i + 1
                        };
                        let next = if n - i > 2 {
                            i + 2
                        } else {
                            n
                        };
                        if n <= i + 1 {
                            return (end, next, explicit);
                        }
                        assert(lines@[i + 1]@ == ls[i + 1]);
                        if blank_line(lines[i + 1].as_str()) {
                            return (end, next, explicit);
                        }
                        return (end, i + 1, explicit);
                    }
                    i += 1;
                }
                return (n, n, false);
            }
            if n <= 1 {
                return (n, n, false);
            }
            let mut i: usize = 1;
            while i < n
                invariant
                    n == lines@.len(),
                    1 <= i <= n,
                    ls == views(lines@),
                    sphinx_comment_end(ls, 1) == sphinx_comment_end(ls, i as int),
                    self.cell_type == Some(CellKind::Markdown),
                    marker@ == opt_view_string(self.markdown_marker).unwrap_or(Seq::empty()),
                    marker@.len() > 3,
                decreases n - i,
            {
                let line = lines[i].as_str();
                assert(line@ == ls[i as int]);
                if !starts_with(line, "#") {
                    if blank_line(line) {
                        return (i, i + 1, false);
                    }
                    return (i, i, false);
                }
                i += 1;
            }
            return (n, n, false);
        }
        if self.cell_type == Some(CellKind::Code) {
            let mut parser = StringParser::new("python");
            proof {
                reveal_strlit("python");
            }
            let mut i: usize = 0;
            while i < n
                invariant
                    n == lines@.len(),
                    i <= n,
                    ls == views(lines@),
                    sphinx_code_end(ls, 0, initial_model("python"@)) == sphinx_code_end(ls, i as int, parser@),
                    self.cell_type == Some(CellKind::Code),
                decreases n - i,
            {
                let line = lines[i].as_str();
                assert(line@ == ls[i as int]);
                if parser.is_quoted() {
                    parser.read_line(line);
                    i += 1;
                    continue;
                }
                if self.start_of_new_markdown_cell(line).is_some() {
                    if i > 0 && blank_line(lines[i - 1].as_str()) {
                        return (i - 1, i, false);
                    }
                    return (i, i, false);
                }
                parser.read_line(line);
                i += 1;
            }
        }
        (n, n, false)
    }
}

/// Is the marker the default one, a line of 79 `#`?
fn is_default_marker(m: &str) -> (r: bool)
    ensures
        r == (m@ == default_markdown_marker()),
{
    let v = chars_of(m);
    if v.len() != 79 {
        return false;
    }
    let mut i: usize = 0;
    while i < 79
        invariant
            i <= 79,
            v@.len() == 79,
            v@ == m@,
            forall|j: int| 0 <= j < i ==> v@[j] == '#',
        decreases 79 - i,
    {
        if v[i] != '#' {
            assert(v@[i as int] != default_markdown_marker()[i as int]);
            return false;
        }
        i += 1;
    }
    assert(v@ =~= default_markdown_marker());
    true
}

/// The marker is a triple quote.
pub open spec fn is_triple(marker: Seq<char>) -> bool {
    marker == "\"\"\""@ || marker == "'''"@
}

/// The lines of a Sphinx Gallery cell once the quotes of a triple-quoted markdown cell are
/// taken off: the opening ones (unless they stand alone on the first line), and the closing
/// ones on the last line of the cell when no line of its own closes it.
pub open spec fn sphinx_unquoted(ls: Seq<Seq<char>>, marker: Seq<char>, markdown: bool, end: int, explicit: bool) -> Seq<Seq<char>> {
    if markdown && is_triple(marker) {
        let w = if trim(ls[0]) == marker {
            ls
        } else {
            ls.update(0, ls[0].subrange(3, ls[0].len() as int))
        };
        if !explicit && end > 0 && end <= w.len() {
            match rfind_sub(w[end - 1], marker) {
                Some(p) => w.update(end - 1, w[end - 1].subrange(0, p)),
                None => w,
            }
        } else {
            w
        }
    } else {
        ls
    }
}

/// The first line of a Sphinx Gallery cell's content: after a bare opening triple quote or
/// a line of `#`.
pub open spec fn sphinx_cell_start(ls: Seq<Seq<char>>, marker: Seq<char>, markdown: bool) -> int {
    if markdown && regex_hit(twenty_hash_line(), marker) {
        1
    } else if markdown && is_triple(marker) && trim(ls[0]) == marker {
        1
    } else {
        0
    }
}

/// What a Sphinx Gallery reader makes of the cell of kind `kind`, opened by `marker`, that
/// starts at the first line: its lines as they stand in the script, its content, the start
/// of the next cell and the number of lines to it.
pub open spec fn sphinx_content_of(
    ls: Seq<Seq<char>>,
    kind: Option<CellKind>,
    comment_magics: Option<bool>,
    language: Seq<char>,
    marker: Seq<char>,
) -> (Seq<Seq<char>>, Seq<Seq<char>>, int, int) {
    let (end, next, explicit) = sphinx_end_marker(ls, kind, marker);
    let markdown = kind == Some(CellKind::Markdown);
    let w = sphinx_unquoted(ls, marker, markdown, end, explicit);
    let stop = if end < w.len() {
        end
    } else {
        w.len() as int
    };
    let start = sphinx_cell_start(ls, marker, markdown);
    let source = w.subrange(if start < stop { start } else { stop }, stop);
    let content = if kind == Some(CellKind::Code) && comment_magics.unwrap_or(true) {
        magics_toggled(source, language, true, false, false)
    } else {
        source
    };
    let content = if markdown && content.len() > 0 && has_prefix(marker, "#"@) {
        uncommented(content, "#"@, Seq::empty())
    } else {
        content
    };
    (source, content, next, lines_to_next_cell_count(end, next, ls.len() as int, explicit))
}

/// The marker of the reader's current cell, or the empty text.
pub open spec fn marker_of(rd: SphinxGalleryScriptCellReader) -> Seq<char> {
    opt_view_string(rd.markdown_marker).unwrap_or(Seq::empty())
}

/// What the reader `rd` makes of the cell that starts at the first line.
pub open spec fn sphinx_content(ls: Seq<Seq<char>>, rd: SphinxGalleryScriptCellReader) -> (Seq<Seq<char>>, Seq<Seq<char>>, int, int) {
    sphinx_content_of(ls, rd.cell_type, rd.comment_magics, rd.default_language@, marker_of(rd))
}

/// A cell that a reader read: its type, source, the marker of a markdown cell when it is
/// not the default one, its number of lines to the next cell when that differs from the
/// expected one, and the position of the next cell.
pub struct CellReadResult {
    pub cell_type: CellType,
    pub source: String,
    pub cell_marker: Option<String>,
    pub lines_to_next_cell: Option<usize>,
    pub next_position: usize,
}

/// The plain values of a cell that a reader read.
pub open spec fn read_view(r: CellReadResult) -> (CellType, Seq<char>, Option<Seq<char>>, Option<int>, int) {
    (
        r.cell_type,
        r.source@,
        opt_view_string(r.cell_marker),
        match r.lines_to_next_cell {
            Some(n) => Some(n as int),
            None => None,
        },
        r.next_position as int,
    )
}

/// The cell that the reader `rd` reads from the first lines of a Sphinx Gallery script:
/// a markdown cell when the first line opens one, else a code cell; the lines to the next
/// cell are recorded when they differ from what PEP 8 expects.
pub open spec fn sphinx_read(ls: Seq<Seq<char>>, rd: SphinxGalleryScriptCellReader) -> (CellType, Seq<char>, Option<Seq<char>>, Option<int>, int) {
    let marker = sphinx_marker(ls[0]);
    let kind = if marker is Some { CellKind::Markdown } else { CellKind::Code };
    let (org, content, next, ltn) = sphinx_content_of(
        ls,
        Some(kind),
        rd.comment_magics,
        rd.default_language@,
        marker.unwrap_or(Seq::empty()),
    );
    let prev = if org.len() == 0 {
        seq![Seq::<char>::empty()]
    } else {
        org
    };
    let expected = pep8_lines(prev, ls.subrange(next, ls.len() as int), ".py"@);
    (
        if marker is Some { CellType::Markdown } else { CellType::Code },
        join(content, "\n"@),
        match marker {
            Some(m) => if m != default_markdown_marker() {
                Some(m)
            } else {
                opt_view_string(rd.cell_marker)
            },
            None => None,
        },
        if ltn != expected { Some(ltn) } else { None },
        next,
    )
}

/// `sphinx_cell_end` for a cell of kind `kind` opened by `marker`.
pub open spec fn sphinx_end_marker(ls: Seq<Seq<char>>, kind: Option<CellKind>, marker: Seq<char>) -> (int, int, bool) {
    if kind == Some(CellKind::Markdown) {
        if marker.len() <= 2 {
            if ls.len() == 1 || (ls.len() > 1 && is_blank_line(ls[1])) {
                (0, if ls.len() < 2 { ls.len() as int } else { 2 }, true)
            } else {
                (0, 1, true)
            }
        } else if marker.len() == 3 {
            sphinx_triple_end(ls, 0, marker)
        } else {
            sphinx_comment_end(ls, 1)
        }
    } else if kind == Some(CellKind::Code) {
        sphinx_code_end(ls, 0, initial_model("python"@))
    } else {
        (ls.len() as int, ls.len() as int, false)
    }
}

/// A triple-quoted cell ends after its first line when that line is only the marker; any
/// scan ends at or after where it starts.
proof fn lemma_triple_end_bounds(ls: Seq<Seq<char>>, i: int, marker: Seq<char>)
    requires
        0 <= i,
    ensures
        sphinx_triple_end(ls, i, marker).0 >= i || i >= ls.len(),
        i == 0 && ls.len() > 0 && trim(ls[0]) == marker ==> sphinx_triple_end(ls, i, marker).0 >= 1,
        sphinx_triple_end(ls, i, marker).0 <= ls.len(),
        sphinx_triple_end(ls, i, marker).1 <= ls.len(),
    decreases ls.len() - i,
{
    if i < ls.len() {
        lemma_triple_end_bounds(ls, i + 1, marker);
    }
}

/// A cell of comments ends after its first line.
proof fn lemma_comment_end_bounds(ls: Seq<Seq<char>>, i: int)
    requires
        1 <= i,
    ensures
        sphinx_comment_end(ls, i).0 >= i || i >= ls.len(),
        sphinx_comment_end(ls, i).0 <= ls.len(),
        sphinx_comment_end(ls, i).1 <= ls.len(),
    decreases ls.len() - i,
{
    if i < ls.len() {
        lemma_comment_end_bounds(ls, i + 1);
    }
}

/// A code cell ends within the lines.
proof fn lemma_code_end_bounds(ls: Seq<Seq<char>>, i: int, m: ParserModel)
    requires
        0 <= i,
    ensures
        sphinx_code_end(ls, i, m).0 <= ls.len(),
        sphinx_code_end(ls, i, m).1 <= ls.len(),
    decreases ls.len() - i,
{
    if i < ls.len() {
        lemma_code_end_bounds(ls, i + 1, next_model(m, ls[i]));
    }
}

impl SphinxGalleryScriptCellReader {
    /// Reads the content of the cell that starts at the first line: takes off the quotes of
    /// a triple-quoted cell, or the line of `#` and the comment signs of a commented one,
    /// uncomments the magic commands of a code cell, and counts the lines to the next cell,
    /// whose position it returns.
    pub fn find_cell_content(&mut self, lines: &[String]) -> (r: usize)
        requires
            0 < lines@.len() < usize::MAX,
            old(self).cell_type == Some(CellKind::Markdown) && is_triple(marker_of(*old(self)))
                ==> has_prefix(lines@[0]@, marker_of(*old(self))),
        ensures
            r <= lines@.len(),
            ({
                let (org, content, next, ltn) = sphinx_content(views(lines@), *old(self));
                &&& views(final(self).org_content@) == org
                &&& views(final(self).content@) == content
                &&& r == next
                &&& final(self).lines_to_next_cell == ltn
            }),
            final(self).cell_type == old(self).cell_type,
            final(self).markdown_marker == old(self).markdown_marker,
            final(self).cell_marker == old(self).cell_marker,
            final(self).comment_magics == old(self).comment_magics,
            final(self).default_language == old(self).default_language,
    {
        let ghost ls = views(lines@);
        let ghost rd = *self;
        let (end, next, explicit) = self.find_cell_end(lines);
        let n = lines.len();
        proof {
            reveal_strlit("");
            reveal_strlit("#");
            reveal_strlit("\"\"\"");
            reveal_strlit("'''");
            lemma_triple_end_bounds(ls, 0, marker_of(rd));
            lemma_comment_end_bounds(ls, 1);
            lemma_code_end_bounds(ls, 0, initial_model("python"@));
        }
        let marker = match &self.markdown_marker {
            Some(m) => m.as_str(),
            None => "",
        };
        assert(marker@ == marker_of(rd));
        let markdown = self.cell_type == Some(CellKind::Markdown);
        let mut working: Vec<String> = Vec::new();
        let mut k: usize = 0;
        while k < n
            invariant
                k <= n,
                n == lines@.len(),
                ls == views(lines@),
                views(working@) == ls.subrange(0, k as int),
            decreases n - k,
        {
            working.push(lines[k].clone());
            assert(ls.subrange(0, k + 1) =~= ls.subrange(0, k as int).push(ls[k as int]));
            k += 1;
        }
        assert(ls.subrange(0, n as int) =~= ls);
        let mut cell_start: usize = 0;
        let triple = str_eq(marker, "\"\"\"") || str_eq(marker, "'''");
        if markdown && triple {
            let first = trim_str(lines[0].as_str());
            assert(lines@[0]@ == ls[0]);
            if str_eq(first.as_str(), marker) {
                cell_start = 1;
            } else {
                let v = chars_of(lines[0].as_str());
                let rest = string_of(&v, 3, v.len());
                working.set(0, rest);
            }
            if !explicit && end > 0 && end <= working.len() {
                let idx = end - 1;
                let last = chars_of(working[idx].as_str());
                let mv = chars_of(marker);
                match vec_rfind_sub(&last, &mv) {
                    Some(pos) => {
                        let cut = string_of(&last, 0, pos);
                        working.set(idx, cut);
                    },
                    None => {},
                }
            }
        }
        if markdown && matches_str(r"^#( |)#{19,}\s*$", marker) {
            cell_start = 1;
        }
        let ghost w = views(working@);
        assert(w =~= sphinx_unquoted(ls, marker@, markdown, end as int, explicit));
        let stop = if end < working.len() {
            end
        } else {
            working.len()
        };
        assert(cell_start as int == sphinx_cell_start(ls, marker@, markdown));
        if cell_start > stop {
            cell_start = stop;
        }
        let mut source: Vec<String> = Vec::new();
        let mut j: usize = cell_start;
        while j < stop
            invariant
                cell_start <= j <= stop,
                stop <= working@.len(),
                w == views(working@),
                views(source@) == w.subrange(cell_start as int, j as int),
            decreases stop - j,
        {
            source.push(working[j].clone());
            assert(w.subrange(cell_start as int, j + 1) =~= w.subrange(cell_start as int, j as int).push(w[j as int]));
            j += 1;
        }
        let mut content: Vec<String> = source.clone();
        assert(views(content@) =~= views(source@));
        if self.cell_type == Some(CellKind::Code) && match self.comment_magics {
            Some(b) => b,
            None => true,
        } {
            uncomment_magic(&mut content, self.default_language.as_str(), true, false);
        }
        if markdown && content.len() > 0 && starts_with(marker, "#") {
            content = uncomment_lines(&content, "#", "");
        }
        self.org_content = source;
        self.content = content;
        self.lines_to_next_cell = count_lines_to_next_cell(end, next, n, explicit);
        next
    }
}

/// A reader of the cells of a text notebook.
pub trait CellReader {
    /// Reads the cell that starts at the first line, and gives the position of the line
    /// where the next cell starts.
    fn read(&mut self, lines: &[String]) -> (r: CellReadResult)
        requires
            0 < lines@.len() < usize::MAX,
    ;
}

impl CellReader for SphinxGalleryScriptCellReader {
    /// Reads the cell that starts at the first line of the script: its first line tells a
    /// markdown cell from a code cell.
    fn read(&mut self, lines: &[String]) -> (r: CellReadResult)
        ensures
            read_view(r) == sphinx_read(views(lines@), *old(self)),
    {
        let ghost ls = views(lines@);
        assert(lines@[0]@ == ls[0]);
        proof {
            reveal_strlit("\"\"");
            reveal_strlit("''");
            reveal_strlit("\"\"\"");
            reveal_strlit("'''");
        }
        self.metadata_and_language_from_option_line(lines[0].as_str());
        proof {
            if sphinx_marker(ls[0]) == Some(ls[0]) {
                assert(ls[0].subrange(0, ls[0].len() as int) =~= ls[0]);
            }
        }
        let next = self.find_cell_content(lines);
        let n = lines.len();
        let mut rest: Vec<String> = Vec::new();
        let mut k: usize = next;
        while k < n
            invariant
                next <= k <= n,
                n == lines@.len(),
                ls == views(lines@),
                views(rest@) == ls.subrange(next as int, k as int),
            decreases n - k,
        {
            rest.push(lines[k].clone());
            assert(ls.subrange(next as int, k + 1) =~= ls.subrange(next as int, k as int).push(ls[k as int]));
            k += 1;
        }
        let expected = if self.org_content.len() == 0 {
            let mut blank: Vec<String> = Vec::new();
            blank.push(String::new());
            assert(views(blank@) =~= seq![Seq::<char>::empty()]);
            pep8_lines_between_cells(&blank, &rest, ".py")
        } else {
            pep8_lines_between_cells(&self.org_content, &rest, ".py")
        };
        let cell_type = match self.cell_type {
            Some(CellKind::Markdown) => CellType::Markdown,
            _ => CellType::Code,
        };
        let cell_marker = match self.cell_type {
            Some(CellKind::Markdown) => match &self.cell_marker {
                Some(m) => Some(owned(m.as_str())),
                None => None,
            },
            _ => None,
        };
        CellReadResult {
            cell_type,
            source: join_strings(&self.content, "\n"),
            cell_marker,
            lines_to_next_cell: if self.lines_to_next_cell != expected {
                Some(self.lines_to_next_cell)
            } else {
                None
            },
            next_position: next,
        }
    }
}

} // verus!
