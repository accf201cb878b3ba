//! Helpers of the notebook header (the YAML front matter of text notebooks), and the
//! shebang and encoding lines of scripts.

use vstd::prelude::*;
use crate::pattern::{compile_pattern, compiled_from, escape, pattern_hit, regex_escape, regex_hit};
use crate::notebook::CellType;
use crate::pep8::{pep8_lines, pep8_lines_between_cells};
use crate::languages::{script_entry, script_language_for_ext};
use crate::text::{
    chars_of, concat, concat3, contains_str, contains_sub, ends_with, has_prefix, has_suffix,
    is_blank, join, join_strings, lines, lines_of, owned, split_char, split_on, starts_with, str_eq,
    string_of, trim, trim_str, views,
};

verus! {

/// Whether the format version number is inserted into, and checked in, text notebooks.
/// The library has no global switch for it: the answer is always yes.
pub fn insert_or_test_version_number() -> (r: bool)
    ensures
        r,
{
    true
}

/// A header line without its comment prefix (`prefix ` or `prefix`) and suffix
/// (`suffix ` or `suffix`).
pub open spec fn header_uncommented(line: Seq<char>, prefix: Seq<char>, suffix: Seq<char>) -> Seq<char> {
    let r = if prefix.len() == 0 {
        line
    } else if has_prefix(line, prefix + " "@) {
        line.subrange(prefix.len() + 1int, line.len() as int)
    } else if has_prefix(line, prefix) {
        line.subrange(prefix.len() as int, line.len() as int)
    } else {
        line
    };
    if suffix.len() == 0 {
        r
    } else if has_suffix(r, suffix + " "@) {
        r.subrange(0, r.len() - suffix.len() - 1)
    } else if has_suffix(r, suffix) {
        r.subrange(0, r.len() - suffix.len())
    } else {
        r
    }
}

/// Removes the comment prefix and suffix of a header line.
pub fn uncomment_line(line: &str, prefix: &str, suffix: &str) -> (r: String)
    ensures
        r@ == header_uncommented(line@, prefix@, suffix@),
{
    proof {
        reveal_strlit(" ");
    }
    let mut result = owned(line);
    if prefix.unicode_len() > 0 {
        let ps = concat(prefix, " ");
        if starts_with(result.as_str(), ps.as_str()) {
            let v = chars_of(result.as_str());
            result = string_of(&v, ps.unicode_len(), v.len());
        } else if starts_with(result.as_str(), prefix) {
            let v = chars_of(result.as_str());
            result = string_of(&v, prefix.unicode_len(), v.len());
        }
    }
    if suffix.unicode_len() > 0 {
        let ss = concat(suffix, " ");
        if ends_with(result.as_str(), ss.as_str()) {
            let v = chars_of(result.as_str());
            result = string_of(&v, 0, v.len() - ss.unicode_len());
        } else if ends_with(result.as_str(), suffix) {
            let v = chars_of(result.as_str());
            result = string_of(&v, 0, v.len() - suffix.unicode_len());
        }
    }
    result
}

} // verus!

verus! {

/// A line that opens or closes the header: `---`.
pub open spec fn header_fence_pattern() -> Seq<char> {
    r"^---\s*$"@
}

/// The line that opens the `jupyter:` section of the header.
pub open spec fn jupyter_pattern() -> Seq<char> {
    r"^jupyter\s*:\s*$"@
}

/// A line that starts with whitespace.
pub open spec fn left_space_pattern() -> Seq<char> {
    r"^\s"@
}

/// A blank line.
pub open spec fn header_blank_pattern() -> Seq<char> {
    r"^\s*$"@
}

/// The pattern of an encoding line, for the escaped comment prefix `e`.
pub open spec fn encoding_pattern(e: Seq<char>) -> Seq<char> {
    r"^[ \t\f]*"@ + e + r".*?coding[:=][ \t]*([-_.a-zA-Z0-9]+)"@
}

/// The state of the header scan.
pub struct HeaderState {
    pub i: int,
    pub start: int,
    pub started: bool,
    pub ended: bool,
    pub in_jupyter: bool,
    pub in_html_div: bool,
    pub stopped: bool,
    pub executable: Option<Seq<char>>,
    pub encoding: Option<Seq<char>>,
    pub header_lines: Seq<Seq<char>>,
    pub jupyter_lines: Seq<Seq<char>>,
}

/// The state before the first line.
pub open spec fn initial_header_state() -> HeaderState {
    HeaderState {
        i: 0,
        start: 0,
        started: false,
        ended: false,
        in_jupyter: false,
        in_html_div: false,
        stopped: false,
        executable: None,
        encoding: None,
        header_lines: Seq::empty(),
        jupyter_lines: Seq::empty(),
    }
}

/// The header scan after line `idx`: a shebang and an encoding line are recorded; the scan
/// stops at the first line without the comment prefix, at the line that closes the header
/// (or after it, in an HTML comment), or at a non-blank line before the header opens; the
/// other lines go to the `jupyter:` section or to the rest of the header.
pub open spec fn header_step(
    st: HeaderState,
    idx: int,
    line: Seq<char>,
    enc: Seq<char>,
    first_is_encoding: bool,
    prefix: Seq<char>,
    suffix: Seq<char>,
) -> HeaderState {
    let st = HeaderState { i: idx, ..st };
    if idx == 0 && has_prefix(line, "#!"@) {
        HeaderState { executable: Some(line.subrange(2, line.len() as int)), start: idx + 1, ..st }
    } else if (idx == 0 || (idx == 1 && !first_is_encoding)) && regex_hit(enc, line) {
        HeaderState { encoding: Some(line), start: idx + 1, ..st }
    } else if !has_prefix(line, prefix) && prefix.len() > 0 {
        HeaderState { stopped: true, ..st }
    } else if prefix.len() == 0 && has_prefix(trim(line), "<!--"@) {
        HeaderState { in_html_div: true, ..st }
    } else if st.in_html_div && st.ended && contains_sub(line, "-->"@) {
        HeaderState { stopped: true, ..st }
    } else if st.in_html_div && !st.started && trim(line).len() == 0 {
        st
    } else {
        let u = header_uncommented(line, prefix, suffix);
        if regex_hit(header_fence_pattern(), u) {
            if !st.started {
                HeaderState { started: true, ..st }
            } else if st.in_html_div {
                HeaderState { ended: true, ..st }
            } else {
                HeaderState { ended: true, stopped: true, ..st }
            }
        } else if !st.started && trim(u).len() > 0 {
            HeaderState { stopped: true, ..st }
        } else {
            let in_jupyter = if regex_hit(jupyter_pattern(), u) {
                true
            } else if u.len() > 0 && !regex_hit(left_space_pattern(), u) {
                false
            } else {
                st.in_jupyter
            };
            if in_jupyter {
                HeaderState { in_jupyter, jupyter_lines: st.jupyter_lines.push(u), ..st }
            } else {
                HeaderState { in_jupyter, header_lines: st.header_lines.push(u), ..st }
            }
        }
    }
}

/// The header scan over the first `n` lines (nothing changes once it stopped).
pub open spec fn header_scan(
    lines: Seq<Seq<char>>,
    n: int,
    enc: Seq<char>,
    prefix: Seq<char>,
    suffix: Seq<char>,
) -> HeaderState
    decreases n,
{
    if n <= 0 {
        initial_header_state()
    } else {
        let st = header_scan(lines, n - 1, enc, prefix, suffix);
        if st.stopped {
            st
        } else {
            header_step(
                st,
                n - 1,
                lines[n - 1],
                enc,
                lines.len() > 0 && regex_hit(enc, lines[0]),
                prefix,
                suffix,
            )
        }
    }
}

/// The comment prefix that the encoding line uses.
pub open spec fn encoding_comment(prefix: Seq<char>) -> Seq<char> {
    if prefix == "#'"@ {
        "#"@
    } else {
        prefix
    }
}

/// The header of a text notebook, as found in its first lines: the shebang and encoding
/// lines, the YAML text of the `jupyter:` section and of the other root-level entries,
/// the raw cell that holds the latter when asked for, and the line where the notebook's
/// cells start.
pub struct HeaderParseResult {
    pub executable: Option<String>,
    pub encoding: Option<String>,
    pub jupyter_yaml: Option<String>,
    pub root_level_yaml: Option<String>,
    pub has_jupyter_md: bool,
    pub header_cell: Option<HeaderCell>,
    pub next_line: usize,
}

/// The raw cell made of the root-level entries of the header, with its number of lines to
/// the next cell when that differs from the PEP 8 count.
pub struct HeaderCell {
    pub cell_type: CellType,
    pub source: String,
    pub lines_to_next_cell: Option<usize>,
}

} // verus!

verus! {

/// What `header_to_metadata_and_cell` finds, as plain values: the shebang, the encoding
/// line, the YAML texts of the `jupyter:` section and of the root-level entries, whether
/// there is a `jupyter:` section, the header cell (source and lines to the next cell), and
/// the line where the cells start.
pub open spec fn header_result(
    lines: Seq<Seq<char>>,
    prefix: Seq<char>,
    suffix: Seq<char>,
    ext: Seq<char>,
    root_raw: bool,
) -> (Option<Seq<char>>, Option<Seq<char>>, Option<Seq<char>>, Option<Seq<char>>, bool, Option<(Seq<char>, Option<int>)>, int) {
    let enc = encoding_pattern(regex_escape(encoding_comment(prefix)));
    let st = header_scan(lines, lines.len() as int, enc, prefix, suffix);
    if st.ended {
        let jy = if st.jupyter_lines.len() > 0 {
            Some(join(st.jupyter_lines, "\n"@))
        } else {
            None
        };
        let (i2, ltnc) = if st.i + 1 < lines.len() {
            if !regex_hit(header_blank_pattern(), header_uncommented(lines[st.i + 1], prefix, Seq::empty())) {
                (st.i, 0int)
            } else {
                (st.i + 1, 1int)
            }
        } else {
            (st.i, 0int)
        };
        let body = join(st.header_lines, "\n"@);
        let cell = if st.header_lines.len() > 0 && root_raw {
            Some(
                (
                    "---\n"@ + body + "\n---"@,
                    if ltnc != pep8_lines(seq!["---"@], lines.subrange(i2 + 1, lines.len() as int), ext) {
                        Some(ltnc)
                    } else {
                        None
                    },
                ),
            )
        } else {
            None
        };
        let ry = if st.header_lines.len() > 0 && !root_raw {
            Some(body)
        } else {
            None
        };
        (st.executable, st.encoding, jy, ry, st.jupyter_lines.len() > 0, cell, i2 + 1)
    } else {
        (st.executable, st.encoding, None, None, false, None, st.start)
    }
}

/// The plain values of an optional string.
pub open spec fn opt_view(o: Option<String>) -> Option<Seq<char>> {
    match o {
        Some(s) => Some(s@),
        None => None,
    }
}

/// The plain values of a header result.
pub open spec fn header_result_view(r: HeaderParseResult) -> (Option<Seq<char>>, Option<Seq<char>>, Option<Seq<char>>, Option<Seq<char>>, bool, Option<(Seq<char>, Option<int>)>, int) {
    (
        opt_view(r.executable),
        opt_view(r.encoding),
        opt_view(r.jupyter_yaml),
        opt_view(r.root_level_yaml),
        r.has_jupyter_md,
        match r.header_cell {
            Some(c) => Some(
                (
                    c.source@,
                    match c.lines_to_next_cell {
                        Some(n) => Some(n as int),
                        None => None,
                    },
                ),
            ),
            None => None,
        },
        r.next_line as int,
    )
}

/// Reads the header of a text notebook: the shebang and encoding lines, then the YAML
/// header between `---` lines (commented with `header_prefix` and `header_suffix` in
/// scripts), split into its `jupyter:` section and its other root-level entries; the
/// latter become a raw cell when `root_level_metadata_as_raw_cell` holds.
pub fn header_to_metadata_and_cell(
    lines: &[String],
    header_prefix: &str,
    header_suffix: &str,
    ext: &str,
    root_level_metadata_as_raw_cell: bool,
) -> (r: HeaderParseResult)
    ensures
        header_result_view(r) == header_result(
            views(lines@),
            header_prefix@,
            header_suffix@,
            ext@,
            root_level_metadata_as_raw_cell,
        ),
        r.header_cell matches Some(c) ==> c.cell_type == CellType::Raw,
{
    let ghost ls = views(lines@);
    let comment = if str_eq(header_prefix, "#'") {
        "#"
    } else {
        header_prefix
    };
    assert(comment@ == encoding_comment(header_prefix@));
    let e = escape(comment);
    let enc_src = concat3(r"^[ \t\f]*", e.as_str(), r".*?coding[:=][ \t]*([-_.a-zA-Z0-9]+)");
    let ghost enc = encoding_pattern(regex_escape(encoding_comment(header_prefix@)));
    assert(enc_src@ == enc);
    let enc_re = compile_pattern(enc_src.as_str());
    let fence_re = compile_pattern(r"^---\s*$");
    let jupyter_re = compile_pattern(r"^jupyter\s*:\s*$");
    let left_re = compile_pattern(r"^\s");
    let blank_re = compile_pattern(r"^\s*$");
    let first_is_encoding = lines.len() > 0 && pattern_hit(&enc_re, Ghost(enc), lines[0].as_str());
    assert(lines@.len() > 0 ==> lines@[0]@ == ls[0]);
    let mut i: usize = 0;
    let mut start: usize = 0;
    let mut started = false;
    let mut ended = false;
    let mut in_jupyter = false;
    let mut in_html_div = false;
    let mut executable: Option<String> = None;
    let mut encoding: Option<String> = None;
    let mut header_lines: Vec<String> = Vec::new();
    let mut jupyter_lines: Vec<String> = Vec::new();
    let mut idx: usize = 0;
    let mut stopped = false;
    assert(views(header_lines@) =~= Seq::<Seq<char>>::empty());
    assert(views(jupyter_lines@) =~= Seq::<Seq<char>>::empty());
    while idx < lines.len() && !stopped
        invariant
            idx <= lines@.len(),
            ls == views(lines@),
            compiled_from(enc_re, enc),
            compiled_from(fence_re, header_fence_pattern()),
            compiled_from(jupyter_re, jupyter_pattern()),
            compiled_from(left_re, left_space_pattern()),
            first_is_encoding == (ls.len() > 0 && regex_hit(enc, ls[0])),
            i <= idx,
            i < lines@.len() || i == 0,
            start <= idx,
            ({
                let st = header_scan(ls, idx as int, enc, header_prefix@, header_suffix@);
                &&& st.i == i as int
                &&& st.start == start as int
                &&& st.started == started
                &&& st.ended == ended
                &&& st.in_jupyter == in_jupyter
                &&& st.in_html_div == in_html_div
                &&& st.stopped == stopped
                &&& st.executable == opt_view(executable)
                &&& st.encoding == opt_view(encoding)
                &&& st.header_lines == views(header_lines@)
                &&& st.jupyter_lines == views(jupyter_lines@)
            }),
            stopped ==> header_scan(ls, ls.len() as int, enc, header_prefix@, header_suffix@)
                == header_scan(ls, idx as int, enc, header_prefix@, header_suffix@),
        decreases lines.len() - idx,
    {
        let line = lines[idx].as_str();
        assert(line@ == ls[idx as int]);
        proof {
            reveal_strlit("#!");
        }
        i = idx;
        if idx == 0 && starts_with(line, "#!") {
            let v = chars_of(line);
            executable = Some(string_of(&v, 2, v.len()));
            start = idx + 1;
        } else if (idx == 0 || (idx == 1 && !first_is_encoding)) && pattern_hit(
            &enc_re,
            Ghost(enc),
            line,
        ) {
            encoding = Some(owned(line));
            start = idx + 1;
        } else if !starts_with(line, header_prefix) && header_prefix.unicode_len() > 0 {
            stopped = true;
        } else if header_prefix.unicode_len() == 0 && starts_with(trim_str(line).as_str(), "<!--") {
            in_html_div = true;
        } else if in_html_div && ended && contains_str(line, "-->") {
            stopped = true;
        } else if in_html_div && !started && is_blank(line) {
        } else {
            let u = uncomment_line(line, header_prefix, header_suffix);
            if pattern_hit(&fence_re, Ghost(header_fence_pattern()), u.as_str()) {
                if !started {
                    started = true;
                } else if in_html_div {
                    ended = true;
                } else {
                    ended = true;
                    stopped = true;
                }
            } else if !started && !is_blank(u.as_str()) {
                stopped = true;
            } else {
                if pattern_hit(&jupyter_re, Ghost(jupyter_pattern()), u.as_str()) {
                    in_jupyter = true;
                } else if u.unicode_len() > 0 && !pattern_hit(&left_re, Ghost(left_space_pattern()), u.as_str()) {
                    in_jupyter = false;
                }
                if in_jupyter {
                    jupyter_lines.push(u);
                } else {
                    header_lines.push(u);
                }
            }
        }
        idx += 1;
        proof {
            if stopped {
                lemma_scan_stays(ls, idx as int, enc, header_prefix@, header_suffix@);
            }
        }
    }
    proof {
        if !stopped {
            assert(idx == lines@.len());
        }
    }
    if !ended {
        return HeaderParseResult {
            executable,
            encoding,
            jupyter_yaml: None,
            root_level_yaml: None,
            has_jupyter_md: false,
            header_cell: None,
            next_line: start,
        };
    }
    let jupyter_yaml = if jupyter_lines.len() > 0 {
        Some(join_strings(&jupyter_lines, "\n"))
    } else {
        None
    };
    let mut lines_to_next_cell: usize = 1;
    if i + 1 < lines.len() {
        let next_line = uncomment_line(lines[i + 1].as_str(), header_prefix, "");
        proof {
            reveal_strlit("");
            assert(""@ =~= Seq::<char>::empty());
        }
        assert(lines@[i + 1]@ == ls[i + 1]);
        if !pattern_hit(&blank_re, Ghost(header_blank_pattern()), next_line.as_str()) {
            lines_to_next_cell = 0;
        } else {
            i += 1;
        }
    } else {
        lines_to_next_cell = 0;
    }
    let body = join_strings(&header_lines, "\n");
    let has_header = header_lines.len() > 0;
    let header_cell = if has_header && root_level_metadata_as_raw_cell {
        let source = concat3("---\n", body.as_str(), "\n---");
        let mut prev: Vec<String> = Vec::new();
        prev.push(owned("---"));
        let mut rest: Vec<String> = Vec::new();
        let mut k: usize = i + 1;
        assert(ls.subrange(k as int, k as int) =~= Seq::<Seq<char>>::empty());
        while k < lines.len()
            invariant
                i + 1 <= k <= lines@.len(),
                ls == views(lines@),
                views(rest@) == ls.subrange(i + 1, k as int),
            decreases lines.len() - k,
        {
            rest.push(lines[k].clone());
            assert(ls.subrange(i + 1, k + 1) =~= ls.subrange(i + 1, k as int).push(ls[k as int]));
            k += 1;
        }
        assert(views(prev@) =~= seq!["---"@]);
        let expected = pep8_lines_between_cells(&prev, &rest, ext);
        Some(HeaderCell {
            cell_type: CellType::Raw,
            source,
            lines_to_next_cell: if lines_to_next_cell != expected {
                Some(lines_to_next_cell)
            } else {
                None
            },
        })
    } else {
        None
    };
    let root_level_yaml = if has_header && !root_level_metadata_as_raw_cell {
        Some(body)
    } else {
        None
    };
    HeaderParseResult {
        executable,
        encoding,
        jupyter_yaml,
        root_level_yaml,
        has_jupyter_md: jupyter_lines.len() > 0,
        header_cell,
        next_line: i + 1,
    }
}

proof fn lemma_scan_stays(lines: Seq<Seq<char>>, n: int, enc: Seq<char>, prefix: Seq<char>, suffix: Seq<char>)
    requires
        0 <= n <= lines.len(),
        header_scan(lines, n, enc, prefix, suffix).stopped,
    ensures
        header_scan(lines, lines.len() as int, enc, prefix, suffix) == header_scan(lines, n, enc, prefix, suffix),
    decreases lines.len() - n,
{
    if n < lines.len() {
        lemma_scan_stays(lines, n + 1, enc, prefix, suffix);
    }
}

} // verus!

verus! {

/// The extension as `.` and its part after its last dot.
pub open spec fn last_ext(ext: Seq<char>) -> Seq<char> {
    "."@ + split_on(ext, '.').last()
}

/// The comment prefix and suffix of the header of a text notebook with extension `ext`
/// (as `last_ext` gives it): none for markdown documents, else those of the script
/// language, else `#`.
pub open spec fn header_comment(ext: Seq<char>) -> (Seq<char>, Seq<char>) {
    if ext == ".md"@ || ext == ".markdown"@ || ext == ".Rmd"@ {
        (Seq::empty(), Seq::empty())
    } else {
        match script_entry(ext) {
            Some(e) => (e.1, e.2),
            None => ("#"@, Seq::empty()),
        }
    }
}

/// The header of a text notebook with extension `ext` (of which only the part after the
/// last dot counts): read with the comment of its language, or, with `spin`, with the
/// `#'` comment of R spin scripts; the root-level entries become a raw cell.
pub fn header_of_text(text: &str, ext: &str, spin: bool) -> (r: HeaderParseResult)
    ensures
        header_result_view(r) == header_result(
            lines_of(text@),
            if spin {
                "#'"@
            } else {
                header_comment(last_ext(ext@)).0
            },
            if spin {
                Seq::empty()
            } else {
                header_comment(last_ext(ext@)).1
            },
            last_ext(ext@),
            true,
        ),
        r.header_cell matches Some(c) ==> c.cell_type == CellType::Raw,
{
    proof {
        reveal_strlit("");
        assert(""@ =~= Seq::<char>::empty());
    }
    let ls = lines(text);
    let pieces = split_char(ext, '.');
    let e = concat(".", pieces[pieces.len() - 1].as_str());
    let (prefix, suffix): (&str, &str) = if spin {
        ("#'", "")
    } else if str_eq(e.as_str(), ".md") || str_eq(e.as_str(), ".markdown") || str_eq(e.as_str(), ".Rmd") {
        ("", "")
    } else {
        match script_language_for_ext(e.as_str()) {
            Some(sl) => (sl.comment, sl.comment_suffix),
            None => ("#", ""),
        }
    };
    header_to_metadata_and_cell(&ls, prefix, suffix, e.as_str(), true)
}

/// The `executable` and `encoding` entries of a notebook's `jupytext` metadata: whether the
/// notebook has a `jupytext` object, and for each entry whether it is there (`Some`) and
/// its value where that is a string.
pub struct ScriptHeaderEntries {
    pub has_jupytext: bool,
    pub executable: Option<Option<String>>,
    pub encoding: Option<Option<String>>,
}

/// The string value of an entry.
pub open spec fn entry_text(e: Option<Option<String>>) -> Option<Seq<char>> {
    match e {
        Some(Some(s)) => Some(s@),
        _ => None,
    }
}

/// The first lines of a script: a shebang line for the executable and the encoding line,
/// for a script extension and a notebook with a `jupytext` object.
pub open spec fn script_header_lines(entries: ScriptHeaderEntries, ext: Seq<char>) -> Seq<Seq<char>> {
    if script_entry(ext) is Some && entries.has_jupytext {
        let first = match entry_text(entries.executable) {
            Some(x) => seq!["#!"@ + x],
            None => Seq::empty(),
        };
        first + match entry_text(entries.encoding) {
            Some(x) => seq![x],
            None => Seq::empty(),
        }
    } else {
        Seq::empty()
    }
}

/// The shebang and encoding lines of a script, which take the `executable` and `encoding`
/// entries out of the notebook's `jupytext` metadata.
pub fn encoding_and_executable(entries: &mut ScriptHeaderEntries, ext: &str) -> (r: Vec<String>)
    ensures
        views(r@) == script_header_lines(*old(entries), ext@),
        final(entries).has_jupytext == old(entries).has_jupytext,
        if script_entry(ext@) is Some && old(entries).has_jupytext {
            final(entries).executable is None && final(entries).encoding is None
        } else {
            entry_text(final(entries).executable) == entry_text(old(entries).executable)
                && entry_text(final(entries).encoding) == entry_text(old(entries).encoding)
                && (final(entries).executable is Some <==> old(entries).executable is Some)
                && (final(entries).encoding is Some <==> old(entries).encoding is Some)
        },
{
    proof {
        reveal_strlit("#!");
    }
    let mut lines: Vec<String> = Vec::new();
    if script_language_for_ext(ext).is_some() && entries.has_jupytext {
        let executable = entries.executable.take();
        if let Some(Some(x)) = executable {
            lines.push(concat("#!", x.as_str()));
        }
        let encoding = entries.encoding.take();
        if let Some(Some(x)) = encoding {
            lines.push(x);
        }
        assert(views(lines@) =~= script_header_lines(*old(entries), ext@));
    }
    lines
}

} // verus!
