//! Guessing the format of a text notebook from its extension and its lines: cell markers,
//! magic commands, folding markers and the like.

use vstd::prelude::*;
use crate::format_map::FormatMap;
use crate::format_version::{format_name_for, format_name_for_ext, FormatMetadata};
use crate::formats::{format_table, implementation_index, normalise_ext, normalised_ext, get_format_implementation};
use crate::languages::{script_entry, script_language_for_ext};
use crate::magics::{is_magic, is_magic_line};
use crate::pattern::{compile_pattern, compiled_from, escape, pattern_hit, regex_escape, regex_hit, Pattern};
use crate::string_parser::{initial_model, model_after, model_quoted, StringParser};
use crate::text::{concat, has_prefix, lines, lines_of, owned, starts_with, str_eq, views};
use crate::format_version::{opt_text, TextRepresentation};
use crate::header::{header_comment, header_of_text, header_result, header_to_metadata_and_cell, last_ext};
use crate::json::{json_parses, json_text_parses, entry_of, entry_text, entry_views, has_sub_entry, has_sub_entry_of, sub_string, sub_string_of, sub_sub_string, sub_sub_string_of};
use crate::notebook_io::{header_metadata, header_metadata_of};

verus! {

/// What the lines of a script tell about its format: the numbers of lines with
/// double-percent cell markers, with magic commands, of twenty hashes, with R spin
/// comments, with vim and VS Code folding markers, and with marimo statements.
pub struct ScriptCounts {
    pub double_percent: nat,
    pub magic: nat,
    pub twenty_hash: nat,
    pub rspin: nat,
    pub vim: nat,
    pub vscode: nat,
    pub marimo: nat,
}

/// A line of twenty or more hashes.
pub open spec fn twenty_hash_pattern() -> Seq<char> {
    r"^#( |)#{19,}\s*$"@
}

/// A marimo cell decorator.
pub open spec fn marimo_cell_pattern() -> Seq<char> {
    r"^@app\.cell.*"@
}

/// The patterns of a script whose escaped comment prefix is `e`: double-percent markers
/// alone or followed by a space, nbconvert markers, vim and VS Code folding markers.
pub open spec fn marker_patterns(e: Seq<char>) -> (Seq<char>, Seq<char>, Seq<char>, Seq<char>, Seq<char>) {
    (
        "^"@ + e + "( %%|%%)$"@,
        "^"@ + e + r"( %%|%%)\s"@,
        "^"@ + e + r"( <codecell>| In\[[0-9 ]*\]:?)"@,
        "^"@ + e + r"\s*\{\{\{"@,
        "^"@ + e + r"\s*region"@,
    )
}

/// The counts after one more line (that is not inside a string).
pub open spec fn count_line(c: ScriptCounts, line: Seq<char>, ext: Seq<char>, comment: Seq<char>, language: Seq<char>) -> ScriptCounts {
    let (dp, dps, nbc, vim, vsc) = marker_patterns(regex_escape(comment));
    let py = ext == ".py"@;
    let r = ext == ".R"@ || ext == ".r"@;
    ScriptCounts {
        double_percent: c.double_percent + if regex_hit(dp, line) || regex_hit(dps, line) || regex_hit(nbc, line) { 1nat } else { 0nat },
        magic: c.magic + if !has_prefix(line, comment) && is_magic_line(line, language, true, false) { 1nat } else { 0nat },
        twenty_hash: c.twenty_hash + if py && regex_hit(twenty_hash_pattern(), line) { 1nat } else { 0nat },
        rspin: c.rspin + if r && has_prefix(line, "#'"@) { 1nat } else { 0nat },
        vim: c.vim + if regex_hit(vim, line) { 1nat } else { 0nat },
        vscode: c.vscode + if regex_hit(vsc, line) { 1nat } else { 0nat },
        marimo: c.marimo + if py && (line == "import marimo"@ || line == "app = marimo.App()"@ || regex_hit(marimo_cell_pattern(), line)) { 1nat } else { 0nat },
    }
}

/// The parser language for a script extension.
pub open spec fn parser_language(ext: Seq<char>) -> Seq<char> {
    if ext == ".r"@ || ext == ".R"@ {
        "R"@
    } else {
        "python"@
    }
}

/// The counts over the first `n` lines, skipping the lines that end inside a string.
pub open spec fn script_counts(lines: Seq<Seq<char>>, n: int, ext: Seq<char>, comment: Seq<char>, language: Seq<char>) -> ScriptCounts
    decreases n,
{
    if n <= 0 {
        ScriptCounts { double_percent: 0, magic: 0, twenty_hash: 0, rspin: 0, vim: 0, vscode: 0, marimo: 0 }
    } else {
        let prev = script_counts(lines, n - 1, ext, comment, language);
        if model_quoted(model_after(initial_model(parser_language(ext)), lines.take(n))) {
            prev
        } else {
            count_line(prev, lines[n - 1], ext, comment, language)
        }
    }
}

/// The format that the counts point to, with the cell markers it uses, if any.
pub open spec fn script_guess(c: ScriptCounts) -> Option<(Seq<char>, Option<Seq<char>>)> {
    if c.double_percent >= 1 {
        if c.magic > 0 {
            Some(("hydrogen"@, None))
        } else {
            Some(("percent"@, None))
        }
    } else if c.marimo >= 2 {
        Some(("marimo"@, None))
    } else if c.vim > 0 {
        Some(("light"@, Some("{{{,}}}"@)))
    } else if c.vscode > 0 {
        Some(("light"@, Some("region,endregion"@)))
    } else if c.twenty_hash >= 2 {
        Some(("sphinx"@, None))
    } else if c.rspin >= 1 {
        Some(("spin"@, None))
    } else {
        None
    }
}

/// A markdown line that opens a pandoc div.
pub open spec fn has_pandoc_div(lines: Seq<Seq<char>>) -> bool {
    exists|i: int| 0 <= i < lines.len() && has_prefix(#[trigger] lines[i], ":::"@)
}

/// The format of a text notebook with extension `ext`, when its metadata declares none:
/// what its lines point to, else pandoc for markdown with a pandoc div, else the default
/// format of the extension (light when the extension has none); with the cell markers.
pub open spec fn guessed_format(text: Seq<char>, ext: Seq<char>) -> (Seq<char>, Option<Seq<char>>) {
    let ls = lines_of(text);
    let e = normalised_ext(ext);
    let from_script = match script_entry(e) {
        Some((language, comment, _)) => script_guess(script_counts(ls, ls.len() as int, e, comment, language)),
        None => None,
    };
    match from_script {
        Some(g) => g,
        None => if (e == ".md"@ || e == ".markdown"@) && has_pandoc_div(ls) {
            ("pandoc"@, None)
        } else {
            match implementation_index(e, None) {
                Some(i) => (format_table()[i].0, None),
                None => ("light"@, None),
            }
        },
    }
}

/// The patterns of a script, compiled.
struct ScriptPatterns {
    dp: Option<Pattern>,
    dps: Option<Pattern>,
    nbc: Option<Pattern>,
    vim: Option<Pattern>,
    vsc: Option<Pattern>,
    twenty: Option<Pattern>,
    marimo: Option<Pattern>,
}

spec fn patterns_for(ps: ScriptPatterns, comment: Seq<char>) -> bool {
    let (dp, dps, nbc, vim, vsc) = marker_patterns(regex_escape(comment));
    &&& compiled_from(ps.dp, dp)
    &&& compiled_from(ps.dps, dps)
    &&& compiled_from(ps.nbc, nbc)
    &&& compiled_from(ps.vim, vim)
    &&& compiled_from(ps.vsc, vsc)
    &&& compiled_from(ps.twenty, twenty_hash_pattern())
    &&& compiled_from(ps.marimo, marimo_cell_pattern())
}

fn compile_patterns(comment: &str) -> (r: ScriptPatterns)
    ensures
        patterns_for(r, comment@),
{
    let e = escape(comment);
    let dp = concat(concat("^", e.as_str()).as_str(), "( %%|%%)$");
    let dps = concat(concat("^", e.as_str()).as_str(), r"( %%|%%)\s");
    let nbc = concat(concat("^", e.as_str()).as_str(), r"( <codecell>| In\[[0-9 ]*\]:?)");
    let vim = concat(concat("^", e.as_str()).as_str(), r"\s*\{\{\{");
    let vsc = concat(concat("^", e.as_str()).as_str(), r"\s*region");
    ScriptPatterns {
        dp: compile_pattern(dp.as_str()),
        dps: compile_pattern(dps.as_str()),
        nbc: compile_pattern(nbc.as_str()),
        vim: compile_pattern(vim.as_str()),
        vsc: compile_pattern(vsc.as_str()),
        twenty: compile_pattern(r"^#( |)#{19,}\s*$"),
        marimo: compile_pattern(r"^@app\.cell.*"),
    }
}

/// The counts of a script's lines.
fn count_script_lines(
    ls: &Vec<String>,
    ext: &str,
    comment: &str,
    language: &str,
) -> (r: (usize, usize, usize, usize, usize, usize, usize))
    ensures
        ({
            let c = script_counts(views(ls@), ls@.len() as int, ext@, comment@, language@);
            r.0 == c.double_percent && r.1 == c.magic && r.2 == c.twenty_hash && r.3 == c.rspin
                && r.4 == c.vim && r.5 == c.vscode && r.6 == c.marimo
        }),
{
    let ps = compile_patterns(comment);
    let py = str_eq(ext, ".py");
    let rx = str_eq(ext, ".R") || str_eq(ext, ".r");
    let parser_lang = if rx {
        "R"
    } else {
        "python"
    };
    proof {
        reveal_strlit("R");
        reveal_strlit(".R");
        reveal_strlit(".r");
    }
    assert(parser_lang@ == parser_language(ext@));
    let mut parser = StringParser::new(parser_lang);
    let ghost v = views(ls@);
    let ghost start = initial_model(parser_language(ext@));
    let mut dp: usize = 0;
    let mut magic: usize = 0;
    let mut th: usize = 0;
    let mut rs: usize = 0;
    let mut vim: usize = 0;
    let mut vsc: usize = 0;
    let mut mar: usize = 0;
    let mut i: usize = 0;
    assert(v.take(0) =~= Seq::<Seq<char>>::empty());
    while i < ls.len()
        invariant
            i <= ls@.len(),
            v == views(ls@),
            patterns_for(ps, comment@),
            py == (ext@ == ".py"@),
            rx == (ext@ == ".R"@ || ext@ == ".r"@),
            start == initial_model(parser_language(ext@)),
            parser@ == model_after(start, v.take(i as int)),
            dp <= i && magic <= i && th <= i && rs <= i && vim <= i && vsc <= i && mar <= i,
            ({
                let c = script_counts(v, i as int, ext@, comment@, language@);
                dp == c.double_percent && magic == c.magic && th == c.twenty_hash && rs == c.rspin
                    && vim == c.vim && vsc == c.vscode && mar == c.marimo
            }),
        decreases ls.len() - i,
    {
        let line = ls[i].as_str();
        assert(line@ == v[i as int]);
        assert(v.take(i + 1).drop_last() =~= v.take(i as int));
        parser.read_line(line);
        if !parser.is_quoted() {
            let ghost (pdp, pdps, pnbc, pvim, pvsc) = marker_patterns(regex_escape(comment@));
            if pattern_hit(&ps.dp, Ghost(pdp), line) || pattern_hit(&ps.dps, Ghost(pdps), line) || pattern_hit(
                &ps.nbc,
                Ghost(pnbc),
                line,
            ) {
                dp = dp + 1;
            }
            if !starts_with(line, comment) && is_magic(line, language, true, false) {
                magic = magic + 1;
            }
            if py && pattern_hit(&ps.twenty, Ghost(twenty_hash_pattern()), line) {
                th = th + 1;
            }
            if rx && starts_with(line, "#'") {
                rs = rs + 1;
            }
            if pattern_hit(&ps.vim, Ghost(pvim), line) {
                vim = vim + 1;
            }
            if pattern_hit(&ps.vsc, Ghost(pvsc), line) {
                vsc = vsc + 1;
            }
            if py && (str_eq(line, "import marimo") || str_eq(line, "app = marimo.App()") || pattern_hit(
                &ps.marimo,
                Ghost(marimo_cell_pattern()),
                line,
            )) {
                mar = mar + 1;
            }
        }
        i += 1;
    }
    assert(v.take(v.len() as int) =~= v);
    (dp, magic, th, rs, vim, vsc, mar)
}

/// What the lines of a script point to, for a script extension.
fn script_format(e: &str, ls: &Vec<String>) -> (r: Option<(&'static str, Option<&'static str>)>)
    ensures
        ({
            let expected = match script_entry(e@) {
                Some((language, comment, _)) => script_guess(
                    script_counts(views(ls@), ls@.len() as int, e@, comment, language),
                ),
                None => None,
            };
            match r {
                Some((n, m)) => expected == Some(
                    (
                        n@,
                        match m {
                            Some(x) => Some(x@),
                            None => None,
                        },
                    ),
                ),
                None => expected is None,
            }
        }),
{
    match script_language_for_ext(e) {
        Some(sl) => {
            let (dp, magic, th, rs, vim, vsc, mar) = count_script_lines(
                ls,
                e,
                sl.comment,
                sl.language,
            );
            if dp >= 1 {
                if magic > 0 {
                    Some(("hydrogen", None))
                } else {
                    Some(("percent", None))
                }
            } else if mar >= 2 {
                Some(("marimo", None))
            } else if vim > 0 {
                Some(("light", Some("{{{,}}}")))
            } else if vsc > 0 {
                Some(("light", Some("region,endregion")))
            } else if th >= 2 {
                Some(("sphinx", None))
            } else if rs >= 1 {
                Some(("spin", None))
            } else {
                None
            }
        },
        None => None,
    }
}

fn pandoc_div(ls: &Vec<String>) -> (r: bool)
    ensures
        r == has_pandoc_div(views(ls@)),
{
    let ghost v = views(ls@);
    let mut i: usize = 0;
    while i < ls.len()
        invariant
            i <= ls@.len(),
            v == views(ls@),
            forall|j: int| 0 <= j < i ==> !has_prefix(#[trigger] v[j], ":::"@),
        decreases ls.len() - i,
    {
        if starts_with(ls[i].as_str(), ":::") {
            assert(has_prefix(v[i as int], ":::"@));
            return true;
        }
        i += 1;
    }
    false
}

/// The declared format name, if any, with no options; otherwise the format guessed from
/// the extension and the lines of the text, with the cell markers it uses.
fn declared_or_guessed(text: &str, ext: &str, declared_format: Option<&str>) -> (r: (String, FormatMap))
    ensures
        match declared_format {
            Some(n) => r.0@ == n@ && r.1@ == Map::<Seq<char>, Seq<char>>::empty(),
            None => {
                let (name, markers) = guessed_format(text@, ext@);
                &&& r.0@ == name
                &&& r.1@ == match markers {
                    Some(m) => Map::<Seq<char>, Seq<char>>::empty().insert("cell_markers"@, m),
                    None => Map::<Seq<char>, Seq<char>>::empty(),
                }
            },
        },
{
    if let Some(n) = declared_format {
        return (owned(n), FormatMap::new());
    }
    let ls = lines(text);
    let e = normalise_ext(ext);
    match script_format(e.as_str(), &ls) {
        Some((name, markers)) => {
            let mut opts = FormatMap::new();
            match markers {
                Some(m) => opts.insert(owned("cell_markers"), owned(m)),
                None => {},
            }
            return (owned(name), opts);
        },
        None => {},
    }
    if (str_eq(e.as_str(), ".md") || str_eq(e.as_str(), ".markdown")) && pandoc_div(&ls) {
        return (owned("pandoc"), FormatMap::new());
    }
    proof {
        crate::formats::normalised_ext_idempotent(ext@);
    }
    match get_format_implementation(e.as_str(), None) {
        Ok(d) => (owned(d.format_name), FormatMap::new()),
        Err(_) => (owned("light"), FormatMap::new()),
    }
}

/// The format name that a notebook's metadata declares for the extension `ext`: present
/// only when the metadata has a text representation.
pub open spec fn declared_format_name(meta: FormatMetadata, ext: Seq<char>) -> Option<Seq<char>> {
    if meta.text_representation is Some {
        format_name_for(meta, ext, None, true)
    } else {
        None
    }
}

/// The format of a text notebook from its extension and content: the format that its
/// metadata (`meta`) declares, when it declares one; otherwise the format guessed from the
/// extension and the lines of the text.
pub fn guess_format_of(text: &str, ext: &str, meta: &FormatMetadata) -> (r: (String, FormatMap))
    ensures
        match declared_format_name(*meta, ext@) {
            Some(n) => r.0@ == n && r.1@ == Map::<Seq<char>, Seq<char>>::empty(),
            None => {
                let (name, markers) = guessed_format(text@, ext@);
                &&& r.0@ == name
                &&& r.1@ == match markers {
                    Some(m) => Map::<Seq<char>, Seq<char>>::empty().insert("cell_markers"@, m),
                    None => Map::<Seq<char>, Seq<char>>::empty(),
                }
            },
        },
{
    let declared = if meta.text_representation.is_some() {
        format_name_for_ext(meta, ext, None, true)
    } else {
        None
    };
    match &declared {
        Some(n) => declared_or_guessed(text, ext, Some(n.as_str())),
        None => declared_or_guessed(text, ext, None),
    }
}


/// The metadata in the header of a text notebook with extension `ext` (of which only the
/// part after the last dot counts); an R script without such metadata is read again with
/// the `#'` comment of R spin scripts.
pub open spec fn text_metadata(text: Seq<char>, ext: Seq<char>) -> Seq<(Seq<char>, Seq<char>)> {
    let e = last_ext(ext);
    let c = header_comment(e);
    let m = header_metadata(header_result(lines_of(text), c.0, c.1, e, true));
    if (e == ".r"@ || e == ".R"@) && m.len() == 0 {
        let m2 = header_metadata(header_result(lines_of(text), "#'"@, Seq::empty(), e, true));
        if m2.len() > 0 {
            m2
        } else {
            m
        }
    } else {
        m
    }
}

/// The notebook metadata in the header of a text notebook (see `text_metadata`), each value
/// as its JSON text.
pub fn read_metadata(text: &str, ext: &str) -> (r: Vec<(String, String)>)
    ensures
        entry_views(r@) == text_metadata(text@, ext@),
{
    proof {
        reveal_strlit(".r");
        reveal_strlit(".R");
        reveal_strlit("#'");
        reveal_strlit("");
    }
    let h = header_of_text(text, ext, false);
    let m = header_metadata_of(&h);
    let e = last_ext_of(ext);
    if (str_eq(e.as_str(), ".r") || str_eq(e.as_str(), ".R")) && m.len() == 0 {
        let h2 = header_of_text(text, ext, true);
        let m2 = header_metadata_of(&h2);
        if m2.len() > 0 {
            return m2;
        }
    }
    m
}

/// The extension as `.` and its part after its last dot.
fn last_ext_of(ext: &str) -> (r: String)
    ensures
        r@ == last_ext(ext@),
{
    let pieces = crate::text::split_char(ext, '.');
    concat(".", pieces[pieces.len() - 1].as_str())
}

/// What the format functions read of notebook metadata: whether it has a `jupytext` entry;
/// whether that holds a `text_representation`, and then the strings of its extension,
/// format name and versions; and the `formats` string of the `jupytext` entry.
pub open spec fn format_metadata_matches(meta: FormatMetadata, m: Seq<(Seq<char>, Seq<char>)>) -> bool {
    let j = "jupytext"@;
    let t = "text_representation"@;
    &&& meta.has_metadata == (entry_of(m, j) is Some)
    &&& (meta.text_representation is Some) == has_sub_entry(m, j, t)
    &&& (meta.text_representation matches Some(tr) ==> {
        &&& opt_text(tr.extension) == sub_sub_string(m, j, t, "extension"@)
        &&& opt_text(tr.format_name) == sub_sub_string(m, j, t, "format_name"@)
        &&& opt_text(tr.format_version) == sub_sub_string(m, j, t, "format_version"@)
        &&& opt_text(tr.jupytext_version) == sub_sub_string(m, j, t, "jupytext_version"@)
    })
    &&& opt_text(meta.formats) == sub_string(m, j, "formats"@)
}

/// What the format functions read of notebook metadata (see `format_metadata_matches`).
pub fn format_metadata_of(m: &Vec<(String, String)>) -> (r: FormatMetadata)
    ensures
        format_metadata_matches(r, entry_views(m@)),
{
    let has_metadata = entry_text(m, "jupytext").is_some();
    let text_representation = if has_sub_entry_of(m, "jupytext", "text_representation") {
        Some(TextRepresentation {
            extension: sub_sub_string_of(m, "jupytext", "text_representation", "extension"),
            format_name: sub_sub_string_of(m, "jupytext", "text_representation", "format_name"),
            format_version: sub_sub_string_of(m, "jupytext", "text_representation", "format_version"),
            jupytext_version: sub_sub_string_of(m, "jupytext", "text_representation", "jupytext_version"),
        })
    } else {
        None
    };
    FormatMetadata { has_metadata, text_representation, formats: sub_string_of(m, "jupytext", "formats") }
}

/// The format and options that `guess_format_of` gives for metadata `meta`.
pub open spec fn guessed_with(meta: FormatMetadata, text: Seq<char>, ext: Seq<char>) -> (Seq<char>, Map<Seq<char>, Seq<char>>) {
    match declared_format_name(meta, ext) {
        Some(n) => (n, Map::empty()),
        None => {
            let (name, markers) = guessed_format(text, ext);
            (
                name,
                match markers {
                    Some(m) => Map::<Seq<char>, Seq<char>>::empty().insert("cell_markers"@, m),
                    None => Map::<Seq<char>, Seq<char>>::empty(),
                },
            )
        },
    }
}

/// Two readings of the same metadata declare the same format: what `format_metadata_matches`
/// pins down is all that the declared format depends on.
pub proof fn same_metadata_same_declared_format(a: FormatMetadata, b: FormatMetadata, m: Seq<(Seq<char>, Seq<char>)>, text: Seq<char>, ext: Seq<char>)
    requires
        format_metadata_matches(a, m),
        format_metadata_matches(b, m),
    ensures
        guessed_with(a, text, ext) == guessed_with(b, text, ext),
{
    assert(declared_format_name(a, ext) == declared_format_name(b, ext));
}

/// The format of a text notebook, with its options (the cell markers it uses): the format
/// that the metadata of its header declares, if any; otherwise the format guessed from the
/// extension and the lines of the text.
pub fn guess_format(text: &str, ext: &str) -> (r: (String, FormatMap))
    ensures
        exists|meta: FormatMetadata|
            format_metadata_matches(meta, text_metadata(text@, ext@)) && (r.0@, r.1@) == #[trigger] guessed_with(
                meta,
                text@,
                ext@,
            ),
{
    let m = read_metadata(text, ext);
    let meta = format_metadata_of(&m);
    let r = guess_format_of(text, ext, &meta);
    assert((r.0@, r.1@) == guessed_with(meta, text@, ext@));
    r
}


/// The comment prefixes under which the header of a text may declare its format: none,
/// `#`, then the other comments of the script languages, each once, in the order of the
/// registry.
pub open spec fn header_prefixes() -> Seq<Seq<char>> {
    seq![""@, "#"@, "//"@, ";;"@, "/"@, "%"@, "(*"@, ";"@, "--"@, "/*"@]
}

/// The header prefixes (see `header_prefixes`).
fn header_prefix_list() -> (r: Vec<&'static str>)
    ensures
        r@.len() == header_prefixes().len(),
        forall|i: int| 0 <= i < r@.len() ==> r@[i]@ == #[trigger] header_prefixes()[i],
{
    let v: Vec<&'static str> = vec!["", "#", "//", ";;", "/", "%", "(*", ";", "--", "/*"];
    proof {
        reveal_strlit("");
        reveal_strlit("#");
        reveal_strlit("//");
        reveal_strlit(";;");
        reveal_strlit("/");
        reveal_strlit("%");
        reveal_strlit("(*");
        reveal_strlit(";");
        reveal_strlit("--");
        reveal_strlit("/*");
    }
    v
}

/// The extension that the text representation in a header read with the comment `prefix`
/// declares.
pub open spec fn declared_extension(text: Seq<char>, prefix: Seq<char>) -> Option<Seq<char>> {
    sub_sub_string(
        header_metadata(header_result(lines_of(text), prefix, Seq::empty(), Seq::empty(), true)),
        "jupytext"@,
        "text_representation"@,
        "extension"@,
    )
}

/// The extension declared under the first of the prefixes from the `i`-th on that declares
/// one.
pub open spec fn first_declared(text: Seq<char>, ps: Seq<Seq<char>>, i: int) -> Option<Seq<char>>
    decreases ps.len() - i,
{
    if i < 0 || i >= ps.len() {
        None
    } else {
        match declared_extension(text, ps[i]) {
            Some(e) => Some(e),
            None => first_declared(text, ps, i + 1),
        }
    }
}

/// An extension whose first character is a single byte, so that what follows it can be
/// cut off.
pub open spec fn cuttable(e: Seq<char>) -> bool {
    e.len() > 0 && (e[0] as u32) < 128
}

/// `r` is what divining the format of `text` gives: `ipynb` for JSON; for a header that
/// declares an extension, that extension (without its first character), `:` and the
/// format that `guess_format` gives for it; `md` for a text with a line of three
/// backquotes; else `py:` and the format that `guess_format` gives for a Python script.
pub open spec fn divined(text: Seq<char>, r: Seq<char>) -> bool {
    if json_text_parses(text) {
        r == "ipynb"@
    } else {
        match first_declared(text, header_prefixes(), 0) {
            Some(e) => exists|meta: FormatMetadata|
                format_metadata_matches(meta, text_metadata(text, e)) && r == e.drop_first() + ":"@ + (
                #[trigger] guessed_with(meta, text, e)).0,
            None => if lines_of(text).contains("```"@) {
                r == "md"@
            } else {
                exists|meta: FormatMetadata|
                    format_metadata_matches(meta, text_metadata(text, ".py"@)) && r == "py:"@ + (
                    #[trigger] guessed_with(meta, text, ".py"@)).0
            },
        }
    }
}

/// The extension that the first header prefix declaring one declares (see
/// `first_declared`).
fn first_declared_of(text: &str) -> (r: Option<String>)
    ensures
        match r {
            Some(e) => first_declared(text@, header_prefixes(), 0) == Some(e@),
            None => first_declared(text@, header_prefixes(), 0) is None,
        },
{
    proof {
        reveal_strlit("jupytext");
        reveal_strlit("text_representation");
        reveal_strlit("extension");
        reveal_strlit("");
    }
    let ps = header_prefix_list();
    let ls = lines(text);
    let mut i: usize = 0;
    while i < ps.len()
        invariant
            i <= ps@.len(),
            ps@.len() == header_prefixes().len(),
            forall|j: int| 0 <= j < ps@.len() ==> ps@[j]@ == #[trigger] header_prefixes()[j],
            views(ls@) == lines_of(text@),
            first_declared(text@, header_prefixes(), 0) == first_declared(text@, header_prefixes(), i as int),
        decreases ps.len() - i,
    {
        let h = header_to_metadata_and_cell(ls.as_slice(), ps[i], "", "", true);
        let m = header_metadata_of(&h);
        assert(ps@[i as int]@ == header_prefixes()[i as int]);
        proof {
            reveal_strlit("");
            reveal_strlit("jupytext");
            reveal_strlit("text_representation");
            reveal_strlit("extension");
        }
        assert(""@ =~= Seq::<char>::empty());
        assert(entry_views(m@) == header_metadata(header_result(lines_of(text@), header_prefixes()[i as int], Seq::empty(), Seq::empty(), true)));
        match sub_sub_string_of(&m, "jupytext", "text_representation", "extension") {
            Some(e) => {
                return Some(e);
            },
            None => {},
        }
        i += 1;
    }
    None
}

/// A line of the text is three backquotes.
fn has_fence_line(text: &str) -> (r: bool)
    ensures
        r == lines_of(text@).contains("```"@),
{
    proof {
        reveal_strlit("```");
    }
    let ls = lines(text);
    let mut i: usize = 0;
    while i < ls.len()
        invariant
            i <= ls@.len(),
            views(ls@) == lines_of(text@),
            forall|j: int| 0 <= j < i ==> views(ls@)[j] != "```"@,
        decreases ls.len() - i,
    {
        if str_eq(ls[i].as_str(), "```") {
            assert(views(ls@)[i as int] == "```"@);
            return true;
        }
        i += 1;
    }
    false
}

/// The text after the first character of `e`, which is a single byte.
fn after_first(e: &str) -> (r: String)
    requires
        cuttable(e@),
    ensures
        r@ == e@.drop_first(),
{
    let cs = crate::text::chars_of(e);
    crate::text::string_of(cs.as_slice(), 1, cs.len())
}

/// The format of a text, from its content alone (see `divined`).
pub fn divine_format(text: &str) -> (r: String)
    requires
        !json_text_parses(text@) ==> (first_declared(text@, header_prefixes(), 0) matches Some(e) ==> cuttable(e)),
    ensures
        divined(text@, r@),
{
    proof {
        reveal_strlit("ipynb");
        reveal_strlit("md");
        reveal_strlit(":");
        reveal_strlit("py:");
        reveal_strlit(".py");
    }
    if json_parses(text) {
        return owned("ipynb");
    }
    match first_declared_of(text) {
        Some(e) => {
            let (name, _) = guess_format(text, e.as_str());
            let head = after_first(e.as_str());
            let r = crate::text::concat3(head.as_str(), ":", name.as_str());
            r
        },
        None => {
            if has_fence_line(text) {
                return owned("md");
            }
            let (name, _) = guess_format(text, ".py");
            concat("py:", name.as_str())
        },
    }
}

/// The format of a text (see `divine_format`), or none when the header declares an
/// extension that is empty or starts with a character of more than one byte.
pub fn divine_format_checked(text: &str) -> (r: Option<String>)
    ensures
        match r {
            Some(s) => divined(text@, s@),
            None => !json_text_parses(text@) && (first_declared(text@, header_prefixes(), 0) matches Some(e) && !cuttable(e)),
        },
{
    if !json_parses(text) {
        match first_declared_of(text) {
            Some(e) => {
                let cs = crate::text::chars_of(e.as_str());
                if cs.len() == 0 || (cs[0] as u32) >= 128 {
                    return None;
                }
            },
            None => {},
        }
    }
    Some(divine_format(text))
}


/// The cell marker that `jupyter nbconvert` writes in a script whose comment is
/// `comment`: the comment then ` <codecell>`, or ` In[n]:`.
pub open spec fn nbconvert_marker(comment: Seq<char>) -> Seq<char> {
    "^"@ + regex_escape(comment) + r"( <codecell>| In\[[0-9 ]*\]:?)"@
}

/// The counts of the first `n` lines: no uncommented magic among them, and a double-percent
/// marker once the `k`-th line, an nbconvert marker outside strings, is among them.
proof fn lemma_nbconvert_counts(ls: Seq<Seq<char>>, n: int, e: Seq<char>, comment: Seq<char>, language: Seq<char>, k: int)
    requires
        0 <= n <= ls.len(),
        0 <= k < ls.len(),
        !model_quoted(model_after(initial_model(parser_language(e)), ls.take(k + 1))),
        regex_hit(nbconvert_marker(comment), ls[k]),
        forall|j: int| 0 <= j < ls.len() ==> !(!has_prefix(#[trigger] ls[j], comment) && is_magic_line(ls[j], language, true, false)),
    ensures
        script_counts(ls, n, e, comment, language).magic == 0,
        k < n ==> script_counts(ls, n, e, comment, language).double_percent >= 1,
    decreases n,
{
    if n > 0 {
        lemma_nbconvert_counts(ls, n - 1, e, comment, language, k);
        let (dp, dps, nbc, vim, vsc) = marker_patterns(regex_escape(comment));
        assert(nbc == nbconvert_marker(comment));
        assert(!(!has_prefix(ls[n - 1], comment) && is_magic_line(ls[n - 1], language, true, false)));
    }
}

/// A script whose cells are marked the way `jupyter nbconvert` marks them (`# In[1]:` or
/// `# <codecell>` in Python), outside strings, and that has no uncommented magic, is a
/// percent script.
pub proof fn nbconvert_markers_mean_percent(
    text: Seq<char>,
    ext: Seq<char>,
    language: Seq<char>,
    comment: Seq<char>,
    suffix: Seq<char>,
    k: int,
)
    requires
        script_entry(normalised_ext(ext)) == Some((language, comment, suffix)),
        0 <= k < lines_of(text).len(),
        !model_quoted(model_after(initial_model(parser_language(normalised_ext(ext))), lines_of(text).take(k + 1))),
        regex_hit(nbconvert_marker(comment), lines_of(text)[k]),
        forall|j: int|
            0 <= j < lines_of(text).len() ==> !(!has_prefix(#[trigger] lines_of(text)[j], comment) && is_magic_line(
                lines_of(text)[j],
                language,
                true,
                false,
            )),
    ensures
        guessed_format(text, ext).0 == "percent"@,
{
    let ls = lines_of(text);
    lemma_nbconvert_counts(ls, ls.len() as int, normalised_ext(ext), comment, language, k);
}

} // verus!
