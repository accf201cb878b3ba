//! Jupyter magic command handling: magics are commented out in text notebooks
//! and uncommented when reading them back.

use vstd::prelude::*;
use crate::languages::{
    comment_for_lang, comment_for_language, script_entry, script_language_for_ext, usual_language_name,
    usual_name,
};
use crate::pattern::{escape, regex_hit, matches_str, regex_compiles, regex_escape, regex_matches, Pattern};
use crate::string_parser::{initial_model, model_quoted, next_model, ParserModel, StringParser};
use crate::text::{
    chars_of, concat, concat3, has_prefix, owned, starts_with, str_eq, string_of, trim_start,
    trim_start_str, views,
};

verus! {

broadcast use crate::text::views_push;

/// `^\s*(c |c)*(%|%%|%%%)[a-zA-Z]` for the escaped comment `e`.
pub open spec fn magic_pattern_for(e: Seq<char>) -> Seq<char> {
    r"^\s*("@ + e + r" |"@ + e + r")*(%|%%|%%%)[a-zA-Z]"@
}

/// `^\s*(c |c)*(%|%%|%%%)[a-zA-Z](.*)c\s*escape` for the escaped comment `e`.
pub open spec fn force_escape_pattern_for(e: Seq<char>) -> Seq<char> {
    r"^\s*("@ + e + r" |"@ + e + r")*(%|%%|%%%)[a-zA-Z](.*)"@ + e + r"\s*escape"@
}

/// `^\s*(c |c)*(%|%%|%%%)[a-zA-Z](.*)c\s*noescape` for the escaped comment `e`.
pub open spec fn no_escape_pattern_for(e: Seq<char>) -> Seq<char> {
    r"^\s*("@ + e + r" |"@ + e + r")*(%|%%|%%%)[a-zA-Z](.*)"@ + e + r"\s*noescape"@
}

/// The magic pattern of a language, when there is one and it compiles.
pub open spec fn magic_pattern(lang: Seq<char>) -> Option<Seq<char>> {
    let p = if lang == "rust"@ {
        Some(r"^(// |//)*:[a-zA-Z]"@)
    } else if lang == "csharp"@ {
        Some(r"^(// |//)*#![a-zA-Z]"@)
    } else if lang == "go"@ {
        Some(r"^(// |//)*(!|!\*|%|%%|%%%)[a-zA-Z]"@)
    } else {
        match comment_for_lang(lang) {
            Some(c) => Some(magic_pattern_for(regex_escape(c))),
            None => None,
        }
    };
    match p {
        Some(q) => if regex_compiles(q) {
            Some(q)
        } else {
            None
        },
        None => None,
    }
}

/// The line asks to be escaped with a trailing `escape` comment.
pub open spec fn force_escape(lang: Seq<char>, line: Seq<char>) -> bool {
    match comment_for_lang(lang) {
        Some(c) => regex_hit(force_escape_pattern_for(regex_escape(c)), line),
        None => false,
    }
}

/// The line asks not to be escaped with a trailing `noescape` comment.
pub open spec fn no_escape(lang: Seq<char>, line: Seq<char>) -> bool {
    match comment_for_lang(lang) {
        Some(c) => regex_hit(no_escape_pattern_for(regex_escape(c)), line),
        None => false,
    }
}

/// Help commands (`?x`) and shell commands (`!ls`) in Python.
pub open spec fn python_help_or_bash_pattern() -> Seq<char> {
    r"^\s*(# |#)*\s*(\?|!)\s*[A-Za-z\.\~\$\\/\{\}]"@
}

/// Shell commands that IPython runs without a `!`.
pub open spec fn python_magic_cmd_pattern() -> Seq<char> {
    r"^(# |#)*(cat|cd|cp|mv|rm|rmdir|mkdir|copy|ddir|echo|ls|ldir|mkdir|ren|rmdir)(|\s|$|\s[^=,])"@
}

/// IPython help on an object (`x?`).
pub open spec fn ipython_magic_help_pattern() -> Seq<char> {
    r"^\s*(# )*[^\s]*\?\s*$"@
}

/// Assignment of a magic's result (`x = %time f()`).
pub open spec fn python_magic_assign_pattern() -> Seq<char> {
    r"^(# |#)*\s*([a-zA-Z_][a-zA-Z_$0-9]*)\s*=\s*(%|%%|%%%|!)[a-zA-Z](.*)"@
}

/// A line that ends with a backslash: the magic continues on the next line.
pub open spec fn line_continuation_pattern() -> Seq<char> {
    r".*\\\s*$"@
}

/// Is the line a (possibly escaped) Jupyter magic that should be commented?
pub open spec fn is_magic_line(line: Seq<char>, language: Seq<char>, global_escape_flag: bool, explicitly_code: bool) -> bool {
    let lang = usual_name(language);
    if lang == "octave"@ || lang == "matlab"@ || lang == "SAS"@ || lang == "logtalk"@ {
        false
    } else if force_escape(lang, line) {
        true
    } else if !global_escape_flag {
        false
    } else if no_escape(lang, line) {
        false
    } else {
        match magic_pattern(lang) {
            None => false,
            Some(p) => if regex_matches(p, line) {
                true
            } else if lang != "python"@ {
                false
            } else {
                regex_hit(python_help_or_bash_pattern(), line) || regex_hit(python_magic_assign_pattern(), line)
                    || (explicitly_code && regex_hit(ipython_magic_help_pattern(), line))
                    || regex_hit(python_magic_cmd_pattern(), line)
            },
        }
    }
}

fn comment_group_pattern(start: &str, e: &str, end: &str) -> (r: String)
    ensures
        r@ == start@ + e@ + r" |"@ + e@ + end@,
{
    let a = concat3(start, e, r" |");
    concat3(a.as_str(), e, end)
}

fn force_escape_exec(lang: &str, line: &str, no: bool) -> (r: bool)
    ensures
        r == (if no { no_escape(lang@, line@) } else { force_escape(lang@, line@) }),
{
    match comment_for_language(lang) {
        Some(c) => {
            let e = escape(c);
            let head = comment_group_pattern(r"^\s*(", e.as_str(), r")*(%|%%|%%%)[a-zA-Z](.*)");
            let tail = if no { r"\s*noescape" } else { r"\s*escape" };
            let p = concat3(head.as_str(), e.as_str(), tail);
            matches_str(p.as_str(), line)
        },
        None => false,
    }
}

fn magic_pattern_exec(lang: &str) -> (r: Option<Pattern>)
    ensures
        match r {
            Some(p) => magic_pattern(lang@) == Some(p.source()),
            None => magic_pattern(lang@) is None,
        },
{
    let text: Option<String> = if str_eq(lang, "rust") {
        Some(owned(r"^(// |//)*:[a-zA-Z]"))
    } else if str_eq(lang, "csharp") {
        Some(owned(r"^(// |//)*#![a-zA-Z]"))
    } else if str_eq(lang, "go") {
        Some(owned(r"^(// |//)*(!|!\*|%|%%|%%%)[a-zA-Z]"))
    } else {
        match comment_for_language(lang) {
            Some(c) => {
                let e = escape(c);
                Some(comment_group_pattern(r"^\s*(", e.as_str(), r")*(%|%%|%%%)[a-zA-Z]"))
            },
            None => None,
        }
    };
    match text {
        Some(t) => Pattern::new(t.as_str()),
        None => None,
    }
}

/// Is the line a (possibly escaped) Jupyter magic that should be commented?
pub fn is_magic(line: &str, language: &str, global_escape_flag: bool, explicitly_code: bool) -> (r:
    bool)
    ensures
        r == is_magic_line(line@, language@, global_escape_flag, explicitly_code),
{
    let lang_s = usual_language_name(language);
    let lang = lang_s.as_str();
    if str_eq(lang, "octave") || str_eq(lang, "matlab") || str_eq(lang, "SAS") || str_eq(
        lang,
        "logtalk",
    ) {
        return false;
    }
    if force_escape_exec(lang, line, false) {
        return true;
    }
    if !global_escape_flag {
        return false;
    }
    if force_escape_exec(lang, line, true) {
        return false;
    }
    match magic_pattern_exec(lang) {
        Some(p) => {
            if p.is_match(line) {
                return true;
            }
        },
        None => {
            return false;
        },
    }
    if !str_eq(lang, "python") {
        return false;
    }
    if matches_str(r"^\s*(# |#)*\s*(\?|!)\s*[A-Za-z\.\~\$\\/\{\}]", line) {
        return true;
    }
    if matches_str(r"^(# |#)*\s*([a-zA-Z_][a-zA-Z_$0-9]*)\s*=\s*(%|%%|%%%|!)[a-zA-Z](.*)", line) {
        return true;
    }
    if explicitly_code && matches_str(r"^\s*(# )*[^\s]*\?\s*$", line) {
        return true;
    }
    matches_str(
        r"^(# |#)*(cat|cd|cp|mv|rm|rmdir|mkdir|copy|ddir|echo|ls|ldir|mkdir|ren|rmdir)(|\s|$|\s[^=,])",
        line,
    )
}


/// The comment prefix of a language, `#` by default.
pub open spec fn comment_or_hash(lang: Seq<char>) -> Seq<char> {
    match comment_for_lang(lang) {
        Some(c) => c,
        None => "#"@,
    }
}

/// The leading whitespace of a line.
pub open spec fn indent_of(line: Seq<char>) -> Seq<char> {
    line.subrange(0, line.len() - trim_start(line).len())
}

/// A line with its comment prefix removed, after its indentation.
pub open spec fn unescaped_line(line: Seq<char>, language: Seq<char>) -> Seq<char> {
    let c = comment_or_hash(usual_name(language));
    let t = trim_start(line);
    if has_prefix(t, c + " "@) {
        indent_of(line) + t.subrange(c.len() + 1int, t.len() as int)
    } else if has_prefix(t, c) {
        indent_of(line) + t.subrange(c.len() as int, t.len() as int)
    } else {
        line
    }
}

/// A line with the comment prefix inserted after its indentation.
pub open spec fn escaped_line(line: Seq<char>, language: Seq<char>, keep_indent: bool) -> Seq<char> {
    let c = comment_or_hash(usual_name(language));
    if keep_indent {
        indent_of(line) + c + " "@ + trim_start(line)
    } else {
        c + " "@ + line
    }
}

/// One step of commenting (or uncommenting) magics: the new line and whether the next
/// line continues the magic.
pub open spec fn magic_step(
    line: Seq<char>,
    language: Seq<char>,
    global_escape_flag: bool,
    explicitly_code: bool,
    m: ParserModel,
    next_is_magic: bool,
    comment: bool,
) -> (Seq<char>, bool) {
    if !model_quoted(m) && (next_is_magic || is_magic_line(line, language, global_escape_flag, explicitly_code)) {
        (
            if comment {
                escaped_line(line, language, !next_is_magic)
            } else {
                unescaped_line(line, language)
            },
            language == "python"@ && regex_hit(line_continuation_pattern(), line),
        )
    } else {
        (line, next_is_magic)
    }
}

/// The first `n` lines after commenting (or uncommenting) magics, with the parser state
/// and the continuation flag after them.
pub open spec fn magic_run(
    lines: Seq<Seq<char>>,
    n: int,
    language: Seq<char>,
    global_escape_flag: bool,
    explicitly_code: bool,
    comment: bool,
) -> (Seq<Seq<char>>, ParserModel, bool)
    decreases n,
{
    if n <= 0 {
        (Seq::empty(), initial_model(language), false)
    } else {
        let prev = magic_run(lines, n - 1, language, global_escape_flag, explicitly_code, comment);
        let step = magic_step(lines[n - 1], language, global_escape_flag, explicitly_code, prev.1, prev.2, comment);
        (prev.0.push(step.0), next_model(prev.1, lines[n - 1]), step.1)
    }
}

/// All the lines after commenting (or uncommenting) magics.
pub open spec fn magics_toggled(
    lines: Seq<Seq<char>>,
    language: Seq<char>,
    global_escape_flag: bool,
    explicitly_code: bool,
    comment: bool,
) -> Seq<Seq<char>> {
    magic_run(lines, lines.len() as int, language, global_escape_flag, explicitly_code, comment).0
}

fn comment_or_hash_exec(language: &str) -> (r: &'static str)
    ensures
        r@ == comment_or_hash(usual_name(language@)),
{
    let u = usual_language_name(language);
    match comment_for_language(u.as_str()) {
        Some(c) => c,
        None => "#",
    }
}

/// The line split at the end of its indentation.
fn split_indent(line: &str) -> (r: (String, String))
    ensures
        r.0@ == indent_of(line@),
        r.1@ == trim_start(line@),
{
    let v = chars_of(line);
    let t = trim_start_str(line);
    let tl = crate::text::char_len(t.as_str());
    proof {
        crate::text::trim_start_is_suffix(line@);
    }
    let ind = string_of(&v, 0, v.len() - tl);
    (ind, t)
}

/// Uncomment a single line.
fn unesc(line: &str, language: &str) -> (r: String)
    ensures
        r@ == unescaped_line(line@, language@),
{
    proof {
        reveal_strlit(" ");
    }
    let comment = comment_or_hash_exec(language);
    let (indent, trimmed) = split_indent(line);
    let comment_space = concat(comment, " ");
    let tv = chars_of(trimmed.as_str());
    let clen = crate::text::char_len(comment);
    if starts_with(trimmed.as_str(), comment_space.as_str()) {
        let tvlen = tv.len();
        assert(clen + 1 <= tvlen);
        let rest = string_of(&tv, clen + 1, tvlen);
        concat(indent.as_str(), rest.as_str())
    } else if starts_with(trimmed.as_str(), comment) {
        let rest = string_of(&tv, clen, tv.len());
        concat(indent.as_str(), rest.as_str())
    } else {
        owned(line)
    }
}

fn escape_one(line: &str, comment: &str, keep_indent: bool) -> (r: String)
    ensures
        keep_indent ==> r@ == indent_of(line@) + comment@ + " "@ + trim_start(line@),
        !keep_indent ==> r@ == comment@ + " "@ + line@,
{
    if keep_indent {
        let (indent, trimmed) = split_indent(line);
        let a = concat3(indent.as_str(), comment, " ");
        concat(a.as_str(), trimmed.as_str())
    } else {
        concat3(comment, " ", line)
    }
}

fn toggle_magics(source: &mut Vec<String>, language: &str, global_escape_flag: bool, explicitly_code: bool, comment: bool)
    ensures
        views(final(source)@) == magics_toggled(views(old(source)@), language@, global_escape_flag, explicitly_code, comment),
{
    let ghost orig = views(source@);
    let cmt = comment_or_hash_exec(language);
    let mut parser = StringParser::new(language);
    let mut next_is_magic = false;
    let is_python = str_eq(language, "python");
    let mut pos: usize = 0;
    while pos < source.len()
        invariant
            orig.len() == source@.len(),
            pos <= source@.len(),
            cmt@ == comment_or_hash(usual_name(language@)),
            is_python == (language@ == "python"@),
            magic_run(orig, pos as int, language@, global_escape_flag, explicitly_code, comment) == (views(source@).take(pos as int), parser@, next_is_magic),
            forall|k: int| pos <= k < orig.len() ==> views(source@)[k] == orig[k],
        decreases source.len() - pos,
    {
        let line = source[pos].clone();
        assert(line@ == orig[pos as int]);
        let ghost before = views(source@);
        if !parser.is_quoted() && (next_is_magic || is_magic(line.as_str(), language, global_escape_flag, explicitly_code)) {
            let new_line = if comment {
                escape_one(line.as_str(), cmt, !next_is_magic)
            } else {
                unesc(line.as_str(), language)
            };
            source.set(pos, new_line);
            next_is_magic = is_python && matches_str(r".*\\\s*$", line.as_str());
        }
        parser.read_line(line.as_str());
        proof {
            assert(views(source@).take(pos + 1) =~= before.take(pos as int).push(views(source@)[pos as int]));
        }
        pos += 1;
    }
    assert(views(source@).take(orig.len() as int) =~= views(source@));
}

/// Comment magic commands with the language-specific comment prefix.
pub fn comment_magic(source: &mut Vec<String>, language: &str, global_escape_flag: bool, explicitly_code: bool)
    ensures
        views(final(source)@) == magics_toggled(views(old(source)@), language@, global_escape_flag, explicitly_code, true),
{
    toggle_magics(source, language, global_escape_flag, explicitly_code, true);
}

/// Uncomment magic commands.
pub fn uncomment_magic(source: &mut Vec<String>, language: &str, global_escape_flag: bool, explicitly_code: bool)
    ensures
        views(final(source)@) == magics_toggled(views(old(source)@), language@, global_escape_flag, explicitly_code, false),
{
    toggle_magics(source, language, global_escape_flag, explicitly_code, false);
}

/// Some line, not inside a quoted string, is a magic only when the code is explicit.
pub open spec fn needs_marker(lines: Seq<Seq<char>>, language: Seq<char>, global_escape_flag: bool) -> bool {
    language == "python"@ && global_escape_flag && exists|i: int| {
        &&& 0 <= i < lines.len()
        &&& !model_quoted(crate::string_parser::model_after(initial_model(language), lines.take(i)))
        &&& is_magic_line(lines[i], language, global_escape_flag, true)
        &&& !is_magic_line(lines[i], language, global_escape_flag, false)
    }
}

/// Does this code need an explicit cell marker?
pub fn need_explicit_marker(source: &[String], language: &str, global_escape_flag: bool) -> (r: bool)
    ensures
        r == needs_marker(views(source@), language@, global_escape_flag),
{
    let ghost ls = views(source@);
    if !str_eq(language, "python") || !global_escape_flag {
        return false;
    }
    let mut parser = StringParser::new(language);
    let mut i: usize = 0;
    assert(ls.take(0) =~= Seq::<Seq<char>>::empty());
    while i < source.len()
        invariant
            ls == views(source@),
            language@ == "python"@,
            global_escape_flag,
            i <= source@.len(),
            parser@ == crate::string_parser::model_after(initial_model(language@), ls.take(i as int)),
            forall|j: int| 0 <= j < i ==> !({
                &&& !model_quoted(crate::string_parser::model_after(initial_model(language@), ls.take(j)))
                &&& is_magic_line(ls[j], language@, global_escape_flag, true)
                &&& !is_magic_line(ls[j], language@, global_escape_flag, false)
            }),
        decreases source.len() - i,
    {
        let line = source[i].as_str();
        assert(line@ == ls[i as int]);
        if !parser.is_quoted() && is_magic(line, language, global_escape_flag, true) {
            if !is_magic(line, language, global_escape_flag, false) {
                return true;
            }
        }
        parser.read_line(line);
        assert(ls.take(i + 1).drop_last() =~= ls.take(i as int));
        i += 1;
    }
    false
}


/// `^(c |c)*(c|c )\+` for the escaped comment `e`: a commented cell marker.
pub open spec fn code_start_pattern_for(e: Seq<char>) -> Seq<char> {
    r"^("@ + e + r" |"@ + e + r")*("@ + e + r"|"@ + e + r" )\+"@
}

/// The line starts a code cell in a document with extension `ext` (possibly commented).
pub open spec fn is_code_start(line: Seq<char>, ext: Seq<char>) -> bool {
    if ext == ".Rmd"@ {
        regex_hit(r"^(# |#)*```\{.*\}"@, line)
    } else if ext == ".md"@ || ext == ".markdown"@ {
        regex_hit(r"^(# |#)*```"@, line)
    } else {
        match script_entry(ext) {
            Some(e) => regex_hit(code_start_pattern_for(regex_escape(e.1)), line),
            None => false,
        }
    }
}

/// Does the line look like the start of a code cell (possibly already escaped)?
pub fn is_escaped_code_start(line: &str, ext: &str) -> (r: bool)
    ensures
        r == is_code_start(line@, ext@),
{
    if str_eq(ext, ".Rmd") {
        matches_str(r"^(# |#)*```\{.*\}", line)
    } else if str_eq(ext, ".md") || str_eq(ext, ".markdown") {
        matches_str(r"^(# |#)*```", line)
    } else {
        match script_language_for_ext(ext) {
            Some(sl) => {
                let e = escape(sl.comment);
                let a = concat3(r"^(", e.as_str(), r" |");
                let b = concat3(a.as_str(), e.as_str(), r")*(");
                let c = concat3(b.as_str(), e.as_str(), r"|");
                let d = concat3(c.as_str(), e.as_str(), r" )\+");
                matches_str(d.as_str(), line)
            },
            None => false,
        }
    }
}

/// The comment prefix of the script extension, `#` by default.
pub open spec fn ext_comment_or_hash(ext: Seq<char>) -> Seq<char> {
    match script_entry(ext) {
        Some(e) => e.1,
        None => "#"@,
    }
}

/// One line after escaping (or unescaping) a code start marker.
pub open spec fn code_start_step(line: Seq<char>, ext: Seq<char>, language: Seq<char>, m: ParserModel, escape: bool) -> Seq<char> {
    if !model_quoted(m) && is_code_start(line, ext) {
        if escape {
            ext_comment_or_hash(ext) + " "@ + line
        } else if is_code_start(unescaped_line(line, language), ext) {
            unescaped_line(line, language)
        } else {
            line
        }
    } else {
        line
    }
}

/// The first `n` lines after escaping (or unescaping) code start markers, with the parser state.
pub open spec fn code_start_run(lines: Seq<Seq<char>>, n: int, ext: Seq<char>, language: Seq<char>, escape: bool) -> (Seq<Seq<char>>, ParserModel)
    decreases n,
{
    if n <= 0 {
        (Seq::empty(), initial_model(language))
    } else {
        let prev = code_start_run(lines, n - 1, ext, language, escape);
        (prev.0.push(code_start_step(lines[n - 1], ext, language, prev.1, escape)), next_model(prev.1, lines[n - 1]))
    }
}

fn toggle_code_start(source: &mut Vec<String>, ext: &str, language: &str, escape: bool)
    ensures
        views(final(source)@) == code_start_run(views(old(source)@), old(source)@.len() as int, ext@, language@, escape).0,
{
    let ghost orig = views(source@);
    let comment: &'static str = match script_language_for_ext(ext) {
        Some(sl) => sl.comment,
        None => "#",
    };
    let mut parser = StringParser::new(language);
    let mut pos: usize = 0;
    while pos < source.len()
        invariant
            orig.len() == source@.len(),
            pos <= source@.len(),
            comment@ == ext_comment_or_hash(ext@),
            code_start_run(orig, pos as int, ext@, language@, escape) == (views(source@).take(pos as int), parser@),
            forall|k: int| pos <= k < orig.len() ==> views(source@)[k] == orig[k],
        decreases source.len() - pos,
    {
        let line = source[pos].clone();
        assert(line@ == orig[pos as int]);
        let ghost before = views(source@);
        if !parser.is_quoted() && is_escaped_code_start(line.as_str(), ext) {
            if escape {
                source.set(pos, concat3(comment, " ", line.as_str()));
            } else {
                let unescaped = unesc(line.as_str(), language);
                if is_escaped_code_start(unescaped.as_str(), ext) {
                    source.set(pos, unescaped);
                }
            }
        }
        parser.read_line(line.as_str());
        proof {
            assert(views(source@).take(pos + 1) =~= before.take(pos as int).push(views(source@)[pos as int]));
        }
        pos += 1;
    }
    assert(views(source@).take(orig.len() as int) =~= views(source@));
}

/// Escape code start markers.
pub fn escape_code_start(source: &mut Vec<String>, ext: &str, language: &str)
    ensures
        views(final(source)@) == code_start_run(views(old(source)@), old(source)@.len() as int, ext@, language@, true).0,
{
    toggle_code_start(source, ext, language, true);
}

/// Unescape code start markers.
pub fn unescape_code_start(source: &mut Vec<String>, ext: &str, language: &str)
    ensures
        views(final(source)@) == code_start_run(views(old(source)@), old(source)@.len() as int, ext@, language@, false).0,
{
    toggle_code_start(source, ext, language, false);
}

} // verus!

verus! {

proof fn lemma_code_start_run_lines(lines: Seq<Seq<char>>, n: int, ext: Seq<char>, language: Seq<char>, escape: bool)
    requires
        0 <= n <= lines.len(),
    ensures
        code_start_run(lines, n, ext, language, escape).0.len() == n,
        forall|i: int|
            0 <= i < n ==> #[trigger] code_start_run(lines, n, ext, language, escape).0[i] == code_start_step(
                lines[i],
                ext,
                language,
                code_start_run(lines, i, ext, language, escape).1,
                escape,
            ),
    decreases n,
{
    if n > 0 {
        lemma_code_start_run_lines(lines, n - 1, ext, language, escape);
    }
}

proof fn lemma_unescape_hash(line: Seq<char>, language: Seq<char>)
    requires
        comment_or_hash(usual_name(language)) == "#"@,
    ensures
        unescaped_line("#"@ + " "@ + line, language) == line,
{
    reveal_strlit("#");
    reveal_strlit(" ");
    let e = "#"@ + " "@ + line;
    assert(e[0] == '#');
    assert(trim_start(e) == e);
    assert(e.subrange(0, 2) =~= "#"@ + " "@);
    assert(indent_of(e) =~= Seq::<char>::empty());
    assert(e.subrange(2, e.len() as int) =~= line);
}

/// Unescaping code start markers undoes escaping them, for a language and an extension
/// whose comment is `#`: when the string parser is outside of any string before each
/// line, both in the text and in the escaped text, and a line that starts a code cell
/// still does once commented.
pub proof fn unescape_undoes_escape(lines: Seq<Seq<char>>, ext: Seq<char>, language: Seq<char>)
    requires
        comment_or_hash(usual_name(language)) == "#"@,
        ext_comment_or_hash(ext) == "#"@,
        forall|i: int| 0 <= i < lines.len() ==> !model_quoted(#[trigger] code_start_run(lines, i, ext, language, true).1),
        forall|i: int|
            0 <= i < lines.len() ==> !model_quoted(
                #[trigger] code_start_run(
                    code_start_run(lines, lines.len() as int, ext, language, true).0,
                    i,
                    ext,
                    language,
                    false,
                ).1,
            ),
        forall|i: int| 0 <= i < lines.len() && is_code_start(lines[i], ext) ==> is_code_start(#[trigger] ("#"@ + " "@ + lines[i]), ext),
    ensures
        code_start_run(
            code_start_run(lines, lines.len() as int, ext, language, true).0,
            lines.len() as int,
            ext,
            language,
            false,
        ).0 == lines,
{
    let n = lines.len() as int;
    let e = code_start_run(lines, n, ext, language, true).0;
    lemma_code_start_run_lines(lines, n, ext, language, true);
    lemma_code_start_run_lines(e, n, ext, language, false);
    let u = code_start_run(e, n, ext, language, false).0;
    assert forall|i: int| 0 <= i < n implies u[i] == lines[i] by {
        assert(!model_quoted(code_start_run(lines, i, ext, language, true).1));
        assert(!model_quoted(code_start_run(e, i, ext, language, false).1));
        assert(e[i] == code_start_step(lines[i], ext, language, code_start_run(lines, i, ext, language, true).1, true));
        if is_code_start(lines[i], ext) {
            assert(e[i] == "#"@ + " "@ + lines[i]);
            assert(is_code_start("#"@ + " "@ + lines[i], ext));
            lemma_unescape_hash(lines[i], language);
        }
    }
    assert(u =~= lines);
}


/// In Python, a magic line that ends with a backslash goes on in the next line, and that
/// line is commented too: `# ` goes in front of it, whatever it holds, when the magic
/// line leaves no string open.
pub proof fn magic_continuation_is_commented(l: Seq<char>, x: Seq<char>, global_escape_flag: bool, explicitly_code: bool)
    requires
        is_magic_line(l, "python"@, global_escape_flag, explicitly_code),
        regex_hit(line_continuation_pattern(), l),
        !model_quoted(next_model(initial_model("python"@), l)),
    ensures
        magics_toggled(seq![l, x], "python"@, global_escape_flag, explicitly_code, true).len() == 2,
        magics_toggled(seq![l, x], "python"@, global_escape_flag, explicitly_code, true)[1] == "# "@ + x,
{
    reveal_strlit("python");
    reveal_strlit("# ");
    reveal_strlit("#");
    reveal_strlit(" ");
    crate::languages::python_comment();
    reveal_with_fuel(magic_run, 3);
    let lines = seq![l, x];
    let lang = "python"@;
    let m0 = initial_model(lang);
    assert(!model_quoted(m0));
    let r1 = magic_run(lines, 1, lang, global_escape_flag, explicitly_code, true);
    assert(lines[0] == l);
    assert(r1.1 == next_model(m0, l));
    assert(r1.2);
    let r2 = magic_run(lines, 2, lang, global_escape_flag, explicitly_code, true);
    assert(lines[1] == x);
    assert(comment_or_hash(usual_name(lang)) == "#"@);
    assert(r2.0[1] == escaped_line(x, lang, false));
    assert("#"@ + " "@ + x =~= "# "@ + x);
}

} // verus!
