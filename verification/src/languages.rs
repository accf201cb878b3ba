//! Language definitions and script extension mappings, the default and main language of a
//! notebook, and the cell magics of cells in other languages.

use vstd::prelude::*;
use crate::text::{
    char_len, chars_of, concat, concat3, ends_with, first_match, first_match_is, first_match_none,
    has_prefix, has_suffix, lowercase, owned, starts_with, str_eq, string_of, to_lowercase,
    to_uppercase, uppercase, views,
};

verus! {

broadcast use crate::text::views_push;

/// Information about a script language.
#[derive(Debug, Clone, Copy)]
pub struct ScriptLanguage {
    pub language: &'static str,
    pub comment: &'static str,
    pub comment_suffix: &'static str,
}

/// The views of a table of script extensions.
pub open spec fn table_view(v: Seq<(&'static str, ScriptLanguage)>) -> Seq<
    (Seq<char>, Seq<char>, Seq<char>, Seq<char>),
> {
    v.map_values(
        |e: (&'static str, ScriptLanguage)|
            (e.0@, e.1.language@, e.1.comment@, e.1.comment_suffix@),
    )
}

/// The views of a sequence of string slices.
pub open spec fn str_views(v: Seq<&'static str>) -> Seq<Seq<char>> {
    v.map_values(|s: &'static str| s@)
}

/// The script extensions: extension, language, comment prefix and comment suffix.
pub open spec fn script_table() -> Seq<(Seq<char>, Seq<char>, Seq<char>, Seq<char>)> {
    seq![
        (".py"@, "python"@, "#"@, ""@),
        (".coco"@, "coconut"@, "#"@, ""@),
        (".R"@, "R"@, "#"@, ""@),
        (".r"@, "R"@, "#"@, ""@),
        (".jl"@, "julia"@, "#"@, ""@),
        (".cpp"@, "c++"@, "//"@, ""@),
        (".ss"@, "scheme"@, ";;"@, ""@),
        (".clj"@, "clojure"@, ";;"@, ""@),
        (".scm"@, "scheme"@, ";;"@, ""@),
        (".sh"@, "bash"@, "#"@, ""@),
        (".ps1"@, "powershell"@, "#"@, ""@),
        (".q"@, "q"@, "/"@, ""@),
        (".m"@, "matlab"@, "%"@, ""@),
        (".wolfram"@, "wolfram language"@, "(*"@, "*)"@),
        (".pro"@, "idl"@, ";"@, ""@),
        (".js"@, "javascript"@, "//"@, ""@),
        (".ts"@, "typescript"@, "//"@, ""@),
        (".scala"@, "scala"@, "//"@, ""@),
        (".rs"@, "rust"@, "//"@, ""@),
        (".robot"@, "robotframework"@, "#"@, ""@),
        (".resource"@, "robotframework"@, "#"@, ""@),
        (".cs"@, "csharp"@, "//"@, ""@),
        (".fsx"@, "fsharp"@, "//"@, ""@),
        (".fs"@, "fsharp"@, "//"@, ""@),
        (".sos"@, "sos"@, "#"@, ""@),
        (".java"@, "java"@, "//"@, ""@),
        (".groovy"@, "groovy"@, "//"@, ""@),
        (".sage"@, "sage"@, "#"@, ""@),
        (".ml"@, "ocaml"@, "(*"@, "*)"@),
        (".hs"@, "haskell"@, "--"@, ""@),
        (".tcl"@, "tcl"@, "#"@, ""@),
        (".mac"@, "maxima"@, "/*"@, "*/"@),
        (".gp"@, "gnuplot"@, "#"@, ""@),
        (".do"@, "stata"@, "//"@, ""@),
        (".sas"@, "sas"@, "/*"@, "*/"@),
        (".xsh"@, "xonsh"@, "#"@, ""@),
        (".lgt"@, "logtalk"@, "%"@, ""@),
        (".logtalk"@, "logtalk"@, "%"@, ""@),
        (".lua"@, "lua"@, "--"@, ""@),
        (".go"@, "go"@, "//"@, ""@),
    ]
}

/// The language names known to Jupyter kernels and cell magics.
pub open spec fn jupyter_language_table() -> Seq<Seq<char>> {
    seq![
        "R"@,
        "bash"@,
        "sh"@,
        "python"@,
        "python2"@,
        "python3"@,
        "coconut"@,
        "javascript"@,
        "js"@,
        "perl"@,
        "html"@,
        "latex"@,
        "markdown"@,
        "pypy"@,
        "ruby"@,
        "script"@,
        "svg"@,
        "matlab"@,
        "octave"@,
        "idl"@,
        "robotframework"@,
        "sas"@,
        "spark"@,
        "sql"@,
        "cython"@,
        "haskell"@,
        "tcl"@,
        "gnuplot"@,
        "wolfram language"@,
        "julia"@,
        "c++"@,
        "scheme"@,
        "clojure"@,
        "powershell"@,
        "q"@,
        "typescript"@,
        "scala"@,
        "rust"@,
        "csharp"@,
        "fsharp"@,
        "sos"@,
        "java"@,
        "groovy"@,
        "sage"@,
        "ocaml"@,
        "maxima"@,
        "stata"@,
        "xonsh"@,
        "logtalk"@,
        "lua"@,
        "go"@,
        "c#"@,
        "f#"@,
        "cs"@,
        "fs"@,
    ]
}

/// The script extensions, in the order of `script_table`.
#[verifier::rlimit(100)]
pub fn script_extensions() -> (r: Vec<(&'static str, ScriptLanguage)>)
    ensures
        table_view(r@) == script_table(),
{
    let mut v: Vec<(&'static str, ScriptLanguage)> = Vec::new();
    v.push((".py", ScriptLanguage { language: "python", comment: "#", comment_suffix: "" }));
    v.push((".coco", ScriptLanguage { language: "coconut", comment: "#", comment_suffix: "" }));
    v.push((".R", ScriptLanguage { language: "R", comment: "#", comment_suffix: "" }));
    v.push((".r", ScriptLanguage { language: "R", comment: "#", comment_suffix: "" }));
    v.push((".jl", ScriptLanguage { language: "julia", comment: "#", comment_suffix: "" }));
    v.push((".cpp", ScriptLanguage { language: "c++", comment: "//", comment_suffix: "" }));
    v.push((".ss", ScriptLanguage { language: "scheme", comment: ";;", comment_suffix: "" }));
    v.push((".clj", ScriptLanguage { language: "clojure", comment: ";;", comment_suffix: "" }));
    v.push((".scm", ScriptLanguage { language: "scheme", comment: ";;", comment_suffix: "" }));
    v.push((".sh", ScriptLanguage { language: "bash", comment: "#", comment_suffix: "" }));
    v.push((".ps1", ScriptLanguage { language: "powershell", comment: "#", comment_suffix: "" }));
    v.push((".q", ScriptLanguage { language: "q", comment: "/", comment_suffix: "" }));
    v.push((".m", ScriptLanguage { language: "matlab", comment: "%", comment_suffix: "" }));
    v.push((".wolfram", ScriptLanguage { language: "wolfram language", comment: "(*", comment_suffix: "*)" }));
    v.push((".pro", ScriptLanguage { language: "idl", comment: ";", comment_suffix: "" }));
    v.push((".js", ScriptLanguage { language: "javascript", comment: "//", comment_suffix: "" }));
    v.push((".ts", ScriptLanguage { language: "typescript", comment: "//", comment_suffix: "" }));
    v.push((".scala", ScriptLanguage { language: "scala", comment: "//", comment_suffix: "" }));
    v.push((".rs", ScriptLanguage { language: "rust", comment: "//", comment_suffix: "" }));
    v.push((".robot", ScriptLanguage { language: "robotframework", comment: "#", comment_suffix: "" }));
    v.push((".resource", ScriptLanguage { language: "robotframework", comment: "#", comment_suffix: "" }));
    v.push((".cs", ScriptLanguage { language: "csharp", comment: "//", comment_suffix: "" }));
    v.push((".fsx", ScriptLanguage { language: "fsharp", comment: "//", comment_suffix: "" }));
    v.push((".fs", ScriptLanguage { language: "fsharp", comment: "//", comment_suffix: "" }));
    v.push((".sos", ScriptLanguage { language: "sos", comment: "#", comment_suffix: "" }));
    v.push((".java", ScriptLanguage { language: "java", comment: "//", comment_suffix: "" }));
    v.push((".groovy", ScriptLanguage { language: "groovy", comment: "//", comment_suffix: "" }));
    v.push((".sage", ScriptLanguage { language: "sage", comment: "#", comment_suffix: "" }));
    v.push((".ml", ScriptLanguage { language: "ocaml", comment: "(*", comment_suffix: "*)" }));
    v.push((".hs", ScriptLanguage { language: "haskell", comment: "--", comment_suffix: "" }));
    v.push((".tcl", ScriptLanguage { language: "tcl", comment: "#", comment_suffix: "" }));
    v.push((".mac", ScriptLanguage { language: "maxima", comment: "/*", comment_suffix: "*/" }));
    v.push((".gp", ScriptLanguage { language: "gnuplot", comment: "#", comment_suffix: "" }));
    v.push((".do", ScriptLanguage { language: "stata", comment: "//", comment_suffix: "" }));
    v.push((".sas", ScriptLanguage { language: "sas", comment: "/*", comment_suffix: "*/" }));
    v.push((".xsh", ScriptLanguage { language: "xonsh", comment: "#", comment_suffix: "" }));
    v.push((".lgt", ScriptLanguage { language: "logtalk", comment: "%", comment_suffix: "" }));
    v.push((".logtalk", ScriptLanguage { language: "logtalk", comment: "%", comment_suffix: "" }));
    v.push((".lua", ScriptLanguage { language: "lua", comment: "--", comment_suffix: "" }));
    v.push((".go", ScriptLanguage { language: "go", comment: "//", comment_suffix: "" }));
    assert(table_view(v@) =~= script_table());
    v
}

/// The language names of `jupyter_language_table`.
#[verifier::rlimit(100)]
pub fn jupyter_languages() -> (r: Vec<&'static str>)
    ensures
        str_views(r@) == jupyter_language_table(),
{
    let mut v: Vec<&'static str> = Vec::new();
    v.push("R");
    v.push("bash");
    v.push("sh");
    v.push("python");
    v.push("python2");
    v.push("python3");
    v.push("coconut");
    v.push("javascript");
    v.push("js");
    v.push("perl");
    v.push("html");
    v.push("latex");
    v.push("markdown");
    v.push("pypy");
    v.push("ruby");
    v.push("script");
    v.push("svg");
    v.push("matlab");
    v.push("octave");
    v.push("idl");
    v.push("robotframework");
    v.push("sas");
    v.push("spark");
    v.push("sql");
    v.push("cython");
    v.push("haskell");
    v.push("tcl");
    v.push("gnuplot");
    v.push("wolfram language");
    v.push("julia");
    v.push("c++");
    v.push("scheme");
    v.push("clojure");
    v.push("powershell");
    v.push("q");
    v.push("typescript");
    v.push("scala");
    v.push("rust");
    v.push("csharp");
    v.push("fsharp");
    v.push("sos");
    v.push("java");
    v.push("groovy");
    v.push("sage");
    v.push("ocaml");
    v.push("maxima");
    v.push("stata");
    v.push("xonsh");
    v.push("logtalk");
    v.push("lua");
    v.push("go");
    v.push("c#");
    v.push("f#");
    v.push("cs");
    v.push("fs");
    assert(str_views(v@) =~= jupyter_language_table());
    v
}

/// Position of `ext` in the script table.
pub open spec fn ext_index(ext: Seq<char>) -> Option<int> {
    first_match(script_table(), |e: (Seq<char>, Seq<char>, Seq<char>, Seq<char>)| e.0 == ext)
}

/// Language, comment and comment suffix of a script extension.
pub open spec fn script_entry(ext: Seq<char>) -> Option<(Seq<char>, Seq<char>, Seq<char>)> {
    match ext_index(ext) {
        Some(i) => Some((script_table()[i].1, script_table()[i].2, script_table()[i].3)),
        None => None,
    }
}

/// The comment prefix of a language (the one of its first script extension).
pub open spec fn comment_for_lang(lang: Seq<char>) -> Option<Seq<char>> {
    match first_match(
        script_table(),
        |e: (Seq<char>, Seq<char>, Seq<char>, Seq<char>)| e.1 == lang,
    ) {
        Some(i) => Some(script_table()[i].2),
        None => None,
    }
}

/// `s` is a language name known to Jupyter.
pub open spec fn is_jupyter_lang(s: Seq<char>) -> bool {
    jupyter_language_table().contains(s)
}

/// `s` is a Jupyter language name, or the upper case form of one.
pub open spec fn is_jupyter_lang_any_case(s: Seq<char>) -> bool {
    is_jupyter_lang(s) || exists|i: int|
        0 <= i < jupyter_language_table().len() && uppercase(jupyter_language_table()[i]) == s
}

/// The script language of an extension such as `.py`.
pub fn script_language_for_ext(ext: &str) -> (r: Option<ScriptLanguage>)
    ensures
        match r {
            Some(sl) => script_entry(ext@) == Some((sl.language@, sl.comment@, sl.comment_suffix@)),
            None => script_entry(ext@) is None,
        },
{
    let t = script_extensions();
    let mut i: usize = 0;
    while i < t.len()
        invariant
            table_view(t@) == script_table(),
            i <= t@.len(),
            forall|j: int| 0 <= j < i ==> script_table()[j].0 != ext@,
        decreases t.len() - i,
    {
        assert(table_view(t@)[i as int].0 == t@[i as int].0@);
        if str_eq(t[i].0, ext) {
            proof {
                let f = |e: (Seq<char>, Seq<char>, Seq<char>, Seq<char>)| e.0 == ext@;
                assert(f(script_table()[i as int]));
                first_match_is(script_table(), f, i as int);
            }
            return Some(t[i].1);
        }
        i += 1;
    }
    proof {
        let f = |e: (Seq<char>, Seq<char>, Seq<char>, Seq<char>)| e.0 == ext@;
        first_match_none(script_table(), f);
    }
    None
}

/// The comment prefix of a language, if it is the language of a script extension.
pub fn comment_for_language(lang: &str) -> (r: Option<&'static str>)
    ensures
        match r {
            Some(c) => comment_for_lang(lang@) == Some(c@),
            None => comment_for_lang(lang@) is None,
        },
{
    let t = script_extensions();
    let mut i: usize = 0;
    while i < t.len()
        invariant
            table_view(t@) == script_table(),
            i <= t@.len(),
            forall|j: int| 0 <= j < i ==> script_table()[j].1 != lang@,
        decreases t.len() - i,
    {
        assert(table_view(t@)[i as int].1 == t@[i as int].1.language@);
        if str_eq(t[i].1.language, lang) {
            proof {
                let f = |e: (Seq<char>, Seq<char>, Seq<char>, Seq<char>)| e.1 == lang@;
                assert(f(script_table()[i as int]));
                first_match_is(script_table(), f, i as int);
            }
            return Some(t[i].1.comment);
        }
        i += 1;
    }
    proof {
        let f = |e: (Seq<char>, Seq<char>, Seq<char>, Seq<char>)| e.1 == lang@;
        first_match_none(script_table(), f);
    }
    None
}

/// Is `s` a language name known to Jupyter?
pub fn in_jupyter_languages(s: &str) -> (r: bool)
    ensures
        r == is_jupyter_lang(s@),
{
    let t = jupyter_languages();
    let mut i: usize = 0;
    while i < t.len()
        invariant
            str_views(t@) == jupyter_language_table(),
            i <= t@.len(),
            forall|j: int| 0 <= j < i ==> jupyter_language_table()[j] != s@,
        decreases t.len() - i,
    {
        assert(str_views(t@)[i as int] == t@[i as int]@);
        if str_eq(t[i], s) {
            assert(jupyter_language_table()[i as int] == s@);
            return true;
        }
        i += 1;
    }
    false
}

/// Is `s` a Jupyter language name, or the upper case form of one?
pub fn in_jupyter_languages_any_case(s: &str) -> (r: bool)
    ensures
        r == is_jupyter_lang_any_case(s@),
{
    if in_jupyter_languages(s) {
        return true;
    }
    let t = jupyter_languages();
    let mut i: usize = 0;
    while i < t.len()
        invariant
            str_views(t@) == jupyter_language_table(),
            i <= t@.len(),
            forall|j: int| 0 <= j < i ==> uppercase(jupyter_language_table()[j]) != s@,
        decreases t.len() - i,
    {
        assert(str_views(t@)[i as int] == t@[i as int]@);
        let u = to_uppercase(t[i]);
        if str_eq(u.as_str(), s) {
            return true;
        }
        i += 1;
    }
    false
}

/// The usual name of a language, from its lower case form.
pub open spec fn usual_name(language: Seq<char>) -> Seq<char> {
    let lower = lowercase(language);
    if lower == "r"@ {
        "R"@
    } else if has_prefix(lower, "c++"@) {
        "c++"@
    } else if lower == "octave"@ {
        "matlab"@
    } else if lower == "cs"@ || lower == "c#"@ {
        "csharp"@
    } else if lower == "fs"@ || lower == "f#"@ {
        "fsharp"@
    } else if lower == "sas"@ {
        "SAS"@
    } else {
        lower
    }
}

/// The text with every `#` written as `sharp`.
pub open spec fn sharp_for_hash(s: Seq<char>) -> Seq<char>
    decreases s.len(),
{
    if s.len() == 0 {
        Seq::empty()
    } else {
        sharp_for_hash(s.drop_last()) + if s.last() == '#' {
            "sharp"@
        } else {
            seq![s.last()]
        }
    }
}

/// The default language of a notebook for the extension `ext`: its `main_language`, else
/// the language of its kernel, else the language of the script extension; `R`, `sas` and
/// `SAS` as they are, `c++` for a name that starts with `C++`, else in lower case with
/// `sharp` for `#`.
pub open spec fn default_language_of(lang: crate::formats::NotebookLanguage, ext: Seq<char>) -> Option<Seq<char>> {
    default_language_for(
        match lang.main_language {
            Some(m) => Some(m@),
            None => None,
        },
        match lang.kernel_language {
            Some(k) => Some(k@),
            None => None,
        },
        ext,
    )
}

/// The default language from a main language, a kernel language and an extension (see
/// `default_language_of`).
pub open spec fn default_language_for(main: Option<Seq<char>>, kernel: Option<Seq<char>>, ext: Seq<char>) -> Option<Seq<char>> {
    let from_ext = match script_entry(ext) {
        Some(e) => Some(e.0),
        None => None,
    };
    let from_kernel = match kernel {
        Some(k) => Some(k),
        None => from_ext,
    };
    let language = match main {
        Some(m) => Some(m),
        None => from_kernel,
    };
    match language {
        Some(l) => Some(
            if l == "R"@ || l == "sas"@ || l == "SAS"@ {
                l
            } else if has_prefix(l, "C++"@) {
                "c++"@
            } else {
                sharp_for_hash(lowercase(l))
            },
        ),
        None => None,
    }
}

/// The text with every `#` written as `sharp`.
fn replace_hash(s: &str) -> (r: String)
    ensures
        r@ == sharp_for_hash(s@),
{
    proof {
        reveal_strlit("sharp");
    }
    let v = chars_of(s);
    let mut r = String::new();
    let mut i: usize = 0;
    while i < v.len()
        invariant
            i <= v@.len(),
            v@ == s@,
            r@ == sharp_for_hash(v@.take(i as int)),
        decreases v.len() - i,
    {
        assert(v@.take(i + 1).drop_last() =~= v@.take(i as int));
        if v[i] == '#' {
            r = concat(r.as_str(), "sharp");
        } else {
            crate::text::push_char(&mut r, v[i]);
        }
        assert(r@ =~= sharp_for_hash(v@.take(i + 1)));
        i += 1;
    }
    assert(v@.take(v@.len() as int) =~= v@);
    r
}

/// The default language of a notebook for the extension `ext`, from its `main_language`,
/// its kernel or the extension. The main language stays in the notebook metadata either
/// way (`pop_main_language` changes nothing).
pub fn default_language_from_metadata_and_ext(
    language: &crate::formats::NotebookLanguage,
    ext: &str,
    pop_main_language: bool,
) -> (r: Option<String>)
    ensures
        match r {
            Some(x) => default_language_of(*language, ext@) == Some(x@),
            None => default_language_of(*language, ext@) is None,
        },
{
    proof {
        reveal_strlit("R");
        reveal_strlit("sas");
        reveal_strlit("SAS");
        reveal_strlit("C++");
        reveal_strlit("c++");
    }
    let from_ext: Option<String> = match script_language_for_ext(ext) {
        Some(sl) => Some(owned(sl.language)),
        None => None,
    };
    let from_kernel: Option<String> = match &language.kernel_language {
        Some(k) => Some(owned(k.as_str())),
        None => from_ext,
    };
    let lang: Option<String> = match &language.main_language {
        Some(m) => Some(owned(m.as_str())),
        None => from_kernel,
    };
    match lang {
        Some(l) => {
            if str_eq(l.as_str(), "R") || str_eq(l.as_str(), "sas") || str_eq(l.as_str(), "SAS") {
                Some(l)
            } else if starts_with(l.as_str(), "C++") {
                Some(owned("c++"))
            } else {
                let lower = to_lowercase(l.as_str());
                Some(replace_hash(lower.as_str()))
            }
        },
        None => None,
    }
}

/// Return the usual language name.
pub fn usual_language_name(language: &str) -> (r: String)
    ensures
        r@ == usual_name(language@),
{
    let lower = to_lowercase(language);
    let l = lower.as_str();
    if str_eq(l, "r") {
        owned("R")
    } else if starts_with(l, "c++") {
        owned("c++")
    } else if str_eq(l, "octave") {
        owned("matlab")
    } else if str_eq(l, "cs") || str_eq(l, "c#") {
        owned("csharp")
    } else if str_eq(l, "fs") || str_eq(l, "f#") {
        owned("fsharp")
    } else if str_eq(l, "sas") {
        owned("SAS")
    } else {
        lower
    }
}

/// Are these the same language?
pub fn same_language(kernel_language: &str, language: &str) -> (r: bool)
    ensures
        r == (usual_name(kernel_language@) == usual_name(language@)),
{
    let a = usual_language_name(kernel_language);
    let b = usual_language_name(language);
    str_eq(a.as_str(), b.as_str())
}

/// A line with the comment prefix (and suffix).
pub open spec fn comment_line(line: Seq<char>, prefix: Seq<char>, suffix: Seq<char>) -> Seq<char> {
    if line.len() == 0 {
        if suffix.len() == 0 {
            prefix
        } else {
            prefix + " "@ + suffix
        }
    } else if suffix.len() == 0 {
        prefix + " "@ + line
    } else {
        prefix + " "@ + line + " "@ + suffix
    }
}

/// Lines with the comment prefix (and suffix); unchanged when the prefix is empty.
pub open spec fn commented(lines: Seq<Seq<char>>, prefix: Seq<char>, suffix: Seq<char>) -> Seq<
    Seq<char>,
> {
    if prefix.len() == 0 {
        lines
    } else {
        lines.map_values(|l: Seq<char>| comment_line(l, prefix, suffix))
    }
}

/// A line without its comment prefix (and suffix).
pub open spec fn uncomment_line(line: Seq<char>, prefix: Seq<char>, suffix: Seq<char>) -> Seq<
    char,
> {
    let r = if has_prefix(line, prefix + " "@) {
        line.subrange(prefix.len() + 1int, line.len() as int)
    } else if has_prefix(line, prefix) {
        line.subrange(prefix.len() as int, line.len() as int)
    } else {
        line
    };
    if suffix.len() == 0 {
        r
    } else if has_suffix(r, " "@ + suffix) {
        r.subrange(0, r.len() - suffix.len() - 1)
    } else if has_suffix(r, suffix) {
        r.subrange(0, r.len() - suffix.len())
    } else {
        r
    }
}

/// Lines without their comment prefix (and suffix); unchanged when the prefix is empty.
pub open spec fn uncommented(lines: Seq<Seq<char>>, prefix: Seq<char>, suffix: Seq<char>) -> Seq<
    Seq<char>,
> {
    if prefix.len() == 0 {
        lines
    } else {
        lines.map_values(|l: Seq<char>| uncomment_line(l, prefix, suffix))
    }
}

fn comment_one_line(line: &str, prefix: &str, suffix: &str) -> (r: String)
    ensures
        r@ == comment_line(line@, prefix@, suffix@),
{
    let line_empty = char_len(line) == 0;
    let suffix_empty = char_len(suffix) == 0;
    if line_empty {
        if suffix_empty {
            owned(prefix)
        } else {
            concat3(prefix, " ", suffix)
        }
    } else if suffix_empty {
        concat3(prefix, " ", line)
    } else {
        let a = concat3(prefix, " ", line);
        concat3(a.as_str(), " ", suffix)
    }
}

/// Comment lines with the given prefix and suffix.
pub fn comment_lines(lines: &[String], prefix: &str, suffix: &str) -> (r: Vec<String>)
    ensures
        views(r@) == commented(views(lines@), prefix@, suffix@),
{
    let mut r: Vec<String> = Vec::new();
    if char_len(prefix) == 0 {
        let mut i: usize = 0;
        while i < lines.len()
            invariant
                i <= lines@.len(),
                views(r@) == views(lines@).take(i as int),
            decreases lines.len() - i,
        {
            let ghost old_r = r@;
            r.push(lines[i].clone());
            assert(views(r@) =~= views(lines@).take(i + 1));
            i += 1;
        }
        assert(views(lines@).take(lines@.len() as int) =~= views(lines@));
        return r;
    }
    let mut i: usize = 0;
    while i < lines.len()
        invariant
            i <= lines@.len(),
            prefix@.len() > 0,
            views(r@) == commented(views(lines@), prefix@, suffix@).take(i as int),
        decreases lines.len() - i,
    {
        let c = comment_one_line(lines[i].as_str(), prefix, suffix);
        r.push(c);
        assert(views(r@) =~= commented(views(lines@), prefix@, suffix@).take(i + 1));
        i += 1;
    }
    assert(commented(views(lines@), prefix@, suffix@).take(lines@.len() as int) =~= commented(
        views(lines@),
        prefix@,
        suffix@,
    ));
    r
}

fn uncomment_one_line(line: &str, prefix: &str, suffix: &str) -> (r: String)
    ensures
        r@ == uncomment_line(line@, prefix@, suffix@),
{
    proof {
        reveal_strlit(" ");
    }
    let v = chars_of(line);
    let ps = concat(prefix, " ");
    let plen = char_len(prefix);
    let rv: Vec<char> = if starts_with(line, ps.as_str()) {
        assert(ps@.len() == plen + 1);
        let vlen = v.len();
        assert(plen + 1 <= vlen);
        let s = string_of(&v, plen + 1, vlen);
        chars_of(s.as_str())
    } else if starts_with(line, prefix) {
        let s = string_of(&v, plen, v.len());
        chars_of(s.as_str())
    } else {
        v
    };
    let slen = char_len(suffix);
    if slen == 0 {
        return string_of(&rv, 0, rv.len());
    }
    let r = string_of(&rv, 0, rv.len());
    assert(rv@.subrange(0, rv@.len() as int) =~= rv@);
    let ss = concat(" ", suffix);
    if ends_with(r.as_str(), ss.as_str()) {
        string_of(&rv, 0, rv.len() - slen - 1)
    } else if ends_with(r.as_str(), suffix) {
        string_of(&rv, 0, rv.len() - slen)
    } else {
        r
    }
}

/// Uncomment lines by removing prefix (and suffix).
pub fn uncomment_lines(lines: &[String], prefix: &str, suffix: &str) -> (r: Vec<String>)
    ensures
        views(r@) == uncommented(views(lines@), prefix@, suffix@),
{
    let mut r: Vec<String> = Vec::new();
    let empty = char_len(prefix) == 0;
    let mut i: usize = 0;
    while i < lines.len()
        invariant
            i <= lines@.len(),
            empty == (prefix@.len() == 0),
            views(r@) == uncommented(views(lines@), prefix@, suffix@).take(i as int),
        decreases lines.len() - i,
    {
        let c = if empty {
            lines[i].clone()
        } else {
            uncomment_one_line(lines[i].as_str(), prefix, suffix)
        };
        r.push(c);
        assert(views(r@) =~= uncommented(views(lines@), prefix@, suffix@).take(i + 1));
        i += 1;
    }
    assert(uncommented(views(lines@), prefix@, suffix@).take(lines@.len() as int) =~= uncommented(
        views(lines@),
        prefix@,
        suffix@,
    ));
    r
}


/// The language and the arguments of a `%%lang args` cell magic.
pub open spec fn split_magic(magic: Seq<char>) -> (Seq<char>, Seq<char>) {
    match crate::text::find_char(magic, ' ') {
        Some(p) => (magic.subrange(0, p), magic.subrange(p + 1, magic.len() as int)),
        None => (magic, Seq::empty()),
    }
}

/// The language and magic arguments given by the first line of a cell, when that line
/// is a cell magic for a known language (the line is then removed from the cell).
pub open spec fn cell_language_of(lines: Seq<Seq<char>>, default_language: Seq<char>, custom_cell_magics: Seq<Seq<char>>) -> Option<(Seq<char>, Seq<char>)> {
    if lines.len() == 0 {
        None
    } else {
        let line = lines[0];
        if default_language == "go"@ && crate::pattern::regex_hit(r"^(%%\s*|%%\s+-.*)$"@, line) {
            None
        } else if default_language == "csharp"@ {
            if has_prefix(line, "#!"@) && is_jupyter_lang(crate::text::trim(line.subrange(2, line.len() as int))) {
                Some((crate::text::trim(line.subrange(2, line.len() as int)), Seq::empty()))
            } else {
                None
            }
        } else if has_prefix(line, "%%"@) {
            let lm = split_magic(line.subrange(2, line.len() as int));
            if is_jupyter_lang(lm.0) || custom_cell_magics.contains(lm.0) {
                Some(lm)
            } else {
                None
            }
        } else {
            None
        }
    }
}

fn contains_string(list: &[String], s: &str) -> (r: bool)
    ensures
        r == views(list@).contains(s@),
{
    let mut i: usize = 0;
    while i < list.len()
        invariant
            i <= list@.len(),
            forall|j: int| 0 <= j < i ==> views(list@)[j] != s@,
        decreases list.len() - i,
    {
        if str_eq(list[i].as_str(), s) {
            assert(views(list@)[i as int] == s@);
            return true;
        }
        i += 1;
    }
    false
}

/// Determine the cell language from the first line of the source, removing that line
/// when it is a cell magic.
pub fn cell_language(source: &mut Vec<String>, default_language: &str, custom_cell_magics: &[String]) -> (r: (Option<String>, Option<String>))
    ensures
        match cell_language_of(views(old(source)@), default_language@, views(custom_cell_magics@)) {
            Some(lm) => r.0 matches Some(l) && r.1 matches Some(a) && l@ == lm.0 && a@ == lm.1
                && views(final(source)@) == views(old(source)@).drop_first(),
            None => r.0 is None && r.1 is None && final(source)@ == old(source)@,
        },
{
    proof {
        reveal_strlit("#!");
        reveal_strlit("%%");
    }
    if source.len() == 0 {
        return (None, None);
    }
    let line = source[0].clone();
    let v = chars_of(line.as_str());
    if str_eq(default_language, "go") && crate::pattern::matches_str(r"^(%%\s*|%%\s+-.*)$", line.as_str()) {
        return (None, None);
    }
    if str_eq(default_language, "csharp") {
        if starts_with(line.as_str(), "#!") {
            let rest = string_of(&v, 2, v.len());
            let lang = crate::text::trim_str(rest.as_str());
            if in_jupyter_languages(lang.as_str()) {
                let ghost old_src = views(source@);
                source.remove(0);
                assert(views(source@) =~= old_src.drop_first());
                return (Some(lang), Some(String::new()));
            }
        }
    } else if starts_with(line.as_str(), "%%") {
        let magic = string_of(&v, 2, v.len());
        let mv = chars_of(magic.as_str());
        let (lang, magic_args) = match crate::text::vec_find_char(&mv, ' ') {
            Some(pos) => {
                proof {
                    crate::text::find_char_facts(mv@, ' ');
                }
                (string_of(&mv, 0, pos), string_of(&mv, pos + 1, mv.len()))
            },
            None => (magic, String::new()),
        };
        if in_jupyter_languages(lang.as_str()) || contains_string(custom_cell_magics, lang.as_str()) {
            let ghost old_src = views(source@);
            source.remove(0);
            assert(views(source@) =~= old_src.drop_first());
            return (Some(lang), Some(magic_args));
        }
    }
    (None, None)
}

} // verus!

verus! {

/// Uncommenting commented lines, with the same prefix and suffix, gives the lines back.
pub proof fn uncomment_after_comment(lines: Seq<Seq<char>>, prefix: Seq<char>, suffix: Seq<char>)
    ensures
        uncommented(commented(lines, prefix, suffix), prefix, suffix) == lines,
{
    reveal_strlit(" ");
    if prefix.len() > 0 {
        let c = commented(lines, prefix, suffix);
        assert forall|i: int| 0 <= i < lines.len() implies #[trigger] uncomment_line(
            c[i],
            prefix,
            suffix,
        ) == lines[i] by {
            let l = lines[i];
            let ps = prefix + " "@;
            let ss = " "@ + suffix;
            if l.len() == 0 {
                if suffix.len() == 0 {
                    assert(!has_prefix(prefix, ps));
                    assert(has_prefix(prefix, prefix)) by {
                        assert(prefix.subrange(0, prefix.len() as int) =~= prefix);
                    }
                    assert(prefix.subrange(prefix.len() as int, prefix.len() as int) =~= l);
                } else {
                    let x = prefix + " "@ + suffix;
                    assert(has_prefix(x, ps)) by {
                        assert(x.subrange(0, ps.len() as int) =~= ps);
                    }
                    let r = x.subrange(prefix.len() + 1int, x.len() as int);
                    assert(r =~= suffix);
                    assert(!has_suffix(r, ss));
                    assert(has_suffix(r, suffix)) by {
                        assert(r.subrange(0, r.len() as int) =~= r);
                    }
                    assert(r.subrange(0, r.len() - suffix.len()) =~= l);
                }
            } else if suffix.len() == 0 {
                let x = prefix + " "@ + l;
                assert(has_prefix(x, ps)) by {
                    assert(x.subrange(0, ps.len() as int) =~= ps);
                }
                assert(x.subrange(prefix.len() + 1int, x.len() as int) =~= l);
            } else {
                let x = prefix + " "@ + l + " "@ + suffix;
                assert(has_prefix(x, ps)) by {
                    assert(x.subrange(0, ps.len() as int) =~= ps);
                }
                let r = x.subrange(prefix.len() + 1int, x.len() as int);
                assert(r =~= l + " "@ + suffix);
                assert(has_suffix(r, ss)) by {
                    assert(r.subrange(r.len() - ss.len(), r.len() as int) =~= ss);
                }
                assert(r.subrange(0, r.len() - suffix.len() - 1) =~= l);
            }
        }
        assert(uncommented(c, prefix, suffix) =~= lines);
    }
}

/// What the language functions read of a notebook cell: its source, the keys of its
/// metadata, and its `language` and `magic_args` entries where they are strings.
pub struct LanguageCell {
    pub source: String,
    pub metadata_keys: Vec<String>,
    pub language: Option<String>,
    pub magic_args: Option<String>,
}

/// The plain value of an optional string.
pub open spec fn opt_text(o: Option<String>) -> Option<Seq<char>> {
    match o {
        Some(s) => Some(s@),
        None => None,
    }
}

/// A cell as plain values: source, metadata keys, language and magic arguments.
pub open spec fn language_cell_view(c: LanguageCell) -> (Seq<char>, Seq<Seq<char>>, Option<Seq<char>>, Option<Seq<char>>) {
    (c.source@, views(c.metadata_keys@), opt_text(c.language), opt_text(c.magic_args))
}

/// The languages of the cells.
pub open spec fn cell_languages(cells: Seq<LanguageCell>) -> Seq<Option<Seq<char>>> {
    cells.map_values(|c: LanguageCell| opt_text(c.language))
}

/// The number of cells whose language has the usual name `l`.
pub open spec fn language_count(langs: Seq<Option<Seq<char>>>, l: Seq<char>) -> nat
    decreases langs.len(),
{
    if langs.len() == 0 {
        0
    } else {
        language_count(langs.drop_last(), l) + match langs.last() {
            Some(x) => if usual_name(x) == l {
                1nat
            } else {
                0nat
            },
            None => 0nat,
        }
    }
}

/// The weight of a language among the cells, doubled: two for each cell in it, and one
/// more for python (which thus wins against a language of as many cells).
pub open spec fn language_score(langs: Seq<Option<Seq<char>>>, l: Seq<char>) -> int {
    2 * language_count(langs, l) + if l == "python"@ {
        1int
    } else {
        0int
    }
}

/// A most common language of the cells: python or the usual name of the language of a
/// cell, with no language of more weight.
pub open spec fn most_common_language(langs: Seq<Option<Seq<char>>>, l: Seq<char>) -> bool {
    &&& l == "python"@ || exists|i: int| 0 <= i < langs.len() && (#[trigger] langs[i]) is Some && usual_name(langs[i]->0) == l
    &&& language_score(langs, "python"@) <= language_score(langs, l)
    &&& forall|i: int| 0 <= i < langs.len() && #[trigger] langs[i] is Some ==> language_score(langs, usual_name(langs[i]->0)) <= language_score(langs, l)
}

/// The main language of a notebook: its default language, else a most common language of
/// its cells.
pub open spec fn main_language_choice(lang: crate::formats::NotebookLanguage, ext: Seq<char>, langs: Seq<Option<Seq<char>>>, main: Seq<char>) -> bool {
    match default_language_of(lang, ext) {
        Some(d) => main == d,
        None => most_common_language(langs, main),
    }
}

/// The keys without `k`.
pub open spec fn keys_without(keys: Seq<Seq<char>>, k: Seq<char>) -> Seq<Seq<char>> {
    keys.filter(|x: Seq<char>| x != k)
}

/// A cell after the main language is set: a cell in the main language loses its language
/// entry; a cell in another Jupyter language (or a custom cell magic) loses its language
/// and magic arguments entries and gets a cell magic for them (`%%`, or `#!` in C#) as its
/// first line; other cells stay as they are.
pub open spec fn cell_with_main_language(
    c: (Seq<char>, Seq<Seq<char>>, Option<Seq<char>>, Option<Seq<char>>),
    main: Seq<char>,
    custom_cell_magics: Seq<Seq<char>>,
) -> (Seq<char>, Seq<Seq<char>>, Option<Seq<char>>, Option<Seq<char>>) {
    let (source, keys, language, magic_args) = c;
    match language {
        Some(l) => if l == main {
            (source, keys_without(keys, "language"@), None, magic_args)
        } else if usual_name(l) == main {
            c
        } else if is_jupyter_lang(l) || custom_cell_magics.contains(l) {
            let magic = if main != "csharp"@ {
                "%%"@
            } else {
                "#!"@
            };
            let first = match magic_args {
                Some(a) => magic + l + " "@ + a,
                None => magic + l,
            };
            (first + "\n"@ + source, keys_without(keys_without(keys, "language"@), "magic_args"@), None, None)
        } else {
            c
        },
        None => c,
    }
}

/// Does the list of strings hold `s`?
fn holds_text(list: &[String], s: &str) -> (r: bool)
    ensures
        r == views(list@).contains(s@),
{
    let mut i: usize = 0;
    while i < list.len()
        invariant
            i <= list@.len(),
            forall|j: int| 0 <= j < i ==> views(list@)[j] != s@,
        decreases list.len() - i,
    {
        if str_eq(list[i].as_str(), s) {
            assert(views(list@)[i as int] == s@);
            return true;
        }
        i += 1;
    }
    false
}

/// The keys without `k`.
fn drop_key(keys: &Vec<String>, k: &str) -> (r: Vec<String>)
    ensures
        views(r@) == keys_without(views(keys@), k@),
{
    let ghost ks = views(keys@);
    let ghost f = |x: Seq<char>| x != k@;
    let mut r: Vec<String> = Vec::new();
    let mut i: usize = 0;
    while i < keys.len()
        invariant
            i <= keys@.len(),
            ks == views(keys@),
            f == (|x: Seq<char>| x != k@),
            views(r@) == ks.take(i as int).filter(f),
        decreases keys.len() - i,
    {
        proof {
            assert(ks.take(i + 1) =~= ks.take(i as int).push(ks[i as int]));
            ks.take(i as int).lemma_filter_push(ks[i as int], f);
        }
        if !str_eq(keys[i].as_str(), k) {
            r.push(keys[i].clone());
        }
        i += 1;
    }
    assert(ks.take(keys@.len() as int) =~= ks);
    r
}

/// A copy of the strings.
fn copy_strings(v: &Vec<String>) -> (r: Vec<String>)
    ensures
        views(r@) == views(v@),
{
    let mut r: Vec<String> = Vec::new();
    let mut i: usize = 0;
    while i < v.len()
        invariant
            i <= v@.len(),
            views(r@) == views(v@).take(i as int),
        decreases v.len() - i,
    {
        r.push(v[i].clone());
        assert(views(r@) =~= views(v@).take(i + 1));
        i += 1;
    }
    assert(views(v@).take(v@.len() as int) =~= views(v@));
    r
}

fn opt_copy(o: &Option<String>) -> (r: Option<String>)
    ensures
        opt_text(r) == opt_text(*o),
{
    match o {
        Some(s) => Some(owned(s.as_str())),
        None => None,
    }
}

/// The doubled weight of the language `l` among the cells.
fn score_of(cells: &Vec<LanguageCell>, l: &str) -> (r: u128)
    ensures
        r == language_score(cell_languages(cells@), l@),
{
    proof {
        reveal_strlit("python");
    }
    let ghost langs = cell_languages(cells@);
    let mut count: u128 = 0;
    let mut i: usize = 0;
    while i < cells.len()
        invariant
            i <= cells@.len(),
            langs == cell_languages(cells@),
            count == language_count(langs.take(i as int), l@),
            count <= i,
        decreases cells.len() - i,
    {
        assert(langs.take(i + 1).drop_last() =~= langs.take(i as int));
        assert(langs[i as int] == opt_text(cells@[i as int].language));
        match &cells[i].language {
            Some(x) => {
                let u = usual_language_name(x.as_str());
                if str_eq(u.as_str(), l) {
                    count = count + 1;
                }
            },
            None => {},
        }
        i += 1;
    }
    assert(langs.take(cells@.len() as int) =~= langs);
    2 * count + if str_eq(l, "python") {
        1
    } else {
        0
    }
}

/// A most common language of the cells.
fn most_common_of(cells: &Vec<LanguageCell>) -> (r: String)
    ensures
        most_common_language(cell_languages(cells@), r@),
{
    proof {
        reveal_strlit("python");
    }
    let ghost langs = cell_languages(cells@);
    let mut best = owned("python");
    let mut best_score = score_of(cells, "python");
    let ghost python_score = best_score;
    let mut i: usize = 0;
    while i < cells.len()
        invariant
            i <= cells@.len(),
            langs == cell_languages(cells@),
            best_score == language_score(langs, best@),
            python_score == language_score(langs, "python"@),
            python_score <= best_score,
            best@ == "python"@ || exists|k: int| 0 <= k < langs.len() && (#[trigger] langs[k]) is Some && usual_name(langs[k]->0) == best@,
            forall|j: int| 0 <= j < i && #[trigger] langs[j] is Some ==> language_score(langs, usual_name(langs[j]->0)) <= best_score,
        decreases cells.len() - i,
    {
        assert(langs[i as int] == opt_text(cells@[i as int].language));
        match &cells[i].language {
            Some(x) => {
                let u = usual_language_name(x.as_str());
                let sc = score_of(cells, u.as_str());
                if sc > best_score {
                    best = u;
                    best_score = sc;
                }
            },
            None => {},
        }
        i += 1;
    }
    best
}

/// Sets the main language of a notebook (recorded in its metadata when its kernel gives
/// none and it has cells), and writes the language of each cell in another language as a
/// cell magic.
pub fn set_main_and_cell_language(
    language: &mut crate::formats::NotebookLanguage,
    cells: &mut Vec<LanguageCell>,
    ext: &str,
    custom_cell_magics: &[String],
)
    ensures
        exists|main: Seq<char>| #[trigger] main_language_choice(*old(language), ext@, cell_languages(old(cells)@), main) && {
            &&& final(language).file_extension == old(language).file_extension
            &&& final(language).kernel_language == old(language).kernel_language
            &&& opt_text(final(language).main_language) == if old(language).kernel_language is None && old(cells)@.len() > 0 {
                Some(main)
            } else {
                opt_text(old(language).main_language)
            }
            &&& final(cells)@.len() == old(cells)@.len()
            &&& forall|i: int| 0 <= i < old(cells)@.len() ==> language_cell_view(#[trigger] final(cells)@[i]) == cell_with_main_language(
                language_cell_view(old(cells)@[i]),
                main,
                views(custom_cell_magics@),
            )
        },
{
    proof {
        reveal_strlit("language");
        reveal_strlit("magic_args");
        reveal_strlit("csharp");
        reveal_strlit("%%");
        reveal_strlit("#!");
        reveal_strlit(" ");
        reveal_strlit("\n");
    }
    let ghost langs = cell_languages(cells@);
    let main = match default_language_from_metadata_and_ext(language, ext, false) {
        Some(l) => l,
        None => most_common_of(cells),
    };
    assert(main_language_choice(*language, ext@, langs, main@));
    if language.kernel_language.is_none() && cells.len() > 0 {
        language.main_language = Some(owned(main.as_str()));
    }
    let ghost old_cells = cells@;
    let csharp = str_eq(main.as_str(), "csharp");
    let mut out: Vec<LanguageCell> = Vec::new();
    let mut i: usize = 0;
    while i < cells.len()
        invariant
            i <= cells@.len(),
            cells@ == old_cells,
            out@.len() == i,
            csharp == (main@ == "csharp"@),
            forall|j: int| 0 <= j < i ==> language_cell_view(#[trigger] out@[j]) == cell_with_main_language(
                language_cell_view(old_cells[j]),
                main@,
                views(custom_cell_magics@),
            ),
        decreases cells.len() - i,
    {
        let c = &cells[i];
        let ghost cv = language_cell_view(*c);
        let next = match &c.language {
            Some(l) => {
                if str_eq(l.as_str(), main.as_str()) {
                    LanguageCell {
                        source: owned(c.source.as_str()),
                        metadata_keys: drop_key(&c.metadata_keys, "language"),
                        language: None,
                        magic_args: opt_copy(&c.magic_args),
                    }
                } else if str_eq(usual_language_name(l.as_str()).as_str(), main.as_str()) {
                    LanguageCell {
                        source: owned(c.source.as_str()),
                        metadata_keys: copy_strings(&c.metadata_keys),
                        language: opt_copy(&c.language),
                        magic_args: opt_copy(&c.magic_args),
                    }
                } else if in_jupyter_languages(l.as_str()) || holds_text(custom_cell_magics, l.as_str()) {
                    let magic = if !csharp {
                        "%%"
                    } else {
                        "#!"
                    };
                    let first = match &c.magic_args {
                        Some(a) => concat(concat3(magic, l.as_str(), " ").as_str(), a.as_str()),
                        None => concat(magic, l.as_str()),
                    };
                    let source = concat3(first.as_str(), "\n", c.source.as_str());
                    let keys = drop_key(&c.metadata_keys, "language");
                    LanguageCell {
                        source,
                        metadata_keys: drop_key(&keys, "magic_args"),
                        language: None,
                        magic_args: None,
                    }
                } else {
                    LanguageCell {
                        source: owned(c.source.as_str()),
                        metadata_keys: copy_strings(&c.metadata_keys),
                        language: opt_copy(&c.language),
                        magic_args: opt_copy(&c.magic_args),
                    }
                }
            },
            None => LanguageCell {
                source: owned(c.source.as_str()),
                metadata_keys: copy_strings(&c.metadata_keys),
                language: None,
                magic_args: opt_copy(&c.magic_args),
            },
        };
        assert(language_cell_view(next) =~= cell_with_main_language(cv, main@, views(custom_cell_magics@)));
        out.push(next);
        i += 1;
    }
    *cells = out;
}

} // verus!

verus! {

proof fn lemma_ascii_lower(s: Seq<char>)
    requires
        crate::text::ascii_text(s),
    ensures
        crate::text::ascii_text(crate::text::lowercase(s)),
        crate::text::lowercase(crate::text::lowercase(s)) == crate::text::lowercase(s),
{
    let l = crate::text::lowercase(s);
    assert forall|i: int| 0 <= i < l.len() implies (#[trigger] l[i] as u32) < 128 by {
        assert((s[i] as u32) < 128);
    }
    assert(crate::text::lowercase(l) =~= l);
}

/// The usual name of a language is its own usual name, for a language name written in
/// ASCII.
pub proof fn usual_name_is_idempotent(language: Seq<char>)
    requires
        crate::text::ascii_text(language),
    ensures
        usual_name(usual_name(language)) == usual_name(language),
{
    reveal_strlit("R");
    reveal_strlit("r");
    reveal_strlit("c++");
    reveal_strlit("octave");
    reveal_strlit("matlab");
    reveal_strlit("cs");
    reveal_strlit("c#");
    reveal_strlit("csharp");
    reveal_strlit("fs");
    reveal_strlit("f#");
    reveal_strlit("fsharp");
    reveal_strlit("sas");
    reveal_strlit("SAS");
    lemma_ascii_lower(language);
    let lower = crate::text::lowercase(language);
    if lower == "r"@ {
        lemma_literal_lower("R"@, "r"@);
        assert(usual_name("R"@) == "R"@);
    } else if has_prefix(lower, "c++"@) {
        lemma_literal_lower("c++"@, "c++"@);
        assert("c++"@.subrange(0, 3) =~= "c++"@);
        assert(usual_name("c++"@) == "c++"@);
    } else if lower == "octave"@ {
        lemma_literal_lower("matlab"@, "matlab"@);
        assert(!has_prefix("matlab"@, "c++"@)) by {
            assert("matlab"@.subrange(0, 3)[0] != "c++"@[0]);
        }
        assert(usual_name("matlab"@) == "matlab"@);
    } else if lower == "cs"@ || lower == "c#"@ {
        lemma_literal_lower("csharp"@, "csharp"@);
        assert(!has_prefix("csharp"@, "c++"@)) by {
            assert("csharp"@.subrange(0, 3)[1] != "c++"@[1]);
        }
        assert(usual_name("csharp"@) == "csharp"@);
    } else if lower == "fs"@ || lower == "f#"@ {
        lemma_literal_lower("fsharp"@, "fsharp"@);
        assert(!has_prefix("fsharp"@, "c++"@)) by {
            assert("fsharp"@.subrange(0, 3)[0] != "c++"@[0]);
        }
        assert("fsharp"@ != "octave"@) by {
            assert("fsharp"@[0] != "octave"@[0]);
        }
        assert(usual_name("fsharp"@) == "fsharp"@);
    } else if lower == "sas"@ {
        lemma_literal_lower("SAS"@, "sas"@);
        assert(!has_prefix("sas"@, "c++"@)) by {
            assert("sas"@.subrange(0, 3)[0] != "c++"@[0]);
        }
        assert(usual_name("SAS"@) == "SAS"@);
    } else {
        assert(usual_name(language) == lower);
    }
}

/// The lower case of an ASCII literal.
proof fn lemma_literal_lower(s: Seq<char>, l: Seq<char>)
    requires
        s.len() == l.len(),
        forall|i: int| 0 <= i < s.len() ==> (#[trigger] s[i] as u32) < 128,
        forall|i: int| 0 <= i < s.len() ==> crate::text::ascii_lower_char(#[trigger] s[i]) == l[i],
    ensures
        crate::text::lowercase(s) == l,
{
    assert(crate::text::lowercase(s) =~= l);
}


/// Python is written with `#` comments, and `python` is its own usual name.
pub proof fn python_comment()
    ensures
        comment_for_lang("python"@) == Some("#"@),
        usual_name("python"@) == "python"@,
{
    reveal_strlit("python");
    reveal_strlit("#");
    reveal_strlit("R");
    reveal_strlit("r");
    reveal_strlit("c++");
    reveal_strlit("octave");
    reveal_strlit("cs");
    reveal_strlit("c#");
    reveal_strlit("fs");
    reveal_strlit("f#");
    reveal_strlit("sas");
    let f = |e: (Seq<char>, Seq<char>, Seq<char>, Seq<char>)| e.1 == "python"@;
    assert(f(script_table()[0]));
    crate::text::first_match_is(script_table(), f, 0);
    let p = "python"@;
    assert(p =~= seq!['p', 'y', 't', 'h', 'o', 'n']);
    lemma_literal_lower(p, p);
    assert(!has_prefix(p, "c++"@)) by {
        assert(p[0] != "c++"@[0]);
    }
}

} // verus!
