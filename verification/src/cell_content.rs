//! The content of a script cell once its bounds are known: docstring cells of Python
//! scripts, commented magics and markdown, and escaped code start markers.

use vstd::prelude::*;
use crate::cell_metadata::{activity_active, is_active, CellActivity};
use crate::cell_reader::{uncomment, CellKind};
use crate::languages::uncommented;
use crate::magics::{
    code_start_run, magics_toggled, need_explicit_marker, needs_marker, uncomment_magic,
    unescape_code_start,
};
use crate::pattern::{compile_pattern, compiled_from, regex_hit, regex_replaced};
use crate::text::{
    chars_of, concat, ends_with, first_match, first_match_facts, has_prefix, has_suffix,
    join, join_strings, lines, lines_of, owned, starts_with, str_eq, string_of, trim, trim_str,
    views,
};

verus! {

broadcast use crate::text::views_push;

/// What the content step of a script reader reads and sets of its state: the extension,
/// the default language and the language of the cell, the comment-magics option, whether
/// the cell starts with an explicit marker, the kind of cell, whether the cell has
/// metadata, whether that has an `active` entry and what decides whether the cell is
/// active, and the `cell_marker` and `comment_questions` entries that the step sets.
pub struct ScriptCellState {
    pub ext: String,
    pub default_language: String,
    pub language: Option<String>,
    pub comment_magics: Option<bool>,
    pub explicit_soc: bool,
    pub cell_type: Option<CellKind>,
    pub has_metadata: bool,
    pub has_active_entry: bool,
    pub activity: CellActivity,
    pub cell_marker: Option<String>,
    pub comment_questions: Option<bool>,
}

/// The plain value of an optional string.
pub open spec fn opt_seq(o: Option<String>) -> Option<Seq<char>> {
    match o {
        Some(s) => Some(s@),
        None => None,
    }
}

/// The language of the cell: its own, else the default one.
pub open spec fn state_language(s: ScriptCellState) -> Seq<char> {
    match s.language {
        Some(l) => l@,
        None => s.default_language@,
    }
}

/// The kind of the cell, code when it is not known.
pub open spec fn state_kind(s: ScriptCellState) -> CellKind {
    match s.cell_type {
        Some(k) => k,
        None => CellKind::Code,
    }
}

/// The pattern of a Go `%%` command that the exporter escaped.
pub open spec fn gonb_pattern() -> Seq<char> {
    r"^((//\s*)*)(//\s*gonb:%%)"@
}

/// The lines after the magics step: magics uncommented in an active cell (and whether
/// the cell then needs `comment_questions`), or every line uncommented in an inactive one,
/// unless magics are not escaped or the cell is a spin markdown cell.
pub open spec fn magics_step(lines: Seq<Seq<char>>, s: ScriptCellState, comment: Seq<char>, markdown_prefix: Option<Seq<char>>) -> (Seq<Seq<char>>, bool) {
    let kind = state_kind(s);
    let lang = state_language(s);
    let escaped = match s.comment_magics {
        Some(b) => b,
        None => true,
    };
    if (kind == CellKind::Code || markdown_prefix != Some("#'"@)) && escaped {
        if activity_active(s.ext@, s.activity, true) {
            let u = magics_toggled(lines, lang, true, s.explicit_soc, false);
            (u, kind == CellKind::Code && !s.explicit_soc && needs_marker(u, lang, true))
        } else {
            (uncommented(lines, comment, Seq::empty()), false)
        }
    } else {
        (lines, false)
    }
}

/// A Go command escaped by the exporter, restored.
pub open spec fn gonb_restored(line: Seq<char>) -> Seq<char> {
    if regex_hit(gonb_pattern(), line) {
        regex_replaced(gonb_pattern(), line, "${1}%%"@)
    } else {
        line
    }
}

/// The lines with the Go commands restored, for a Go notebook and a cell without language.
pub open spec fn go_step(lines: Seq<Seq<char>>, s: ScriptCellState) -> Seq<Seq<char>> {
    if s.default_language@ == "go"@ && s.language is None {
        lines.map_values(|l: Seq<char>| gonb_restored(l))
    } else {
        lines
    }
}

/// The last step: code start markers unescaped in a code cell, every line uncommented in
/// another one.
pub open spec fn last_step(lines: Seq<Seq<char>>, s: ScriptCellState, comment: Seq<char>, suffix: Seq<char>, markdown_prefix: Option<Seq<char>>) -> Seq<Seq<char>> {
    if state_kind(s) == CellKind::Code {
        code_start_run(lines, lines.len() as int, s.ext@, state_language(s), false).0
    } else {
        uncommented(lines, markdown_prefix.unwrap_or(comment), suffix)
    }
}

/// The lines of a script cell with its magics, Go commands and code start markers as in
/// the notebook.
pub open spec fn uncommented_code(lines: Seq<Seq<char>>, s: ScriptCellState, comment: Seq<char>, suffix: Seq<char>, markdown_prefix: Option<Seq<char>>) -> Seq<Seq<char>> {
    last_step(go_step(magics_step(lines, s, comment, markdown_prefix).0, s), s, comment, suffix, markdown_prefix)
}

/// The state is the same, but for the entries that the content step sets.
pub open spec fn same_reader_state(a: ScriptCellState, b: ScriptCellState) -> bool {
    &&& a.ext == b.ext
    &&& a.default_language == b.default_language
    &&& a.language == b.language
    &&& a.comment_magics == b.comment_magics
    &&& a.explicit_soc == b.explicit_soc
    &&& a.cell_type == b.cell_type
    &&& a.has_active_entry == b.has_active_entry
    &&& a.activity == b.activity
}

fn opt_str(o: &Option<String>) -> (r: Option<&str>)
    ensures
        match r {
            Some(x) => opt_seq(*o) == Some(x@),
            None => o is None,
        },
{
    match o {
        Some(s) => Some(s.as_str()),
        None => None,
    }
}

/// Restores the Go commands that the exporter escaped.
fn restore_gonb(lines: &mut Vec<String>)
    ensures
        views(final(lines)@) == old(lines)@.map_values(|l: String| gonb_restored(l@)),
{
    let p = compile_pattern(r"^((//\s*)*)(//\s*gonb:%%)");
    let ghost orig = old(lines)@;
    let mut i: usize = 0;
    while i < lines.len()
        invariant
            i <= lines@.len(),
            lines@.len() == orig.len(),
            compiled_from(p, gonb_pattern()),
            forall|k: int| 0 <= k < i ==> (#[trigger] lines@[k])@ == gonb_restored(orig[k]@),
            forall|k: int| i <= k < lines@.len() ==> #[trigger] lines@[k] == orig[k],
        decreases lines.len() - i,
    {
        proof {
            reveal_strlit("${1}%%");
        }
        match &p {
            Some(q) => {
                if q.is_match(lines[i].as_str()) {
                    let replaced = q.replace(lines[i].as_str(), "${1}%%");
                    lines.set(i, replaced);
                }
            },
            None => {},
        }
        i += 1;
    }
    assert(views(lines@) =~= orig.map_values(|l: String| gonb_restored(l@)));
}

/// Uncomments the magics of a script cell, restores Go commands and unescapes code start
/// markers (or, in text cells, uncomments every line); a code cell whose magics then need
/// an explicit marker gets `comment_questions` set to false.
pub fn script_uncomment_code_and_magics(
    lines: &mut Vec<String>,
    state: &mut ScriptCellState,
    comment: &str,
    comment_suffix: &str,
    markdown_prefix: Option<&str>,
)
    ensures
        ({
            let mp = match markdown_prefix {
                Some(p) => Some(p@),
                None => None,
            };
            let step = magics_step(views(old(lines)@), *old(state), comment@, mp);
            &&& views(final(lines)@) == uncommented_code(views(old(lines)@), *old(state), comment@, comment_suffix@, mp)
            &&& same_reader_state(*final(state), *old(state))
            &&& final(state).cell_marker == old(state).cell_marker
            &&& if step.1 {
                final(state).has_metadata && final(state).comment_questions == Some(false)
            } else {
                final(state).has_metadata == old(state).has_metadata && final(state).comment_questions
                    == old(state).comment_questions
            }
        }),
{
    proof {
        reveal_strlit("#'");
        reveal_strlit("go");
        reveal_strlit("");
    }
    let ghost mp = match markdown_prefix {
        Some(p) => Some(p@),
        None => None::<Seq<char>>,
    };
    let ghost s0 = *state;
    let ghost l0 = views(lines@);
    let kind = match state.cell_type {
        Some(k) => k,
        None => CellKind::Code,
    };
    let code = match kind {
        CellKind::Code => true,
        _ => false,
    };
    let lang: String = match &state.language {
        Some(l) => owned(l.as_str()),
        None => owned(state.default_language.as_str()),
    };
    let spin_markdown = match markdown_prefix {
        Some(p) => str_eq(p, "#'"),
        None => false,
    };
    let escaped = match state.comment_magics {
        Some(b) => b,
        None => true,
    };
    if (code || !spin_markdown) && escaped {
        if is_active(state.ext.as_str(), &state.activity, true) {
            uncomment_magic(lines, lang.as_str(), true, state.explicit_soc);
            if code && !state.explicit_soc && need_explicit_marker(lines.as_slice(), lang.as_str(), true) {
                state.has_metadata = true;
                state.comment_questions = Some(false);
            }
        } else {
            let u = uncomment(lines.as_slice(), comment, "");
            *lines = u;
        }
    }
    assert(views(lines@) == magics_step(l0, s0, comment@, mp).0);
    let ghost l1 = views(lines@);
    if str_eq(state.default_language.as_str(), "go") && state.language.is_none() {
        restore_gonb(lines);
        assert(views(lines@) =~= l1.map_values(|l: Seq<char>| gonb_restored(l)));
    }
    assert(views(lines@) == go_step(l1, s0));
    if code {
        unescape_code_start(lines, state.ext.as_str(), lang.as_str());
    } else {
        let prefix = match markdown_prefix {
            Some(p) => p,
            None => comment,
        };
        let u = uncomment(lines.as_slice(), prefix, comment_suffix);
        *lines = u;
    }
}

/// Three double quotes.
pub open spec fn quotes_double() -> Seq<char> {
    seq!['"', '"', '"']
}

/// Three single quotes.
pub open spec fn quotes_single() -> Seq<char> {
    seq!['\'', '\'', '\'']
}

/// The sides of a Python docstring, in the order in which they are tried: `"""`, `'''`,
/// then the same with an `r` or an `R` prefix.
pub open spec fn docstring_candidates() -> Seq<(Seq<char>, Seq<char>)> {
    seq![
        (quotes_double(), quotes_double()),
        (quotes_single(), quotes_single()),
        (seq!['r'] + quotes_double(), quotes_double()),
        (seq!['r'] + quotes_single(), quotes_single()),
        (seq!['R'] + quotes_double(), quotes_double()),
        (seq!['R'] + quotes_single(), quotes_single()),
    ]
}

/// The text starts with the left side and ends with the right one, apart.
pub open spec fn encloses(t: Seq<char>, side: (Seq<char>, Seq<char>)) -> bool {
    has_prefix(t, side.0) && has_suffix(t, side.1) && t.len() >= side.0.len() + side.1.len()
}

/// The first docstring sides that enclose the text.
pub open spec fn docstring_sides(t: Seq<char>) -> Option<(Seq<char>, Seq<char>)> {
    match first_match(docstring_candidates(), |c: (Seq<char>, Seq<char>)| encloses(t, c)) {
        Some(i) => Some(docstring_candidates()[i]),
        None => None,
    }
}

/// The lines of a docstring cell and its cell marker, if it gets one: the text between the
/// sides, without a newline right after the left side or right before the right one. A
/// plain docstring gets its quotes as marker when both newlines are there; one with a
/// prefix gets its left side when only the newline before the right side is there, else
/// both sides (with their newlines) apart a comma.
pub open spec fn docstring_cell(t: Seq<char>, left: Seq<char>, right: Seq<char>) -> (Seq<Seq<char>>, Option<Seq<char>>) {
    let inner0 = t.subrange(left.len() as int, t.len() - right.len());
    let nl_start = inner0.len() > 0 && inner0[0] == '\n';
    let inner1 = if nl_start {
        inner0.drop_first()
    } else {
        inner0
    };
    let nl_end = inner1.len() > 0 && inner1.last() == '\n';
    let inner = if nl_end {
        inner1.drop_last()
    } else {
        inner1
    };
    let al = if nl_start {
        left + seq!['\n']
    } else {
        left
    };
    let ar = if nl_end {
        seq!['\n'] + right
    } else {
        right
    };
    let marker = if left.len() == 3 {
        if al.len() == ar.len() && al.len() == 4 {
            Some(left)
        } else {
            None
        }
    } else if al.len() == 4 && ar.len() == 4 {
        Some(left)
    } else {
        Some(al + seq![','] + ar)
    };
    (lines_of(inner), marker)
}

/// The cell is a docstring cell: an inactive cell of a Python script whose text is
/// enclosed in docstring quotes.
pub open spec fn is_docstring_cell(lines: Seq<Seq<char>>, s: ScriptCellState) -> bool {
    s.ext@ == ".py"@ && !activity_active(s.ext@, s.activity, s.cell_type == Some(CellKind::Code))
        && docstring_sides(trim(join(lines, "\n"@))) is Some
}

/// The cell is commented as a whole: it is inactive, or it has no `active` entry and a
/// language other than the default one.
pub open spec fn commented_cell(s: ScriptCellState) -> bool {
    !activity_active(s.ext@, s.activity, true) || (!s.has_active_entry && s.language is Some
        && s.language->0@ != s.default_language@)
}

/// The sides to try, in order.
fn docstring_candidate_list() -> (r: Vec<(String, String)>)
    ensures
        crate::format_map::pair_views(r@) == docstring_candidates(),
{
    proof {
        reveal_strlit("\"\"\"");
        reveal_strlit("'''");
        reveal_strlit("r\"\"\"");
        reveal_strlit("r'''");
        reveal_strlit("R\"\"\"");
        reveal_strlit("R'''");
    }
    let mut v: Vec<(String, String)> = Vec::new();
    v.push((owned("\"\"\""), owned("\"\"\"")));
    v.push((owned("'''"), owned("'''")));
    v.push((owned("r\"\"\""), owned("\"\"\"")));
    v.push((owned("r'''"), owned("'''")));
    v.push((owned("R\"\"\""), owned("\"\"\"")));
    v.push((owned("R'''"), owned("'''")));
    assert("\"\"\""@ =~= quotes_double());
    assert("'''"@ =~= quotes_single());
    assert("r\"\"\""@ =~= seq!['r'] + quotes_double());
    assert("r'''"@ =~= seq!['r'] + quotes_single());
    assert("R\"\"\""@ =~= seq!['R'] + quotes_double());
    assert("R'''"@ =~= seq!['R'] + quotes_single());
    assert(crate::format_map::pair_views(v@) =~= docstring_candidates());
    v
}

/// The lines and the marker of the docstring cell whose text `t` is enclosed in the sides.
fn docstring_cell_of(t: &str, left: &str, right: &str) -> (r: (Vec<String>, Option<String>))
    requires
        encloses(t@, (left@, right@)),
        left@.len() >= 3,
    ensures
        views(r.0@) == docstring_cell(t@, left@, right@).0,
        opt_seq(r.1) == docstring_cell(t@, left@, right@).1,
{
    let v = chars_of(t);
    let ll = crate::text::char_len(left);
    let rl = crate::text::char_len(right);
    let mut from = ll;
    let mut to = v.len() - rl;
    let nl_start = from < to && v[from] == '\n';
    if nl_start {
        from = from + 1;
    }
    let nl_end = from < to && v[to - 1] == '\n';
    if nl_end {
        to = to - 1;
    }
    let inner = string_of(&v, from, to);
    let ghost inner0 = t@.subrange(left@.len() as int, t@.len() - right@.len());
    let ghost inner1 = if nl_start { inner0.drop_first() } else { inner0 };
    proof {
        assert(v@.subrange(ll as int, (v@.len() - rl) as int) =~= inner0);
        if nl_start {
            assert(inner0[0] == v@[ll as int]);
        }
        assert(v@.subrange(from as int, (v@.len() - rl) as int) =~= inner1);
        if nl_end {
            assert(inner1.last() == v@[to as int]);
        } else if from < (v@.len() - rl) as usize {
            assert(inner1.last() == v@[(v@.len() - rl - 1) as int]);
        }
    }
    let al = if nl_start {
        concat(left, "\n")
    } else {
        owned(left)
    };
    let ar = if nl_end {
        concat("\n", right)
    } else {
        owned(right)
    };
    proof {
        reveal_strlit("\n");
        reveal_strlit(",");
    }
    let al_len = crate::text::char_len(al.as_str());
    let ar_len = crate::text::char_len(ar.as_str());
    let marker = if ll == 3 {
        if al_len == ar_len && al_len == 4 {
            Some(owned(left))
        } else {
            None
        }
    } else if al_len == 4 && ar_len == 4 {
        Some(owned(left))
    } else {
        Some(concat(concat(al.as_str(), ",").as_str(), ar.as_str()))
    };
    let ls = lines(inner.as_str());
    proof {
        let inner_spec = if nl_end { inner1.drop_last() } else { inner1 };
        assert(inner@ =~= inner_spec);
        assert(al@ =~= if nl_start { left@ + seq!['\n'] } else { left@ });
        assert(ar@ =~= if nl_end { seq!['\n'] + right@ } else { right@ });
    }
    (ls, marker)
}

/// The content of a script cell: a docstring cell becomes its text (with the cell marker
/// of its quotes); a commented cell is uncommented (with `#` in R scripts); else its magics,
/// Go commands and code start markers are restored.
pub fn script_extract_content(
    lines: Vec<String>,
    state: &mut ScriptCellState,
    comment: &str,
    comment_suffix: &str,
    markdown_prefix: Option<&str>,
) -> (r: Vec<String>)
    ensures
        ({
            let ls = views(lines@);
            let s = *old(state);
            let mp = match markdown_prefix {
                Some(p) => Some(p@),
                None => None,
            };
            &&& same_reader_state(*final(state), s)
            &&& if is_docstring_cell(ls, s) {
                let t = trim(join(ls, "\n"@));
                let sides = docstring_sides(t)->0;
                let cell = docstring_cell(t, sides.0, sides.1);
                &&& views(r@) == cell.0
                &&& final(state).has_metadata
                &&& opt_seq(final(state).cell_marker) == match cell.1 {
                    Some(m) => Some(m),
                    None => opt_seq(s.cell_marker),
                }
                &&& final(state).comment_questions == s.comment_questions
            } else if commented_cell(s) {
                &&& views(r@) == uncommented(ls, if s.ext@ == ".r"@ || s.ext@ == ".R"@ {
                    "#"@
                } else {
                    comment@
                }, Seq::empty())
                &&& final(state).has_metadata == s.has_metadata
                &&& final(state).cell_marker == s.cell_marker
                &&& final(state).comment_questions == s.comment_questions
            } else {
                let step = magics_step(ls, s, comment@, mp);
                &&& views(r@) == uncommented_code(ls, s, comment@, comment_suffix@, mp)
                &&& final(state).cell_marker == s.cell_marker
                &&& if step.1 {
                    final(state).has_metadata && final(state).comment_questions == Some(false)
                } else {
                    final(state).has_metadata == s.has_metadata && final(state).comment_questions == s.comment_questions
                }
            }
        }),
{
    proof {
        reveal_strlit(".py");
        reveal_strlit(".r");
        reveal_strlit(".R");
        reveal_strlit("#");
        reveal_strlit("\n");
        reveal_strlit("");
    }
    let code = match state.cell_type {
        Some(CellKind::Code) => true,
        _ => false,
    };
    if str_eq(state.ext.as_str(), ".py") && !is_active(state.ext.as_str(), &state.activity, code) {
        let joined = join_strings(lines.as_slice(), "\n");
        let t = trim_str(joined.as_str());
        let cands = docstring_candidate_list();
        let ghost f = |c: (Seq<char>, Seq<char>)| encloses(t@, c);
        let ghost s0 = *state;
        let mut i: usize = 0;
        while i < cands.len()
            invariant
                i <= cands@.len(),
                *state == s0,
                s0 == *old(state),
                s0.ext@ == ".py"@,
                !activity_active(s0.ext@, s0.activity, s0.cell_type == Some(CellKind::Code)),
                t@ == trim(join(views(lines@), "\n"@)),
                crate::format_map::pair_views(cands@) == docstring_candidates(),
                f == (|c: (Seq<char>, Seq<char>)| encloses(t@, c)),
                forall|j: int| 0 <= j < i ==> !f(#[trigger] docstring_candidates()[j]),
            decreases cands.len() - i,
        {
            let left = cands[i].0.as_str();
            let right = cands[i].1.as_str();
            assert((left@, right@) == docstring_candidates()[i as int]);
            if starts_with(t.as_str(), left) && ends_with(t.as_str(), right)
                && crate::text::char_len(t.as_str()) >= crate::text::char_len(left)
                && crate::text::char_len(t.as_str()) - crate::text::char_len(left) >= crate::text::char_len(right) {
                proof {
                    crate::text::first_match_is(docstring_candidates(), f, i as int);
                    assert(left@.len() >= 3);
                }
                let (content, marker) = docstring_cell_of(t.as_str(), left, right);
                state.has_metadata = true;
                match marker {
                    Some(m) => {
                        state.cell_marker = Some(m);
                    },
                    None => {},
                }
                return content;
            }
            i += 1;
        }
        proof {
            crate::text::first_match_none(docstring_candidates(), f);
        }
    }
    let r_script = str_eq(state.ext.as_str(), ".r") || str_eq(state.ext.as_str(), ".R");
    let other_language = !state.has_active_entry && match &state.language {
        Some(l) => !str_eq(l.as_str(), state.default_language.as_str()),
        None => false,
    };
    if !is_active(state.ext.as_str(), &state.activity, true) || other_language {
        let prefix = if r_script {
            "#"
        } else {
            comment
        };
        return uncomment(lines.as_slice(), prefix, "");
    }
    let mut result = lines;
    script_uncomment_code_and_magics(&mut result, state, comment, comment_suffix, markdown_prefix);
    result
}

} // verus!
