//! PEP8 blank line calculation between cells.

use vstd::prelude::*;
use crate::string_parser::{initial_model, model_quoted, next_model, ParserModel, StringParser};
use crate::text::{all_ws, has_prefix, is_blank, starts_with, starts_with_char, str_eq, views};

verus! {

/// The line starts a function or class definition.
pub open spec fn is_def_line(line: Seq<char>) -> bool {
    has_prefix(line, "def "@) || has_prefix(line, "async "@) || has_prefix(line, "class "@)
}

/// The line starts with a character that can precede a definition.
pub open spec fn first_char_in(line: Seq<char>, cs: Seq<char>) -> bool {
    line.len() > 0 && cs.contains(line[0])
}

/// From line `i` on, with the parser in state `m`: is the first instruction a definition?
pub open spec fn next_is_def_from(lines: Seq<Seq<char>>, i: int, m: ParserModel) -> bool
    decreases lines.len() - i,
{
    if i < 0 || i >= lines.len() {
        false
    } else {
        let line = lines[i];
        let m2 = next_model(m, line);
        if model_quoted(m) {
            next_is_def_from(lines, i + 1, m2)
        } else if all_ws(line) {
            if i > 0 && all_ws(lines[i - 1]) {
                false
            } else {
                next_is_def_from(lines, i + 1, m2)
            }
        } else if is_def_line(line) {
            true
        } else if first_char_in(line, seq!['#', '@', ' ', ')']) {
            next_is_def_from(lines, i + 1, m2)
        } else {
            false
        }
    }
}

/// Is the first non-empty, non-commented line a function or class definition?
pub open spec fn next_is_def(lines: Seq<Seq<char>>) -> bool {
    next_is_def_from(lines, 0, initial_model("python"@))
}

/// Parser state before line `i`.
pub open spec fn state_before(lines: Seq<Seq<char>>, i: int) -> ParserModel
    decreases i,
{
    if i <= 0 {
        initial_model("python"@)
    } else {
        next_model(state_before(lines, i - 1), lines[i - 1])
    }
}

/// The lines that do not start inside a quoted string, in order.
pub open spec fn non_quoted_lines(lines: Seq<Seq<char>>, n: int) -> Seq<Seq<char>>
    decreases n,
{
    if n <= 0 {
        Seq::empty()
    } else if !model_quoted(state_before(lines, n - 1)) {
        non_quoted_lines(lines, n - 1).push(lines[n - 1])
    } else {
        non_quoted_lines(lines, n - 1)
    }
}

/// Scanning `rev` (lines in reverse order) from position `i`: does the cell end with a definition?
pub open spec fn ends_with_def_from(rev: Seq<Seq<char>>, i: int) -> bool
    decreases rev.len() - i,
{
    if i < 0 || i >= rev.len() {
        false
    } else if all_ws(rev[i]) {
        if i > 0 && all_ws(rev[i - 1]) {
            false
        } else {
            ends_with_def_from(rev, i + 1)
        }
    } else if first_char_in(rev[i], seq!['#', ' ', ')']) {
        ends_with_def_from(rev, i + 1)
    } else {
        is_def_line(rev[i])
    }
}

/// Does the cell end with a function or class (indented code)?
pub open spec fn ends_with_def(lines: Seq<Seq<char>>) -> bool {
    ends_with_def_from(non_quoted_lines(lines, lines.len() as int).reverse(), 0)
}

/// Is the last line of the cell a line with code?
pub open spec fn ends_with_code(lines: Seq<Seq<char>>) -> bool {
    lines.len() > 0 && !all_ws(lines.last()) && !first_char_in(lines.last(), seq!['#'])
}

/// Scanning from line `i`: does the cell have code?
pub open spec fn has_code_from(lines: Seq<Seq<char>>, i: int) -> bool
    decreases lines.len() - i,
{
    if i < 0 || i >= lines.len() {
        false
    } else if crate::text::has_prefix(crate::text::trim(lines[i]), "#"@) {
        has_code_from(lines, i + 1)
    } else if all_ws(lines[i]) {
        if i > 0 && all_ws(lines[i - 1]) {
            false
        } else {
            has_code_from(lines, i + 1)
        }
    } else {
        true
    }
}

/// Number of blank lines between two cells that PEP8 asks for.
pub open spec fn pep8_lines(prev: Seq<Seq<char>>, next: Seq<Seq<char>>, ext: Seq<char>) -> int {
    if next.len() == 0 {
        1
    } else if prev.len() == 0 {
        0
    } else if ext != ".py"@ {
        1
    } else if ends_with_def(prev) {
        if has_code_from(next, 0) {
            2
        } else {
            1
        }
    } else if ends_with_code(prev) && next_is_def(next) {
        2
    } else {
        1
    }
}

fn is_def_line_exec(line: &str) -> (r: bool)
    ensures
        r == is_def_line(line@),
{
    starts_with(line, "def ") || starts_with(line, "async ") || starts_with(line, "class ")
}

fn first_char_is_one_of(line: &str, a: char, b: char, c: char, d: char) -> (r: bool)
    ensures
        r == (line@.len() > 0 && (line@[0] == a || line@[0] == b || line@[0] == c || line@[0]
            == d)),
{
    starts_with_char(line, a) || starts_with_char(line, b) || starts_with_char(line, c)
        || starts_with_char(line, d)
}

/// Is the first non-empty, non-commented line a function or class definition?
fn next_instruction_is_function_or_class(lines: &[String]) -> (r: bool)
    ensures
        r == next_is_def(views(lines@)),
{
    let ghost ls = views(lines@);
    let mut parser = StringParser::new("python");
    let mut i: usize = 0;
    while i < lines.len()
        invariant
            ls == views(lines@),
            i <= lines@.len(),
            next_is_def(ls) == next_is_def_from(ls, i as int, parser@),
        decreases lines.len() - i,
    {
        let line = lines[i].as_str();
        assert(line@ == ls[i as int]);
        if parser.is_quoted() {
            parser.read_line(line);
            i += 1;
            continue;
        }
        parser.read_line(line);
        if is_blank(line) {
            if i > 0 && is_blank(lines[i - 1].as_str()) {
                return false;
            }
            i += 1;
            continue;
        }
        if is_def_line_exec(line) {
            return true;
        }
        if first_char_is_one_of(line, '#', '@', ' ', ')') {
            assert(first_char_in(line@, seq!['#', '@', ' ', ')']) ) by {
                assert(seq!['#', '@', ' ', ')'].contains(line@[0]) == (line@[0] == '#' || line@[0] == '@' || line@[0] == ' ' || line@[0] == ')')) by {
                    if line@[0] == '#' { assert(seq!['#', '@', ' ', ')'][0] == '#'); }
                    if line@[0] == '@' { assert(seq!['#', '@', ' ', ')'][1] == '@'); }
                    if line@[0] == ' ' { assert(seq!['#', '@', ' ', ')'][2] == ' '); }
                    if line@[0] == ')' { assert(seq!['#', '@', ' ', ')'][3] == ')'); }
                }
            }
            i += 1;
            continue;
        }
        assert(!first_char_in(line@, seq!['#', '@', ' ', ')']));
        return false;
    }
    false
}


/// Does the cell end with a function or class (indented code)?
fn cell_ends_with_function_or_class(lines: &[String]) -> (r: bool)
    ensures
        r == ends_with_def(views(lines@)),
{
    let ghost ls = views(lines@);
    let mut non_quoted: Vec<String> = Vec::new();
    let mut parser = StringParser::new("python");
    let mut i: usize = 0;
    while i < lines.len()
        invariant
            ls == views(lines@),
            i <= lines@.len(),
            parser@ == state_before(ls, i as int),
            views(non_quoted@) == non_quoted_lines(ls, i as int),
        decreases lines.len() - i,
    {
        assert(lines@[i as int]@ == ls[i as int]);
        if !parser.is_quoted() {
            non_quoted.push(lines[i].clone());
        }
        parser.read_line(lines[i].as_str());
        i += 1;
    }
    let ghost nq = views(non_quoted@);
    let ghost rev = nq.reverse();
    assert(ls.len() == lines@.len());
    assert(ends_with_def(ls) == ends_with_def_from(rev, 0));
    let n = non_quoted.len();
    let mut k: usize = 0;
    while k < n
        invariant
            n == non_quoted@.len(),
            nq == views(non_quoted@),
            rev == nq.reverse(),
            k <= n,
            ls == views(lines@),
            ends_with_def(ls) == ends_with_def_from(rev, k as int),
        decreases n - k,
    {
        let line = non_quoted[n - 1 - k].as_str();
        assert(line@ == rev[k as int]);
        if is_blank(line) {
            if k > 0 && is_blank(non_quoted[n - k].as_str()) {
                assert(non_quoted@[n - k]@ == rev[k - 1]);
                return false;
            }
            k += 1;
            continue;
        }
        if first_char_is_one_of(line, '#', ' ', ')', ')') {
            assert(first_char_in(line@, seq!['#', ' ', ')'])) by {
                if line@[0] == '#' { assert(seq!['#', ' ', ')'][0] == '#'); }
                if line@[0] == ' ' { assert(seq!['#', ' ', ')'][1] == ' '); }
                if line@[0] == ')' { assert(seq!['#', ' ', ')'][2] == ')'); }
            }
            k += 1;
            continue;
        }
        assert(!first_char_in(line@, seq!['#', ' ', ')']));
        return is_def_line_exec(line);
    }
    false
}

/// Is the last line of the cell a line with code?
fn cell_ends_with_code(lines: &[String]) -> (r: bool)
    ensures
        r == ends_with_code(views(lines@)),
{
    if lines.len() == 0 {
        return false;
    }
    let last = lines[lines.len() - 1].as_str();
    assert(last@ == views(lines@).last());
    if is_blank(last) {
        return false;
    }
    if starts_with_char(last, '#') {
        assert(first_char_in(last@, seq!['#'])) by {
            assert(seq!['#'][0] == '#');
        }
        return false;
    }
    assert(!first_char_in(last@, seq!['#']));
    true
}

/// Does the cell have any code?
fn cell_has_code(lines: &[String]) -> (r: bool)
    ensures
        r == has_code_from(views(lines@), 0),
{
    let ghost ls = views(lines@);
    let mut i: usize = 0;
    while i < lines.len()
        invariant
            ls == views(lines@),
            i <= lines@.len(),
            has_code_from(ls, 0) == has_code_from(ls, i as int),
        decreases lines.len() - i,
    {
        let line = lines[i].as_str();
        assert(line@ == ls[i as int]);
        let stripped = crate::text::trim_str(line);
        if starts_with(stripped.as_str(), "#") {
            i += 1;
            continue;
        }
        if is_blank(line) {
            if i > 0 && is_blank(lines[i - 1].as_str()) {
                return false;
            }
            i += 1;
            continue;
        }
        return true;
    }
    false
}

/// How many blank lines between two cells for PEP8 compliance?
pub fn pep8_lines_between_cells(prev_lines: &[String], next_lines: &[String], ext: &str) -> (r:
    usize)
    ensures
        r == pep8_lines(views(prev_lines@), views(next_lines@), ext@),
{
    if next_lines.len() == 0 {
        return 1;
    }
    if prev_lines.len() == 0 {
        return 0;
    }
    if !str_eq(ext, ".py") {
        return 1;
    }
    if cell_ends_with_function_or_class(prev_lines) {
        return if cell_has_code(next_lines) {
            2
        } else {
            1
        };
    }
    if cell_ends_with_code(prev_lines) && next_instruction_is_function_or_class(next_lines) {
        return 2;
    }
    1
}


/// A line that starts with a character other than whitespace starts so once trimmed.
proof fn lemma_trim_keeps_head(s: Seq<char>)
    requires
        s.len() > 0,
        !crate::text::is_ws(s[0]),
    ensures
        crate::text::trim_start(s) == s,
        crate::text::trim(s).len() > 0,
        crate::text::trim(s)[0] == s[0],
    decreases s.len(),
{
    lemma_trim_end_head(s);
}

proof fn lemma_trim_end_head(s: Seq<char>)
    requires
        s.len() > 0,
        !crate::text::is_ws(s[0]),
    ensures
        crate::text::trim_end(s).len() > 0,
        crate::text::trim_end(s)[0] == s[0],
    decreases s.len(),
{
    if s.len() > 1 && crate::text::is_ws(s.last()) {
        lemma_trim_end_head(s.drop_last());
    }
}

/// A comment line, or a definition line, is not blank.
proof fn lemma_not_blank(line: Seq<char>)
    requires
        line.len() > 0,
        !crate::text::is_ws(line[0]),
    ensures
        !all_ws(line),
{
}

/// From the `k`-th line on, comment lines then a definition line: the next instruction is
/// that definition, and the comments leave the parser where it was.
proof fn lemma_comments_then_def(cs: Seq<Seq<char>>, d: Seq<char>, rest: Seq<Seq<char>>, k: int)
    requires
        0 <= k <= cs.len(),
        forall|i: int| 0 <= i < cs.len() ==> (#[trigger] cs[i]).len() > 0 && cs[i][0] == '#',
        is_def_line(d),
    ensures
        next_is_def_from(cs + seq![d] + rest, k, initial_model("python"@)),
        has_code_from(cs + seq![d] + rest, k),
    decreases cs.len() - k,
{
    reveal_strlit("#");
    reveal_strlit("def ");
    reveal_strlit("async ");
    reveal_strlit("class ");
    crate::languages::python_comment();
    let l = cs + seq![d] + rest;
    let m0 = initial_model("python"@);
    assert(!model_quoted(m0));
    if k < cs.len() {
        let c = cs[k];
        assert(l[k] == c);
        lemma_trim_keeps_head(c);
        lemma_not_blank(c);
        assert(!is_def_line(c)) by {
            if has_prefix(c, "def "@) { assert(c[0] == "def "@[0]); }
            if has_prefix(c, "async "@) { assert(c[0] == "async "@[0]); }
            if has_prefix(c, "class "@) { assert(c[0] == "class "@[0]); }
        }
        assert(seq!['#', '@', ' ', ')'][0] == '#');
        assert(first_char_in(c, seq!['#', '@', ' ', ')']));
        assert(has_prefix(crate::text::trim_start(c), "#"@)) by {
            assert(c.subrange(0, 1) =~= "#"@);
        }
        assert(next_model(m0, c) == m0);
        assert(has_prefix(crate::text::trim(c), "#"@)) by {
            assert(crate::text::trim(c).subrange(0, 1) =~= "#"@);
        }
        lemma_comments_then_def(cs, d, rest, k + 1);
    } else {
        assert(l[k] == d);
        assert(d.len() > 0 && (d[0] == 'd' || d[0] == 'a' || d[0] == 'c')) by {
            if has_prefix(d, "def "@) { assert(d[0] == "def "@[0]); }
            else if has_prefix(d, "async "@) { assert(d[0] == "async "@[0]); }
            else { assert(d[0] == "class "@[0]); }
        }
        lemma_trim_keeps_head(d);
        lemma_not_blank(d);
        assert(!has_prefix(crate::text::trim(d), "#"@)) by {
            if has_prefix(crate::text::trim(d), "#"@) {
                assert(crate::text::trim(d)[0] == "#"@[0]);
            }
        }
    }
}

/// Comment lines before a definition do not hide it: between a cell that ends with code
/// and a cell made of comment lines, then a `def`, `async` or `class` line, then anything,
/// a Python script has two blank lines.
pub proof fn comments_do_not_hide_a_definition(prev: Seq<Seq<char>>, cs: Seq<Seq<char>>, d: Seq<char>, rest: Seq<Seq<char>>)
    requires
        ends_with_code(prev),
        forall|i: int| 0 <= i < cs.len() ==> (#[trigger] cs[i]).len() > 0 && cs[i][0] == '#',
        is_def_line(d),
    ensures
        pep8_lines(prev, cs + seq![d] + rest, ".py"@) == 2,
{
    lemma_comments_then_def(cs, d, rest, 0);
    assert((cs + seq![d] + rest).len() > 0);
}

} // verus!
