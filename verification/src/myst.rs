//! Line-level syntax of MyST markdown notebooks: block breaks and cell fences.

use vstd::prelude::*;
use crate::text::{
    rfind_char, trim_start, vec_rfind_char, chars_of, has_prefix, owned, starts_with, str_eq, string_of, trim, trim_end, trim_str,
};

verus! {

/// A MyST block break: `+++`, alone or followed by a space and metadata.
pub open spec fn is_block_break_spec(line: Seq<char>) -> bool {
    trim(line) == "+++"@ || has_prefix(trim(line), "+++ "@)
}

/// Is `line` a MyST block break (`+++` with optional metadata)?
pub fn is_block_break(line: &str) -> (r: bool)
    ensures
        r == is_block_break_spec(line@),
{
    let t = trim_str(line);
    str_eq(t.as_str(), "+++") || starts_with(t.as_str(), "+++ ")
}

/// The number of backticks that `s` starts with.
pub open spec fn leading_backticks(s: Seq<char>) -> nat
    decreases s.len(),
{
    if s.len() > 0 && s[0] == '`' {
        1 + leading_backticks(s.drop_first())
    } else {
        0
    }
}

/// The lexer named after a directive, if any.
pub open spec fn lexer_of(rest: Seq<char>) -> Option<Seq<char>> {
    if trim(rest).len() == 0 {
        None
    } else {
        Some(trim(rest))
    }
}

/// A fence that opens a MyST cell: at least three backticks, then `{code-cell}` or
/// `{raw-cell}` and an optional lexer; the fence, the directive and the lexer.
pub open spec fn fence_open(line: Seq<char>) -> Option<(Seq<char>, Seq<char>, Option<Seq<char>>)> {
    let t = trim(line);
    let n = leading_backticks(t);
    if n < 3 {
        None
    } else {
        let fence = t.subrange(0, n as int);
        let after = t.subrange(n as int, t.len() as int);
        if has_prefix(after, "{code-cell}"@) {
            Some((fence, "{code-cell}"@, lexer_of(after.subrange(11, after.len() as int))))
        } else if has_prefix(after, "{raw-cell}"@) {
            Some((fence, "{raw-cell}"@, lexer_of(after.subrange(10, after.len() as int))))
        } else {
            None
        }
    }
}

proof fn lemma_leading_backticks(s: Seq<char>)
    ensures
        leading_backticks(s) <= s.len(),
        forall|i: int| 0 <= i < leading_backticks(s) ==> s[i] == '`',
        leading_backticks(s) < s.len() ==> s[leading_backticks(s) as int] != '`',
    decreases s.len(),
{
    if s.len() > 0 && s[0] == '`' {
        lemma_leading_backticks(s.drop_first());
        assert forall|i: int| 0 <= i < leading_backticks(s) implies s[i] == '`' by {
            if i > 0 {
                assert(s.drop_first()[i - 1] == s[i]);
            }
        }
    }
}

/// The leading backticks of `s` are backticks, and the next character, if any, is not.
pub proof fn lemma_leading_backticks_pub(s: Seq<char>)
    ensures
        leading_backticks(s) <= s.len(),
        forall|i: int| 0 <= i < leading_backticks(s) ==> s[i] == '`',
        leading_backticks(s) < s.len() ==> s[leading_backticks(s) as int] != '`',
{
    lemma_leading_backticks(s);
}

fn lexer_from(v: &Vec<char>, from: usize) -> (r: Option<String>)
    requires
        from <= v@.len(),
    ensures
        match r {
            Some(x) => lexer_of(v@.subrange(from as int, v@.len() as int)) == Some(x@),
            None => lexer_of(v@.subrange(from as int, v@.len() as int)) is None,
        },
{
    let rest = string_of(v, from, v.len());
    let t = trim_str(rest.as_str());
    if t.unicode_len() == 0 {
        None
    } else {
        Some(t)
    }
}

/// Parses a fence that opens a MyST cell: the fence, the directive and the lexer.
pub fn parse_fence_open(line: &str) -> (r: Option<(String, &'static str, Option<String>)>)
    ensures
        match r {
            Some((f, d, l)) => fence_open(line@) == Some(
                (
                    f@,
                    d@,
                    match l {
                        Some(x) => Some(x@),
                        None => None,
                    },
                ),
            ),
            None => fence_open(line@) is None,
        },
{
    let t = trim_str(line);
    let v = chars_of(t.as_str());
    let len = v.len();
    let mut n: usize = 0;
    proof {
        lemma_leading_backticks(v@);
    }
    while n < len && v[n] == '`'
        invariant
            n <= len,
            len == v@.len(),
            n <= leading_backticks(v@),
            forall|i: int| 0 <= i < leading_backticks(v@) ==> v@[i] == '`',
            leading_backticks(v@) < v@.len() ==> v@[leading_backticks(v@) as int] != '`',
            leading_backticks(v@) <= v@.len(),
        decreases len - n,
    {
        n += 1;
    }
    assert(n == leading_backticks(v@));
    if n < 3 {
        return None;
    }
    let fence = string_of(&v, 0, n);
    let after = string_of(&v, n, len);
    let av = chars_of(after.as_str());
    proof {
        reveal_strlit("{code-cell}");
        reveal_strlit("{raw-cell}");
    }
    if starts_with(after.as_str(), "{code-cell}") {
        let lexer = lexer_from(&av, 11);
        Some((fence, "{code-cell}", lexer))
    } else if starts_with(after.as_str(), "{raw-cell}") {
        let lexer = lexer_from(&av, 10);
        Some((fence, "{raw-cell}", lexer))
    } else {
        None
    }
}

/// Is `line` the closing fence `fence`?
pub fn is_closing_fence(line: &str, fence: &str) -> (r: bool)
    ensures
        r == (trim(line@) == fence@),
{
    let t = trim_str(line);
    str_eq(t.as_str(), fence)
}

/// `s` without its leading blank lines: the whitespace before its first non-blank
/// character, up to the last newline in it.
pub open spec fn drop_leading_blank_lines(s: Seq<char>) -> Seq<char> {
    let k = s.len() - trim_start(s).len();
    match rfind_char(s.subrange(0, k), '\n') {
        Some(p) => s.subrange(p + 1, s.len() as int),
        None => s,
    }
}

/// Removes the leading and trailing blank lines of a text: trailing whitespace, then the
/// lines before the first non-blank one that hold only whitespace.
pub fn strip_blank_lines(text: &str) -> (r: String)
    ensures
        r@ == drop_leading_blank_lines(trim_end(text@)),
{
    let t = crate::text::trim_end_str(text);
    let v = chars_of(t.as_str());
    let len = v.len();
    let (k, _) = crate::text::trim_bounds(v.as_slice());
    proof {
        crate::text::trim_start_is_suffix(v@);
        assert(v@.len() - trim_start(v@).len() == k);
    }
    let head = string_of(&v, 0, k);
    let hv = chars_of(head.as_str());
    proof {
        crate::text::rfind_char_facts(hv@, '\n');
    }
    match vec_rfind_char(hv.as_slice(), '\n') {
        Some(p) => string_of(&v, p + 1, len),
        None => {
            assert(v@.subrange(0, len as int) =~= v@);
            string_of(&v, 0, len)
        },
    }
}

} // verus!
