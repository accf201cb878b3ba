//! Helpers of the cell exporters: code fences long enough for the source, and the cells
//! whose markdown needs protection.

use vstd::prelude::*;
use crate::myst::leading_backticks;
use crate::notebook::CellType;
use crate::pattern::{compile_pattern, compiled_from, escape, pattern_hit, regex_escape, regex_hit};
use crate::text::{
    chars_of, concat3, ends_with_char, has_prefix, lines, lines_of, push_char, starts_with, views,
};

verus! {

/// `n` backticks.
pub open spec fn backticks(n: nat) -> Seq<char> {
    Seq::new(n, |i: int| '`')
}

/// The length of the code fence after the first `n` lines: three backticks, one more than
/// the backticks that start a line that starts with the fence so far.
pub open spec fn fence_length(lines: Seq<Seq<char>>, n: int) -> nat
    decreases n,
{
    if n <= 0 {
        3
    } else {
        let k = fence_length(lines, n - 1);
        let l = lines[n - 1];
        if has_prefix(l, backticks(k)) {
            leading_backticks(l) + 1
        } else {
            k
        }
    }
}

proof fn lemma_leading_after_prefix(l: Seq<char>, k: nat)
    requires
        has_prefix(l, backticks(k)),
    ensures
        leading_backticks(l) == k + leading_backticks(l.subrange(k as int, l.len() as int)),
    decreases k,
{
    if k > 0 {
        assert(l[0] == backticks(k)[0]);
        assert(has_prefix(l.drop_first(), backticks((k - 1) as nat))) by {
            assert forall|x: int| 0 <= x < k - 1 implies #[trigger] l.drop_first().subrange(0, k - 1)[x]
                == backticks((k - 1) as nat)[x] by {
                assert(l.subrange(0, k as int)[x + 1] == backticks(k)[x + 1]);
            }
            assert(l.drop_first().subrange(0, k - 1) =~= backticks((k - 1) as nat));
        }
        lemma_leading_after_prefix(l.drop_first(), (k - 1) as nat);
        assert(l.drop_first().subrange(k - 1, l.drop_first().len() as int) =~= l.subrange(
            k as int,
            l.len() as int,
        ));
    } else {
        assert(l.subrange(0, l.len() as int) =~= l);
    }
}

/// A string of enough backticks to fence the given lines as a markdown code block.
pub fn three_backticks_or_more(lines: &[String]) -> (r: String)
    ensures
        r@ == backticks(fence_length(views(lines@), lines@.len() as int)),
{
    let ghost ls = views(lines@);
    let mut d = String::new();
    push_char(&mut d, '`');
    push_char(&mut d, '`');
    push_char(&mut d, '`');
    assert(d@ =~= backticks(3));
    let mut i: usize = 0;
    while i < lines.len()
        invariant
            i <= lines@.len(),
            ls == views(lines@),
            d@ == backticks(fence_length(ls, i as int)),
        decreases lines.len() - i,
    {
        let line = lines[i].as_str();
        assert(line@ == ls[i as int]);
        if starts_with(line, d.as_str()) {
            let v = chars_of(line);
            let k = d.unicode_len();
            let ghost k0 = k as nat;
            proof {
                lemma_leading_after_prefix(line@, k0);
            }
            let mut j: usize = k;
            let ghost tail = v@.subrange(k as int, v@.len() as int);
            proof {
                crate::myst::lemma_leading_backticks_pub(tail);
            }
            while j < v.len() && v[j] == '`'
                invariant
                    k <= j <= v@.len(),
                    tail == v@.subrange(k as int, v@.len() as int),
                    j - k <= leading_backticks(tail),
                    forall|x: int| 0 <= x < leading_backticks(tail) ==> tail[x] == '`',
                    leading_backticks(tail) < tail.len() ==> tail[leading_backticks(tail) as int]
                        != '`',
                    leading_backticks(tail) <= tail.len(),
                    d@ == backticks((j - k + k0) as nat),
                decreases v.len() - j,
            {
                assert(tail[j - k] == v@[j as int]);
                push_char(&mut d, '`');
                assert(d@ =~= backticks((j + 1 - k + k0) as nat));
                j += 1;
            }
            proof {
                if j < v@.len() {
                    assert(tail[j - k] == v@[j as int]);
                    assert(tail[j - k] != '`');
                    if j - k < leading_backticks(tail) {
                        assert(tail[j - k] == '`');
                    }
                }
            }
            assert(j - k == leading_backticks(tail));
            push_char(&mut d, '`');
            assert(d@ =~= backticks(leading_backticks(line@) + 1));
        }
        i += 1;
    }
    d
}

/// A markdown cell with a line that opens a code fence or an HTML comment.
pub open spec fn needs_protection(source: Seq<Seq<char>>, cell_type: CellType) -> bool {
    cell_type == CellType::Markdown && exists|i: int|
        0 <= i < source.len() && (has_prefix(#[trigger] source[i], "```"@) || has_prefix(
            source[i],
            "<!-- #"@,
        ))
}

/// Does a markdown cell's source hold lines that would be read as code fences or
/// cell markers?
pub fn source_needs_protection(source: &[String], cell_type: &CellType) -> (r: bool)
    ensures
        r == needs_protection(views(source@), *cell_type),
{
    match cell_type {
        CellType::Markdown => {},
        _ => {
            return false;
        },
    }
    let ghost ls = views(source@);
    let mut i: usize = 0;
    while i < source.len()
        invariant
            i <= source@.len(),
            ls == views(source@),
            *cell_type == CellType::Markdown,
            forall|j: int| 0 <= j < i ==> !(has_prefix(#[trigger] ls[j], "```"@) || has_prefix(
                ls[j],
                "<!-- #"@,
            )),
        decreases source.len() - i,
    {
        let line = source[i].as_str();
        assert(line@ == ls[i as int]);
        if starts_with(line, "```") || starts_with(line, "<!-- #") {
            assert(has_prefix(ls[i as int], "```"@) || has_prefix(ls[i as int], "<!-- #"@));
            return true;
        }
        i += 1;
    }
    false
}

} // verus!

verus! {

proof fn lemma_prefix_of_leading(l: Seq<char>, k: nat)
    requires
        k <= leading_backticks(l),
    ensures
        has_prefix(l, backticks(k)),
{
    crate::myst::lemma_leading_backticks_pub(l);
    assert(l.subrange(0, k as int) =~= backticks(k));
}

proof fn lemma_fence_above_leading(lines: Seq<Seq<char>>, n: int)
    requires
        0 <= n <= lines.len(),
    ensures
        fence_length(lines, n) >= 3,
        forall|j: int| 0 <= j < n ==> fence_length(lines, n) > leading_backticks(#[trigger] lines[j]),
    decreases n,
{
    if n > 0 {
        lemma_fence_above_leading(lines, n - 1);
        let k = fence_length(lines, n - 1);
        let l = lines[n - 1];
        if has_prefix(l, backticks(k)) {
            lemma_leading_after_prefix(l, k);
        } else {
            if k <= leading_backticks(l) {
                lemma_prefix_of_leading(l, k);
            }
        }
    }
}

/// The fence that `three_backticks_or_more` returns is at least three backticks long, and
/// no line starts with it: it can fence the lines as a markdown code block.
pub proof fn fence_is_safe(lines: Seq<Seq<char>>)
    ensures
        fence_length(lines, lines.len() as int) >= 3,
        forall|i: int|
            0 <= i < lines.len() ==> !has_prefix(
                #[trigger] lines[i],
                backticks(fence_length(lines, lines.len() as int)),
            ),
{
    let n = lines.len() as int;
    lemma_fence_above_leading(lines, n);
    assert forall|i: int| 0 <= i < lines.len() implies !has_prefix(
        #[trigger] lines[i],
        backticks(fence_length(lines, n)),
    ) by {
        if has_prefix(lines[i], backticks(fence_length(lines, n))) {
            lemma_leading_after_prefix(lines[i], fence_length(lines, n));
        }
    }
}


/// `n` dashes.
pub open spec fn dashes(n: nat) -> Seq<char> {
    Seq::new(n, |i: int| '-')
}

/// The pattern of an end-of-cell marker `marker` after the comment `comment`.
pub open spec fn eoc_line_pattern(comment: Seq<char>, marker: Seq<char>) -> Seq<char> {
    "^"@ + regex_escape(comment) + r"\s+"@ + regex_escape(marker) + r"\s*$"@
}

/// Some line of the source is the end-of-cell marker of `n` dashes.
pub open spec fn marker_taken(source: Seq<Seq<char>>, comment: Seq<char>, n: nat) -> bool {
    exists|i: int| 0 <= i < source.len() && regex_hit(eoc_line_pattern(comment, dashes(n)), #[trigger] source[i])
}

/// The number of dashes of the first end-of-cell marker from `n` dashes on that no line of
/// the source is, looking at `fuel` more markers at most.
pub open spec fn free_marker_length(source: Seq<Seq<char>>, comment: Seq<char>, n: nat, fuel: nat) -> nat
    decreases fuel,
{
    if fuel > 0 && marker_taken(source, comment, n) {
        free_marker_length(source, comment, n + 1, (fuel - 1) as nat)
    } else {
        n
    }
}

/// The total number of characters of the lines.
pub open spec fn total_chars(source: Seq<Seq<char>>) -> nat
    decreases source.len(),
{
    if source.len() == 0 {
        0
    } else {
        total_chars(source.drop_last()) + source.last().len()
    }
}

/// Is some line of the source the end-of-cell marker `marker`?
fn some_line_matches(source: &[String], pattern: &str) -> (r: bool)
    ensures
        r == exists|i: int| 0 <= i < source@.len() && regex_hit(pattern@, #[trigger] views(source@)[i]),
{
    let ghost ls = views(source@);
    let re = compile_pattern(pattern);
    let mut i: usize = 0;
    while i < source.len()
        invariant
            i <= source@.len(),
            ls == views(source@),
            compiled_from(re, pattern@),
            forall|j: int| 0 <= j < i ==> !regex_hit(pattern@, #[trigger] ls[j]),
        decreases source.len() - i,
    {
        assert(source@[i as int]@ == ls[i as int]);
        if pattern_hit(&re, Ghost(pattern@), source[i].as_str()) {
            return true;
        }
        i += 1;
    }
    false
}

/// The number of markers that `endofcell_marker` looks at: as many as the source has
/// characters (a marker can only be a line at least as long as it), within the machine's
/// integers.
pub open spec fn marker_fuel(source: Seq<Seq<char>>) -> nat {
    if total_chars(source) < usize::MAX - 1 {
        total_chars(source)
    } else {
        (usize::MAX - 1) as nat
    }
}

/// The end-of-cell marker for a cell of light scripts: `-`, with one more dash as long as
/// some line of the source is already that marker.
pub fn endofcell_marker(source: &[String], comment: &str) -> (r: String)
    ensures
        r@ == dashes(free_marker_length(views(source@), comment@, 1, marker_fuel(views(source@)))),
{
    let ghost ls = views(source@);
    let mut fuel: usize = 0;
    let mut k: usize = 0;
    while k < source.len()
        invariant
            k <= source@.len(),
            ls == views(source@),
            fuel == marker_fuel(ls.subrange(0, k as int)),
        decreases source.len() - k,
    {
        assert(ls.subrange(0, k + 1).drop_last() =~= ls.subrange(0, k as int));
        assert(source@[k as int]@ == ls[k as int]);
        let len = source[k].unicode_len();
        let cap: usize = usize::MAX - 1;
        if len >= cap - fuel {
            fuel = cap;
        } else {
            fuel = fuel + len;
        }
        k += 1;
    }
    assert(ls.subrange(0, source@.len() as int) =~= ls);
    let c = escape(comment);
    let mut marker = String::new();
    push_char(&mut marker, '-');
    let mut n: usize = 1;
    let ghost total = fuel as nat;
    assert(marker@ =~= dashes(1));
    while fuel > 0
        invariant
            marker@ == dashes(n as nat),
            n + fuel == 1 + total,
            free_marker_length(ls, comment@, 1, total) == free_marker_length(ls, comment@, n as nat, fuel as nat),
            c@ == regex_escape(comment@),
            ls == views(source@),
            total == marker_fuel(ls),
            total <= usize::MAX - 1,
        decreases fuel,
    {
        let m = escape(marker.as_str());
        let head = concat3("^", c.as_str(), r"\s+");
        let pattern = concat3(head.as_str(), m.as_str(), r"\s*$");
        assert(pattern@ == eoc_line_pattern(comment@, dashes(n as nat)));
        if !some_line_matches(source, pattern.as_str()) {
            return marker;
        }
        push_char(&mut marker, '-');
        assert(marker@ =~= dashes((n + 1) as nat));
        n = n + 1;
        fuel = fuel - 1;
    }
    marker
}


/// The lines of a cell's source: the lines of the text, with an empty last line when the
/// text ends with a newline, and one empty line for an empty source.
pub open spec fn source_lines(s: Seq<char>) -> Seq<Seq<char>> {
    if s.len() == 0 {
        seq![Seq::<char>::empty()]
    } else if s.last() == '\n' {
        lines_of(s).push(Seq::<char>::empty())
    } else {
        lines_of(s)
    }
}

/// The source of a cell as a vector of lines.
pub fn cell_source(source: &str) -> (r: Vec<String>)
    ensures
        views(r@) == source_lines(source@),
{
    if source.unicode_len() == 0 {
        let mut v: Vec<String> = Vec::new();
        v.push(String::new());
        assert(views(v@) =~= seq![Seq::<char>::empty()]);
        return v;
    }
    let mut v = lines(source);
    if ends_with_char(source, '\n') {
        let ghost before = views(v@);
        v.push(String::new());
        assert(views(v@) =~= before.push(Seq::<char>::empty()));
    }
    v
}

} // verus!
