//! Character-level string utilities with their specifications.
//!
//! Every function here works on the `Seq<char>` view of a string; the spec
//! functions state the meaning of the corresponding `str` operations of std.

use vstd::prelude::*;

verus! {

/// Rust's `char::is_whitespace`: the Unicode `White_Space` property.
pub open spec fn is_ws(c: char) -> bool {
    ||| c == '\t'
    ||| c == '\n'
    ||| c == '\x0B'
    ||| c == '\x0C'
    ||| c == '\r'
    ||| c == ' '
    ||| c == '\u{85}'
    ||| c == '\u{A0}'
    ||| c == '\u{1680}'
    ||| ('\u{2000}' <= c && c <= '\u{200A}')
    ||| c == '\u{2028}'
    ||| c == '\u{2029}'
    ||| c == '\u{202F}'
    ||| c == '\u{205F}'
    ||| c == '\u{3000}'
}

/// `s` starts with `p`.
pub open spec fn has_prefix(s: Seq<char>, p: Seq<char>) -> bool {
    p.len() <= s.len() && s.subrange(0, p.len() as int) == p
}

/// `s` ends with `p`.
pub open spec fn has_suffix(s: Seq<char>, p: Seq<char>) -> bool {
    p.len() <= s.len() && s.subrange(s.len() - p.len(), s.len() as int) == p
}

/// `s` with its leading whitespace removed (`str::trim_start`).
pub open spec fn trim_start(s: Seq<char>) -> Seq<char>
    decreases s.len(),
{
    if s.len() > 0 && is_ws(s[0]) {
        trim_start(s.drop_first())
    } else {
        s
    }
}

/// `s` with its trailing whitespace removed (`str::trim_end`).
pub open spec fn trim_end(s: Seq<char>) -> Seq<char>
    decreases s.len(),
{
    if s.len() > 0 && is_ws(s.last()) {
        trim_end(s.drop_last())
    } else {
        s
    }
}

/// `str::trim`.
pub open spec fn trim(s: Seq<char>) -> Seq<char> {
    trim_end(trim_start(s))
}

/// Every character of `s` is whitespace (a blank line).
pub open spec fn all_ws(s: Seq<char>) -> bool {
    forall|i: int| 0 <= i < s.len() ==> is_ws(#[trigger] s[i])
}

/// `s` contains the character `c`.
pub open spec fn has_char(s: Seq<char>, c: char) -> bool {
    exists|i: int| 0 <= i < s.len() && s[i] == c
}

/// Position of the first occurrence of `c` in `s` (`str::find`).
pub open spec fn find_char(s: Seq<char>, c: char) -> Option<int>
    decreases s.len(),
{
    if s.len() == 0 {
        None
    } else if s[0] == c {
        Some(0)
    } else {
        match find_char(s.drop_first(), c) {
            Some(i) => Some(i + 1),
            None => None,
        }
    }
}

/// Position of the last occurrence of `c` in `s` (`str::rfind`).
pub open spec fn rfind_char(s: Seq<char>, c: char) -> Option<int>
    decreases s.len(),
{
    if s.len() == 0 {
        None
    } else if s.last() == c {
        Some(s.len() - 1)
    } else {
        rfind_char(s.drop_last(), c)
    }
}

/// `p` occurs in `s` at position `i`.
pub open spec fn occurs_at(s: Seq<char>, p: Seq<char>, i: int) -> bool {
    0 <= i && i + p.len() <= s.len() && s.subrange(i, i + p.len()) == p
}

/// `p` occurs in `s` (`str::contains`).
pub open spec fn contains_sub(s: Seq<char>, p: Seq<char>) -> bool {
    exists|i: int| occurs_at(s, p, i)
}

/// Position of the last occurrence of `p` in `s`, searching from position `end` down.
pub open spec fn rfind_sub_from(s: Seq<char>, p: Seq<char>, end: int) -> Option<int>
    decreases end + 1,
{
    if end < 0 {
        None
    } else if occurs_at(s, p, end) {
        Some(end)
    } else {
        rfind_sub_from(s, p, end - 1)
    }
}

/// Position of the last occurrence of `p` in `s` (`str::rfind` with a pattern string).
pub open spec fn rfind_sub(s: Seq<char>, p: Seq<char>) -> Option<int> {
    rfind_sub_from(s, p, s.len() - p.len())
}

/// The pieces of `s` between occurrences of `c` (`str::split` on a char).
pub open spec fn split_on(s: Seq<char>, c: char) -> Seq<Seq<char>>
    decreases s.len(),
{
    if s.len() == 0 {
        seq![Seq::<char>::empty()]
    } else {
        let init = split_on(s.drop_last(), c);
        if s.last() == c {
            init.push(Seq::<char>::empty())
        } else {
            init.update(init.len() - 1, init.last().push(s.last()))
        }
    }
}

/// A line without its trailing carriage return, if any.
pub open spec fn strip_cr(l: Seq<char>) -> Seq<char> {
    if l.len() > 0 && l.last() == '\r' {
        l.drop_last()
    } else {
        l
    }
}

/// The lines of `s` (`str::lines`): split at `\n`, a final empty piece dropped,
/// and a `\r` that precedes a `\n` removed.
pub open spec fn lines_of(s: Seq<char>) -> Seq<Seq<char>> {
    let pieces = split_on(s, '\n');
    if pieces.last().len() == 0 {
        Seq::new((pieces.len() - 1) as nat, |i: int| strip_cr(pieces[i]))
    } else {
        Seq::new(
            pieces.len(),
            |i: int|
                if i < pieces.len() - 1 {
                    strip_cr(pieces[i])
                } else {
                    pieces[i]
                },
        )
    }
}

/// The elements of `parts` joined with `sep` in between (`[String]::join`).
pub open spec fn join(parts: Seq<Seq<char>>, sep: Seq<char>) -> Seq<char>
    decreases parts.len(),
{
    if parts.len() == 0 {
        Seq::empty()
    } else if parts.len() == 1 {
        parts[0]
    } else {
        join(parts.drop_last(), sep) + sep + parts.last()
    }
}

/// The views of a sequence of strings.
pub open spec fn views(v: Seq<String>) -> Seq<Seq<char>> {
    v.map_values(|s: String| s@)
}

/// `String::push`.
#[verifier::external_body]
pub fn push_char(s: &mut String, c: char)
    ensures
        final(s)@ == old(s)@.push(c),
{
    s.push(c);
}

/// `char::is_whitespace`, written out from its definition.
pub fn is_whitespace(c: char) -> (r: bool)
    ensures
        r == is_ws(c),
{
    c == '\t' || c == '\n' || c == '\x0B' || c == '\x0C' || c == '\r' || c == ' ' || c == '\u{85}'
        || c == '\u{A0}' || c == '\u{1680}' || ('\u{2000}' <= c && c <= '\u{200A}') || c
        == '\u{2028}' || c == '\u{2029}' || c == '\u{202F}' || c == '\u{205F}' || c == '\u{3000}'
}

/// The characters of a string slice.
pub fn chars_of(s: &str) -> (r: Vec<char>)
    ensures
        r@ == s@,
{
    let mut r: Vec<char> = Vec::new();
    for c in it: s.chars()
        invariant
            r@ == it.seq().take(it.index() as int),
            it.seq() == s@,
    {
        r.push(c);
    }
    r
}

/// The string made of the characters `v[from..to]`.
pub fn string_of(v: &[char], from: usize, to: usize) -> (r: String)
    requires
        from <= to <= v@.len(),
    ensures
        r@ == v@.subrange(from as int, to as int),
{
    let mut r = String::new();
    let mut i = from;
    while i < to
        invariant
            from <= i <= to <= v@.len(),
            r@ == v@.subrange(from as int, i as int),
        decreases to - i,
    {
        push_char(&mut r, v[i]);
        assert(v@.subrange(from as int, i + 1) == v@.subrange(from as int, i as int).push(v@[i as int]));
        i += 1;
    }
    r
}

/// A copy of a string slice.
pub fn owned(s: &str) -> (r: String)
    ensures
        r@ == s@,
{
    s.to_owned()
}

/// `a + b`.
pub fn concat(a: &str, b: &str) -> (r: String)
    ensures
        r@ == a@ + b@,
{
    let mut r = a.to_owned();
    r.append(b);
    r
}

/// `a + b + c`.
pub fn concat3(a: &str, b: &str, c: &str) -> (r: String)
    ensures
        r@ == a@ + b@ + c@,
{
    let mut r = a.to_owned();
    r.append(b);
    r.append(c);
    r
}

/// String equality.
pub fn str_eq(a: &str, b: &str) -> (r: bool)
    ensures
        r == (a@ == b@),
{
    let va = chars_of(a);
    let vb = chars_of(b);
    if va.len() != vb.len() {
        return false;
    }
    let mut i: usize = 0;
    while i < va.len()
        invariant
            va@ == a@,
            vb@ == b@,
            va@.len() == vb@.len(),
            i <= va@.len(),
            forall|j: int| 0 <= j < i ==> va@[j] == vb@[j],
        decreases va.len() - i,
    {
        if va[i] != vb[i] {
            return false;
        }
        i += 1;
    }
    assert(va@ =~= vb@);
    true
}

/// Number of characters of `s`.
pub fn char_len(s: &str) -> (r: usize)
    ensures
        r == s@.len(),
{
    s.unicode_len()
}

/// `str::starts_with` on the character vectors.
pub fn vec_has_prefix(s: &[char], p: &[char]) -> (r: bool)
    ensures
        r == has_prefix(s@, p@),
{
    if p.len() > s.len() {
        return false;
    }
    let mut i: usize = 0;
    while i < p.len()
        invariant
            p@.len() <= s@.len(),
            i <= p@.len(),
            forall|j: int| 0 <= j < i ==> s@[j] == p@[j],
        decreases p.len() - i,
    {
        if s[i] != p[i] {
            return false;
        }
        i += 1;
    }
    assert(s@.subrange(0, p@.len() as int) =~= p@);
    true
}

/// `str::starts_with`.
pub fn starts_with(s: &str, p: &str) -> (r: bool)
    ensures
        r == has_prefix(s@, p@),
{
    let vs = chars_of(s);
    let vp = chars_of(p);
    vec_has_prefix(&vs, &vp)
}

/// `s[k..]` starts with `p`, on character vectors.
pub fn vec_occurs_at(s: &[char], p: &[char], k: usize) -> (r: bool)
    ensures
        r == occurs_at(s@, p@, k as int),
{
    if k > s.len() || p.len() > s.len() - k {
        return false;
    }
    let mut i: usize = 0;
    let n = s.len();
    while i < p.len()
        invariant
            n == s@.len(),
            k + p@.len() <= s@.len(),
            i <= p@.len(),
            forall|j: int| 0 <= j < i ==> s@[k + j] == p@[j],
        decreases p.len() - i,
    {
        assert(k + i < s@.len());
        if s[k + i] != p[i] {
            return false;
        }
        i += 1;
    }
    assert(s@.subrange(k as int, k + p@.len()) =~= p@);
    true
}

/// `str::ends_with`.
pub fn ends_with(s: &str, p: &str) -> (r: bool)
    ensures
        r == has_suffix(s@, p@),
{
    let vs = chars_of(s);
    let vp = chars_of(p);
    if vp.len() > vs.len() {
        return false;
    }
    vec_occurs_at(&vs, &vp, vs.len() - vp.len())
}

/// `str::starts_with` for a single character.
pub fn starts_with_char(s: &str, c: char) -> (r: bool)
    ensures
        r == (s@.len() > 0 && s@[0] == c),
{
    let v = chars_of(s);
    v.len() > 0 && v[0] == c
}

/// `str::ends_with` for a single character.
pub fn ends_with_char(s: &str, c: char) -> (r: bool)
    ensures
        r == (s@.len() > 0 && s@.last() == c),
{
    let v = chars_of(s);
    v.len() > 0 && v[v.len() - 1] == c
}

proof fn lemma_trim_start_step(s: Seq<char>, i: int)
    requires
        0 <= i < s.len(),
        is_ws(s[i]),
    ensures
        trim_start(s.subrange(i, s.len() as int)) == trim_start(s.subrange(i + 1, s.len() as int)),
{
    assert(s.subrange(i, s.len() as int).drop_first() =~= s.subrange(i + 1, s.len() as int));
}

proof fn lemma_trim_end_step(s: Seq<char>, j: int)
    requires
        0 < j <= s.len(),
        is_ws(s[j - 1]),
    ensures
        trim_end(s.subrange(0, j)) == trim_end(s.subrange(0, j - 1)),
{
    assert(s.subrange(0, j).drop_last() =~= s.subrange(0, j - 1));
}

/// Bounds of the trimmed part of `s`: `trim(s) == s[start..end]`.
pub fn trim_bounds(s: &[char]) -> (r: (usize, usize))
    ensures
        r.0 <= r.1 <= s@.len(),
        trim_start(s@) == s@.subrange(r.0 as int, s@.len() as int),
        trim(s@) == s@.subrange(r.0 as int, r.1 as int),
{
    let n = s.len();
    let mut i: usize = 0;
    assert(s@.subrange(0, n as int) =~= s@);
    while i < n && is_whitespace(s[i])
        invariant
            i <= n == s@.len(),
            trim_start(s@) == trim_start(s@.subrange(i as int, n as int)),
        decreases n - i,
    {
        proof {
            lemma_trim_start_step(s@, i as int);
        }
        i += 1;
    }
    let ghost t = s@.subrange(i as int, n as int);
    assert(trim_start(t) == t);
    let mut j: usize = n;
    assert(t.subrange(0, (j - i) as int) =~= t);
    while j > i && is_whitespace(s[j - 1])
        invariant
            i <= j <= n == s@.len(),
            t == s@.subrange(i as int, n as int),
            trim_end(t) == trim_end(t.subrange(0, (j - i) as int)),
        decreases j,
    {
        proof {
            lemma_trim_end_step(t, (j - i) as int);
        }
        j -= 1;
    }
    assert(trim_end(t.subrange(0, (j - i) as int)) == t.subrange(0, (j - i) as int));
    assert(t.subrange(0, (j - i) as int) =~= s@.subrange(i as int, j as int));
    (i, j)
}

/// `str::trim`.
pub fn trim_str(s: &str) -> (r: String)
    ensures
        r@ == trim(s@),
{
    let v = chars_of(s);
    let (a, b) = trim_bounds(&v);
    string_of(&v, a, b)
}

/// `str::trim_start`.
pub fn trim_start_str(s: &str) -> (r: String)
    ensures
        r@ == trim_start(s@),
{
    let v = chars_of(s);
    let (a, _b) = trim_bounds(&v);
    string_of(&v, a, v.len())
}

/// `str::trim_end`.
pub fn trim_end_str(s: &str) -> (r: String)
    ensures
        r@ == trim_end(s@),
{
    let v = chars_of(s);
    let mut j: usize = v.len();
    assert(v@.subrange(0, j as int) =~= v@);
    while j > 0 && is_whitespace(v[j - 1])
        invariant
            j <= v@.len(),
            trim_end(v@) == trim_end(v@.subrange(0, j as int)),
        decreases j,
    {
        assert(v@.subrange(0, j as int).drop_last() =~= v@.subrange(0, j - 1));
        j -= 1;
    }
    string_of(&v, 0, j)
}

proof fn lemma_trim_empty_iff_all_ws(s: Seq<char>)
    ensures
        (trim(s).len() == 0) == all_ws(s),
        (trim_start(s).len() == 0) == all_ws(s),
    decreases s.len(),
{
    if s.len() > 0 {
        lemma_trim_empty_iff_all_ws(s.drop_first());
        if is_ws(s[0]) {
            assert(all_ws(s.drop_first()) ==> all_ws(s)) by {
                if all_ws(s.drop_first()) {
                    assert forall|i: int| 0 <= i < s.len() implies is_ws(#[trigger] s[i]) by {
                        if i > 0 {
                            assert(s[i] == s.drop_first()[i - 1]);
                        }
                    }
                }
            }
            assert(all_ws(s) ==> all_ws(s.drop_first())) by {
                if all_ws(s) {
                    assert forall|i: int| 0 <= i < s.drop_first().len() implies is_ws(
                        #[trigger] s.drop_first()[i],
                    ) by {
                        assert(s.drop_first()[i] == s[i + 1]);
                    }
                }
            }
        } else {
            assert(!all_ws(s)) by {
                assert(!is_ws(s[0]));
            }
            assert(trim_start(s) == s);
            lemma_trim_end_keeps_first(s);
        }
    } else {
        assert(trim_start(s) == s);
    }
}

proof fn lemma_trim_end_keeps_first(s: Seq<char>)
    requires
        s.len() > 0,
        !is_ws(s[0]),
    ensures
        trim_end(s).len() > 0,
    decreases s.len(),
{
    if s.len() > 1 && is_ws(s.last()) {
        lemma_trim_end_keeps_first(s.drop_last());
    }
}

/// The line holds only whitespace (`line.trim().is_empty()`).
pub fn is_blank(s: &str) -> (r: bool)
    ensures
        r == all_ws(s@),
        r == (trim(s@).len() == 0),
        r == (trim_start(s@).len() == 0),
{
    let v = chars_of(s);
    let mut i: usize = 0;
    let mut blank = true;
    while i < v.len()
        invariant
            v@ == s@,
            i <= v@.len(),
            blank == (forall|j: int| 0 <= j < i ==> is_ws(#[trigger] v@[j])),
        decreases v.len() - i,
    {
        if !is_whitespace(v[i]) {
            blank = false;
        }
        i += 1;
    }
    proof {
        lemma_trim_empty_iff_all_ws(s@);
    }
    blank
}

/// Position of the first occurrence of `c` (`str::find` with a char), on a vector.
pub fn vec_find_char(s: &[char], c: char) -> (r: Option<usize>)
    ensures
        match r {
            Some(i) => find_char(s@, c) == Some(i as int),
            None => find_char(s@, c) is None,
        },
{
    let mut i: usize = 0;
    assert(s@.subrange(0, s@.len() as int) =~= s@);
    while i < s.len()
        invariant
            i <= s@.len(),
            find_char(s@, c) == (match find_char(s@.subrange(i as int, s@.len() as int), c) {
                Some(k) => Some(k + i),
                None => None,
            }),
        decreases s.len() - i,
    {
        assert(s@.subrange(i as int, s@.len() as int).drop_first() =~= s@.subrange(
            i + 1,
            s@.len() as int,
        ));
        if s[i] == c {
            return Some(i);
        }
        i += 1;
    }
    assert(s@.subrange(0, s@.len() as int) =~= s@);
    None
}

/// Position of the last occurrence of `c` (`str::rfind` with a char), on a vector.
pub fn vec_rfind_char(s: &[char], c: char) -> (r: Option<usize>)
    ensures
        match r {
            Some(i) => rfind_char(s@, c) == Some(i as int) && i < s@.len(),
            None => rfind_char(s@, c) is None,
        },
{
    let mut j: usize = s.len();
    assert(s@.subrange(0, j as int) =~= s@);
    while j > 0
        invariant
            j <= s@.len(),
            rfind_char(s@, c) == rfind_char(s@.subrange(0, j as int), c),
        decreases j,
    {
        assert(s@.subrange(0, j as int).drop_last() =~= s@.subrange(0, j - 1));
        if s[j - 1] == c {
            return Some(j - 1);
        }
        j -= 1;
    }
    None
}

proof fn lemma_find_char_bounds(s: Seq<char>, c: char)
    ensures
        find_char(s, c) matches Some(i) ==> 0 <= i < s.len() && s[i] == c && !has_char(
            s.subrange(0, i),
            c,
        ),
        find_char(s, c) is None ==> !has_char(s, c),
    decreases s.len(),
{
    if s.len() > 0 {
        lemma_find_char_bounds(s.drop_first(), c);
        if s[0] != c {
            if let Some(i) = find_char(s.drop_first(), c) {
                assert forall|k: int| 0 <= k < i + 1 implies #[trigger] s.subrange(0, i + 1)[k]
                    != c by {
                    if k > 0 {
                        assert(s.subrange(0, i + 1)[k] == s.drop_first().subrange(0, i)[k - 1]);
                    }
                }
            } else {
                assert forall|k: int| 0 <= k < s.len() implies #[trigger] s[k] != c by {
                    if k > 0 {
                        assert(s[k] == s.drop_first()[k - 1]);
                    }
                }
            }
        }
    }
}

proof fn lemma_rfind_char_bounds(s: Seq<char>, c: char)
    ensures
        rfind_char(s, c) matches Some(i) ==> 0 <= i < s.len() && s[i] == c && !has_char(
            s.subrange(i + 1, s.len() as int),
            c,
        ),
        rfind_char(s, c) is None ==> !has_char(s, c),
    decreases s.len(),
{
    if s.len() > 0 {
        lemma_rfind_char_bounds(s.drop_last(), c);
        if s.last() != c {
            if let Some(i) = rfind_char(s.drop_last(), c) {
                assert forall|k: int|
                    0 <= k < s.len() - (i + 1) implies #[trigger] s.subrange(
                    i + 1,
                    s.len() as int,
                )[k] != c by {
                    if k < s.len() - (i + 1) - 1 {
                        assert(s.subrange(i + 1, s.len() as int)[k] == s.drop_last().subrange(
                            i + 1,
                            s.len() - 1,
                        )[k]);
                    }
                }
            } else {
                assert forall|k: int| 0 <= k < s.len() implies #[trigger] s[k] != c by {
                    if k < s.len() - 1 {
                        assert(s[k] == s.drop_last()[k]);
                    }
                }
            }
        }
    }
}

/// Facts on `find_char`.
pub proof fn find_char_facts(s: Seq<char>, c: char)
    ensures
        find_char(s, c) matches Some(i) ==> 0 <= i < s.len() && s[i] == c && !has_char(
            s.subrange(0, i),
            c,
        ),
        find_char(s, c) is None ==> !has_char(s, c),
{
    lemma_find_char_bounds(s, c);
}

/// Facts on `rfind_char`.
pub proof fn rfind_char_facts(s: Seq<char>, c: char)
    ensures
        rfind_char(s, c) matches Some(i) ==> 0 <= i < s.len() && s[i] == c && !has_char(
            s.subrange(i + 1, s.len() as int),
            c,
        ),
        rfind_char(s, c) is None ==> !has_char(s, c),
{
    lemma_rfind_char_bounds(s, c);
}

/// Last occurrence of `p` in `s` (`str::rfind` with a string pattern), on vectors.
pub fn vec_rfind_sub(s: &[char], p: &[char]) -> (r: Option<usize>)
    ensures
        match r {
            Some(i) => rfind_sub(s@, p@) == Some(i as int) && occurs_at(s@, p@, i as int),
            None => rfind_sub(s@, p@) is None,
        },
{
    if p.len() > s.len() {
        return None;
    }
    let mut k: usize = s.len() - p.len();
    loop
        invariant
            p@.len() <= s@.len(),
            k <= s@.len() - p@.len(),
            rfind_sub(s@, p@) == rfind_sub_from(s@, p@, k as int),
        decreases k,
    {
        if vec_occurs_at(s, p, k) {
            return Some(k);
        }
        if k == 0 {
            assert(rfind_sub_from(s@, p@, -1) is None);
            return None;
        }
        k -= 1;
    }
}

/// Occurrence facts for `rfind_sub_from`.
pub proof fn rfind_sub_from_facts(s: Seq<char>, p: Seq<char>, end: int)
    ensures
        rfind_sub_from(s, p, end) matches Some(i) ==> occurs_at(s, p, i) && i <= end && forall|
            k: int,
        |
            i < k <= end ==> !occurs_at(s, p, k),
        rfind_sub_from(s, p, end) is None ==> forall|k: int| 0 <= k <= end ==> !occurs_at(s, p, k),
    decreases end + 1,
{
    if end >= 0 {
        rfind_sub_from_facts(s, p, end - 1);
    }
}

/// `str::contains` for a string pattern.
pub fn contains_str(s: &str, p: &str) -> (r: bool)
    ensures
        r == contains_sub(s@, p@),
{
    let vs = chars_of(s);
    let vp = chars_of(p);
    let r = vec_rfind_sub(&vs, &vp);
    proof {
        if vp@.len() <= vs@.len() {
            rfind_sub_from_facts(s@, p@, s@.len() - p@.len());
        }
        if r.is_none() && contains_sub(s@, p@) {
            let k = choose|k: int| occurs_at(s@, p@, k);
            assert(occurs_at(s@, p@, k));
        }
    }
    r.is_some()
}

/// `str::contains` for a single character.
pub fn contains_char(s: &str, c: char) -> (r: bool)
    ensures
        r == has_char(s@, c),
{
    let v = chars_of(s);
    let r = vec_find_char(&v, c);
    proof {
        lemma_find_char_bounds(s@, c);
    }
    r.is_some()
}

proof fn lemma_split_on_nonempty(s: Seq<char>, c: char)
    ensures
        split_on(s, c).len() >= 1,
    decreases s.len(),
{
    if s.len() > 0 {
        lemma_split_on_nonempty(s.drop_last(), c);
    }
}

/// A non-empty text has at least one line.
pub proof fn lemma_lines_of_nonempty(s: Seq<char>)
    requires
        s.len() > 0,
    ensures
        lines_of(s).len() > 0,
{
    lemma_split_on_nonempty(s.drop_last(), '\n');
}

/// `str::split` with a char, on a vector of characters.
pub fn split_vec(s: &[char], c: char) -> (r: Vec<String>)
    ensures
        views(r@) == split_on(s@, c),
        r@.len() >= 1,
{
    let mut done: Vec<String> = Vec::new();
    let mut cur = String::new();
    let mut i: usize = 0;
    assert(s@.subrange(0, 0) =~= Seq::<char>::empty());
    assert(views(done@).push(cur@) =~= seq![Seq::<char>::empty()]);
    while i < s.len()
        invariant
            i <= s@.len(),
            split_on(s@.subrange(0, i as int), c) == views(done@).push(cur@),
        decreases s.len() - i,
    {
        let ghost pre = s@.subrange(0, i as int);
        assert(s@.subrange(0, i + 1).drop_last() =~= pre);
        assert(s@.subrange(0, i + 1).last() == s@[i as int]);
        if s[i] == c {
            done.push(cur);
            cur = String::new();
            assert(views(done@).push(cur@) =~= split_on(s@.subrange(0, i + 1), c));
        } else {
            let ghost old_done = views(done@);
            push_char(&mut cur, s[i]);
            assert(views(done@).push(cur@) =~= split_on(s@.subrange(0, i + 1), c));
        }
        i += 1;
    }
    assert(s@.subrange(0, s@.len() as int) =~= s@);
    done.push(cur);
    assert(views(done@) =~= split_on(s@, c));
    done
}

/// `str::split` with a char.
pub fn split_char(s: &str, c: char) -> (r: Vec<String>)
    ensures
        views(r@) == split_on(s@, c),
        r@.len() >= 1,
{
    let v = chars_of(s);
    split_vec(&v, c)
}

/// Removes a trailing `\r`.
pub fn strip_cr_string(l: String) -> (r: String)
    ensures
        r@ == strip_cr(l@),
{
    let v = chars_of(l.as_str());
    if v.len() > 0 && v[v.len() - 1] == '\r' {
        string_of(&v, 0, v.len() - 1)
    } else {
        l
    }
}

/// `str::lines`.
pub fn lines(s: &str) -> (r: Vec<String>)
    ensures
        views(r@) == lines_of(s@),
{
    let pieces = split_char(s, '\n');
    let n = pieces.len();
    let last_empty = pieces[n - 1].as_str().unicode_len() == 0;
    let mut r: Vec<String> = Vec::new();
    let mut i: usize = 0;
    let bound = if last_empty {
        n - 1
    } else {
        n
    };
    let ghost ps = split_on(s@, '\n');
    assert(ps.len() == n);
    while i < bound
        invariant
            views(pieces@) == ps,
            ps == split_on(s@, '\n'),
            n == pieces@.len(),
            bound <= n,
            last_empty == (ps.last().len() == 0),
            bound == (if last_empty {
                (n - 1) as int
            } else {
                n as int
            }),
            i <= bound,
            views(r@) == lines_of(s@).take(i as int),
            lines_of(s@).len() == bound,
        decreases bound - i,
    {
        let p = pieces[i].clone();
        assert(p@ == ps[i as int]);
        let q = if i + 1 < n {
            strip_cr_string(p)
        } else {
            p
        };
        assert(lines_of(s@)[i as int] == q@);
        let ghost old_r = r@;
        r.push(q);
        assert(views(r@) =~= views(old_r).push(q@));
        assert(views(r@) =~= lines_of(s@).take(i + 1));
        i += 1;
    }
    assert(lines_of(s@).take(bound as int) =~= lines_of(s@));
    r
}

/// `parts.join(sep)`.
pub fn join_strings(parts: &[String], sep: &str) -> (r: String)
    ensures
        r@ == join(views(parts@), sep@),
{
    let mut r = String::new();
    let mut i: usize = 0;
    while i < parts.len()
        invariant
            i <= parts@.len(),
            r@ == join(views(parts@).take(i as int), sep@),
        decreases parts.len() - i,
    {
        assert(views(parts@).take(i + 1).drop_last() =~= views(parts@).take(i as int));
        if i > 0 {
            r.append(sep);
        }
        r.append(parts[i].as_str());
        i += 1;
    }
    assert(views(parts@).take(parts@.len() as int) =~= views(parts@));
    r
}

} // verus!

verus! {

/// What `str::to_lowercase` returns on a text that is not only ASCII: the Unicode
/// lowercase mapping of each character.
pub uninterp spec fn unicode_lowercase(s: Seq<char>) -> Seq<char>;

/// What `str::to_lowercase` returns: on an ASCII text, `A` to `Z` become `a` to `z` and
/// every other character stays; otherwise the Unicode lowercase mapping.
pub open spec fn lowercase(s: Seq<char>) -> Seq<char> {
    if ascii_text(s) {
        s.map_values(|c: char| ascii_lower_char(c))
    } else {
        unicode_lowercase(s)
    }
}

/// What `str::to_uppercase` returns: Unicode uppercase mapping of each character.
pub uninterp spec fn uppercase(s: Seq<char>) -> Seq<char>;

/// A text of ASCII characters only.
pub open spec fn ascii_text(s: Seq<char>) -> bool {
    forall|i: int| 0 <= i < s.len() ==> (#[trigger] s[i] as u32) < 128
}

/// An ASCII character in lower case: `A` to `Z` become `a` to `z`.
pub open spec fn ascii_lower_char(c: char) -> char {
    if 'A' <= c && c <= 'Z' {
        ((c as u32) + 32) as char
    } else {
        c
    }
}

/// `str::to_lowercase`; the result is named by `lowercase`, a function of the text alone.
/// On an ASCII text the Unicode lowercase mapping is the ASCII one: each of `A` to `Z`
/// becomes `a` to `z`, and every other character stays.
#[verifier::external_body]
pub(crate) fn to_lowercase(s: &str) -> (r: String)
    ensures
        r@ == lowercase(s@),
        !ascii_text(s@) ==> r@ == unicode_lowercase(s@),
{
    s.to_lowercase()
}

/// `str::to_uppercase`; the result is named by `uppercase`, a function of the text alone.
#[verifier::external_body]
pub(crate) fn to_uppercase(s: &str) -> (r: String)
    ensures
        r@ == uppercase(s@),
{
    s.to_uppercase()
}

/// First position of `s` whose element satisfies `f`.
pub open spec fn first_match<A>(s: Seq<A>, f: spec_fn(A) -> bool) -> Option<int> {
    if exists|i: int| 0 <= i < s.len() && f(s[i]) && forall|j: int| 0 <= j < i ==> !f(s[j]) {
        Some(choose|i: int| 0 <= i < s.len() && f(s[i]) && forall|j: int| 0 <= j < i ==> !f(s[j]))
    } else {
        None
    }
}

/// `first_match` is the least matching position.
pub proof fn first_match_is<A>(s: Seq<A>, f: spec_fn(A) -> bool, i: int)
    requires
        0 <= i < s.len(),
        f(s[i]),
        forall|j: int| 0 <= j < i ==> !f(s[j]),
    ensures
        first_match(s, f) == Some(i),
{
    let k = choose|k: int| 0 <= k < s.len() && f(s[k]) && forall|j: int| 0 <= j < k ==> !f(s[j]);
    assert(0 <= k < s.len() && f(s[k]) && forall|j: int| 0 <= j < k ==> !f(s[j]));
    if k < i {
        assert(!f(s[k]));
    }
    if i < k {
        assert(!f(s[i]));
    }
}

/// No position matches: `first_match` is `None`.
pub proof fn first_match_none<A>(s: Seq<A>, f: spec_fn(A) -> bool)
    requires
        forall|j: int| 0 <= j < s.len() ==> !f(s[j]),
    ensures
        first_match(s, f) is None,
{
}

/// A position found by `first_match` matches, and no earlier one does.
pub proof fn first_match_facts<A>(s: Seq<A>, f: spec_fn(A) -> bool)
    ensures
        first_match(s, f) matches Some(i) ==> 0 <= i < s.len() && f(s[i]) && forall|j: int|
            0 <= j < i ==> !f(s[j]),
        first_match(s, f) is None ==> forall|j: int| 0 <= j < s.len() ==> !f(s[j]),
{
    if first_match(s, f) is None {
        assert forall|j: int| 0 <= j < s.len() implies !f(s[j]) by {
            if f(s[j]) {
                lemma_least_match(s, f, j);
            }
        }
    }
}

proof fn lemma_least_match<A>(s: Seq<A>, f: spec_fn(A) -> bool, j: int)
    requires
        0 <= j < s.len(),
        f(s[j]),
    ensures
        exists|i: int| 0 <= i < s.len() && f(s[i]) && forall|k: int| 0 <= k < i ==> !f(s[k]),
    decreases j,
{
    if exists|k: int| 0 <= k < j && f(s[k]) {
        let k = choose|k: int| 0 <= k < j && f(s[k]);
        lemma_least_match(s, f, k);
    } else {
        assert(0 <= j < s.len() && f(s[j]) && forall|k: int| 0 <= k < j ==> !f(s[k]));
    }
}

} // verus!

verus! {

/// Pushing a string pushes its view.
pub broadcast proof fn views_push(v: Seq<String>, s: String)
    ensures
        #[trigger] views(v.push(s)) == views(v).push(s@),
{
    assert(views(v.push(s)) =~= views(v).push(s@));
}


/// `trim_start(s)` is a suffix of `s`.
pub proof fn trim_start_is_suffix(s: Seq<char>)
    ensures
        trim_start(s).len() <= s.len(),
        trim_start(s) == s.subrange(s.len() - trim_start(s).len(), s.len() as int),
    decreases s.len(),
{
    if s.len() > 0 && is_ws(s[0]) {
        trim_start_is_suffix(s.drop_first());
        assert(s.drop_first().subrange(
            s.drop_first().len() - trim_start(s).len(),
            s.drop_first().len() as int,
        ) =~= s.subrange(s.len() - trim_start(s).len(), s.len() as int));
    } else {
        assert(s.subrange(0, s.len() as int) =~= s);
    }
}

} // verus!

verus! {

/// The decimal digits of `n`.
pub open spec fn decimal(n: nat) -> Seq<char>
    decreases n,
{
    if n < 10 {
        seq![(48 + n) as char]
    } else {
        decimal(n / 10) + seq![(48 + n % 10) as char]
    }
}

/// The decimal text of a number.
pub fn decimal_text(n: usize) -> (r: String)
    ensures
        r@ == decimal(n as nat),
    decreases n,
{
    let d: u8 = (n % 10) as u8;
    let c: char = (48u8 + d) as char;
    if n < 10 {
        let mut s = String::new();
        push_char(&mut s, c);
        assert(s@ =~= decimal(n as nat));
        s
    } else {
        let mut s = decimal_text(n / 10);
        push_char(&mut s, c);
        assert(s@ =~= decimal(n as nat));
        s
    }
}

} // verus!
