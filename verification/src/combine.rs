//! Matching of cell sources between a text notebook and its paired `.ipynb` file,
//! up to the changes that a code formatter makes.

use vstd::prelude::*;
use crate::notebook::CellType;
use crate::text::{chars_of, ends_with, has_suffix, is_blank, push_char, str_eq, trim};

verus! {

/// The characters that a code formatter may add, remove or change.
pub open spec fn is_black_char(c: char) -> bool {
    c == ' ' || c == '\t' || c == '\n' || c == ',' || c == '\'' || c == '"' || c == '(' || c
        == ')' || c == '\\'
}

/// `s` without the characters that a code formatter may change.
pub open spec fn black_invariant_spec(s: Seq<char>) -> Seq<char>
    decreases s.len(),
{
    if s.len() == 0 {
        Seq::empty()
    } else if is_black_char(s.last()) {
        black_invariant_spec(s.drop_last())
    } else {
        black_invariant_spec(s.drop_last()).push(s.last())
    }
}

/// `text` without whitespace, commas, quotes, parentheses and backslashes.
pub fn black_invariant(text: &str) -> (r: String)
    ensures
        r@ == black_invariant_spec(text@),
{
    let v = chars_of(text);
    let mut r = String::new();
    let mut i: usize = 0;
    while i < v.len()
        invariant
            i <= v@.len(),
            r@ == black_invariant_spec(v@.take(i as int)),
        decreases v.len() - i,
    {
        let c = v[i];
        assert(v@.take(i + 1).drop_last() =~= v@.take(i as int));
        if !(c == ' ' || c == '\t' || c == '\n' || c == ',' || c == '\'' || c == '"' || c == '('
            || c == ')' || c == '\\') {
            push_char(&mut r, c);
        }
        i += 1;
    }
    assert(v@.take(v@.len() as int) =~= v@);
    r
}

/// Two sources have the same content up to formatting; with `endswith`, the first ends
/// with the second (unless the second is empty up to formatting).
pub open spec fn same_up_to_format(ref_text: Seq<char>, test_text: Seq<char>, endswith: bool) -> bool {
    let r = black_invariant_spec(ref_text);
    let t = black_invariant_spec(test_text);
    if endswith && t.len() > 0 {
        has_suffix(r, t)
    } else {
        r == t
    }
}

/// Do two cell sources have the same content, modulo formatting?
pub fn same_content(ref_text: &str, test_text: &str, endswith: bool) -> (r: bool)
    ensures
        r == same_up_to_format(ref_text@, test_text@, endswith),
{
    let r = black_invariant(ref_text);
    let t = black_invariant(test_text);
    if endswith && t.unicode_len() > 0 {
        ends_with(r.as_str(), t.as_str())
    } else {
        str_eq(r.as_str(), t.as_str())
    }
}

} // verus!

verus! {

/// Removing the formatting characters twice removes nothing more.
pub proof fn black_invariant_idempotent(s: Seq<char>)
    ensures
        black_invariant_spec(black_invariant_spec(s)) == black_invariant_spec(s),
    decreases s.len(),
{
    if s.len() > 0 {
        black_invariant_idempotent(s.drop_last());
        let t = black_invariant_spec(s.drop_last());
        if !is_black_char(s.last()) {
            let u = t.push(s.last());
            assert(u.drop_last() =~= t);
        }
    }
}

/// A source has the same content as itself, and as any re-formatting that only changes
/// whitespace, commas, quotes, parentheses and backslashes.
pub proof fn same_content_reflexive(ref_text: Seq<char>, test_text: Seq<char>, endswith: bool)
    requires
        black_invariant_spec(ref_text) == black_invariant_spec(test_text),
    ensures
        same_up_to_format(ref_text, test_text, endswith),
{
    let r = black_invariant_spec(ref_text);
    assert(r.subrange(0, r.len() as int) =~= r);
}

} // verus!

verus! {

/// The plain values of a list of cells given by their type and source.
pub open spec fn cell_views(v: Seq<(CellType, String)>) -> Seq<(CellType, Seq<char>)> {
    v.map_values(|c: (CellType, String)| (c.0, c.1@))
}

/// The plain values of a cell mapping.
pub open spec fn mapping_view(v: Seq<Option<usize>>) -> Seq<Option<int>> {
    v.map_values(
        |o: Option<usize>|
            match o {
                Some(j) => Some(j as int),
                None => None,
            },
    )
}

/// The slot of a cell type among the positions where the exact matching resumes.
pub open spec fn type_slot(t: CellType) -> int {
    match t {
        CellType::Code => 0,
        CellType::Markdown => 1,
        CellType::Raw => 2,
    }
}

/// The first output from position `j` on with cell type `t` and the same content as `src`.
pub open spec fn exact_from(t: CellType, src: Seq<char>, outs: Seq<(CellType, Seq<char>)>, j: int) -> Option<int>
    decreases outs.len() - j,
{
    if j < 0 || j >= outs.len() {
        None
    } else if outs[j].0 == t && same_up_to_format(src, outs[j].1, false) {
        Some(j)
    } else {
        exact_from(t, src, outs, j + 1)
    }
}

/// The first rule, over the first `n` inputs: each input takes the first output of its
/// type with the same content, after the output that the previous input of its type took;
/// with the positions where the search resumes for each cell type.
pub open spec fn exact_matches(ins: Seq<(CellType, Seq<char>)>, outs: Seq<(CellType, Seq<char>)>, n: int) -> (Seq<Option<int>>, Seq<int>)
    decreases n,
{
    if n <= 0 {
        (Seq::empty(), seq![0int, 0int, 0int])
    } else {
        let (m, st) = exact_matches(ins, outs, n - 1);
        let (t, src) = ins[n - 1];
        match exact_from(t, src, outs, st[type_slot(t)]) {
            Some(j) => (m.push(Some(j)), st.update(type_slot(t), j + 1)),
            None => (m.push(None), st),
        }
    }
}

/// The outputs that a mapping uses.
pub open spec fn used_outputs(m: Seq<Option<int>>, n_out: int) -> Seq<bool> {
    Seq::new(n_out as nat, |j: int| m.contains(Some(j)))
}

/// The first unused output from position `j` on with cell type `t` whose content is that
/// of `src` (or, with `endswith`, ends with it).
pub open spec fn unused_match(t: CellType, src: Seq<char>, outs: Seq<(CellType, Seq<char>)>, used: Seq<bool>, endswith: bool, j: int) -> Option<int>
    decreases outs.len() - j,
{
    if j < 0 || j >= outs.len() {
        None
    } else if !used[j] && outs[j].0 == t && same_up_to_format(outs[j].1, src, endswith) {
        Some(j)
    } else {
        unused_match(t, src, outs, used, endswith, j + 1)
    }
}

/// The second (or, with `endswith`, third) rule over the first `n` inputs: each input
/// without an output takes the first unused output of its type with the same content.
pub open spec fn content_pass(ins: Seq<(CellType, Seq<char>)>, outs: Seq<(CellType, Seq<char>)>, m: Seq<Option<int>>, used: Seq<bool>, endswith: bool, n: int) -> (Seq<Option<int>>, Seq<bool>)
    decreases n,
{
    if n <= 0 {
        (m, used)
    } else {
        let (m1, u1) = content_pass(ins, outs, m, used, endswith, n - 1);
        if m1[n - 1] is Some {
            (m1, u1)
        } else {
            match unused_match(ins[n - 1].0, ins[n - 1].1, outs, u1, endswith, 0) {
                Some(j) => (m1.update(n - 1, Some(j)), u1.update(j, true)),
                None => (m1, u1),
            }
        }
    }
}

/// The fourth rule over the first `n` inputs: an input without an output takes the output
/// after the last one taken, when it is unused, of the same type, and the input is not
/// blank; with the last output taken.
pub open spec fn index_pass(ins: Seq<(CellType, Seq<char>)>, outs: Seq<(CellType, Seq<char>)>, m: Seq<Option<int>>, used: Seq<bool>, n: int) -> (Seq<Option<int>>, Seq<bool>, Option<int>)
    decreases n,
{
    if n <= 0 {
        (m, used, None)
    } else {
        let (m1, u1, prev) = index_pass(ins, outs, m, used, n - 1);
        let i = n - 1;
        if m1[i] is Some {
            (m1, u1, m1[i])
        } else {
            let next = match prev {
                Some(p) => p + 1,
                None => 0,
            };
            if next >= outs.len() || u1[next] {
                (m1, u1, prev)
            } else if ins[i].0 == outs[next].0 && trim(ins[i].1).len() > 0 {
                (m1.update(i, Some(next)), u1.update(next, true), Some(next))
            } else {
                (m1, u1, prev)
            }
        }
    }
}

/// The output matched with each input, by the four rules in turn.
pub open spec fn outputs_for_inputs(ins: Seq<(CellType, Seq<char>)>, outs: Seq<(CellType, Seq<char>)>) -> Seq<Option<int>> {
    let n = ins.len() as int;
    let m1 = exact_matches(ins, outs, n).0;
    let u1 = used_outputs(m1, outs.len() as int);
    let (m2, u2) = content_pass(ins, outs, m1, u1, false, n);
    let (m3, u3) = content_pass(ins, outs, m2, u2, true, n);
    index_pass(ins, outs, m3, u3, n).0
}

} // verus!

verus! {

fn find_exact(t: CellType, src: &str, outs: &[(CellType, String)], start: usize) -> (r: Option<usize>)
    ensures
        match r {
            Some(j) => exact_from(t, src@, cell_views(outs@), start as int) == Some(j as int) && j
                < outs@.len(),
            None => exact_from(t, src@, cell_views(outs@), start as int) is None,
        },
{
    let ghost o = cell_views(outs@);
    let mut j: usize = start;
    while j < outs.len()
        invariant
            start <= j,
            o == cell_views(outs@),
            exact_from(t, src@, o, start as int) == exact_from(t, src@, o, j as int),
        decreases outs.len() - j,
    {
        assert(o[j as int] == (outs@[j as int].0, outs@[j as int].1@));
        if outs[j].0 == t && same_content(src, outs[j].1.as_str(), false) {
            return Some(j);
        }
        j += 1;
    }
    None
}

fn find_unused(
    t: CellType,
    src: &str,
    outs: &[(CellType, String)],
    used: &Vec<bool>,
    endswith: bool,
) -> (r: Option<usize>)
    requires
        used@.len() == outs@.len(),
    ensures
        match r {
            Some(j) => unused_match(t, src@, cell_views(outs@), used@, endswith, 0) == Some(
                j as int,
            ) && j < outs@.len(),
            None => unused_match(t, src@, cell_views(outs@), used@, endswith, 0) is None,
        },
{
    let ghost o = cell_views(outs@);
    let mut j: usize = 0;
    while j < outs.len()
        invariant
            o == cell_views(outs@),
            used@.len() == outs@.len(),
            unused_match(t, src@, o, used@, endswith, 0) == unused_match(
                t,
                src@,
                o,
                used@,
                endswith,
                j as int,
            ),
        decreases outs.len() - j,
    {
        assert(o[j as int] == (outs@[j as int].0, outs@[j as int].1@));
        if !used[j] && outs[j].0 == t && same_content(outs[j].1.as_str(), src, endswith) {
            return Some(j);
        }
        j += 1;
    }
    None
}

fn slot(t: CellType) -> (r: usize)
    ensures
        r == type_slot(t),
{
    match t {
        CellType::Code => 0,
        CellType::Markdown => 1,
        CellType::Raw => 2,
    }
}

fn exact_pass(ins: &[(CellType, String)], outs: &[(CellType, String)]) -> (r: Vec<Option<usize>>)
    ensures
        r@.len() == ins@.len(),
        mapping_view(r@) == exact_matches(cell_views(ins@), cell_views(outs@), ins@.len() as int).0,
        forall|i: int| 0 <= i < r@.len() ==> (#[trigger] r@[i] matches Some(j) ==> j < outs@.len()),
{
    let ghost iv = cell_views(ins@);
    let ghost ov = cell_views(outs@);
    let mut m: Vec<Option<usize>> = Vec::new();
    let mut st: Vec<usize> = vec![0, 0, 0];
    let mut i: usize = 0;
    assert(mapping_view(m@) =~= Seq::<Option<int>>::empty());
    assert(st@.map_values(|x: usize| x as int) =~= seq![0int, 0int, 0int]);
    while i < ins.len()
        invariant
            i <= ins@.len(),
            m@.len() == i,
            iv == cell_views(ins@),
            ov == cell_views(outs@),
            st@.len() == 3,
            (mapping_view(m@), st@.map_values(|x: usize| x as int)) == exact_matches(
                iv,
                ov,
                i as int,
            ),
            forall|k: int| 0 <= k < m@.len() ==> (#[trigger] m@[k] matches Some(j) ==> j
                < outs@.len()),
        decreases ins.len() - i,
    {
        let t = ins[i].0;
        assert(iv[i as int] == (t, ins@[i as int].1@));
        let s = slot(t);
        let ghost before = mapping_view(m@);
        match find_exact(t, ins[i].1.as_str(), outs, st[s]) {
            Some(j) => {
                let n = outs.len();
                assert(j < n);
                m.push(Some(j));
                st.set(s, j + 1);
                assert(mapping_view(m@) =~= before.push(Some(j as int)));
            },
            None => {
                m.push(None);
                assert(mapping_view(m@) =~= before.push(None));
            },
        }
        assert(st@.map_values(|x: usize| x as int) =~= exact_matches(iv, ov, i + 1).1);
        i += 1;
    }
    m
}

fn used_by(m: &Vec<Option<usize>>, n_out: usize) -> (r: Vec<bool>)
    requires
        forall|i: int| 0 <= i < m@.len() ==> (#[trigger] m@[i] matches Some(j) ==> j < n_out),
    ensures
        r@ == used_outputs(mapping_view(m@), n_out as int),
{
    let mut used: Vec<bool> = Vec::new();
    let mut j: usize = 0;
    while j < n_out
        invariant
            j <= n_out,
            used@.len() == j,
            forall|k: int| 0 <= k < j ==> !(#[trigger] used@[k]),
        decreases n_out - j,
    {
        used.push(false);
        j += 1;
    }
    let mut i: usize = 0;
    while i < m.len()
        invariant
            i <= m@.len(),
            used@.len() == n_out,
            forall|k: int| 0 <= k < m@.len() ==> (#[trigger] m@[k] matches Some(j) ==> j < n_out),
            forall|k: int|
                0 <= k < n_out ==> (#[trigger] used@[k] <==> mapping_view(m@).take(i as int).contains(
                    Some(k),
                )),
        decreases m.len() - i,
    {
        let ghost mv = mapping_view(m@);
        assert(mv.take(i + 1) =~= mv.take(i as int).push(mv[i as int]));
        match m[i] {
            Some(j) => {
                used.set(j, true);
            },
            None => {},
        }
        assert forall|k: int| 0 <= k < n_out implies (#[trigger] used@[k] <==> mv.take(i + 1).contains(
            Some(k),
        )) by {
            let next = mv.take(i + 1);
            let cur = mv.take(i as int);
            if next.contains(Some(k)) {
                let x = choose|x: int| 0 <= x < next.len() && next[x] == Some(k);
                if x < i {
                    assert(cur[x] == Some(k));
                }
            }
            if cur.contains(Some(k)) {
                let x = choose|x: int| 0 <= x < cur.len() && cur[x] == Some(k);
                assert(next[x] == Some(k));
            }
            if used@[k] && !mv.take(i as int).contains(Some(k)) {
                assert(mv.take(i + 1)[i as int] == Some(k));
            }
        }
        i += 1;
    }
    assert(mapping_view(m@).take(m@.len() as int) =~= mapping_view(m@));
    assert(used@ =~= used_outputs(mapping_view(m@), n_out as int));
    used
}

fn content_rule(
    ins: &[(CellType, String)],
    outs: &[(CellType, String)],
    m: &mut Vec<Option<usize>>,
    used: &mut Vec<bool>,
    endswith: bool,
)
    requires
        old(m)@.len() == ins@.len(),
        old(used)@.len() == outs@.len(),
        forall|k: int| 0 <= k < old(m)@.len() ==> (#[trigger] old(m)@[k] matches Some(j) ==> j < outs@.len()),
    ensures
        final(m)@.len() == ins@.len(),
        final(used)@.len() == outs@.len(),
        forall|k: int| 0 <= k < final(m)@.len() ==> (#[trigger] final(m)@[k] matches Some(j) ==> j < outs@.len()),
        (mapping_view(final(m)@), final(used)@) == content_pass(
            cell_views(ins@),
            cell_views(outs@),
            mapping_view(old(m)@),
            old(used)@,
            endswith,
            ins@.len() as int,
        ),
{
    let ghost iv = cell_views(ins@);
    let ghost ov = cell_views(outs@);
    let ghost m0 = mapping_view(m@);
    let ghost u0 = used@;
    let mut i: usize = 0;
    while i < ins.len()
        invariant
            i <= ins@.len(),
            iv == cell_views(ins@),
            ov == cell_views(outs@),
            m@.len() == ins@.len(),
            used@.len() == outs@.len(),
            m0.len() == ins@.len(),
            (mapping_view(m@), used@) == content_pass(iv, ov, m0, u0, endswith, i as int),
            forall|k: int| i <= k < m@.len() ==> mapping_view(m@)[k] == m0[k],
            forall|k: int| 0 <= k < m@.len() ==> (#[trigger] m@[k] matches Some(j) ==> j < outs@.len()),
        decreases ins.len() - i,
    {
        assert(iv[i as int] == (ins@[i as int].0, ins@[i as int].1@));
        if m[i].is_none() {
            match find_unused(ins[i].0, ins[i].1.as_str(), outs, used, endswith) {
                Some(j) => {
                    let ghost before = mapping_view(m@);
                    m.set(i, Some(j));
                    used.set(j, true);
                    assert(mapping_view(m@) =~= before.update(i as int, Some(j as int)));
                },
                None => {},
            }
        }
        i += 1;
    }
}

fn index_rule(
    ins: &[(CellType, String)],
    outs: &[(CellType, String)],
    m: &mut Vec<Option<usize>>,
    used: &mut Vec<bool>,
)
    requires
        old(m)@.len() == ins@.len(),
        old(used)@.len() == outs@.len(),
        forall|k: int| 0 <= k < old(m)@.len() ==> (#[trigger] old(m)@[k] matches Some(j) ==> j < outs@.len()),
    ensures
        mapping_view(final(m)@) == index_pass(
            cell_views(ins@),
            cell_views(outs@),
            mapping_view(old(m)@),
            old(used)@,
            ins@.len() as int,
        ).0,
{
    let ghost iv = cell_views(ins@);
    let ghost ov = cell_views(outs@);
    let ghost m0 = mapping_view(m@);
    let ghost u0 = used@;
    let mut prev: Option<usize> = None;
    let mut i: usize = 0;
    while i < ins.len()
        invariant
            i <= ins@.len(),
            iv == cell_views(ins@),
            ov == cell_views(outs@),
            m@.len() == ins@.len(),
            used@.len() == outs@.len(),
            m0.len() == ins@.len(),
            (mapping_view(m@), used@, match prev {
                Some(p) => Some(p as int),
                None => None,
            }) == index_pass(iv, ov, m0, u0, i as int),
            prev matches Some(p) ==> p < outs@.len(),
            forall|k: int| i <= k < m@.len() ==> mapping_view(m@)[k] == m0[k],
            forall|k: int| 0 <= k < m@.len() ==> (#[trigger] m@[k] matches Some(j) ==> j < outs@.len()),
        decreases ins.len() - i,
    {
        assert(iv[i as int] == (ins@[i as int].0, ins@[i as int].1@));
        match m[i] {
            Some(j) => {
                prev = Some(j);
            },
            None => {
                let n = outs.len();
                let next: usize = match prev {
                    Some(p) => {
                        assert(p < n);
                        p + 1
                    },
                    None => 0,
                };
                if next < outs.len() && !used[next] {
                    assert(ov[next as int] == (outs@[next as int].0, outs@[next as int].1@));
                    if ins[i].0 == outs[next].0 && !is_blank(ins[i].1.as_str()) {
                        let ghost before = mapping_view(m@);
                        m.set(i, Some(next));
                        used.set(next, true);
                        prev = Some(next);
                        assert(mapping_view(m@) =~= before.update(i as int, Some(next as int)));
                    }
                }
            },
        }
        i += 1;
    }
}

/// The output cell matched with each input cell (cells given by type and source), by four
/// rules in turn: same content in order for each cell type; same content among the unused
/// outputs; an output that ends with the input's content; the output after the one matched
/// with the previous input, when of the same type and the input is not blank.
pub fn map_outputs_to_inputs(cells_inputs: &[(CellType, String)], cells_outputs: &[(CellType, String)]) -> (r: Vec<Option<usize>>)
    ensures
        mapping_view(r@) == outputs_for_inputs(cell_views(cells_inputs@), cell_views(cells_outputs@)),
{
    let mut m = exact_pass(cells_inputs, cells_outputs);
    let mut used = used_by(&m, cells_outputs.len());
    content_rule(cells_inputs, cells_outputs, &mut m, &mut used, false);
    content_rule(cells_inputs, cells_outputs, &mut m, &mut used, true);
    index_rule(cells_inputs, cells_outputs, &mut m, &mut used);
    m
}

} // verus!

verus! {

/// A mapping from inputs to outputs is within range, matches cells of the same type, uses
/// each output at most once, and `used` marks the outputs that it uses.
pub open spec fn mapping_ok(ins: Seq<(CellType, Seq<char>)>, outs: Seq<(CellType, Seq<char>)>, m: Seq<Option<int>>, used: Seq<bool>) -> bool {
    &&& m.len() == ins.len()
    &&& used.len() == outs.len()
    &&& forall|i: int|
        0 <= i < m.len() ==> (#[trigger] m[i] matches Some(j) ==> 0 <= j < outs.len() && outs[j].0
            == ins[i].0)
    &&& forall|i1: int, i2: int|
        0 <= i1 < i2 < m.len() ==> (#[trigger] m[i1] matches Some(j) ==> #[trigger] m[i2] != Some(j))
    &&& forall|j: int| 0 <= j < outs.len() ==> (#[trigger] used[j] <==> m.contains(Some(j)))
}

proof fn lemma_exact_from(t: CellType, src: Seq<char>, outs: Seq<(CellType, Seq<char>)>, j: int)
    ensures
        exact_from(t, src, outs, j) matches Some(k) ==> j <= k < outs.len() && 0 <= k && outs[k].0
            == t,
    decreases outs.len() - j,
{
    if 0 <= j < outs.len() {
        lemma_exact_from(t, src, outs, j + 1);
    }
}

proof fn lemma_exact_matches(ins: Seq<(CellType, Seq<char>)>, outs: Seq<(CellType, Seq<char>)>, n: int)
    requires
        0 <= n <= ins.len(),
    ensures
        ({
            let (m, st) = exact_matches(ins, outs, n);
            &&& m.len() == n
            &&& st.len() == 3
            &&& forall|s: int| 0 <= s < 3 ==> st[s] >= 0
            &&& forall|i: int|
                0 <= i < n ==> (#[trigger] m[i] matches Some(j) ==> 0 <= j < outs.len() && outs[j].0
                    == ins[i].0 && j < st[type_slot(ins[i].0)])
            &&& forall|i1: int, i2: int|
                0 <= i1 < i2 < n ==> (#[trigger] m[i1] matches Some(j) ==> #[trigger] m[i2] != Some(
                    j,
                ))
        }),
    decreases n,
{
    if n > 0 {
        lemma_exact_matches(ins, outs, n - 1);
        let (m, st) = exact_matches(ins, outs, n - 1);
        let (t, src) = ins[n - 1];
        lemma_exact_from(t, src, outs, st[type_slot(t)]);
        let (m2, st2) = exact_matches(ins, outs, n);
        assert forall|i: int|
            0 <= i < n implies (#[trigger] m2[i] matches Some(j) ==> 0 <= j < outs.len()
            && outs[j].0 == ins[i].0 && j < st2[type_slot(ins[i].0)]) by {
            if i < n - 1 {
                assert(m2[i] == m[i]);
            }
        }
        assert forall|i1: int, i2: int|
            0 <= i1 < i2 < n implies (#[trigger] m2[i1] matches Some(j) ==> #[trigger] m2[i2]
            != Some(j)) by {
            if i2 < n - 1 {
                assert(m2[i1] == m[i1]);
                assert(m2[i2] == m[i2]);
            } else {
                assert(m2[i1] == m[i1]);
            }
        }
    }
}

proof fn lemma_unused_match(t: CellType, src: Seq<char>, outs: Seq<(CellType, Seq<char>)>, used: Seq<bool>, e: bool, j: int)
    ensures
        unused_match(t, src, outs, used, e, j) matches Some(k) ==> 0 <= k < outs.len() && !used[k]
            && outs[k].0 == t,
    decreases outs.len() - j,
{
    if 0 <= j < outs.len() {
        lemma_unused_match(t, src, outs, used, e, j + 1);
    }
}

proof fn lemma_take_output(ins: Seq<(CellType, Seq<char>)>, outs: Seq<(CellType, Seq<char>)>, m: Seq<Option<int>>, used: Seq<bool>, i: int, j: int)
    requires
        mapping_ok(ins, outs, m, used),
        0 <= i < m.len(),
        m[i] is None,
        0 <= j < outs.len(),
        !used[j],
        outs[j].0 == ins[i].0,
    ensures
        mapping_ok(ins, outs, m.update(i, Some(j)), used.update(j, true)),
{
    let m2 = m.update(i, Some(j));
    let u2 = used.update(j, true);
    assert(!m.contains(Some(j)));
    assert forall|i1: int, i2: int|
        0 <= i1 < i2 < m2.len() implies (#[trigger] m2[i1] matches Some(k) ==> #[trigger] m2[i2]
        != Some(k)) by {
        if i1 == i {
            if m2[i2] == Some(j) {
                assert(m[i2] == Some(j));
            }
        } else if i2 == i {
            if m2[i1] == Some(j) {
                assert(m[i1] == Some(j));
            }
        }
    }
    assert forall|k: int| 0 <= k < outs.len() implies (#[trigger] u2[k] <==> m2.contains(Some(k))) by {
        if k == j {
            assert(m2[i] == Some(j));
        } else {
            if m2.contains(Some(k)) {
                let x = choose|x: int| 0 <= x < m2.len() && m2[x] == Some(k);
                assert(m[x] == Some(k));
            }
            if m.contains(Some(k)) {
                let x = choose|x: int| 0 <= x < m.len() && m[x] == Some(k);
                assert(m2[x] == Some(k));
            }
        }
    }
}

proof fn lemma_content_pass(ins: Seq<(CellType, Seq<char>)>, outs: Seq<(CellType, Seq<char>)>, m: Seq<Option<int>>, used: Seq<bool>, e: bool, n: int)
    requires
        mapping_ok(ins, outs, m, used),
        0 <= n <= ins.len(),
    ensures
        mapping_ok(ins, outs, content_pass(ins, outs, m, used, e, n).0, content_pass(ins, outs, m, used, e, n).1),
    decreases n,
{
    if n > 0 {
        lemma_content_pass(ins, outs, m, used, e, n - 1);
        let (m1, u1) = content_pass(ins, outs, m, used, e, n - 1);
        if m1[n - 1] is None {
            lemma_unused_match(ins[n - 1].0, ins[n - 1].1, outs, u1, e, 0);
            match unused_match(ins[n - 1].0, ins[n - 1].1, outs, u1, e, 0) {
                Some(j) => {
                    lemma_take_output(ins, outs, m1, u1, n - 1, j);
                },
                None => {},
            }
        }
    }
}

proof fn lemma_index_pass(ins: Seq<(CellType, Seq<char>)>, outs: Seq<(CellType, Seq<char>)>, m: Seq<Option<int>>, used: Seq<bool>, n: int)
    requires
        mapping_ok(ins, outs, m, used),
        0 <= n <= ins.len(),
    ensures
        mapping_ok(ins, outs, index_pass(ins, outs, m, used, n).0, index_pass(ins, outs, m, used, n).1),
        index_pass(ins, outs, m, used, n).2 matches Some(p) ==> p >= 0,
    decreases n,
{
    if n > 0 {
        lemma_index_pass(ins, outs, m, used, n - 1);
        let (m1, u1, prev) = index_pass(ins, outs, m, used, n - 1);
        let i = n - 1;
        if m1[i] is None {
            let next = match prev {
                Some(p) => p + 1,
                None => 0,
            };
            if 0 <= next < outs.len() && !u1[next] && ins[i].0 == outs[next].0 && trim(ins[i].1).len() > 0 {
                lemma_take_output(ins, outs, m1, u1, i, next);
            }
        }
    }
}

/// The matching of output cells with input cells gives each input at most one output,
/// of the same cell type, and never gives one output to two inputs.
pub proof fn outputs_for_inputs_facts(ins: Seq<(CellType, Seq<char>)>, outs: Seq<(CellType, Seq<char>)>)
    ensures
        ({
            let m = outputs_for_inputs(ins, outs);
            &&& m.len() == ins.len()
            &&& forall|i: int|
                0 <= i < m.len() ==> (#[trigger] m[i] matches Some(j) ==> 0 <= j < outs.len()
                    && outs[j].0 == ins[i].0)
            &&& forall|i1: int, i2: int|
                0 <= i1 < i2 < m.len() ==> (#[trigger] m[i1] matches Some(j) ==> #[trigger] m[i2]
                    != Some(j))
        }),
{
    let n = ins.len() as int;
    lemma_exact_matches(ins, outs, n);
    let m1 = exact_matches(ins, outs, n).0;
    let u1 = used_outputs(m1, outs.len() as int);
    assert(mapping_ok(ins, outs, m1, u1));
    lemma_content_pass(ins, outs, m1, u1, false, n);
    let (m2, u2) = content_pass(ins, outs, m1, u1, false, n);
    lemma_content_pass(ins, outs, m2, u2, true, n);
    let (m3, u3) = content_pass(ins, outs, m2, u2, true, n);
    lemma_index_pass(ins, outs, m3, u3, n);
}

} // verus!
