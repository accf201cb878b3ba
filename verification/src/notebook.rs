//! The types of notebook cells.

use vstd::prelude::*;
use crate::text::{owned, str_eq};

verus! {

/// The type of a notebook cell.
#[derive(Debug, Clone, Copy, PartialEq, Eq, Structural)]
pub enum CellType {
    Code,
    Markdown,
    Raw,
}

/// The name of a cell type.
pub open spec fn cell_type_name(t: CellType) -> Seq<char> {
    match t {
        CellType::Code => "code"@,
        CellType::Markdown => "markdown"@,
        CellType::Raw => "raw"@,
    }
}

/// The cell type that a name stands for: `code`, `markdown` (or `md`), `raw`.
pub open spec fn cell_type_of(s: Seq<char>) -> Option<CellType> {
    if s == "code"@ {
        Some(CellType::Code)
    } else if s == "markdown"@ || s == "md"@ {
        Some(CellType::Markdown)
    } else if s == "raw"@ {
        Some(CellType::Raw)
    } else {
        None
    }
}

impl CellType {
    /// The cell type that a name stands for.
    pub fn from_str(s: &str) -> (r: Option<CellType>)
        ensures
            r == cell_type_of(s@),
    {
        if str_eq(s, "code") {
            Some(CellType::Code)
        } else if str_eq(s, "markdown") || str_eq(s, "md") {
            Some(CellType::Markdown)
        } else if str_eq(s, "raw") {
            Some(CellType::Raw)
        } else {
            None
        }
    }

    /// The name of the cell type: `code`, `markdown` or `raw`.
    pub fn to_string(&self) -> (r: String)
        ensures
            r@ == cell_type_name(*self),
    {
        match self {
            CellType::Code => owned("code"),
            CellType::Markdown => owned("markdown"),
            CellType::Raw => owned("raw"),
        }
    }
}

/// Reading the name of a cell type gives the cell type back.
pub proof fn cell_type_name_round_trip(t: CellType)
    ensures
        cell_type_of(cell_type_name(t)) == Some(t),
{
    reveal_strlit("code");
    reveal_strlit("markdown");
    reveal_strlit("md");
    reveal_strlit("raw");
    match t {
        CellType::Code => {
            assert("code"@.len() == 4);
            assert("markdown"@.len() == 8);
            assert("md"@.len() == 2);
        },
        CellType::Markdown => {
            assert("code"@.len() == 4);
            assert("markdown"@.len() == 8);
        },
        CellType::Raw => {
            assert("code"@.len() == 4);
            assert("markdown"@.len() == 8);
            assert("md"@.len() == 2);
            assert("raw"@.len() == 3);
        },
    }
}

} // verus!

verus! {

/// A notebook cell. Its metadata is a list of entries, each a key (no key twice) and the
/// compact JSON text of its value; `execution_count` and `outputs` (present for code cells)
/// are JSON texts too.
#[derive(Debug, Clone)]
pub struct Cell {
    pub cell_type: CellType,
    pub source: String,
    pub metadata: Vec<(String, String)>,
    pub execution_count: Option<String>,
    pub outputs: Option<Vec<String>>,
    pub id: Option<String>,
}

/// A notebook: its format version, its metadata (keys and compact JSON texts of their
/// values, no key twice) and its cells.
#[derive(Debug, Clone)]
pub struct Notebook {
    pub nbformat: u32,
    pub nbformat_minor: u32,
    pub metadata: Vec<(String, String)>,
    pub cells: Vec<Cell>,
}

/// The metadata entries as plain values.
pub open spec fn entries_view(m: Seq<(String, String)>) -> Seq<(Seq<char>, Seq<char>)> {
    crate::format_map::pair_views(m)
}

/// The metadata as a map from keys to JSON texts.
pub open spec fn entries_map(m: Seq<(String, String)>) -> Map<Seq<char>, Seq<char>> {
    crate::format_map::map_of(entries_view(m))
}

/// No key occurs twice in the metadata.
pub open spec fn valid_entries(m: Seq<(String, String)>) -> bool {
    crate::format_map::distinct_keys(entries_view(m))
}

/// The plain values of a cell: type, source, metadata entries, execution count, outputs
/// and id.
pub open spec fn cell_view(c: Cell) -> (CellType, Seq<char>, Seq<(Seq<char>, Seq<char>)>, Option<Seq<char>>, Option<Seq<Seq<char>>>, Option<Seq<char>>) {
    (
        c.cell_type,
        c.source@,
        entries_view(c.metadata@),
        match c.execution_count {
            Some(s) => Some(s@),
            None => None,
        },
        match c.outputs {
            Some(v) => Some(crate::text::views(v@)),
            None => None,
        },
        match c.id {
            Some(s) => Some(s@),
            None => None,
        },
    )
}

/// The plain values of the cells.
pub open spec fn cells_view(cs: Seq<Cell>) -> Seq<(CellType, Seq<char>, Seq<(Seq<char>, Seq<char>)>, Option<Seq<char>>, Option<Seq<Seq<char>>>, Option<Seq<char>>)> {
    cs.map_values(|c: Cell| cell_view(c))
}

/// The value of `key` in the metadata, if any.
pub fn entry_value<'a>(m: &'a Vec<(String, String)>, key: &str) -> (r: Option<&'a String>)
    requires
        valid_entries(m@),
    ensures
        match r {
            Some(v) => entries_map(m@).contains_key(key@) && v@ == entries_map(m@)[key@],
            None => !entries_map(m@).contains_key(key@),
        },
{
    proof {
        crate::format_map::lemma_map_of(entries_view(m@));
    }
    let mut i: usize = 0;
    while i < m.len()
        invariant
            i <= m@.len(),
            valid_entries(m@),
            forall|j: int| 0 <= j < i ==> m@[j].0@ != key@,
        decreases m.len() - i,
    {
        proof {
            crate::format_map::lemma_map_of(entries_view(m@));
        }
        if crate::text::str_eq(m[i].0.as_str(), key) {
            assert(entries_view(m@)[i as int].0 == key@);
            assert(entries_map(m@)[entries_view(m@)[i as int].0] == entries_view(m@)[i as int].1);
            return Some(&m[i].1);
        }
        i += 1;
    }
    proof {
        crate::format_map::lemma_map_of(entries_view(m@));
        if entries_map(m@).contains_key(key@) {
            let j = choose|j: int| 0 <= j < entries_view(m@).len() && entries_view(m@)[j].0 == key@;
            assert(m@[j].0@ == key@);
        }
    }
    None
}

/// The two metadata hold the same keys with the same values.
pub fn same_entries(a: &Vec<(String, String)>, b: &Vec<(String, String)>) -> (r: bool)
    requires
        valid_entries(a@),
        valid_entries(b@),
    ensures
        r == (entries_map(a@) == entries_map(b@)),
{
    proof {
        crate::format_map::lemma_map_of(entries_view(a@));
        crate::format_map::lemma_map_of(entries_view(b@));
    }
    let mut i: usize = 0;
    while i < a.len()
        invariant
            i <= a@.len(),
            valid_entries(a@),
            valid_entries(b@),
            forall|j: int| 0 <= j < i ==> #[trigger] entries_map(b@).contains_key(a@[j].0@) && entries_map(b@)[a@[j].0@] == a@[j].1@,
        decreases a.len() - i,
    {
        proof {
            crate::format_map::lemma_map_of(entries_view(a@));
        }
        assert(entries_view(a@)[i as int] == (a@[i as int].0@, a@[i as int].1@));
        assert(entries_map(a@)[entries_view(a@)[i as int].0] == entries_view(a@)[i as int].1);
        match entry_value(b, a[i].0.as_str()) {
            Some(v) => {
                if !crate::text::str_eq(v.as_str(), a[i].1.as_str()) {
                    assert(entries_map(a@)[a@[i as int].0@] == a@[i as int].1@);
                    return false;
                }
                assert(entries_map(b@).contains_key(a@[i as int].0@) && entries_map(b@)[a@[i as int].0@] == a@[i as int].1@);
                assert forall|j: int| 0 <= j < i + 1 implies #[trigger] entries_map(b@).contains_key(a@[j].0@) && entries_map(b@)[a@[j].0@] == a@[j].1@ by {
                    if j < i {
                        assert(entries_map(b@).contains_key(a@[j].0@));
                    }
                }
            },
            None => {
                assert(entries_map(a@).contains_key(a@[i as int].0@));
                return false;
            },
        }
        i += 1;
    }
    let mut j: usize = 0;
    while j < b.len()
        invariant
            j <= b@.len(),
            valid_entries(a@),
            valid_entries(b@),
            forall|k: int| 0 <= k < a@.len() ==> #[trigger] entries_map(b@).contains_key(a@[k].0@) && entries_map(b@)[a@[k].0@] == a@[k].1@,
            forall|k: int| 0 <= k < j ==> #[trigger] entries_map(a@).contains_key(b@[k].0@),
        decreases b.len() - j,
    {
        proof {
            crate::format_map::lemma_map_of(entries_view(b@));
        }
        assert(entries_view(b@)[j as int] == (b@[j as int].0@, b@[j as int].1@));
        match entry_value(a, b[j].0.as_str()) {
            Some(_) => {},
            None => {
                assert(entries_map(b@).contains_key(b@[j as int].0@));
                return false;
            },
        }
        j += 1;
    }
    proof {
        crate::format_map::lemma_map_of(entries_view(a@));
        crate::format_map::lemma_map_of(entries_view(b@));
        let ma = entries_map(a@);
        let mb = entries_map(b@);
        assert forall|k: Seq<char>| ma.contains_key(k) <==> mb.contains_key(k) by {
            if ma.contains_key(k) {
                let x = choose|x: int| 0 <= x < entries_view(a@).len() && entries_view(a@)[x].0 == k;
                assert(a@[x].0@ == k);
            }
            if mb.contains_key(k) {
                let x = choose|x: int| 0 <= x < entries_view(b@).len() && entries_view(b@)[x].0 == k;
                assert(b@[x].0@ == k);
            }
        }
        assert forall|k: Seq<char>| ma.contains_key(k) implies ma[k] == mb[k] by {
            let x = choose|x: int| 0 <= x < entries_view(a@).len() && entries_view(a@)[x].0 == k;
            assert(a@[x].0@ == k);
            assert(ma[entries_view(a@)[x].0] == entries_view(a@)[x].1);
        }
        assert(ma =~= mb);
    }
    true
}

/// A copy of metadata entries.
pub fn copy_entries(m: &Vec<(String, String)>) -> (r: Vec<(String, String)>)
    ensures
        entries_view(r@) == entries_view(m@),
{
    let mut out: Vec<(String, String)> = Vec::new();
    let mut i: usize = 0;
    while i < m.len()
        invariant
            i <= m@.len(),
            entries_view(out@) == entries_view(m@).take(i as int),
        decreases m.len() - i,
    {
        let k = crate::text::owned(m[i].0.as_str());
        let v = crate::text::owned(m[i].1.as_str());
        let ghost before = entries_view(out@);
        assert(entries_view(m@)[i as int] == (m@[i as int].0@, m@[i as int].1@));
        out.push((k, v));
        assert(entries_view(out@) =~= before.push(entries_view(m@)[i as int]));
        assert(entries_view(out@) =~= entries_view(m@).take(i + 1));
        i += 1;
    }
    assert(entries_view(m@).take(m@.len() as int) =~= entries_view(m@));
    out
}

/// A copy of a list of texts.
pub fn copy_texts(v: &Vec<String>) -> (r: Vec<String>)
    ensures
        crate::text::views(r@) == crate::text::views(v@),
{
    let mut out: Vec<String> = Vec::new();
    let mut i: usize = 0;
    while i < v.len()
        invariant
            i <= v@.len(),
            crate::text::views(out@) == crate::text::views(v@).take(i as int),
        decreases v.len() - i,
    {
        let ghost before = crate::text::views(out@);
        out.push(crate::text::owned(v[i].as_str()));
        assert(crate::text::views(out@) =~= before.push(crate::text::views(v@)[i as int]));
        assert(crate::text::views(out@) =~= crate::text::views(v@).take(i + 1));
        i += 1;
    }
    assert(crate::text::views(v@).take(v@.len() as int) =~= crate::text::views(v@));
    out
}

/// A copy of a cell.
pub fn copy_cell(c: &Cell) -> (r: Cell)
    ensures
        cell_view(r) == cell_view(*c),
{
    Cell {
        cell_type: c.cell_type,
        source: crate::text::owned(c.source.as_str()),
        metadata: copy_entries(&c.metadata),
        execution_count: match &c.execution_count {
            Some(s) => Some(crate::text::owned(s.as_str())),
            None => None,
        },
        outputs: match &c.outputs {
            Some(v) => Some(copy_texts(v)),
            None => None,
        },
        id: match &c.id {
            Some(s) => Some(crate::text::owned(s.as_str())),
            None => None,
        },
    }
}

} // verus!
