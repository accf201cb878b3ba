//! Notebook and cell metadata filters: `key1,key2,-key3` strings, their parsed form, and
//! the filters of notebooks read from scripts.

use vstd::prelude::*;
use crate::cell_metadata::{is_valid_metadata_key, metadata_key_pattern};
use crate::format_check::{lemma_lex_total, lemma_lex_transitive, lex_less, lex_lt};
use crate::pattern::regex_hit;
use crate::text::{
    chars_of, has_char, has_prefix, is_blank, is_ws, join, split_char, split_on, starts_with,
    str_eq, string_of, trim, trim_str, views,
};

verus! {

broadcast use crate::text::views_push;

/// Default notebook metadata to preserve.
pub const DEFAULT_NOTEBOOK_METADATA: &'static str = "jupytext,kernelspec,kernel_info,orphan,tocdepth";

/// Jupyter metadata namespace key.
pub const JUPYTER_METADATA_NAMESPACE: &'static str = "jupyter";

/// Default root level metadata filter.
pub const DEFAULT_ROOT_LEVEL_METADATA: &'static str = "-all";

/// A set of metadata keys: all of them, or the listed ones.
#[derive(Debug, Clone)]
pub enum FilterSpec {
    All,
    Keys(Vec<String>),
}

/// Metadata filter parsed as a dictionary.
#[derive(Debug, Clone)]
pub struct MetadataFilter {
    pub additional: FilterSpec,
    pub excluded: FilterSpec,
}

/// The keys of a filter spec: `None` for all keys.
pub open spec fn spec_keys(f: FilterSpec) -> Option<Seq<Seq<char>>> {
    match f {
        FilterSpec::All => None,
        FilterSpec::Keys(k) => Some(views(k@)),
    }
}

impl Default for FilterSpec {
    fn default() -> (r: Self)
        ensures
            spec_keys(r) == Some(Seq::<Seq<char>>::empty()),
    {
        FilterSpec::Keys(Vec::new())
    }
}

impl Default for MetadataFilter {
    fn default() -> (r: Self)
        ensures
            spec_keys(r.additional) == Some(Seq::<Seq<char>>::empty()),
            spec_keys(r.excluded) == Some(Seq::<Seq<char>>::empty()),
    {
        MetadataFilter { additional: FilterSpec::Keys(Vec::new()), excluded: FilterSpec::Keys(Vec::new()) }
    }
}

/// The key belongs to the set.
pub open spec fn spec_contains(f: FilterSpec, key: Seq<char>) -> bool {
    match spec_keys(f) {
        None => true,
        Some(k) => k.contains(key),
    }
}

impl FilterSpec {
    /// Is this the set of all keys?
    pub fn is_all(&self) -> (r: bool)
        ensures
            r == (spec_keys(*self) is None),
    {
        match self {
            FilterSpec::All => true,
            FilterSpec::Keys(_) => false,
        }
    }

    /// Does the set contain `key`?
    pub fn contains(&self, key: &str) -> (r: bool)
        ensures
            r == spec_contains(*self, key@),
    {
        match self {
            FilterSpec::All => true,
            FilterSpec::Keys(keys) => {
                let mut i: usize = 0;
                while i < keys.len()
                    invariant
                        i <= keys@.len(),
                        spec_keys(*self) == Some(views(keys@)),
                        forall|j: int| 0 <= j < i ==> views(keys@)[j] != key@,
                    decreases keys.len() - i,
                {
                    if str_eq(keys[i].as_str(), key) {
                        assert(views(keys@)[i as int] == key@);
                        return true;
                    }
                    i += 1;
                }
                false
            },
        }
    }
}

/// The filter state after the entries `pieces[..n]`: additional keys, excluded keys,
/// and whether all keys were added or excluded.
pub open spec fn filter_fold(pieces: Seq<Seq<char>>, n: int) -> (Seq<Seq<char>>, Seq<Seq<char>>, bool, bool)
    decreases n,
{
    if n <= 0 {
        (Seq::empty(), Seq::empty(), false, false)
    } else {
        let prev = filter_fold(pieces, n - 1);
        let key = trim(pieces[n - 1]);
        if key.len() == 0 {
            prev
        } else if key[0] == '-' {
            let k = key.subrange(1, key.len() as int);
            if k == "all"@ {
                (prev.0, prev.1, prev.2, true)
            } else if k.len() > 0 {
                (prev.0, prev.1.push(k), prev.2, prev.3)
            } else {
                prev
            }
        } else if key[0] == '+' {
            let k = key.subrange(1, key.len() as int);
            if k == "all"@ {
                (prev.0, prev.1, true, prev.3)
            } else if k.len() > 0 {
                (prev.0.push(k), prev.1, prev.2, prev.3)
            } else {
                prev
            }
        } else if key == "all"@ {
            (prev.0, prev.1, true, prev.3)
        } else {
            (prev.0.push(key), prev.1, prev.2, prev.3)
        }
    }
}

/// The filter that a filter string describes: additional keys (`None` for all) and
/// excluded keys (`None` for all).
pub open spec fn parsed_filter(config: Seq<char>) -> (Option<Seq<Seq<char>>>, Option<Seq<Seq<char>>>) {
    let c = trim(config);
    if c.len() == 0 {
        (Some(Seq::empty()), Some(Seq::empty()))
    } else {
        let pieces = split_on(c, ',');
        let f = filter_fold(pieces, pieces.len() as int);
        (if f.2 { None } else { Some(f.0) }, if f.3 { None } else { Some(f.1) })
    }
}

/// Parse a metadata filter string to a `MetadataFilter`.
pub fn metadata_filter_as_dict(config: &str) -> (r: MetadataFilter)
    ensures
        (spec_keys(r.additional), spec_keys(r.excluded)) == parsed_filter(config@),
{
    let config = trim_str(config);
    if crate::text::char_len(config.as_str()) == 0 {
        return MetadataFilter::default();
    }
    proof {
        reveal_strlit("all");
    }
    let keys = split_char(config.as_str(), ',');
    let ghost pieces = views(keys@);
    let mut additional: Vec<String> = Vec::new();
    let mut excluded: Vec<String> = Vec::new();
    let mut has_all_additional = false;
    let mut has_all_excluded = false;
    let mut i: usize = 0;
    while i < keys.len()
        invariant
            pieces == views(keys@),
            i <= keys@.len(),
            filter_fold(pieces, i as int) == (views(additional@), views(excluded@), has_all_additional, has_all_excluded),
        decreases keys.len() - i,
    {
        let key = trim_str(keys[i].as_str());
        assert(key@ == trim(pieces[i as int]));
        let kv = chars_of(key.as_str());
        if kv.len() == 0 {
            i += 1;
            continue;
        }
        let k = string_of(&kv, 1, kv.len());
        if kv[0] == '-' {
            if str_eq(k.as_str(), "all") {
                has_all_excluded = true;
            } else if kv.len() > 1 {
                excluded.push(k);
            }
        } else if kv[0] == '+' {
            if str_eq(k.as_str(), "all") {
                has_all_additional = true;
            } else if kv.len() > 1 {
                additional.push(k);
            }
        } else if str_eq(key.as_str(), "all") {
            has_all_additional = true;
        } else {
            additional.push(key);
        }
        i += 1;
    }
    MetadataFilter {
        additional: if has_all_additional {
            FilterSpec::All
        } else {
            FilterSpec::Keys(additional)
        },
        excluded: if has_all_excluded {
            FilterSpec::All
        } else {
            FilterSpec::Keys(excluded)
        },
    }
}

/// The metadata keys that Jupytext itself uses in cells.
pub open spec fn jupytext_cell_metadata_keys() -> Seq<Seq<char>> {
    seq!["skipline"@, "noskipline"@, "cell_marker"@, "lines_to_next_cell"@, "lines_to_end_of_cell_marker"@]
}

/// Jupytext-specific cell metadata keys.
pub fn jupytext_cell_metadata() -> (r: Vec<&'static str>)
    ensures
        crate::languages::str_views(r@) == jupytext_cell_metadata_keys(),
{
    let v = vec!["skipline", "noskipline", "cell_marker", "lines_to_next_cell", "lines_to_end_of_cell_marker"];
    assert(crate::languages::str_views(v@) =~= jupytext_cell_metadata_keys());
    v
}

/// Is the key one that Jupytext uses in cells?
pub fn is_jupytext_cell_metadata(key: &str) -> (r: bool)
    ensures
        r == jupytext_cell_metadata_keys().contains(key@),
{
    let t = jupytext_cell_metadata();
    let mut i: usize = 0;
    while i < t.len()
        invariant
            crate::languages::str_views(t@) == jupytext_cell_metadata_keys(),
            i <= t@.len(),
            forall|j: int| 0 <= j < i ==> jupytext_cell_metadata_keys()[j] != key@,
        decreases t.len() - i,
    {
        assert(crate::languages::str_views(t@)[i as int] == t@[i as int]@);
        if str_eq(t[i], key) {
            assert(jupytext_cell_metadata_keys()[i as int] == key@);
            return true;
        }
        i += 1;
    }
    false
}

/// The entries of a filter string, in order.
pub open spec fn filter_entries(f: MetadataFilter) -> Seq<Seq<char>> {
    let add = match spec_keys(f.additional) {
        None => seq!["all"@],
        Some(k) => k.filter(|key: Seq<char>| !jupytext_cell_metadata_keys().contains(key)),
    };
    let exc = match spec_keys(f.excluded) {
        None => seq!["-all"@],
        Some(k) => k.map_values(|key: Seq<char>| "-"@ + key),
    };
    add + exc
}

/// Convert a `MetadataFilter` back to a string.
pub fn metadata_filter_as_string(filter: &MetadataFilter) -> (r: String)
    ensures
        r@ == crate::text::join(filter_entries(*filter), ","@),
{
    let mut entries: Vec<String> = Vec::new();
    match &filter.additional {
        FilterSpec::All => {
            entries.push(crate::text::owned("all"));
            assert(views(entries@) =~= seq!["all"@]);
        },
        FilterSpec::Keys(keys) => {
            let ghost f = |key: Seq<char>| !jupytext_cell_metadata_keys().contains(key);
            let mut i: usize = 0;
            while i < keys.len()
                invariant
                    i <= keys@.len(),
                    views(entries@) == views(keys@).take(i as int).filter(f),
                    f == (|key: Seq<char>| !jupytext_cell_metadata_keys().contains(key)),
                decreases keys.len() - i,
            {
                proof {
                    assert(views(keys@).take(i + 1) =~= views(keys@).take(i as int).push(views(keys@)[i as int]));
                    views(keys@).take(i as int).lemma_filter_push(views(keys@)[i as int], f);
                }
                if !is_jupytext_cell_metadata(keys[i].as_str()) {
                    entries.push(keys[i].clone());
                }
                i += 1;
            }
            assert(views(keys@).take(keys@.len() as int) =~= views(keys@));
        },
    }
    let ghost add = views(entries@);
    match &filter.excluded {
        FilterSpec::All => {
            entries.push(crate::text::owned("-all"));
            assert(views(entries@) =~= add + seq!["-all"@]);
        },
        FilterSpec::Keys(keys) => {
            let mut i: usize = 0;
            while i < keys.len()
                invariant
                    i <= keys@.len(),
                    views(entries@) == add + views(keys@).take(i as int).map_values(|key: Seq<char>| "-"@ + key),
                decreases keys.len() - i,
            {
                entries.push(crate::text::concat("-", keys[i].as_str()));
                assert(views(keys@).take(i + 1).map_values(|key: Seq<char>| "-"@ + key) =~= views(keys@).take(i as int).map_values(|key: Seq<char>| "-"@ + key).push("-"@ + keys@[i as int]@));
                assert(views(entries@) =~= add + views(keys@).take(i + 1).map_values(|key: Seq<char>| "-"@ + key));
                i += 1;
            }
            assert(views(keys@).take(keys@.len() as int) =~= views(keys@));
        },
    }
    assert(views(entries@) =~= filter_entries(*filter));
    crate::text::join_strings(&entries, ",")
}

} // verus!

verus! {

/// The key belongs to the set of keys (`None` for all keys).
pub open spec fn in_keys(spec: Option<Seq<Seq<char>>>, key: Seq<char>) -> bool {
    match spec {
        None => true,
        Some(k) => k.contains(key),
    }
}

/// Whether `filter_metadata` keeps the metadata key `k`: a valid key that the user filter,
/// together with the default filter, keeps. When the default filter excludes all keys, the
/// user filter adds to its keys; otherwise it removes keys from, or keeps keys out of, its
/// exclusions, and an empty `tags` entry goes.
pub open spec fn kept_metadata_key(k: Seq<char>, empty_tags: bool, user: Seq<char>, default: Seq<char>) -> bool {
    let (da, de) = parsed_filter(default);
    let (ua, ue) = parsed_filter(user);
    &&& regex_hit(metadata_key_pattern(), k)
    &&& if de is None {
        if ua is None {
            !in_keys(ue, k)
        } else if ue is None {
            in_keys(ua, k)
        } else {
            let combined = match (da, ua) {
                (Some(d), Some(u)) => Some(d + u),
                _ => None,
            };
            in_keys(combined, k) && !in_keys(ue, k)
        }
    } else {
        if ua is None {
            !in_keys(ue, k)
        } else if ue is None {
            in_keys(ua, k)
        } else {
            let excluded = (de->0.contains(k) && !ua->0.contains(k)) || ue->0.contains(k);
            !(k == "tags"@ && empty_tags) && !excluded
        }
    }
}

/// Filters the keys of a metadata map (in their order), given whether its `tags` entry is
/// an empty list: the keys that remain after the user filter and the default filter.
pub fn filter_metadata(keys: &[String], empty_tags: bool, user_filter: &str, default_filter: &str) -> (r: Vec<String>)
    ensures
        views(r@) == views(keys@).filter(|k: Seq<char>| kept_metadata_key(k, empty_tags, user_filter@, default_filter@)),
{
    let default = metadata_filter_as_dict(default_filter);
    let user = metadata_filter_as_dict(user_filter);
    let ghost f = |k: Seq<char>| kept_metadata_key(k, empty_tags, user_filter@, default_filter@);
    let ghost ks = views(keys@);
    let mut out: Vec<String> = Vec::new();
    let mut i: usize = 0;
    proof {
        reveal(Seq::filter);
        reveal_strlit("tags");
        assert(ks.take(0).filter(f) =~= Seq::<Seq<char>>::empty());
    }
    while i < keys.len()
        invariant
            i <= keys@.len(),
            ks == views(keys@),
            f == (|k: Seq<char>| kept_metadata_key(k, empty_tags, user_filter@, default_filter@)),
            views(out@) == ks.take(i as int).filter(f),
            (spec_keys(default.additional), spec_keys(default.excluded)) == parsed_filter(default_filter@),
            (spec_keys(user.additional), spec_keys(user.excluded)) == parsed_filter(user_filter@),
        decreases keys.len() - i,
    {
        let k = keys[i].as_str();
        assert(k@ == ks[i as int]);
        let valid = is_valid_metadata_key(k);
        let keep = valid && if default.excluded.is_all() {
            if user.additional.is_all() {
                !user.excluded.contains(k)
            } else if user.excluded.is_all() {
                user.additional.contains(k)
            } else {
                let in_combined = match (&default.additional, &user.additional) {
                    (FilterSpec::Keys(_), FilterSpec::Keys(_)) => default.additional.contains(k)
                        || user.additional.contains(k),
                    _ => true,
                };
                in_combined && !user.excluded.contains(k)
            }
        } else {
            if user.additional.is_all() {
                !user.excluded.contains(k)
            } else if user.excluded.is_all() {
                user.additional.contains(k)
            } else {
                let excluded = (default.excluded.contains(k) && !user.additional.contains(k))
                    || user.excluded.contains(k);
                !(str_eq(k, "tags") && empty_tags) && !excluded
            }
        };
        proof {
            assert(ks.take(i + 1).drop_last() =~= ks.take(i as int));
            reveal(Seq::filter);
            match (spec_keys(default.additional), spec_keys(user.additional)) {
                (Some(d), Some(u)) => lemma_add_contains(d, u, k@),
                _ => {},
            }
            assert(keep == f(ks[i as int]));
        }
        if keep {
            out.push(keys[i].clone());
        }
        proof {
            reveal(Seq::filter);
        }
        i += 1;
    }
    assert(ks.take(keys@.len() as int) =~= ks);
    out
}

/// A key is in the concatenation of two lists when it is in one of them.
proof fn lemma_add_contains(d: Seq<Seq<char>>, u: Seq<Seq<char>>, k: Seq<char>)
    ensures
        (d + u).contains(k) == (d.contains(k) || u.contains(k)),
{
    if d.contains(k) {
        let j = choose|j: int| 0 <= j < d.len() && d[j] == k;
        assert((d + u)[j] == k);
    }
    if u.contains(k) {
        let j = choose|j: int| 0 <= j < u.len() && u[j] == k;
        assert((d + u)[d.len() + j] == k);
    }
    if (d + u).contains(k) {
        let j = choose|j: int| 0 <= j < (d + u).len() && (d + u)[j] == k;
        if j < d.len() {
            assert(d[j] == k);
        } else {
            assert(u[j - d.len()] == k);
        }
    }
}

} // verus!

verus! {

/// An additional key that a filter string can hold as it is: not empty, without commas,
/// not starting or ending with whitespace, not starting with `-` or `+`, and not `all`.
pub open spec fn clean_additional_key(k: Seq<char>) -> bool {
    &&& k.len() > 0
    &&& !is_ws(k[0])
    &&& !is_ws(k.last())
    &&& !has_char(k, ',')
    &&& k[0] != '-'
    &&& k[0] != '+'
    &&& k != "all"@
}

/// An excluded key that a filter string can hold after a `-`: not empty, without commas,
/// not ending with whitespace, and not `all`.
pub open spec fn clean_excluded_key(k: Seq<char>) -> bool {
    &&& k.len() > 0
    &&& !is_ws(k.last())
    &&& !has_char(k, ',')
    &&& k != "all"@
}

/// The keys of the filter are such as a filter string can hold.
pub open spec fn clean_filter(f: MetadataFilter) -> bool {
    &&& match spec_keys(f.additional) {
        Some(ks) => forall|i: int| 0 <= i < ks.len() ==> clean_additional_key(#[trigger] ks[i]),
        None => true,
    }
    &&& match spec_keys(f.excluded) {
        Some(ks) => forall|i: int| 0 <= i < ks.len() ==> clean_excluded_key(#[trigger] ks[i]),
        None => true,
    }
}

/// The additional keys that the string of a filter keeps: all of them, or those that
/// Jupytext does not use in cells.
pub open spec fn kept_additional(f: MetadataFilter) -> Option<Seq<Seq<char>>> {
    match spec_keys(f.additional) {
        None => None,
        Some(k) => Some(k.filter(|key: Seq<char>| !jupytext_cell_metadata_keys().contains(key))),
    }
}

proof fn lemma_split_on_len(s: Seq<char>, c: char)
    ensures
        split_on(s, c).len() >= 1,
    decreases s.len(),
{
    if s.len() > 0 {
        lemma_split_on_len(s.drop_last(), c);
    }
}

/// Splitting text that ends without the separator extends the last piece.
proof fn lemma_split_on_append(a: Seq<char>, b: Seq<char>, c: char)
    requires
        !has_char(b, c),
    ensures
        split_on(a + b, c) == split_on(a, c).update(
            split_on(a, c).len() - 1,
            split_on(a, c).last() + b,
        ),
    decreases b.len(),
{
    lemma_split_on_len(a, c);
    if b.len() == 0 {
        assert(a + b =~= a);
        assert(split_on(a, c).last() + b =~= split_on(a, c).last());
        assert(split_on(a, c).update(split_on(a, c).len() - 1, split_on(a, c).last()) =~= split_on(a, c));
    } else {
        let b0 = b.drop_last();
        assert(!has_char(b0, c)) by {
            if has_char(b0, c) {
                let i = choose|i: int| 0 <= i < b0.len() && b0[i] == c;
                assert(b[i] == c);
            }
        }
        lemma_split_on_append(a, b0, c);
        assert((a + b).drop_last() =~= a + b0);
        assert((a + b).last() == b.last());
        assert(b.last() != c) by {
            assert(b[b.len() - 1] == b.last());
        }
        lemma_split_on_len(a + b0, c);
        let sa = split_on(a, c);
        let init = split_on(a + b0, c);
        assert(init == sa.update(sa.len() - 1, sa.last() + b0));
        assert(init.len() == sa.len());
        assert(init.last() == sa.last() + b0);
        assert(split_on(a + b, c) == init.update(init.len() - 1, init.last().push(b.last())));
        assert((sa.last() + b0).push(b.last()) =~= sa.last() + b);
        assert(split_on(a + b, c) =~= split_on(a, c).update(
            split_on(a, c).len() - 1,
            split_on(a, c).last() + b,
        ));
    }
}

/// Splitting the joined pieces gives the pieces back, when none holds a comma.
proof fn lemma_split_join(parts: Seq<Seq<char>>)
    requires
        parts.len() > 0,
        forall|i: int| 0 <= i < parts.len() ==> !has_char(#[trigger] parts[i], ','),
    ensures
        split_on(join(parts, ","@), ',') == parts,
    decreases parts.len(),
{
    reveal_strlit(",");
    if parts.len() == 1 {
        lemma_split_on_append(Seq::empty(), parts[0], ',');
        assert(Seq::<char>::empty() + parts[0] =~= parts[0]);
        assert(split_on(Seq::<char>::empty(), ',') =~= seq![Seq::<char>::empty()]);
        assert(Seq::<char>::empty() + parts[0] =~= parts[0]);
        assert(split_on(parts[0], ',') =~= parts);
    } else {
        let init = parts.drop_last();
        assert forall|i: int| 0 <= i < init.len() implies !has_char(#[trigger] init[i], ',') by {
            assert(init[i] == parts[i]);
        }
        lemma_split_join(init);
        let a = join(init, ","@) + ","@;
        assert(","@ =~= seq![',']);
        assert(a.drop_last() =~= join(init, ","@));
        assert(split_on(a, ',') =~= init.push(Seq::<char>::empty()));
        assert(!has_char(parts.last(), ',')) by {
            assert(parts.last() == parts[parts.len() - 1]);
        }
        lemma_split_on_append(a, parts.last(), ',');
        assert(Seq::<char>::empty() + parts.last() =~= parts.last());
        assert(join(parts, ","@) == a + parts.last());
        assert(split_on(join(parts, ","@), ',') =~= parts);
    }
}

/// The joined pieces start with the first character of the first piece and end with the
/// last character of the last one.
proof fn lemma_join_ends(parts: Seq<Seq<char>>)
    requires
        parts.len() > 0,
        parts[0].len() > 0,
        parts.last().len() > 0,
    ensures
        join(parts, ","@).len() > 0,
        join(parts, ","@)[0] == parts[0][0],
        join(parts, ","@).last() == parts.last().last(),
    decreases parts.len(),
{
    if parts.len() > 1 {
        let init = parts.drop_last();
        if init.len() > 1 {
            assert(init.last() == parts[parts.len() - 2]);
        }
        if init.last().len() > 0 {
            lemma_join_ends(init);
        } else {
            lemma_join_first(init);
        }
    }
}

/// The joined pieces start with the first character of the first piece.
proof fn lemma_join_first(parts: Seq<Seq<char>>)
    requires
        parts.len() > 0,
        parts[0].len() > 0,
    ensures
        join(parts, ","@).len() > 0,
        join(parts, ","@)[0] == parts[0][0],
    decreases parts.len(),
{
    if parts.len() > 1 {
        lemma_join_first(parts.drop_last());
    }
}

/// A text that neither starts nor ends with whitespace is its own trim.
proof fn lemma_trim_clean(s: Seq<char>)
    requires
        s.len() > 0,
        !is_ws(s[0]),
        !is_ws(s.last()),
    ensures
        trim(s) == s,
{
}

/// Folding the entries of a filter string gives the keys of the filter.
proof fn lemma_fold_entries(f: MetadataFilter, n: int)
    requires
        clean_filter(f),
        0 <= n <= filter_entries(f).len(),
    ensures
        ({
            let add = match kept_additional(f) {
                Some(k) => k,
                None => seq!["all"@],
            };
            let r = filter_fold(filter_entries(f), n);
            if n <= add.len() {
                r == (if kept_additional(f) is Some {
                    add.take(n)
                } else {
                    Seq::empty()
                }, Seq::<Seq<char>>::empty(), kept_additional(f) is None && n == 1, false)
            } else {
                let m = n - add.len();
                r == (if kept_additional(f) is Some {
                    add
                } else {
                    Seq::empty()
                }, match spec_keys(f.excluded) {
                    Some(k) => k.take(m),
                    None => Seq::empty(),
                }, kept_additional(f) is None, spec_keys(f.excluded) is None)
            }
        }),
    decreases n,
{
    reveal_strlit("all");
    reveal_strlit("-all");
    reveal_strlit("-");
    let add = match kept_additional(f) {
        Some(k) => k,
        None => seq!["all"@],
    };
    let entries = filter_entries(f);
    let pred = |key: Seq<char>| !jupytext_cell_metadata_keys().contains(key);
    if n > 0 {
        lemma_fold_entries(f, n - 1);
        let piece = entries[n - 1];
        if n <= add.len() {
            assert(piece == add[n - 1]);
            match spec_keys(f.additional) {
                Some(ks) => {
                    let k = ks.filter(pred);
                    assert(k.contains(k[n - 1]));
                    ks.lemma_filter_contains_rev(pred, k[n - 1]);
                    let j = choose|j: int| 0 <= j < ks.len() && ks[j] == k[n - 1];
                    assert(clean_additional_key(ks[j]));
                    lemma_trim_clean(piece);
                    assert(k.take(n - 1).push(piece) =~= k.take(n));
                },
                None => {
                    assert(piece == "all"@);
                    assert("all"@ =~= seq!['a', 'l', 'l']);
                },
            }
        } else {
            let m = n - add.len();
            match spec_keys(f.excluded) {
                Some(ks) => {
                    let key = ks[m - 1];
                    assert(clean_excluded_key(key));
                    assert(piece == "-"@ + key);
                    assert("-"@ =~= seq!['-']);
                    assert(piece.last() == key.last());
                    lemma_trim_clean(piece);
                    assert(piece.subrange(1, piece.len() as int) =~= key);
                    assert(ks.take(m - 1).push(key) =~= ks.take(m));
                    if m == 1 {
                        assert(ks.take(0) =~= Seq::<Seq<char>>::empty());
                    }
                },
                None => {
                    assert(piece == "-all"@);
                    assert("-all"@ =~= seq!['-', 'a', 'l', 'l']);
                    assert(piece.subrange(1, piece.len() as int) =~= "all"@);
                },
            }
            if m == 1 {
                if kept_additional(f) is Some {
                    assert(add.take(add.len() as int) =~= add);
                }
            }
        }
    } else {
        assert(add.take(0) =~= Seq::<Seq<char>>::empty());
    }
}

/// The string of a filter reads back as the filter: its additional keys but those that
/// Jupytext uses in cells (which the string leaves out), and its excluded keys, for keys
/// that a filter string can hold.
pub proof fn metadata_filter_string_round_trip(f: MetadataFilter)
    requires
        clean_filter(f),
    ensures
        parsed_filter(join(filter_entries(f), ","@)) == (kept_additional(f), spec_keys(f.excluded)),
{
    reveal_strlit("all");
    reveal_strlit("-all");
    reveal_strlit("-");
    assert("all"@ =~= seq!['a', 'l', 'l']);
    assert("-all"@ =~= seq!['-', 'a', 'l', 'l']);
    assert("-"@ =~= seq!['-']);
    let entries = filter_entries(f);
    let pred = |key: Seq<char>| !jupytext_cell_metadata_keys().contains(key);
    let add = match kept_additional(f) {
        Some(k) => k,
        None => seq!["all"@],
    };
    let exc = match spec_keys(f.excluded) {
        None => seq!["-all"@],
        Some(k) => k.map_values(|key: Seq<char>| "-"@ + key),
    };
    assert(entries == add + exc);
    // Every entry is clean: no commas, not empty, no whitespace at its ends (but
    // excluded entries, which start with `-`).
    assert forall|i: int| 0 <= i < entries.len() implies !has_char(#[trigger] entries[i], ',')
        && entries[i].len() > 0 && !is_ws(entries[i].last()) && !is_ws(entries[i][0]) by {
        if i < add.len() {
            assert(entries[i] == add[i]);
            match spec_keys(f.additional) {
                Some(ks) => {
                    let k = ks.filter(pred);
                    assert(k.contains(k[i]));
                    ks.lemma_filter_contains_rev(pred, k[i]);
                    let j = choose|j: int| 0 <= j < ks.len() && ks[j] == k[i];
                    assert(clean_additional_key(ks[j]));
                },
                None => {
                    if has_char(entries[i], ',') {
                        let x = choose|x: int| 0 <= x < entries[i].len() && entries[i][x] == ',';
                    }
                },
            }
        } else {
            let m = i - add.len();
            assert(entries[i] == exc[m]);
            match spec_keys(f.excluded) {
                Some(ks) => {
                    let key = ks[m];
                    assert(clean_excluded_key(key));
                    assert(entries[i] == "-"@ + key);
                    assert(entries[i].last() == key.last());
                    if has_char(entries[i], ',') {
                        let x = choose|x: int| 0 <= x < entries[i].len() && entries[i][x] == ',';
                        assert(key[x - 1] == ',');
                    }
                },
                None => {
                    if has_char(entries[i], ',') {
                        let x = choose|x: int| 0 <= x < entries[i].len() && entries[i][x] == ',';
                    }
                },
            }
        }
    }
    if entries.len() == 0 {
        assert(add.len() == 0);
        assert(exc.len() == 0);
        assert(join(entries, ","@) =~= Seq::<char>::empty());
        match spec_keys(f.additional) {
            Some(ks) => {},
            None => {},
        }
        match spec_keys(f.excluded) {
            Some(ks) => {
                assert(ks =~= Seq::<Seq<char>>::empty());
            },
            None => {},
        }
        assert(trim(Seq::<char>::empty()) =~= Seq::<char>::empty());
    } else {
        assert(entries[0].len() > 0);
        assert(entries.last() == entries[entries.len() - 1]);
        lemma_join_ends(entries);
        let s = join(entries, ","@);
        lemma_trim_clean(s);
        lemma_split_join(entries);
        lemma_fold_entries(f, entries.len() as int);
        if add.len() == entries.len() {
            match spec_keys(f.excluded) {
                Some(ks) => {
                    assert(ks =~= Seq::<Seq<char>>::empty());
                },
                None => {},
            }
            if kept_additional(f) is Some {
                assert(add.take(add.len() as int) =~= add);
            }
        } else {
            match spec_keys(f.excluded) {
                Some(ks) => {
                    assert(ks.take(ks.len() as int) =~= ks);
                },
                None => {},
            }
        }
    }
}

} // verus!

verus! {

/// The keys are in order: none comes before the one ahead of it.
pub open spec fn keys_in_order(s: Seq<Seq<char>>) -> bool {
    forall|i: int, j: int| 0 <= i < j < s.len() ==> !lex_lt(#[trigger] s[j], #[trigger] s[i])
}

/// Inserting a key before the first key greater than it keeps the keys in order.
proof fn lemma_insert_in_order(s: Seq<Seq<char>>, p: int, x: Seq<char>)
    requires
        keys_in_order(s),
        0 <= p <= s.len(),
        forall|k: int| 0 <= k < p ==> !lex_lt(x, #[trigger] s[k]),
        p < s.len() ==> lex_lt(x, s[p]),
    ensures
        keys_in_order(s.insert(p, x)),
{
    let t = s.insert(p, x);
    assert forall|i: int, j: int| 0 <= i < j < t.len() implies !lex_lt(#[trigger] t[j], #[trigger] t[i]) by {
        if i < p && j == p {
            assert(t[i] == s[i]);
        } else if i == p && j > p {
            let y = s[j - 1];
            assert(t[j] == y);
            lemma_lex_transitive(y, x, s[p]);
            lemma_lex_total(s[p], s[p]);
            if j - 1 > p {
                assert(!lex_lt(s[j - 1], s[p]));
            }
        } else if i < p && j > p {
            assert(t[i] == s[i]);
            assert(t[j] == s[j - 1]);
        } else if j < p {
            assert(t[i] == s[i]);
            assert(t[j] == s[j]);
        } else {
            assert(t[i] == s[i - 1]);
            assert(t[j] == s[j - 1]);
        }
    }
}

/// The keys in order.
pub fn sort_keys(keys: &[String]) -> (r: Vec<String>)
    ensures
        views(r@).to_multiset() == views(keys@).to_multiset(),
        keys_in_order(views(r@)),
{
    let ghost ks = views(keys@);
    let mut out: Vec<String> = Vec::new();
    let mut i: usize = 0;
    proof {
        assert(ks.take(0) =~= Seq::<Seq<char>>::empty());
        assert(views(out@) =~= Seq::<Seq<char>>::empty());
    }
    while i < keys.len()
        invariant
            i <= keys@.len(),
            ks == views(keys@),
            views(out@).to_multiset() == ks.take(i as int).to_multiset(),
            keys_in_order(views(out@)),
        decreases keys.len() - i,
    {
        let x = keys[i].clone();
        let mut p: usize = 0;
        while p < out.len() && !lex_less(x.as_str(), out[p].as_str())
            invariant
                p <= out@.len(),
                forall|k: int| 0 <= k < p ==> !lex_lt(x@, #[trigger] views(out@)[k]),
            decreases out.len() - p,
        {
            p += 1;
        }
        let ghost before = views(out@);
        proof {
            lemma_insert_in_order(before, p as int, x@);
            vstd::seq_lib::to_multiset_insert(before, p as int, x@);
            vstd::seq_lib::to_multiset_build(ks.take(i as int), ks[i as int]);
            assert(ks.take(i + 1) =~= ks.take(i as int).push(ks[i as int]));
        }
        out.insert(p, x);
        assert(views(out@) =~= before.insert(p as int, ks[i as int]));
        i += 1;
    }
    assert(ks.take(keys@.len() as int) =~= ks);
    out
}

/// The metadata filters of a notebook's `jupytext` metadata: whether that is an object (or
/// missing, and then made), its `notebook_metadata_filter` and `cell_metadata_filter`
/// entries where they are strings, and whether it has a `cell_metadata_filter` entry.
pub struct NotebookFilters {
    pub jupytext_is_object: bool,
    pub notebook_metadata_filter: Option<String>,
    pub has_cell_metadata_filter: bool,
    pub cell_metadata_filter: Option<String>,
}

/// The plain value of an optional string.
pub open spec fn opt_view(o: Option<String>) -> Option<Seq<char>> {
    match o {
        Some(s) => Some(s@),
        None => None,
    }
}

/// The cell metadata keys that a filter names: those that Jupytext does not use itself.
pub open spec fn user_cell_keys(keys: Seq<Seq<char>>) -> Seq<Seq<char>> {
    keys.filter(|key: Seq<char>| !jupytext_cell_metadata_keys().contains(key))
}

/// The cell metadata filter of a script whose cells hold the keys `keys`: those keys in
/// order, then `-all`.
pub open spec fn cell_filter_for(keys: Seq<Seq<char>>, filter: Seq<char>) -> bool {
    exists|s: Seq<Seq<char>>|
        #![trigger join(s.push("-all"@), ","@)]
        keys_in_order(s) && s.to_multiset() == user_cell_keys(keys).to_multiset() && filter == join(
            s.push("-all"@),
            ","@,
        )
}

/// For a notebook read from a script without a Jupyter header: keep all the notebook
/// metadata out of the script, and no cell metadata but the keys that its cells hold.
pub fn update_metadata_filters(filters: &mut NotebookFilters, has_jupyter_md: bool, cell_metadata: &[String])
    requires
        views(cell_metadata@).no_duplicates(),
    ensures
        final(filters).jupytext_is_object == old(filters).jupytext_is_object,
        if !has_jupyter_md && old(filters).jupytext_is_object {
            &&& opt_view(final(filters).notebook_metadata_filter) == Some("-all"@)
            &&& final(filters).has_cell_metadata_filter
            &&& if old(filters).has_cell_metadata_filter {
                opt_view(final(filters).cell_metadata_filter) == opt_view(old(filters).cell_metadata_filter)
            } else {
                final(filters).cell_metadata_filter matches Some(f) && cell_filter_for(views(cell_metadata@), f@)
            }
        } else {
            &&& opt_view(final(filters).notebook_metadata_filter) == opt_view(old(filters).notebook_metadata_filter)
            &&& final(filters).has_cell_metadata_filter == old(filters).has_cell_metadata_filter
            &&& opt_view(final(filters).cell_metadata_filter) == opt_view(old(filters).cell_metadata_filter)
        },
{
    proof {
        reveal_strlit("-all");
    }
    if has_jupyter_md || !filters.jupytext_is_object {
        return;
    }
    filters.notebook_metadata_filter = Some(crate::text::owned("-all"));
    if filters.has_cell_metadata_filter {
        return;
    }
    let ghost ks = views(cell_metadata@);
    let ghost f = |key: Seq<char>| !jupytext_cell_metadata_keys().contains(key);
    let mut user: Vec<String> = Vec::new();
    let mut i: usize = 0;
    while i < cell_metadata.len()
        invariant
            i <= cell_metadata@.len(),
            ks == views(cell_metadata@),
            f == (|key: Seq<char>| !jupytext_cell_metadata_keys().contains(key)),
            views(user@) == ks.take(i as int).filter(f),
        decreases cell_metadata.len() - i,
    {
        proof {
            assert(ks.take(i + 1) =~= ks.take(i as int).push(ks[i as int]));
            ks.take(i as int).lemma_filter_push(ks[i as int], f);
        }
        if !is_jupytext_cell_metadata(cell_metadata[i].as_str()) {
            user.push(cell_metadata[i].clone());
        }
        i += 1;
    }
    assert(ks.take(cell_metadata@.len() as int) =~= ks);
    let mut parts = sort_keys(user.as_slice());
    let ghost sorted = views(parts@);
    parts.push(crate::text::owned("-all"));
    assert(views(parts@) =~= sorted.push("-all"@));
    let text = crate::text::join_strings(parts.as_slice(), ",");
    proof {
        reveal_strlit(",");
    }
    assert(text@ == join(sorted.push("-all"@), ","@));
    filters.has_cell_metadata_filter = true;
    filters.cell_metadata_filter = Some(text);
}

} // verus!
