//! A small string-to-string map for long-form format specifications
//! (`extension`, `format_name`, `prefix`, `suffix`, and format options).

use vstd::prelude::*;
use crate::text::{str_eq, views};

verus! {

broadcast use crate::text::views_push;

/// The map built by inserting the pairs of `s` from first to last.
pub open spec fn map_of<V>(s: Seq<(Seq<char>, V)>) -> Map<Seq<char>, V>
    decreases s.len(),
{
    if s.len() == 0 {
        Map::empty()
    } else {
        map_of(s.drop_last()).insert(s.last().0, s.last().1)
    }
}

/// No key occurs twice in `s`.
pub open spec fn distinct_keys<V>(s: Seq<(Seq<char>, V)>) -> bool {
    forall|i: int, j: int| 0 <= i < j < s.len() ==> s[i].0 != s[j].0
}

/// The plain values of a list of string pairs.
pub open spec fn pair_views(v: Seq<(String, String)>) -> Seq<(Seq<char>, Seq<char>)> {
    v.map_values(|p: (String, String)| (p.0@, p.1@))
}

/// The keys of `map_of(s)` are the first components of `s`, and with distinct keys
/// each key maps to its own second component.
pub proof fn lemma_map_of<V>(s: Seq<(Seq<char>, V)>)
    requires
        distinct_keys(s),
    ensures
        forall|k: Seq<char>| #[trigger]
            map_of(s).contains_key(k) <==> exists|i: int| 0 <= i < s.len() && s[i].0 == k,
        forall|i: int| 0 <= i < s.len() ==> #[trigger] map_of(s)[s[i].0] == s[i].1,
    decreases s.len(),
{
    if s.len() > 0 {
        let t = s.drop_last();
        assert(distinct_keys(t));
        lemma_map_of(t);
        assert forall|k: Seq<char>| #[trigger]
            map_of(s).contains_key(k) implies exists|i: int| 0 <= i < s.len() && s[i].0 == k by {
            if k != s.last().0 {
                assert(map_of(t).contains_key(k));
                let i = choose|i: int| 0 <= i < t.len() && t[i].0 == k;
                assert(s[i].0 == k);
            } else {
                assert(s[s.len() - 1].0 == k);
            }
        }
        assert forall|k: Seq<char>|
            (exists|i: int| 0 <= i < s.len() && s[i].0 == k) implies #[trigger] map_of(
            s,
        ).contains_key(k) by {
            let i = choose|i: int| 0 <= i < s.len() && s[i].0 == k;
            if i < s.len() - 1 {
                assert(t[i].0 == k);
                assert(map_of(t).contains_key(k));
            }
        }
        assert forall|i: int| 0 <= i < s.len() implies #[trigger] map_of(s)[s[i].0] == s[i].1 by {
            if i < s.len() - 1 {
                assert(t[i] == s[i]);
                assert(s[i].0 != s.last().0);
                assert(map_of(t).contains_key(t[i].0));
                assert(map_of(t)[t[i].0] == t[i].1);
            }
        }
    }
}

/// Replacing the value of one entry replaces the value of its key in the map.
pub proof fn lemma_map_of_update<V>(s: Seq<(Seq<char>, V)>, i: int, v: V)
    requires
        distinct_keys(s),
        0 <= i < s.len(),
    ensures
        distinct_keys(s.update(i, (s[i].0, v))),
        map_of(s.update(i, (s[i].0, v))) == map_of(s).insert(s[i].0, v),
{
    let u = s.update(i, (s[i].0, v));
    assert forall|a: int, b: int| 0 <= a < b < u.len() implies u[a].0 != u[b].0 by {
        assert(u[a].0 == s[a].0);
        assert(u[b].0 == s[b].0);
    }
    lemma_map_of(s);
    lemma_map_of(u);
    let m = map_of(s).insert(s[i].0, v);
    assert forall|k: Seq<char>| map_of(u).contains_key(k) <==> m.contains_key(k) by {
        if map_of(u).contains_key(k) {
            let j = choose|j: int| 0 <= j < u.len() && u[j].0 == k;
            assert(s[j].0 == k);
        }
        if map_of(s).contains_key(k) {
            let j = choose|j: int| 0 <= j < s.len() && s[j].0 == k;
            assert(u[j].0 == k);
        }
        if k == s[i].0 {
            assert(u[i].0 == k);
        }
    }
    assert forall|k: Seq<char>| #[trigger] map_of(u).contains_key(k) implies map_of(u)[k] == m[k] by {
        let j = choose|j: int| 0 <= j < u.len() && u[j].0 == k;
        assert(map_of(u)[u[j].0] == u[j].1);
        if j != i {
            assert(map_of(s)[s[j].0] == s[j].1);
        }
    }
    assert(map_of(u) =~= m);
}

/// The keys of `ks` that `m` lacks, in order.
pub open spec fn keys_not_in(ks: Seq<Seq<char>>, m: Map<Seq<char>, Seq<char>>) -> Seq<Seq<char>>
    decreases ks.len(),
{
    if ks.len() == 0 {
        Seq::empty()
    } else if m.contains_key(ks.last()) {
        keys_not_in(ks.drop_last(), m)
    } else {
        keys_not_in(ks.drop_last(), m).push(ks.last())
    }
}

/// A string-to-string map whose entries keep their insertion order.
#[derive(Debug)]
pub struct FormatMap {
    entries: Vec<(String, String)>,
}

impl View for FormatMap {
    type V = Map<Seq<char>, Seq<char>>;

    closed spec fn view(&self) -> Map<Seq<char>, Seq<char>> {
        map_of(pair_views(self.entries@))
    }
}

impl FormatMap {
    /// The keys, in the order in which they were first inserted.
    pub closed spec fn key_order(&self) -> Seq<Seq<char>> {
        pair_views(self.entries@).map_values(|p: (Seq<char>, Seq<char>)| p.0)
    }

    #[verifier::type_invariant]
    closed spec fn wf(self) -> bool {
        distinct_keys(pair_views(self.entries@))
    }

    /// The empty map.
    pub fn new() -> (r: FormatMap)
        ensures
            r@ == Map::<Seq<char>, Seq<char>>::empty(),
            r.key_order() == Seq::<Seq<char>>::empty(),
    {
        let r = FormatMap { entries: Vec::new() };
        assert(pair_views(r.entries@) =~= Seq::<(Seq<char>, Seq<char>)>::empty());
        assert(r.key_order() =~= Seq::<Seq<char>>::empty());
        r
    }

    fn position(&self, key: &str) -> (r: Option<usize>)
        ensures
            match r {
                Some(i) => i < self.entries@.len() && self.entries@[i as int].0@ == key@,
                None => !self@.contains_key(key@),
            },
    {
        proof {
            use_type_invariant(self);
            lemma_map_of(pair_views(self.entries@));
        }
        let mut i: usize = 0;
        while i < self.entries.len()
            invariant
                i <= self.entries@.len(),
                forall|j: int| 0 <= j < i ==> self.entries@[j].0@ != key@,
            decreases self.entries.len() - i,
        {
            if str_eq(self.entries[i].0.as_str(), key) {
                return Some(i);
            }
            i += 1;
        }
        proof {
            if self@.contains_key(key@) {
                let ps = pair_views(self.entries@);
                let j = choose|j: int| 0 <= j < ps.len() && ps[j].0 == key@;
                assert(self.entries@[j].0@ == key@);
            }
        }
        None
    }

    /// The value stored under `key`.
    pub fn get(&self, key: &str) -> (r: Option<String>)
        ensures
            match r {
                Some(v) => self@.contains_key(key@) && v@ == self@[key@],
                None => !self@.contains_key(key@),
            },
    {
        proof {
            use_type_invariant(self);
            lemma_map_of(pair_views(self.entries@));
        }
        match self.position(key) {
            Some(i) => {
                assert(pair_views(self.entries@)[i as int].0 == key@);
                Some(self.entries[i].1.clone())
            },
            None => None,
        }
    }

    /// `key` is in the map.
    pub fn contains_key(&self, key: &str) -> (r: bool)
        ensures
            r == self@.contains_key(key@),
    {
        proof {
            use_type_invariant(self);
            lemma_map_of(pair_views(self.entries@));
        }
        match self.position(key) {
            Some(i) => {
                assert(pair_views(self.entries@)[i as int].0 == key@);
                true
            },
            None => false,
        }
    }

    /// Stores `value` under `key`, replacing any earlier value; a new key comes last in the
    /// key order, a key already there keeps its place.
    pub fn insert(&mut self, key: String, value: String)
        ensures
            final(self)@ == old(self)@.insert(key@, value@),
            final(self).key_order() == if old(self)@.contains_key(key@) {
                old(self).key_order()
            } else {
                old(self).key_order().push(key@)
            },
    {
        proof {
            use_type_invariant(&*self);
            lemma_map_of(pair_views(self.entries@));
        }
        let ghost old_ps = pair_views(self.entries@);
        match self.position(key.as_str()) {
            Some(i) => {
                let ghost new_ps = old_ps.update(i as int, (key@, value@));
                proof {
                    assert(old_ps[i as int].0 == key@);
                    lemma_map_of_update(old_ps, i as int, value@);
                }
                let mut es: Vec<(String, String)> = Vec::new();
                std::mem::swap(&mut es, &mut self.entries);
                es.set(i, (key, value));
                assert(pair_views(es@) =~= new_ps);
                assert(new_ps.map_values(|p: (Seq<char>, Seq<char>)| p.0) =~= old_ps.map_values(
                    |p: (Seq<char>, Seq<char>)| p.0,
                ));
                self.entries = es;
            },
            None => {
                let ghost k = key@;
                let ghost v = value@;
                let mut es: Vec<(String, String)> = Vec::new();
                std::mem::swap(&mut es, &mut self.entries);
                es.push((key, value));
                assert(pair_views(es@) =~= old_ps.push((k, v)));
                assert(pair_views(es@).drop_last() =~= old_ps);
                assert(old_ps.push((k, v)).map_values(|p: (Seq<char>, Seq<char>)| p.0) =~= old_ps.map_values(
                    |p: (Seq<char>, Seq<char>)| p.0,
                ).push(k));
                proof {
                    assert forall|i: int, j: int|
                        0 <= i < j < pair_views(es@).len() implies pair_views(es@)[i].0
                        != pair_views(es@)[j].0 by {
                        if j == old_ps.len() {
                            assert(old_ps[i].0 != k);
                        }
                    }
                }
                self.entries = es;
            },
        }
    }

    /// Adds the entries of `other` whose keys are not in this map.
    pub fn extend_missing(&mut self, other: &FormatMap)
        ensures
            final(self)@ == other@.union_prefer_right(old(self)@),
            final(self).key_order() == old(self).key_order() + keys_not_in(other.key_order(), old(self)@),
    {
        proof {
            use_type_invariant(other);
            lemma_map_of(pair_views(other.entries@));
        }
        let ghost start = self@;
        let ghost start_order = self.key_order();
        let ghost ops = pair_views(other.entries@);
        let ghost oks = other.key_order();
        let mut i: usize = 0;
        while i < other.entries.len()
            invariant
                i <= other.entries@.len(),
                ops == pair_views(other.entries@),
                distinct_keys(ops),
                self@ == map_of(ops.take(i as int)).union_prefer_right(start),
                oks == ops.map_values(|p: (Seq<char>, Seq<char>)| p.0),
                self.key_order() == start_order + keys_not_in(oks.take(i as int), start),
            decreases other.entries.len() - i,
        {
            let (k, v) = &other.entries[i];
            assert(ops[i as int] == (k@, v@));
            let ghost before = self@;
            proof {
                let pre = ops.take(i as int);
                assert(distinct_keys(pre));
                lemma_map_of(pre);
                if map_of(pre).contains_key(k@) {
                    let j = choose|j: int| 0 <= j < pre.len() && pre[j].0 == k@;
                    assert(ops[j].0 == ops[i as int].0);
                }
            }
            if !self.contains_key(k.as_str()) {
                self.insert(k.clone(), v.clone());
            }
            assert(ops.take(i + 1).drop_last() =~= ops.take(i as int));
            assert(self@ =~= map_of(ops.take(i + 1)).union_prefer_right(start));
            assert(oks.take(i + 1).drop_last() =~= oks.take(i as int));
            assert(oks.take(i + 1).last() == k@);
            assert(self.key_order() =~= start_order + keys_not_in(oks.take(i + 1), start));
            i += 1;
        }
        assert(ops.take(other.entries@.len() as int) =~= ops);
        assert(oks.take(other.entries@.len() as int) =~= oks);
    }

    /// The keys of the map, in insertion order.
    pub fn keys(&self) -> (r: Vec<String>)
        ensures
            views(r@) == self.key_order(),
            forall|k: Seq<char>| self@.contains_key(k) <==> views(r@).contains(k),
            views(r@).no_duplicates(),
    {
        proof {
            use_type_invariant(self);
            lemma_map_of(pair_views(self.entries@));
        }
        let ghost ps = pair_views(self.entries@);
        let mut r: Vec<String> = Vec::new();
        let mut i: usize = 0;
        while i < self.entries.len()
            invariant
                i <= self.entries@.len(),
                ps == pair_views(self.entries@),
                distinct_keys(ps),
                views(r@) == ps.take(i as int).map_values(|p: (Seq<char>, Seq<char>)| p.0),
            decreases self.entries.len() - i,
        {
            r.push(self.entries[i].0.clone());
            assert(ps.take(i + 1).map_values(|p: (Seq<char>, Seq<char>)| p.0) =~= ps.take(
                i as int,
            ).map_values(|p: (Seq<char>, Seq<char>)| p.0).push(ps[i as int].0));
            i += 1;
        }
        let ghost ks = views(r@);
        assert(ks =~= ps.map_values(|p: (Seq<char>, Seq<char>)| p.0));
        assert forall|k: Seq<char>| self@.contains_key(k) implies ks.contains(k) by {
            let j = choose|j: int| 0 <= j < ps.len() && ps[j].0 == k;
            assert(ks[j] == k);
        }
        assert forall|k: Seq<char>| ks.contains(k) implies self@.contains_key(k) by {
            let j = choose|j: int| 0 <= j < ks.len() && ks[j] == k;
            assert(ps[j].0 == k);
        }
        r
    }
}

impl Clone for FormatMap {
    fn clone(&self) -> (r: Self)
        ensures
            r@ == self@,
            r.key_order() == self.key_order(),
    {
        proof {
            use_type_invariant(self);
        }
        let ghost ps = pair_views(self.entries@);
        let mut out: Vec<(String, String)> = Vec::new();
        let mut i: usize = 0;
        while i < self.entries.len()
            invariant
                i <= self.entries@.len(),
                ps == pair_views(self.entries@),
                distinct_keys(ps),
                pair_views(out@) == ps.take(i as int),
            decreases self.entries.len() - i,
        {
            let (k, v) = &self.entries[i];
            let ghost before = pair_views(out@);
            out.push((k.clone(), v.clone()));
            assert(pair_views(out@) =~= before.push(ps[i as int]));
            assert(ps.take(i + 1) =~= ps.take(i as int).push(ps[i as int]));
            i += 1;
        }
        assert(ps.take(self.entries@.len() as int) =~= ps);
        FormatMap { entries: out }
    }
}

} // verus!
