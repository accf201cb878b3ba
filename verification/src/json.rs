//! Metadata values as JSON and YAML texts, through `serde_json` and `serde_yaml`.
//!
//! A metadata value is held as its compact JSON text. What the outside crates compute
//! on those texts (parsing, printing) is named by the specification functions below.

use vstd::prelude::*;

verus! {

/// `format!("{:?}", map)` of the `BTreeMap<String, serde_json::Value>` whose entries are
/// the keys and the parsed JSON texts.
pub uninterp spec fn metadata_debug(m: Seq<(Seq<char>, Seq<char>)>) -> Seq<char>;

/// `format!("{:?}", o)` of an optional string.
pub uninterp spec fn option_debug(o: Option<Seq<char>>) -> Seq<char>;

/// The entries of the mapping that `serde_yaml::from_str` reads from a YAML text, each
/// value as its compact JSON text (`serde_json::to_string`); none when the text is not a
/// YAML mapping.
pub uninterp spec fn yaml_mapping_entries(text: Seq<char>) -> Option<Seq<(Seq<char>, Seq<char>)>>;

/// The entries of the JSON object that `serde_json::from_str` reads from a text, each
/// value as its compact JSON text; none when the text is not a JSON object.
pub uninterp spec fn json_object_entries(text: Seq<char>) -> Option<Seq<(Seq<char>, Seq<char>)>>;

/// The compact JSON text (`serde_json::to_string`) of the object made of the entries, each
/// value parsed from its JSON text (`null` for a text that does not parse).
pub uninterp spec fn json_object_text(m: Seq<(Seq<char>, Seq<char>)>) -> Seq<char>;

/// The YAML text (`serde_yaml::to_string`) of the mapping made of the entries, each value
/// parsed from its JSON text; none when `serde_yaml` fails.
pub uninterp spec fn yaml_mapping_text(m: Seq<(Seq<char>, Seq<char>)>) -> Option<Seq<char>>;

/// The plain values of metadata entries.
pub open spec fn entry_views(m: Seq<(String, String)>) -> Seq<(Seq<char>, Seq<char>)> {
    m.map_values(|p: (String, String)| (p.0@, p.1@))
}

/// Calls `format!("{:?}", ..)` on the map of the entries, each value parsed by
/// `serde_json::from_str`.
#[verifier::external_body]
pub(crate) fn metadata_debug_text(m: &Vec<(String, String)>) -> (r: String)
    ensures
        r@ == metadata_debug(entry_views(m@)),
{
    let mut map = std::collections::BTreeMap::new();
    for (k, v) in m.iter() {
        map.insert(k.clone(), serde_json::from_str::<serde_json::Value>(v).unwrap_or(serde_json::Value::Null));
    }
    format!("{:?}", map)
}

/// Calls `format!("{:?}", ..)` on an optional string.
#[verifier::external_body]
pub(crate) fn option_debug_text(o: &Option<String>) -> (r: String)
    ensures
        r@ == option_debug(
            match o {
                Some(s) => Some(s@),
                None => None,
            },
        ),
{
    format!("{:?}", o)
}

/// Calls `serde_yaml::from_str` on a text, and `serde_json::to_string` on each value of
/// the mapping it reads.
#[verifier::external_body]
pub(crate) fn yaml_entries(text: &str) -> (r: Option<Vec<(String, String)>>)
    ensures
        match r {
            Some(v) => yaml_mapping_entries(text@) == Some(entry_views(v@)),
            None => yaml_mapping_entries(text@) is None,
        },
{
    match serde_yaml::from_str::<serde_json::Value>(text) {
        Ok(serde_json::Value::Object(map)) => {
            let mut out = Vec::new();
            for (k, v) in map.iter() {
                out.push((k.clone(), serde_json::to_string(v).unwrap_or_default()));
            }
            Some(out)
        },
        _ => None,
    }
}

/// Calls `serde_json::from_str` on a text, and `serde_json::to_string` on each value of the
/// object it reads.
#[verifier::external_body]
pub(crate) fn json_entries(text: &str) -> (r: Option<Vec<(String, String)>>)
    ensures
        match r {
            Some(v) => json_object_entries(text@) == Some(entry_views(v@)),
            None => json_object_entries(text@) is None,
        },
{
    match serde_json::from_str::<serde_json::Value>(text) {
        Ok(serde_json::Value::Object(map)) => {
            let mut out = Vec::new();
            for (k, v) in map.iter() {
                out.push((k.clone(), serde_json::to_string(v).unwrap_or_default()));
            }
            Some(out)
        },
        _ => None,
    }
}

/// Calls `serde_json::to_string` on the object made of the entries.
#[verifier::external_body]
pub(crate) fn json_object(m: &Vec<(String, String)>) -> (r: String)
    ensures
        r@ == json_object_text(entry_views(m@)),
{
    let mut map = serde_json::Map::new();
    for (k, v) in m.iter() {
        map.insert(k.clone(), serde_json::from_str::<serde_json::Value>(v).unwrap_or(serde_json::Value::Null));
    }
    serde_json::to_string(&serde_json::Value::Object(map)).unwrap_or_default()
}

/// Calls `serde_yaml::to_string` on the mapping made of the entries.
#[verifier::external_body]
pub(crate) fn yaml_mapping(m: &Vec<(String, String)>) -> (r: Option<String>)
    ensures
        match r {
            Some(s) => yaml_mapping_text(entry_views(m@)) == Some(s@),
            None => yaml_mapping_text(entry_views(m@)) is None,
        },
{
    let mut map = serde_json::Map::new();
    for (k, v) in m.iter() {
        map.insert(k.clone(), serde_json::from_str::<serde_json::Value>(v).unwrap_or(serde_json::Value::Null));
    }
    serde_yaml::to_string(&serde_json::Value::Object(map)).ok()
}

} // verus!

verus! {

/// The text that a JSON string literal stands for, as `serde_json::from_str` reads it;
/// none when the text is not a JSON string.
pub uninterp spec fn json_string_value(text: Seq<char>) -> Option<Seq<char>>;

/// Calls `serde_json::from_str` on a text and keeps the string it reads, if it reads one.
#[verifier::external_body]
pub(crate) fn json_string_of(text: &str) -> (r: Option<String>)
    ensures
        match r {
            Some(s) => json_string_value(text@) == Some(s@),
            None => json_string_value(text@) is None,
        },
{
    match serde_json::from_str::<serde_json::Value>(text) {
        Ok(serde_json::Value::String(s)) => Some(s),
        _ => None,
    }
}

/// `serde_json::from_str` reads a JSON value from the text.
pub uninterp spec fn json_text_parses(text: Seq<char>) -> bool;

/// Calls `serde_json::from_str` on a text and tells whether it reads a value.
#[verifier::external_body]
pub(crate) fn json_parses(text: &str) -> (r: bool)
    ensures
        r == json_text_parses(text@),
{
    serde_json::from_str::<serde_json::Value>(text).is_ok()
}

/// The number that `serde_json::from_str` reads from a text, when it reads a JSON number
/// that `as_u64` gives back (a non-negative integer that fits in 64 bits).
pub uninterp spec fn json_u64_value(text: Seq<char>) -> Option<u64>;

/// Calls `serde_json::from_str` on a text and `as_u64` on the value it reads.
#[verifier::external_body]
pub(crate) fn json_u64_of(text: &str) -> (r: Option<u64>)
    ensures
        r == json_u64_value(text@),
{
    match serde_json::from_str::<serde_json::Value>(text) {
        Ok(v) => v.as_u64(),
        Err(_) => None,
    }
}

/// The position of the first entry with key `k`.
pub open spec fn key_index(m: Seq<(Seq<char>, Seq<char>)>, k: Seq<char>) -> Option<int>
    decreases m.len(),
{
    if m.len() == 0 {
        None
    } else {
        match key_index(m.drop_last(), k) {
            Some(i) => Some(i),
            None => if m.last().0 == k {
                Some(m.len() - 1)
            } else {
                None
            },
        }
    }
}

/// The value of the first entry with key `k`.
pub open spec fn entry_of(m: Seq<(Seq<char>, Seq<char>)>, k: Seq<char>) -> Option<Seq<char>> {
    match key_index(m, k) {
        Some(i) => Some(m[i].1),
        None => None,
    }
}

/// The entries with the value of `k` set to `v`: in place when `k` is there, last otherwise.
pub open spec fn with_entry(m: Seq<(Seq<char>, Seq<char>)>, k: Seq<char>, v: Seq<char>) -> Seq<(Seq<char>, Seq<char>)> {
    match key_index(m, k) {
        Some(i) => m.update(i, (k, v)),
        None => m.push((k, v)),
    }
}

/// The entries with `k` set to the object of `k` (an empty one when `k` is absent) with
/// `sub` set to `v`; unchanged when the value of `k` is not a JSON object.
pub open spec fn with_sub_entry(m: Seq<(Seq<char>, Seq<char>)>, k: Seq<char>, sub: Seq<char>, v: Seq<char>) -> Seq<(Seq<char>, Seq<char>)> {
    match entry_of(m, k) {
        None => with_entry(m, k, json_object_text(seq![(sub, v)])),
        Some(t) => match json_object_entries(t) {
            Some(es) => with_entry(m, k, json_object_text(with_entry(es, sub, v))),
            None => m,
        },
    }
}

pub(crate) proof fn lemma_key_index(m: Seq<(Seq<char>, Seq<char>)>, k: Seq<char>)
    ensures
        key_index(m, k) matches Some(i) ==> 0 <= i < m.len() && m[i].0 == k && forall|j: int| 0 <= j < i ==> m[j].0 != k,
        key_index(m, k) is None ==> forall|j: int| 0 <= j < m.len() ==> m[j].0 != k,
    decreases m.len(),
{
    if m.len() > 0 {
        lemma_key_index(m.drop_last(), k);
        assert forall|j: int| 0 <= j < m.len() - 1 implies m[j] == m.drop_last()[j] by {}
    }
}

/// The position of the first entry with key `k`.
pub fn key_position(m: &Vec<(String, String)>, k: &str) -> (r: Option<usize>)
    ensures
        match r {
            Some(i) => key_index(entry_views(m@), k@) == Some(i as int) && i < m@.len(),
            None => key_index(entry_views(m@), k@) is None,
        },
{
    proof {
        lemma_key_index(entry_views(m@), k@);
    }
    let mut i: usize = 0;
    while i < m.len()
        invariant
            i <= m@.len(),
            forall|j: int| 0 <= j < i ==> entry_views(m@)[j].0 != k@,
        decreases m.len() - i,
    {
        if crate::text::str_eq(m[i].0.as_str(), k) {
            proof {
                lemma_key_index(entry_views(m@), k@);
                if key_index(entry_views(m@), k@) != Some(i as int) {
                    let x = key_index(entry_views(m@), k@)->0;
                    assert(entry_views(m@)[i as int].0 == k@);
                }
            }
            return Some(i);
        }
        i += 1;
    }
    proof {
        lemma_key_index(entry_views(m@), k@);
        if key_index(entry_views(m@), k@) is Some {
            let x = key_index(entry_views(m@), k@)->0;
            assert(entry_views(m@)[x].0 == k@);
        }
    }
    None
}

/// The value of the first entry with key `k`.
pub fn entry_text(m: &Vec<(String, String)>, k: &str) -> (r: Option<String>)
    ensures
        match r {
            Some(v) => entry_of(entry_views(m@), k@) == Some(v@),
            None => entry_of(entry_views(m@), k@) is None,
        },
{
    match key_position(m, k) {
        Some(i) => {
            assert(entry_views(m@)[i as int].1 == m@[i as int].1@);
            Some(crate::text::owned(m[i].1.as_str()))
        },
        None => None,
    }
}

/// Sets the value of `k` to `v`.
pub fn set_entry(m: &mut Vec<(String, String)>, k: &str, v: String)
    ensures
        entry_views(final(m)@) == with_entry(entry_views(old(m)@), k@, v@),
{
    match key_position(m, k) {
        Some(i) => {
            let ghost old_m = entry_views(m@);
            m.set(i, (crate::text::owned(k), v));
            assert(entry_views(m@) =~= old_m.update(i as int, (k@, entry_views(m@)[i as int].1)));
        },
        None => {
            let ghost old_m = entry_views(m@);
            m.push((crate::text::owned(k), v));
            assert(entry_views(m@) =~= old_m.push((k@, entry_views(m@).last().1)));
        },
    }
}

/// Sets `sub` to `v` in the object that `k` holds (see `with_sub_entry`).
pub fn set_sub_entry(m: &mut Vec<(String, String)>, k: &str, sub: &str, v: String)
    ensures
        entry_views(final(m)@) == with_sub_entry(entry_views(old(m)@), k@, sub@, v@),
{
    match entry_text(m, k) {
        None => {
            let mut one: Vec<(String, String)> = Vec::new();
            one.push((crate::text::owned(sub), v));
            assert(entry_views(one@) =~= seq![(sub@, entry_views(one@)[0].1)]);
            let t = json_object(&one);
            set_entry(m, k, t);
        },
        Some(t) => match json_entries(t.as_str()) {
            Some(mut es) => {
                set_entry(&mut es, sub, v);
                let o = json_object(&es);
                set_entry(m, k, o);
            },
            None => {},
        },
    }
}

} // verus!

verus! {

/// The compact JSON text of the value that `serde_yaml::from_str` reads from a YAML text;
/// none when it reads none.
pub uninterp spec fn yaml_value_text(text: Seq<char>) -> Option<Seq<char>>;

/// Calls `serde_yaml::from_str` on a text and `serde_json::to_string` on what it reads.
#[verifier::external_body]
pub(crate) fn yaml_json(text: &str) -> (r: Option<String>)
    ensures
        match r {
            Some(s) => yaml_value_text(text@) == Some(s@),
            None => yaml_value_text(text@) is None,
        },
{
    match serde_yaml::from_str::<serde_json::Value>(text) {
        Ok(v) => serde_json::to_string(&v).ok(),
        Err(_) => None,
    }
}

/// The string that the object held by `k` has under `sub`, if any.
pub open spec fn sub_string(m: Seq<(Seq<char>, Seq<char>)>, k: Seq<char>, sub: Seq<char>) -> Option<Seq<char>> {
    match entry_of(m, k) {
        Some(t) => match json_object_entries(t) {
            Some(es) => match entry_of(es, sub) {
                Some(v) => json_string_value(v),
                None => None,
            },
            None => None,
        },
        None => None,
    }
}

/// The string that the object held by `k` has under `sub`, if any.
pub fn sub_string_of(m: &Vec<(String, String)>, k: &str, sub: &str) -> (r: Option<String>)
    ensures
        match r {
            Some(s) => sub_string(entry_views(m@), k@, sub@) == Some(s@),
            None => sub_string(entry_views(m@), k@, sub@) is None,
        },
{
    match entry_text(m, k) {
        Some(t) => match json_entries(t.as_str()) {
            Some(es) => match entry_text(&es, sub) {
                Some(v) => json_string_of(v.as_str()),
                None => None,
            },
            None => None,
        },
        None => None,
    }
}

/// The object held by `k` has an entry `sub`.
pub open spec fn has_sub_entry(m: Seq<(Seq<char>, Seq<char>)>, k: Seq<char>, sub: Seq<char>) -> bool {
    match entry_of(m, k) {
        Some(t) => match json_object_entries(t) {
            Some(es) => entry_of(es, sub) is Some,
            None => false,
        },
        None => false,
    }
}

/// The object held by `k` has an entry `sub`.
pub fn has_sub_entry_of(m: &Vec<(String, String)>, k: &str, sub: &str) -> (r: bool)
    ensures
        r == has_sub_entry(entry_views(m@), k@, sub@),
{
    match entry_text(m, k) {
        Some(t) => match json_entries(t.as_str()) {
            Some(es) => entry_text(&es, sub).is_some(),
            None => false,
        },
        None => false,
    }
}

} // verus!

verus! {

/// The entries without the first one with key `k`.
pub open spec fn without_entry(m: Seq<(Seq<char>, Seq<char>)>, k: Seq<char>) -> Seq<(Seq<char>, Seq<char>)> {
    match key_index(m, k) {
        Some(i) => m.remove(i),
        None => m,
    }
}

/// Removes the first entry with key `k`.
pub fn remove_entry(m: &mut Vec<(String, String)>, k: &str)
    ensures
        entry_views(final(m)@) == without_entry(entry_views(old(m)@), k@),
{
    match key_position(m, k) {
        Some(i) => {
            let ghost old_m = entry_views(m@);
            m.remove(i);
            assert(entry_views(m@) =~= old_m.remove(i as int));
        },
        None => {},
    }
}

/// The entries with `sub` removed from the object that `k` holds, when it holds one.
pub open spec fn without_sub_entry(m: Seq<(Seq<char>, Seq<char>)>, k: Seq<char>, sub: Seq<char>) -> Seq<(Seq<char>, Seq<char>)> {
    match entry_of(m, k) {
        Some(t) => match json_object_entries(t) {
            Some(es) => with_entry(m, k, json_object_text(without_entry(es, sub))),
            None => m,
        },
        None => m,
    }
}

/// Removes `sub` from the object that `k` holds.
pub fn remove_sub_entry(m: &mut Vec<(String, String)>, k: &str, sub: &str)
    ensures
        entry_views(final(m)@) == without_sub_entry(entry_views(old(m)@), k@, sub@),
{
    match entry_text(m, k) {
        Some(t) => match json_entries(t.as_str()) {
            Some(mut es) => {
                remove_entry(&mut es, sub);
                let o = json_object(&es);
                set_entry(m, k, o);
            },
            None => {},
        },
        None => {},
    }
}

/// `k` holds an empty JSON object.
pub open spec fn holds_empty_object(m: Seq<(Seq<char>, Seq<char>)>, k: Seq<char>) -> bool {
    match entry_of(m, k) {
        Some(t) => json_object_entries(t) == Some(Seq::<(Seq<char>, Seq<char>)>::empty()),
        None => false,
    }
}

/// `k` holds an empty JSON object.
pub fn holds_empty_object_of(m: &Vec<(String, String)>, k: &str) -> (r: bool)
    ensures
        r == holds_empty_object(entry_views(m@), k@),
{
    match entry_text(m, k) {
        Some(t) => match json_entries(t.as_str()) {
            Some(es) => {
                if es.len() == 0 {
                    assert(entry_views(es@) =~= Seq::<(Seq<char>, Seq<char>)>::empty());
                } else {
                    assert(entry_views(es@).len() > 0);
                }
                es.len() == 0
            },
            None => false,
        },
        None => false,
    }
}

/// The string at `k`, then `sub`, then `subsub`, in nested objects.
pub open spec fn sub_sub_string(m: Seq<(Seq<char>, Seq<char>)>, k: Seq<char>, sub: Seq<char>, subsub: Seq<char>) -> Option<Seq<char>> {
    match entry_of(m, k) {
        Some(t) => match json_object_entries(t) {
            Some(es) => sub_string(es, sub, subsub),
            None => None,
        },
        None => None,
    }
}

/// The string at `k`, then `sub`, then `subsub`, in nested objects.
pub fn sub_sub_string_of(m: &Vec<(String, String)>, k: &str, sub: &str, subsub: &str) -> (r: Option<String>)
    ensures
        match r {
            Some(s) => sub_sub_string(entry_views(m@), k@, sub@, subsub@) == Some(s@),
            None => sub_sub_string(entry_views(m@), k@, sub@, subsub@) is None,
        },
{
    match entry_text(m, k) {
        Some(t) => match json_entries(t.as_str()) {
            Some(es) => sub_string_of(&es, sub, subsub),
            None => None,
        },
        None => None,
    }
}

} // verus!
