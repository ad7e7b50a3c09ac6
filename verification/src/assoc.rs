//! Association lists from string keys to lists of strings, with distinct keys.
//!
//! These stand for the `HashMap<&str, Vec<&str>>` indexes that the graph and
//! tree data build: one entry per key, values in insertion order.
use vstd::prelude::*;
use crate::column::strings_view;
use crate::types::str_eq;

verus! {

broadcast use vstd::string::to_string_from_display_ensures_for_str;

/// One entry: a key and the strings listed under it.
pub type Entry = (String, Vec<String>);

/// The character-sequence content of an association list.
pub open spec fn assoc_view(l: Seq<Entry>) -> Seq<(Seq<char>, Seq<Seq<char>>)> {
    l.map_values(|e: Entry| (e.0@, strings_view(e.1@)))
}

/// No key occurs twice.
pub open spec fn keys_distinct(l: Seq<(Seq<char>, Seq<Seq<char>>)>) -> bool {
    forall|a: int, b: int| 0 <= a < l.len() && 0 <= b < l.len() && a != b ==> #[trigger] l[a].0 != #[trigger] l[b].0
}

/// Some entry has key `k`.
pub open spec fn has_key(l: Seq<(Seq<char>, Seq<Seq<char>>)>, k: Seq<char>) -> bool {
    exists|a: int| 0 <= a < l.len() && #[trigger] l[a].0 == k
}

/// Position of the entry with key `key`, if any.
pub fn find_key(list: &Vec<Entry>, key: &str) -> (r: Option<usize>)
    ensures
        match r {
            Some(i) => i < list@.len() && assoc_view(list@)[i as int].0 == key@,
            None => !has_key(assoc_view(list@), key@),
        },
{
    let mut i: usize = 0;
    while i < list.len()
        invariant
            0 <= i <= list@.len(),
            forall|a: int| 0 <= a < i ==> #[trigger] assoc_view(list@)[a].0 != key@,
        decreases list@.len() - i,
    {
        assert(assoc_view(list@)[i as int].0 == list@[i as int].0@);
        if str_eq(list[i].0.as_str(), key) {
            return Some(i);
        }
        i = i + 1;
    }
    None
}

/// Position of the entry with key `key`, adding an empty one at the end when there is none.
pub fn ensure_key(list: &mut Vec<Entry>, key: &str) -> (i: usize)
    requires
        keys_distinct(assoc_view(old(list)@)),
    ensures
        keys_distinct(assoc_view(final(list)@)),
        i < final(list)@.len(),
        assoc_view(final(list)@)[i as int].0 == key@,
        has_key(assoc_view(old(list)@), key@) ==> assoc_view(final(list)@) == assoc_view(old(list)@),
        !has_key(assoc_view(old(list)@), key@) ==> assoc_view(final(list)@) == assoc_view(old(list)@).push(
            (key@, Seq::<Seq<char>>::empty()),
        ),
{
    match find_key(list, key) {
        Some(i) => {
            assert(has_key(assoc_view(list@), key@));
            i
        },
        None => {
            let ghost before = list@;
            let empty: Vec<String> = Vec::new();
            assert(strings_view(empty@) =~= Seq::<Seq<char>>::empty());
            list.push((key.to_string(), empty));
            assert(assoc_view(list@) =~= assoc_view(before).push((key@, Seq::<Seq<char>>::empty())));
            list.len() - 1
        },
    }
}

/// Appends `value` to the strings of entry `i`.
pub fn append_value(list: &mut Vec<Entry>, i: usize, value: String)
    requires
        i < old(list)@.len(),
    ensures
        assoc_view(final(list)@) == assoc_view(old(list)@).update(
            i as int,
            (assoc_view(old(list)@)[i as int].0, assoc_view(old(list)@)[i as int].1.push(value@)),
        ),
{
    let ghost before = list@;
    let (key, mut values) = list.remove(i);
    let ghost old_values = values@;
    values.push(value);
    assert(strings_view(values@) =~= strings_view(old_values).push(value@));
    list.insert(i, (key, values));
    assert(assoc_view(list@) =~= assoc_view(before).update(
        i as int,
        (assoc_view(before)[i as int].0, assoc_view(before)[i as int].1.push(value@)),
    ));
}

} // verus!
