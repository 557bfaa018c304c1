//! The ordered maps behind the write-side indices.

use vstd::prelude::*;
use vstd::laws_cmp::obeys_cmp;
use std::collections::BTreeMap;
use super::index::{copy_list, list_of, lists, pushed, removed, retain_other};

verus! {

/// Appends `idx` to the list under `k`, which is created where it is missing.
pub fn index_push<K: Ord + Copy>(m: &mut BTreeMap<K, Vec<u32>>, k: K, idx: u32)
    requires
        obeys_cmp::<K>(),
    ensures
        lists(final(m)@) == pushed(lists(old(m)@), k, idx),
{
    let mut v = match m.remove(&k) {
        Some(v) => v,
        None => Vec::new(),
    };
    v.push(idx);
    m.insert(k, v);
    assert(lists(m@) =~= pushed(lists(old(m)@), k, idx));
}

/// Takes `idx` out of the list under `k`; a list that becomes empty leaves
/// the map.
pub fn index_remove<K: Ord + Copy>(m: &mut BTreeMap<K, Vec<u32>>, k: K, idx: u32)
    requires
        obeys_cmp::<K>(),
    ensures
        lists(final(m)@) == removed(lists(old(m)@), k, idx),
{
    match m.remove(&k) {
        Some(v) => {
            let w = retain_other(&v, idx);
            if w.len() > 0 {
                m.insert(k, w);
            }
        },
        None => {},
    }
    assert(lists(m@) =~= removed(lists(old(m)@), k, idx));
}

/// Takes the whole list under `k` out of the map; the empty list where there
/// is none.
pub fn index_take<K: Ord + Copy>(m: &mut BTreeMap<K, Vec<u32>>, k: K) -> (v: Vec<u32>)
    requires
        obeys_cmp::<K>(),
    ensures
        v@ == list_of(lists(old(m)@), k),
        lists(final(m)@) == lists(old(m)@).remove(k),
{
    let v = match m.remove(&k) {
        Some(v) => v,
        None => Vec::new(),
    };
    assert(lists(m@) =~= lists(old(m)@).remove(k));
    v
}

/// A copy of the list under `k`, where there is one.
pub fn index_get<K: Ord + Copy>(m: &BTreeMap<K, Vec<u32>>, k: K) -> (r: Option<Vec<u32>>)
    requires
        obeys_cmp::<K>(),
    ensures
        match r {
            Some(v) => lists(m@).contains_key(k) && v@ == lists(m@)[k],
            None => !lists(m@).contains_key(k),
        },
{
    match m.get(&k) {
        Some(v) => Some(copy_list(v)),
        None => None,
    }
}

} // verus!
