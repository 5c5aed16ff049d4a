//! Maps from one index to another, kept in the hash map of the `ahash` crate
//! (std's `HashMap` with `ahash::RandomState` as its hash builder).
use ahash::RandomState;
use std::collections::HashMap;
use vstd::prelude::*;

verus! {

/// The hash builder of the `ahash` crate.
#[verifier::external_type_specification]
#[verifier::external_body]
pub struct ExRandomState(RandomState);

/// A hash map from index to index with `ahash`'s hash builder.
pub type IdMap = HashMap<usize, usize, RandomState>;

/// `ahash::HashMap::default()`: std's `HashMap::default` with a fresh
/// `ahash::RandomState`, a map with no entries.
#[verifier::external_body]
pub(crate) fn id_map_new() -> (m: IdMap)
    ensures
        m@.dom().is_empty(),
{
    HashMap::default()
}

/// `HashMap::get` on an `ahash` map: the value stored under `k`, if any. The
/// hashers an `ahash::RandomState` builds hash equal input equally, so the map
/// finds every key that was inserted.
#[verifier::external_body]
pub(crate) fn id_map_get(m: &IdMap, k: usize) -> (r: Option<usize>)
    ensures
        m@.contains_key(k) ==> r == Some(m@[k]),
        !m@.contains_key(k) ==> r is None,
{
    m.get(&k).copied()
}

/// `HashMap::insert` on an `ahash` map: afterwards `k` maps to `v` and every
/// other key keeps its value.
#[verifier::external_body]
pub(crate) fn id_map_insert(m: &mut IdMap, k: usize, v: usize)
    ensures
        final(m)@ == old(m)@.insert(k, v),
{
    m.insert(k, v);
}

} // verus!
