//! The entry format in which a key that is not read takes the default value.
use vstd::prelude::*;

use crate::linearize::Linearize;
use crate::map::{last_entry, StaticMap};

verus! {

/// The map that the pairs describe: the last pair with a key gives its value, and a key
/// that no pair has holds `T::default()`.
pub fn deserialize<L: Linearize, T: Default>(pairs: Vec<(L, T)>) -> (r: StaticMap<L, T>)
    requires
        L::fits_usize(),
        forall|k: int| 0 <= k < pairs@.len() ==> (#[trigger] pairs@[k]).0.reachable(),
    ensures
        r@.len() == L::cardinality(),
        forall|i: int|
            0 <= i < L::cardinality() ==> (#[trigger] last_entry(pairs@, i as nat) matches Some(v)
                ==> r@[i] == v),
        forall|i: int|
            0 <= i < L::cardinality() ==> (#[trigger] last_entry(pairs@, i as nat) is None
                ==> call_ensures(T::default, (), r@[i])),
{
    StaticMap::from_pairs(pairs)
}

} // verus!
