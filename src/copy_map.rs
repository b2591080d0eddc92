//! The total map restricted to values that are `Copy`.
use vstd::prelude::*;

use crate::linearize::Linearize;
use crate::linearized::Linearized;
use crate::map::{last_entry, LengthError, StaticMap};

verus! {

/// A `StaticMap` whose values are `Copy`. It holds the same values, by position, and
/// converts to and from `StaticMap` by moving its storage, without copying it.
#[derive(Debug, PartialEq, Eq, PartialOrd, Ord, Hash)]
pub struct StaticCopyMap<L: Linearize, T: Copy> {
    map: StaticMap<L, T>,
}

impl<L: Linearize, T: Copy> View for StaticCopyMap<L, T> {
    type V = Seq<T>;

    closed spec fn view(&self) -> Seq<T> {
        self.map@
    }
}

impl<L: Linearize, T: Copy> StaticCopyMap<L, T> {
    /// The value stored for `key`.
    pub open spec fn spec_get(&self, key: L) -> T {
        self@[key.index_of() as int]
    }

    /// Creates a map by calling `cb` once for each key, in ascending position order.
    pub fn from_fn(cb: impl Fn(L) -> T) -> (r: Self)
        requires
            L::fits_usize(),
            forall|i: nat| i < L::cardinality() ==> #[trigger] cb.requires((L::value_at(i),)),
        ensures
            r@.len() == L::cardinality(),
            forall|i: int| 0 <= i < L::cardinality() ==> cb.ensures((L::value_at(i as nat),), #[trigger] r@[i]),
    {
        StaticCopyMap { map: StaticMap::from_fn(cb) }
    }

    /// Wraps a general map whose values are `Copy`.
    pub fn from_static_map(map: StaticMap<L, T>) -> (r: Self)
        ensures
            r@ == map@,
    {
        StaticCopyMap { map }
    }

    /// The same values as a general map.
    pub fn into_static_map(self) -> (r: StaticMap<L, T>)
        ensures
            r@ == self@,
    {
        self.map
    }

    /// A view of this map as a general map.
    pub fn as_static_map(&self) -> (r: &StaticMap<L, T>)
        ensures
            r@ == self@,
    {
        &self.map
    }

    /// A mutable view of this map as a general map.
    pub fn as_static_map_mut(&mut self) -> (r: &mut StaticMap<L, T>)
        ensures
            r@ == old(self)@,
            final(r)@ == final(self)@,
    {
        &mut self.map
    }

    /// The number of values: one per key, so always `L::cardinality()`.
    pub fn len(&self) -> (r: usize)
        ensures
            r == self@.len(),
            r == L::cardinality(),
            L::fits_usize(),
    {
        self.map.len()
    }

    /// The value stored for `key`.
    pub fn get(&self, key: &L) -> (r: T)
        requires
            key.reachable(),
        ensures
            r == self.spec_get(*key),
    {
        *self.map.get(key)
    }

    /// The value stored at a cached position.
    pub fn get_linearized(&self, key: Linearized<L>) -> (r: T)
        ensures
            r == self@[key@ as int],
    {
        *self.map.get_linearized(key)
    }

    /// Replaces the value stored for `key`.
    pub fn set(&mut self, key: &L, value: T)
        requires
            key.reachable(),
        ensures
            final(self)@ == old(self)@.update(key.index_of() as int, value),
    {
        self.map.set(key, value);
    }

    /// Replaces the value stored at a cached position.
    pub fn set_linearized(&mut self, key: Linearized<L>, value: T)
        ensures
            final(self)@ == old(self)@.update(key@ as int, value),
    {
        self.map.set_linearized(key, value);
    }

    /// Replaces each value `v` by `f(v)`, calling `f` in ascending position order.
    pub fn map_values<U: Copy>(self, f: impl Fn(T) -> U) -> (r: StaticCopyMap<L, U>)
        requires
            forall|i: int| 0 <= i < self@.len() ==> #[trigger] f.requires((self@[i],)),
        ensures
            r@.len() == self@.len(),
            forall|i: int| 0 <= i < self@.len() ==> f.ensures((self@[i],), #[trigger] r@[i]),
    {
        assert forall|i: int| 0 <= i < self.map@.len() implies #[trigger] f.requires((self.map@[i],)) by {
            assert(f.requires((self@[i],)));
        }
        StaticCopyMap { map: self.map.map_values(f) }
    }

    /// Replaces the value `v` stored for each key `k` by `f(k, v)`, calling `f` in
    /// ascending position order.
    pub fn map<U: Copy>(self, f: impl Fn(L, T) -> U) -> (r: StaticCopyMap<L, U>)
        requires
            forall|i: int| 0 <= i < self@.len() ==> #[trigger] f.requires((L::value_at(i as nat), self@[i])),
        ensures
            r@.len() == self@.len(),
            forall|i: int| 0 <= i < self@.len() ==> f.ensures((L::value_at(i as nat), self@[i]), #[trigger] r@[i]),
    {
        assert forall|i: int| 0 <= i < self.map@.len() implies #[trigger] f.requires((L::value_at(i as nat), self.map@[i])) by {
            assert(f.requires((L::value_at(i as nat), self@[i])));
        }
        StaticCopyMap { map: self.map.map(f) }
    }

    /// The values, by position.
    pub fn as_slice(&self) -> (r: &[T])
        ensures
            r@ == self@,
    {
        self.map.as_slice()
    }
}

impl<L: Linearize, T: Copy + Default> StaticCopyMap<L, T> {
    /// A map holding `T::default()` for every key.
    pub fn default() -> (r: Self)
        requires
            L::fits_usize(),
        ensures
            r@.len() == L::cardinality(),
            forall|i: int| 0 <= i < r@.len() ==> call_ensures(T::default, (), #[trigger] r@[i]),
    {
        StaticCopyMap { map: StaticMap::default() }
    }

    /// A map holding, for each key, the value of the last pair with that key, or
    /// `T::default()` where no pair has it.
    pub fn from_pairs(pairs: Vec<(L, T)>) -> (r: Self)
        requires
            L::fits_usize(),
            forall|k: int| 0 <= k < pairs@.len() ==> (#[trigger] pairs@[k]).0.reachable(),
        ensures
            r@.len() == L::cardinality(),
            forall|i: int|
                0 <= i < L::cardinality() ==> (#[trigger] last_entry(pairs@, i as nat) matches Some(v)
                    ==> r@[i] == v),
            forall|i: int|
                0 <= i < L::cardinality() ==> (#[trigger] last_entry(pairs@, i as nat) is None
                    ==> call_ensures(T::default, (), r@[i])),
    {
        StaticCopyMap { map: StaticMap::from_pairs(pairs) }
    }
}

impl<L: Linearize, T: Copy> StaticCopyMap<L, T> {
    /// Creates a map from a slice holding the value of each position; fails unless its
    /// length is exactly `L::cardinality()`.
    pub fn try_from_slice(s: &[T]) -> (r: Result<Self, LengthError>)
        requires
            L::fits_usize(),
        ensures
            s@.len() == L::cardinality() <==> r is Ok,
            r matches Ok(m) ==> m@ == s@,
            r matches Err(e) ==> e.expected == L::cardinality() && e.actual == s@.len(),
    {
        match StaticMap::try_from_slice(s) {
            Ok(map) => Ok(StaticCopyMap { map }),
            Err(e) => Err(e),
        }
    }

    /// Assigns the pairs in order, so that the last pair with a key decides its value;
    /// keys that no pair has keep their value.
    pub fn extend(&mut self, pairs: Vec<(L, T)>)
        requires
            forall|k: int| 0 <= k < pairs@.len() ==> (#[trigger] pairs@[k]).0.reachable(),
        ensures
            final(self)@.len() == old(self)@.len(),
            forall|i: int|
                0 <= i < old(self)@.len() ==> #[trigger] final(self)@[i] == match last_entry(pairs@, i as nat) {
                    Some(v) => v,
                    None => old(self)@[i],
                },
    {
        self.map.extend(pairs);
    }
}

impl<L: Linearize, T: Copy> core::ops::Deref for StaticCopyMap<L, T> {
    type Target = StaticMap<L, T>;

    fn deref(&self) -> (r: &StaticMap<L, T>)
        ensures
            r@ == self@,
    {
        &self.map
    }
}

impl<L: Linearize, T: Copy> core::ops::DerefMut for StaticCopyMap<L, T> {
    fn deref_mut(&mut self) -> (r: &mut StaticMap<L, T>)
        ensures
            r@ == old(self)@,
            final(r)@ == final(self)@,
    {
        &mut self.map
    }
}

impl<L: Linearize, T: Copy> Clone for StaticCopyMap<L, T> {
    fn clone(&self) -> (r: Self)
        ensures
            r@ == self@,
    {
        StaticCopyMap { map: self.map.as_copy().map }
    }
}

impl<L: Linearize, T: Copy> core::ops::Index<L> for StaticCopyMap<L, T> {
    type Output = T;

    fn index(&self, key: L) -> (r: &T)
        ensures
            *r == self.spec_get(key),
    {
        self.map.get(&key)
    }
}

impl<L: Linearize, T: Copy> vstd::std_specs::core::IndexSpecImpl<L> for StaticCopyMap<L, T> {
    open spec fn index_req(&self, key: &L) -> bool {
        key.reachable()
    }
}

impl<L: Linearize, T> StaticMap<L, T> {
    /// A map holding a reference to each value of this map.
    pub fn each_ref(&self) -> (r: StaticCopyMap<L, &T>)
        ensures
            r@.len() == self@.len(),
            forall|i: int| 0 <= i < self@.len() ==> *(#[trigger] r@[i]) == self@[i],
    {
        let n = self.len();
        let mut refs: Vec<&T> = Vec::new();
        let mut i: usize = 0;
        while i < n
            invariant
                n == self@.len(),
                i <= n,
                refs@.len() == i,
                forall|j: int| 0 <= j < i ==> *(#[trigger] refs@[j]) == self@[j],
            decreases n - i,
        {
            refs.push(self.get_at(i));
            i += 1;
        }
        StaticCopyMap { map: StaticMap::from_full_vec(refs) }
    }
}

impl<L: Linearize, T: Copy> StaticMap<L, T> {
    /// The same values as a map whose values are `Copy`.
    pub fn into_copy(self) -> (r: StaticCopyMap<L, T>)
        ensures
            r@ == self@,
    {
        StaticCopyMap::from_static_map(self)
    }

    /// A copy of this map as a map whose values are `Copy`.
    pub fn as_copy(&self) -> (r: StaticCopyMap<L, T>)
        ensures
            r@ == self@,
    {
        StaticCopyMap::from_static_map(self.copy_values())
    }

    /// Unwraps a map whose values are `Copy`.
    pub fn from_copy(map: StaticCopyMap<L, T>) -> (r: Self)
        ensures
            r@ == map@,
    {
        map.into_static_map()
    }
}

} // verus!
