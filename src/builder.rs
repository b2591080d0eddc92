//! Element-wise construction of a `StaticMap`.
use vstd::prelude::*;

use crate::linearize::Linearize;
use crate::map::StaticMap;
use core::marker::PhantomData;

verus! {

/// Builds a `StaticMap` one position at a time; it can be finished only once every
/// position has been set.
pub struct Builder<L: Linearize, T> {
    slots: Vec<Option<T>>,
    marker: PhantomData<L>,
}

impl<L: Linearize, T> View for Builder<L, T> {
    type V = Seq<Option<T>>;

    /// The value set at each position so far, if any.
    closed spec fn view(&self) -> Seq<Option<T>> {
        self.slots@
    }
}

/// The value held by `v`, which is present.
fn take_present<T>(v: Option<T>) -> (r: T)
    requires
        v is Some,
    ensures
        Some(r) == v,
{
    v.unwrap()
}

impl<L: Linearize, T> Builder<L, T> {
    #[verifier::type_invariant]
    closed spec fn wf(&self) -> bool {
        &&& L::fits_usize()
        &&& self.slots@.len() == L::cardinality()
    }

    /// A builder in which no position is set yet.
    pub fn new() -> (r: Self)
        requires
            L::fits_usize(),
        ensures
            r@.len() == L::cardinality(),
            forall|i: int| 0 <= i < r@.len() ==> (#[trigger] r@[i]) is None,
    {
        let n = L::length();
        let mut slots: Vec<Option<T>> = Vec::new();
        while slots.len() < n
            invariant
                slots@.len() <= n,
                forall|i: int| 0 <= i < slots@.len() ==> (#[trigger] slots@[i]) is None,
            decreases n - slots@.len(),
        {
            slots.push(None);
        }
        Builder { slots, marker: PhantomData }
    }

    /// The number of positions, `L::cardinality()`.
    pub fn len(&self) -> (r: usize)
        ensures
            r == L::cardinality(),
            r == self@.len(),
            L::fits_usize(),
    {
        proof {
            use_type_invariant(self);
        }
        self.slots.len()
    }

    /// The key at position `i`.
    pub fn key(&self, i: usize) -> (r: L)
        requires
            i < self@.len(),
        ensures
            r == L::value_at(i as nat),
    {
        proof {
            use_type_invariant(self);
        }
        L::from_linear_unchecked(i)
    }

    /// Sets the value at position `i`.
    pub fn set(&mut self, i: usize, v: T)
        requires
            i < old(self)@.len(),
        ensures
            final(self)@ == old(self)@.update(i as int, Some(v)),
    {
        proof {
            use_type_invariant(&*self);
        }
        self.slots[i] = Some(v);
    }

    /// The finished map; every position has been set.
    pub fn get(self) -> (r: StaticMap<L, T>)
        requires
            forall|i: int| 0 <= i < self@.len() ==> (#[trigger] self@[i]) is Some,
        ensures
            r@.len() == self@.len(),
            forall|i: int| 0 <= i < self@.len() ==> Some(#[trigger] r@[i]) == self@[i],
    {
        proof {
            use_type_invariant(&self);
        }
        let ghost slots = self@;
        let m = StaticMap::<L, Option<T>>::from_full_vec(self.slots);
        assert(m@ == slots);
        assert forall|i: int| 0 <= i < m@.len() implies #[trigger] call_requires(
            take_present::<T>,
            (m@[i],),
        ) by {
            assert(slots[i] is Some);
        }
        m.map_values(take_present::<T>)
    }

    /// A map holding `false` for every key, for recording which positions are set.
    pub fn init_map(&self) -> (r: StaticMap<L, bool>)
        ensures
            r@.len() == L::cardinality(),
            forall|i: int| 0 <= i < r@.len() ==> !(#[trigger] r@[i]),
    {
        proof {
            use_type_invariant(self);
        }
        StaticMap::from_fn(|k: L| -> (r: bool) ensures !r { false })
    }
}

} // verus!
