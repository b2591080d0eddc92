//! A cached position of a key.
use vstd::prelude::*;

use crate::linearize::Linearize;
use core::marker::PhantomData;

verus! {

/// The position of a value of `L`, computed once so that a key used several times is
/// linearized only once. The position is always below `L::cardinality()`.
#[derive(Debug, PartialEq, Eq, PartialOrd, Ord, Hash)]
pub struct Linearized<L: Linearize> {
    index: usize,
    marker: PhantomData<L>,
}

impl<L: Linearize> View for Linearized<L> {
    type V = nat;

    closed spec fn view(&self) -> nat {
        self.index as nat
    }
}

impl<L: Linearize> Linearized<L> {
    #[verifier::type_invariant]
    closed spec fn wf(&self) -> bool {
        &&& L::fits_usize()
        &&& self.index < L::cardinality()
    }

    /// Computes and caches the position of `l`.
    pub fn new(l: &L) -> (r: Self)
        requires
            L::fits_usize(),
            l.reachable(),
        ensures
            r@ == l.index_of(),
    {
        proof {
            L::lemma_bijection();
        }
        Linearized { index: l.linearize(), marker: PhantomData }
    }

    /// Wraps a position that the caller has computed.
    pub fn new_unchecked(index: usize) -> (r: Self)
        requires
            L::fits_usize(),
            index < L::cardinality(),
        ensures
            r@ == index,
    {
        Linearized { index, marker: PhantomData }
    }

    /// The cached position.
    pub fn get(self) -> (r: usize)
        ensures
            r == self@,
            r < L::cardinality(),
            L::fits_usize(),
    {
        proof {
            use_type_invariant(&self);
        }
        self.index
    }

    /// The value whose position this is.
    pub fn delinearize(self) -> (r: L)
        ensures
            r == L::value_at(self@),
            r.reachable(),
            r.index_of() == self@,
    {
        proof {
            use_type_invariant(&self);
            L::lemma_bijection();
        }
        L::from_linear_unchecked(self.index)
    }
}

impl<L: Linearize> Clone for Linearized<L> {
    fn clone(&self) -> (r: Self)
        ensures
            r == *self,
    {
        proof {
            use_type_invariant(self);
        }
        Linearized { index: self.index, marker: PhantomData }
    }
}

impl<L: Linearize> Copy for Linearized<L> {

}

} // verus!
