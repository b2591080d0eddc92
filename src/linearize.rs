use vstd::prelude::*;

use crate::linearized::Linearized;
use crate::variants::{values_between, Variants};

verus! {

/// Types whose values are in bijection with the interval `[0, cardinality())`.
///
/// The model is given by spec functions: `index_of` maps a value to its position,
/// `value_at` maps a position back to a value. Every reachable value has a position
/// below the cardinality, and every position below the cardinality holds a reachable
/// value. An uninhabited type has cardinality zero and no reachable values.
pub trait Linearize: Sized {
    /// The number of values of this type.
    spec fn cardinality() -> nat;

    /// The cardinality of this type, and of every type it is composed of, is a `usize`.
    spec fn fits_usize() -> bool;

    /// Whether this value can exist at run time (false for every value of an
    /// uninhabited type).
    spec fn reachable(&self) -> bool;

    /// The position of this value in `[0, cardinality())`.
    spec fn index_of(&self) -> nat;

    /// The value at position `i`; meaningful only for `i < cardinality()`.
    spec fn value_at(i: nat) -> Self;

    /// `index_of` and `value_at` are mutually inverse bijections between the reachable
    /// values and `[0, cardinality())`.
    proof fn lemma_bijection()
        ensures
            Self::fits_usize() ==> Self::cardinality() <= usize::MAX,
            forall|v: Self| #[trigger] v.reachable() ==> v.index_of() < Self::cardinality(),
            forall|v: Self| #[trigger] v.reachable() ==> Self::value_at(v.index_of()) == v,
            forall|i: nat|
                i < Self::cardinality() ==> (#[trigger] Self::value_at(i)).reachable()
                    && Self::value_at(i).index_of() == i,
    ;

    /// The cardinality of this type.
    fn length() -> (r: usize)
        requires
            Self::fits_usize(),
        ensures
            r == Self::cardinality(),
    ;

    /// Maps this value to its position.
    fn linearize(&self) -> (r: usize)
        requires
            Self::fits_usize(),
            self.reachable(),
        ensures
            r == self.index_of(),
    ;

    /// The value at position `linear`; the caller guarantees `linear < cardinality()`.
    fn from_linear_unchecked(linear: usize) -> (r: Self)
        requires
            Self::fits_usize(),
            linear < Self::cardinality(),
        ensures
            r == Self::value_at(linear as nat),
    ;
}

/// A value's position is below the cardinality, and decoding it gives the value back.
pub proof fn lemma_round_trip<L: Linearize>(v: L)
    requires
        v.reachable(),
    ensures
        v.index_of() < L::cardinality(),
        L::value_at(v.index_of()) == v,
{
    L::lemma_bijection();
}

/// Decoding the positions `0..cardinality()` gives reachable values, pairwise distinct,
/// and every reachable value is among them.
pub proof fn lemma_enumeration<L: Linearize>()
    ensures
        forall|i: nat| i < L::cardinality() ==> (#[trigger] L::value_at(i)).reachable(),
        forall|i: nat, j: nat|
            i < L::cardinality() && j < L::cardinality() && i != j ==> #[trigger] L::value_at(i)
                != #[trigger] L::value_at(j),
        forall|v: L|
            #[trigger] v.reachable() ==> exists|i: nat|
                i < L::cardinality() && #[trigger] L::value_at(i) == v,
{
    L::lemma_bijection();
    assert forall|v: L| #[trigger] v.reachable() implies exists|i: nat|
        i < L::cardinality() && #[trigger] L::value_at(i) == v by {
        assert(L::value_at(v.index_of()) == v);
    }
}

/// Marks the types that receive the methods of `LinearizeExt`.
pub trait Sealed {

}

impl<T: Linearize> Sealed for T {

}

/// Methods that every linearizable type has, built on `Linearize`.
pub trait LinearizeExt: Linearize + Sealed {
    /// The checked inverse of `linearize`: `None` exactly when `linear` is out of range.
    fn from_linear(linear: usize) -> (r: Option<Self>)
        requires
            Self::fits_usize(),
        ensures
            linear < Self::cardinality() ==> r == Some(Self::value_at(linear as nat)),
            linear >= Self::cardinality() ==> r.is_none(),
    ;

    /// A cursor over every value of this type, in ascending position order.
    fn variants() -> (r: Variants<Self>)
        requires
            Self::fits_usize(),
        ensures
            r@ == values_between::<Self>(0, Self::cardinality()),
    ;

    /// This value's position, computed once.
    fn linearized(&self) -> (r: Linearized<Self>)
        requires
            Self::fits_usize(),
            self.reachable(),
        ensures
            r@ == self.index_of(),
    ;
}

impl<T: Linearize> LinearizeExt for T {
    fn from_linear(linear: usize) -> (r: Option<T>) {
        if linear < T::length() {
            Some(T::from_linear_unchecked(linear))
        } else {
            None
        }
    }

    fn variants() -> (r: Variants<T>) {
        Variants::new()
    }

    fn linearized(&self) -> (r: Linearized<T>) {
        Linearized::new(self)
    }
}

} // verus!
