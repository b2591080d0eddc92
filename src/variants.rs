//! Enumeration of all values of a linearizable type.
use vstd::prelude::*;

use crate::linearize::Linearize;
use core::marker::PhantomData;

verus! {

/// The values of `L` at the positions `front..back`, in ascending order.
pub open spec fn values_between<L: Linearize>(front: nat, back: nat) -> Seq<L> {
    Seq::new((back - front) as nat, |k: int| L::value_at((front + k) as nat))
}

/// A double-ended cursor over the values of `L` in ascending position order: the
/// positions not yet produced are `front..back`.
#[derive(Debug)]
pub struct Variants<L: Linearize> {
    front: usize,
    back: usize,
    marker: PhantomData<L>,
}

impl<L: Linearize> View for Variants<L> {
    type V = Seq<L>;

    /// The values still to be produced, in order.
    closed spec fn view(&self) -> Seq<L> {
        values_between::<L>(self.front as nat, self.back as nat)
    }
}

impl<L: Linearize> Variants<L> {
    #[verifier::type_invariant]
    closed spec fn wf(&self) -> bool {
        &&& L::fits_usize()
        &&& self.front <= self.back
        &&& self.back <= L::cardinality()
    }

    /// A cursor over every value of `L`.
    pub fn new() -> (r: Self)
        requires
            L::fits_usize(),
        ensures
            r@ == values_between::<L>(0, L::cardinality()),
    {
        Variants { front: 0, back: L::length(), marker: PhantomData }
    }

    /// The number of values still to be produced.
    pub fn len(&self) -> (r: usize)
        ensures
            r == self@.len(),
    {
        proof {
            use_type_invariant(self);
        }
        self.back - self.front
    }

    /// The exact number of values still to be produced, as a lower and an upper bound.
    pub fn size_hint(&self) -> (r: (usize, Option<usize>))
        ensures
            r.0 == self@.len(),
            r.1 == Some(self@.len() as usize),
    {
        let n = self.len();
        (n, Some(n))
    }

    /// The next value from the front.
    pub fn next(&mut self) -> (r: Option<L>)
        ensures
            old(self)@.len() == 0 ==> r.is_none() && final(self)@ == old(self)@,
            old(self)@.len() > 0 ==> r == Some(old(self)@[0]) && final(self)@ == old(self)@.drop_first(),
    {
        proof {
            use_type_invariant(&*self);
        }
        if self.front < self.back {
            let v = L::from_linear_unchecked(self.front);
            self.front = self.front + 1;
            proof {
                assert(self@ =~= old(self)@.drop_first());
            }
            Some(v)
        } else {
            None
        }
    }

    /// The next value from the back.
    pub fn next_back(&mut self) -> (r: Option<L>)
        ensures
            old(self)@.len() == 0 ==> r.is_none() && final(self)@ == old(self)@,
            old(self)@.len() > 0 ==> r == Some(old(self)@.last()) && final(self)@ == old(self)@.drop_last(),
    {
        proof {
            use_type_invariant(&*self);
        }
        if self.front < self.back {
            self.back = self.back - 1;
            proof {
                assert(self@ =~= old(self)@.drop_last());
            }
            Some(L::from_linear_unchecked(self.back))
        } else {
            None
        }
    }

    /// Skips `n` values from the front and produces the one after them.
    pub fn nth(&mut self, n: usize) -> (r: Option<L>)
        ensures
            n < old(self)@.len() ==> r == Some(old(self)@[n as int]) && final(self)@ == old(self)@.skip(n + 1),
            n >= old(self)@.len() ==> r.is_none() && final(self)@.len() == 0,
    {
        proof {
            use_type_invariant(&*self);
        }
        if n < self.back - self.front {
            self.front = self.front + n;
            let v = L::from_linear_unchecked(self.front);
            self.front = self.front + 1;
            proof {
                assert(self@ =~= old(self)@.skip(n + 1));
            }
            Some(v)
        } else {
            self.front = self.back;
            None
        }
    }

    /// Skips `n` values from the back and produces the one before them.
    pub fn nth_back(&mut self, n: usize) -> (r: Option<L>)
        ensures
            n < old(self)@.len() ==> r == Some(old(self)@[old(self)@.len() - 1 - n])
                && final(self)@ == old(self)@.take(old(self)@.len() - 1 - n),
            n >= old(self)@.len() ==> r.is_none() && final(self)@.len() == 0,
    {
        proof {
            use_type_invariant(&*self);
        }
        if n < self.back - self.front {
            self.back = self.back - n - 1;
            proof {
                assert(self@ =~= old(self)@.take(old(self)@.len() - 1 - n));
            }
            Some(L::from_linear_unchecked(self.back))
        } else {
            self.back = self.front;
            None
        }
    }

    /// The number of values still to be produced.
    pub fn count(self) -> (r: usize)
        ensures
            r == self@.len(),
    {
        self.len()
    }

    /// The last value still to be produced.
    pub fn last(self) -> (r: Option<L>)
        ensures
            self@.len() == 0 ==> r.is_none(),
            self@.len() > 0 ==> r == Some(self@.last()),
    {
        let mut s = self;
        s.next_back()
    }

    /// The values still to be produced, in order.
    pub fn to_vec(self) -> (r: Vec<L>)
        ensures
            r@ == self@,
    {
        let mut s = self;
        let ghost all = s@;
        let mut out: Vec<L> = Vec::new();
        while s.len() > 0
            invariant
                all == out@ + s@,
            decreases s@.len(),
        {
            let v = s.next().unwrap();
            proof {
                assert(all =~= out@.push(v) + s@);
            }
            out.push(v);
        }
        assert(out@ =~= all);
        out
    }
}

impl<L: Linearize> Clone for Variants<L> {
    fn clone(&self) -> (r: Self)
        ensures
            r@ == self@,
    {
        proof {
            use_type_invariant(self);
        }
        Variants { front: self.front, back: self.back, marker: PhantomData }
    }
}

} // verus!
