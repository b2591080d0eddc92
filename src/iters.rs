//! Cursors over the entries of a `StaticMap`.
use vstd::prelude::*;

use crate::linearize::Linearize;
use core::marker::PhantomData;
use std::collections::VecDeque;

verus! {

/// Whether `r` holds the entry `e`: its key, and a reference to its value.
pub open spec fn holds_entry<L, T>(r: Option<(L, &T)>, e: (L, T)) -> bool {
    match r {
        Some((k, v)) => k == e.0 && *v == e.1,
        None => false,
    }
}

/// The entries at the positions `front..back` of the values `data`, in ascending order.
pub open spec fn entries_between<L: Linearize, T>(data: Seq<T>, front: nat, back: nat) -> Seq<(L, T)> {
    Seq::new((back - front) as nat, |k: int| (L::value_at((front + k) as nat), data[front + k]))
}

/// A double-ended cursor over the entries of a map, by reference, in ascending position
/// order: the positions not yet produced are `front..back`.
pub struct Iter<'a, L: Linearize, T> {
    front: usize,
    back: usize,
    data: &'a Vec<T>,
    marker: PhantomData<L>,
}

impl<'a, L: Linearize, T> View for Iter<'a, L, T> {
    type V = Seq<(L, T)>;

    /// The entries still to be produced, in order.
    closed spec fn view(&self) -> Seq<(L, T)> {
        entries_between::<L, T>(self.data@, self.front as nat, self.back as nat)
    }
}

impl<'a, L: Linearize, T> Iter<'a, L, T> {
    #[verifier::type_invariant]
    closed spec fn wf(&self) -> bool {
        &&& L::fits_usize()
        &&& self.front <= self.back
        &&& self.back <= self.data@.len()
        &&& self.data@.len() == L::cardinality()
    }

    /// A cursor over all entries of the values `data`, one per position of `L`.
    pub(crate) fn new(data: &'a Vec<T>) -> (r: Self)
        requires
            L::fits_usize(),
            data@.len() == L::cardinality(),
        ensures
            r@ == entries_between::<L, T>(data@, 0, L::cardinality()),
    {
        Iter { front: 0, back: data.len(), data, marker: PhantomData }
    }

    /// The number of entries still to be produced.
    pub fn len(&self) -> (r: usize)
        ensures
            r == self@.len(),
    {
        proof {
            use_type_invariant(self);
        }
        self.back - self.front
    }

    /// The exact number of entries still to be produced, as a lower and an upper bound.
    pub fn size_hint(&self) -> (r: (usize, Option<usize>))
        ensures
            r.0 == self@.len(),
            r.1 == Some(self@.len() as usize),
    {
        let n = self.len();
        (n, Some(n))
    }

    /// The next entry from the front.
    pub fn next(&mut self) -> (r: Option<(L, &'a T)>)
        ensures
            old(self)@.len() == 0 ==> r.is_none() && final(self)@ == old(self)@,
            old(self)@.len() > 0 ==> holds_entry(r, old(self)@[0]) && final(self)@ == old(self)@.drop_first(),
    {
        proof {
            use_type_invariant(&*self);
        }
        if self.front < self.back {
            let i = self.front;
            let k = L::from_linear_unchecked(i);
            let data: &'a Vec<T> = self.data;
            self.front = i + 1;
            proof {
                assert(self@ =~= old(self)@.drop_first());
            }
            Some((k, &data[i]))
        } else {
            None
        }
    }

    /// The next entry from the back.
    pub fn next_back(&mut self) -> (r: Option<(L, &'a T)>)
        ensures
            old(self)@.len() == 0 ==> r.is_none() && final(self)@ == old(self)@,
            old(self)@.len() > 0 ==> holds_entry(r, old(self)@.last()) && final(self)@ == old(self)@.drop_last(),
    {
        proof {
            use_type_invariant(&*self);
        }
        if self.front < self.back {
            let i = self.back - 1;
            let k = L::from_linear_unchecked(i);
            let data: &'a Vec<T> = self.data;
            self.back = i;
            proof {
                assert(self@ =~= old(self)@.drop_last());
            }
            Some((k, &data[i]))
        } else {
            None
        }
    }

    /// Skips `n` entries from the front and produces the one after them.
    pub fn nth(&mut self, n: usize) -> (r: Option<(L, &'a T)>)
        ensures
            n < old(self)@.len() ==> holds_entry(r, old(self)@[n as int]) && final(self)@ == old(self)@.skip(n + 1),
            n >= old(self)@.len() ==> r.is_none() && final(self)@.len() == 0,
    {
        proof {
            use_type_invariant(&*self);
        }
        if n < self.back - self.front {
            self.front = self.front + n;
            proof {
                assert(self@ =~= old(self)@.skip(n as int));
            }
            self.next()
        } else {
            self.front = self.back;
            None
        }
    }

    /// Skips `n` entries from the back and produces the one before them.
    pub fn nth_back(&mut self, n: usize) -> (r: Option<(L, &'a T)>)
        ensures
            n < old(self)@.len() ==> holds_entry(r, old(self)@[old(self)@.len() - 1 - n])
                && final(self)@ == old(self)@.take(old(self)@.len() - 1 - n),
            n >= old(self)@.len() ==> r.is_none() && final(self)@.len() == 0,
    {
        proof {
            use_type_invariant(&*self);
        }
        if n < self.back - self.front {
            self.back = self.back - n;
            proof {
                assert(self@ =~= old(self)@.take(old(self)@.len() - n));
            }
            self.next_back()
        } else {
            self.back = self.front;
            None
        }
    }

    /// The number of entries still to be produced.
    pub fn count(self) -> (r: usize)
        ensures
            r == self@.len(),
    {
        self.len()
    }

    /// The last entry still to be produced.
    pub fn last(self) -> (r: Option<(L, &'a T)>)
        ensures
            self@.len() == 0 ==> r.is_none(),
            self@.len() > 0 ==> holds_entry(r, self@.last()),
    {
        let mut s = self;
        s.next_back()
    }
}

impl<'a, L: Linearize, T> Clone for Iter<'a, L, T> {
    fn clone(&self) -> (r: Self)
        ensures
            r@ == self@,
    {
        proof {
            use_type_invariant(self);
        }
        Iter { front: self.front, back: self.back, data: self.data, marker: PhantomData }
    }
}

/// A double-ended cursor over the entries of a map, by value, in ascending position
/// order.
pub struct IntoIter<L, T> {
    items: VecDeque<(L, T)>,
}

impl<L, T> View for IntoIter<L, T> {
    type V = Seq<(L, T)>;

    /// The entries still to be produced, in order.
    closed spec fn view(&self) -> Seq<(L, T)> {
        self.items@
    }
}

impl<L: Linearize, T> IntoIter<L, T> {
    /// A cursor over all entries of the values `data`, one per position of `L`.
    pub(crate) fn new(data: Vec<T>) -> (r: Self)
        requires
            L::fits_usize(),
            data@.len() == L::cardinality(),
        ensures
            r@ == entries_between::<L, T>(data@, 0, L::cardinality()),
    {
        let ghost orig = data@;
        let mut data = data;
        let mut items: VecDeque<(L, T)> = VecDeque::new();
        while data.len() > 0
            invariant
                L::fits_usize(),
                orig.len() == L::cardinality(),
                data@.len() <= orig.len(),
                data@ == orig.take(data@.len() as int),
                items@ == entries_between::<L, T>(orig, data@.len() as nat, orig.len()),
            decreases data@.len(),
        {
            let v = data.pop().unwrap();
            let k = L::from_linear_unchecked(data.len());
            items.push_front((k, v));
            proof {
                assert(items@ =~= entries_between::<L, T>(orig, data@.len() as nat, orig.len()));
            }
        }
        IntoIter { items }
    }
}

impl<L, T> IntoIter<L, T> {
    /// The number of entries still to be produced.
    pub fn len(&self) -> (r: usize)
        ensures
            r == self@.len(),
    {
        self.items.len()
    }

    /// The exact number of entries still to be produced, as a lower and an upper bound.
    pub fn size_hint(&self) -> (r: (usize, Option<usize>))
        ensures
            r.0 == self@.len(),
            r.1 == Some(self@.len() as usize),
    {
        let n = self.len();
        (n, Some(n))
    }

    /// The next entry from the front.
    pub fn next(&mut self) -> (r: Option<(L, T)>)
        ensures
            old(self)@.len() == 0 ==> r.is_none() && final(self)@ == old(self)@,
            old(self)@.len() > 0 ==> r == Some(old(self)@[0]) && final(self)@ == old(self)@.drop_first(),
    {
        let r = self.items.pop_front();
        proof {
            if old(self)@.len() > 0 {
                assert(self@ =~= old(self)@.drop_first());
            }
        }
        r
    }

    /// The next entry from the back.
    pub fn next_back(&mut self) -> (r: Option<(L, T)>)
        ensures
            old(self)@.len() == 0 ==> r.is_none() && final(self)@ == old(self)@,
            old(self)@.len() > 0 ==> r == Some(old(self)@.last()) && final(self)@ == old(self)@.drop_last(),
    {
        let r = self.items.pop_back();
        proof {
            if old(self)@.len() > 0 {
                assert(self@ =~= old(self)@.drop_last());
            }
        }
        r
    }

    /// Skips `n` entries from the front and produces the one after them.
    pub fn nth(&mut self, n: usize) -> (r: Option<(L, T)>)
        ensures
            n < old(self)@.len() ==> r == Some(old(self)@[n as int]) && final(self)@ == old(self)@.skip(n + 1),
            n >= old(self)@.len() ==> r.is_none() && final(self)@.len() == 0,
    {
        let mut skipped: usize = 0;
        while skipped < n && self.len() > 0
            invariant
                skipped <= n,
                skipped <= old(self)@.len(),
                self@ == old(self)@.skip(skipped as int),
            decreases n - skipped,
        {
            let _ = self.next();
            skipped = skipped + 1;
            proof {
                assert(self@ =~= old(self)@.skip(skipped as int));
            }
        }
        let r = self.next();
        proof {
            if n < old(self)@.len() {
                assert(self@ =~= old(self)@.skip(n + 1));
            }
        }
        r
    }

    /// Skips `n` entries from the back and produces the one before them.
    pub fn nth_back(&mut self, n: usize) -> (r: Option<(L, T)>)
        ensures
            n < old(self)@.len() ==> r == Some(old(self)@[old(self)@.len() - 1 - n])
                && final(self)@ == old(self)@.take(old(self)@.len() - 1 - n),
            n >= old(self)@.len() ==> r.is_none() && final(self)@.len() == 0,
    {
        let mut skipped: usize = 0;
        while skipped < n && self.len() > 0
            invariant
                skipped <= n,
                skipped <= old(self)@.len(),
                self@ == old(self)@.take(old(self)@.len() - skipped),
            decreases n - skipped,
        {
            let _ = self.next_back();
            skipped = skipped + 1;
            proof {
                assert(self@ =~= old(self)@.take(old(self)@.len() - skipped));
            }
        }
        let r = self.next_back();
        proof {
            if n < old(self)@.len() {
                assert(self@ =~= old(self)@.take(old(self)@.len() - 1 - n));
            }
        }
        r
    }

    /// The number of entries still to be produced.
    pub fn count(self) -> (r: usize)
        ensures
            r == self@.len(),
    {
        self.len()
    }

    /// The last entry still to be produced.
    pub fn last(self) -> (r: Option<(L, T)>)
        ensures
            self@.len() == 0 ==> r.is_none(),
            self@.len() > 0 ==> r == Some(self@.last()),
    {
        let mut s = self;
        s.next_back()
    }
}

} // verus!
