//! A total map keyed by a linearizable type, stored as one value per position.
use vstd::prelude::*;

use crate::linearize::Linearize;
use crate::iters::{entries_between, IntoIter, Iter};
use crate::linearized::Linearized;
use crate::variants::{values_between, Variants};
use core::marker::PhantomData;

verus! {

/// An array-backed total map: exactly one value for each value of the key type `L`,
/// stored at the key's position. It stores no keys and never resizes.
///
/// The model of a map is the sequence of its values, indexed by position; its length is
/// always `L::cardinality()`.
#[derive(Debug, PartialEq, Eq, PartialOrd, Ord, Hash)]
pub struct StaticMap<L: Linearize, T> {
    data: Vec<T>,
    marker: PhantomData<L>,
}

impl<L: Linearize, T> View for StaticMap<L, T> {
    type V = Seq<T>;

    closed spec fn view(&self) -> Seq<T> {
        self.data@
    }
}

impl<L: Linearize, T> StaticMap<L, T> {
    #[verifier::type_invariant]
    closed spec fn wf(&self) -> bool {
        &&& L::fits_usize()
        &&& self.data@.len() == L::cardinality()
    }

    /// The value stored for `key`.
    pub open spec fn spec_get(&self, key: L) -> T {
        self@[key.index_of() as int]
    }

    /// The number of values: one per key, so always `L::cardinality()`.
    pub fn len(&self) -> (r: usize)
        ensures
            r == self@.len(),
            r == L::cardinality(),
            L::fits_usize(),
    {
        proof {
            use_type_invariant(self);
        }
        self.data.len()
    }

    /// Creates a map by calling `cb` once for each key, in ascending position order.
    pub fn from_fn(cb: impl Fn(L) -> T) -> (r: Self)
        requires
            L::fits_usize(),
            forall|i: nat| i < L::cardinality() ==> #[trigger] cb.requires((L::value_at(i),)),
        ensures
            r@.len() == L::cardinality(),
            forall|i: int| 0 <= i < L::cardinality() ==> cb.ensures((L::value_at(i as nat),), #[trigger] r@[i]),
    {
        let n = L::length();
        let mut data: Vec<T> = Vec::new();
        let mut i: usize = 0;
        while i < n
            invariant
                L::fits_usize(),
                n == L::cardinality(),
                i <= n,
                data@.len() == i,
                forall|j: nat| j < L::cardinality() ==> #[trigger] cb.requires((L::value_at(j),)),
                forall|j: int| 0 <= j < i ==> cb.ensures((L::value_at(j as nat),), #[trigger] data@[j]),
            decreases n - i,
        {
            let key = L::from_linear_unchecked(i);
            let v = cb(key);
            data.push(v);
            i += 1;
        }
        StaticMap { data, marker: PhantomData }
    }

    /// The value stored for `key`.
    pub fn get(&self, key: &L) -> (r: &T)
        requires
            key.reachable(),
        ensures
            *r == self.spec_get(*key),
    {
        proof {
            use_type_invariant(self);
            L::lemma_bijection();
        }
        let i = key.linearize();
        &self.data[i]
    }

    /// Replaces the value stored for `key`.
    pub fn set(&mut self, key: &L, value: T)
        requires
            key.reachable(),
        ensures
            final(self)@ == old(self)@.update(key.index_of() as int, value),
    {
        proof {
            use_type_invariant(&*self);
            L::lemma_bijection();
        }
        let i = key.linearize();
        self.data[i] = value;
    }

    /// The value stored at a cached position.
    pub fn get_linearized(&self, key: Linearized<L>) -> (r: &T)
        ensures
            *r == self@[key@ as int],
    {
        proof {
            use_type_invariant(self);
        }
        &self.data[key.get()]
    }

    /// Replaces the value stored at a cached position.
    pub fn set_linearized(&mut self, key: Linearized<L>, value: T)
        ensures
            final(self)@ == old(self)@.update(key@ as int, value),
    {
        proof {
            use_type_invariant(&*self);
        }
        let i = key.get();
        self.data[i] = value;
    }
}

impl<L: Linearize, T> core::ops::Index<L> for StaticMap<L, T> {
    type Output = T;

    fn index(&self, key: L) -> (r: &T)
        ensures
            *r == self.spec_get(key),
    {
        self.get(&key)
    }
}

impl<L: Linearize, T> vstd::std_specs::core::IndexSpecImpl<L> for StaticMap<L, T> {
    open spec fn index_req(&self, key: &L) -> bool {
        key.reachable()
    }
}

impl<'a, L: Linearize, T> core::ops::Index<&'a L> for StaticMap<L, T> {
    type Output = T;

    fn index(&self, key: &'a L) -> (r: &T)
        ensures
            *r == self.spec_get(*key),
    {
        self.get(key)
    }
}

impl<'a, L: Linearize, T> vstd::std_specs::core::IndexSpecImpl<&'a L> for StaticMap<L, T> {
    open spec fn index_req(&self, key: &&'a L) -> bool {
        key.reachable()
    }
}

impl<L: Linearize, T> core::ops::Index<Linearized<L>> for StaticMap<L, T> {
    type Output = T;

    fn index(&self, key: Linearized<L>) -> (r: &T)
        ensures
            *r == self@[key@ as int],
    {
        self.get_linearized(key)
    }
}

impl<L: Linearize, T> vstd::std_specs::core::IndexSpecImpl<Linearized<L>> for StaticMap<L, T> {
    open spec fn index_req(&self, key: &Linearized<L>) -> bool {
        true
    }
}

impl<L: Linearize, T> core::ops::Deref for StaticMap<L, T> {
    type Target = [T];

    fn deref(&self) -> (r: &[T])
        ensures
            r@ == self@,
    {
        self.data.as_slice()
    }
}

impl<L: Linearize, T: Clone> Clone for StaticMap<L, T> {
    fn clone(&self) -> (r: Self)
        ensures
            r@.len() == self@.len(),
            forall|i: int| 0 <= i < self@.len() ==> cloned::<T>(self@[i], #[trigger] r@[i]),
    {
        proof {
            use_type_invariant(self);
        }
        StaticMap { data: self.data.clone(), marker: PhantomData }
    }
}

/// The elements of `v` in reverse order.
fn reversed<T>(v: Vec<T>) -> (r: Vec<T>)
    ensures
        r@.len() == v@.len(),
        forall|i: int| 0 <= i < v@.len() ==> #[trigger] r@[i] == v@[v@.len() - 1 - i],
{
    let mut v = v;
    let ghost orig = v@;
    let mut r: Vec<T> = Vec::new();
    while v.len() > 0
        invariant
            v@ == orig.take(v@.len() as int),
            r@.len() + v@.len() == orig.len(),
            forall|i: int| 0 <= i < r@.len() ==> #[trigger] r@[i] == orig[orig.len() - 1 - i],
        decreases v@.len(),
    {
        let x = v.pop().unwrap();
        r.push(x);
    }
    r
}

/// The length that a buffer should have had, and the length it had.
#[derive(Clone, Copy, Debug, PartialEq, Eq)]
pub struct LengthError {
    pub expected: usize,
    pub actual: usize,
}

impl<L: Linearize, T> StaticMap<L, T> {
    /// Creates a map from a buffer holding the value of each position; fails, handing the
    /// buffer back, unless its length is exactly `L::cardinality()`.
    pub fn try_from_vec(v: Vec<T>) -> (r: Result<Self, Vec<T>>)
        requires
            L::fits_usize(),
        ensures
            v@.len() == L::cardinality() <==> r is Ok,
            r matches Ok(m) ==> m@ == v@,
            r matches Err(e) ==> e@ == v@,
    {
        if v.len() == L::length() {
            Ok(StaticMap { data: v, marker: PhantomData })
        } else {
            Err(v)
        }
    }

    /// Wraps a buffer already known to hold one value per position.
    pub(crate) fn from_full_vec(v: Vec<T>) -> (r: Self)
        requires
            L::fits_usize(),
            v@.len() == L::cardinality(),
        ensures
            r@ == v@,
    {
        StaticMap { data: v, marker: PhantomData }
    }

    /// The values, by position.
    pub fn into_vec(self) -> (r: Vec<T>)
        ensures
            r@ == self@,
    {
        self.data
    }

    /// The values, by position.
    pub fn as_slice(&self) -> (r: &[T])
        ensures
            r@ == self@,
    {
        self.data.as_slice()
    }

    /// A cursor over every key, in ascending position order.
    pub fn keys(&self) -> (r: Variants<L>)
        ensures
            r@ == values_between::<L>(0, L::cardinality()),
    {
        proof {
            use_type_invariant(self);
        }
        Variants::new()
    }

    /// A cursor over the values, in ascending position order.
    pub fn values(&self) -> (r: core::slice::Iter<'_, T>)
        ensures
            vstd::std_specs::iter::IteratorSpec::remaining(&r) == self@.as_ref(),
    {
        broadcast use vstd::std_specs::slice::axiom_spec_slice_iter;

        self.data.as_slice().iter()
    }

    /// A cursor over the entries by reference, in ascending position order.
    pub fn iter(&self) -> (r: Iter<'_, L, T>)
        ensures
            r@ == entries_between::<L, T>(self@, 0, L::cardinality()),
    {
        proof {
            use_type_invariant(self);
        }
        Iter::new(&self.data)
    }

    /// A cursor over the entries by value, in ascending position order.
    pub fn into_iter(self) -> (r: IntoIter<L, T>)
        ensures
            r@ == entries_between::<L, T>(self@, 0, L::cardinality()),
    {
        proof {
            use_type_invariant(&self);
        }
        IntoIter::new(self.data)
    }

    /// Replaces each value `v` by `f(v)`, calling `f` in ascending position order.
    pub fn map_values<U>(self, f: impl Fn(T) -> U) -> (r: StaticMap<L, U>)
        requires
            forall|i: int| 0 <= i < self@.len() ==> #[trigger] f.requires((self@[i],)),
        ensures
            r@.len() == self@.len(),
            forall|i: int| 0 <= i < self@.len() ==> f.ensures((self@[i],), #[trigger] r@[i]),
    {
        proof {
            use_type_invariant(&self);
        }
        let ghost old_view = self@;
        let mut rest = reversed(self.data);
        let mut out: Vec<U> = Vec::new();
        while rest.len() > 0
            invariant
                L::fits_usize(),
                old_view.len() == L::cardinality(),
                out@.len() + rest@.len() == old_view.len(),
                forall|i: int| 0 <= i < rest@.len() ==> #[trigger] rest@[i] == old_view[old_view.len() - 1 - i],
                forall|i: int| 0 <= i < old_view.len() ==> #[trigger] f.requires((old_view[i],)),
                forall|i: int| 0 <= i < out@.len() ==> f.ensures((old_view[i],), #[trigger] out@[i]),
            decreases rest@.len(),
        {
            let v = rest.pop().unwrap();
            let u = f(v);
            out.push(u);
        }
        StaticMap { data: out, marker: PhantomData }
    }

    /// Replaces the value `v` stored for each key `k` by `f(k, v)`, calling `f` in ascending
    /// position order.
    pub fn map<U>(self, f: impl Fn(L, T) -> U) -> (r: StaticMap<L, U>)
        requires
            forall|i: int| 0 <= i < self@.len() ==> #[trigger] f.requires((L::value_at(i as nat), self@[i])),
        ensures
            r@.len() == self@.len(),
            forall|i: int| 0 <= i < self@.len() ==> f.ensures((L::value_at(i as nat), self@[i]), #[trigger] r@[i]),
    {
        proof {
            use_type_invariant(&self);
        }
        let ghost old_view = self@;
        let mut rest = reversed(self.data);
        let mut out: Vec<U> = Vec::new();
        while rest.len() > 0
            invariant
                L::fits_usize(),
                old_view.len() == L::cardinality(),
                out@.len() + rest@.len() == old_view.len(),
                forall|i: int| 0 <= i < rest@.len() ==> #[trigger] rest@[i] == old_view[old_view.len() - 1 - i],
                forall|i: int| 0 <= i < old_view.len() ==> #[trigger] f.requires((L::value_at(i as nat), old_view[i])),
                forall|i: int| 0 <= i < out@.len() ==> f.ensures((L::value_at(i as nat), old_view[i]), #[trigger] out@[i]),
            decreases rest@.len(),
        {
            let v = rest.pop().unwrap();
            let k = L::from_linear_unchecked(out.len());
            let ghost j: int = out@.len() as int;
            assert(f.requires((L::value_at(j as nat), old_view[j])));
            let u = f(k, v);
            out.push(u);
        }
        StaticMap { data: out, marker: PhantomData }
    }
}

impl<L: Linearize, T: Default> StaticMap<L, T> {
    /// A map holding `T::default()` for every key.
    pub fn default() -> (r: Self)
        requires
            L::fits_usize(),
        ensures
            r@.len() == L::cardinality(),
            forall|i: int| 0 <= i < r@.len() ==> call_ensures(T::default, (), #[trigger] r@[i]),
    {
        let n = L::length();
        let mut data: Vec<T> = Vec::new();
        while data.len() < n
            invariant
                data@.len() <= n,
                forall|i: int| 0 <= i < data@.len() ==> call_ensures(T::default, (), #[trigger] data@[i]),
            decreases n - data@.len(),
        {
            data.push(T::default());
        }
        StaticMap { data, marker: PhantomData }
    }

    /// Resets every value to `T::default()`.
    pub fn clear(&mut self)
        ensures
            final(self)@.len() == old(self)@.len(),
            forall|i: int| 0 <= i < final(self)@.len() ==> call_ensures(T::default, (), #[trigger] final(self)@[i]),
    {
        proof {
            use_type_invariant(&*self);
        }
        let n = self.data.len();
        let mut i: usize = 0;
        while i < n
            invariant
                L::fits_usize(),
                n == L::cardinality(),
                n == self@.len(),
                n == old(self)@.len(),
                i <= n,
                forall|j: int| 0 <= j < i ==> call_ensures(T::default, (), #[trigger] self@[j]),
            decreases n - i,
        {
            self.data[i] = T::default();
            i += 1;
        }
    }
}

impl<L: Linearize, T: Default> StaticMap<L, T> {
    /// A map holding, for each key, the value of the last pair with that key, or
    /// `T::default()` where no pair has it.
    pub fn from_pairs(pairs: Vec<(L, T)>) -> (r: Self)
        requires
            L::fits_usize(),
            forall|k: int| 0 <= k < pairs@.len() ==> (#[trigger] pairs@[k]).0.reachable(),
        ensures
            r@.len() == L::cardinality(),
            forall|i: int|
                0 <= i < L::cardinality() ==> (#[trigger] last_entry(pairs@, i as nat) matches Some(v)
                    ==> r@[i] == v),
            forall|i: int|
                0 <= i < L::cardinality() ==> (#[trigger] last_entry(pairs@, i as nat) is None
                    ==> call_ensures(T::default, (), r@[i])),
    {
        let collected = StaticMap::<L, Option<T>>::collect_pairs(pairs);
        collected.map_values(or_default::<T>)
    }
}

impl<L: Linearize, T: Copy> StaticMap<L, T> {
    /// A map holding the same values, copied one by one.
    pub fn copy_values(&self) -> (r: Self)
        ensures
            r@ == self@,
    {
        proof {
            use_type_invariant(self);
        }
        let n = self.data.len();
        let mut data: Vec<T> = Vec::new();
        let mut i: usize = 0;
        while i < n
            invariant
                n == self@.len(),
                i <= n,
                data@ == self@.take(i as int),
            decreases n - i,
        {
            data.push(self.data[i]);
            i += 1;
        }
        assert(data@ =~= self@);
        StaticMap { data, marker: PhantomData }
    }

    /// Creates a map from a slice holding the value of each position; fails unless its
    /// length is exactly `L::cardinality()`.
    pub fn try_from_slice(s: &[T]) -> (r: Result<Self, LengthError>)
        requires
            L::fits_usize(),
        ensures
            s@.len() == L::cardinality() <==> r is Ok,
            r matches Ok(m) ==> m@ == s@,
            r matches Err(e) ==> e.expected == L::cardinality() && e.actual == s@.len(),
    {
        let n = L::length();
        if s.len() != n {
            return Err(LengthError { expected: n, actual: s.len() });
        }
        let mut data: Vec<T> = Vec::new();
        let mut i: usize = 0;
        while i < n
            invariant
                n == s@.len(),
                i <= n,
                data@ == s@.take(i as int),
            decreases n - i,
        {
            data.push(s[i]);
            i += 1;
        }
        assert(data@ == s@);
        Ok(StaticMap { data, marker: PhantomData })
    }
}

/// `x * y`, or `usize::MAX` where the product exceeds it.
pub open spec fn saturating_product(x: nat, y: nat) -> nat {
    if x * y <= usize::MAX {
        x * y
    } else {
        usize::MAX as nat
    }
}

impl<L: Linearize, T> StaticMap<L, T> {
    /// The size hint of a map whose values each have the size hint `elem`: both bounds
    /// scaled by the number of keys, the lower one saturating and the upper one absent
    /// where it overflows.
    pub fn scaled_size_hint(elem: (usize, Option<usize>)) -> (r: (usize, Option<usize>))
        requires
            L::fits_usize(),
        ensures
            r.0 == saturating_product(elem.0 as nat, L::cardinality()),
            r.1 == match elem.1 {
                Some(hi) => if hi * L::cardinality() <= usize::MAX {
                    Some((hi * L::cardinality()) as usize)
                } else {
                    None
                },
                None => None,
            },
    {
        let n = L::length();
        let lo = match elem.0.checked_mul(n) {
            Some(p) => p,
            None => usize::MAX,
        };
        let hi = match elem.1 {
            Some(h) => h.checked_mul(n),
            None => None,
        };
        (lo, hi)
    }
}

/// The value of the last pair in `pairs` whose key is at position `i`, if any.
pub open spec fn last_entry<L: Linearize, T>(pairs: Seq<(L, T)>, i: nat) -> Option<T>
    decreases pairs.len(),
{
    if pairs.len() == 0 {
        None
    } else if pairs.last().0.index_of() == i {
        Some(pairs.last().1)
    } else {
        last_entry(pairs.drop_last(), i)
    }
}

/// Reading back the first `m` entries of a map, in the order they are written, gives
/// each of those keys its own value and leaves every other key absent.
proof fn lemma_entries_prefix<L: Linearize, T>(values: Seq<T>, m: nat)
    requires
        values.len() == L::cardinality(),
        m <= L::cardinality(),
    ensures
        forall|i: nat|
            i < L::cardinality() ==> #[trigger] last_entry(entries_between::<L, T>(values, 0, m), i)
                == if i < m {
                Some(values[i as int])
            } else {
                None::<T>
            },
    decreases m,
{
    L::lemma_bijection();
    if m > 0 {
        lemma_entries_prefix::<L, T>(values, (m - 1) as nat);
        assert(entries_between::<L, T>(values, 0, m).drop_last() =~= entries_between::<L, T>(
            values,
            0,
            (m - 1) as nat,
        ));
        let e = entries_between::<L, T>(values, 0, m);
        assert(e.last() == (L::value_at((m - 1) as nat), values[m - 1]));
        assert(L::value_at((m - 1) as nat).index_of() == m - 1);
        assert forall|i: nat| i < L::cardinality() implies #[trigger] last_entry(e, i) == if i < m {
            Some(values[i as int])
        } else {
            None::<T>
        } by {
            if i != m - 1 {
                assert(last_entry(e, i) == last_entry(e.drop_last(), i));
            }
        }
    }
}

/// Reading back all entries of a map, in the order they are written, gives every key
/// its own value: no key is missing and no key takes another key's value.
pub proof fn lemma_entries_round_trip<L: Linearize, T>(values: Seq<T>)
    requires
        values.len() == L::cardinality(),
    ensures
        forall|i: nat|
            i < L::cardinality() ==> #[trigger] last_entry(
                entries_between::<L, T>(values, 0, L::cardinality()),
                i,
            ) == Some(values[i as int]),
{
    lemma_entries_prefix::<L, T>(values, L::cardinality());
}

/// The value held by `v`, which is present.
fn unwrap_present<T>(v: Option<T>) -> (r: T)
    requires
        v is Some,
    ensures
        Some(r) == v,
{
    v.unwrap()
}

/// The value held by `v`, or `T::default()` where there is none.
fn or_default<T: Default>(v: Option<T>) -> (r: T)
    ensures
        v is Some ==> Some(r) == v,
        v is None ==> call_ensures(T::default, (), r),
{
    match v {
        Some(x) => x,
        None => T::default(),
    }
}

/// The key of no pair of a payload: the first one, in position order, that is absent.
#[derive(Debug, PartialEq, Eq)]
pub struct MissingKey<L> {
    pub key: L,
}

impl<L: Linearize, T> StaticMap<L, Option<T>> {
    /// A map holding, for each key, the value of the last pair with that key, or `None`
    /// where no pair has it.
    pub fn collect_pairs(pairs: Vec<(L, T)>) -> (r: Self)
        requires
            L::fits_usize(),
            forall|k: int| 0 <= k < pairs@.len() ==> (#[trigger] pairs@[k]).0.reachable(),
        ensures
            r@.len() == L::cardinality(),
            forall|i: int| 0 <= i < L::cardinality() ==> #[trigger] r@[i] == last_entry(pairs@, i as nat),
    {
        proof {
            L::lemma_bijection();
        }
        let n = L::length();
        let mut data: Vec<Option<T>> = Vec::new();
        while data.len() < n
            invariant
                data@.len() <= n,
                forall|i: int| 0 <= i < data@.len() ==> (#[trigger] data@[i]).is_none(),
            decreases n - data@.len(),
        {
            data.push(None);
        }
        let ghost orig = pairs@;
        let mut pairs = pairs;
        while pairs.len() > 0
            invariant
                L::fits_usize(),
                n == L::cardinality(),
                data@.len() == n,
                pairs@.len() <= orig.len(),
                pairs@ == orig.take(pairs@.len() as int),
                forall|k: int| 0 <= k < orig.len() ==> (#[trigger] orig[k]).0.reachable(),
                forall|v: L| #[trigger] v.reachable() ==> v.index_of() < L::cardinality(),
                forall|i: int|
                    0 <= i < n ==> last_entry(orig, i as nat) == if (#[trigger] data@[i]).is_some() {
                        data@[i]
                    } else {
                        last_entry(pairs@, i as nat)
                    },
            decreases pairs@.len(),
        {
            let ghost before = pairs@;
            let (k, v) = pairs.pop().unwrap();
            proof {
                assert(before.last() == orig[pairs@.len() as int]);
                assert(pairs@ == before.drop_last());
            }
            let idx = k.linearize();
            if data[idx].is_none() {
                data.set(idx, Some(v));
            }
        }
        StaticMap { data, marker: PhantomData }
    }
}

impl<L: Linearize, T> StaticMap<L, T> {
    /// A map holding, for each key, the value of the last pair with that key; fails with
    /// the first key, in position order, that no pair has.
    pub fn from_entries(pairs: Vec<(L, T)>) -> (r: Result<Self, MissingKey<L>>)
        requires
            L::fits_usize(),
            forall|k: int| 0 <= k < pairs@.len() ==> (#[trigger] pairs@[k]).0.reachable(),
        ensures
            (forall|i: nat| i < L::cardinality() ==> (#[trigger] last_entry(pairs@, i)).is_some())
                <==> r is Ok,
            r matches Ok(m) ==> m@.len() == L::cardinality() && forall|i: int|
                0 <= i < L::cardinality() ==> Some(#[trigger] m@[i]) == last_entry(pairs@, i as nat),
            r matches Err(e) ==> exists|j: nat|
                j < L::cardinality() && e.key == L::value_at(j) && last_entry(pairs@, j).is_none()
                    && forall|i: nat| i < j ==> (#[trigger] last_entry(pairs@, i)).is_some(),
    {
        let collected = StaticMap::<L, Option<T>>::collect_pairs(pairs);
        let n = collected.len();
        let mut i: usize = 0;
        while i < n
            invariant
                L::fits_usize(),
                n == L::cardinality(),
                collected@.len() == n,
                i <= n,
                forall|j: int| 0 <= j < L::cardinality() ==> #[trigger] collected@[j] == last_entry(pairs@, j as nat),
                forall|j: nat| j < i ==> (#[trigger] last_entry(pairs@, j)).is_some(),
            decreases n - i,
        {
            if collected.get_at(i).is_none() {
                return Err(MissingKey { key: L::from_linear_unchecked(i) });
            }
            i += 1;
        }
        Ok(collected.map_values(unwrap_present::<T>))
    }

    /// Assigns the pairs in order, so that the last pair with a key decides its value;
    /// keys that no pair has keep their value.
    pub fn extend(&mut self, pairs: Vec<(L, T)>)
        requires
            forall|k: int| 0 <= k < pairs@.len() ==> (#[trigger] pairs@[k]).0.reachable(),
        ensures
            final(self)@.len() == old(self)@.len(),
            forall|i: int|
                0 <= i < old(self)@.len() ==> #[trigger] final(self)@[i] == match last_entry(pairs@, i as nat) {
                    Some(v) => v,
                    None => old(self)@[i],
                },
    {
        let _ = self.len();
        proof {
            L::lemma_bijection();
        }
        let ghost orig = pairs@;
        let mut rest = reversed(pairs);
        while rest.len() > 0
            invariant
                old(self)@.len() == L::cardinality(),
                forall|v: L| #[trigger] v.reachable() ==> v.index_of() < L::cardinality(),
                rest@.len() <= orig.len(),
                forall|k: int| 0 <= k < rest@.len() ==> #[trigger] rest@[k] == orig[orig.len() - 1 - k],
                forall|k: int| 0 <= k < orig.len() ==> (#[trigger] orig[k]).0.reachable(),
                self@.len() == old(self)@.len(),
                forall|i: int|
                    0 <= i < old(self)@.len() ==> #[trigger] self@[i] == match last_entry(
                        orig.take(orig.len() - rest@.len()),
                        i as nat,
                    ) {
                        Some(v) => v,
                        None => old(self)@[i],
                    },
            decreases rest@.len(),
        {
            let ghost done = orig.take(orig.len() - rest@.len());
            let (k, v) = rest.pop().unwrap();
            proof {
                let c = orig.len() - rest@.len() - 1;
                assert(orig.take(c + 1).drop_last() =~= done);
                assert(orig.take(c + 1).last() == orig[c]);
            }
            self.set(&k, v);
        }
        assert(orig.take(orig.len() as int) =~= orig);
    }

    /// The entries by value, in ascending position order.
    pub fn into_entries(self) -> (r: Vec<(L, T)>)
        ensures
            r@ == entries_between::<L, T>(self@, 0, L::cardinality()),
    {
        let mut it = self.into_iter();
        let ghost all = it@;
        let mut out: Vec<(L, T)> = Vec::new();
        while it.len() > 0
            invariant
                all == out@ + it@,
            decreases it@.len(),
        {
            let e = it.next().unwrap();
            proof {
                assert(all =~= out@.push(e) + it@);
            }
            out.push(e);
        }
        assert(out@ =~= all);
        out
    }

    /// The value at position `i`.
    pub fn get_at(&self, i: usize) -> (r: &T)
        requires
            i < self@.len(),
        ensures
            *r == self@[i as int],
    {
        &self.data[i]
    }
}

} // verus!
