//! Composition of linearizations: records (tuples) by mixed-radix encoding, with the
//! first field as the most significant digit, and tagged unions (`Option`, `Result`)
//! by giving each variant a contiguous range of positions in declaration order.
use vstd::prelude::*;

use crate::linearize::Linearize;
use vstd::arithmetic::div_mod::{
    lemma_fundamental_div_mod, lemma_fundamental_div_mod_converse, lemma_mod_pos_bound,
};
use vstd::arithmetic::mul::{lemma_mul_inequality, lemma_mul_is_associative};

verus! {

/// The position of a record whose leading digit is `hi` and whose trailing digits form
/// position `lo` among `n` values.
pub open spec fn pair_index(hi: nat, lo: nat, n: nat) -> nat {
    hi * n + lo
}

/// Encoding two in-range digits gives an in-range position from which both digits are
/// recovered by division and remainder.
pub proof fn lemma_pair_encode(hi: nat, lo: nat, m: nat, n: nat)
    requires
        hi < m,
        lo < n,
    ensures
        pair_index(hi, lo, n) < m * n,
        pair_index(hi, lo, n) / n == hi,
        pair_index(hi, lo, n) % n == lo,
{
    lemma_fundamental_div_mod_converse(pair_index(hi, lo, n) as int, n as int, hi as int, lo as int);
    lemma_mul_inequality(hi as int + 1, m as int, n as int);
    assert((hi + 1) * n == hi * n + n) by (nonlinear_arith);
}

/// Every position below `m * n` splits into two in-range digits that encode it again.
pub proof fn lemma_pair_decode(i: nat, m: nat, n: nat)
    requires
        i < m * n,
    ensures
        0 < m,
        0 < n,
        i / n < m,
        i % n < n,
        pair_index(i / n, i % n, n) == i,
{
    if n == 0 {
        assert(m * n == 0) by (nonlinear_arith)
            requires
                n == 0,
        ;
    }
    if m == 0 {
        assert(m * n == 0) by (nonlinear_arith)
            requires
                m == 0,
        ;
    }
    lemma_fundamental_div_mod(i as int, n as int);
    lemma_mod_pos_bound(i as int, n as int);
    let q = i / n;
    assert(n * q == q * n) by (nonlinear_arith);
    if q >= m {
        lemma_mul_inequality(m as int, q as int, n as int);
    }
}

/// Enumerating a two-field record visits its values in nested-loop order: the first
/// field in the outer loop, the second in the inner one.
pub proof fn lemma_pair_enumeration<A: Linearize, B: Linearize>(ia: nat, ib: nat)
    requires
        ia < A::cardinality(),
        ib < B::cardinality(),
    ensures
        <(A, B) as Linearize>::value_at(ia * B::cardinality() + ib) == (A::value_at(ia), B::value_at(ib)),
{
    lemma_pair_encode(ia, ib, A::cardinality(), B::cardinality());
}

/// A two-field record with a field of an uninhabited type is uninhabited, whichever
/// field it is: its cardinality is zero and none of its values is reachable.
pub proof fn lemma_uninhabited_pair<A: Linearize, B: Linearize>()
    requires
        A::cardinality() == 0 || B::cardinality() == 0,
    ensures
        <(A, B) as Linearize>::cardinality() == 0,
        forall|v: (A, B)| !(#[trigger] v.reachable()),
{
    A::lemma_bijection();
    B::lemma_bijection();
    assert(A::cardinality() * B::cardinality() == 0) by (nonlinear_arith)
        requires
            A::cardinality() == 0 || B::cardinality() == 0,
    ;
}

/// A three-field record with a field of an uninhabited type is uninhabited, whichever
/// field it is: its cardinality is zero and none of its values is reachable.
pub proof fn lemma_uninhabited_triple<A: Linearize, B: Linearize, C: Linearize>()
    requires
        A::cardinality() == 0 || B::cardinality() == 0 || C::cardinality() == 0,
    ensures
        <(A, B, C) as Linearize>::cardinality() == 0,
        forall|v: (A, B, C)| !(#[trigger] v.reachable()),
{
    A::lemma_bijection();
    B::lemma_bijection();
    C::lemma_bijection();
    assert(A::cardinality() * B::cardinality() * C::cardinality() == 0) by (nonlinear_arith)
        requires
            A::cardinality() == 0 || B::cardinality() == 0 || C::cardinality() == 0,
    ;
}

/// A record of two fields: `LENGTH = |A| * |B|`, position `a * |B| + b`.
impl<A: Linearize, B: Linearize> Linearize for (A, B) {
    open spec fn cardinality() -> nat {
        A::cardinality() * B::cardinality()
    }

    open spec fn fits_usize() -> bool {
        A::fits_usize() && B::fits_usize() && Self::cardinality() <= usize::MAX
    }

    open spec fn reachable(&self) -> bool {
        self.0.reachable() && self.1.reachable()
    }

    open spec fn index_of(&self) -> nat {
        pair_index(self.0.index_of(), self.1.index_of(), B::cardinality())
    }

    open spec fn value_at(i: nat) -> (A, B) {
        (A::value_at(i / B::cardinality()), B::value_at(i % B::cardinality()))
    }

    proof fn lemma_bijection() {
        A::lemma_bijection();
        B::lemma_bijection();
        assert forall|v: (A, B)| #[trigger] v.reachable() implies v.index_of() < Self::cardinality()
            && Self::value_at(v.index_of()) == v by {
            lemma_pair_encode(v.0.index_of(), v.1.index_of(), A::cardinality(), B::cardinality());
        }
        assert forall|i: nat| i < Self::cardinality() implies (#[trigger] Self::value_at(
            i,
        )).reachable() && Self::value_at(i).index_of() == i by {
            lemma_pair_decode(i, A::cardinality(), B::cardinality());
        }
    }

    fn length() -> (r: usize) {
        A::length() * B::length()
    }

    fn linearize(&self) -> (r: usize) {
        proof {
            A::lemma_bijection();
            B::lemma_bijection();
            lemma_pair_encode(self.0.index_of(), self.1.index_of(), A::cardinality(), B::cardinality());
        }
        self.0.linearize() * B::length() + self.1.linearize()
    }

    fn from_linear_unchecked(linear: usize) -> (r: (A, B)) {
        proof {
            lemma_pair_decode(linear as nat, A::cardinality(), B::cardinality());
        }
        let n = B::length();
        (A::from_linear_unchecked(linear / n), B::from_linear_unchecked(linear % n))
    }
}

/// A record of one field has the linearization of that field.
impl<A: Linearize> Linearize for (A,) {
    open spec fn cardinality() -> nat {
        A::cardinality()
    }

    open spec fn fits_usize() -> bool {
        A::fits_usize()
    }

    open spec fn reachable(&self) -> bool {
        self.0.reachable()
    }

    open spec fn index_of(&self) -> nat {
        self.0.index_of()
    }

    open spec fn value_at(i: nat) -> (A,) {
        (A::value_at(i),)
    }

    proof fn lemma_bijection() {
        A::lemma_bijection();
    }

    fn length() -> (r: usize) {
        A::length()
    }

    fn linearize(&self) -> (r: usize) {
        self.0.linearize()
    }

    fn from_linear_unchecked(linear: usize) -> (r: (A,)) {
        (A::from_linear_unchecked(linear),)
    }
}

/// A record of three fields: `LENGTH = |A| * |B| * |C|`, position
/// `a * |B| * |C| + b * |C| + c`.
impl<A: Linearize, B: Linearize, C: Linearize> Linearize for (A, B, C) {
    open spec fn cardinality() -> nat {
        A::cardinality() * B::cardinality() * C::cardinality()
    }

    open spec fn fits_usize() -> bool {
        &&& A::fits_usize()
        &&& B::fits_usize()
        &&& C::fits_usize()
        &&& A::cardinality() * B::cardinality() <= usize::MAX
        &&& Self::cardinality() <= usize::MAX
    }

    open spec fn reachable(&self) -> bool {
        self.0.reachable() && self.1.reachable() && self.2.reachable()
    }

    open spec fn index_of(&self) -> nat {
        pair_index(
            pair_index(self.0.index_of(), self.1.index_of(), B::cardinality()),
            self.2.index_of(),
            C::cardinality(),
        )
    }

    open spec fn value_at(i: nat) -> (A, B, C) {
        let hi = i / C::cardinality();
        (
            A::value_at(hi / B::cardinality()),
            B::value_at(hi % B::cardinality()),
            C::value_at(i % C::cardinality()),
        )
    }

    proof fn lemma_bijection() {
        A::lemma_bijection();
        B::lemma_bijection();
        C::lemma_bijection();
        let ab = A::cardinality() * B::cardinality();
        assert forall|v: (A, B, C)| #[trigger] v.reachable() implies v.index_of()
            < Self::cardinality() && Self::value_at(v.index_of()) == v by {
            lemma_pair_encode(v.0.index_of(), v.1.index_of(), A::cardinality(), B::cardinality());
            lemma_pair_encode(
                pair_index(v.0.index_of(), v.1.index_of(), B::cardinality()),
                v.2.index_of(),
                ab,
                C::cardinality(),
            );
        }
        assert forall|i: nat| i < Self::cardinality() implies (#[trigger] Self::value_at(
            i,
        )).reachable() && Self::value_at(i).index_of() == i by {
            lemma_pair_decode(i, ab, C::cardinality());
            lemma_pair_decode(i / C::cardinality(), A::cardinality(), B::cardinality());
        }
    }

    fn length() -> (r: usize) {
        A::length() * B::length() * C::length()
    }

    fn linearize(&self) -> (r: usize) {
        proof {
            A::lemma_bijection();
            B::lemma_bijection();
            C::lemma_bijection();
            lemma_pair_encode(self.0.index_of(), self.1.index_of(), A::cardinality(), B::cardinality());
            lemma_pair_encode(
                pair_index(self.0.index_of(), self.1.index_of(), B::cardinality()),
                self.2.index_of(),
                A::cardinality() * B::cardinality(),
                C::cardinality(),
            );
        }
        let hi = self.0.linearize() * B::length() + self.1.linearize();
        hi * C::length() + self.2.linearize()
    }

    fn from_linear_unchecked(linear: usize) -> (r: (A, B, C)) {
        proof {
            lemma_pair_decode(linear as nat, A::cardinality() * B::cardinality(), C::cardinality());
            lemma_pair_decode(linear as nat / C::cardinality(), A::cardinality(), B::cardinality());
        }
        let nc = C::length();
        let hi = linear / nc;
        let nb = B::length();
        (
            A::from_linear_unchecked(hi / nb),
            B::from_linear_unchecked(hi % nb),
            C::from_linear_unchecked(linear % nc),
        )
    }
}

/// A union of `None` (position 0) and `Some(a)` (positions `1..1 + |A|`).
impl<A: Linearize> Linearize for Option<A> {
    open spec fn cardinality() -> nat {
        1 + A::cardinality()
    }

    open spec fn fits_usize() -> bool {
        A::fits_usize() && Self::cardinality() <= usize::MAX
    }

    open spec fn reachable(&self) -> bool {
        match self {
            None => true,
            Some(a) => a.reachable(),
        }
    }

    open spec fn index_of(&self) -> nat {
        match self {
            None => 0,
            Some(a) => 1 + a.index_of(),
        }
    }

    open spec fn value_at(i: nat) -> Option<A> {
        if i < 1 {
            None
        } else {
            Some(A::value_at((i - 1) as nat))
        }
    }

    proof fn lemma_bijection() {
        A::lemma_bijection();
        assert forall|i: nat| i < Self::cardinality() implies (#[trigger] Self::value_at(
            i,
        )).reachable() && Self::value_at(i).index_of() == i by {
            if i >= 1 {
                assert(A::value_at((i - 1) as nat).reachable());
            }
        }
    }

    fn length() -> (r: usize) {
        1 + A::length()
    }

    fn linearize(&self) -> (r: usize) {
        proof {
            A::lemma_bijection();
        }
        match self {
            None => 0,
            Some(a) => 1 + a.linearize(),
        }
    }

    fn from_linear_unchecked(linear: usize) -> (r: Option<A>) {
        if linear < 1 {
            None
        } else {
            Some(A::from_linear_unchecked(linear - 1))
        }
    }
}

/// A union of `Ok(a)` (positions `0..|A|`) and `Err(b)` (positions `|A|..|A| + |B|`).
impl<A: Linearize, B: Linearize> Linearize for Result<A, B> {
    open spec fn cardinality() -> nat {
        A::cardinality() + B::cardinality()
    }

    open spec fn fits_usize() -> bool {
        A::fits_usize() && B::fits_usize() && Self::cardinality() <= usize::MAX
    }

    open spec fn reachable(&self) -> bool {
        match self {
            Ok(a) => a.reachable(),
            Err(b) => b.reachable(),
        }
    }

    open spec fn index_of(&self) -> nat {
        match self {
            Ok(a) => a.index_of(),
            Err(b) => A::cardinality() + b.index_of(),
        }
    }

    open spec fn value_at(i: nat) -> Result<A, B> {
        if i < A::cardinality() {
            Ok(A::value_at(i))
        } else {
            Err(B::value_at((i - A::cardinality()) as nat))
        }
    }

    proof fn lemma_bijection() {
        A::lemma_bijection();
        B::lemma_bijection();
        assert forall|i: nat| i < Self::cardinality() implies (#[trigger] Self::value_at(
            i,
        )).reachable() && Self::value_at(i).index_of() == i by {
            if i >= A::cardinality() {
                assert(B::value_at((i - A::cardinality()) as nat).reachable());
            } else {
                assert(A::value_at(i).reachable());
            }
        }
    }

    fn length() -> (r: usize) {
        A::length() + B::length()
    }

    fn linearize(&self) -> (r: usize) {
        proof {
            A::lemma_bijection();
            B::lemma_bijection();
        }
        match self {
            Ok(a) => a.linearize(),
            Err(b) => A::length() + b.linearize(),
        }
    }

    fn from_linear_unchecked(linear: usize) -> (r: Result<A, B>) {
        let base = A::length();
        if linear < base {
            Ok(A::from_linear_unchecked(linear))
        } else {
            Err(B::from_linear_unchecked(linear - base))
        }
    }
}

} // verus!
