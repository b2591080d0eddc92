use vstd::prelude::*;

use crate::linearize::Linearize;
use core::cmp::Ordering;
use core::convert::Infallible;

verus! {

impl Linearize for bool {
    open spec fn cardinality() -> nat {
        2
    }

    open spec fn fits_usize() -> bool {
        true
    }

    open spec fn reachable(&self) -> bool {
        true
    }

    open spec fn index_of(&self) -> nat {
        if *self {
            1
        } else {
            0
        }
    }

    open spec fn value_at(i: nat) -> bool {
        i != 0
    }

    proof fn lemma_bijection() {
    }

    fn length() -> (r: usize) {
        2
    }

    fn linearize(&self) -> (r: usize) {
        if *self {
            1
        } else {
            0
        }
    }

    fn from_linear_unchecked(linear: usize) -> (r: bool) {
        linear != 0
    }
}

impl Linearize for () {
    open spec fn cardinality() -> nat {
        1
    }

    open spec fn fits_usize() -> bool {
        true
    }

    open spec fn reachable(&self) -> bool {
        true
    }

    open spec fn index_of(&self) -> nat {
        0
    }

    open spec fn value_at(i: nat) -> () {
        ()
    }

    proof fn lemma_bijection() {
    }

    fn length() -> (r: usize) {
        1
    }

    fn linearize(&self) -> (r: usize) {
        0
    }

    fn from_linear_unchecked(linear: usize) -> (r: ()) {
        ()
    }
}

/// `Less`, `Equal`, `Greater`, in this order.
impl Linearize for Ordering {
    open spec fn cardinality() -> nat {
        3
    }

    open spec fn fits_usize() -> bool {
        true
    }

    open spec fn reachable(&self) -> bool {
        true
    }

    open spec fn index_of(&self) -> nat {
        match *self {
            Ordering::Less => 0,
            Ordering::Equal => 1,
            Ordering::Greater => 2,
        }
    }

    open spec fn value_at(i: nat) -> Ordering {
        if i == 0 {
            Ordering::Less
        } else if i == 1 {
            Ordering::Equal
        } else {
            Ordering::Greater
        }
    }

    proof fn lemma_bijection() {
    }

    fn length() -> (r: usize) {
        3
    }

    fn linearize(&self) -> (r: usize) {
        match *self {
            Ordering::Less => 0,
            Ordering::Equal => 1,
            Ordering::Greater => 2,
        }
    }

    fn from_linear_unchecked(linear: usize) -> (r: Ordering) {
        if linear == 0 {
            Ordering::Less
        } else if linear == 1 {
            Ordering::Equal
        } else {
            Ordering::Greater
        }
    }
}

/// The uninhabited type: no value of it is reachable, and no position is valid.
impl Linearize for Infallible {
    open spec fn cardinality() -> nat {
        0
    }

    open spec fn fits_usize() -> bool {
        true
    }

    open spec fn reachable(&self) -> bool {
        false
    }

    open spec fn index_of(&self) -> nat {
        0
    }

    open spec fn value_at(i: nat) -> Infallible {
        arbitrary()
    }

    proof fn lemma_bijection() {
    }

    fn length() -> (r: usize) {
        0
    }

    fn linearize(&self) -> (r: usize) {
        0
    }

    fn from_linear_unchecked(linear: usize) -> (r: Infallible) {
        loop
            invariant
                linear < Self::cardinality(),
            decreases 0int,
        {
        }
    }
}

/// Each value is its own position.
impl Linearize for u8 {
    open spec fn cardinality() -> nat {
        256
    }

    open spec fn fits_usize() -> bool {
        Self::cardinality() <= usize::MAX
    }

    open spec fn reachable(&self) -> bool {
        true
    }

    open spec fn index_of(&self) -> nat {
        *self as nat
    }

    open spec fn value_at(i: nat) -> u8 {
        i as u8
    }

    proof fn lemma_bijection() {
    }

    fn length() -> (r: usize) {
        u8::MAX as usize + 1
    }

    fn linearize(&self) -> (r: usize) {
        *self as usize
    }

    fn from_linear_unchecked(linear: usize) -> (r: u8) {
        linear as u8
    }
}

/// Each value is its own position.
impl Linearize for u16 {
    open spec fn cardinality() -> nat {
        65536
    }

    open spec fn fits_usize() -> bool {
        Self::cardinality() <= usize::MAX
    }

    open spec fn reachable(&self) -> bool {
        true
    }

    open spec fn index_of(&self) -> nat {
        *self as nat
    }

    open spec fn value_at(i: nat) -> u16 {
        i as u16
    }

    proof fn lemma_bijection() {
    }

    fn length() -> (r: usize) {
        u16::MAX as usize + 1
    }

    fn linearize(&self) -> (r: usize) {
        *self as usize
    }

    fn from_linear_unchecked(linear: usize) -> (r: u16) {
        linear as u16
    }
}

/// Each value is its own position.
impl Linearize for u32 {
    open spec fn cardinality() -> nat {
        4294967296
    }

    open spec fn fits_usize() -> bool {
        Self::cardinality() <= usize::MAX
    }

    open spec fn reachable(&self) -> bool {
        true
    }

    open spec fn index_of(&self) -> nat {
        *self as nat
    }

    open spec fn value_at(i: nat) -> u32 {
        i as u32
    }

    proof fn lemma_bijection() {
    }

    fn length() -> (r: usize) {
        u32::MAX as usize + 1
    }

    fn linearize(&self) -> (r: usize) {
        *self as usize
    }

    fn from_linear_unchecked(linear: usize) -> (r: u32) {
        linear as u32
    }
}

/// Positions run from `i8::MIN` (position 0) up to `i8::MAX`.
impl Linearize for i8 {
    open spec fn cardinality() -> nat {
        256
    }

    open spec fn fits_usize() -> bool {
        Self::cardinality() <= usize::MAX
    }

    open spec fn reachable(&self) -> bool {
        true
    }

    open spec fn index_of(&self) -> nat {
        (*self - i8::MIN) as nat
    }

    open spec fn value_at(i: nat) -> i8 {
        (i + i8::MIN) as i8
    }

    proof fn lemma_bijection() {
    }

    fn length() -> (r: usize) {
        u8::MAX as usize + 1
    }

    fn linearize(&self) -> (r: usize) {
        (*self as i16 - i8::MIN as i16) as usize
    }

    fn from_linear_unchecked(linear: usize) -> (r: i8) {
        (linear as i16 + i8::MIN as i16) as i8
    }
}

/// Positions run from `i16::MIN` (position 0) up to `i16::MAX`.
impl Linearize for i16 {
    open spec fn cardinality() -> nat {
        65536
    }

    open spec fn fits_usize() -> bool {
        Self::cardinality() <= usize::MAX
    }

    open spec fn reachable(&self) -> bool {
        true
    }

    open spec fn index_of(&self) -> nat {
        (*self - i16::MIN) as nat
    }

    open spec fn value_at(i: nat) -> i16 {
        (i + i16::MIN) as i16
    }

    proof fn lemma_bijection() {
    }

    fn length() -> (r: usize) {
        u16::MAX as usize + 1
    }

    fn linearize(&self) -> (r: usize) {
        (*self as i32 - i16::MIN as i32) as usize
    }

    fn from_linear_unchecked(linear: usize) -> (r: i16) {
        (linear as i32 + i16::MIN as i32) as i16
    }
}

/// Positions run from `i32::MIN` (position 0) up to `i32::MAX`.
impl Linearize for i32 {
    open spec fn cardinality() -> nat {
        4294967296
    }

    open spec fn fits_usize() -> bool {
        Self::cardinality() <= usize::MAX
    }

    open spec fn reachable(&self) -> bool {
        true
    }

    open spec fn index_of(&self) -> nat {
        (*self - i32::MIN) as nat
    }

    open spec fn value_at(i: nat) -> i32 {
        (i + i32::MIN) as i32
    }

    proof fn lemma_bijection() {
    }

    fn length() -> (r: usize) {
        u32::MAX as usize + 1
    }

    fn linearize(&self) -> (r: usize) {
        (*self as i64 - i32::MIN as i64) as usize
    }

    fn from_linear_unchecked(linear: usize) -> (r: i32) {
        (linear as i64 + i32::MIN as i64) as i32
    }
}

/// A marker type has exactly one value.
impl<X> Linearize for core::marker::PhantomData<X> {
    open spec fn cardinality() -> nat {
        1
    }

    open spec fn fits_usize() -> bool {
        true
    }

    open spec fn reachable(&self) -> bool {
        true
    }

    open spec fn index_of(&self) -> nat {
        0
    }

    open spec fn value_at(i: nat) -> core::marker::PhantomData<X> {
        core::marker::PhantomData
    }

    proof fn lemma_bijection() {
    }

    fn length() -> (r: usize) {
        1
    }

    fn linearize(&self) -> (r: usize) {
        0
    }

    fn from_linear_unchecked(linear: usize) -> (r: core::marker::PhantomData<X>) {
        core::marker::PhantomData
    }
}

} // verus!
