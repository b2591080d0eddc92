//! Enumerable types and total maps keyed by them.
//!
//! A type implementing [`Linearize`] is in bijection with the interval
//! `[0, cardinality())` of the natural numbers. Records (tuples) compose by mixed-radix
//! encoding with the first field most significant; unions (`Option`, `Result`) compose
//! by giving each variant a contiguous range of positions in declaration order.
//!
//! [`StaticMap`] stores exactly one value per key, at the key's position, with no key
//! storage and no missing keys; [`StaticCopyMap`] is the same map for `Copy` values.
mod builder;
mod compose;
mod copy_map;
mod iters;
mod linearize;
mod linearized;
mod map;
mod primitives;
pub mod skip_none;
pub mod use_default;
mod variants;

pub use crate::builder::Builder;
pub use crate::compose::{
    lemma_pair_decode, lemma_pair_encode, lemma_pair_enumeration, lemma_uninhabited_pair,
    lemma_uninhabited_triple, pair_index,
};
pub use crate::copy_map::StaticCopyMap;
pub use crate::iters::{entries_between, holds_entry, IntoIter, Iter};
pub use crate::linearize::{lemma_enumeration, lemma_round_trip, Linearize, LinearizeExt, Sealed};
pub use crate::linearized::Linearized;
pub use crate::map::{
    last_entry, lemma_entries_round_trip, saturating_product, LengthError, MissingKey, StaticMap,
};
pub use crate::variants::{values_between, Variants};
