//! The entry format of a map of optional values that leaves out absent values: only the
//! keys whose value is present are written, and a key that is not read is absent.
use vstd::prelude::*;

use crate::linearize::Linearize;
use crate::map::{last_entry, StaticMap};

verus! {

/// The entries of `values` whose value is present, in ascending position order.
pub open spec fn present_entries<L: Linearize, T>(values: Seq<Option<T>>) -> Seq<(L, T)>
    decreases values.len(),
{
    if values.len() == 0 {
        Seq::empty()
    } else {
        let rest = present_entries::<L, T>(values.drop_last());
        match values.last() {
            Some(v) => rest.push((L::value_at((values.len() - 1) as nat), v)),
            None => rest,
        }
    }
}

/// The entries of `map` whose value is present, in ascending position order.
pub fn serialize<L: Linearize, T>(map: &StaticMap<L, Option<T>>) -> (r: Vec<(L, &T)>)
    ensures
        r@.len() == present_entries::<L, T>(map@).len(),
        forall|k: int|
            0 <= k < r@.len() ==> (#[trigger] r@[k]).0 == present_entries::<L, T>(map@)[k].0
                && *r@[k].1 == present_entries::<L, T>(map@)[k].1,
{
    let n = map.len();
    let mut out: Vec<(L, &T)> = Vec::new();
    let mut i: usize = 0;
    while i < n
        invariant
            L::fits_usize(),
            n == L::cardinality(),
            n == map@.len(),
            i <= n,
            out@.len() == present_entries::<L, T>(map@.take(i as int)).len(),
            forall|k: int|
                0 <= k < out@.len() ==> (#[trigger] out@[k]).0 == present_entries::<L, T>(
                    map@.take(i as int),
                )[k].0 && *out@[k].1 == present_entries::<L, T>(map@.take(i as int))[k].1,
        decreases n - i,
    {
        proof {
            assert(map@.take(i + 1).drop_last() =~= map@.take(i as int));
        }
        match map.get_at(i) {
            Some(v) => {
                let k = L::from_linear_unchecked(i);
                out.push((k, v));
            },
            None => {},
        }
        i += 1;
    }
    assert(map@.take(n as int) =~= map@);
    out
}

/// The map of optional values that the pairs describe: the last pair with a key gives
/// its value, and a key that no pair has is absent.
pub fn deserialize<L: Linearize, T>(pairs: Vec<(L, T)>) -> (r: StaticMap<L, Option<T>>)
    requires
        L::fits_usize(),
        forall|k: int| 0 <= k < pairs@.len() ==> (#[trigger] pairs@[k]).0.reachable(),
    ensures
        r@.len() == L::cardinality(),
        forall|i: int| 0 <= i < L::cardinality() ==> #[trigger] r@[i] == last_entry(pairs@, i as nat),
{
    StaticMap::collect_pairs(pairs)
}

} // verus!
