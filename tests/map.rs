use linearize::{LinearizeExt, StaticCopyMap, StaticMap};
use std::cell::Cell;
use std::cmp::Ordering;
use std::hash::{BuildHasher, RandomState};
use std::ops::Deref;

/// The map `false => f, true => t`.
fn bool_map<T>(f: T, t: T) -> StaticMap<bool, T> {
    match StaticMap::try_from_vec(vec![f, t]) {
        Ok(m) => m,
        Err(_) => panic!("two values for two keys"),
    }
}

#[test]
fn map_equal_size() {
    let a = bool_map(1, 2);
    let x = a.clone().map_values(|v| v * 2);
    assert_eq!(x[false], 2);
    assert_eq!(x[true], 4);
    let x = a.map(|b, v| b as i32 + v);
    assert_eq!(x[false], 1);
    assert_eq!(x[true], 3);
}

#[test]
fn map_smaller_size() {
    let a = bool_map(1u32, 2);
    let x = a.map_values(|v| v as u8 * 2);
    assert_eq!(x[false], 2);
    assert_eq!(x[true], 4);
}

#[test]
fn map_larger_size() {
    let a = bool_map(1u32, 2);
    let x = a.map_values(|v| v as u64 * 2);
    assert_eq!(x[false], 2);
    assert_eq!(x[true], 4);
}

#[test]
fn map_padded() {
    struct X {
        _a: u16,
        _b: u8,
    }
    let a = StaticMap::from_fn(|_: bool| X { _a: 0, _b: 0 });
    let x = a.map_values(|_| [0u8; 4]);
    assert_eq!(x[false], [0; 4]);
}

#[test]
fn map_box() {
    let a = StaticMap::from_fn(|_: bool| Box::new(0));
    let x = a.map_values(|_| &0);
    assert_eq!(*x[false], 0);
}

#[test]
fn map_aligned() {
    struct Aligned(u8);
    let a = StaticMap::from_fn(|_: bool| [0u8; 128]);
    let x = a.map_values(|_| Aligned(0));
    assert_eq!(x[false].0, 0);
}

#[test]
fn map_box_box() {
    let a = StaticMap::from_fn(|_: bool| Box::new(0u8));
    let x = a.map_values(|_| Box::new(0u64));
    assert_eq!(*x[false], 0);
}

#[test]
fn map_box_vec() {
    let a = StaticMap::from_fn(|_: bool| Box::new(0u8));
    let x = a.map_values(|_| vec![0u64]);
    assert_eq!(*x[false], [0]);
}

#[test]
fn map_vec_box() {
    let a = StaticMap::from_fn(|_: bool| vec![0u8]);
    let x = a.map_values(|_| Box::new(0u64));
    assert_eq!(*x[false], 0);
}

#[test]
fn map_from_fn() {
    let map = StaticMap::from_fn(|k: bool| k as usize);
    assert_eq!(map[false], 0);
    assert_eq!(map[true], 1);
}

#[test]
fn from_fn_calls_once_per_key_in_order() {
    let calls = Cell::new(0usize);
    let seen = std::cell::RefCell::new(Vec::new());
    let map = StaticMap::from_fn(|k: Ordering| {
        calls.set(calls.get() + 1);
        seen.borrow_mut().push(k);
        k.linearized().get() * 10
    });
    assert_eq!(calls.get(), 3);
    assert_eq!(*seen.borrow(), vec![Ordering::Less, Ordering::Equal, Ordering::Greater]);
    assert_eq!(map[Ordering::Less], 0);
    assert_eq!(map[Ordering::Equal], 10);
    assert_eq!(map[Ordering::Greater], 20);
}

#[test]
fn into_copy() {
    let map = bool_map(0, 1);
    let map: StaticCopyMap<_, _> = map.into_copy();
    assert_eq!(map[false], 0);
    assert_eq!(map[true], 1);
}

#[test]
fn from_copy() {
    let map: StaticCopyMap<_, _> = StaticCopyMap::from_static_map(bool_map(0, 1));
    let map: StaticMap<_, _> = StaticMap::from_copy(map);
    assert_eq!(map[false], 0);
    assert_eq!(map[true], 1);
}

#[test]
fn as_copy() {
    let map = bool_map(0, 1);
    let map: StaticCopyMap<_, _> = map.as_copy();
    assert_eq!(map[false], 0);
    assert_eq!(map[true], 1);
}

#[test]
fn map_map_values() {
    let map: StaticMap<_, u8> = bool_map(0, 1);
    assert_eq!(map[false], 0);
    assert_eq!(map[true], 1);
    let map = map.map_values(|v| 3 * v);
    assert_eq!(map[false], 0);
    assert_eq!(map[true], 3);
}

#[test]
fn clear() {
    let mut map: StaticMap<_, u8> = bool_map(0, 1);
    assert_eq!(map[false], 0);
    assert_eq!(map[true], 1);
    map.clear();
    assert_eq!(map[false], 0);
    assert_eq!(map[true], 0);
}

#[test]
fn keys() {
    let map: StaticMap<_, u8> = bool_map(0, 1);
    let mut iter = map.keys();
    assert_eq!(iter.next(), Some(false));
    assert_eq!(iter.next(), Some(true));
    assert_eq!(iter.next(), None);
}

#[test]
fn values() {
    let map: StaticMap<_, u8> = bool_map(0, 1);
    let mut iter = map.values();
    assert_eq!(iter.next(), Some(&0));
    assert_eq!(iter.next(), Some(&1));
    assert_eq!(iter.next(), None);
}

#[test]
fn iter() {
    let map: StaticMap<_, u8> = bool_map(0, 1);
    {
        let mut iter = map.iter();
        assert_eq!(iter.next(), Some((false, &0)));
        assert_eq!(iter.next(), Some((true, &1)));
        assert_eq!(iter.next(), None);
    }
    {
        let mut iter = map.iter();
        assert_eq!(iter.next_back(), Some((true, &1)));
        assert_eq!(iter.next_back(), Some((false, &0)));
        assert_eq!(iter.next_back(), None);
    }
    {
        let iter = map.iter();
        assert_eq!(iter.size_hint(), (2, Some(2)));
    }
    {
        let iter = map.iter();
        assert_eq!(iter.count(), 2);
    }
    {
        let iter = map.iter();
        assert_eq!(iter.last(), Some((true, &1)));
    }
    {
        let mut iter = map.iter();
        assert_eq!(iter.nth(0), Some((false, &0)));
        assert_eq!(iter.nth(0), Some((true, &1)));
        assert_eq!(iter.nth(0), None);
    }
    {
        let mut iter = map.iter();
        assert_eq!(iter.nth(1), Some((true, &1)));
        assert_eq!(iter.nth(0), None);
    }
    {
        let mut iter = map.iter();
        assert_eq!(iter.nth(2), None);
    }
    {
        let mut iter = map.iter();
        assert_eq!(iter.nth_back(0), Some((true, &1)));
        assert_eq!(iter.nth_back(0), Some((false, &0)));
        assert_eq!(iter.nth_back(0), None);
    }
    {
        let mut iter = map.iter();
        assert_eq!(iter.nth_back(1), Some((false, &0)));
        assert_eq!(iter.nth_back(0), None);
    }
    {
        let mut iter = map.iter();
        assert_eq!(iter.nth_back(2), None);
    }
}

#[test]
fn into_iter() {
    let map: StaticMap<_, u8> = bool_map(0, 1);
    {
        let mut iter = map.clone().into_iter();
        assert_eq!(iter.next(), Some((false, 0)));
        assert_eq!(iter.next(), Some((true, 1)));
        assert_eq!(iter.next(), None);
    }
    {
        let mut iter = map.clone().into_iter();
        assert_eq!(iter.next_back(), Some((true, 1)));
        assert_eq!(iter.next_back(), Some((false, 0)));
        assert_eq!(iter.next_back(), None);
    }
    {
        let iter = map.clone().into_iter();
        assert_eq!(iter.size_hint(), (2, Some(2)));
    }
    {
        let iter = map.clone().into_iter();
        assert_eq!(iter.count(), 2);
    }
    {
        let iter = map.clone().into_iter();
        assert_eq!(iter.last(), Some((true, 1)));
    }
    {
        let mut iter = map.clone().into_iter();
        assert_eq!(iter.nth(0), Some((false, 0)));
        assert_eq!(iter.nth(0), Some((true, 1)));
        assert_eq!(iter.nth(0), None);
    }
    {
        let mut iter = map.clone().into_iter();
        assert_eq!(iter.nth(1), Some((true, 1)));
        assert_eq!(iter.nth(0), None);
    }
    {
        let mut iter = map.clone().into_iter();
        assert_eq!(iter.nth(2), None);
    }
    {
        let mut iter = map.clone().into_iter();
        assert_eq!(iter.nth_back(0), Some((true, 1)));
        assert_eq!(iter.nth_back(0), Some((false, 0)));
        assert_eq!(iter.nth_back(0), None);
    }
    {
        let mut iter = map.clone().into_iter();
        assert_eq!(iter.nth_back(1), Some((false, 0)));
        assert_eq!(iter.nth_back(0), None);
    }
    {
        let mut iter = map.clone().into_iter();
        assert_eq!(iter.nth_back(2), None);
    }
}

#[test]
fn map_deref() {
    let map: StaticMap<_, u8> = bool_map(0, 1);
    assert_eq!(map.deref(), &[0, 1]);
    assert_eq!(map.as_slice(), &[0, 1]);
}

#[test]
fn map_from_iter() {
    let map: StaticMap<_, u8> = StaticMap::from_pairs(vec![(false, 1)]);
    assert_eq!(map[false], 1);
    assert_eq!(map[true], 0);
}

#[test]
fn map_index() {
    let mut map: StaticMap<_, u8> = bool_map(0, 1);
    map.set(&false, 3);
    map.set(&true, 4);
    assert_eq!(map[false], 3);
    assert_eq!(map[true], 4);
    map.set(&false, 5);
    map.set(&true, 6);
    assert_eq!(map[&false], 5);
    assert_eq!(map[&true], 6);
    map.set_linearized(false.linearized(), 7);
    map.set_linearized(true.linearized(), 8);
    assert_eq!(map[false.linearized()], 7);
    assert_eq!(map[true.linearized()], 8);
}

#[test]
fn map_as_ref() {
    let map: StaticMap<_, u8> = bool_map(0, 1);
    let copy_map = map.clone().into_copy();
    assert_eq!(map.as_slice(), &[0, 1]);
    assert_eq!(map.as_copy(), copy_map);
}

#[test]
fn map_borrow() {
    let map: StaticMap<_, u8> = bool_map(0, 1);
    let copy_map = map.clone().into_copy();
    assert_eq!(&*map, &[0, 1]);
    assert_eq!(map.as_copy().as_static_map(), copy_map.as_static_map());
}

#[test]
fn map_default() {
    #[derive(Default, PartialEq, Debug)]
    struct X;
    let map = StaticMap::<bool, X>::default();
    assert_eq!(map[false], X);
    assert_eq!(map[true], X);
}

#[test]
fn map_hash() {
    let map: StaticMap<_, u8> = bool_map(0, 1);
    let random = RandomState::new();
    assert_eq!(random.hash_one(map), random.hash_one([0u8, 1]));
}

#[test]
fn map_ord() {
    let map1: StaticMap<_, u8> = bool_map(0, 1);
    let map2: StaticMap<_, u8> = bool_map(1, 1);
    let map3: StaticMap<_, u8> = bool_map(2, 1);
    assert_eq!(map1.cmp(&map2), Ordering::Less);
    assert_eq!(map1.cmp(&map1), Ordering::Equal);
    assert_eq!(map2.cmp(&map1), Ordering::Greater);
    assert_eq!(map1.clone().max(map2.clone()), map2);
    assert_eq!(map2.clone().max(map1.clone()), map2);
    assert_eq!(map1.clone().min(map2.clone()), map1);
    assert_eq!(map2.clone().min(map1.clone()), map1);
    assert_eq!(map1.clone().clamp(map1.clone(), map1.clone()), map1);
    assert_eq!(map1.clone().clamp(map1.clone(), map2.clone()), map1);
    assert_eq!(map1.clone().clamp(map1.clone(), map3.clone()), map1);
    assert_eq!(map1.clone().clamp(map2.clone(), map2.clone()), map2);
    assert_eq!(map1.clone().clamp(map2.clone(), map3.clone()), map2);
    assert_eq!(map1.clone().clamp(map3.clone(), map3.clone()), map3);
    assert_eq!(map2.clone().clamp(map1.clone(), map1.clone()), map1);
    assert_eq!(map2.clone().clamp(map1.clone(), map2.clone()), map2);
    assert_eq!(map2.clone().clamp(map1.clone(), map3.clone()), map2);
    assert_eq!(map2.clone().clamp(map2.clone(), map2.clone()), map2);
    assert_eq!(map2.clone().clamp(map2.clone(), map3.clone()), map2);
    assert_eq!(map2.clone().clamp(map3.clone(), map3.clone()), map3);
    assert_eq!(map3.clone().clamp(map1.clone(), map1.clone()), map1);
    assert_eq!(map3.clone().clamp(map1.clone(), map2.clone()), map2);
    assert_eq!(map3.clone().clamp(map1.clone(), map3.clone()), map3);
    assert_eq!(map3.clone().clamp(map2.clone(), map2.clone()), map2);
    assert_eq!(map3.clone().clamp(map2.clone(), map3.clone()), map3);
    assert_eq!(map3.clone().clamp(map3.clone(), map3.clone()), map3);
}

#[test]
fn map_partial_eq() {
    let map1: StaticMap<_, u8> = bool_map(0, 1);
    let map2: StaticMap<_, u8> = bool_map(1, 1);
    assert_eq!(map1.eq(&map1), true);
    assert_eq!(map1.eq(&map2), false);
    assert_eq!(map2.eq(&map1), false);
    assert_eq!(map2.eq(&map2), true);
}

#[test]
fn map_partial_ord() {
    let map1: StaticMap<_, u8> = bool_map(0, 1);
    let map2: StaticMap<_, u8> = bool_map(1, 1);
    assert_eq!(map1.partial_cmp(&map2), Some(Ordering::Less));
    assert_eq!(map1.partial_cmp(&map1), Some(Ordering::Equal));
    assert_eq!(map2.partial_cmp(&map1), Some(Ordering::Greater));

    let map1: StaticMap<_, f64> = bool_map(f64::NAN, 1.0);
    let map2: StaticMap<_, f64> = bool_map(f64::NAN, 1.0);
    assert_eq!(map1.partial_cmp(&map2), None);
    assert_eq!(map1.partial_cmp(&map1), None);
    assert_eq!(map2.partial_cmp(&map1), None);
}

#[test]
fn map_try_from() {
    let map = bool_map(0u8, 1);

    let slice: &[u8] = &[0, 1];
    assert_eq!(StaticMap::<bool, u8>::try_from_slice(slice).unwrap(), map);
    let vec = vec![0, 1];
    assert_eq!(StaticMap::<bool, u8>::try_from_vec(vec).unwrap(), map);

    let slice: &[u8] = &[0];
    assert!(StaticMap::<bool, u8>::try_from_slice(slice).is_err());
    let vec = vec![0];
    assert!(StaticMap::<bool, u8>::try_from_vec(vec).is_err());

    let slice: &[u8] = &[0, 1, 2];
    assert!(StaticMap::<bool, u8>::try_from_slice(slice).is_err());
    let vec = vec![0, 1, 2];
    assert!(StaticMap::<bool, u8>::try_from_vec(vec).is_err());
}

#[test]
fn try_from_reports_lengths() {
    let err = StaticMap::<Ordering, u8>::try_from_slice(&[1, 2]).unwrap_err();
    assert_eq!(err.expected, 3);
    assert_eq!(err.actual, 2);
    let back = StaticMap::<Ordering, u8>::try_from_vec(vec![7]).unwrap_err();
    assert_eq!(back, vec![7]);
}

#[test]
fn map_from_iterator() {
    let map: StaticMap<bool, u8> = StaticMap::from_pairs(vec![]);
    assert_eq!(map[false], 0);
    assert_eq!(map[true], 0);
    let map: StaticMap<bool, u8> = StaticMap::from_pairs(vec![(false, 1)]);
    assert_eq!(map[false], 1);
    assert_eq!(map[true], 0);
    let map: StaticMap<bool, u8> = StaticMap::from_pairs(vec![(true, 2)]);
    assert_eq!(map[false], 0);
    assert_eq!(map[true], 2);
    let map: StaticMap<bool, u8> = StaticMap::from_pairs(vec![(false, 1), (true, 2)]);
    assert_eq!(map[false], 1);
    assert_eq!(map[true], 2);
}

#[test]
fn later_pairs_win() {
    let map: StaticMap<bool, u8> = StaticMap::from_pairs(vec![(true, 1), (false, 4), (true, 9)]);
    assert_eq!(map[false], 4);
    assert_eq!(map[true], 9);
    let mut map = bool_map(5u8, 6);
    map.extend(vec![(true, 1), (true, 2)]);
    assert_eq!(map[false], 5);
    assert_eq!(map[true], 2);
}

#[test]
fn keys_of_a_record() {
    let map = StaticMap::from_fn(|_: (bool, bool)| 0u8);
    assert_eq!(map.len(), 4);
    assert_eq!(
        map.keys().to_vec(),
        vec![(false, false), (false, true), (true, false), (true, true)]
    );
}

#[test]
fn each_ref() {
    let map: StaticMap<_, u8> = bool_map(0, 1);
    let map: StaticCopyMap<_, &u8> = map.each_ref();
    assert_eq!(map[false], &0);
    assert_eq!(map[true], &1);
}

#[test]
fn size_hint_scales_by_key_count() {
    assert_eq!(StaticMap::<bool, u8>::scaled_size_hint((1, Some(1))), (2, Some(2)));
    assert_eq!(StaticMap::<Ordering, u8>::scaled_size_hint((4, None)), (12, None));
    assert_eq!(
        StaticMap::<u32, u8>::scaled_size_hint((usize::MAX / 2, Some(usize::MAX / 2))),
        (usize::MAX, None)
    );
    assert_eq!(StaticMap::<(), u8>::scaled_size_hint((7, Some(9))), (7, Some(9)));
}
