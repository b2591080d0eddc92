use linearize::Linearize;
use std::cmp::Ordering;
use std::convert::Infallible;
use std::fmt::Debug;

/// Checks that `values` are exactly the values of `L`, listed at their positions.
fn check_enumerated<L: Linearize + PartialEq + Debug>(values: Vec<L>) {
    assert_eq!(L::length(), values.len());
    for (idx, v) in values.into_iter().enumerate() {
        assert_eq!(v.linearize(), idx);
        assert_eq!(L::from_linear_unchecked(idx), v);
    }
}

#[test]
fn unit_struct() {
    check_enumerated::<()>(vec![()]);
}

#[test]
fn custom_crate() {
    // A, B(bool), C { a: bool }
    type A = Option<Result<bool, bool>>;
    check_enumerated::<A>(vec![
        None,
        Some(Ok(false)),
        Some(Ok(true)),
        Some(Err(false)),
        Some(Err(true)),
    ]);
}

#[test]
fn tuple_struct_1() {
    check_enumerated::<(bool,)>(vec![(false,), (true,)]);
}

#[test]
fn tuple_struct_2() {
    check_enumerated::<(bool, Ordering)>(vec![
        (false, Ordering::Less),
        (false, Ordering::Equal),
        (false, Ordering::Greater),
        (true, Ordering::Less),
        (true, Ordering::Equal),
        (true, Ordering::Greater),
    ]);
}

#[test]
fn empty_struct() {
    check_enumerated::<()>(vec![()]);
}

#[test]
fn struct_1() {
    check_enumerated::<(bool,)>(vec![(false,), (true,)]);
}

#[test]
fn struct_2() {
    check_enumerated::<(bool, Ordering)>(vec![
        (false, Ordering::Less),
        (false, Ordering::Equal),
        (false, Ordering::Greater),
        (true, Ordering::Less),
        (true, Ordering::Equal),
        (true, Ordering::Greater),
    ]);
}

#[test]
fn struct_infallible_1() {
    check_enumerated::<(bool, Ordering, Infallible)>(vec![]);
}

#[test]
fn struct_infallible_2() {
    check_enumerated::<(bool, Infallible, Ordering)>(vec![]);
}

#[test]
fn struct_infallible_3() {
    check_enumerated::<(Infallible, bool, Ordering)>(vec![]);
}

#[test]
fn enum_empty() {
    check_enumerated::<Infallible>(vec![]);
}

#[test]
fn enum_1() {
    // A, B(bool), C(bool, Ordering), D { a: bool, b: Ordering }
    type E = Option<Result<bool, Result<(bool, Ordering), (bool, Ordering)>>>;
    check_enumerated::<E>(vec![
        None,
        Some(Ok(false)),
        Some(Ok(true)),
        Some(Err(Ok((false, Ordering::Less)))),
        Some(Err(Ok((false, Ordering::Equal)))),
        Some(Err(Ok((false, Ordering::Greater)))),
        Some(Err(Ok((true, Ordering::Less)))),
        Some(Err(Ok((true, Ordering::Equal)))),
        Some(Err(Ok((true, Ordering::Greater)))),
        Some(Err(Err((false, Ordering::Less)))),
        Some(Err(Err((false, Ordering::Equal)))),
        Some(Err(Err((false, Ordering::Greater)))),
        Some(Err(Err((true, Ordering::Less)))),
        Some(Err(Err((true, Ordering::Equal)))),
        Some(Err(Err((true, Ordering::Greater)))),
    ]);
}

#[test]
fn enum_single() {
    check_enumerated::<()>(vec![()]);
}

#[test]
fn enum_two() {
    check_enumerated::<Result<(), ()>>(vec![Ok(()), Err(())]);
}

#[test]
fn enum_many() {
    // One hundred unit variants: ten times ten.
    type Ten = (bool, Option<Option<Option<Option<()>>>>);
    type E = (Ten, Ten);
    let values: Vec<E> = (0..100usize)
        .map(|i| E::from_linear_unchecked(i))
        .collect();
    assert_eq!(E::length(), 100);
    check_enumerated::<E>(values);
    assert_eq!(Ten::length(), 10);
}

#[test]
fn enum_infallible_1() {
    // A, B, C(Infallible)
    check_enumerated::<Result<Result<(), ()>, Infallible>>(vec![Ok(Ok(())), Ok(Err(()))]);
}

#[test]
fn enum_infallible_2() {
    // A, C(Infallible), B
    check_enumerated::<Result<(), Result<Infallible, ()>>>(vec![Ok(()), Err(Err(()))]);
}

#[test]
fn enum_infallible_3() {
    // C(Infallible), A, B
    check_enumerated::<Result<Infallible, Result<(), ()>>>(vec![Err(Ok(())), Err(Err(()))]);
}

#[test]
fn record_cardinalities_compose() {
    // Field cardinalities [2, 3]: six values, position a * 3 + b.
    assert_eq!(<(bool, Ordering)>::length(), 6);
    for a in [false, true] {
        for (ib, b) in [Ordering::Less, Ordering::Equal, Ordering::Greater].into_iter().enumerate() {
            assert_eq!((a, b).linearize(), (a as usize) * 3 + ib);
        }
    }
}

#[test]
fn union_ranges_compose() {
    // Variant cardinalities [1, 2, 2]: five values, variants starting at 0, 1 and 3.
    type U = Option<Result<bool, bool>>;
    assert_eq!(U::length(), 5);
    assert_eq!(U::None.linearize(), 0);
    assert_eq!(U::Some(Ok(false)).linearize(), 1);
    assert_eq!(U::Some(Err(false)).linearize(), 3);
    assert_eq!(U::from_linear_unchecked(4), Some(Err(true)));
}

#[test]
fn uninhabited_field_prunes_variant() {
    type R = Option<(bool, Infallible)>;
    assert_eq!(R::length(), 1);
    assert_eq!(R::from_linear_unchecked(0), None);
    assert_eq!(<(Ordering, Infallible, bool)>::length(), 0);
}

#[test]
fn triple_layout() {
    type T3 = (bool, Ordering, bool);
    assert_eq!(T3::length(), 12);
    assert_eq!((true, Ordering::Equal, false).linearize(), 6 + 2);
    assert_eq!(T3::from_linear_unchecked(11), (true, Ordering::Greater, true));
}
