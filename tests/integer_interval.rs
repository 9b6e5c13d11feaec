use utils::integer_interval::{Interval, IntervalUnion};

fn union_of(items: &[Interval]) -> IntervalUnion {
    IntervalUnion::from_slice(items)
}

fn pairs(u: &IntervalUnion) -> Vec<(i64, i64)> {
    u.iter()
        .into_iter()
        .map(|i| match i {
            Interval::Interval(a, b) => (a, b),
            Interval::Empty => panic!("a stored interval is empty"),
        })
        .collect()
}

#[test]
fn test_sub() {
    let five = [
        Interval::new(0, 5),
        Interval::new(10, 15),
        Interval::new(20, 25),
        Interval::new(30, 35),
        Interval::new(40, 45),
    ];
    let u1 = union_of(&five) - union_of(&[Interval::new(12, 32)]);
    assert_eq!(pairs(&u1), vec![(0, 5), (10, 11), (33, 35), (40, 45)]);

    let mut u2 = union_of(&five);
    u2 -= Interval::new(12, 32);
    assert_eq!(pairs(&u2), vec![(0, 5), (10, 11), (33, 35), (40, 45)]);

    let mut u3 = union_of(&five);
    u3 -= Interval::new(1, 2);
    assert_eq!(
        pairs(&u3),
        vec![(0, 0), (3, 5), (10, 15), (20, 25), (30, 35), (40, 45)]
    );

    let mut u4 = union_of(&[Interval::new(0, 5), Interval::new(10, 15)]);
    u4 -= Interval::new(1, 2);
    assert_eq!(pairs(&u4), vec![(0, 0), (3, 5), (10, 15)]);
}

#[test]
fn test_interval_creation() {
    let i1 = Interval::new(1, 5);
    let i2 = Interval::new(8, 8);
    let u1 = i2 | i1;
    let u2 = union_of(&[Interval::new(-10, -5)]);
    let u3 = union_of(&[Interval::new(-10, -15)]);

    let u4 = i1 | i2;
    let u5 = &u4 | &u2;
    assert_eq!(pairs(&u1), vec![(1, 5), (8, 8)]);
    assert_eq!(u2, Interval::new(-10, -5));
    assert!(u3.is_empty());
    assert_eq!(pairs(&u5), vec![(-10, -5), (1, 5), (8, 8)]);
}

#[test]
fn new_is_present_only_when_ordered() {
    assert_eq!(Interval::new(3, 7).as_option(), Some(Interval::Interval(3, 7)));
    assert_eq!(Interval::new(4, 4).as_option(), Some(Interval::Interval(4, 4)));
    assert_eq!(Interval::new(8, 7).as_option(), None);
    assert_eq!(Interval::new(i64::MAX, i64::MIN), Interval::Empty);
}

#[test]
fn interval_size_and_from_size() {
    assert_eq!(Interval::new(-2, 3).size(), 6);
    assert_eq!(Interval::Empty.size(), 0);
    assert_eq!(Interval::new_from_size(10, 4), Interval::Interval(10, 13));
    assert_eq!(Interval::new_from_size(i64::MAX, 1), Interval::Interval(i64::MAX, i64::MAX));
}

#[test]
fn gap_of_two_stays_apart() {
    let u = Interval::new(1, 5).union(Interval::new(8, 8));
    assert_eq!(pairs(&u), vec![(1, 5), (8, 8)]);
}

#[test]
fn gap_of_none_merges() {
    let u = Interval::new(1, 5).union(Interval::new(6, 8));
    assert_eq!(pairs(&u), vec![(1, 8)]);
    assert_eq!(u, Interval::new(1, 8));
}

#[test]
fn repeated_in_place_subtraction_keeps_the_rest() {
    let mut u = union_of(&[Interval::new(0, 5), Interval::new(10, 15)]);
    u.difference_assign(Interval::new(1, 2));
    u.difference_assign(Interval::new(1, 2));
    assert_eq!(pairs(&u), vec![(0, 0), (3, 5), (10, 15)]);
}

#[test]
fn intersection_with_empty_operand_is_empty() {
    let a = union_of(&[Interval::new(-10, -5)]);
    let b = union_of(&[Interval::new(-10, -15)]);
    let r = a.intersection(&b);
    assert!(r.is_empty());
    assert_eq!(r.len(), 0);
}

#[test]
fn interval_intersection_of_disjoint_ranges_is_empty() {
    assert_eq!(Interval::new(1, 3).intersection(Interval::new(5, 9)), Interval::Empty);
    assert_eq!(Interval::new(1, 6).intersection(Interval::new(5, 9)), Interval::Interval(5, 6));
    assert_eq!(Interval::Empty.intersection(Interval::new(5, 9)), Interval::Empty);
}

#[test]
fn interval_difference_pieces() {
    assert_eq!(pairs(&Interval::new(0, 10).difference(Interval::new(3, 4))), vec![(0, 2), (5, 10)]);
    assert_eq!(pairs(&Interval::new(0, 10).difference(Interval::new(-3, 4))), vec![(5, 10)]);
    assert_eq!(pairs(&Interval::new(0, 10).difference(Interval::new(-3, 40))), vec![]);
    assert_eq!(pairs(&Interval::new(0, 10).difference(Interval::Empty)), vec![(0, 10)]);
    assert_eq!(
        pairs(&Interval::new(i64::MIN, i64::MAX).difference(Interval::new(i64::MIN, i64::MIN))),
        vec![(i64::MIN + 1, i64::MAX)]
    );
    assert_eq!(
        pairs(&Interval::new(i64::MIN, i64::MAX).difference(Interval::new(i64::MAX, i64::MAX))),
        vec![(i64::MIN, i64::MAX - 1)]
    );
}

#[test]
fn constructors_sort_and_merge() {
    let v = vec![
        Interval::new(20, 25),
        Interval::Empty,
        Interval::new(0, 3),
        Interval::new(4, 9),
        Interval::new(22, 30),
        Interval::Interval(50, 40),
    ];
    let a = IntervalUnion::from_vec(v.clone());
    let b = IntervalUnion::from_slice(&v);
    assert_eq!(pairs(&a), vec![(0, 9), (20, 30)]);
    assert_eq!(a, b);
    let c = IntervalUnion::from_array([[20, 25], [0, 3], [4, 9], [22, 30]]);
    assert_eq!(a, c);
    assert_eq!(a.size(), 21);
    assert_eq!(a.len(), 2);
}

#[test]
fn extreme_bounds_merge_without_overflow() {
    let a = union_of(&[Interval::new(i64::MIN, -1), Interval::new(1, i64::MAX)]);
    assert_eq!(a.len(), 2);
    let mut b = a.clone();
    b.union_assign(Interval::new(0, 0));
    assert_eq!(pairs(&b), vec![(i64::MIN, i64::MAX)]);
    let c = a.union(&union_of(&[Interval::new(0, 0)]));
    assert_eq!(b, c);
}

#[test]
fn union_assign_absorbs_touching_intervals() {
    let mut u = union_of(&[
        Interval::new(0, 1),
        Interval::new(4, 5),
        Interval::new(8, 9),
        Interval::new(20, 21),
    ]);
    u.union_assign(Interval::new(3, 10));
    assert_eq!(pairs(&u), vec![(0, 1), (3, 10), (20, 21)]);
    u.union_assign(Interval::new(2, 2));
    assert_eq!(pairs(&u), vec![(0, 10), (20, 21)]);
    u.union_assign(Interval::new(30, 31));
    u.union_assign(Interval::new(-9, -8));
    assert_eq!(pairs(&u), vec![(-9, -8), (0, 10), (20, 21), (30, 31)]);
}

#[test]
fn intersect_assign_narrows_and_cuts() {
    let mut u = union_of(&[
        Interval::new(0, 5),
        Interval::new(10, 15),
        Interval::new(20, 25),
    ]);
    u.intersect_assign(Interval::new(3, 12));
    assert_eq!(pairs(&u), vec![(3, 5), (10, 12)]);
    let mut w = union_of(&[Interval::new(0, 5)]);
    w.intersect_assign(Interval::new(7, 9));
    assert!(w.is_empty());
}

#[test]
fn whole_union_operators() {
    let a = union_of(&[Interval::new(0, 5), Interval::new(10, 15), Interval::new(20, 25)]);
    let b = union_of(&[Interval::new(4, 11), Interval::new(14, 21)]);
    assert_eq!(pairs(&a.union(&b)), vec![(0, 25)]);
    assert_eq!(pairs(&a.intersection(&b)), vec![(4, 5), (10, 11), (14, 15), (20, 21)]);
    assert_eq!(pairs(&a.difference(&b)), vec![(0, 3), (12, 13), (22, 25)]);
    assert_eq!(pairs(&b.difference(&a)), vec![(6, 9), (16, 19)]);

    let mut x = a.clone();
    x.union_assign_union(b.clone());
    assert_eq!(x, a.union(&b));
    let mut y = a.clone();
    y.intersect_assign_union(b.clone());
    assert_eq!(y, a.intersection(&b));
    let mut z = a.clone();
    z.difference_assign_union(b.clone());
    assert_eq!(z, a.difference(&b));

    let single = union_of(&[Interval::new(3, 12)]);
    let mut s = a.clone();
    s.difference_assign_union(single.clone());
    assert_eq!(s, a.difference_interval(Interval::new(3, 12)));
    assert_eq!(Interval::new(3, 12).union_with(&a), a.union_interval(Interval::new(3, 12)));
    assert_eq!(
        Interval::new(3, 12).intersection_with(&a),
        a.intersection_interval(Interval::new(3, 12))
    );
    assert_eq!(pairs(&Interval::new(3, 12).difference_with(&a)), vec![(6, 9)]);
}

#[test]
fn laws_hold_on_samples() {
    let a = union_of(&[Interval::new(0, 5), Interval::new(10, 15), Interval::new(20, 25)]);
    let b = union_of(&[Interval::new(4, 11), Interval::new(14, 21), Interval::new(40, 41)]);
    assert_eq!(a.union(&b), b.union(&a));
    assert_eq!(a.intersection(&b), b.intersection(&a));
    assert_eq!(a.union(&a), a);
    assert_eq!(a.intersection(&a), a);
    assert_eq!(
        a.union(&b).size() + a.intersection(&b).size(),
        a.size() + b.size()
    );
    let d = a.difference(&b);
    assert!(d.intersection(&b).is_empty());
    assert_eq!(d.union(&a.intersection(&b)), a);
}

#[test]
fn clear_and_default() {
    let mut a = union_of(&[Interval::new(0, 5)]);
    a.clear();
    assert!(a.is_empty());
    assert_eq!(a, IntervalUnion::default());
    assert_eq!(IntervalUnion::new(), IntervalUnion::with_capacity(4));
    assert_eq!(Interval::from(Some(Interval::new(1, 2))), Interval::Interval(1, 2));
    assert_eq!(Interval::from(None::<Interval>), Interval::Empty);
    assert_eq!(Interval::from([1, 2]), Interval::Interval(1, 2));
    assert_eq!(Interval::from((1, 2)), Interval::Interval(1, 2));
}

#[test]
fn operators_match_named_methods() {
    let a = union_of(&[Interval::new(0, 5), Interval::new(10, 15), Interval::new(20, 25)]);
    let b = union_of(&[Interval::new(4, 11), Interval::new(14, 21)]);
    let i = Interval::new(3, 12);
    assert_eq!(&a | &b, a.union(&b));
    assert_eq!(&a & &b, a.intersection(&b));
    assert_eq!(&a - &b, a.difference(&b));
    assert_eq!(a.clone() | b.clone(), a.union(&b));
    assert_eq!(a.clone() & b.clone(), a.intersection(&b));
    assert_eq!(a.clone() - b.clone(), a.difference(&b));
    assert_eq!(&a | i, a.union_interval(i));
    assert_eq!(&a & i, a.intersection_interval(i));
    assert_eq!(&a - i, a.difference_interval(i));
    assert_eq!(a.clone() | i, a.union_interval(i));
    assert_eq!(a.clone() & i, a.intersection_interval(i));
    assert_eq!(a.clone() - i, a.difference_interval(i));
    assert_eq!(Interval::new(1, 5) & Interval::new(3, 9), Interval::Interval(3, 5));
    assert_eq!(pairs(&(Interval::new(1, 9) - Interval::new(3, 5))), vec![(1, 2), (6, 9)]);
    let mut c = a.clone();
    c |= b.clone();
    assert_eq!(c, a.union(&b));
    let mut c = a.clone();
    c &= b.clone();
    assert_eq!(c, a.intersection(&b));
    let mut c = a.clone();
    c -= b.clone();
    assert_eq!(c, a.difference(&b));
    let mut c = a.clone();
    c |= i;
    assert_eq!(c, a.union_interval(i));
    let mut c = a.clone();
    c &= i;
    assert_eq!(c, a.intersection_interval(i));
    let mut j = Interval::new(1, 5);
    j &= Interval::new(4, 8);
    assert_eq!(j, Interval::Interval(4, 5));
}

#[test]
fn extend_adds_and_compacts() {
    let mut a = union_of(&[Interval::new(0, 5), Interval::new(20, 25)]);
    a.extend(vec![Interval::new(7, 9), Interval::Empty, Interval::new(6, 6), Interval::new(26, 30)]);
    assert_eq!(pairs(&a), vec![(0, 9), (20, 30)]);
}

#[test]
fn operators_in_every_pairing() {
    let a = union_of(&[Interval::new(0, 5), Interval::new(10, 15)]);
    let one = union_of(&[Interval::new(4, 11)]);
    let i = Interval::new(4, 11);
    assert_eq!(pairs(&(i | &a)), vec![(0, 15)]);
    assert_eq!(pairs(&(i | a.clone())), vec![(0, 15)]);
    assert_eq!(pairs(&(i & &a)), vec![(4, 5), (10, 11)]);
    assert_eq!(pairs(&(i & a.clone())), vec![(4, 5), (10, 11)]);
    assert_eq!(pairs(&(i - &a)), vec![(6, 9)]);
    assert_eq!(pairs(&(i - a.clone())), vec![(6, 9)]);
    assert_eq!(pairs(&(a.clone() | &one)), vec![(0, 15)]);
    assert_eq!(pairs(&(&a | one.clone())), vec![(0, 15)]);
    assert_eq!(pairs(&(a.clone() & &one)), vec![(4, 5), (10, 11)]);
    assert_eq!(pairs(&(&a - one.clone())), vec![(0, 3), (12, 15)]);
    assert_eq!(pairs(&(one.clone() | a.clone())), vec![(0, 15)]);
    assert_eq!(pairs(&(IntervalUnion::new() | a.clone())), vec![(0, 5), (10, 15)]);
    assert_eq!(pairs(&(a.clone() | IntervalUnion::new())), vec![(0, 5), (10, 15)]);
}

#[test]
fn conversions_normalise_reversed_bounds() {
    assert_eq!(Interval::from([5, 1]), Interval::Empty);
    assert_eq!(Interval::from((5, 1)), Interval::Empty);
    assert_eq!(Interval::from((1, 5)), Interval::Interval(1, 5));
    let none: [i64; 0] = [];
    assert_eq!(Interval::from(none), Interval::Empty);
    let i = Interval::new(2, 3);
    assert_eq!(Interval::from(Some(&i)), i);
    assert_eq!(Interval::from(None::<&Interval>), Interval::Empty);
}
