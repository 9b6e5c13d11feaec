use utils::bit_array::LargeBitFlags;

#[test]
fn large_flags_set_get_unset() {
    let mut f = LargeBitFlags::default();
    f.set(3);
    f.set(200);
    f.set(300);
    assert!(f.get(3));
    assert!(f.get(200));
    assert!(!f.get(4));
    assert!(!f.get(199));
    assert_eq!(f.0, [1u128 << 72, 1u128 << 3]);
    f.unset(3);
    assert!(!f.get(3));
    assert!(f.get(200));
    f.unset(200);
    assert_eq!(f, LargeBitFlags::default());
}

#[test]
fn large_flags_merge_and_not() {
    let mut a = LargeBitFlags::default();
    a.set(1);
    let mut b = LargeBitFlags::default();
    b.set(130);
    let m = a.merge(&b);
    assert!(m.get(1) && m.get(130));
    let mut c = a;
    c |= b;
    assert_eq!(c, m);
    let n = !m;
    assert!(!n.get(1) && !n.get(130) && n.get(2));
}

#[test]
fn large_flags_binary_string() {
    let mut f = LargeBitFlags::default();
    f.set(0);
    f.set(255);
    let s = f.as_binary_string();
    assert_eq!(s.len(), 256);
    assert_eq!(&s[0..1], "1");
    assert_eq!(&s[255..256], "1");
    assert_eq!(s.chars().filter(|c| *c == '1').count(), 2);
}

use utils::bit_array::{BitArray, BitArrayError};

#[test]
fn bit_array_checks_indexes() {
    let mut a = BitArray::<2>::new(12).unwrap();
    assert_eq!(a.len(), 12);
    assert_eq!(a.set_bit(15), Ok(()));
    assert_eq!(a.get_bit(15), Ok(true));
    assert_eq!(a.get_bit(14), Ok(false));
    assert_eq!(
        a.set_bit(16),
        Err(BitArrayError::InvalidIndex { index: 16, max_index: 15 })
    );
    assert_eq!(a.unset_bit(15), Ok(()));
    assert_eq!(a.get_bit(15), Ok(false));
    assert_eq!(
        BitArray::<2>::new(16),
        Err(BitArrayError::InvalidIndex { index: 16, max_index: 15 })
    );
}

#[test]
fn bit_array_repeating() {
    let mut a = BitArray::<2>::new(12).unwrap();
    assert_eq!(a.set_bit_repeating(1, 3), Ok(()));
    let set: Vec<usize> = (0..16).filter(|&i| a.get_bit(i) == Ok(true)).collect();
    assert_eq!(set, vec![1, 4, 7, 10]);
    a.unset_bit_repeating(4, 6);
    let set: Vec<usize> = (0..16).filter(|&i| a.get_bit(i) == Ok(true)).collect();
    assert_eq!(set, vec![1, 7]);
    let d = BitArray::<125>::default_array();
    assert_eq!(d.len(), 998);
}
