use betree::segmented_slice::SegmentedSlice;
use std::cmp::Ordering;

#[test]
fn test_segmented_slice() {
    let k = b"foo";
    let s = &[&[0][..], &k[..], &[1, 2, 3, 4]][..];
    let s = SegmentedSlice::from(s);

    assert_eq!(s.total_len(), 1 + 3 + 4);
    assert_eq!(
        SegmentedSlice::to_vec(&s),
        vec![0, b'f', b'o', b'o', 1, 2, 3, 4]
    );
}

#[test]
fn no_parts() {
    let parts: [&[u8]; 0] = [];
    let s = SegmentedSlice::from(&parts[..]);
    assert_eq!(s.total_len(), 0);
    assert_eq!(s.to_vec(), Vec::<u8>::new());
    assert!(s.iter().is_empty());
    assert!(s.eq(&[]));
    assert_eq!(s.partial_cmp(&[]), Some(Ordering::Equal));
    assert_eq!(s.partial_cmp(&[1]), Some(Ordering::Less));
}

#[test]
fn elements_lie_part_after_part() {
    let parts = [&[1u16, 2][..], &[][..], &[3][..], &[4, 5][..]];
    let s = SegmentedSlice::from(&parts[..]);
    let joined = [1u16, 2, 3, 4, 5];
    assert_eq!(s.to_vec(), joined);
    for i in 0..joined.len() {
        assert_eq!(s[i], joined[i]);
        assert_eq!(*s.iter()[i], joined[i]);
    }
    let other_parts = [&[1u16][..], &[2, 3, 4, 5][..]];
    assert_eq!(SegmentedSlice::from(&other_parts[..]).to_vec(), joined);
}

#[test]
fn copies_are_equal() {
    let parts = [&[1u8][..], &[2][..]];
    let s = SegmentedSlice::from(&parts[..]);
    let copy = s;
    assert_eq!(copy.to_vec(), s.to_vec());
    assert_eq!(format!("{:?}", s), "SegmentedSlice([[1], [2]])");
}

#[test]
fn equality_compares_the_front() {
    let parts = [&[1u8, 2][..], &[3][..]];
    let s = SegmentedSlice::from(&parts[..]);
    assert!(s.eq(&[1, 2, 3]));
    assert!(s.eq(&[1, 2, 3, 4]));
    assert!(!s.eq(&[1, 2, 4]));
    assert!(!s.eq(&[0, 2, 3]));
    // The second part is never looked at.
    assert!(!s.eq(&[1, 1]));
}

#[test]
fn order_of_one_part() {
    let parts = [&[2u8, 2][..]];
    let s = SegmentedSlice::from(&parts[..]);
    assert_eq!(s.partial_cmp(&[2, 2]), Some(Ordering::Equal));
    assert_eq!(s.partial_cmp(&[2, 3]), Some(Ordering::Less));
    assert_eq!(s.partial_cmp(&[2, 1]), Some(Ordering::Greater));
    assert_eq!(s.partial_cmp(&[1, 9, 9]), Some(Ordering::Greater));
    assert_eq!(s.partial_cmp(&[2, 2, 0]), Some(Ordering::Less));
}

#[test]
fn order_compares_every_part_with_the_front() {
    let parts = [&[1u8][..], &[2][..]];
    let s = SegmentedSlice::from(&parts[..]);
    assert_eq!(s.partial_cmp(&[1, 2]), Some(Ordering::Greater));
    assert_eq!(s.partial_cmp(&[2, 0]), Some(Ordering::Less));
    let parts = [&[1u8][..], &[1][..]];
    let s = SegmentedSlice::from(&parts[..]);
    assert_eq!(s.partial_cmp(&[1]), Some(Ordering::Greater));
    assert_eq!(s.partial_cmp(&[1, 9]), Some(Ordering::Equal));
}

#[test]
fn order_of_floats_can_be_open() {
    let parts = [&[f64::NAN][..]];
    let s = SegmentedSlice::from(&parts[..]);
    assert_eq!(s.partial_cmp(&[1.0]), None);
    assert!(!s.eq(&[f64::NAN]));
}

#[test]
fn copies_are_joined() {
    let (front, back) = ([&[1u8, 2][..], &[3][..]], [&[4u8][..]]);
    let whole = [&[1u8, 2][..], &[3][..], &[4][..]];
    let mut joined = SegmentedSlice::from(&front[..]).to_vec();
    joined.extend(SegmentedSlice::from(&back[..]).to_vec());
    assert_eq!(SegmentedSlice::from(&whole[..]).to_vec(), joined);
    let with_empty = [&[1u8, 2][..], &[][..], &[3][..], &[4][..]];
    assert_eq!(SegmentedSlice::from(&with_empty[..]).to_vec(), joined);
    let divided = [&[1u8][..], &[2][..], &[3][..], &[4][..]];
    assert_eq!(SegmentedSlice::from(&divided[..]).to_vec(), joined);
}
