use poker::lsb;
use poker::msb;

#[test]
fn msb_with_all_cases() {
    assert_eq!(None, msb(0));
    assert_eq!(Some(0), msb(1));
    assert_eq!(Some(1), msb(2));
    assert_eq!(Some(1), msb(3));
    assert_eq!(Some(2), msb(4));
    assert_eq!(Some(2), msb(5));
    assert_eq!(Some(2), msb(6));
    assert_eq!(Some(2), msb(7));
    assert_eq!(Some(3), msb(8));
    assert_eq!(Some(3), msb(9));
    assert_eq!(Some(63), msb(u64::MAX));
    assert_eq!(Some(63), msb(u64::MAX - 1));
    assert_eq!(Some(62), msb(u64::MAX / 2));
    assert_eq!(Some(63), msb(u64::MAX / 2 + 1));
}

#[test]
fn lsb_with_all_cases() {
    assert_eq!(None, lsb(0));
    assert_eq!(Some(0), lsb(1));
    assert_eq!(Some(1), lsb(2));
    assert_eq!(Some(0), lsb(3));
    assert_eq!(Some(2), lsb(4));
    assert_eq!(Some(0), lsb(5));
    assert_eq!(Some(1), lsb(6));
    assert_eq!(Some(0), lsb(7));
    assert_eq!(Some(3), lsb(8));
    assert_eq!(Some(0), lsb(9));
    assert_eq!(Some(0), lsb(u64::MAX));
    assert_eq!(Some(1), lsb(u64::MAX - 1));
    assert_eq!(Some(0), lsb(u64::MAX - 2));
    assert_eq!(Some(2), lsb(u64::MAX - 3));
    assert_eq!(Some(0), lsb(u64::MAX - 4));
    assert_eq!(Some(1), lsb(u64::MAX - 5));
    assert_eq!(Some(0), lsb(u64::MAX - 6));
    assert_eq!(Some(3), lsb(u64::MAX - 7));
    assert_eq!(Some(0), lsb(u64::MAX - 8));
}
