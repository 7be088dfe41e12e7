use vix::codec::{append_u32, append_u64, bytes_equal, compare_bytes, copy_range, read_u32, read_u64, Order};

#[test]
fn integers_are_little_endian() {
    let mut v: Vec<u8> = Vec::new();
    append_u64(&mut v, 0x0102030405060708);
    append_u32(&mut v, 0x0a0b0c0d);
    assert_eq!(v, vec![8, 7, 6, 5, 4, 3, 2, 1, 0x0d, 0x0c, 0x0b, 0x0a]);
    assert_eq!(read_u64(&v, 0), 0x0102030405060708);
    assert_eq!(read_u32(&v, 8), 0x0a0b0c0d);
}

#[test]
fn compare_bytes_orders_like_slices() {
    assert_eq!(compare_bytes(b"abc", b"abd"), Order::Less);
    assert_eq!(compare_bytes(b"ab", b"abc"), Order::Less);
    assert_eq!(compare_bytes(b"abc", b"abc"), Order::Equal);
    assert_eq!(compare_bytes(b"b", b"abc"), Order::Greater);
    assert_eq!(compare_bytes(b"", b""), Order::Equal);
}

#[test]
fn copy_range_and_equality() {
    let v = vec![1u8, 2, 3, 4];
    assert_eq!(copy_range(&v, 1, 3), vec![2, 3]);
    assert!(bytes_equal(&v, &[1, 2, 3, 4]));
    assert!(!bytes_equal(&v, &[1, 2, 3]));
}
