use pq_mpc_core::bytes::{u64_from_le_prefix, u64_to_le_bytes};

#[test]
fn encodes_little_endian() {
    assert_eq!(u64_to_le_bytes(0x0102_0304_0506_0708), vec![8, 7, 6, 5, 4, 3, 2, 1]);
    assert_eq!(u64_to_le_bytes(42), 42u64.to_le_bytes().to_vec());
}

#[test]
fn decodes_little_endian_prefix() {
    assert_eq!(u64_from_le_prefix(&[8, 7, 6, 5, 4, 3, 2, 1, 99, 100]), 0x0102_0304_0506_0708);
    assert_eq!(u64_from_le_prefix(&[0xff; 8]), u64::MAX);
}

#[test]
fn round_trip() {
    for x in [0u64, 1, 255, 256, 0xdead_beef, u64::MAX, 1 << 63] {
        assert_eq!(u64_from_le_prefix(&u64_to_le_bytes(x)), x);
    }
}
