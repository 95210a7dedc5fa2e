use filecloud::wire::{
    copy_range, push_all, push_be, push_i64, push_u64, read_be, read_i64, read_u16, read_u32,
    read_u64, CHUNK_SIZE, OVERHEAD, PAYLOAD,
};

#[test]
fn u64_roundtrip() {
    for v in [0u64, 1, 255, 256, 32751, u64::MAX - 1, u64::MAX] {
        let mut out = vec![9u8];
        push_u64(&mut out, v);
        assert_eq!(out[1..], v.to_be_bytes());
        assert_eq!(read_u64(&out, 1), v);
    }
}

#[test]
fn i64_roundtrip() {
    for v in [0i64, 1, -1, i64::MIN, i64::MAX, 1_700_000_000] {
        let mut out = Vec::new();
        push_i64(&mut out, v);
        assert_eq!(out, v.to_be_bytes());
        assert_eq!(read_i64(&out, 0), v);
    }
}

#[test]
fn short_numbers_are_big_endian() {
    assert_eq!(read_u16(&[7, 0x12, 0x34], 1), 0x1234);
    assert_eq!(read_u32(&[0xde, 0xad, 0xbe, 0xef], 0), 0xdeadbeef);
    assert_eq!(read_be(&[]), 0);
    assert_eq!(read_be(&[1, 0, 0]), 65536);
    let mut out = Vec::new();
    push_be(&mut out, 0x0102_0304, 3);
    assert_eq!(out, [2, 3, 4]);
    push_be(&mut out, 7, 10);
    assert_eq!(out, [2, 3, 4, 0, 0, 0, 0, 0, 0, 0, 0, 0, 7]);
}

#[test]
fn bytes_are_appended_and_copied() {
    let mut out = vec![1u8];
    push_all(&mut out, &[2, 3]);
    assert_eq!(out, [1, 2, 3]);
    assert_eq!(copy_range(&out, 1, 3), [2, 3]);
    assert!(copy_range(&out, 2, 2).is_empty());
}

#[test]
fn a_chunk_fits_its_frame() {
    assert_eq!(CHUNK_SIZE, 32768);
    assert_eq!(PAYLOAD as usize + OVERHEAD, CHUNK_SIZE);
}
