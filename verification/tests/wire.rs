use device_emu::wire::{push_u16, push_u32, push_u64, read_u16, read_u32, read_u64};

#[test]
fn reads_little_endian_fields() {
    let b: [u8; 10] = [0x34, 0x12, 0x78, 0x56, 0x34, 0x12, 0xef, 0xcd, 0xab, 0x89];
    assert_eq!(read_u16(&b, 0), 0x1234);
    assert_eq!(read_u16(&b, 2), 0x5678);
    assert_eq!(read_u32(&b, 0), 0x5678_1234);
    assert_eq!(read_u32(&b, 6), 0x89ab_cdef);
    assert_eq!(read_u64(&b, 2), 0x89ab_cdef_1234_5678);
}

#[test]
fn reads_extreme_values() {
    let ones = [0xffu8; 8];
    assert_eq!(read_u16(&ones, 0), u16::MAX);
    assert_eq!(read_u32(&ones, 0), u32::MAX);
    assert_eq!(read_u64(&ones, 0), u64::MAX);
    let zeros = [0u8; 8];
    assert_eq!(read_u64(&zeros, 0), 0);
}

#[test]
fn appends_little_endian_fields() {
    let mut out: Vec<u8> = vec![0xaa];
    push_u16(&mut out, 0x1234);
    push_u32(&mut out, 0x89ab_cdef);
    push_u64(&mut out, 0x0102_0304_0506_0708);
    assert_eq!(
        out,
        vec![0xaa, 0x34, 0x12, 0xef, 0xcd, 0xab, 0x89, 0x08, 0x07, 0x06, 0x05, 0x04, 0x03, 0x02, 0x01]
    );
}

#[test]
fn encoding_agrees_with_std() {
    let values: [u64; 6] = [0, 1, 0xff, 0x1_0000, 0xdead_beef_0bad_f00d, u64::MAX];
    for v in values {
        let mut out: Vec<u8> = Vec::new();
        push_u64(&mut out, v);
        assert_eq!(out, v.to_le_bytes().to_vec());
        assert_eq!(read_u64(&out, 0), v);
        let mut out32: Vec<u8> = Vec::new();
        push_u32(&mut out32, v as u32);
        assert_eq!(out32, (v as u32).to_le_bytes().to_vec());
        assert_eq!(read_u32(&out32, 0), v as u32);
        let mut out16: Vec<u8> = Vec::new();
        push_u16(&mut out16, v as u16);
        assert_eq!(out16, (v as u16).to_le_bytes().to_vec());
        assert_eq!(read_u16(&out16, 0), v as u16);
    }
}
