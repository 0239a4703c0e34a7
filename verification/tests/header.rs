use ciso_rs::bytes::{overwrite, push_u32_le, push_u64_le, read_u32_le, read_u64_le};
use ciso_rs::{CisoHeader, HeaderError};

#[test]
fn new_header_has_the_fixed_fields() {
    let h = CisoHeader::new(0x1234_5678_9abc);
    assert_eq!(h.magic, *b"CISO");
    assert_eq!(h.header_size, 0x18);
    assert_eq!(h.total_bytes, 0x1234_5678_9abc);
    assert_eq!(h.block_size, 0x800);
    assert_eq!(h.ver, 1);
    assert_eq!(h.align, 0);
    assert_eq!(h.rsv_06, [0, 0]);
    assert!(h.usable());
}

#[test]
fn header_is_written_little_endian() {
    let mut out = vec![0xEE];
    CisoHeader::new(0x0102_0304_0506_0708).write_into(&mut out);
    assert_eq!(
        out,
        vec![
            0xEE, 0x43, 0x49, 0x53, 0x4F, 0x18, 0, 0, 0, 0x08, 0x07, 0x06, 0x05, 0x04, 0x03,
            0x02, 0x01, 0x00, 0x08, 0, 0, 0x01, 0x00, 0x00, 0x00
        ]
    );
}

#[test]
fn header_is_read_back_as_written() {
    let h = CisoHeader {
        magic: [1, 2, 3, 4],
        header_size: 0xdead_beef,
        total_bytes: u64::MAX - 5,
        block_size: 0x0403_0201,
        ver: 9,
        align: 7,
        rsv_06: [0xAA, 0xBB],
    };
    let mut out = Vec::new();
    h.write_into(&mut out);
    assert_eq!(out.len(), 24);
    out.extend_from_slice(&[1, 2, 3]);
    assert_eq!(CisoHeader::read_from(&out), Ok(h));
}

#[test]
fn short_header_is_malformed() {
    assert_eq!(CisoHeader::read_from(&[]), Err(HeaderError::MalformedHeader));
    assert_eq!(CisoHeader::read_from(&[0u8; 23]), Err(HeaderError::MalformedHeader));
    assert!(CisoHeader::read_from(&[0u8; 24]).is_ok());
}

#[test]
fn header_with_zero_block_size_or_large_align_is_not_usable() {
    let mut h = CisoHeader::new(10);
    h.block_size = 0;
    assert!(!h.usable());
    let mut h = CisoHeader::new(10);
    h.align = 63;
    assert!(h.usable());
    h.align = 64;
    assert!(!h.usable());
}

#[test]
fn little_endian_words_round_trip() {
    let mut out = Vec::new();
    push_u32_le(&mut out, 0x8000_011c);
    push_u64_le(&mut out, 0x1122_3344_5566_7788);
    assert_eq!(out, vec![0x1c, 0x01, 0x00, 0x80, 0x88, 0x77, 0x66, 0x55, 0x44, 0x33, 0x22, 0x11]);
    assert_eq!(read_u32_le(&out, 0), 0x8000_011c);
    assert_eq!(read_u64_le(&out, 4), 0x1122_3344_5566_7788);
    assert_eq!(read_u32_le(&out, 1), 0x8880_0001);
}

#[test]
fn overwrite_replaces_a_stretch() {
    let mut out = vec![1, 2, 3, 4, 5, 6];
    overwrite(&mut out, 2, &[9, 8, 7]);
    assert_eq!(out, vec![1, 2, 9, 8, 7, 6]);
    overwrite(&mut out, 6, &[]);
    assert_eq!(out, vec![1, 2, 9, 8, 7, 6]);
}
