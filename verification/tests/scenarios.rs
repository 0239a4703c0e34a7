use ciso_rs::check::IntegrityError;
use ciso_rs::layout::{entry_is_plain, entry_offset, read_index_word};
use ciso_rs::{check_ciso, compress_ciso, decompress_ciso, CisoHeader};

fn random_bytes(n: usize) -> Vec<u8> {
    let mut v = vec![0u8; n];
    getrandom::fill(&mut v).unwrap();
    v
}

fn alternating(blocks: usize) -> Vec<u8> {
    let mut image = Vec::new();
    for i in 0..blocks {
        if i % 2 == 0 {
            image.extend_from_slice(&[0u8; 2048]);
        } else {
            image.extend_from_slice(&random_bytes(2048));
        }
    }
    image
}

fn offsets(cso: &[u8], blocks: u64) -> Vec<u128> {
    (0..=blocks).map(|i| entry_offset(read_index_word(cso, i), 0)).collect()
}

#[test]
fn all_zeros_sixteen_blocks() {
    let image = vec![0u8; 32768];
    for level in [1u32, 6, 9] {
        let cso = compress_ciso(&image, level).unwrap();
        let header = CisoHeader::read_from(&cso).unwrap();
        assert_eq!(header.total_bytes, 32768);
        for i in 0..16u64 {
            assert!(!entry_is_plain(read_index_word(&cso, i)));
        }
        assert!(!entry_is_plain(read_index_word(&cso, 16)));
        assert_eq!(check_ciso(&cso, true), Ok(()));
        assert_eq!(decompress_ciso(&cso).unwrap(), image);
    }
}

#[test]
fn pure_random_four_blocks() {
    let image = random_bytes(8192);
    let cso = compress_ciso(&image, 6).unwrap();
    assert_eq!(cso.len(), 24 + 5 * 4 + 8192);
    let off = offsets(&cso, 4);
    for i in 0..4usize {
        assert!(entry_is_plain(read_index_word(&cso, i as u64)));
        assert_eq!(off[i + 1] - off[i], 2048);
    }
    assert_eq!(&cso[44..], &image[..]);
    assert_eq!(check_ciso(&cso, true), Ok(()));
    assert_eq!(decompress_ciso(&cso).unwrap(), image);
}

#[test]
fn alternating_blocks_alternate_plain_bits() {
    let image = alternating(64);
    let cso = compress_ciso(&image, 6).unwrap();
    for i in 0..64u64 {
        assert_eq!(entry_is_plain(read_index_word(&cso, i)), i % 2 == 1);
    }
    assert_eq!(check_ciso(&cso, true), Ok(()));
    assert_eq!(decompress_ciso(&cso).unwrap(), image);
}

#[test]
fn byte_pattern_round_trips_at_level_six() {
    let mut image = Vec::new();
    for i in 0..40usize {
        for j in 0..2048usize {
            image.push(((j + i) % 256) as u8);
        }
    }
    let cso = compress_ciso(&image, 6).unwrap();
    for i in 0..40u64 {
        assert!(!entry_is_plain(read_index_word(&cso, i)));
    }
    assert_eq!(check_ciso(&cso, true), Ok(()));
    assert_eq!(decompress_ciso(&cso).unwrap(), image);
}

#[test]
fn flipped_offset_bit_is_detected() {
    let image = alternating(64);
    let mut cso = compress_ciso(&image, 6).unwrap();
    cso[24 + 3] ^= 0x40;
    assert_eq!(check_ciso(&cso, false), Err(IntegrityError::NegativeSize { block: 0 }));
    assert_eq!(check_ciso(&cso, true), Err(IntegrityError::NegativeSize { block: 0 }));
}

#[test]
fn truncated_file_is_detected() {
    let image = vec![0u8; 32768];
    let mut cso = compress_ciso(&image, 6).unwrap();
    let len = cso.len();
    cso.truncate(len - 16);
    assert!(matches!(check_ciso(&cso, false), Err(IntegrityError::TruncatedBlock { .. })));
    assert!(matches!(check_ciso(&cso, true), Err(IntegrityError::TruncatedBlock { .. })));
}

#[test]
fn offsets_rise_to_the_file_length() {
    let image = alternating(10);
    let cso = compress_ciso(&image, 9).unwrap();
    let off = offsets(&cso, 10);
    assert_eq!(off[0], 24 + 11 * 4);
    for i in 0..10usize {
        assert!(off[i] <= off[i + 1]);
    }
    assert_eq!(off[10], cso.len() as u128);
}

#[test]
fn header_of_output_is_canonical() {
    let image = vec![7u8; 3 * 2048];
    let cso = compress_ciso(&image, 1).unwrap();
    assert_eq!(
        &cso[..24],
        &[
            0x43, 0x49, 0x53, 0x4F, 0x18, 0, 0, 0, 0x00, 0x18, 0, 0, 0, 0, 0, 0, 0x00, 0x08, 0, 0,
            0x01, 0x00, 0x00, 0x00
        ]
    );
}

#[test]
fn compression_is_repeatable() {
    let image = alternating(12);
    let a = compress_ciso(&image, 6).unwrap();
    let b = compress_ciso(&image, 6).unwrap();
    assert_eq!(a, b);
    assert_eq!(check_ciso(&a, true), check_ciso(&a, true));
}

#[test]
fn empty_image_gives_header_and_one_word() {
    let cso = compress_ciso(&[], 6).unwrap();
    assert_eq!(cso.len(), 28);
    assert_eq!(read_index_word(&cso, 0), 28);
    assert_eq!(check_ciso(&cso, true), Ok(()));
    assert_eq!(decompress_ciso(&cso).unwrap(), Vec::<u8>::new());
}
