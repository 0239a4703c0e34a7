use ciso_rs::check::{inflate_verdict, inspect_block, IntegrityError};
use ciso_rs::codec::CodecStatus;
use ciso_rs::layout::read_index_word;
use ciso_rs::{check_ciso, compress_ciso, CisoHeader};

const PLAIN: u32 = 0x8000_0000;

fn file(header: CisoHeader, index: &[u32], data: &[u8]) -> Vec<u8> {
    let mut out = Vec::new();
    header.write_into(&mut out);
    for w in index {
        out.extend_from_slice(&w.to_le_bytes());
    }
    out.extend_from_slice(data);
    out
}

fn deflate_stream_of_zeros(n: usize) -> Vec<u8> {
    let cso = compress_ciso(&vec![0u8; n], 6).unwrap();
    let from = read_index_word(&cso, 0) as usize;
    cso[from..].to_vec()
}

#[test]
fn well_formed_files_pass() {
    let raw = [5u8; 2048];
    let f = file(CisoHeader::new(2048), &[PLAIN | 32, 32 + 2048], &raw);
    assert_eq!(check_ciso(&f, false), Ok(()));
    assert_eq!(check_ciso(&f, true), Ok(()));

    let stream = deflate_stream_of_zeros(2048);
    let end = 32 + stream.len() as u32;
    let f = file(CisoHeader::new(2048), &[32, end], &stream);
    assert_eq!(check_ciso(&f, false), Ok(()));
    assert_eq!(check_ciso(&f, true), Ok(()));
}

#[test]
fn short_last_block_passes() {
    let image = vec![3u8; 5000];
    let cso = compress_ciso(&image, 6).unwrap();
    assert_eq!(check_ciso(&cso, true), Ok(()));
    let raw = [9u8; 100];
    let f = file(CisoHeader::new(100), &[PLAIN | 32, 132], &raw);
    assert_eq!(check_ciso(&f, true), Ok(()));
}

#[test]
fn shifted_offsets_are_followed() {
    let mut h = CisoHeader::new(2048);
    h.align = 4;
    let mut data = vec![0u8; 16];
    data.extend_from_slice(&[1u8; 2048]);
    let f = file(h, &[PLAIN | 3, 3 + 128], &data);
    assert_eq!(f.len(), 32 + 16 + 2048);
    assert_eq!(check_ciso(&f, true), Ok(()));
}

#[test]
fn file_shorter_than_a_header() {
    assert_eq!(check_ciso(&[0u8; 10], false), Err(IntegrityError::MalformedHeader));
    assert_eq!(check_ciso(&[], true), Err(IntegrityError::MalformedHeader));
}

#[test]
fn header_that_cannot_be_used() {
    let mut h = CisoHeader::new(2048);
    h.block_size = 0;
    assert_eq!(check_ciso(&file(h, &[32, 32], &[]), false), Err(IntegrityError::UnusableHeader));
    let mut h = CisoHeader::new(2048);
    h.align = 64;
    assert_eq!(check_ciso(&file(h, &[32, 32], &[]), false), Err(IntegrityError::UnusableHeader));
}

#[test]
fn index_cut_short() {
    let f = file(CisoHeader::new(4096), &[36, 36], &[]);
    assert_eq!(check_ciso(&f, false), Err(IntegrityError::TruncatedIndex));
    let f = file(CisoHeader::new(u64::MAX), &[36, 36], &[]);
    assert_eq!(check_ciso(&f, false), Err(IntegrityError::TruncatedIndex));
}

#[test]
fn end_of_data_beyond_the_file() {
    let f = file(CisoHeader::new(2048), &[PLAIN | 32, 32 + 2048], &[0u8; 2047]);
    assert_eq!(check_ciso(&f, false), Err(IntegrityError::TruncatedBlock { block: 1 }));
}

#[test]
fn block_inside_the_index() {
    let f = file(CisoHeader::new(2048), &[PLAIN | 31, 31 + 2048], &[0u8; 2048]);
    assert_eq!(check_ciso(&f, false), Err(IntegrityError::BlockBeforeData { block: 0 }));
    let f = file(CisoHeader::new(4096), &[PLAIN | 36, PLAIN | 35, 40], &[0u8; 10]);
    assert_eq!(check_ciso(&f, false), Err(IntegrityError::PlainSizeMismatch { block: 0 }));
}

#[test]
fn offset_below_the_one_before() {
    let f = file(CisoHeader::new(4096), &[50, 40, 60], &[0u8; 64]);
    let h = CisoHeader::read_from(&f).unwrap();
    assert_eq!(inspect_block(&f, &h, 1, false), Some(IntegrityError::NonMonotonic { block: 1 }));
    assert_eq!(inspect_block(&f, &h, 0, false), Some(IntegrityError::NegativeSize { block: 0 }));
    assert_eq!(check_ciso(&f, false), Err(IntegrityError::NegativeSize { block: 0 }));
}

#[test]
fn raw_block_of_the_wrong_length() {
    let f = file(CisoHeader::new(2048), &[PLAIN | 32, 32 + 2047], &[0u8; 2048]);
    assert_eq!(check_ciso(&f, false), Err(IntegrityError::PlainSizeMismatch { block: 0 }));
    let f = file(CisoHeader::new(2048), &[PLAIN | 40, 32], &[0u8; 2048]);
    assert_eq!(check_ciso(&f, false), Err(IntegrityError::PlainSizeMismatch { block: 0 }));
}

#[test]
fn block_beyond_the_file() {
    let f = file(CisoHeader::new(4096), &[PLAIN | 36, 36 + 2048, 100], &[0u8; 114]);
    assert_eq!(f.len(), 150);
    assert_eq!(check_ciso(&f, false), Err(IntegrityError::TruncatedBlock { block: 0 }));
}

#[test]
fn compressed_block_longer_than_two_blocks() {
    let f = file(CisoHeader::new(2048), &[32, 32 + 4097], &[0u8; 4097]);
    assert_eq!(check_ciso(&f, false), Ok(()));
    assert_eq!(check_ciso(&f, true), Err(IntegrityError::OversizedCompressed { block: 0 }));
}

#[test]
fn compressed_block_that_is_no_deflate_stream() {
    let f = file(CisoHeader::new(2048), &[32, 32 + 6], &[0xff, 0xff, 0xff, 0xff, 0xff, 0xff]);
    assert_eq!(check_ciso(&f, false), Ok(()));
    assert_eq!(check_ciso(&f, true), Err(IntegrityError::InvalidDeflate { block: 0 }));
    let f = file(CisoHeader::new(2048), &[32, 32], &[]);
    assert_eq!(check_ciso(&f, true), Err(IntegrityError::InvalidDeflate { block: 0 }));
}

#[test]
fn compressed_block_that_inflates_to_too_little() {
    let stream = deflate_stream_of_zeros(1000);
    let end = 32 + stream.len() as u32;
    let f = file(CisoHeader::new(2048), &[32, end], &stream);
    assert_eq!(check_ciso(&f, false), Ok(()));
    assert_eq!(check_ciso(&f, true), Err(IntegrityError::DecompressedSizeMismatch { block: 0 }));
}

#[test]
fn compressed_block_that_inflates_to_too_much() {
    let stream = deflate_stream_of_zeros(2048);
    let end = 32 + stream.len() as u32;
    let f = file(CisoHeader::new(1000), &[32, end], &stream);
    assert_eq!(check_ciso(&f, true), Err(IntegrityError::InvalidDeflate { block: 0 }));
}

#[test]
fn verdict_on_the_codec_answer() {
    assert_eq!(inflate_verdict(CodecStatus::StreamEnd, 2048, 2048, 7), None);
    assert_eq!(
        inflate_verdict(CodecStatus::StreamEnd, 2047, 2048, 7),
        Some(IntegrityError::DecompressedSizeMismatch { block: 7 })
    );
    assert_eq!(
        inflate_verdict(CodecStatus::BufError, 2048, 2048, 7),
        Some(IntegrityError::InvalidDeflate { block: 7 })
    );
    assert_eq!(
        inflate_verdict(CodecStatus::Progress, 2048, 2048, 7),
        Some(IntegrityError::InvalidDeflate { block: 7 })
    );
    assert_eq!(
        inflate_verdict(CodecStatus::Failed, 0, 2048, 7),
        Some(IntegrityError::InvalidDeflate { block: 7 })
    );
}

#[test]
fn check_gives_the_same_answer_twice() {
    let f = file(CisoHeader::new(2048), &[32, 32 + 6], &[0xff, 0xff, 0xff, 0xff, 0xff, 0xff]);
    let copy = f.clone();
    let first = check_ciso(&f, true);
    let second = check_ciso(&f, true);
    assert_eq!(first, second);
    assert_eq!(f, copy);
}
