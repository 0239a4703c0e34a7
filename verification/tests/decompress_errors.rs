use ciso_rs::codec::CodecStatus;
use ciso_rs::decompress::{accept_tile, decompress_block, open_ciso};
use ciso_rs::layout::read_index_word;
use ciso_rs::{compress_ciso, decompress_ciso, CisoHeader, DecompressError};

const PLAIN: u32 = 0x8000_0000;

fn file(header: CisoHeader, index: &[u32], data: &[u8]) -> Vec<u8> {
    let mut out = Vec::new();
    header.write_into(&mut out);
    for w in index {
        out.extend_from_slice(&w.to_le_bytes());
    }
    out.extend_from_slice(data);
    out
}

fn deflate_stream_of_zeros(n: usize) -> Vec<u8> {
    let cso = compress_ciso(&vec![0u8; n], 6).unwrap();
    let from = read_index_word(&cso, 0) as usize;
    cso[from..].to_vec()
}

#[test]
fn raw_and_compressed_blocks_are_decompressed() {
    let stream = deflate_stream_of_zeros(2048);
    let mut data = vec![7u8; 2048];
    data.extend_from_slice(&stream);
    let end = 36 + 2048 + stream.len() as u32;
    let f = file(CisoHeader::new(4096), &[PLAIN | 36, 36 + 2048, end], &data);
    let mut image = vec![7u8; 2048];
    image.extend_from_slice(&[0u8; 2048]);
    assert_eq!(decompress_ciso(&f), Ok(image));
    let h = open_ciso(&f).unwrap();
    assert_eq!(decompress_block(&f, &h, 1), Ok(vec![0u8; 2048]));
}

#[test]
fn trailing_part_of_a_block_is_not_emitted() {
    let image = vec![3u8; 5000];
    let cso = compress_ciso(&image, 6).unwrap();
    assert_eq!(decompress_ciso(&cso).unwrap(), image[..4096].to_vec());
}

#[test]
fn decompress_file_shorter_than_a_header() {
    assert_eq!(decompress_ciso(&[1, 2, 3]), Err(DecompressError::MalformedHeader));
    assert_eq!(open_ciso(&[0u8; 23]), Err(DecompressError::MalformedHeader));
}

#[test]
fn decompress_header_that_cannot_be_used() {
    let mut h = CisoHeader::new(2048);
    h.block_size = 0;
    assert_eq!(decompress_ciso(&file(h, &[32, 32], &[])), Err(DecompressError::UnusableHeader));
    let mut h = CisoHeader::new(2048);
    h.align = 200;
    assert_eq!(decompress_ciso(&file(h, &[32, 32], &[])), Err(DecompressError::UnusableHeader));
}

#[test]
fn decompress_index_cut_short() {
    let f = file(CisoHeader::new(4096), &[36, 36], &[]);
    assert_eq!(decompress_ciso(&f), Err(DecompressError::TruncatedIndex));
}

#[test]
fn decompress_block_beyond_the_file() {
    let f = file(CisoHeader::new(2048), &[PLAIN | 32, 32 + 2048], &[0u8; 2047]);
    assert_eq!(decompress_ciso(&f), Err(DecompressError::TruncatedBlock { block: 0 }));
    let f = file(CisoHeader::new(2048), &[32, 32 + 50], &[0u8; 49]);
    assert_eq!(decompress_ciso(&f), Err(DecompressError::TruncatedBlock { block: 0 }));
}

#[test]
fn decompress_block_that_ends_before_it_starts() {
    let f = file(CisoHeader::new(2048), &[40, 32], &[0u8; 64]);
    assert_eq!(decompress_ciso(&f), Err(DecompressError::NegativeSize { block: 0 }));
}

#[test]
fn decompress_block_longer_than_two_blocks() {
    let f = file(CisoHeader::new(2048), &[32, 32 + 4097], &[0u8; 4097]);
    assert_eq!(decompress_ciso(&f), Err(DecompressError::OversizedBlock { block: 0 }));
}

#[test]
fn decompress_block_that_is_no_deflate_stream() {
    let f = file(CisoHeader::new(2048), &[32, 32 + 4], &[0xff, 0xff, 0xff, 0xff]);
    assert_eq!(decompress_ciso(&f), Err(DecompressError::Inflate { block: 0 }));
}

#[test]
fn decompress_block_of_the_wrong_length() {
    let stream = deflate_stream_of_zeros(1000);
    let end = 32 + stream.len() as u32;
    let f = file(CisoHeader::new(2048), &[32, end], &stream);
    assert_eq!(decompress_ciso(&f), Err(DecompressError::WrongLength { block: 0 }));
}

#[test]
fn failure_in_a_later_block_is_reported_with_its_index() {
    let mut data = vec![7u8; 2048];
    data.extend_from_slice(&[0xff, 0xff]);
    let f = file(CisoHeader::new(4096), &[PLAIN | 36, 36 + 2048, 36 + 2050], &data);
    assert_eq!(decompress_ciso(&f), Err(DecompressError::Inflate { block: 1 }));
}

#[test]
fn tile_is_taken_only_from_a_finished_stream_of_the_right_length() {
    assert_eq!(accept_tile(CodecStatus::StreamEnd, vec![1, 2, 3], 3, 4), Ok(vec![1, 2, 3]));
    assert_eq!(
        accept_tile(CodecStatus::StreamEnd, vec![1, 2], 3, 4),
        Err(DecompressError::WrongLength { block: 4 })
    );
    assert_eq!(
        accept_tile(CodecStatus::BufError, vec![1, 2, 3], 3, 4),
        Err(DecompressError::Inflate { block: 4 })
    );
    assert_eq!(
        accept_tile(CodecStatus::Progress, vec![1, 2, 3], 3, 4),
        Err(DecompressError::Inflate { block: 4 })
    );
    assert_eq!(
        accept_tile(CodecStatus::Failed, vec![], 3, 4),
        Err(DecompressError::Inflate { block: 4 })
    );
}
