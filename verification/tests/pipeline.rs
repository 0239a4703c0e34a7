use ciso_rs::codec::CodecStatus;
use ciso_rs::compress::{compress_block, keep_if_smaller, nth_job, Block, CompressError, Job};
use ciso_rs::pipeline::{plan, plan_for, PipelinePlan};
use ciso_rs::queue::BoundedQueue;
use ciso_rs::serializer::Serializer;
use ciso_rs::{check_ciso, compress_ciso};

fn mixed_image(blocks: usize) -> Vec<u8> {
    let mut image = Vec::new();
    for i in 0..blocks {
        if i % 3 == 0 {
            image.extend_from_slice(&[0u8; 2048]);
        } else if i % 3 == 1 {
            let mut block = vec![0u8; 2048];
            getrandom::fill(&mut block).unwrap();
            image.extend_from_slice(&block);
        } else {
            for j in 0..2048usize {
                image.push(((j + i) % 256) as u8);
            }
        }
    }
    image.extend_from_slice(&[1u8; 700]);
    image
}

fn serialize(image: &[u8], level: u32, order: &[u64]) -> Vec<u8> {
    let mut serializer = Serializer::new(image.len());
    let mut out = Vec::new();
    serializer.write_preamble(&mut out);
    for &i in order {
        let block = compress_block(image, i, level).unwrap();
        serializer.accept(image, block, &mut out).unwrap();
    }
    assert!(serializer.is_complete());
    let table = serializer.finish().unwrap();
    out[24..24 + table.len()].copy_from_slice(&table);
    out
}

#[test]
fn plan_has_two_queue_entries_for_each_worker() {
    assert_eq!(plan_for(4), PipelinePlan { workers: 4, queue_capacity: 8 });
    assert_eq!(plan_for(1), PipelinePlan { workers: 1, queue_capacity: 2 });
    assert_eq!(plan_for(0), PipelinePlan { workers: 1, queue_capacity: 2 });
    assert_eq!(
        plan_for(usize::MAX),
        PipelinePlan { workers: usize::MAX, queue_capacity: usize::MAX }
    );
}

#[test]
fn plan_of_this_machine_has_a_worker() {
    let p = plan();
    assert!(p.workers >= 1);
    assert_eq!(p, plan_for(p.workers));
}

#[test]
fn producer_hands_out_blocks_then_one_end_for_each_worker() {
    assert_eq!(nth_job(0, 3, 2), Some(Job::Block { index: 0 }));
    assert_eq!(nth_job(2, 3, 2), Some(Job::Block { index: 2 }));
    assert_eq!(nth_job(3, 3, 2), Some(Job::End));
    assert_eq!(nth_job(4, 3, 2), Some(Job::End));
    assert_eq!(nth_job(5, 3, 2), None);
    assert_eq!(nth_job(0, 0, 1), Some(Job::End));
    assert_eq!(nth_job(u64::MAX, u64::MAX, u64::MAX), Some(Job::End));
}

#[test]
fn queue_delivers_in_order_of_arrival() {
    let mut q: BoundedQueue<u32> = BoundedQueue::new(3);
    assert!(q.is_empty());
    assert_eq!(q.capacity(), 3);
    assert_eq!(q.push(10), Ok(()));
    assert_eq!(q.push(20), Ok(()));
    assert_eq!(q.push(30), Ok(()));
    assert!(q.is_full());
    assert_eq!(q.len(), 3);
    assert_eq!(q.push(40), Err(40));
    assert_eq!(q.len(), 3);
    assert_eq!(q.pop(), Some(10));
    assert!(!q.is_full());
    assert_eq!(q.push(50), Ok(()));
    assert_eq!(q.pop(), Some(20));
    assert_eq!(q.pop(), Some(30));
    assert_eq!(q.pop(), Some(50));
    assert_eq!(q.pop(), None);
    assert!(q.is_empty());
}

#[test]
fn queue_without_room_takes_nothing() {
    let mut q: BoundedQueue<&str> = BoundedQueue::new(0);
    assert!(q.is_full());
    assert_eq!(q.push("a"), Err("a"));
    assert_eq!(q.pop(), None);
}

#[test]
fn worker_keeps_a_stream_only_if_it_is_strictly_shorter() {
    assert_eq!(keep_if_smaller(CodecStatus::StreamEnd, vec![1, 2, 3], 4), Some(vec![1, 2, 3]));
    assert_eq!(keep_if_smaller(CodecStatus::StreamEnd, vec![1, 2, 3], 3), Some(vec![]));
    assert_eq!(keep_if_smaller(CodecStatus::StreamEnd, vec![1, 2, 3], 2), Some(vec![]));
    assert_eq!(keep_if_smaller(CodecStatus::BufError, vec![1, 2, 3], 4), Some(vec![1, 2, 3]));
    assert_eq!(keep_if_smaller(CodecStatus::Progress, vec![1], 1), Some(vec![]));
    assert_eq!(keep_if_smaller(CodecStatus::Failed, vec![1], 4), None);
}

#[test]
fn worker_compresses_zeros_and_gives_up_on_noise() {
    let mut image = vec![0u8; 2048];
    let mut noise = vec![0u8; 2048];
    getrandom::fill(&mut noise).unwrap();
    image.extend_from_slice(&noise);
    image.extend_from_slice(&[0u8; 10]);
    let zeros = compress_block(&image, 0, 6).unwrap();
    assert_eq!(zeros.index, 0);
    assert!(!zeros.compressed.is_empty());
    assert!(zeros.compressed.len() < 100);
    assert_eq!(compress_block(&image, 1, 6), Ok(Block { index: 1, compressed: vec![] }));
    let tail = compress_block(&image, 2, 9).unwrap();
    assert_eq!(tail.index, 2);
    assert!(tail.compressed.len() < 10);
}

#[test]
fn serializer_output_does_not_depend_on_arrival_order() {
    let image = mixed_image(9);
    let reference = compress_ciso(&image, 6).unwrap();
    assert_eq!(serialize(&image, 6, &[0, 1, 2, 3, 4, 5, 6, 7, 8, 9]), reference);
    assert_eq!(serialize(&image, 6, &[9, 8, 7, 6, 5, 4, 3, 2, 1, 0]), reference);
    assert_eq!(serialize(&image, 6, &[3, 0, 1, 9, 2, 5, 4, 8, 6, 7]), reference);
    assert_eq!(check_ciso(&reference, true), Ok(()));
}

#[test]
fn serializer_holds_back_what_comes_early() {
    let image = vec![0u8; 3 * 2048];
    let mut serializer = Serializer::new(image.len());
    let mut out = Vec::new();
    serializer.accept(&image, compress_block(&image, 2, 6).unwrap(), &mut out).unwrap();
    assert_eq!(serializer.placed(), 0);
    assert!(out.is_empty());
    serializer.accept(&image, compress_block(&image, 0, 6).unwrap(), &mut out).unwrap();
    assert_eq!(serializer.placed(), 1);
    let one = out.len();
    assert!(one > 0);
    serializer.accept(&image, compress_block(&image, 1, 6).unwrap(), &mut out).unwrap();
    assert_eq!(serializer.placed(), 3);
    assert_eq!(out.len(), 3 * one);
    assert!(serializer.is_complete());
    let table = serializer.finish().unwrap();
    assert_eq!(table.len(), 16);
    assert_eq!(&table[..4], &40u32.to_le_bytes());
    assert_eq!(&table[12..], &(40 + 3 * one as u32).to_le_bytes());
}

#[test]
fn serializer_opens_the_file_with_header_and_blank_index() {
    let serializer = Serializer::new(2 * 2048 + 1);
    let mut out = vec![0xAB];
    serializer.write_preamble(&mut out);
    assert_eq!(out.len(), 1 + 24 + 4 * 4);
    assert_eq!(&out[1..5], b"CISO");
    assert_eq!(&out[9..17], &(2 * 2048u64 + 1).to_le_bytes());
    assert!(out[25..].iter().all(|&b| b == 0));
}

#[test]
fn compress_errors_can_be_told_apart() {
    assert!(CompressError::OffsetOverflow != CompressError::Codec { block: 0 });
    assert!(CompressError::Codec { block: 1 } != CompressError::Codec { block: 0 });
}
