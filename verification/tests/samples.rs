use std::collections::VecDeque;

use iax2::pcm::{chunk_for, extend_capped, fade, play_cap, push_capped, trim_to, ChunkQueue};

#[test]
fn frames_are_cut_and_the_rest_waits() {
    let mut q = ChunkQueue::new();
    q.feed(&[1, 2, 3, 4, 5]);
    assert_eq!(q.take_frames(2), vec![vec![1, 2], vec![3, 4]]);
    assert_eq!(q.items, VecDeque::from(vec![5]));
    q.feed(&[6]);
    assert_eq!(q.take_frames(2), vec![vec![5, 6]]);
    assert!(q.take_frames(2).is_empty());
    q.feed(&[7]);
    q.clear();
    assert_eq!(q.take_chunk(1), None);
}

#[test]
fn chunks_need_enough_items() {
    let mut q = ChunkQueue::new();
    q.feed(&[1.5, 2.5]);
    assert_eq!(q.take_chunk(3), None);
    assert_eq!(q.take_chunk(0), Some(vec![]));
    assert_eq!(q.take_chunk(2), Some(vec![1.5, 2.5]));
}

#[test]
fn capped_queues_keep_the_newest() {
    let mut q: VecDeque<i32> = VecDeque::new();
    for i in 0..5 {
        push_capped(&mut q, i, 3);
    }
    assert_eq!(q, VecDeque::from(vec![2, 3, 4]));
    extend_capped(&mut q, vec![5, 6], 4);
    assert_eq!(q, VecDeque::from(vec![3, 4, 5, 6]));
    trim_to(&mut q, 0);
    assert!(q.is_empty());
}

#[test]
fn sizes_for_devices() {
    assert_eq!(play_cap(48_000, 2), 19_200);
    assert_eq!(play_cap(44_100, 1), 8_820);
    assert_eq!(chunk_for(48_000), 480);
    assert_eq!(chunk_for(8_000), 128);
}

#[test]
fn fading_ends_in_silence() {
    assert_eq!(fade(&[100, -101, 1, -1, i16::MIN]), vec![50, -50, 0, 0, -16384]);
    let mut pcm = vec![i16::MIN, i16::MAX];
    for _ in 0..16 {
        pcm = fade(&pcm);
    }
    assert_eq!(pcm, vec![0, 0]);
}
