use smog::client::{get_packets, keep, SUB_TICKS};
use smog::game_packets::{GamePacket, IndexedGamePacket};
use smog::packet::IndexedPacket;
use smog::timed_queue::TimedQueue;
use std::time::Duration;

const MS: u128 = 1_000_000;

#[test]
fn timed_queue_test() {
    let dur = Duration::from_millis(1);
    let mut q = TimedQueue::<usize>::new(dur);
    q.push_at(1, 0);
    q.push_at(2, 0);

    q.push_at(3, MS);
    q.push_at(4, MS);
    q.push_at(5, MS);

    q.push_at(6, 3 * MS);

    let v: Vec<Vec<usize>> = q.take_at(6, 3 * MS);
    assert_eq!(
        vec![vec![1, 2], vec![3, 4, 5], vec![], vec![6], vec![], vec![]],
        v
    );
}

#[test]
fn slot_length_is_the_duration_in_nanoseconds() {
    let q = TimedQueue::<u8>::new(Duration::from_nanos(2_300_000));
    assert_eq!(q.slot_nanos(), 2_300_000);
    assert_eq!(q.len(), 1);
    let q = TimedQueue::<u8>::new(Duration::from_secs(3));
    assert_eq!(q.slot_nanos(), 3_000_000_000);
}

#[test]
fn take_pads_and_keeps_the_rest() {
    let mut q = TimedQueue::<u8>::new(Duration::from_millis(1));
    q.push_at(1, 0);
    q.push_at(2, 2 * MS + 5);
    q.push_at(3, 4 * MS);
    assert_eq!(q.len(), 5);
    let head = q.take_at(2, 5 * MS);
    assert_eq!(head, vec![vec![1], vec![]]);
    assert_eq!(q.len(), 3);
    // slots are now measured from the take
    q.push_at(4, 5 * MS);
    let head = q.take_at(4, 6 * MS);
    assert_eq!(head, vec![vec![2], vec![], vec![3, 4], vec![]]);
    assert_eq!(q.len(), 0);
    assert_eq!(q.take_at(0, 6 * MS), Vec::<Vec<u8>>::new());
    assert_eq!(q.take_at(3, 7 * MS), vec![vec![], vec![], vec![]]);
}

#[test]
fn push_into_an_emptied_queue_and_into_the_past() {
    let mut q = TimedQueue::<u8>::new(Duration::from_millis(1));
    let _ = q.take_at(1, 10 * MS);
    assert_eq!(q.len(), 0);
    // a time before the start of the first slot counts as the first slot
    q.push_at(7, 9 * MS);
    assert_eq!(q.len(), 1);
    // an earlier slot than the last bucket: filed under the last bucket
    q.push_at(8, 12 * MS);
    q.push_at(9, 10 * MS);
    assert_eq!(q.take_at(3, 12 * MS), vec![vec![7], vec![], vec![8, 9]]);
    assert_eq!(q.time_since_take_at(15 * MS), 3 * MS);
    assert_eq!(q.time_since_take_at(11 * MS), 0);
}

#[test]
fn clock_driven_queue_keeps_everything_in_order() {
    let mut q = TimedQueue::<u32>::new(Duration::from_nanos(50));
    for k in 0..100 {
        assert!(q.push(k));
    }
    let n = q.len();
    assert!(n >= 1);
    let head = q.take(n + 3);
    assert_eq!(head.len(), n + 3);
    let flat: Vec<u32> = head.into_iter().flatten().collect();
    assert_eq!(flat, (0..100).collect::<Vec<u32>>());
    assert_eq!(q.len(), 0);
    let _ = q.time_since_take();
}

#[test]
fn zero_slot_length_takes_nothing_in() {
    let mut q = TimedQueue::<u32>::new(Duration::from_nanos(0));
    assert!(!q.push(1));
    assert_eq!(q.take(2), vec![vec![], vec![]]);
}

#[test]
fn channel_is_drained_up_to_the_limit() {
    let (tx, rx) = crossbeam_channel::unbounded::<Vec<IndexedGamePacket>>();
    for k in 0..5u8 {
        tx.send(vec![IndexedPacket::new(k, GamePacket::Fire(k))]).unwrap();
    }
    let got = get_packets(&rx, 3);
    assert_eq!(got.len(), 3);
    assert_eq!(got[0][0].id, 0);
    assert_eq!(got[2][0].contents, GamePacket::Fire(2));
    let got = get_packets(&rx, 8);
    assert_eq!(got.len(), 2);
    assert_eq!(got[1][0].id, 4);
    assert!(get_packets(&rx, 8).is_empty());
    assert!(get_packets(&rx, 0).is_empty());
}

#[test]
fn messages_are_kept_in_order_of_arrival() {
    let mut gathered = vec![1u8];
    assert!(keep(&mut gathered, Some(2)));
    assert!(keep(&mut gathered, Some(3)));
    assert!(!keep(&mut gathered, None));
    assert_eq!(gathered, vec![1, 2, 3]);
    assert_eq!(SUB_TICKS, 8);
}
