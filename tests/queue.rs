use dsp::collections::queue::Queue;
use dsp::error::DspError;

#[test]
fn basic_usage() {
    let mut buf: Queue<i32> = Queue::with_capacity(5).unwrap();
    assert_eq!(buf.as_slices(), (&[0, 0, 0, 0, 0][..], &[][..]));
    assert_eq!(buf.push(1), 0);
    assert_eq!(buf.as_slices(), (&[0, 0, 0, 0][..], &[1][..]));
    assert_eq!(buf.push(2), 0);
    assert_eq!(buf.as_slices(), (&[0, 0, 0][..], &[1, 2][..]));
    assert_eq!(buf.push(3), 0);
    assert_eq!(buf.as_slices(), (&[0, 0][..], &[1, 2, 3][..]));
    assert_eq!(buf.push(4), 0);
    assert_eq!(buf.as_slices(), (&[0][..], &[1, 2, 3, 4][..]));
    assert_eq!(buf.push(5), 0);
    assert_eq!(buf.as_slices(), (&[1, 2, 3, 4, 5][..], &[][..]));
    assert_eq!(buf.push(6), 1);
    assert_eq!(buf.as_slices(), (&[2, 3, 4, 5][..], &[6][..]));
    assert_eq!(buf.push(7), 2);
    assert_eq!(buf.as_slices(), (&[3, 4, 5][..], &[6, 7][..]));
}

#[test]
fn iterate() {
    let mut buf: Queue<i32> = Queue::with_capacity(3).unwrap();
    assert_eq!(buf.as_slices(), (&[0, 0, 0][..], &[][..]));
    assert_eq!(buf.iter(), vec![0, 0, 0]);
    assert_eq!(buf.push(1), 0);
    assert_eq!(buf.iter(), vec![0, 0, 1]);
    assert_eq!(buf.push(2), 0);
    assert_eq!(buf.iter(), vec![0, 1, 2]);
    assert_eq!(buf.push(3), 0);
    assert_eq!(buf.iter(), vec![1, 2, 3]);
    assert_eq!(buf.push(4), 1);
    assert_eq!(buf.iter(), vec![2, 3, 4]);
}

#[test]
fn zero_capacity_is_rejected() {
    assert_eq!(Queue::<i32>::with_capacity(0).err(), Some(DspError::InvalidConfiguration));
}

#[test]
fn capacity_three_evictions() {
    let mut buf: Queue<i64> = Queue::with_capacity(3).unwrap();
    let evicted: Vec<i64> = (1..=5).map(|x| buf.push(x)).collect();
    assert_eq!(evicted, vec![0, 0, 0, 1, 2]);
    assert_eq!(buf.iter(), vec![3, 4, 5]);
}

#[test]
fn full_turn_evicts_first_value() {
    let mut buf: Queue<u32> = Queue::with_capacity(4).unwrap();
    let values = [11u32, 12, 13, 14, 15];
    let evicted: Vec<u32> = values.iter().map(|&x| buf.push(x)).collect();
    assert_eq!(evicted[4], values[0]);
    assert_eq!(buf.iter(), vec![12, 13, 14, 15]);
}

#[test]
fn get_counts_from_oldest() {
    let mut buf: Queue<i32> = Queue::with_capacity(5).unwrap();
    for x in 1..=7 {
        buf.push(x);
    }
    let got: Vec<i32> = (0..5).map(|k| buf.get(k)).collect();
    assert_eq!(got, vec![3, 4, 5, 6, 7]);
    assert_eq!(buf.iter(), vec![3, 4, 5, 6, 7]);
}

#[test]
fn capacity_one_replaces_each_time() {
    let mut buf: Queue<u64> = Queue::with_capacity(1).unwrap();
    assert_eq!(buf.push(9), 0);
    assert_eq!(buf.push(8), 9);
    assert_eq!(buf.as_slices(), (&[8u64][..], &[][..]));
}
