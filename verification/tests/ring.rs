use impulse_ring::lock;
use impulse_ring::ring::{
    check_header, fits, next_seq, park_for, pop_cursor, push_cursor, ring_bytes, span, PopStep,
    PushStep, Ring, RingError, MAGIC, POP_IDLE_NANOS, PUSH_IDLE_NANOS, RING_HEADER,
};
use impulse_ring::shm::Segment;

fn temp_ring(cap: usize) -> Ring {
    let seg = Segment::from_image("/impulse-ring.test.v1".to_string(), vec![0; ring_bytes(cap)]);
    Ring::format(seg, 0, cap).unwrap()
}

#[test]
fn roundtrip_and_wrap() {
    let mut r = temp_ring(64);
    for i in 0..50u8 {
        let msg = vec![i; 10];
        assert!(r.try_push(&msg), "push {i}");
        let got = r.try_pop().expect("pop");
        assert_eq!(got, msg);
    }
    assert!(r.try_pop().is_none());
}

#[test]
fn backpressure_when_full() {
    let mut r = temp_ring(64);
    assert!(r.try_push(&[1u8; 20]));
    assert!(r.try_push(&[2u8; 20]));
    assert!(!r.try_push(&[3u8; 20]), "ring should be full");
    assert_eq!(r.try_pop().unwrap(), vec![1u8; 20]);
    assert!(r.try_push(&[3u8; 20]), "space freed after pop");
}

#[test]
fn first_in_first_out() {
    let mut r = temp_ring(128);
    for i in 0..5u8 {
        assert!(r.try_push(&[i, i + 1]));
    }
    assert_eq!(r.try_pop(), Some(vec![0, 1]));
    assert!(r.try_push(&[]));
    for i in 1..5u8 {
        assert_eq!(r.try_pop(), Some(vec![i, i + 1]));
    }
    assert_eq!(r.try_pop(), Some(vec![]));
    assert_eq!(r.try_pop(), None);
}

#[test]
fn bytes_in_use_are_those_of_the_queued_records() {
    let mut r = temp_ring(128);
    assert!(r.try_push(&[1; 10]) && r.try_push(&[2; 20]));
    assert_eq!(r.seg.load_u64(64) - r.seg.load_u64(128), 14 + 24);
    assert!(r.try_pop().is_some());
    assert_eq!(r.seg.load_u64(64) - r.seg.load_u64(128), 24);
}

#[test]
fn a_record_longer_than_the_ring_never_fits() {
    let mut r = temp_ring(64);
    assert!(!r.try_push(&[0u8; 61]));
    assert!(r.try_push(&[0u8; 60]));
}

#[test]
fn attaching_checks_the_header() {
    let r = temp_ring(64);
    let copy = Segment::from_image("x".to_string(), r.seg.mem.clone());
    assert_eq!(Ring::attach(copy, 0).ok().unwrap().capacity, 64);
    let blank = Segment::from_image("x".to_string(), vec![0; ring_bytes(64)]);
    assert_eq!(Ring::attach(blank, 0).err(), Some(RingError::BadMagic));
    let mut short = r.seg.mem.clone();
    short.truncate(RING_HEADER + 32);
    let short = Segment::from_image("x".to_string(), short);
    assert_eq!(Ring::attach(short, 0).err(), Some(RingError::BadCapacity));
    let small = Segment::from_image("x".to_string(), vec![0; 100]);
    assert_eq!(Ring::format(small, 0, 64).err(), Some(RingError::TooSmall));
    assert_eq!(RingError::TooSmall.message(), "segment too small for ring");
    assert_eq!(RingError::BadMagic.message(), "ring magic mismatch / not formatted");
    assert_eq!(RingError::BadCapacity.message(), "ring capacity invalid");
    assert_eq!(check_header(MAGIC, 64, 0, RING_HEADER + 64), Ok(64));
    assert_eq!(check_header(MAGIC, 48, 0, 1000), Err(RingError::BadCapacity));
    assert!(fits(256, 0, 64));
    assert!(!fits(255, 0, 64));
}

#[test]
fn rounds_of_waiting() {
    let mut r = temp_ring(64);
    match r.pop_blocking(Some(5)) {
        PopStep::Park { seen, nanos } => assert_eq!((seen, nanos), (0, 5)),
        _ => panic!("expected to sleep"),
    }
    match r.pop_blocking(Some(0)) {
        PopStep::TimedOut => {}
        _ => panic!("expected to time out"),
    }
    match r.pop_blocking(None) {
        PopStep::Park { seen: _, nanos } => assert_eq!(nanos, POP_IDLE_NANOS),
        _ => panic!("expected to sleep"),
    }
    assert_eq!(r.push_blocking(&[1; 60], Some(0)), PushStep::Pushed);
    assert_eq!(r.push_blocking(&[2], Some(0)), PushStep::TimedOut);
    assert_eq!(r.push_blocking(&[2], Some(9)), PushStep::Park { seen: 0, nanos: 9 });
    assert_eq!(
        r.push_blocking(&[2], None),
        PushStep::Park { seen: 0, nanos: PUSH_IDLE_NANOS }
    );
    match r.pop_blocking(Some(0)) {
        PopStep::Popped(payload) => assert_eq!(payload, vec![1; 60]),
        _ => panic!("expected a record"),
    }
    // The words that sleepers watch moved.
    assert_eq!(r.seg.load_u32(76), 1);
    assert_eq!(r.seg.load_u32(136), 1);
    assert_eq!(park_for(Some(0), 7), None);
    assert_eq!(park_for(Some(3), 7), Some(3));
    assert_eq!(park_for(None, 7), Some(7));
}

#[test]
fn cursors_and_spans() {
    assert_eq!(push_cursor(64, 10, 0, 20), Some(34));
    assert_eq!(push_cursor(64, 60, 0, 1), None);
    assert_eq!(push_cursor(64, 0, 0, usize::MAX), None);
    assert_eq!(pop_cursor(64, 34, 10, 20), Some(34));
    assert_eq!(pop_cursor(64, 34, 10, 21), None);
    assert_eq!(pop_cursor(64, 10, 10, 0), None);
    assert_eq!(pop_cursor(64, 74, 10, usize::MAX), None);
    let s = span(60, 10, 64);
    assert_eq!((s.idx, s.first), (60, 4));
    let s = span(64, 10, 64);
    assert_eq!((s.idx, s.first), (0, 10));
    assert_eq!(next_seq(u32::MAX), 0);
    assert_eq!(next_seq(4), 5);
}

#[test]
fn layout_of_a_formatted_ring() {
    let mut r = temp_ring(64);
    assert!(r.try_push(&[7, 8, 9]));
    let m = &r.seg.mem;
    assert_eq!(&m[0..4], b"RING");
    assert_eq!(&m[4..8], &[64, 0, 0, 0]);
    assert_eq!(&m[64..72], &[7, 0, 0, 0, 0, 0, 0, 0]);
    assert_eq!(&m[128..136], &[0; 8]);
    assert_eq!(&m[192..199], &[3, 0, 0, 0, 7, 8, 9]);
}

#[test]
fn lock_steps() {
    let s = lock::first(lock::FREE);
    assert_eq!(s.word, lock::HELD);
    assert!(s.flag);
    let s = lock::first(lock::HELD);
    assert!(!s.flag);
    let s = lock::again(lock::FREE);
    assert_eq!(s.word, lock::CONTENDED);
    assert!(s.flag);
    let s = lock::again(lock::HELD);
    assert_eq!(s.word, lock::CONTENDED);
    assert!(!s.flag);
    let s = lock::release(lock::CONTENDED);
    assert_eq!(s.word, lock::FREE);
    assert!(s.flag);
    assert!(!lock::release(lock::HELD).flag);
}
