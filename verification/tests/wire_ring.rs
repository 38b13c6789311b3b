use detguest::wire::ring::{bytes_needed, contiguous_tail, free, used};

#[test]
fn index_math_boundaries() {
    let size = 1u32 << 12;
    assert_eq!(free(0, 0, size), size);
    assert_eq!(used(0, 0), 0);
    assert_eq!(free(size, 0, size), 0);
    assert_eq!(used(size, 0), size);
    assert_eq!(used(4, u32::MAX - 3), 8);
    assert_eq!(free(4, u32::MAX - 3, size), size - 8);
    assert_eq!(free(0, 1, size), 0);
    assert_eq!(contiguous_tail(0, size), size);
    assert_eq!(contiguous_tail(size - 8, size), 8);
    assert_eq!(contiguous_tail(size.wrapping_mul(3) - 8, size), 8);
    assert_eq!(bytes_needed(size - 16, size, 16), 16);
    assert_eq!(bytes_needed(size - 8, size, 16), 8 + 16);
    assert_eq!(bytes_needed(0, size, 16), 16);
}

use detguest::wire::events::{decode_event, EventPayload};
use detguest::wire::record::{EventKind, RecordHeader, MAX_RECORD_LEN};
use detguest::wire::ring::{emit_step, Consumer, EmitStep, Producer, RingFull};
use detguest::wire::DecodeError;

/// A ring held in test memory: the data area, both halves, and the two
/// shared index cells each half publishes to.
struct TestRing {
    data: Vec<u8>,
    producer: Producer,
    consumer: Consumer,
    prod_cell: u32,
    cons_cell: u32,
}

impl TestRing {
    fn new(size: usize) -> TestRing {
        TestRing::at(size, 0)
    }

    fn at(size: usize, index: u32) -> TestRing {
        TestRing {
            data: vec![0u8; size],
            producer: Producer::new(size as u32, index, 0),
            consumer: Consumer::new(size as u32, index),
            prod_cell: index,
            cons_cell: index,
        }
    }

    fn push(&mut self, ev: &EventPayload<'_>) -> Result<u32, RingFull> {
        let seq = self.producer.try_push(&mut self.data, self.cons_cell, 7, 0, ev)?;
        self.prod_cell = self.producer.prod();
        Ok(seq)
    }

    fn pop(&mut self, scratch: &mut [u8]) -> Result<Option<usize>, DecodeError> {
        let r = self.consumer.pop_into(&self.data, self.prod_cell, scratch)?;
        self.cons_cell = self.consumer.cons();
        Ok(r)
    }
}

fn push_frame_mark(r: &mut TestRing, frame_index: u32) -> Result<u32, RingFull> {
    r.push(&EventPayload::FrameMark { frame_index })
}

#[test]
fn push_pop_round_trip() {
    let mut r = TestRing::new(4096);
    for i in 0..10 {
        push_frame_mark(&mut r, i).unwrap();
    }
    let mut scratch = [0u8; MAX_RECORD_LEN];
    for i in 0..10 {
        let n = r.pop(&mut scratch).unwrap().unwrap();
        let (hdr, ev) = decode_event(&scratch[..n]).unwrap();
        assert_eq!(hdr.seq, i);
        assert_eq!(ev, EventPayload::FrameMark { frame_index: i });
    }
    assert_eq!(r.pop(&mut scratch).unwrap(), None);
}

#[test]
fn wrap_inserts_pad_and_seq_stays_monotonic() {
    let mut r = TestRing::new(4096);
    let mut scratch = [0u8; MAX_RECORD_LEN];
    let mut expected_seq = 0u32;
    let mut popped_frames = 0u32;
    let mut pushed_frames = 0u32;
    for _ in 0..1000 {
        while push_frame_mark(&mut r, pushed_frames).is_ok() {
            pushed_frames += 1;
        }
        while let Some(n) = r.pop(&mut scratch).unwrap() {
            let hdr = RecordHeader::read_from(&scratch[..n]).unwrap();
            assert_eq!(hdr.seq, expected_seq, "seq gap — pads must consume seqs");
            expected_seq = expected_seq.wrapping_add(1);
            if hdr.kind == EventKind::Pad as u8 {
                continue;
            }
            let (_, ev) = decode_event(&scratch[..n]).unwrap();
            assert_eq!(ev, EventPayload::FrameMark { frame_index: popped_frames });
            popped_frames += 1;
        }
    }
    assert_eq!(popped_frames, pushed_frames);
    assert!(expected_seq > pushed_frames, "at least one pad must have occurred");
}

#[test]
fn full_ring_reports_ring_full_and_drains_clean() {
    let mut r = TestRing::new(4096);
    let mut pushed = 0;
    while push_frame_mark(&mut r, pushed).is_ok() {
        pushed += 1;
    }
    let before = r.data.clone();
    assert!(push_frame_mark(&mut r, 999).is_err());
    assert_eq!(r.data, before, "a refused push writes nothing");
    let mut scratch = [0u8; MAX_RECORD_LEN];
    r.pop(&mut scratch).unwrap().unwrap();
    let mut ok = false;
    for _ in 0..4 {
        if push_frame_mark(&mut r, 999).is_ok() {
            ok = true;
            break;
        }
        r.pop(&mut scratch).unwrap().unwrap();
    }
    assert!(ok);
}

#[test]
fn free_running_indices_survive_u32_wrap() {
    let start = u32::MAX - 4096;
    let aligned = start & !((1 << 12) - 1);
    let mut r = TestRing::at(1 << 12, aligned);
    let mut scratch = [0u8; MAX_RECORD_LEN];
    for i in 0..500 {
        while push_frame_mark(&mut r, i).is_err() {
            r.pop(&mut scratch).unwrap().unwrap();
        }
    }
    assert!(r.producer.prod() < aligned);
}

#[test]
fn pop_rejects_corrupt_framing_without_consuming() {
    let mut r = TestRing::new(4096);
    push_frame_mark(&mut r, 1).unwrap();
    r.data[0] = 12; // length not a multiple of 8
    let mut scratch = [0u8; MAX_RECORD_LEN];
    assert_eq!(r.pop(&mut scratch), Err(DecodeError::BadLen));
    assert_eq!(r.consumer.cons(), 0);
    r.data[0] = 32; // longer than what was published
    assert_eq!(r.pop(&mut scratch), Err(DecodeError::Truncated));
    let mut small = [0u8; 4];
    assert_eq!(r.pop(&mut small), Err(DecodeError::Truncated));
}

#[test]
fn free_and_used_bytes_track_the_indices() {
    let mut r = TestRing::new(4096);
    assert_eq!(r.producer.free_bytes(r.cons_cell), 4096);
    push_frame_mark(&mut r, 1).unwrap();
    assert_eq!(r.producer.free_bytes(r.cons_cell), 4096 - 24);
    assert_eq!(r.consumer.used_bytes(r.prod_cell), 24);
    assert_eq!(r.producer.next_seq(), 1);
    assert_eq!(r.producer.size(), 4096);
}

#[test]
fn over_long_intern_name_is_refused_without_consuming_anything() {
    let mut r = TestRing::new(4096);
    push_frame_mark(&mut r, 1).unwrap();
    let seq_before = r.producer.next_seq();
    let prod_before = r.producer.prod();
    let data_before = r.data.clone();
    let long = vec![b'n'; detguest::wire::events::MAX_NAME + 1];
    assert_eq!(r.push(&EventPayload::NameIntern { name_id: 3, name: &long }), Err(RingFull));
    assert_eq!(r.producer.next_seq(), seq_before);
    assert_eq!(r.producer.prod(), prod_before);
    assert_eq!(r.data, data_before);
    // A name at the limit still goes through, with the next seq.
    let ok = vec![b'n'; detguest::wire::events::MAX_NAME];
    assert_eq!(r.push(&EventPayload::NameIntern { name_id: 3, name: &ok }), Ok(seq_before));
}

#[test]
fn emit_step_follows_the_flow_control_policy() {
    assert_eq!(emit_step(Ok(4), true), EmitStep::Landed);
    assert_eq!(emit_step(Ok(4), false), EmitStep::Landed);
    assert_eq!(emit_step(Err(RingFull), true), EmitStep::DoorbellAndRetry);
    assert_eq!(emit_step(Err(RingFull), false), EmitStep::Drop);
}
