use detguest::host::channel::Channel;
use detguest::host::drain::OwnedPayload;
use detguest::host::guestmem::{read_u32, write_u32, GuestMem, MockGuestMem};
use detguest::host::sink::{RecordingSink, SinkOp, WireError};
use detguest::wire::events::{encode_event, encoded_event_len, Command, EventPayload};
use detguest::wire::header::{ChannelHeader, RingId, CHANNEL_SIZE, OFF_RESERVED};
use detguest::wire::record::RecordHeader;
use detguest::wire::DecodeError;

const BASE: u64 = 0x1000_0000;

fn fresh_mem() -> MockGuestMem {
    let mut gm = MockGuestMem::with_zeroed(BASE, CHANNEL_SIZE);
    let mut hdr = [0u8; OFF_RESERVED];
    ChannelHeader::canonical().write_to(&mut hdr).unwrap();
    gm.write(BASE, &hdr).unwrap();
    gm
}

fn write_guest_events(gm: &mut MockGuestMem, ring: RingId, events: &[EventPayload]) {
    let desc = ring.canonical_desc();
    let mut off = 0u32;
    for (seq, ev) in events.iter().enumerate() {
        let mut buf = [0u8; 4096];
        let n = encode_event(&mut buf, seq as u32, 1, 0, ev).unwrap();
        assert_eq!(n, encoded_event_len(ev));
        gm.write(BASE + desc.offset as u64 + off as u64, &buf[..n]).unwrap();
        off += n as u32;
    }
    write_u32(gm, BASE + ring.prod_offset() as u64, off).unwrap();
}

#[test]
fn recording_sink_captures_ring_push_and_consumer_bump() {
    let mut ch = Channel::attach(fresh_mem(), BASE).unwrap();
    let mut sink = RecordingSink::default();
    ch.push_command(&Command::SetLogMask { mask: 0x3 }, &mut sink).unwrap();
    // The guest writes one Hello onto ring A.
    let seqs = ch.producer_seqs();
    let mut gm = ch.into_guest_mem();
    let mut rec = [0u8; 64];
    let n = encode_event(
        &mut rec,
        0,
        11,
        0,
        &EventPayload::Hello { proto_version: 1, agent_version: 0x100, capabilities: 0 },
    )
    .unwrap();
    gm.write(BASE + RingId::A.canonical_desc().offset as u64, &rec[..n]).unwrap();
    write_u32(&mut gm, BASE + RingId::A.prod_offset() as u64, n as u32).unwrap();
    let mut ch = Channel::attach(gm, BASE).unwrap();
    ch.restore_producer_seqs(seqs);

    let events = ch.drain_events(&mut sink).unwrap();
    assert_eq!(events.len(), 1);
    assert!(matches!(sink.ops.first(), Some(SinkOp::RingPush { ring: RingId::C, .. })));
    assert!(
        sink.ops.iter().any(|op| matches!(
            op,
            SinkOp::ConsBump { ring: RingId::A, new_cons } if *new_cons == n as u32
        )),
        "draining ring A must log the consumer bump"
    );
}

#[test]
fn drain_folds_interns_and_pending_injects_and_skips_unknown_kinds() {
    let mut gm = fresh_mem();
    write_guest_events(
        &mut gm,
        RingId::W,
        &[
            EventPayload::NameIntern { name_id: 1, name: b"io_read" },
            EventPayload::InjectQuery { iseq: 4, name_id: 1 },
            EventPayload::FrameMark { frame_index: 9 },
        ],
    );
    // Append an unknown-kind record after the three events.
    let desc = RingId::W.canonical_desc();
    let prod = read_u32(&gm, BASE + RingId::W.prod_offset() as u64).unwrap();
    let mut unk = [0u8; 24];
    RecordHeader { len: 24, kind: 99, flags: 0, seq: 3, vnanos: 0 }.write_to(&mut unk).unwrap();
    gm.write(BASE + desc.offset as u64 + prod as u64, &unk).unwrap();
    write_u32(&mut gm, BASE + RingId::W.prod_offset() as u64, prod + 24).unwrap();
    let mut ch = Channel::attach(gm, BASE).unwrap();
    let mut sink = RecordingSink::default();
    let events = ch.drain_events(&mut sink).unwrap();
    assert_eq!(events.len(), 3);
    assert_eq!(events[0].ring, RingId::W);
    assert_eq!(events[0].payload, OwnedPayload::NameIntern { name_id: 1, name: b"io_read".to_vec(), reachable_decl: false });
    assert_eq!(events[2].payload, OwnedPayload::FrameMark { frame_index: 9 });
    assert_eq!(events[2].seq, 2);
    assert_eq!(ch.unknown_kind_records, 1);
    assert_eq!(ch.intern_name(1), Some("io_read"));
    assert_eq!(sink.ops, vec![SinkOp::ConsBump { ring: RingId::W, new_cons: prod + 24 }]);
    // Nothing new: a second drain reports nothing.
    let again = ch.drain_events(&mut sink).unwrap();
    assert!(again.is_empty());
    assert_eq!(sink.ops.len(), 1);
}

#[test]
fn drain_reports_corrupt_indices_and_bad_lengths() {
    let mut gm = fresh_mem();
    write_u32(&mut gm, BASE + RingId::A.prod_offset() as u64, 0x2_0000).unwrap();
    let mut ch = Channel::attach(gm, BASE).unwrap();
    let mut sink = RecordingSink::default();
    assert_eq!(ch.drain_events(&mut sink), Err(WireError::CorruptIndices { ring: RingId::A }));
    assert!(sink.ops.is_empty());

    let mut gm = fresh_mem();
    let mut bad = [0u8; 16];
    bad[0] = 20; // len 20: not a multiple of 8
    bad[2] = 1;
    gm.write(BASE + RingId::A.canonical_desc().offset as u64, &bad).unwrap();
    write_u32(&mut gm, BASE + RingId::A.prod_offset() as u64, 24).unwrap();
    let mut ch = Channel::attach(gm, BASE).unwrap();
    assert_eq!(ch.drain_events(&mut sink), Err(WireError::Decode(DecodeError::BadLen)));
}

#[test]
fn partial_record_stops_the_drain_cleanly() {
    let mut gm = fresh_mem();
    write_guest_events(&mut gm, RingId::A, &[EventPayload::FrameMark { frame_index: 1 }]);
    // Publish only 16 of the 24 bytes.
    write_u32(&mut gm, BASE + RingId::A.prod_offset() as u64, 16).unwrap();
    let mut ch = Channel::attach(gm, BASE).unwrap();
    let mut sink = RecordingSink::default();
    assert!(ch.drain_events(&mut sink).unwrap().is_empty());
    assert!(sink.ops.is_empty());
}

#[test]
fn rebinding_an_intern_id_to_another_name_is_counted_and_first_wins() {
    let mut gm = fresh_mem();
    write_guest_events(
        &mut gm,
        RingId::W,
        &[
            EventPayload::NameIntern { name_id: 7, name: b"a" },
            EventPayload::NameIntern { name_id: 7, name: b"a" },
            EventPayload::NameIntern { name_id: 7, name: b"b" },
        ],
    );
    let mut ch = Channel::attach(gm, BASE).unwrap();
    let mut sink = RecordingSink::default();
    let k = ch.intern_redefinitions;
    assert!(ch.drain_events(&mut sink).is_ok());
    assert_eq!(ch.intern_name(7), Some("a"));
    // The same name again is no redefinition; a different one is.
    assert_eq!(ch.intern_redefinitions, k + 1);
}
