use detguest::wire::events::{decode_event, EventPayload};
use detguest::wire::record::{encode_pad, pad8, record_len, EventKind, RecordHeader, WorkloadCtrlKind};
use detguest::wire::DecodeError;

#[test]
fn header_round_trip() {
    let h = RecordHeader { len: 32, kind: 3, flags: 1, seq: 7, vnanos: 99 };
    let mut buf = [0u8; 32];
    h.write_to(&mut buf).unwrap();
    assert_eq!(RecordHeader::read_from(&buf).unwrap(), h);
}

#[test]
fn eight_byte_pad_round_trip() {
    let mut buf = [0xAAu8; 8];
    encode_pad(&mut buf, 8, 41).unwrap();
    let h = RecordHeader::read_from(&buf).unwrap();
    assert_eq!(h.len, 8);
    assert_eq!(h.kind, EventKind::Pad as u8);
    assert_eq!(h.seq, 41);
    assert_eq!(h.vnanos, 0);
}

#[test]
fn framing_rules_enforced() {
    let mut buf = [0u8; 32];
    RecordHeader { len: 20, kind: 1, flags: 0, seq: 0, vnanos: 0 }.write_to(&mut buf).unwrap();
    assert_eq!(RecordHeader::read_from(&buf), Err(DecodeError::BadLen));
    RecordHeader { len: 8, kind: 1, flags: 0, seq: 0, vnanos: 0 }.write_to(&mut buf).unwrap();
    assert_eq!(RecordHeader::read_from(&buf), Err(DecodeError::BadLen));
    RecordHeader { len: 64, kind: 1, flags: 0, seq: 0, vnanos: 0 }.write_to(&mut buf).unwrap();
    assert_eq!(RecordHeader::read_from(&buf[..32]), Err(DecodeError::Truncated));
    let mut big = [0u8; 8192];
    RecordHeader { len: 4104, kind: 1, flags: 0, seq: 0, vnanos: 0 }.write_to(&mut big).unwrap();
    assert_eq!(RecordHeader::read_from(&big), Err(DecodeError::BadLen));
}

#[test]
fn criticality_classes_match_spec() {
    for k in [
        EventKind::Hello,
        EventKind::NameIntern,
        EventKind::AssertViolation,
        EventKind::Reachable,
        EventKind::InjectQuery,
        EventKind::RegionRegister,
        EventKind::RegionUpdate,
        EventKind::WorkloadStarted,
        EventKind::WorkloadExited,
        EventKind::QuiesceReady,
        EventKind::FrameMark,
        EventKind::Ready,
    ] {
        assert!(k.is_critical(), "{k:?} must be critical");
    }
    for k in [EventKind::Pad, EventKind::Beacon, EventKind::LogLine] {
        assert!(!k.is_critical(), "{k:?} must be droppable");
    }
}

#[test]
fn ring_i_kind_one_stays_reserved() {
    assert_eq!(WorkloadCtrlKind::from_u8(1), None);
}

#[test]
fn eight_byte_pad_decodes_as_event_without_panicking() {
    let bytes = [0x08, 0x00, 0x00, 0x00, 0x00, 0x00, 0xFC, 0x0A];
    let hdr = RecordHeader::read_from(&bytes).unwrap();
    assert_eq!(hdr.payload_range(), 8..8);
    let (hdr, ev) = decode_event(&bytes).unwrap();
    assert_eq!(hdr.len, 8);
    assert_eq!(ev, EventPayload::Pad);
}

#[test]
fn pad8_and_record_len_round_up() {
    assert_eq!(pad8(0), 0);
    assert_eq!(pad8(1), 8);
    assert_eq!(pad8(8), 8);
    assert_eq!(pad8(9), 16);
    assert_eq!(record_len(0), 16);
    assert_eq!(record_len(13), 32);
}

#[test]
fn kind_bytes_round_trip() {
    for v in 0u8..=14 {
        assert_eq!(EventKind::from_u8(v).unwrap().to_u8(), v);
    }
    assert_eq!(EventKind::from_u8(15), None);
    assert_eq!(WorkloadCtrlKind::from_u8(2).unwrap().to_u8(), 2);
    assert_eq!(WorkloadCtrlKind::from_u8(3).unwrap().to_u8(), 3);
}

#[test]
fn header_write_refuses_short_buffer() {
    let mut buf = [0u8; 10];
    let h = RecordHeader { len: 32, kind: 3, flags: 0, seq: 0, vnanos: 0 };
    assert!(h.write_to(&mut buf).is_err());
    assert_eq!(buf, [0u8; 10]);
    assert_eq!(RecordHeader::read_from(&buf[..7]), Err(DecodeError::Truncated));
}
