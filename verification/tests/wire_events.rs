use detguest::wire::events::log_stream;
use detguest::wire::events::{
    decode_command, decode_event, decode_workload_ctrl, encode_command, encode_event,
    encode_workload_ctrl, encoded_event_len, pack_agent_version, Command, EventPayload,
    QuiesceMode, RegionEvent, ShutdownMode, WorkloadCtrl, CAP_FORCED_QUIESCE,
    CAP_REVERIFY_REGIONS, MAX_DETAILS, MAX_LOG_MSG, MAX_NAME,
};
use detguest::wire::record::{
    RecordHeader, FLAG_REACHABLE_DECL, FLAG_TRUNCATED, MAX_RECORD_LEN, RECORD_HEADER_LEN,
};
use detguest::wire::{DecodeError, EncodeError};

fn round_trip(ev: EventPayload<'_>) {
    let mut buf = [0u8; MAX_RECORD_LEN];
    let n = encode_event(&mut buf, 5, 1234, 0, &ev).unwrap();
    assert_eq!(n, encoded_event_len(&ev));
    assert_eq!(n % 8, 0);
    let (hdr, back) = decode_event(&buf[..n]).unwrap();
    assert_eq!(hdr.len as usize, n);
    assert_eq!(hdr.seq, 5);
    assert_eq!(back, ev);
}

#[test]
fn all_event_kinds_round_trip() {
    round_trip(EventPayload::Hello {
        proto_version: 1,
        agent_version: pack_agent_version(0, 1, 0),
        capabilities: CAP_FORCED_QUIESCE | CAP_REVERIFY_REGIONS,
    });
    round_trip(EventPayload::NameIntern { name_id: 1, name: b"hp_within_max" });
    round_trip(EventPayload::AssertViolation {
        name_id: 1,
        violation_count: 3,
        details: b"hp=120 max=100",
    });
    round_trip(EventPayload::Reachable { name_id: 9 });
    round_trip(EventPayload::Beacon { beacon_id: 0xFFFF });
    round_trip(EventPayload::InjectQuery { iseq: 0, name_id: 2 });
    round_trip(EventPayload::RegionRegister(RegionEvent {
        region_id: 0,
        name_id: 4,
        layout_version: 1,
        manifest_generation: 2,
    }));
    round_trip(EventPayload::RegionUpdate(RegionEvent {
        region_id: 1,
        name_id: 5,
        layout_version: 2,
        manifest_generation: 4,
    }));
    round_trip(EventPayload::WorkloadStarted { guest_pid: 2, unit: 0 });
    round_trip(EventPayload::WorkloadExited { guest_pid: 2, exit_code: -1, term_signal: 9 });
    round_trip(EventPayload::LogLine { stream: log_stream::STDOUT, level: 2, msg: b"hi" });
    round_trip(EventPayload::QuiesceReady { token: u64::MAX });
    round_trip(EventPayload::FrameMark { frame_index: 60 });
    round_trip(EventPayload::Ready { unit: 0xFFFF_FFFF, region_count: 0, manifest_generation: 2 });
}

#[test]
fn commands_round_trip() {
    let cases = [
        Command::StartWorkload { unit: 0, log_mask: 0x1F },
        Command::Quiesce { token: 7, mode: QuiesceMode::Coop },
        Command::Quiesce { token: 7, mode: QuiesceMode::Forced },
        Command::Resume { token: 7 },
        Command::Shutdown { mode: ShutdownMode::Graceful },
        Command::Shutdown { mode: ShutdownMode::Immediate },
        Command::SetLogMask { mask: 3 },
        Command::ReverifyRegions,
    ];
    let mut buf = [0u8; 64];
    for c in cases {
        let n = encode_command(&mut buf, 1, &c).unwrap();
        let (hdr, back) = decode_command(&buf[..n]).unwrap();
        assert_eq!(hdr.vnanos, 0, "host records carry vnanos 0");
        assert_eq!(back, c);
    }
}

#[test]
fn workload_ctrl_round_trips() {
    let mut buf = [0u8; 32];
    for rec in [WorkloadCtrl::QuiesceReq { token: 1 }, WorkloadCtrl::Resume { token: 1 }] {
        let n = encode_workload_ctrl(&mut buf, 0, 50, &rec).unwrap();
        let (_, back) = decode_workload_ctrl(&buf[..n]).unwrap();
        assert_eq!(back, rec);
    }
}

#[test]
fn long_details_clip_and_set_truncated() {
    let details = [b'x'; MAX_DETAILS + 100];
    let mut buf = [0u8; MAX_RECORD_LEN];
    let n = encode_event(
        &mut buf,
        0,
        0,
        0,
        &EventPayload::AssertViolation { name_id: 1, violation_count: 1, details: &details },
    )
    .unwrap();
    let (hdr, ev) = decode_event(&buf[..n]).unwrap();
    assert!(hdr.flags & FLAG_TRUNCATED != 0);
    match ev {
        EventPayload::AssertViolation { details, .. } => assert_eq!(details.len(), MAX_DETAILS),
        _ => panic!("wrong kind"),
    }
}

#[test]
fn long_log_msg_clips_and_max_size_fits() {
    let msg = [b'm'; MAX_LOG_MSG + 1];
    let mut buf = [0u8; MAX_RECORD_LEN];
    let n = encode_event(&mut buf, 0, 0, 0, &EventPayload::LogLine { stream: 4, level: 0, msg: &msg })
        .unwrap();
    assert!(n <= MAX_RECORD_LEN);
    let (hdr, ev) = decode_event(&buf[..n]).unwrap();
    assert!(hdr.flags & FLAG_TRUNCATED != 0);
    match ev {
        EventPayload::LogLine { msg, .. } => assert_eq!(msg.len(), MAX_LOG_MSG),
        _ => panic!("wrong kind"),
    }
}

#[test]
fn over_long_name_is_a_hard_error() {
    let name = [b'n'; MAX_NAME + 1];
    let mut buf = [0u8; MAX_RECORD_LEN];
    assert_eq!(
        encode_event(&mut buf, 0, 0, 0, &EventPayload::NameIntern { name_id: 1, name: &name }),
        Err(EncodeError::FieldTooLong)
    );
}

#[test]
fn reachable_decl_flag_passes_through() {
    let mut buf = [0u8; 64];
    let n = encode_event(
        &mut buf,
        0,
        0,
        FLAG_REACHABLE_DECL,
        &EventPayload::NameIntern { name_id: 2, name: b"goal" },
    )
    .unwrap();
    let (hdr, _) = decode_event(&buf[..n]).unwrap();
    assert!(hdr.flags & FLAG_REACHABLE_DECL != 0);
}

#[test]
fn unknown_kind_reports_but_frames() {
    let mut buf = [0u8; 24];
    RecordHeader { len: 24, kind: 200, flags: 0, seq: 0, vnanos: 0 }.write_to(&mut buf).unwrap();
    assert_eq!(decode_event(&buf), Err(DecodeError::UnknownKind(200)));
    assert_eq!(RecordHeader::read_from(&buf).unwrap().len, 24);
}

#[test]
fn decoder_never_reads_past_declared_lengths() {
    let mut buf = [0u8; 32];
    let n = encode_event(&mut buf, 0, 0, 0, &EventPayload::NameIntern { name_id: 1, name: b"abc" })
        .unwrap();
    buf[RECORD_HEADER_LEN + 4] = 255;
    assert_eq!(decode_event(&buf[..n]), Err(DecodeError::BadField));
}

#[test]
fn small_buffers_are_refused_untouched() {
    let mut buf = [7u8; 20];
    assert_eq!(
        encode_event(&mut buf, 0, 0, 0, &EventPayload::FrameMark { frame_index: 1 }),
        Err(EncodeError::BufferTooSmall)
    );
    assert_eq!(buf, [7u8; 20]);
    assert_eq!(
        encode_command(&mut buf, 0, &Command::Resume { token: 1 }),
        Err(EncodeError::BufferTooSmall)
    );
    assert_eq!(
        encode_workload_ctrl(&mut buf, 0, 0, &WorkloadCtrl::Resume { token: 1 }),
        Err(EncodeError::BufferTooSmall)
    );
    assert_eq!(buf, [7u8; 20]);
}

#[test]
fn short_payloads_and_bad_modes_are_typed_errors() {
    // A Hello framed with only 8 payload bytes.
    let mut buf = [0u8; 24];
    RecordHeader { len: 24, kind: 1, flags: 0, seq: 0, vnanos: 0 }.write_to(&mut buf).unwrap();
    assert_eq!(decode_event(&buf), Err(DecodeError::BadLen));
    // A Quiesce command with mode 2.
    let mut buf = [0u8; 32];
    let n = encode_command(&mut buf, 0, &Command::Quiesce { token: 1, mode: QuiesceMode::Forced })
        .unwrap();
    buf[RECORD_HEADER_LEN + 8] = 2;
    assert_eq!(decode_command(&buf[..n]), Err(DecodeError::BadField));
    // Command kind 7 is unknown; ring I kind 1 is reserved.
    let mut buf = [0u8; 24];
    RecordHeader { len: 24, kind: 7, flags: 0, seq: 0, vnanos: 0 }.write_to(&mut buf).unwrap();
    assert_eq!(decode_command(&buf), Err(DecodeError::UnknownKind(7)));
    RecordHeader { len: 24, kind: 1, flags: 0, seq: 0, vnanos: 0 }.write_to(&mut buf).unwrap();
    assert_eq!(decode_workload_ctrl(&buf), Err(DecodeError::UnknownKind(1)));
}

#[test]
fn encoded_len_matches_clipping_and_version_packs() {
    let long = [b'x'; 2000];
    assert_eq!(encoded_event_len(&EventPayload::Pad), 16);
    assert_eq!(encoded_event_len(&EventPayload::FrameMark { frame_index: 0 }), 24);
    assert_eq!(
        encoded_event_len(&EventPayload::LogLine { stream: 1, level: 0, msg: &long }),
        16 + 8 + MAX_LOG_MSG
    );
    assert_eq!(
        encoded_event_len(&EventPayload::AssertViolation { name_id: 1, violation_count: 1, details: &long }),
        16 + 16 + MAX_DETAILS
    );
    assert_eq!(pack_agent_version(1, 2, 3), 0x0001_0203);
}
