use detguest::agent::boot::ExpectedRegion;
use detguest::agent::ready::{expected_region_evidence, ready_manifest, ReadyManifest};
use detguest::agent::relay::plan_relay;
use detguest::sdk::attach::{
    header_error_text, parse_channel_fd, read_and_validate_header, ChannelFdError,
};
use detguest::sdk::InitError;
use detguest::wire::events::{decode_workload_ctrl, WorkloadCtrl};
use detguest::wire::header::{ChannelHeader, OFF_RESERVED, PROTO_VERSION};
use detguest::wire::manifest::{
    init_manifest, ManifestHeader, RegionEntry, MANIFEST_TOTAL_SIZE, REGION_FLAG_DEAD,
};
use detguest::wire::record::RecordHeader;
use detguest::wire::DecodeError;

fn entry(slot: u32, name: &[u8], layout_version: u32, flags: u32) -> RegionEntry {
    RegionEntry {
        region_id: slot,
        name_id: 100 + slot,
        layout_version,
        flags,
        gva: 0,
        len: 4096,
        extent_off: 0,
        extent_n: 0,
        name: RegionEntry::pack_name(name).unwrap(),
    }
}

/// A manifest with `wram`@1 live in slot 0 and `vram`@2 dead in slot 1.
fn manifest(generation: u64) -> Vec<u8> {
    let mut m = vec![0u8; MANIFEST_TOTAL_SIZE];
    init_manifest(&mut m).unwrap();
    entry(0, b"wram", 1, 0).write_to(&mut m, 0).unwrap();
    entry(1, b"vram", 2, REGION_FLAG_DEAD).write_to(&mut m, 1).unwrap();
    let mut h = ManifestHeader::read_from(&m).unwrap();
    h.region_count = 2;
    h.generation = generation;
    h.write_to(&mut m).unwrap();
    m
}

fn expect(name: &str, layout_version: u32) -> ExpectedRegion {
    ExpectedRegion { name: name.to_string(), layout_version }
}

#[test]
fn ready_snapshot_reports_count_and_generation() {
    let m = manifest(6);
    assert_eq!(
        ready_manifest(&m).unwrap(),
        ReadyManifest { region_count: 2, manifest_generation: 6 }
    );
}

#[test]
fn ready_snapshot_names_decode_and_validation_faults() {
    assert_eq!(
        ready_manifest(&[0u8; 8]).unwrap_err(),
        "decode manifest before Ready: Truncated"
    );
    assert_eq!(
        ready_manifest(&vec![0u8; MANIFEST_TOTAL_SIZE]).unwrap_err(),
        "validate manifest before Ready: BadMagic"
    );
}

#[test]
fn live_region_at_pinned_version_gives_evidence() {
    let m = manifest(4);
    let (snap, ev) = expected_region_evidence(&m, &[expect("wram", 1)]).unwrap();
    assert_eq!(snap, ReadyManifest { region_count: 2, manifest_generation: 4 });
    assert_eq!(ev.len(), 1);
    assert_eq!(ev[0].region_id, 0);
    assert_eq!(ev[0].name_id, 100);
    assert_eq!(ev[0].name, b"wram".to_vec());
    assert_eq!(ev[0].layout_version, 1);
    assert_eq!(ev[0].manifest_generation, 4);
}

#[test]
fn dead_and_mismatched_regions_are_named_pending_in_order() {
    let m = manifest(4);
    let err = expected_region_evidence(
        &m,
        &[expect("vram", 2), expect("wram", 1), expect("wram", 3), expect("oam", 1)],
    )
    .unwrap_err();
    assert_eq!(
        err,
        "expected_regions pending before Ready: vram@2, wram@3, oam@1"
    );
}

#[test]
fn no_expected_regions_opens_the_gate() {
    let m = manifest(2);
    let (snap, ev) = expected_region_evidence(&m, &[]).unwrap();
    assert_eq!(snap.region_count, 2);
    assert!(ev.is_empty());
}

#[test]
fn generation_beyond_register_payload_is_a_fault() {
    let m = manifest(1 << 33);
    assert_eq!(
        expected_region_evidence(&m, &[expect("wram", 1)]).unwrap_err(),
        "manifest generation 8589934592 exceeds RegionRegister payload"
    );
}

#[test]
fn channel_fd_parses_decimal_i32() {
    assert_eq!(parse_channel_fd(b"7"), Ok(7));
    assert_eq!(parse_channel_fd(b"-3"), Ok(-3));
    assert_eq!(parse_channel_fd(b"2147483648"), Err(ChannelFdError::NotInteger));
    assert_eq!(parse_channel_fd(b"x"), Err(ChannelFdError::NotInteger));
    assert_eq!(parse_channel_fd(b""), Err(ChannelFdError::NotInteger));
    assert_eq!(parse_channel_fd(&[0xff, 0x31]), Err(ChannelFdError::NotUtf8));
}

fn header_bytes(h: &ChannelHeader) -> Vec<u8> {
    let mut b = vec![0u8; OFF_RESERVED];
    h.write_to(&mut b).unwrap();
    b
}

#[test]
fn attach_header_checks_magic_then_version_then_layout() {
    let canonical = ChannelHeader::canonical();
    assert_eq!(read_and_validate_header(&header_bytes(&canonical)).unwrap(), canonical);

    let mut bad_magic = canonical;
    bad_magic.magic = 0x1234;
    bad_magic.proto_version = 99;
    match read_and_validate_header(&header_bytes(&bad_magic)) {
        Err(InitError::BadChannelHeader { found_magic }) => assert_eq!(found_magic, 0x1234),
        other => panic!("unexpected {other:?}"),
    }

    let mut bad_version = canonical;
    bad_version.proto_version = 99;
    match read_and_validate_header(&header_bytes(&bad_version)) {
        Err(InitError::ProtocolVersionMismatch { guest, channel }) => {
            assert_eq!(guest, PROTO_VERSION);
            assert_eq!(channel, 99);
        }
        other => panic!("unexpected {other:?}"),
    }

    let mut bad_layout = canonical;
    bad_layout.ring_desc[1] = bad_layout.ring_desc[0];
    match read_and_validate_header(&header_bytes(&bad_layout)) {
        Err(InitError::AgentSocket(e)) => {
            assert_eq!(e.kind(), std::io::ErrorKind::InvalidData);
            assert_eq!(e.to_string(), "invalid detguest channel header: BadField");
        }
        other => panic!("unexpected {other:?}"),
    }

    match read_and_validate_header(&[0u8; 4]) {
        Err(InitError::AgentSocket(e)) => {
            assert_eq!(e.to_string(), "invalid detguest channel header: Truncated")
        }
        other => panic!("unexpected {other:?}"),
    }
}

#[test]
fn header_error_text_renders_debug() {
    assert_eq!(
        header_error_text(DecodeError::UnknownKind(5)),
        "invalid detguest channel header: UnknownKind(5)"
    );
}

#[test]
fn relay_without_wrap_writes_one_record() {
    let rec = WorkloadCtrl::QuiesceReq { token: 9 };
    let plan = plan_relay(48, 0, 77, &rec).unwrap();
    assert!(plan.pad.is_none());
    assert_eq!(plan.record.offset, 48);
    assert_eq!(plan.new_prod, 72);
    let (hdr, back) = decode_workload_ctrl(&plan.record.bytes).unwrap();
    assert_eq!(back, rec);
    assert_eq!(hdr.seq, 6);
    assert_eq!(hdr.vnanos, 77);
}

#[test]
fn relay_at_ring_end_pads_the_tail_with_position_seqs() {
    let rec = WorkloadCtrl::Resume { token: 3 };
    let prod = 0x4000 - 8;
    let plan = plan_relay(prod, prod, 5, &rec).unwrap();
    let pad = plan.pad.expect("tail pad");
    assert_eq!(pad.offset, 0x3ff8);
    assert_eq!(pad.bytes.len(), 8);
    let pad_hdr = RecordHeader::read_from(&pad.bytes).unwrap();
    assert_eq!(pad_hdr.kind, 0);
    assert_eq!(pad_hdr.seq, prod >> 3);
    assert_eq!(plan.record.offset, 0);
    let (hdr, back) = decode_workload_ctrl(&plan.record.bytes).unwrap();
    assert_eq!(back, rec);
    assert_eq!(hdr.seq, 0x800);
    assert_eq!(plan.new_prod, prod + 32);
}

#[test]
fn relay_on_full_ring_is_refused() {
    let rec = WorkloadCtrl::QuiesceReq { token: 1 };
    assert!(plan_relay(0x4000, 0, 0, &rec).is_err());
    assert!(plan_relay(0x4000 - 16, 0, 0, &rec).is_err());
}
