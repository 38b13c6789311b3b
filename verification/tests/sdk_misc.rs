use detguest::sdk::beacons::{BeaconCounters, BeaconHit};
use detguest::sdk::pio::{PioState, PVPAD_FRAME_COUNTER_WORD, PVPAD_PAD0_WORD, PV_PAD_WORDS};
use detguest::sdk::regions::{status_to_error, validate_region, RegionError, RegionFlags, RegionHandle};
use detguest::sdk::stats_region::{
    StatsRegion, NAME_SLOTS, STATS_ALIGN, STATS_OFF_ASSERTIONS, STATS_OFF_ASSERTS_FAILED,
    STATS_OFF_ASSERTS_PASSED, STATS_OFF_BEACON_COUNTS, STATS_OFF_INJECT_QUERIES,
    STATS_OFF_REACHABLE, STATS_OFF_REACHABLE_NAMES, STATS_OFF_VERSION, STATS_REGION_SIZE,
};
use detguest::sdk::{
    assert_always, declare_reachable, expect_reachable, frame_mark, inject_point, log_line,
    poll_input, quiesce_check, stats, valid_name, LogLevel, SdkStats, BEACON_SLOTS,
};
use detguest::wire::ports::FaultDecision;
use detguest::wire::regionipc::{
    STATUS_MANIFEST_FULL, STATUS_NAME_TOO_LONG, STATUS_NOT_PINNED, STATUS_TOO_MANY_EXTENTS,
    STATUS_UNKNOWN_PID,
};

#[test]
fn status_mapping_is_deterministic() {
    assert_eq!(status_to_error(STATUS_MANIFEST_FULL), RegionError::ManifestFull);
    assert_eq!(status_to_error(STATUS_TOO_MANY_EXTENTS), RegionError::TooManyExtents);
    assert_eq!(status_to_error(STATUS_NOT_PINNED), RegionError::NotPinned);
    assert_eq!(status_to_error(STATUS_NAME_TOO_LONG), RegionError::NameTooLong);
    assert_eq!(status_to_error(STATUS_UNKNOWN_PID), RegionError::AgentUnavailable);
}

#[test]
fn beacon_hits_mask_and_report_first_hit_once() {
    let mut beacons = BeaconCounters::default();
    assert_eq!(beacons.hit(0x1_0001), BeaconHit { id: 1, first_hit: true });
    assert_eq!(beacons.hit(1), BeaconHit { id: 1, first_hit: false });
    assert_eq!(beacons.count(1), 2);
}

#[test]
fn beacon_counts_saturate() {
    let mut beacons = BeaconCounters::default();
    beacons.restore_count(3, u32::MAX);
    assert!(beacons.hit(3).first_hit);
    assert_eq!(beacons.count(3), u32::MAX);
}

#[test]
fn standalone_calls_are_noops() {
    assert_eq!(assert_always(true, "ok", &format!("value={}", 1)), None);
    assert_eq!(inject_point("fault.site"), FaultDecision::Proceed);
    assert_eq!(poll_input(0), 0);
    frame_mark();
    quiesce_check();
    log_line(LogLevel::Info, "hello");
    assert_eq!(stats(), SdkStats::default());
}

#[test]
fn standalone_failed_assertion_message() {
    assert_eq!(
        assert_always(false, "inv.x", "value=2"),
        Some("detguest assertion `inv.x` failed: value=2".to_string())
    );
    expect_reachable("here");
    declare_reachable("there");
    assert_eq!(stats().stats_version, 1);
    assert_eq!(LogLevel::Trace.to_u8(), 4);
    assert!(valid_name(&"n".repeat(256)));
    assert!(!valid_name(&"n".repeat(257)));
}

#[test]
fn poll_input_reads_current_latch_value() {
    let mut words = vec![0u32; PV_PAD_WORDS];
    words[PVPAD_PAD0_WORD + 2] = 0xAABB_CCDD;
    let mut pio = PioState::with_pv_pad(words);

    assert_eq!(pio.poll_input(2), 0xAABB_CCDD);

    pio.latch_pv_pad_word(PVPAD_PAD0_WORD + 2, 0x1122_3344);
    assert_eq!(pio.poll_input(2), 0x1122_3344);
    assert_eq!(pio.poll_input(4), 0);
}

#[test]
fn write_frame_counter_updates_latch() {
    let words = vec![0u32; PV_PAD_WORDS];
    let mut pio = PioState::with_pv_pad(words);

    pio.write_frame_counter(17);

    let frame = pio.pv_pad_word(PVPAD_FRAME_COUNTER_WORD).unwrap();
    assert_eq!(frame, 17);
}

#[test]
fn layout_v1_is_byte_pinned() {
    assert_eq!(STATS_ALIGN, 64);
    let region = StatsRegion::new();
    assert_eq!(region.to_bytes().len(), STATS_REGION_SIZE);
    assert_eq!(STATS_OFF_VERSION, 0x00000);
    assert_eq!(STATS_OFF_ASSERTS_PASSED, 0x00008);
    assert_eq!(STATS_OFF_ASSERTS_FAILED, 0x00010);
    assert_eq!(STATS_OFF_REACHABLE_NAMES, 0x00018);
    assert_eq!(STATS_OFF_INJECT_QUERIES, 0x00020);
    assert_eq!(STATS_OFF_BEACON_COUNTS, 0x00040);
    assert_eq!(STATS_OFF_REACHABLE, 0x40040);
    assert_eq!(STATS_OFF_ASSERTIONS, 0x42040);
}

#[test]
fn stats_fields_land_at_their_offsets() {
    let mut r = StatsRegion::new();
    r.asserts_failed_total = 0x0102_0304_0506_0708;
    r.record_beacon(0x1_0005);
    r.record_reachable(9, 3);
    r.record_reachable(9, 4);
    r.record_assert(11, 5, 6);
    let b = r.to_bytes();
    assert_eq!(&b[STATS_OFF_VERSION..STATS_OFF_VERSION + 4], &[1, 0, 0, 0]);
    assert_eq!(
        &b[STATS_OFF_ASSERTS_FAILED..STATS_OFF_ASSERTS_FAILED + 8],
        &[8, 7, 6, 5, 4, 3, 2, 1]
    );
    assert_eq!(&b[STATS_OFF_BEACON_COUNTS + 20..STATS_OFF_BEACON_COUNTS + 24], &[1, 0, 0, 0]);
    assert_eq!(&b[STATS_OFF_REACHABLE..STATS_OFF_REACHABLE + 8], &[9, 0, 0, 0, 4, 0, 0, 0]);
    assert_eq!(&b[STATS_OFF_REACHABLE + 8..STATS_OFF_REACHABLE + 16], &[0; 8]);
    assert_eq!(
        &b[STATS_OFF_ASSERTIONS..STATS_OFF_ASSERTIONS + 16],
        &[11, 0, 0, 0, 5, 0, 0, 0, 6, 0, 0, 0, 0, 0, 0, 0]
    );
    assert_eq!(r.reachable.len(), NAME_SLOTS);
    assert_eq!(r.beacon_counts.len(), BEACON_SLOTS);
}

#[test]
fn region_checks_and_flags() {
    assert_eq!(validate_region("wram", 0x1000, 16), Ok(()));
    assert_eq!(validate_region("wram", 0, 16), Err(RegionError::NotPinned));
    assert_eq!(validate_region("wram", 0x1000, 0), Err(RegionError::NotPinned));
    assert_eq!(validate_region(&"x".repeat(57), 0x1000, 16), Err(RegionError::NameTooLong));
    let f = RegionFlags::hot().union(RegionFlags::framebuffer());
    assert_eq!(f.bits(), 3);
    assert!(f.contains(RegionFlags::hot()));
    assert!(!f.contains(RegionFlags::host_writable()));
    assert_eq!(RegionFlags::from_bits_retain(0x80).bits(), 0x80);
    assert_eq!(RegionFlags::empty(), RegionFlags::default());
    assert_eq!(f.intersection(RegionFlags::hot()), RegionFlags::hot());
    assert_eq!(RegionError::NotPinned.message(), "region is not pinned");
    let mut h = RegionHandle::new(5);
    assert_eq!(h.region_id(), 5);
    assert_eq!(h.take_unregister(), Some(5));
    assert_eq!(h.take_unregister(), None);
    assert_eq!(RegionHandle::new(6).unregister(), Some(6));
}

#[test]
fn init_without_channel_fd_reports_no_channel() {
    let err = detguest::sdk::attach::init_from_channel_fd(None).unwrap_err();
    assert!(matches!(err, detguest::sdk::InitError::NoChannel));
}

#[test]
fn init_with_bad_fd_is_deterministic_error() {
    let err = detguest::sdk::attach::init_from_channel_fd(Some(b"not-an-fd")).unwrap_err();
    match err {
        detguest::sdk::InitError::AgentSocket(e) => {
            assert_eq!(e.kind(), std::io::ErrorKind::InvalidInput);
            assert_eq!(e.to_string(), "channel fd is not an integer");
        }
        other => panic!("unexpected {other:?}"),
    }
    let err = detguest::sdk::attach::init_from_channel_fd(Some(b"5")).unwrap_err();
    match err {
        detguest::sdk::InitError::AgentSocket(e) => {
            assert_eq!(e.kind(), std::io::ErrorKind::Unsupported)
        }
        other => panic!("unexpected {other:?}"),
    }
}

#[test]
fn init_error_texts() {
    assert_eq!(detguest::sdk::InitError::NoChannel.to_text(), "DETGUEST_CHANNEL_FD is not present");
    assert_eq!(
        detguest::sdk::InitError::BadChannelHeader { found_magic: 0x1234 }.to_text(),
        "bad detguest channel magic 0x0000000000001234"
    );
    assert_eq!(
        detguest::sdk::InitError::ProtocolVersionMismatch { guest: 1, channel: 2 }.to_text(),
        "detguest protocol mismatch: sdk supports 1, channel is 2"
    );
    assert_eq!(detguest::sdk::InitError::PioPermissionDenied.to_text(), "iopl(3) permission denied");
    let e = detguest::sdk::InitError::AgentSocket(std::io::Error::new(std::io::ErrorKind::Other, "boom"));
    assert_eq!(e.to_text(), "agent initialization failed: boom");
}
