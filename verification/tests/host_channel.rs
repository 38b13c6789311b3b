use detguest::host::channel::{AttachError, Channel};
use detguest::host::guestmem::{GuestMem, MockGuestMem};
use detguest::wire::header::{ChannelHeader, RingId, CHANNEL_SIZE, OFF_RESERVED};
use detguest::wire::ports::InitStatus;

const BASE: u64 = 0x1000_0000;

fn fresh_channel_mem() -> MockGuestMem {
    let mut gm = MockGuestMem::with_zeroed(BASE, CHANNEL_SIZE);
    let mut hdr = [0u8; OFF_RESERVED];
    ChannelHeader::canonical().write_to(&mut hdr).unwrap();
    gm.write(BASE, &hdr).unwrap();
    gm
}

#[test]
fn attach_accepts_canonical_header() {
    let ch = Channel::attach(fresh_channel_mem(), BASE).unwrap();
    assert_eq!(ch.header().proto_version, 1);
}

#[test]
fn attach_maps_errors_to_init_status() {
    let gm = MockGuestMem::new();
    let e = Channel::attach(gm, BASE).unwrap_err();
    assert_eq!(e.init_status(), InitStatus::BadGpa);

    let mut gm = fresh_channel_mem();
    gm.write(BASE, &[0u8; 8]).unwrap();
    let e = Channel::attach(gm, BASE).unwrap_err();
    assert!(matches!(e, AttachError::BadMagic { .. }));
    assert_eq!(e.init_status(), InitStatus::BadMagicVersion);

    let mut gm = fresh_channel_mem();
    let mut hdr = ChannelHeader::canonical();
    hdr.ring_desc[3].size = 0x3000;
    let mut b = [0u8; OFF_RESERVED];
    hdr.write_to(&mut b).unwrap();
    gm.write(BASE, &b).unwrap();
    let e = Channel::attach(gm, BASE).unwrap_err();
    assert!(matches!(e, AttachError::BadRingSize { ring: RingId::W }));

    let mut gm = fresh_channel_mem();
    let mut hdr = ChannelHeader::canonical();
    hdr.ring_desc[1] = hdr.ring_desc[0];
    let mut b = [0u8; OFF_RESERVED];
    hdr.write_to(&mut b).unwrap();
    gm.write(BASE, &b).unwrap();
    assert!(matches!(Channel::attach(gm, BASE), Err(AttachError::RingsOverlap)));

    assert_eq!(AttachError::AlreadyAttached.init_status(), InitStatus::AlreadyAttached);
}

#[test]
fn attach_reports_version_and_bounds_in_order() {
    let mut gm = fresh_channel_mem();
    let mut hdr = ChannelHeader::canonical();
    hdr.proto_version = 7;
    hdr.ring_desc[0].size = 0;
    let mut b = [0u8; OFF_RESERVED];
    hdr.write_to(&mut b).unwrap();
    gm.write(BASE, &b).unwrap();
    assert_eq!(Channel::attach(gm, BASE).unwrap_err(), AttachError::BadVersion { found: 7 });

    let mut gm = fresh_channel_mem();
    let mut hdr = ChannelHeader::canonical();
    hdr.ring_desc[2].offset = 0x100;
    let mut b = [0u8; OFF_RESERVED];
    hdr.write_to(&mut b).unwrap();
    gm.write(BASE, &b).unwrap();
    assert_eq!(
        Channel::attach(gm, BASE).unwrap_err(),
        AttachError::RingOutOfBounds { ring: RingId::A }
    );
}

#[test]
fn fresh_channel_reads_zero_counters_and_no_interns() {
    let ch = Channel::attach(fresh_channel_mem(), BASE).unwrap();
    let c = ch.drop_counters().unwrap();
    assert_eq!(c.ring_a_records, 0);
    assert_eq!(c.ring_w_by_kind, [0u64; 16]);
    assert_eq!(ch.intern_name(1), None);
    assert!(ch.declared_reachables().is_empty());
    assert_eq!(ch.base_gpa(), BASE);
    assert_eq!(ch.producer_seqs().ring_c, 0);
}
