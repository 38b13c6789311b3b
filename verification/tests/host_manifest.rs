use detguest::host::channel::Channel;
use detguest::host::guestmem::{GuestMem, MockGuestMem};
use detguest::host::sink::{RegionReadError, WireError};
use detguest::wire::header::{ChannelHeader, CHANNEL_SIZE, OFF_MANIFEST, OFF_RESERVED};
use detguest::wire::manifest::{
    init_manifest, writer_begin, writer_end, Extent, ManifestHeader, RegionEntry,
    MANIFEST_TOTAL_SIZE, REGION_FLAG_DEAD,
};

const BASE: u64 = 0x1000_0000;

fn manifest_mem(build: impl FnOnce(&mut [u8])) -> MockGuestMem {
    let mut gm = MockGuestMem::with_zeroed(BASE, CHANNEL_SIZE);
    let mut hdr = [0u8; OFF_RESERVED];
    ChannelHeader::canonical().write_to(&mut hdr).unwrap();
    gm.write(BASE, &hdr).unwrap();
    let mut area = vec![0u8; MANIFEST_TOTAL_SIZE];
    init_manifest(&mut area).unwrap();
    build(&mut area);
    gm.write(BASE + OFF_MANIFEST as u64, &area).unwrap();
    gm
}

fn put_region(area: &mut [u8], slot: usize, name: &[u8], len: u64, flags: u32, extent_off: u32, extents: &[Extent]) {
    let e = RegionEntry {
        region_id: slot as u32,
        name_id: slot as u32 + 1,
        layout_version: 1,
        flags,
        gva: 0x7000_0000,
        len,
        extent_off,
        extent_n: extents.len() as u32,
        name: RegionEntry::pack_name(name).unwrap(),
    };
    e.write_to(area, slot).unwrap();
    for (i, x) in extents.iter().enumerate() {
        x.write_to(area, extent_off as usize + i).unwrap();
    }
    let mut h = ManifestHeader::read_from(area).unwrap();
    h.region_count += 1;
    h.extent_count = h.extent_count.max(extent_off + extents.len() as u32);
    h.generation = 2;
    h.write_to(area).unwrap();
}

#[test]
fn read_manifest_resolves_live_and_skips_dead() {
    let gm = manifest_mem(|area| {
        put_region(area, 0, b"wram", 0x100, 0, 0, &[Extent { gpa: BASE, len: 0x100 }]);
        put_region(area, 1, b"dead", 0x100, REGION_FLAG_DEAD, 1, &[Extent { gpa: BASE, len: 0x100 }]);
    });
    let ch = Channel::attach(gm, BASE).unwrap();
    let m = ch.read_manifest().unwrap();
    assert!(m.resolve("wram").is_some());
    assert!(m.resolve("dead").is_none(), "DEAD entries do not resolve");
    assert!(m.resolve("nope").is_none());
}

#[test]
fn seqlock_odd_generation_then_recovery() {
    let gm = manifest_mem(|area| {
        put_region(area, 0, b"wram", 0x10, 0, 0, &[Extent { gpa: BASE, len: 0x10 }]);
    });
    let ch = Channel::attach(gm, BASE).unwrap();
    let mut area = vec![0u8; MANIFEST_TOTAL_SIZE];
    ch.guest_mem().read(BASE + OFF_MANIFEST as u64, &mut area).unwrap();
    writer_begin(&mut area).unwrap();
    let mut gm = ch.into_guest_mem();
    gm.write(BASE + OFF_MANIFEST as u64, &area).unwrap();
    let ch = Channel::attach(gm, BASE).unwrap();
    assert_eq!(ch.read_manifest().unwrap_err(), WireError::SeqlockLivelock);
    writer_end(&mut area).unwrap();
    let mut gm = ch.into_guest_mem();
    gm.write(BASE + OFF_MANIFEST as u64, &area).unwrap();
    let ch = Channel::attach(gm, BASE).unwrap();
    assert!(ch.read_manifest().is_ok());
}

#[test]
fn read_region_stitches_three_discontiguous_extents() {
    const A: u64 = 0x4000_0000;
    const B: u64 = 0x5000_0000;
    const C: u64 = 0x6000_0000;
    let mut gm = manifest_mem(|area| {
        put_region(
            area,
            0,
            b"wram",
            48,
            0,
            0,
            &[Extent { gpa: A, len: 16 }, Extent { gpa: B, len: 24 }, Extent { gpa: C, len: 8 }],
        );
    });
    gm.add_segment(A, (0u8..16).collect());
    gm.add_segment(B, (100u8..124).collect());
    gm.add_segment(C, (200u8..208).collect());
    let ch = Channel::attach(gm, BASE).unwrap();

    let mut buf = [0u8; 48];
    ch.read_region("wram", 0, &mut buf).unwrap();
    let expected: Vec<u8> = (0u8..16).chain(100..124).chain(200..208).collect();
    assert_eq!(&buf[..], &expected[..]);
    let mut buf = [0u8; 20];
    ch.read_region("wram", 12, &mut buf).unwrap();
    assert_eq!(&buf[..], &expected[12..32]);
    let mut buf = [0u8; 10];
    ch.read_region("wram", 35, &mut buf).unwrap();
    assert_eq!(&buf[..], &expected[35..45]);
    let mut buf = [0u8; 8];
    assert_eq!(ch.read_region("wram", 44, &mut buf).unwrap_err(), RegionReadError::OutOfBounds);
    assert_eq!(ch.read_region("none", 0, &mut buf).unwrap_err(), RegionReadError::NameNotFound);
}

#[test]
fn short_extent_coverage_and_out_of_pool_ranges_are_rejected() {
    let gm = manifest_mem(|area| {
        put_region(area, 0, b"short", 64, 0, 0, &[Extent { gpa: BASE, len: 16 }]);
    });
    let ch = Channel::attach(gm, BASE).unwrap();
    let mut buf = [0u8; 4];
    assert_eq!(ch.read_region("short", 0, &mut buf).unwrap_err(), RegionReadError::OutOfBounds);
    // A live entry pointing past the used extent pool fails the whole read.
    let gm = manifest_mem(|area| {
        put_region(area, 0, b"wram", 16, 0, 0, &[Extent { gpa: BASE, len: 16 }]);
        let mut e = RegionEntry::read_from(area, 0).unwrap();
        e.extent_n = 5;
        e.write_to(area, 0).unwrap();
    });
    let ch = Channel::attach(gm, BASE).unwrap();
    assert!(matches!(ch.read_manifest(), Err(WireError::Decode(_))));
}
