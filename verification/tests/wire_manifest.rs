use detguest::wire::manifest::{
    init_manifest, read_generation, writer_begin, writer_end, Extent, ManifestHeader,
    RegionEntry, MANIFEST_TOTAL_SIZE, REGION_FLAG_DEAD, REGION_FLAG_HOT,
};

fn area() -> Vec<u8> {
    vec![0u8; MANIFEST_TOTAL_SIZE]
}

#[test]
fn init_then_read_header() {
    let mut m = area();
    init_manifest(&mut m).unwrap();
    let h = ManifestHeader::read_from(&m).unwrap();
    h.validate().unwrap();
    assert_eq!(h.generation, 0);
    assert_eq!(h.region_count, 0);
}

#[test]
fn entry_and_extent_round_trip() {
    let mut m = area();
    init_manifest(&mut m).unwrap();
    let e = RegionEntry {
        region_id: 3,
        name_id: 7,
        layout_version: 1,
        flags: REGION_FLAG_HOT,
        gva: 0x7f00_0000_0000,
        len: 0x20_0000,
        extent_off: 5,
        extent_n: 2,
        name: RegionEntry::pack_name(b"wram").unwrap(),
    };
    e.write_to(&mut m, 3).unwrap();
    let back = RegionEntry::read_from(&m, 3).unwrap();
    assert_eq!(back, e);
    assert_eq!(back.name_bytes(), b"wram");
    assert!(back.is_live());
    let x = Extent { gpa: 0x1000_0000, len: 0x20_0000 };
    x.write_to(&mut m, 5).unwrap();
    assert_eq!(Extent::read_from(&m, 5).unwrap(), x);
}

#[test]
fn seqlock_generation_discipline() {
    let mut m = area();
    init_manifest(&mut m).unwrap();
    let odd = writer_begin(&mut m).unwrap();
    assert_eq!(odd, 1);
    assert!(writer_begin(&mut m).is_err(), "nested begin must fail");
    let even = writer_end(&mut m).unwrap();
    assert_eq!(even, 2);
    assert!(writer_end(&mut m).is_err(), "end without begin must fail");
    assert_eq!(read_generation(&m).unwrap(), 2);
}

#[test]
fn dead_flag_and_extent_bounds() {
    let mut m = area();
    init_manifest(&mut m).unwrap();
    let mut e = RegionEntry {
        region_id: 0,
        name_id: 1,
        layout_version: 1,
        flags: REGION_FLAG_DEAD,
        gva: 0,
        len: 0,
        extent_off: 1020,
        extent_n: 8,
        name: RegionEntry::pack_name(b"dead").unwrap(),
    };
    assert!(!e.is_live());
    let hdr = ManifestHeader::read_from(&m).unwrap();
    assert!(e.validate_extents(&hdr).is_err());
    e.extent_n = 0;
    e.extent_off = 0;
    assert!(e.validate_extents(&hdr).is_ok());
}

#[test]
fn over_long_name_rejected() {
    assert!(RegionEntry::pack_name(&[b'a'; 57]).is_err());
}

#[test]
fn layout_matches_api_md() {
    assert_eq!(RegionEntry::offset(0), 0x20);
    assert_eq!(RegionEntry::offset(1) - RegionEntry::offset(0), 96);
    assert_eq!(Extent::offset(0), 0x1820);
    assert_eq!(MANIFEST_TOTAL_SIZE, 0x5820);
}

#[test]
fn short_areas_are_refused() {
    let mut small = vec![0u8; 16];
    assert!(init_manifest(&mut small).is_err());
    assert!(ManifestHeader::read_from(&small).is_err());
    assert!(read_generation(&small[..8]).is_err());
    let m = area();
    assert!(RegionEntry::read_from(&m, 64).is_err());
    assert!(Extent::read_from(&m, 1024).is_err());
}
