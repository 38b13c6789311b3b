use detguest::wire::header::{
    is_power_of_two, ChannelHeader, RingDesc, RingId, CHANNEL_MAGIC, OFF_RING_A_CONS,
    OFF_RING_A_PROD, OFF_RING_C_CONS, OFF_RING_C_PROD, OFF_RING_I_CONS, OFF_RING_I_PROD,
    OFF_RING_W_CONS, OFF_RING_W_PROD,
};
use detguest::wire::DecodeError;

#[test]
fn canonical_header_round_trips_and_validates() {
    let h = ChannelHeader::canonical();
    let mut page = [0u8; 0x40];
    h.write_to(&mut page).unwrap();
    let back = ChannelHeader::read_from(&page).unwrap();
    assert_eq!(h, back);
    back.validate().unwrap();
}

#[test]
fn magic_bytes_spell_detguest() {
    assert_eq!(&CHANNEL_MAGIC.to_le_bytes(), b"DETGUEST");
}

#[test]
fn bad_magic_and_version_rejected() {
    let mut h = ChannelHeader::canonical();
    h.magic ^= 1;
    assert_eq!(h.validate(), Err(DecodeError::BadMagic));
    let mut h = ChannelHeader::canonical();
    h.proto_version = 2;
    assert_eq!(h.validate(), Err(DecodeError::BadVersion));
}

#[test]
fn ring_desc_bounds_checked() {
    let mut h = ChannelHeader::canonical();
    h.ring_desc[3].size = 0x30_0000;
    assert!(h.validate().is_err());
    let mut h = ChannelHeader::canonical();
    h.ring_desc[0].size = 0x3000;
    assert!(h.validate().is_err());
    let mut h = ChannelHeader::canonical();
    h.ring_desc[0].offset = 0x100;
    assert!(h.validate().is_err());
}

#[test]
fn overlapping_ring_descs_rejected() {
    let mut h = ChannelHeader::canonical();
    h.ring_desc[1] = h.ring_desc[0];
    assert_eq!(h.validate(), Err(DecodeError::BadField));
    let mut h = ChannelHeader::canonical();
    h.ring_desc[1].offset = h.ring_desc[0].offset + 8;
    h.ring_desc[1].size = h.ring_desc[0].size;
    assert_eq!(h.validate(), Err(DecodeError::BadField));
}

#[test]
fn index_cells_are_cache_line_separated() {
    let offs = [
        OFF_RING_C_PROD,
        OFF_RING_C_CONS,
        OFF_RING_I_PROD,
        OFF_RING_I_CONS,
        OFF_RING_A_PROD,
        OFF_RING_A_CONS,
        OFF_RING_W_PROD,
        OFF_RING_W_CONS,
    ];
    for w in offs.windows(2) {
        assert_eq!(w[1] - w[0], 64);
    }
}

#[test]
fn ring_ids_map_to_their_cells_and_slots() {
    assert_eq!(RingId::C.index(), 0);
    assert_eq!(RingId::W.index(), 3);
    assert_eq!(RingId::A.prod_offset(), OFF_RING_A_PROD);
    assert_eq!(RingId::I.cons_offset(), OFF_RING_I_CONS);
    assert_eq!(RingId::C.canonical_desc(), RingDesc { offset: 0x8000, size: 0x4000 });
    assert!(is_power_of_two(4096));
    assert!(!is_power_of_two(0));
    assert!(!is_power_of_two(0x3000));
    assert_eq!(RingDesc { offset: 0x8004, size: 0x1000 }.validate(), Err(DecodeError::BadField));
    assert_eq!(ChannelHeader::read_from(&[0u8; 0x2F]), Err(DecodeError::Truncated));
}
