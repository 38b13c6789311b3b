use detguest::host::guestmem::{GuestMem, MemError, MockGuestMem};

#[test]
fn mock_reads_and_writes_within_segments() {
    let mut m = MockGuestMem::with_zeroed(0x1000, 0x100);
    m.write(0x1010, &[1, 2, 3]).unwrap();
    let mut b = [0u8; 3];
    m.read(0x1010, &mut b).unwrap();
    assert_eq!(b, [1, 2, 3]);
}

#[test]
fn unmapped_and_straddling_accesses_fail() {
    let mut m = MockGuestMem::with_zeroed(0x1000, 0x100);
    m.add_segment(0x3000, vec![0u8; 0x100]);
    let mut b = [0u8; 4];
    assert!(m.read(0x0, &mut b).is_err());
    assert!(m.read(0x10FE, &mut b).is_err());
    assert!(m.read(0x10FC, &mut [0u8; 64]).is_err());
    assert!(m.write(0x2000, &b).is_err());
}

#[test]
fn mock_errors_name_the_access_and_slices_borrow() {
    let mut m = MockGuestMem::new();
    let mut b = [9u8; 2];
    assert_eq!(m.read(0x50, &mut b), Err(MemError::Unmapped { gpa: 0x50, len: 2 }));
    assert_eq!(b, [9u8; 2]);
    m.add_segment(0x100, vec![5u8; 16]);
    m.add_segment(0x200, (0u8..8).collect());
    assert_eq!(m.slice(0x204, 3), Some(&[4u8, 5, 6][..]));
    assert_eq!(m.slice(0x10F, 2), None);
    assert_eq!(m.write(0xFFFF_FFFF_FFFF_FFFF, &[1, 2]), Err(MemError::Unmapped { gpa: u64::MAX, len: 2 }));
}
