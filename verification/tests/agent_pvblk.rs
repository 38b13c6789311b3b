use detguest::agent::pvblk::{
    check_magic, checksum_fold, read_device, read_game_image, verify_stream, DeviceRead,
    PvBlkRegs, ReadStep, CHECKSUM_SEED, DEVICE_ID_PV_BLK, DMA_PAGE_SIZE, MAX_GAME_BYTES,
    REG_MAGIC, SECTOR_SIZE, STATUS_BAD_REQUEST, STATUS_OK,
};

/// The 32 KiB game-materialization pattern.
fn test_pattern(len: usize) -> Vec<u8> {
    (0..len).map(|i| ((i * 7) ^ (i >> 8)) as u8).collect()
}

/// Checksum of the 32 KiB test pattern.
const GAME_MAT_PATTERN_CHECKSUM: u64 = 0x59ac_17a5_2dff_da9c;

struct FakePvBlk {
    image: Vec<u8>,
    magic: u32,
    page: [u8; DMA_PAGE_SIZE],
    /// Injected per-sector statuses: a request whose range covers the
    /// sector returns that status.
    overrides: Vec<(u64, u32)>,
}

impl FakePvBlk {
    fn new(image: Vec<u8>) -> FakePvBlk {
        FakePvBlk {
            image,
            magic: DEVICE_ID_PV_BLK,
            page: [0; DMA_PAGE_SIZE],
            overrides: Vec::new(),
        }
    }

    fn capacity(&self) -> u64 {
        (self.image.len() / SECTOR_SIZE) as u64
    }
}

impl PvBlkRegs for FakePvBlk {
    fn read_u32(&mut self, off: usize) -> u32 {
        match off {
            REG_MAGIC => self.magic,
            _ => 0,
        }
    }

    fn read_sectors(&mut self, sector: u64, count: u32) -> u32 {
        if count == 0 {
            return STATUS_BAD_REQUEST;
        }
        let Some(end) = sector.checked_add(u64::from(count)) else {
            return STATUS_BAD_REQUEST;
        };
        if end > self.capacity() {
            return STATUS_BAD_REQUEST;
        }
        if let Some(&(_, status)) = self
            .overrides
            .iter()
            .find(|(s, _)| (sector..end).contains(s))
        {
            return status;
        }
        let at = sector as usize * SECTOR_SIZE;
        let len = count as usize * SECTOR_SIZE;
        self.page[..len].copy_from_slice(&self.image[at..at + len]);
        STATUS_OK
    }

    fn dma(&self) -> &[u8] {
        &self.page
    }
}

#[test]
fn checksum_matches_pinned_golden() {
    let sum = checksum_fold(CHECKSUM_SEED, &test_pattern(32768), 0);
    assert_eq!(sum, GAME_MAT_PATTERN_CHECKSUM);
    let pattern = test_pattern(32768);
    let mut chunked = CHECKSUM_SEED;
    for (i, chunk) in pattern.chunks(4096).enumerate() {
        chunked = checksum_fold(chunked, chunk, (i * 4096) as u64);
    }
    assert_eq!(chunked, GAME_MAT_PATTERN_CHECKSUM);
}

#[test]
fn size_discovery_exact_at_chunk_boundaries() {
    for sectors in [1usize, 7, 8, 9, 63, 64, 65, 4096] {
        let image: Vec<u8> = (0..sectors * SECTOR_SIZE)
            .map(|i| ((i * 31) ^ (i >> 7)) as u8)
            .collect();
        let mut fake = FakePvBlk::new(image.clone());
        let mut out = Vec::new();
        let (bytes, checksum) = read_device(&mut fake, &mut out).unwrap();
        assert_eq!(bytes, (sectors * SECTOR_SIZE) as u64, "{sectors} sectors");
        assert_eq!(out, image, "{sectors} sectors: byte-exact");
        assert_eq!(checksum, checksum_fold(CHECKSUM_SEED, &image, 0));
    }
}

#[test]
fn empty_device_is_a_loud_fault() {
    for len in [0usize, 100] {
        let mut fake = FakePvBlk::new(vec![0xAB; len]);
        let err = read_device(&mut fake, &mut Vec::new()).unwrap_err();
        assert!(err.contains("empty"), "{err}");
    }
}

#[test]
fn over_cap_image_is_a_loud_fault() {
    let mut fake = FakePvBlk::new(vec![0u8; MAX_GAME_BYTES as usize + DMA_PAGE_SIZE]);
    let err = read_device(&mut fake, &mut Vec::new()).unwrap_err();
    assert!(err.contains("cap"), "{err}");
}

#[test]
fn exactly_cap_image_is_allowed() {
    let mut fake = FakePvBlk::new(vec![0x5A; MAX_GAME_BYTES as usize]);
    let (bytes, _) = read_device(&mut fake, &mut Vec::new()).unwrap();
    assert_eq!(bytes, MAX_GAME_BYTES);
}

#[test]
fn wrong_magic_names_the_device_and_both_magics() {
    let mut fake = FakePvBlk::new(test_pattern(SECTOR_SIZE));
    fake.magic = 0;
    let err = read_game_image(&mut fake, &mut Vec::new()).unwrap_err();
    assert!(err.contains("pv-blk"), "{err}");
    assert!(err.contains("0x0") && err.contains("0x5"), "{err}");
}

#[test]
fn mid_read_host_io_names_status_and_sector_not_size() {
    let mut fake = FakePvBlk::new(test_pattern(16 * SECTOR_SIZE));
    fake.overrides.push((3, 0xFE));
    let err = read_device(&mut fake, &mut Vec::new()).unwrap_err();
    assert!(err.contains("status 254"), "{err}");
    assert!(err.contains("sector 0"), "{err}");
}

#[test]
fn wrong_magic_message_is_exact() {
    assert_eq!(
        check_magic(0).unwrap_err(),
        "pv-blk: no device at GPA 0xd0004000 (magic 0x0, want 0x5)"
    );
    assert!(check_magic(DEVICE_ID_PV_BLK).is_ok());
}

#[test]
fn device_read_walks_pages_then_tail() {
    // 11 sectors: one page, then the 4-probe is refused, 2 and 1 accepted.
    let image = test_pattern(11 * SECTOR_SIZE);
    let mut st = DeviceRead::new();
    assert_eq!(st.next_read(), Some((0, 8)));
    let page: Vec<u8> = image[..8 * SECTOR_SIZE].to_vec();
    assert_eq!(st.on_status(STATUS_OK, &page).unwrap(), page);
    assert_eq!(st.next_read(), Some((8, 8)));
    assert!(st.on_status(STATUS_BAD_REQUEST, &[]).unwrap().is_empty());
    assert_eq!(st.next_read(), Some((8, 4)));
    assert!(st.on_status(STATUS_BAD_REQUEST, &[]).unwrap().is_empty());
    assert_eq!(st.next_read(), Some((8, 2)));
    let two = image[8 * SECTOR_SIZE..10 * SECTOR_SIZE].to_vec();
    assert_eq!(st.on_status(STATUS_OK, &two).unwrap(), two);
    assert_eq!(st.next_read(), Some((10, 1)));
    let one = image[10 * SECTOR_SIZE..].to_vec();
    assert_eq!(st.on_status(STATUS_OK, &one).unwrap(), one);
    assert_eq!(st.next_read(), None);
    assert_eq!(
        st.finish().unwrap(),
        (11 * SECTOR_SIZE as u64, checksum_fold(CHECKSUM_SEED, &image, 0))
    );
    let _ = ReadStep::Done;
}

#[test]
fn short_dma_page_is_a_fault() {
    let mut st = DeviceRead::new();
    let err = st.on_status(STATUS_OK, &[0u8; 100]).unwrap_err();
    assert_eq!(err, "pv-blk: DMA page holds 100 bytes, 4096 needed at sector 0");
}

#[test]
fn unknown_status_names_status_sector_count() {
    let mut st = DeviceRead::new();
    let err = st.on_status(7, &[]).unwrap_err();
    assert_eq!(err, "pv-blk: read status 7 at sector 0 (count 8)");
}

#[test]
fn empty_device_message_is_exact() {
    let mut st = DeviceRead::new();
    for _ in 0..4 {
        st.on_status(STATUS_BAD_REQUEST, &[]).unwrap();
    }
    assert_eq!(st.next_read(), None);
    assert_eq!(
        st.finish().unwrap_err(),
        "pv-blk: game device is empty (0 sectors)"
    );
}

#[test]
fn verify_stream_names_length_before_checksum() {
    assert!(verify_stream(4096, 9, 4096, 9).is_ok());
    assert_eq!(
        verify_stream(512, 1, 2048, 9).unwrap_err(),
        "pv-blk: materialized file is 512 bytes, device stream was 2048"
    );
    assert_eq!(
        verify_stream(2048, 0x1f, 2048, 0xab).unwrap_err(),
        "pv-blk: materialized file checksum drift (0x1f != 0xab)"
    );
}
