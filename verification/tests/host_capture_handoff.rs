use detguest::host::capture::{capture_features, CaptureRegion, FeatureRange};

fn region(name: &str, layout: u32, bytes: Vec<u8>) -> CaptureRegion {
    CaptureRegion { name: name.to_string(), layout, bytes }
}

fn range(name: &str, layout: u32, offset: usize, len: usize) -> FeatureRange {
    FeatureRange { name: name.to_string(), layout, offset, len }
}

#[test]
fn feature_ranges_pack_in_request_order_and_reject_layout_drift() {
    let regions = [region("wram", 1, (0..32).collect()), region("meta", 1, (100..116).collect())];
    let ranges = [range("meta", 1, 3, 4), range("wram", 1, 8, 5)];
    assert_eq!(capture_features(&regions, &ranges).unwrap(), [103, 104, 105, 106, 8, 9, 10, 11, 12]);

    let bad = [FeatureRange { layout: 2, ..ranges[0].clone() }];
    let err = capture_features(&regions, &bad).unwrap_err();
    assert!(err.contains("FAILED_PRECONDITION"));
    assert!(err.contains("layout_version expected 2, got 1"));
}

#[test]
fn framebuffer_v1_is_raw_pixels_with_external_geometry() {
    const WIDTH: usize = 256;
    const HEIGHT: usize = 224;
    const STRIDE: usize = 1024;
    const LEN: usize = 229_376;
    assert_eq!(WIDTH * 4, STRIDE);
    assert_eq!(HEIGHT * STRIDE, LEN);
    let framebuffer = region("framebuffer", 1, vec![0xA5; LEN]);
    assert_eq!(framebuffer.bytes.len(), LEN);
    assert_eq!(framebuffer.layout, 1);
    // `fb_lz4` is the external transport; guest memory contains no metadata
    // header, only the XRGB8888 pixel bytes described by the fixture.
    assert_eq!(&framebuffer.bytes[..8], &[0xA5; 8]);
    let first_row = capture_features(&[framebuffer], &[range("framebuffer", 1, 0, STRIDE)]).unwrap();
    assert_eq!(first_row.len(), STRIDE);
}

#[test]
fn capture_errors_name_the_range() {
    let regions = [region("wram", 1, vec![0; 8])];
    assert_eq!(capture_features(&regions, &[range("vram", 1, 0, 1)]).unwrap_err(), "missing region vram");
    assert_eq!(capture_features(&regions, &[range("wram", 1, 4, 5)]).unwrap_err(), "range outside wram");
    assert_eq!(capture_features(&regions, &[range("wram", 1, usize::MAX, 2)]).unwrap_err(), "range outside wram");
    assert_eq!(capture_features(&regions, &[]).unwrap(), Vec::<u8>::new());
    assert_eq!(
        capture_features(&regions, &[range("wram", 1, 0, 8), range("wram", 3, 0, 1)]).unwrap_err(),
        "FAILED_PRECONDITION: wram layout_version expected 3, got 1"
    );
}
