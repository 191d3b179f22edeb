use fediiverse::qr::camera::{conversion_fits, CameraState};

fn convert(src: Vec<u8>, dst: &mut [u8]) {
    let mut camera = CameraState { rgb565_camera_buf: src.clone() };
    camera.convert(dst);
    assert_eq!(camera.rgb565_camera_buf, src);
}

#[test]
fn white_and_black_pixels() {
    let mut dst = [7u8; 8];
    convert(vec![0xff, 0xff, 0x00, 0x00], &mut dst);
    assert_eq!(dst, [255, 255, 255, 255, 0, 0, 0, 255]);
}

#[test]
fn primary_colors() {
    // red 0xF800, green 0x07E0, blue 0x001F, little endian
    let mut dst = [0u8; 12];
    convert(vec![0x00, 0xF8, 0xE0, 0x07, 0x1F, 0x00], &mut dst);
    assert_eq!(dst, [255, 0, 0, 255, 0, 255, 0, 255, 0, 0, 255, 255]);
}

#[test]
fn channel_scaling_truncates() {
    // r5 = 16, g6 = 32, b5 = 1: 0b10000_100000_00001 = 0x8401
    let mut dst = [0u8; 4];
    convert(vec![0x01, 0x84], &mut dst);
    assert_eq!(dst, [(16u32 * 255 / 31) as u8, (32u32 * 255 / 63) as u8, (255u32 / 31) as u8, 255]);
    assert_eq!(dst, [131, 129, 8, 255]);
}

#[test]
fn longer_destination_keeps_its_tail() {
    let mut dst = [9u8; 10];
    convert(vec![0x00, 0x00], &mut dst);
    assert_eq!(dst, [0, 0, 0, 255, 9, 9, 9, 9, 9, 9]);
}

#[test]
fn longer_source_stops_at_destination() {
    let mut dst = [9u8; 4];
    convert(vec![0xff, 0xff, 0x00, 0x00, 0x12, 0x34], &mut dst);
    assert_eq!(dst, [255, 255, 255, 255]);
}

#[test]
fn empty_buffers() {
    let mut dst: [u8; 0] = [];
    convert(vec![], &mut dst);
    let mut dst = [5u8; 3];
    convert(vec![], &mut dst);
    assert_eq!(dst, [5, 5, 5]);
}

#[test]
fn fits_checks() {
    assert!(conversion_fits(4, 8));
    assert!(conversion_fits(4, 100));
    assert!(conversion_fits(100, 8));
    assert!(conversion_fits(0, 3));
    assert!(conversion_fits(192000, 384000));
    // an odd source whose last byte would be visited
    assert!(!conversion_fits(3, 8));
    // a destination whose last pixel is cut short
    assert!(!conversion_fits(4, 7));
    assert!(conversion_fits(3, 4));
}

#[test]
fn resize_for_capture_grows_with_zeros_and_shrinks() {
    let mut camera = CameraState::new(16);
    assert!(camera.rgb565_camera_buf.is_empty());
    camera.rgb565_camera_buf.extend_from_slice(&[1, 2, 3]);
    camera.resize_for_capture(6);
    assert_eq!(camera.rgb565_camera_buf, vec![1, 2, 3, 0, 0, 0]);
    camera.resize_for_capture(2);
    assert_eq!(camera.rgb565_camera_buf, vec![1, 2]);
}
