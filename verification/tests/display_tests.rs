use sms_pdu::display::{locate_pixel, pack_color, write_packed_pixel};

#[test]
fn pixel_inside_panel_gets_an_offset() {
    assert_eq!(locate_pixel(5, 3, 10, 10, 40, 4, 400), Some(3 * 40 + 5 * 4));
    assert_eq!(locate_pixel(0, 0, 10, 10, 40, 4, 400), Some(0));
}

#[test]
fn pixel_outside_panel_is_an_error() {
    assert_eq!(locate_pixel(10, 0, 10, 10, 40, 4, 400), None);
    assert_eq!(locate_pixel(0, 10, 10, 10, 40, 4, 400), None);
    assert_eq!(locate_pixel(usize::MAX, usize::MAX, 10, 10, 40, 4, 400), None);
}

#[test]
fn color_packs_into_native_layout() {
    let white = pack_color(0xFF, 0xFF, 0xFF, 5, 11, 6, 5, 5, 0);
    assert_eq!(white, 0xFFFF);
    let red_only = pack_color(0xFF, 0, 0, 5, 11, 6, 5, 5, 0);
    assert_eq!(red_only, 0xF800);
}

#[test]
fn packed_pixel_bytes_land_in_the_frame() {
    let mut frame = vec![0u8; 4];
    write_packed_pixel(&mut frame, 0, 2, 0xABCD);
    assert_eq!(frame, vec![0xCD, 0xAB, 0, 0]);
    write_packed_pixel(&mut frame, 2, 2, 0x1234);
    assert_eq!(frame, vec![0xCD, 0xAB, 0x34, 0x12]);
}
