use nbody_sim::drawing::{pack_rgba_into_u32, BODY_COLOR};

#[test]
fn packing_puts_red_first_and_alpha_last() {
    assert_eq!(pack_rgba_into_u32(0xFF, 0x00, 0x00, 0xFF), 0xFF00_00FF);
    assert_eq!(pack_rgba_into_u32(0x00, 0xFF, 0x00, 0xFF), 0x00FF_00FF);
    assert_eq!(pack_rgba_into_u32(0x00, 0x00, 0xFF, 0xFF), 0x0000_FFFF);
    assert_eq!(pack_rgba_into_u32(0x12, 0x34, 0x56, 0x78), 0x1234_5678);
    assert_eq!(pack_rgba_into_u32(0, 0, 0, 0), 0);
}

#[test]
fn body_color_is_opaque_white() {
    assert_eq!(pack_rgba_into_u32(0xFF, 0xFF, 0xFF, 0xFF), BODY_COLOR);
    assert_eq!(BODY_COLOR, 0xFFFF_FFFF);
}
