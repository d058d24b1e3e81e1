use chip8_core::display::{chip8_draw, keypad_key, BLACK_PIXEL, WHITE_PIXEL};
use chip8_core::FrameBuffer;

#[test]
fn renders_pixel_as_block() {
    let mut fb = FrameBuffer::default();
    fb.set_pixel(1, 0, true);
    fb.set_pixel(63, 31, true);
    let width = 512;
    let mut out = vec![7u32; width * 256];
    chip8_draw(&mut out, width, &fb);
    for wy in 0..256 {
        for wx in 0..512 {
            let lit = (wx / 8 == 1 && wy / 8 == 0) || (wx / 8 == 63 && wy / 8 == 31);
            let expected = if lit { WHITE_PIXEL } else { BLACK_PIXEL };
            assert_eq!(out[wy * width + wx], expected, "({}, {})", wx, wy);
        }
    }
}

#[test]
fn wider_buffer_keeps_margin() {
    let mut fb = FrameBuffer::default();
    fb.set_pixel(0, 0, true);
    let width = 600;
    let mut out = vec![7u32; width * 260];
    chip8_draw(&mut out, width, &fb);
    assert_eq!(out[0], WHITE_PIXEL);
    assert_eq!(out[7 * width + 7], WHITE_PIXEL);
    assert_eq!(out[8], BLACK_PIXEL);
    assert_eq!(out[512], 7);
    assert_eq!(out[width - 1], 7);
    assert_eq!(out[256 * width], 7);
}

#[test]
fn keypad_layout() {
    let keys: Vec<u8> = (0..4).flat_map(|r| (0..4).map(move |c| keypad_key(r, c))).collect();
    assert_eq!(keys, vec![0x1, 0x2, 0x3, 0xC, 0x4, 0x5, 0x6, 0xD, 0x7, 0x8, 0x9, 0xE, 0xA, 0x0, 0xB, 0xF]);
}
