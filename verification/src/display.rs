//! Rendering the screen into a window's pixel buffer, and the layout of the
//! hexadecimal keypad on a keyboard.

use vstd::prelude::*;

use vstd::arithmetic::div_mod::lemma_fundamental_div_mod_converse;

use crate::framebuffer::{num_pixels, pixel_bit, pixel_index};
use crate::{FrameBuffer, HEIGHT, WIDTH};

verus! {

/// Window pixels per screen pixel, along each axis.
pub const PIXEL_SCALE: usize = 8;

/// Window colour of a lit screen pixel (0x00RRGGBB).
pub const WHITE_PIXEL: u32 = 0x00ffffff;

/// Window colour of a dark screen pixel.
pub const BLACK_PIXEL: u32 = 0x00000000;

/// Width of the rendered picture, in window pixels.
pub const WINDOW_WIDTH: usize = 512;

/// Height of the rendered picture, in window pixels.
pub const WINDOW_HEIGHT: usize = 256;

/// Position of window pixel (`wx`, `wy`) in a buffer whose rows are `width` long.
pub open spec fn window_index(wx: int, wy: int, width: int) -> int {
    wy * width + wx
}

/// Colour of window pixel (`wx`, `wy`) when the screen holds `frame`.
pub open spec fn window_color(frame: Seq<u8>, wx: int, wy: int) -> u32 {
    if pixel_bit(frame, pixel_index(wx / 8, wy / 8)) == 1 {
        WHITE_PIXEL
    } else {
        BLACK_PIXEL
    }
}

/// A position inside the rendered picture, with rows `width` long, has the
/// coordinates it was built from.
proof fn lemma_window_index(wx: int, wy: int, width: int)
    requires
        0 <= wx < width,
        0 <= wy,
    ensures
        window_index(wx, wy, width) / width == wy,
        window_index(wx, wy, width) % width == wx,
        window_index(wx, wy, width) >= 0,
{
    assert(wy * width >= 0) by (nonlinear_arith)
        requires
            0 <= wy,
            0 < width,
    ;
    lemma_fundamental_div_mod_converse(window_index(wx, wy, width), width, wy, wx);
}

/// Two positions inside the picture are equal only for equal coordinates.
proof fn lemma_window_index_injective(wx: int, wy: int, vx: int, vy: int, width: int)
    requires
        0 <= wx < width,
        0 <= wy,
        0 <= vx < width,
        0 <= vy,
        window_index(wx, wy, width) == window_index(vx, vy, width),
    ensures
        wx == vx,
        wy == vy,
{
    lemma_window_index(wx, wy, width);
    lemma_window_index(vx, vy, width);
}

/// Positions inside the picture lie before row `WINDOW_HEIGHT`.
proof fn lemma_window_index_bound(wx: int, wy: int, width: int)
    requires
        0 <= wx < width,
        0 <= wy < WINDOW_HEIGHT,
    ensures
        window_index(wx, wy, width) < WINDOW_HEIGHT * width,
{
    assert(wy * width + wx < 256 * width) by (nonlinear_arith)
        requires
            0 <= wx < width,
            0 <= wy < 256,
    ;
}

/// Renders the screen into `out`, a window buffer with rows `width` pixels
/// long: each screen pixel becomes a `PIXEL_SCALE` x `PIXEL_SCALE` block,
/// white where the pixel is lit and black where it is not, in the top-left
/// `WINDOW_WIDTH` x `WINDOW_HEIGHT` corner. The rest of the buffer is left
/// as it was.
pub fn chip8_draw(out: &mut [u32], width: usize, fb: &FrameBuffer)
    requires
        width >= WINDOW_WIDTH,
        old(out)@.len() >= WINDOW_HEIGHT * width,
    ensures
        final(out)@.len() == old(out)@.len(),
        forall|wx: int, wy: int|
            0 <= wx < WINDOW_WIDTH && 0 <= wy < WINDOW_HEIGHT ==> #[trigger] final(out)@[window_index(
                wx,
                wy,
                width as int,
            )] == window_color(fb@, wx, wy),
        forall|k: int|
            0 <= k < old(out)@.len() && (k / (width as int) >= WINDOW_HEIGHT || k % (width as int)
                >= WINDOW_WIDTH) ==> #[trigger] final(out)@[k] == old(out)@[k],
{
    let ghost w = width as int;
    let ghost init = out@;
    let len = out.len();
    let mut index: usize = 0;
    while index < HEIGHT * WIDTH
        invariant
            index <= num_pixels(),
            w == width,
            width >= WINDOW_WIDTH,
            init.len() >= WINDOW_HEIGHT * width,
            init.len() == len,
            out@.len() == init.len(),
            forall|wx: int, wy: int|
                0 <= wx < WINDOW_WIDTH && 0 <= wy < WINDOW_HEIGHT ==> #[trigger] out@[window_index(
                    wx,
                    wy,
                    w,
                )] == if pixel_index(wx / 8, wy / 8) < index {
                    window_color(fb@, wx, wy)
                } else {
                    init[window_index(wx, wy, w)]
                },
            forall|k: int|
                0 <= k < init.len() && (k / w >= WINDOW_HEIGHT || k % w >= WINDOW_WIDTH)
                    ==> #[trigger] out@[k] == init[k],
        decreases num_pixels() - index,
    {
        let c8_x = index % 64;
        let c8_y = index / 64;
        let is_set = fb.get_pixel(c8_x, c8_y);
        assert(c8_y * w * 8 + 7 * w + 8 * 63 + 7 < 256 * w) by (nonlinear_arith)
            requires
                c8_y < 32,
                w >= 512,
        ;
        assert(c8_y * w <= 31 * w && c8_y * w * 8 <= 248 * w) by (nonlinear_arith)
            requires
                c8_y < 32,
                w >= 0,
        ;
        let start_index = c8_x * PIXEL_SCALE + c8_y * width * PIXEL_SCALE;
        let ghost before_pixel = out@;
        let mut i: usize = 0;
        while i < PIXEL_SCALE
            invariant
                index < num_pixels(),
                c8_x == index % 64,
                c8_y == index / 64,
                w == width,
                width >= WINDOW_WIDTH,
                start_index == c8_x * 8 + c8_y * w * 8,
                init.len() >= WINDOW_HEIGHT * width,
                init.len() == len,
                out@.len() == init.len(),
                i <= 8,
                is_set == pixel_bit(fb@, pixel_index(c8_x as int, c8_y as int)),
                forall|wx: int, wy: int|
                    0 <= wx < WINDOW_WIDTH && 0 <= wy < WINDOW_HEIGHT ==> #[trigger] out@[window_index(
                        wx,
                        wy,
                        w,
                    )] == if pixel_index(wx / 8, wy / 8) < index || (pixel_index(wx / 8, wy / 8)
                        == index && wy % 8 < i) {
                        window_color(fb@, wx, wy)
                    } else {
                        init[window_index(wx, wy, w)]
                    },
                forall|k: int|
                    0 <= k < init.len() && (k / w >= WINDOW_HEIGHT || k % w >= WINDOW_WIDTH)
                        ==> #[trigger] out@[k] == init[k],
            decreases 8 - i,
        {
            let mut j: usize = 0;
            while j < PIXEL_SCALE
                invariant
                    index < num_pixels(),
                    c8_x == index % 64,
                    c8_y == index / 64,
                    w == width,
                    width >= WINDOW_WIDTH,
                    start_index == c8_x * 8 + c8_y * w * 8,
                    init.len() >= WINDOW_HEIGHT * width,
                    init.len() == len,
                    out@.len() == init.len(),
                    i < 8,
                    j <= 8,
                    is_set == pixel_bit(fb@, pixel_index(c8_x as int, c8_y as int)),
                    forall|wx: int, wy: int|
                        0 <= wx < WINDOW_WIDTH && 0 <= wy < WINDOW_HEIGHT
                            ==> #[trigger] out@[window_index(wx, wy, w)] == if pixel_index(
                            wx / 8,
                            wy / 8,
                        ) < index || (pixel_index(wx / 8, wy / 8) == index && (wy % 8 < i || (wy
                            % 8 == i && wx % 8 < j))) {
                            window_color(fb@, wx, wy)
                        } else {
                            init[window_index(wx, wy, w)]
                        },
                    forall|k: int|
                        0 <= k < init.len() && (k / w >= WINDOW_HEIGHT || k % w >= WINDOW_WIDTH)
                            ==> #[trigger] out@[k] == init[k],
                decreases 8 - j,
            {
                let ghost wx0 = c8_x * 8 + j;
                let ghost wy0 = c8_y * 8 + i;
                assert(start_index + i * w + j == window_index(wx0, wy0, w)) by (nonlinear_arith)
                    requires
                        start_index == c8_x * 8 + c8_y * w * 8,
                        wx0 == c8_x * 8 + j,
                        wy0 == c8_y * 8 + i,
                ;
                proof {
                    lemma_window_index_bound(wx0, wy0, w);
                    lemma_window_index(wx0, wy0, w);
                }
                assert(i * w <= 7 * w) by (nonlinear_arith)
                    requires
                        i < 8,
                        w >= 0,
                ;
                let target = start_index + i * width + j;
                let ghost prev = out@;
                if is_set == 1 {
                    out[target] = WHITE_PIXEL;
                } else {
                    out[target] = BLACK_PIXEL;
                }
                assert forall|wx: int, wy: int|
                    0 <= wx < WINDOW_WIDTH && 0 <= wy < WINDOW_HEIGHT implies #[trigger] out@[window_index(
                        wx,
                        wy,
                        w,
                    )] == if pixel_index(wx / 8, wy / 8) < index || (pixel_index(wx / 8, wy / 8)
                        == index && (wy % 8 < i || (wy % 8 == i && wx % 8 < j + 1))) {
                        window_color(fb@, wx, wy)
                    } else {
                        init[window_index(wx, wy, w)]
                    } by {
                    lemma_window_index(wx, wy, w);
                    lemma_window_index_bound(wx, wy, w);
                    if window_index(wx, wy, w) == target {
                        lemma_window_index_injective(wx, wy, wx0, wy0, w);
                    } else {
                        assert(out@[window_index(wx, wy, w)] == prev[window_index(wx, wy, w)]);
                        if wx == wx0 && wy == wy0 {
                            assert(false);
                        }
                    }
                }
                assert forall|k: int|
                    0 <= k < init.len() && (k / w >= WINDOW_HEIGHT || k % w >= WINDOW_WIDTH)
                        implies #[trigger] out@[k] == init[k] by {
                    assert(k != target);
                    assert(out@[k] == prev[k]);
                }
                j += 1;
            }
            assert forall|wx: int, wy: int|
                0 <= wx < WINDOW_WIDTH && 0 <= wy < WINDOW_HEIGHT implies #[trigger] out@[window_index(
                    wx,
                    wy,
                    w,
                )] == if pixel_index(wx / 8, wy / 8) < index || (pixel_index(wx / 8, wy / 8)
                    == index && wy % 8 < i + 1) {
                    window_color(fb@, wx, wy)
                } else {
                    init[window_index(wx, wy, w)]
                } by {
                assert(wx % 8 < 8);
            }
            i += 1;
        }
        index += 1;
    }
}

/// Window pixel (`wx`, `wy`) is white (0x00ffffff) when the screen pixel
/// (`wx` / 8, `wy` / 8) that covers it is lit, and black (0) otherwise.
pub proof fn lemma_window_color(frame: Seq<u8>, wx: int, wy: int)
    requires
        0 <= wx < WINDOW_WIDTH,
        0 <= wy < WINDOW_HEIGHT,
    ensures
        window_color(frame, wx, wy) == (if pixel_bit(frame, (wy / 8) * 64 + wx / 8) == 1 {
            0x00ffffffu32
        } else {
            0u32
        }),
{
}

/// The hexadecimal keypad, row by row, as laid out on the left of a
/// keyboard: `1 2 3 C / 4 5 6 D / 7 8 9 E / A 0 B F`.
pub open spec fn keypad_layout() -> Seq<u8> {
    seq![0x1u8, 0x2, 0x3, 0xC, 0x4, 0x5, 0x6, 0xD, 0x7, 0x8, 0x9, 0xE, 0xA, 0x0, 0xB, 0xF]
}

/// The keypad layout: the digits 1 to 9 fill the top-left 3 x 3 block row
/// by row, 0 sits below 8 between A and B, and C to F run down the right
/// column; each of the sixteen keys appears once.
pub proof fn lemma_keypad_layout()
    ensures
        forall|r: int, c: int| 0 <= r < 3 && 0 <= c < 3 ==> #[trigger] keypad_layout()[r * 4 + c] == 3 * r + c + 1,
        forall|r: int| 0 <= r < 4 ==> #[trigger] keypad_layout()[r * 4 + 3] == 0xC + r,
        keypad_layout()[12] == 0xA,
        keypad_layout()[13] == 0,
        keypad_layout()[14] == 0xB,
        forall|i: int, j: int| 0 <= i < j < 16 ==> #[trigger] keypad_layout()[i] != #[trigger] keypad_layout()[j],
{
    assert forall|r: int, c: int| 0 <= r < 3 && 0 <= c < 3 implies #[trigger] keypad_layout()[r * 4 + c] == 3 * r + c + 1 by {
        assert(r == 0 || r == 1 || r == 2);
        assert(c == 0 || c == 1 || c == 2);
    }
    assert forall|r: int| 0 <= r < 4 implies #[trigger] keypad_layout()[r * 4 + 3] == 0xC + r by {
        assert(r == 0 || r == 1 || r == 2 || r == 3);
    }
}

/// The key of the hexadecimal keypad at row `row`, column `col` of the
/// 4 x 4 block of keyboard keys that stands for it.
pub fn keypad_key(row: usize, col: usize) -> (key: u8)
    requires
        row < 4,
        col < 4,
    ensures
        key == keypad_layout()[row * 4 + col],
        key < 16,
{
    let layout: [u8; 16] = [0x1, 0x2, 0x3, 0xC, 0x4, 0x5, 0x6, 0xD, 0x7, 0x8, 0x9, 0xE, 0xA, 0x0, 0xB, 0xF];
    assert(layout@ =~= keypad_layout());
    layout[row * 4 + col]
}

} // verus!
