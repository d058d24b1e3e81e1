//! Drawing a sprite row by row and pixel by pixel, as the Dxyn loops do,
//! and the proof that the result is the sprite XOR-ed onto the screen as
//! `op_drw` states it.

use vstd::prelude::*;

use crate::framebuffer::{
    bit_of, lemma_same_pixels, lemma_with_pixel, num_pixels, pixel_bit, pixel_index, with_pixel,
};
use crate::model::{collides, drawn_frame, sprite_at, sprite_byte, sprite_pixel};

verus! {

/// The screen and flag after drawing columns `j..8` of the sprite row
/// `byte` at column `x0`, row `yy`, one pixel at a time; drawing stops at
/// the right edge.
pub(crate) open spec fn draw_cols(fb: Seq<u8>, vf: u8, byte: u8, x0: int, yy: int, j: int) -> (Seq<
    u8,
>, u8)
    decreases 8 - j,
{
    if j < 0 || j >= 8 || x0 + j > 63 {
        (fb, vf)
    } else {
        let p = pixel_index(x0 + j, yy);
        let sprite = (byte >> ((7 - j) as u8)) & 1u8;
        let screen = pixel_bit(fb, p);
        let vf2 = if vf == 0 && sprite == 1 && screen == 1 {
            1u8
        } else {
            vf
        };
        draw_cols(with_pixel(fb, p, sprite ^ screen == 1), vf2, byte, x0, yy, j + 1)
    }
}

/// The screen and flag after drawing sprite rows `i..n`, read from `mem` at
/// `index`, at column `x0` from row `y0` on, one row at a time; drawing stops
/// at the bottom edge.
pub(crate) open spec fn draw_rows(
    fb: Seq<u8>,
    vf: u8,
    mem: Seq<u8>,
    index: int,
    x0: int,
    y0: int,
    n: int,
    i: int,
) -> (Seq<u8>, u8)
    decreases n - i,
{
    if i < 0 || i >= n || y0 + i > 31 {
        (fb, vf)
    } else {
        let row = draw_cols(fb, vf, mem[index + i], x0, y0 + i, 0);
        draw_rows(row.0, row.1, mem, index, x0, y0, n, i + 1)
    }
}

/// The pixel that the columns `j..8` of sprite row `byte`, drawn at column
/// `x0` of row `yy`, put over screen pixel `p`.
pub open spec fn cols_pixel(byte: u8, x0: int, yy: int, j: int, p: int) -> u8 {
    if p / 64 == yy && x0 + j <= p % 64 < x0 + 8 {
        (byte >> ((7 - (p % 64 - x0)) as u8)) & 1u8
    } else {
        0u8
    }
}

/// The pixel that the sprite rows from `i` on put over screen pixel `p`.
pub open spec fn rows_pixel(mem: Seq<u8>, index: int, x0: int, y0: int, n: int, i: int, p: int) -> u8 {
    if p / 64 - y0 >= i {
        sprite_pixel(mem, index, x0, y0, n, p % 64, p / 64)
    } else {
        0u8
    }
}

/// Pixel `p` lies in row `y` at column `c`.
proof fn lemma_pixel_position(p: int, y: int, c: int)
    requires
        0 <= c < 64,
    ensures
        (p == pixel_index(c, y)) <==> (p / 64 == y && p % 64 == c),
{
    if p == pixel_index(c, y) {
        assert(p / 64 == y && p % 64 == c) by (nonlinear_arith)
            requires
                p == y * 64 + c,
                0 <= c < 64,
        ;
    }
    if p / 64 == y && p % 64 == c {
        assert(p == y * 64 + c) by (nonlinear_arith)
            requires
                p / 64 == y,
                p % 64 == c,
        ;
    }
}

/// Pixels and sprite bits are 0 or 1.
proof fn lemma_bits_small(bytes: Seq<u8>, p: int, byte: u8, k: u8)
    ensures
        pixel_bit(bytes, p) <= 1,
        (byte >> k) & 1u8 <= 1,
{
    let b = bytes[p / 8];
    let kp = (7 - p % 8) as u8;
    assert((b >> kp) & 1u8 <= 1) by (bit_vector);
    assert((byte >> k) & 1u8 <= 1) by (bit_vector);
}

/// For 0/1 values, the pixel written by the drawing loop is their exclusive or.
proof fn lemma_xor_bit(a: u8, b: u8)
    requires
        a <= 1,
        b <= 1,
    ensures
        (if a ^ b == 1 { 1u8 } else { 0u8 }) == a ^ b,
        a ^ b <= 1,
        a ^ 0 == a,
        (a ^ b) ^ b == a,
        a ^ b == b ^ a,
{
    assert(a ^ b == b ^ a) by (bit_vector);
    assert((if a ^ b == 1 { 1u8 } else { 0u8 }) == a ^ b) by (bit_vector)
        requires
            a <= 1,
            b <= 1,
    ;
    assert(a ^ b <= 1) by (bit_vector)
        requires
            a <= 1,
            b <= 1,
    ;
    assert(a ^ 0 == a) by (bit_vector);
    assert((a ^ b) ^ b == a) by (bit_vector);
}

/// Drawing columns `j..8` of a sprite row XORs them onto the screen, and
/// raises the flag from 0 exactly when one of them turns a lit pixel off.
pub(crate) proof fn lemma_draw_cols_xor(fb: Seq<u8>, vf: u8, byte: u8, x0: int, yy: int, j: int)
    requires
        fb.len() == 256,
        0 <= x0 < 64,
        0 <= yy < 32,
        0 <= j <= 8,
    ensures
        ({
            let (fb2, vf2) = draw_cols(fb, vf, byte, x0, yy, j);
            &&& fb2.len() == 256
            &&& forall|p: int|
                0 <= p < num_pixels() ==> #[trigger] pixel_bit(fb2, p) == pixel_bit(fb, p)
                    ^ cols_pixel(byte, x0, yy, j, p)
            &&& vf2 == if vf == 0 && exists|p: int|
                0 <= p < num_pixels() && cols_pixel(byte, x0, yy, j, p) == 1 && #[trigger] pixel_bit(
                    fb,
                    p,
                ) == 1 {
                1u8
            } else {
                vf
            }
        }),
    decreases 8 - j,
{
    let (fb2, vf2) = draw_cols(fb, vf, byte, x0, yy, j);
    if j >= 8 || x0 + j > 63 {
        assert forall|p: int| 0 <= p < num_pixels() implies #[trigger] pixel_bit(fb2, p) == pixel_bit(
            fb,
            p,
        ) ^ cols_pixel(byte, x0, yy, j, p) by {
            lemma_bits_small(fb, p, byte, 0);
            lemma_xor_bit(pixel_bit(fb, p), 0);
        }
        assert(!exists|p: int|
            0 <= p < num_pixels() && cols_pixel(byte, x0, yy, j, p) == 1 && #[trigger] pixel_bit(
                fb,
                p,
            ) == 1);
    } else {
        let q = pixel_index(x0 + j, yy);
        let sprite = (byte >> ((7 - j) as u8)) & 1u8;
        let screen = pixel_bit(fb, q);
        let vf1 = if vf == 0 && sprite == 1 && screen == 1 {
            1u8
        } else {
            vf
        };
        let fb1 = with_pixel(fb, q, sprite ^ screen == 1);
        assert(0 <= q < num_pixels());
        lemma_pixel_position(q, yy, x0 + j);
        lemma_bits_small(fb, q, byte, (7 - j) as u8);
        lemma_xor_bit(screen, sprite);
        lemma_with_pixel(fb, q, sprite ^ screen == 1, q);
        lemma_draw_cols_xor(fb1, vf1, byte, x0, yy, j + 1);
        assert forall|p: int| 0 <= p < num_pixels() implies #[trigger] pixel_bit(fb2, p) == pixel_bit(
            fb,
            p,
        ) ^ cols_pixel(byte, x0, yy, j, p) by {
            lemma_pixel_position(p, yy, x0 + j);
            lemma_with_pixel(fb, q, sprite ^ screen == 1, p);
            lemma_bits_small(fb, p, byte, (7 - (p % 64 - x0)) as u8);
            lemma_xor_bit(pixel_bit(fb, p), cols_pixel(byte, x0, yy, j + 1, p));
            if p == q {
                lemma_xor_bit(sprite, screen);
                lemma_xor_bit(sprite ^ screen, 0);
                assert(cols_pixel(byte, x0, yy, j + 1, p) == 0);
                assert(cols_pixel(byte, x0, yy, j, p) == sprite);
            } else {
                assert(cols_pixel(byte, x0, yy, j, p) == cols_pixel(byte, x0, yy, j + 1, p));
            }
        }
        // The flag.
        let hit = exists|p: int|
            0 <= p < num_pixels() && cols_pixel(byte, x0, yy, j, p) == 1 && #[trigger] pixel_bit(
                fb,
                p,
            ) == 1;
        let hit1 = exists|p: int|
            0 <= p < num_pixels() && cols_pixel(byte, x0, yy, j + 1, p) == 1 && #[trigger] pixel_bit(
                fb1,
                p,
            ) == 1;
        if hit1 {
            let p = choose|p: int|
                0 <= p < num_pixels() && cols_pixel(byte, x0, yy, j + 1, p) == 1 && #[trigger] pixel_bit(
                    fb1,
                    p,
                ) == 1;
            lemma_pixel_position(p, yy, x0 + j);
            lemma_with_pixel(fb, q, sprite ^ screen == 1, p);
            assert(p != q);
            assert(cols_pixel(byte, x0, yy, j, p) == 1 && pixel_bit(fb, p) == 1);
            assert(hit);
        }
        if hit && !(sprite == 1 && screen == 1) {
            let p = choose|p: int|
                0 <= p < num_pixels() && cols_pixel(byte, x0, yy, j, p) == 1 && #[trigger] pixel_bit(
                    fb,
                    p,
                ) == 1;
            lemma_pixel_position(p, yy, x0 + j);
            lemma_with_pixel(fb, q, sprite ^ screen == 1, p);
            if p == q {
                assert(cols_pixel(byte, x0, yy, j, p) == sprite);
                assert(false);
            }
            assert(cols_pixel(byte, x0, yy, j + 1, p) == 1 && pixel_bit(fb1, p) == 1);
            assert(hit1);
        }
        if sprite == 1 && screen == 1 {
            assert(cols_pixel(byte, x0, yy, j, q) == 1);
            assert(hit);
        }
    }
}

/// Drawing the sprite rows from `i` on XORs them onto the screen, and raises
/// the flag from 0 exactly when one of them turns a lit pixel off.
pub(crate) proof fn lemma_draw_rows_xor(
    fb: Seq<u8>,
    vf: u8,
    mem: Seq<u8>,
    index: int,
    x0: int,
    y0: int,
    n: int,
    i: int,
)
    requires
        fb.len() == 256,
        0 <= x0 < 64,
        0 <= y0 < 32,
        0 <= i,
    ensures
        ({
            let (fb2, vf2) = draw_rows(fb, vf, mem, index, x0, y0, n, i);
            &&& fb2.len() == 256
            &&& forall|p: int|
                0 <= p < num_pixels() ==> #[trigger] pixel_bit(fb2, p) == pixel_bit(fb, p)
                    ^ rows_pixel(mem, index, x0, y0, n, i, p)
            &&& vf2 == if vf == 0 && exists|p: int|
                0 <= p < num_pixels() && rows_pixel(mem, index, x0, y0, n, i, p) == 1
                    && #[trigger] pixel_bit(fb, p) == 1 {
                1u8
            } else {
                vf
            }
        }),
    decreases n - i,
{
    let (fb2, vf2) = draw_rows(fb, vf, mem, index, x0, y0, n, i);
    if i >= n || y0 + i > 31 {
        assert forall|p: int| 0 <= p < num_pixels() implies #[trigger] pixel_bit(fb2, p) == pixel_bit(
            fb,
            p,
        ) ^ rows_pixel(mem, index, x0, y0, n, i, p) by {
            assert(rows_pixel(mem, index, x0, y0, n, i, p) == 0);
            lemma_bits_small(fb, p, 0, 0);
            lemma_xor_bit(pixel_bit(fb, p), 0);
        }
        assert(!exists|p: int|
            0 <= p < num_pixels() && rows_pixel(mem, index, x0, y0, n, i, p) == 1
                && #[trigger] pixel_bit(fb, p) == 1);
    } else {
        let byte = mem[index + i];
        let yy = y0 + i;
        let row = draw_cols(fb, vf, byte, x0, yy, 0);
        lemma_draw_cols_xor(fb, vf, byte, x0, yy, 0);
        lemma_draw_rows_xor(row.0, row.1, mem, index, x0, y0, n, i + 1);
        assert forall|p: int| 0 <= p < num_pixels() implies #[trigger] pixel_bit(fb2, p) == pixel_bit(
            fb,
            p,
        ) ^ rows_pixel(mem, index, x0, y0, n, i, p) by {
            lemma_bits_small(fb, p, byte, (7 - (p % 64 - x0)) as u8);
            lemma_bits_small(row.0, p, 0, 0);
            let c = cols_pixel(byte, x0, yy, 0, p);
            let r = rows_pixel(mem, index, x0, y0, n, i + 1, p);
            assert(pixel_bit(row.0, p) == pixel_bit(fb, p) ^ c);
            assert(pixel_bit(fb2, p) == pixel_bit(row.0, p) ^ r);
            if p / 64 == yy {
                assert(r == 0);
                assert(rows_pixel(mem, index, x0, y0, n, i, p) == c);
                lemma_xor_bit(pixel_bit(row.0, p), 0);
            } else {
                assert(c == 0);
                assert(rows_pixel(mem, index, x0, y0, n, i, p) == r);
                lemma_xor_bit(pixel_bit(fb, p), 0);
            }
        }
        let hit_row = exists|p: int|
            0 <= p < num_pixels() && cols_pixel(byte, x0, yy, 0, p) == 1 && #[trigger] pixel_bit(
                fb,
                p,
            ) == 1;
        let hit_rest = exists|p: int|
            0 <= p < num_pixels() && rows_pixel(mem, index, x0, y0, n, i + 1, p) == 1
                && #[trigger] pixel_bit(row.0, p) == 1;
        let hit = exists|p: int|
            0 <= p < num_pixels() && rows_pixel(mem, index, x0, y0, n, i, p) == 1
                && #[trigger] pixel_bit(fb, p) == 1;
        if hit_row {
            let p = choose|p: int|
                0 <= p < num_pixels() && cols_pixel(byte, x0, yy, 0, p) == 1 && #[trigger] pixel_bit(
                    fb,
                    p,
                ) == 1;
            assert(rows_pixel(mem, index, x0, y0, n, i, p) == 1);
            assert(hit);
        }
        if hit_rest {
            let p = choose|p: int|
                0 <= p < num_pixels() && rows_pixel(mem, index, x0, y0, n, i + 1, p) == 1
                    && #[trigger] pixel_bit(row.0, p) == 1;
            assert(p / 64 != yy);
            assert(cols_pixel(byte, x0, yy, 0, p) == 0);
            lemma_bits_small(fb, p, 0, 0);
            lemma_xor_bit(pixel_bit(fb, p), 0);
            assert(pixel_bit(fb, p) == 1);
            assert(rows_pixel(mem, index, x0, y0, n, i, p) == 1);
            assert(hit);
        }
        if hit && !hit_row {
            let p = choose|p: int|
                0 <= p < num_pixels() && rows_pixel(mem, index, x0, y0, n, i, p) == 1
                    && #[trigger] pixel_bit(fb, p) == 1;
            if p / 64 == yy {
                assert(cols_pixel(byte, x0, yy, 0, p) == 1);
                assert(false);
            }
            assert(cols_pixel(byte, x0, yy, 0, p) == 0);
            lemma_bits_small(fb, p, 0, 0);
            lemma_xor_bit(pixel_bit(fb, p), 0);
            assert(pixel_bit(row.0, p) == 1);
            assert(rows_pixel(mem, index, x0, y0, n, i + 1, p) == 1);
            assert(hit_rest);
        }
    }
}

/// Bit `k` of the XOR of a screen byte with packed sprite bits `c0..c7`
/// (most significant first).
proof fn lemma_xor_packed_bit(b: u8, c0: u8, c1: u8, c2: u8, c3: u8, c4: u8, c5: u8, c6: u8, c7: u8, k: u8)
    requires
        c0 <= 1,
        c1 <= 1,
        c2 <= 1,
        c3 <= 1,
        c4 <= 1,
        c5 <= 1,
        c6 <= 1,
        c7 <= 1,
        k < 8,
    ensures
        ((b ^ ((c0 * 128 + c1 * 64 + c2 * 32 + c3 * 16 + c4 * 8 + c5 * 4 + c6 * 2 + c7) as u8)) >> k)
            & 1u8 == ((b >> k) & 1u8) ^ (if k == 7 {
            c0
        } else if k == 6 {
            c1
        } else if k == 5 {
            c2
        } else if k == 4 {
            c3
        } else if k == 3 {
            c4
        } else if k == 2 {
            c5
        } else if k == 1 {
            c6
        } else {
            c7
        }),
{
    assert(((b ^ ((c0 * 128 + c1 * 64 + c2 * 32 + c3 * 16 + c4 * 8 + c5 * 4 + c6 * 2 + c7) as u8))
        >> k) & 1u8 == ((b >> k) & 1u8) ^ (if k == 7 {
        c0
    } else if k == 6 {
        c1
    } else if k == 5 {
        c2
    } else if k == 4 {
        c3
    } else if k == 3 {
        c4
    } else if k == 2 {
        c5
    } else if k == 1 {
        c6
    } else {
        c7
    })) by (bit_vector)
        requires
            c0 <= 1,
            c1 <= 1,
            c2 <= 1,
            c3 <= 1,
            c4 <= 1,
            c5 <= 1,
            c6 <= 1,
            c7 <= 1,
            k < 8,
    ;
}

/// Each pixel of the drawn screen is the old pixel XOR the sprite pixel over it.
pub proof fn lemma_drawn_frame_pixel(frame: Seq<u8>, mem: Seq<u8>, index: int, x0: int, y0: int, n: int, p: int)
    requires
        frame.len() == 256,
        0 <= p < num_pixels(),
    ensures
        drawn_frame(frame, mem, index, x0, y0, n).len() == 256,
        pixel_bit(drawn_frame(frame, mem, index, x0, y0, n), p) == pixel_bit(frame, p) ^ sprite_at(
            mem,
            index,
            x0,
            y0,
            n,
            p,
        ),
{
    let i = p / 8;
    let m = p % 8;
    assert(p == 8 * i + m);
    let c = |q: int| sprite_at(mem, index, x0, y0, n, q);
    assert forall|q: int| #[trigger] sprite_at(mem, index, x0, y0, n, q) <= 1 by {
        let px = q % 64;
        let py = q / 64;
        if y0 <= py < y0 + n && py < 32 && x0 <= px < x0 + 8 && px < 64 {
            lemma_bits_small(mem, 0, mem[index + (py - y0)], (7 - (px - x0)) as u8);
        }
    }
    lemma_xor_packed_bit(
        frame[i],
        c(8 * i),
        c(8 * i + 1),
        c(8 * i + 2),
        c(8 * i + 3),
        c(8 * i + 4),
        c(8 * i + 5),
        c(8 * i + 6),
        c(8 * i + 7),
        bit_of(p),
    );
}

/// Drawing the sprite row by row from a blank flag gives the screen and flag
/// that `op_drw` states.
pub(crate) proof fn lemma_draw_rows_matches(fb: Seq<u8>, mem: Seq<u8>, index: int, x0: int, y0: int, n: int)
    requires
        fb.len() == 256,
        0 <= x0 < 64,
        0 <= y0 < 32,
    ensures
        draw_rows(fb, 0, mem, index, x0, y0, n, 0) == (
            drawn_frame(fb, mem, index, x0, y0, n),
            if collides(fb, mem, index, x0, y0, n) {
                1u8
            } else {
                0u8
            },
        ),
{
    let (fb2, vf2) = draw_rows(fb, 0, mem, index, x0, y0, n, 0);
    let d = drawn_frame(fb, mem, index, x0, y0, n);
    lemma_draw_rows_xor(fb, 0, mem, index, x0, y0, n, 0);
    assert forall|p: int| 0 <= p < num_pixels() implies #[trigger] pixel_bit(fb2, p) == pixel_bit(
        d,
        p,
    ) by {
        lemma_drawn_frame_pixel(fb, mem, index, x0, y0, n, p);
        assert(rows_pixel(mem, index, x0, y0, n, 0, p) == sprite_at(mem, index, x0, y0, n, p));
    }
    lemma_drawn_frame_pixel(fb, mem, index, x0, y0, n, 0);
    lemma_same_pixels(fb2, d);
    let hit0 = exists|p: int|
        0 <= p < num_pixels() && rows_pixel(mem, index, x0, y0, n, 0, p) == 1
            && #[trigger] pixel_bit(fb, p) == 1;
    if hit0 {
        let p = choose|p: int|
            0 <= p < num_pixels() && rows_pixel(mem, index, x0, y0, n, 0, p) == 1
                && #[trigger] pixel_bit(fb, p) == 1;
        assert(sprite_at(mem, index, x0, y0, n, p) == 1);
    }
    if collides(fb, mem, index, x0, y0, n) {
        let p = choose|p: int|
            0 <= p < num_pixels() && sprite_at(mem, index, x0, y0, n, p) == 1
                && #[trigger] pixel_bit(fb, p) == 1;
        assert(rows_pixel(mem, index, x0, y0, n, 0, p) == 1);
    }
}

} // verus!
