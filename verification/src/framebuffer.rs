//! The monochrome frame buffer: 64x32 pixels packed eight to a byte,
//! most significant bit first, row after row.

use vstd::prelude::*;

use crate::{HEIGHT, WIDTH};

verus! {

/// Number of pixels on the screen.
pub open spec fn num_pixels() -> int {
    (WIDTH * HEIGHT) as int
}

/// Index of the pixel at column `x` and row `y`.
pub open spec fn pixel_index(x: int, y: int) -> int {
    y * WIDTH as int + x
}

/// Position of pixel `p` inside its byte, counted from the least significant bit.
pub open spec fn bit_of(p: int) -> u8 {
    (7 - p % 8) as u8
}

/// Value (0 or 1) of pixel `p` in the packed bytes `bytes`.
pub open spec fn pixel_bit(bytes: Seq<u8>, p: int) -> u8 {
    (bytes[p / 8] >> bit_of(p)) & 1u8
}

/// The packed bytes after pixel `p` is set (`val`) or cleared (`!val`).
pub open spec fn with_pixel(bytes: Seq<u8>, p: int, val: bool) -> Seq<u8> {
    let b = bytes[p / 8];
    let mask: u8 = 1u8 << bit_of(p);
    bytes.update(p / 8, if val { b | mask } else { b & !mask })
}

/// The packed bytes of a blank screen.
pub open spec fn blank() -> Seq<u8> {
    Seq::new(256, |i: int| 0u8)
}

/// The screen memory of the interpreter.
pub struct FrameBuffer {
    buffer: [u8; 256],
}

impl View for FrameBuffer {
    type V = Seq<u8>;

    closed spec fn view(&self) -> Seq<u8> {
        self.buffer@
    }
}

impl Default for FrameBuffer {
    /// A blank screen.
    fn default() -> (fb: Self)
        ensures
            fb@ == blank(),
    {
        let fb = FrameBuffer { buffer: [0u8; 256] };
        assert(fb@ =~= blank());
        fb
    }
}

impl FrameBuffer {
    /// The packed screen holds 256 bytes.
    pub proof fn lemma_len(&self)
        ensures
            self@.len() == 256,
    {
    }

    /// Returns the pixel at column `x` and row `y`: 1 when it is set, 0 when not.
    pub fn get_pixel(&self, x: usize, y: usize) -> (r: u8)
        requires
            pixel_index(x as int, y as int) < num_pixels(),
        ensures
            r == pixel_bit(self@, pixel_index(x as int, y as int)),
            r <= 1,
    {
        let pixel_index = y * WIDTH + x;
        let bit_index = 7 - pixel_index % 8;
        assert(pixel_index >> 3 == pixel_index / 8) by (bit_vector);
        let byte = self.buffer[pixel_index >> 3];
        let r = (byte >> bit_index) & 1;
        assert((byte >> bit_index) & 1 <= 1) by (bit_vector);
        r
    }

    /// Sets (`val`) or clears (`!val`) the pixel at column `x` and row `y`.
    pub fn set_pixel(&mut self, x: usize, y: usize, val: bool)
        requires
            pixel_index(x as int, y as int) < num_pixels(),
        ensures
            final(self)@ == with_pixel(old(self)@, pixel_index(x as int, y as int), val),
    {
        let pixel_index = y * WIDTH + x;
        let byte_index = pixel_index >> 3;
        let bit_index = 7 - pixel_index % 8;
        assert(pixel_index >> 3 == pixel_index / 8) by (bit_vector);
        let b = self.buffer[byte_index];
        if val {
            self.buffer[byte_index] = b | (1 << bit_index);
        } else {
            self.buffer[byte_index] = b & !(1 << bit_index);
        }
    }

    /// Turns every pixel off.
    pub fn clear(&mut self)
        ensures
            final(self)@ == blank(),
    {
        self.buffer = [0u8; 256];
        assert(self@ =~= blank());
    }

    /// The packed screen bytes.
    pub fn get(&self) -> (r: &[u8; 256])
        ensures
            r@ == self@,
    {
        &self.buffer
    }
}

/// Bit `k` of a byte after bit `j` of it was set or cleared.
proof fn lemma_byte_bit_update(b: u8, j: u8, k: u8, val: bool)
    requires
        j < 8,
        k < 8,
    ensures
        ((if val { b | (1u8 << j) } else { b & !(1u8 << j) }) >> k) & 1u8 == if k == j {
            if val { 1u8 } else { 0u8 }
        } else {
            (b >> k) & 1u8
        },
{
    if val {
        assert(((b | (1u8 << j)) >> k) & 1u8 == if k == j { 1u8 } else { (b >> k) & 1u8 })
            by (bit_vector)
            requires j < 8, k < 8;
    } else {
        assert(((b & !(1u8 << j)) >> k) & 1u8 == if k == j { 0u8 } else { (b >> k) & 1u8 })
            by (bit_vector)
            requires j < 8, k < 8;
    }
}

/// Setting or clearing one pixel gives that pixel the new value and leaves
/// every other pixel as it was.
pub proof fn lemma_with_pixel(bytes: Seq<u8>, p: int, val: bool, q: int)
    requires
        bytes.len() == 256,
        0 <= p < num_pixels(),
        0 <= q < num_pixels(),
    ensures
        with_pixel(bytes, p, val).len() == 256,
        pixel_bit(with_pixel(bytes, p, val), q) == if q == p {
            if val { 1u8 } else { 0u8 }
        } else {
            pixel_bit(bytes, q)
        },
{
    if q / 8 == p / 8 {
        lemma_byte_bit_update(bytes[p / 8], bit_of(p), bit_of(q), val);
    }
}

/// Two screens whose pixels all agree are the same bytes.
pub proof fn lemma_same_pixels(a: Seq<u8>, b: Seq<u8>)
    requires
        a.len() == 256,
        b.len() == 256,
        forall|p: int| 0 <= p < num_pixels() ==> #[trigger] pixel_bit(a, p) == pixel_bit(b, p),
    ensures
        a == b,
{
    assert forall|i: int| 0 <= i < 256 implies a[i] == b[i] by {
        let x = a[i];
        let y = b[i];
        assert(pixel_bit(a, 8 * i) == pixel_bit(b, 8 * i));
        assert(pixel_bit(a, 8 * i + 1) == pixel_bit(b, 8 * i + 1));
        assert(pixel_bit(a, 8 * i + 2) == pixel_bit(b, 8 * i + 2));
        assert(pixel_bit(a, 8 * i + 3) == pixel_bit(b, 8 * i + 3));
        assert(pixel_bit(a, 8 * i + 4) == pixel_bit(b, 8 * i + 4));
        assert(pixel_bit(a, 8 * i + 5) == pixel_bit(b, 8 * i + 5));
        assert(pixel_bit(a, 8 * i + 6) == pixel_bit(b, 8 * i + 6));
        assert(pixel_bit(a, 8 * i + 7) == pixel_bit(b, 8 * i + 7));
        assert(x == y) by (bit_vector)
            requires
                (x >> 7u8) & 1 == (y >> 7u8) & 1,
                (x >> 6u8) & 1 == (y >> 6u8) & 1,
                (x >> 5u8) & 1 == (y >> 5u8) & 1,
                (x >> 4u8) & 1 == (y >> 4u8) & 1,
                (x >> 3u8) & 1 == (y >> 3u8) & 1,
                (x >> 2u8) & 1 == (y >> 2u8) & 1,
                (x >> 1u8) & 1 == (y >> 1u8) & 1,
                (x >> 0u8) & 1 == (y >> 0u8) & 1,
        ;
    }
    assert(a =~= b);
}

/// Pixels are packed row by row, eight bytes to a row and eight pixels to a
/// byte, the leftmost pixel in the most significant bit: pixel (x, y) is
/// bit 7 - x % 8 of byte 8 * y + x / 8.
pub proof fn lemma_pixel_layout(bytes: Seq<u8>, x: int, y: int)
    requires
        0 <= x < 64,
        0 <= y < 32,
    ensures
        0 <= pixel_index(x, y) < num_pixels(),
        pixel_bit(bytes, pixel_index(x, y)) == (bytes[8 * y + x / 8] >> ((7 - x % 8) as u8)) & 1u8,
{
    assert(pixel_index(x, y) / 8 == 8 * y + x / 8);
    assert(pixel_index(x, y) % 8 == x % 8);
}

/// A blank screen holds 256 bytes.
pub proof fn lemma_blank_len()
    ensures
        blank().len() == 256,
{
}

/// Every pixel of a blank screen is off.
pub proof fn lemma_blank_pixel(q: int)
    requires
        0 <= q < num_pixels(),
    ensures
        pixel_bit(blank(), q) == 0,
{
    let k = bit_of(q);
    assert((0u8 >> k) & 1u8 == 0u8) by (bit_vector);
}

} // verus!
