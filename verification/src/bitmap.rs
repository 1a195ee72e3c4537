use vstd::pervasive::VecAdditionalExecFns;
use vstd::prelude::*;

verus! {

/// An RGBA8 pixel buffer in row-major order: four bytes per pixel, rows from
/// top to bottom. This is the only pixel representation the library uses,
/// both for source images and for the composited atlas.
#[derive(Debug, Clone)]
pub struct Bitmap {
    /// Width in pixels.
    pub width: u32,
    /// Height in pixels.
    pub height: u32,
    /// The pixel bytes; exactly `4 * width * height` of them.
    pub data: Vec<u8>,
}

/// The byte offset of component `c` of the pixel at `(x, y)` in a buffer
/// `width` pixels wide.
pub open spec fn pix_off(width: u32, x: int, y: int, c: int) -> int {
    4 * (y * width + x) + c
}

/// Component `c` (0 red, 1 green, 2 blue, 3 alpha) of the pixel at `(x, y)`.
pub open spec fn byte_at(b: Bitmap, x: int, y: int, c: int) -> u8 {
    b.data@[pix_off(b.width, x, y, c)]
}

impl Bitmap {
    /// A bitmap is well-formed when its byte count matches its dimensions.
    pub open spec fn wf(self) -> bool {
        self.data@.len() == 4 * self.width * self.height
    }
}

/// Every component of an in-range pixel lies inside the buffer.
pub proof fn lemma_pix_off_in_range(width: u32, height: u32, x: int, y: int, c: int)
    requires
        0 <= x < width,
        0 <= y < height,
        0 <= c < 4,
    ensures
        0 <= pix_off(width, x, y, c),
        pix_off(width, x, y, c) < 4 * width * height,
{
    assert(0 <= 4 * (y * width + x) + c && 4 * (y * width + x) + c < 4 * width
        * height) by (nonlinear_arith)
        requires
            0 <= x < width,
            0 <= y < height,
            0 <= c < 4,
    ;
}

/// Distinct in-range pixels occupy distinct byte ranges: no component of one
/// is a component of the other.
pub proof fn lemma_pix_off_distinct(
    width: u32,
    x1: int,
    y1: int,
    c1: int,
    x2: int,
    y2: int,
    c2: int,
)
    requires
        0 <= x1 < width,
        0 <= x2 < width,
        0 <= y1,
        0 <= y2,
        0 <= c1 < 4,
        0 <= c2 < 4,
        !(x1 == x2 && y1 == y2 && c1 == c2),
    ensures
        pix_off(width, x1, y1, c1) != pix_off(width, x2, y2, c2),
{
    if x1 != x2 || y1 != y2 {
        assert(y1 * width + x1 != y2 * width + x2) by (nonlinear_arith)
            requires
                0 <= x1 < width,
                0 <= x2 < width,
                0 <= y1,
                0 <= y2,
                !(x1 == x2 && y1 == y2),
        ;
    }
}

/// The byte count of a bitmap is far below `u128` range, so it can be
/// computed there without wrapping.
proof fn lemma_byte_count_small(width: u32, height: u32)
    ensures
        0 <= 4 * (width as int) * (height as int) <= 0x4_0000_0000_0000_0000,
{
    assert(0 <= 4 * (width as int) * (height as int) <= 4 * 0xffff_ffff
        * 0xffff_ffff) by (nonlinear_arith)
        requires
            0 <= width as int <= 0xffff_ffff,
            0 <= height as int <= 0xffff_ffff,
    ;
}

impl Bitmap {
    /// An all-zero (transparent black) bitmap of the given size, or nothing
    /// when `4 * width * height` bytes do not fit in memory's address range.
    pub fn new_zeroed(width: u32, height: u32) -> (r: Option<Bitmap>)
        ensures
            match r {
                Some(b) => {
                    &&& b.wf()
                    &&& b.width == width
                    &&& b.height == height
                    &&& forall|i: int| 0 <= i < b.data@.len() ==> b.data@[i] == 0u8
                },
                None => 4 * (width as int) * (height as int) > usize::MAX,
            },
    {
        proof {
            lemma_byte_count_small(width, height);
        }
        let bytes: u128 = 4u128 * (width as u128) * (height as u128);
        if bytes > usize::MAX as u128 {
            return None;
        }
        let n = bytes as usize;
        let data: Vec<u8> = vec![0u8; n];
        Some(Bitmap { width, height, data })
    }

    /// Wrap raw RGBA8 bytes, or hand them back when the byte count does not
    /// match the dimensions.
    pub fn from_raw(width: u32, height: u32, data: Vec<u8>) -> (r: Result<Bitmap, Vec<u8>>)
        ensures
            match r {
                Ok(b) => {
                    &&& b.wf()
                    &&& b.width == width
                    &&& b.height == height
                    &&& b.data@ == data@
                    &&& data@.len() == 4 * (width as int) * (height as int)
                },
                Err(d) => {
                    &&& d@ == data@
                    &&& data@.len() != 4 * (width as int) * (height as int)
                },
            },
    {
        proof {
            lemma_byte_count_small(width, height);
        }
        let bytes: u128 = 4u128 * (width as u128) * (height as u128);
        if (data.len() as u128) == bytes {
            Ok(Bitmap { width, height, data })
        } else {
            Err(data)
        }
    }

    /// Read one component of one pixel.
    pub fn byte(&self, x: u32, y: u32, c: u32) -> (r: u8)
        requires
            self.wf(),
            x < self.width,
            y < self.height,
            c < 4,
        ensures
            r == byte_at(*self, x as int, y as int, c as int),
    {
        let n = self.data.len();
        proof {
            lemma_pix_off_in_range(self.width, self.height, x as int, y as int, c as int);
            assert(4 * ((y as int) * (self.width as int) + (x as int)) + (c as int) < n as int);
        }
        let off: usize = 4 * ((y as usize) * (self.width as usize) + (x as usize)) + (c as usize);
        proof {
            assert(off == pix_off(self.width, x as int, y as int, c as int));
        }
        self.data[off]
    }

    /// Write one component of one pixel; every other byte stays put.
    pub fn set_byte(&mut self, x: u32, y: u32, c: u32, v: u8)
        requires
            old(self).wf(),
            x < old(self).width,
            y < old(self).height,
            c < 4,
        ensures
            final(self).wf(),
            final(self).width == old(self).width,
            final(self).height == old(self).height,
            byte_at(*final(self), x as int, y as int, c as int) == v,
            forall|x2: int, y2: int, c2: int|
                0 <= x2 < old(self).width && 0 <= y2 < old(self).height && 0 <= c2 < 4 && !(x2
                    == x as int && y2 == y as int && c2 == c as int) ==> byte_at(
                    *final(self),
                    x2,
                    y2,
                    c2,
                ) == byte_at(*old(self), x2, y2, c2),
    {
        let n = self.data.len();
        proof {
            lemma_pix_off_in_range(self.width, self.height, x as int, y as int, c as int);
            assert(4 * ((y as int) * (self.width as int) + (x as int)) + (c as int) < n as int);
        }
        let off: usize = 4 * ((y as usize) * (self.width as usize) + (x as usize)) + (c as usize);
        proof {
            assert(off == pix_off(self.width, x as int, y as int, c as int));
        }
        self.data.set(off, v);
        proof {
            assert forall|x2: int, y2: int, c2: int|
                0 <= x2 < self.width && 0 <= y2 < self.height && 0 <= c2 < 4 && !(x2 == x as int
                    && y2 == y as int && c2 == c as int) implies byte_at(*self, x2, y2, c2)
                == byte_at(*old(self), x2, y2, c2) by {
                lemma_pix_off_distinct(self.width, x2, y2, c2, x as int, y as int, c as int);
                lemma_pix_off_in_range(self.width, self.height, x2, y2, c2);
            }
        }
    }

    /// Copy `src` into this bitmap with its top-left corner at `(px, py)`:
    /// afterwards the target region holds exactly `src`'s pixels and every
    /// pixel outside it is untouched.
    pub fn blit(&mut self, src: &Bitmap, px: u32, py: u32)
        requires
            old(self).wf(),
            src.wf(),
            px + src.width <= old(self).width,
            py + src.height <= old(self).height,
        ensures
            final(self).wf(),
            final(self).width == old(self).width,
            final(self).height == old(self).height,
            forall|x: int, y: int, c: int|
                px <= x < px + src.width && py <= y < py + src.height && 0 <= c < 4 ==> byte_at(
                    *final(self),
                    x,
                    y,
                    c,
                ) == byte_at(*src, x - px, y - py, c),
            forall|x: int, y: int, c: int|
                0 <= x < old(self).width && 0 <= y < old(self).height && 0 <= c < 4 && !(px <= x
                    < px + src.width && py <= y < py + src.height) ==> byte_at(
                    *final(self),
                    x,
                    y,
                    c,
                ) == byte_at(*old(self), x, y, c),
    {
        let ghost orig = *old(self);
        let mut y: u32 = 0;
        while y < src.height
            invariant
                self.wf(),
                src.wf(),
                self.width == orig.width,
                self.height == orig.height,
                px + src.width <= orig.width,
                py + src.height <= orig.height,
                y <= src.height,
                forall|x2: int, y2: int, c2: int|
                    px <= x2 < px + src.width && py <= y2 < py + y && 0 <= c2 < 4 ==> byte_at(
                        *self,
                        x2,
                        y2,
                        c2,
                    ) == byte_at(*src, x2 - px, y2 - py, c2),
                forall|x2: int, y2: int, c2: int|
                    0 <= x2 < orig.width && 0 <= y2 < orig.height && 0 <= c2 < 4 && !(px <= x2 < px
                        + src.width && py <= y2 < py + src.height) ==> byte_at(*self, x2, y2, c2)
                        == byte_at(orig, x2, y2, c2),
            decreases src.height - y,
        {
            let ghost drow: int = py + y;
            let mut x: u32 = 0;
            while x < src.width
                invariant
                    self.wf(),
                    src.wf(),
                    self.width == orig.width,
                    self.height == orig.height,
                    px + src.width <= orig.width,
                    py + src.height <= orig.height,
                    y < src.height,
                    x <= src.width,
                    forall|x2: int, y2: int, c2: int|
                        px <= x2 < px + src.width && py <= y2 < py + y && 0 <= c2 < 4 ==> byte_at(
                            *self,
                            x2,
                            y2,
                            c2,
                        ) == byte_at(*src, x2 - px, y2 - py, c2),
                    drow == py + y,
                    forall|x2: int, c2: int|
                        px <= x2 < px + x && 0 <= c2 < 4 ==> byte_at(*self, x2, drow, c2)
                            == byte_at(*src, x2 - px, y as int, c2),
                    forall|x2: int, y2: int, c2: int|
                        0 <= x2 < orig.width && 0 <= y2 < orig.height && 0 <= c2 < 4 && !(px <= x2
                            < px + src.width && py <= y2 < py + src.height) ==> byte_at(
                            *self,
                            x2,
                            y2,
                            c2,
                        ) == byte_at(orig, x2, y2, c2),
                decreases src.width - x,
            {
                let ghost dx: int = px + x;
                let mut c: u32 = 0;
                while c < 4
                    invariant
                        self.wf(),
                        src.wf(),
                        self.width == orig.width,
                        self.height == orig.height,
                        px + src.width <= orig.width,
                        py + src.height <= orig.height,
                        y < src.height,
                        x < src.width,
                        c <= 4,
                        forall|x2: int, y2: int, c2: int|
                            px <= x2 < px + src.width && py <= y2 < py + y && 0 <= c2 < 4
                                ==> byte_at(*self, x2, y2, c2) == byte_at(*src, x2 - px, y2 - py, c2),
                        drow == py + y,
                        dx == px + x,
                        forall|x2: int, c2: int|
                            px <= x2 < px + x && 0 <= c2 < 4 ==> byte_at(*self, x2, drow, c2)
                                == byte_at(*src, x2 - px, y as int, c2),
                        forall|c2: int|
                            0 <= c2 < c ==> byte_at(*self, dx, drow, c2) == byte_at(
                                *src,
                                x as int,
                                y as int,
                                c2,
                            ),
                        forall|x2: int, y2: int, c2: int|
                            0 <= x2 < orig.width && 0 <= y2 < orig.height && 0 <= c2 < 4 && !(px
                                <= x2 < px + src.width && py <= y2 < py + src.height) ==> byte_at(
                                *self,
                                x2,
                                y2,
                                c2,
                            ) == byte_at(orig, x2, y2, c2),
                    decreases 4 - c,
                {
                    let v = src.byte(x, y, c);
                    self.set_byte(px + x, py + y, c, v);
                    c += 1;
                }
                x += 1;
            }
            y += 1;
        }
    }
}

/// A premultiplied color channel scaled back to straight alpha: the channel
/// is divided by the alpha (in 8-bit arithmetic, saturating at 255); a fully
/// transparent pixel's channels collapse to 0.
pub open spec fn unpremul_channel(c: u8, a: u8) -> u8 {
    if a == 0 {
        0u8
    } else if (c as int) * 255 / (a as int) > 255 {
        255u8
    } else {
        ((c as int) * 255 / (a as int)) as u8
    }
}

/// Undo premultiplication of one channel value.
pub fn unpremultiply_channel(c: u8, a: u8) -> (r: u8)
    ensures
        r == unpremul_channel(c, a),
{
    if a == 0 {
        0
    } else {
        let v: u32 = (c as u32) * 255 / (a as u32);
        if v > 255 {
            255
        } else {
            v as u8
        }
    }
}

impl Bitmap {
    /// Undo premultiplied alpha in place: every color channel is divided by
    /// its pixel's alpha, and the alpha channel itself stays put. Images
    /// flagged premultiplied go through this before they enter the atlas,
    /// since the renderer composites everything as straight alpha.
    pub fn unpremultiply(&mut self)
        requires
            old(self).wf(),
        ensures
            final(self).wf(),
            final(self).width == old(self).width,
            final(self).height == old(self).height,
            forall|x: int, y: int, c: int|
                0 <= x < old(self).width && 0 <= y < old(self).height && 0 <= c < 3 ==> byte_at(
                    *final(self),
                    x,
                    y,
                    c,
                ) == unpremul_channel(
                    byte_at(*old(self), x, y, c),
                    byte_at(*old(self), x, y, 3),
                ),
            forall|x: int, y: int|
                0 <= x < old(self).width && 0 <= y < old(self).height ==> byte_at(
                    *final(self),
                    x,
                    y,
                    3,
                ) == byte_at(*old(self), x, y, 3),
    {
        let ghost orig = *old(self);
        let mut y: u32 = 0;
        while y < self.height
            invariant
                self.wf(),
                self.width == orig.width,
                self.height == orig.height,
                y <= self.height,
                forall|x2: int, y2: int, c2: int|
                    0 <= x2 < orig.width && 0 <= y2 < y && 0 <= c2 < 3 ==> byte_at(
                        *self,
                        x2,
                        y2,
                        c2,
                    ) == unpremul_channel(byte_at(orig, x2, y2, c2), byte_at(orig, x2, y2, 3)),
                forall|x2: int, y2: int, c2: int|
                    0 <= x2 < orig.width && 0 <= y2 < orig.height && 0 <= c2 < 4 && (y2 >= y || c2
                        == 3) ==> byte_at(*self, x2, y2, c2) == byte_at(orig, x2, y2, c2),
            decreases self.height - y,
        {
            let mut x: u32 = 0;
            while x < self.width
                invariant
                    self.wf(),
                    self.width == orig.width,
                    self.height == orig.height,
                    y < self.height,
                    x <= self.width,
                    forall|x2: int, y2: int, c2: int|
                        0 <= x2 < orig.width && 0 <= y2 < y && 0 <= c2 < 3 ==> byte_at(
                            *self,
                            x2,
                            y2,
                            c2,
                        ) == unpremul_channel(byte_at(orig, x2, y2, c2), byte_at(orig, x2, y2, 3)),
                    forall|x2: int, c2: int|
                        0 <= x2 < x && 0 <= c2 < 3 ==> byte_at(*self, x2, y as int, c2)
                            == unpremul_channel(
                            byte_at(orig, x2, y as int, c2),
                            byte_at(orig, x2, y as int, 3),
                        ),
                    forall|x2: int, y2: int, c2: int|
                        0 <= x2 < orig.width && 0 <= y2 < orig.height && 0 <= c2 < 4 && (y2 > y || (
                        y2 == y && x2 >= x) || c2 == 3) ==> byte_at(*self, x2, y2, c2) == byte_at(
                            orig,
                            x2,
                            y2,
                            c2,
                        ),
                decreases self.width - x,
            {
                let a = self.byte(x, y, 3);
                let r = self.byte(x, y, 0);
                let g = self.byte(x, y, 1);
                let b = self.byte(x, y, 2);
                self.set_byte(x, y, 0, unpremultiply_channel(r, a));
                self.set_byte(x, y, 1, unpremultiply_channel(g, a));
                self.set_byte(x, y, 2, unpremultiply_channel(b, a));
                x += 1;
            }
            y += 1;
        }
    }
}

} // verus!
