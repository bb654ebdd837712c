use vstd::prelude::*;

verus! {

/// A width x height grid of pixels. Each pixel has four channels (red,
/// green, blue, alpha), each an 8-bit unsigned integer, stored row-major
/// as four consecutive bytes per pixel.
pub struct Image {
    pub width: u32,
    pub height: u32,
    pub data: Vec<u8>,
}

impl Image {
    /// The buffer holds exactly four bytes for every pixel of the grid.
    pub open spec fn wf(self) -> bool {
        self.data@.len() == 4 * (self.width as int) * (self.height as int)
    }

    /// Channel `c` (0 = red, 1 = green, 2 = blue, 3 = alpha) of the pixel
    /// at column `x`, row `y`, as a mathematical integer.
    pub open spec fn chan(self, x: int, y: int, c: int) -> int {
        self.data@[4 * (y * (self.width as int) + x) + c] as int
    }

    /// Wraps a raw byte buffer as an image; refuses a buffer whose length
    /// does not match the dimensions.
    pub fn new(width: u32, height: u32, data: Vec<u8>) -> (r: Option<Image>)
        ensures
            match r {
                Some(im) => {
                    &&& im.wf()
                    &&& im.width == width
                    &&& im.height == height
                    &&& im.data@ == data@
                },
                None => data@.len() != 4 * (width as int) * (height as int),
            },
    {
        let w: u128 = width as u128;
        let h: u128 = height as u128;
        proof {
            assert(w * h <= 0xffff_fffe_0000_0001u128) by (nonlinear_arith)
                requires
                    w <= 0xffff_ffffu128,
                    h <= 0xffff_ffffu128,
            ;
            assert(4 * ((w as int) * (h as int)) == 4 * (width as int) * (height as int))
                by (nonlinear_arith)
                requires
                    w == width as int,
                    h == height as int,
            ;
        }
        let expected: u128 = 4 * (w * h);
        if data.len() as u128 == expected {
            Some(Image { width, height, data })
        } else {
            None
        }
    }

    /// The byte index of channel `c` of pixel (`x`, `y`).
    fn byte_index(&self, x: u32, y: u32, c: u32) -> (i: usize)
        requires
            self.wf(),
            x < self.width,
            y < self.height,
            c < 4,
        ensures
            i == 4 * ((y as int) * (self.width as int) + (x as int)) + (c as int),
            i < self.data@.len(),
    {
        proof {
            assert((y as u128) * (self.width as u128) <= 0xffff_fffe_0000_0001u128)
                by (nonlinear_arith)
                requires
                    (y as u128) <= 0xffff_ffffu128,
                    (self.width as u128) <= 0xffff_ffffu128,
            ;
        }
        let idx: u128 = 4 * ((y as u128) * (self.width as u128) + (x as u128)) + (c as u128);
        let _n: usize = self.data.len();
        proof {
            let w = self.width as int;
            let h = self.height as int;
            assert(0 <= 4 * ((y as int) * w + (x as int)) + (c as int) < 4 * w * h)
                by (nonlinear_arith)
                requires
                    (x as int) < w,
                    (y as int) < h,
                    0 <= x,
                    0 <= y,
                    0 <= c < 4,
            ;
            assert(idx == 4 * ((y as int) * w + (x as int)) + (c as int)) by (nonlinear_arith)
                requires
                    idx == 4 * ((y as u128) * (self.width as u128) + (x as u128)) + (c as u128),
                    w == self.width as int,
            ;
        }
        idx as usize
    }

    /// Reads the four channels of the pixel at (`x`, `y`).
    pub fn get_pixel(&self, x: u32, y: u32) -> (p: (u8, u8, u8, u8))
        requires
            self.wf(),
            x < self.width,
            y < self.height,
        ensures
            p.0 as int == self.chan(x as int, y as int, 0),
            p.1 as int == self.chan(x as int, y as int, 1),
            p.2 as int == self.chan(x as int, y as int, 2),
            p.3 as int == self.chan(x as int, y as int, 3),
    {
        let r = self.data[self.byte_index(x, y, 0)];
        let g = self.data[self.byte_index(x, y, 1)];
        let b = self.data[self.byte_index(x, y, 2)];
        let a = self.data[self.byte_index(x, y, 3)];
        (r, g, b, a)
    }

    /// Overwrites the four channels of the pixel at (`x`, `y`); every other
    /// pixel keeps its value, and the dimensions do not change.
    pub fn put_pixel(&mut self, x: u32, y: u32, p: (u8, u8, u8, u8))
        requires
            old(self).wf(),
            x < old(self).width,
            y < old(self).height,
        ensures
            final(self).wf(),
            final(self).width == old(self).width,
            final(self).height == old(self).height,
            final(self).chan(x as int, y as int, 0) == p.0 as int,
            final(self).chan(x as int, y as int, 1) == p.1 as int,
            final(self).chan(x as int, y as int, 2) == p.2 as int,
            final(self).chan(x as int, y as int, 3) == p.3 as int,
            forall|xx: int, yy: int, cc: int|
                0 <= xx < old(self).width && 0 <= yy < old(self).height && 0 <= cc < 4
                    && (xx != x || yy != y)
                    ==> final(self).chan(xx, yy, cc) == old(self).chan(xx, yy, cc),
    {
        let i0 = self.byte_index(x, y, 0);
        self.data.set(i0, p.0);
        let i1 = self.byte_index(x, y, 1);
        self.data.set(i1, p.1);
        let i2 = self.byte_index(x, y, 2);
        self.data.set(i2, p.2);
        let i3 = self.byte_index(x, y, 3);
        self.data.set(i3, p.3);
        proof {
            let w = old(self).width as int;
            let h = old(self).height as int;
            let px = x as int;
            let py = y as int;
            assert forall|xx: int, yy: int, cc: int|
                0 <= xx < w && 0 <= yy < h && 0 <= cc < 4 && (xx != px || yy != py)
                    implies self.chan(xx, yy, cc) == old(self).chan(xx, yy, cc) by {
                assert(0 <= 4 * (yy * w + xx) + cc < 4 * w * h
                    && 4 * (yy * w + xx) + cc != 4 * (py * w + px) + 0
                    && 4 * (yy * w + xx) + cc != 4 * (py * w + px) + 1
                    && 4 * (yy * w + xx) + cc != 4 * (py * w + px) + 2
                    && 4 * (yy * w + xx) + cc != 4 * (py * w + px) + 3)
                    by (nonlinear_arith)
                    requires
                        0 <= xx < w,
                        0 <= yy < h,
                        0 <= cc < 4,
                        xx != px || yy != py,
                        0 <= px < w,
                        0 <= py < h,
                ;
            }
        }
    }
}

} // verus!
