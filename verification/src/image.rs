//! The row-major pixel buffer and its plain-text pixel-map serialization:
//! a three-line header (format tag P3, the dimensions, the maximum
//! channel value 255), then one "R G B" line per pixel.

use vstd::prelude::*;

use crate::color::{color_line_s, write_color};
use crate::vec3::{Vec3, V3};

verus! {

/// The decimal digits of a nonnegative number, in ASCII.
pub open spec fn dec_s(n: int) -> Seq<u8>
    decreases n,
{
    if n < 10 {
        seq![(48 + if n >= 0 {
            n
        } else {
            0
        }) as u8]
    } else {
        dec_s(n / 10) + seq![(48 + n % 10) as u8]
    }
}

pub fn push_decimal(out: &mut Vec<u8>, n: u64)
    ensures
        final(out)@ == old(out)@ + dec_s(n as int),
    decreases n,
{
    if n >= 10 {
        push_decimal(out, n / 10);
    }
    out.push(48 + (n % 10) as u8);
    proof {
        assert(out@ =~= old(out)@ + dec_s(n as int));
    }
}

/// The header: "P3\n", the width and height separated by a space, "\n",
/// then "255\n".
pub open spec fn header_s(width: int, height: int) -> Seq<u8> {
    seq![80u8, 51u8, 10u8] + dec_s(width) + seq![32u8] + dec_s(height) + seq![10u8] + seq![
        50u8,
        53u8,
        53u8,
        10u8,
    ]
}

/// The first n pixel lines, in buffer order (row-major).
pub open spec fn lines_s(pixels: Seq<Vec3>, n: int) -> Seq<u8>
    decreases n,
{
    if n <= 0 {
        Seq::empty()
    } else {
        lines_s(pixels, n - 1) + color_line_s(pixels[n - 1]@)
    }
}

/// The whole serialized image.
pub open spec fn image_bytes_s(width: int, height: int, pixels: Seq<Vec3>) -> Seq<u8> {
    header_s(width, height) + lines_s(pixels, pixels.len() as int)
}

pub struct Image {
    pub width: usize,
    pub height: usize,
    pub pixels: Vec<Vec3>,
}

impl Image {
    /// The buffer holds exactly width * height pixels, row-major.
    pub open spec fn wf(self) -> bool {
        self.pixels@.len() == self.width * self.height
    }

    /// A fresh all-black image.
    pub fn new(width: usize, height: usize) -> (r: Image)
        requires
            width * height <= 0x1000_0000,
        ensures
            r.width == width,
            r.height == height,
            r.wf(),
            forall|i: int|
                0 <= i < r.pixels@.len() ==> (#[trigger] r.pixels@[i])@ == (V3 { x: 0, y: 0, z: 0 }),
    {
        let n = width * height;
        let mut pixels: Vec<Vec3> = Vec::new();
        let mut k: usize = 0;
        while k < n
            invariant
                0 <= k <= n,
                pixels@.len() == k,
                forall|i: int|
                    0 <= i < k ==> (#[trigger] pixels@[i])@ == (V3 { x: 0, y: 0, z: 0 }),
            decreases n - k,
        {
            pixels.push(Vec3 { x: 0, y: 0, z: 0 });
            k = k + 1;
        }
        Image { width, height, pixels }
    }

    /// Stores one pixel at (x, y), row-major.
    pub fn set_pixel(&mut self, x: usize, y: usize, color: Vec3)
        requires
            old(self).wf(),
            x < old(self).width,
            y < old(self).height,
        ensures
            final(self).wf(),
            final(self).width == old(self).width,
            final(self).height == old(self).height,
            final(self).pixels@ == old(self).pixels@.update(
                y * old(self).width + x,
                color,
            ),
    {
        let total = self.pixels.len();
        proof {
            assert(y * self.width + x < self.width * self.height) by (nonlinear_arith)
                requires
                    0 <= y && y < self.height && 0 <= x && x < self.width,
            ;
        }
        let idx = y * self.width + x;
        self.pixels.set(idx, color);
    }

    /// The serialized pixel map, exactly as image_bytes_s states it.
    pub fn to_bytes(&self) -> (r: Vec<u8>)
        requires
            self.wf(),
        ensures
            r@ == image_bytes_s(self.width as int, self.height as int, self.pixels@),
    {
        let mut out: Vec<u8> = Vec::new();
        out.push(80);
        out.push(51);
        out.push(10);
        push_decimal(&mut out, self.width as u64);
        out.push(32);
        push_decimal(&mut out, self.height as u64);
        out.push(10);
        out.push(50);
        out.push(53);
        out.push(53);
        out.push(10);
        proof {
            assert(out@ =~= header_s(self.width as int, self.height as int));
        }
        let n = self.pixels.len();
        let mut k: usize = 0;
        while k < n
            invariant
                0 <= k <= n,
                n == self.pixels@.len(),
                out@ == header_s(self.width as int, self.height as int) + lines_s(
                    self.pixels@,
                    k as int,
                ),
            decreases n - k,
        {
            write_color(&mut out, &self.pixels[k]);
            k = k + 1;
            proof {
                assert(out@ =~= header_s(self.width as int, self.height as int) + lines_s(
                    self.pixels@,
                    k as int,
                ));
            }
        }
        out
    }
}

} // verus!
