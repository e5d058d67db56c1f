//! An owned rectangular pixel grid: row-major, interleaved channels,
//! one byte per sample. One channel is grayscale, three colour, four
//! colour plus alpha.

use vstd::prelude::*;

verus! {

/// An owned pixel buffer.
pub struct Image {
    width: usize,
    height: usize,
    channels: usize,
    data: Vec<u8>,
}

impl Image {
    pub closed spec fn spec_width(self) -> int {
        self.width as int
    }

    pub closed spec fn spec_height(self) -> int {
        self.height as int
    }

    pub closed spec fn spec_channels(self) -> int {
        self.channels as int
    }

    /// The samples, row-major, channels interleaved.
    pub closed spec fn bytes(self) -> Seq<u8> {
        self.data@
    }

    pub open spec fn wf(self) -> bool {
        &&& 0 < self.spec_width() <= 0x8000
        &&& 0 < self.spec_height() <= 0x8000
        &&& 1 <= self.spec_channels() <= 4
        &&& self.bytes().len() == self.spec_width() * self.spec_height() * self.spec_channels()
    }

    /// The sample of channel `c` at column `x`, row `y`.
    pub open spec fn val(self, x: int, y: int, c: int) -> int {
        self.bytes()[(y * self.spec_width() + x) * self.spec_channels() + c] as int
    }

    pub fn new(width: usize, height: usize, channels: usize, data: Vec<u8>) -> (r: Image)
        requires
            0 < width <= 0x8000,
            0 < height <= 0x8000,
            1 <= channels <= 4,
            data@.len() == width * height * channels,
        ensures
            r.wf(),
            r.spec_width() == width,
            r.spec_height() == height,
            r.spec_channels() == channels,
            r.bytes() == data@,
    {
        Image { width, height, channels, data }
    }

    pub fn width(&self) -> (r: usize)
        ensures
            r == self.spec_width(),
    {
        self.width
    }

    pub fn height(&self) -> (r: usize)
        ensures
            r == self.spec_height(),
    {
        self.height
    }

    pub fn channels(&self) -> (r: usize)
        ensures
            r == self.spec_channels(),
    {
        self.channels
    }

    proof fn lemma_sample_in_bounds(self, x: int, y: int, c: int)
        requires
            self.wf(),
            0 <= x < self.spec_width(),
            0 <= y < self.spec_height(),
            0 <= c < self.spec_channels(),
        ensures
            0 <= (y * self.spec_width() + x) * self.spec_channels() + c < self.bytes().len(),
            (y * self.spec_width() + x) * self.spec_channels() + c < 0x1_0000_0000,
            0 <= y * self.spec_width(),
            y * self.spec_width() + x < 0x4000_0000,
    {
        let w = self.spec_width();
        let h = self.spec_height();
        let ch = self.spec_channels();
        vstd::arithmetic::mul::lemma_mul_nonnegative(y, w);
        vstd::arithmetic::mul::lemma_mul_nonnegative(y * w + x, ch);
        vstd::arithmetic::mul::lemma_mul_inequality(y, h - 1, w);
        assert((h - 1) * w == h * w - w) by (nonlinear_arith);
        assert((y * w + x) * ch + c < (h * w) * ch) by (nonlinear_arith)
            requires
                y * w <= (h - 1) * w,
                0 <= x < w,
                0 <= c < ch,
                0 < ch,
                0 < w,
                (h - 1) * w == h * w - w,
        ;
        assert(h * w * ch == self.bytes().len());
        vstd::arithmetic::mul::lemma_mul_upper_bound(h, 0x8000, w, 0x8000);
        vstd::arithmetic::mul::lemma_mul_upper_bound(h * w, 0x4000_0000, ch, 4);
    }

    pub fn at(&self, x: usize, y: usize, c: usize) -> (r: u8)
        requires
            self.wf(),
            x < self.spec_width(),
            y < self.spec_height(),
            c < self.spec_channels(),
        ensures
            r == self.val(x as int, y as int, c as int),
    {
        proof {
            self.lemma_sample_in_bounds(x as int, y as int, c as int);
        }
        self.data[(y * self.width + x) * self.channels + c]
    }
}

} // verus!
