use vstd::prelude::*;

verus! {

/// An axis-aligned pixel rectangle: top-left corner plus extent.
#[derive(Clone, Copy, Debug, PartialEq, Eq, Structural)]
pub struct Rect {
    pub x: u32,
    pub y: u32,
    pub width: u32,
    pub height: u32,
}

impl Rect {
    /// Number of pixels covered.
    pub open spec fn area(self) -> int {
        self.width * self.height
    }

    /// The rectangle holds at least one pixel.
    pub open spec fn is_nonempty(self) -> bool {
        self.width >= 1 && self.height >= 1
    }

    /// The rectangle lies entirely inside a raster of the given dimensions.
    pub open spec fn within(self, width: int, height: int) -> bool {
        &&& self.x + self.width <= width
        &&& self.y + self.height <= height
    }
}

/// A 16-bit grayscale raster: row-major pixel rows, `0` black, full scale
/// white.  Dimensions are bounded so that every coordinate and pixel-count
/// computation of the pipeline fits comfortably in machine integers.
#[derive(Clone, Debug)]
pub struct Raster16 {
    pub width: u32,
    pub height: u32,
    pub pixels: Vec<u16>,
}

impl Raster16 {
    pub open spec fn wf(self) -> bool {
        &&& self.pixels@.len() == self.width * self.height
        &&& self.width <= 0xFFFF
        &&& self.height <= 0xFFFF
    }

    /// The tone of the pixel at column `x`, row `y`.
    pub open spec fn pixel(self, x: int, y: int) -> u16 {
        self.pixels@[y * self.width + x]
    }

    /// The row-major index of `(x, y)` stays inside the pixel vector.
    proof fn lemma_index_in_range(self, x: int, y: int)
        requires
            self.wf(),
            0 <= x < self.width,
            0 <= y < self.height,
        ensures
            0 <= y * self.width + x < self.pixels@.len(),
            y * self.width + x < 0xFFFF_FFFF,
    {
        assert(0 <= y * self.width + x && y * self.width + x < self.width * self.height
            && self.width * self.height <= 0xFFFF * 0xFFFF)
            by (nonlinear_arith)
            requires
                0 <= x < self.width,
                0 <= y < self.height,
                self.width <= 0xFFFF,
                self.height <= 0xFFFF,
        ;
    }

    /// A raster of the given dimensions with every pixel `0`.
    pub fn new(width: u32, height: u32) -> (r: Raster16)
        requires
            width <= 0xFFFF,
            height <= 0xFFFF,
        ensures
            r.wf(),
            r.width == width,
            r.height == height,
            forall|i: int| 0 <= i < r.pixels@.len() ==> r.pixels@[i] == 0,
    {
        let ww: usize = width as usize;
        let hh: usize = height as usize;
        assert(ww * hh <= 0xFFFF * 0xFFFF) by (nonlinear_arith)
            requires
                ww <= 0xFFFF,
                hh <= 0xFFFF,
        ;
        let n: usize = ww * hh;
        let mut pixels: Vec<u16> = Vec::new();
        let mut i: usize = 0;
        while i < n
            invariant
                i <= n,
                pixels@.len() == i,
                forall|j: int| 0 <= j < i ==> pixels@[j] == 0,
            decreases n - i,
        {
            pixels.push(0);
            i = i + 1;
        }
        Raster16 { width, height, pixels }
    }

    /// Wraps an existing row-major pixel vector.
    pub fn from_pixels(width: u32, height: u32, pixels: Vec<u16>) -> (r: Raster16)
        requires
            width <= 0xFFFF,
            height <= 0xFFFF,
            pixels@.len() == width * height,
        ensures
            r.wf(),
            r.width == width,
            r.height == height,
            r.pixels == pixels,
    {
        Raster16 { width, height, pixels }
    }

    /// Reads the pixel at `(x, y)`.
    pub fn get(&self, x: u32, y: u32) -> (p: u16)
        requires
            self.wf(),
            x < self.width,
            y < self.height,
        ensures
            p == self.pixel(x as int, y as int),
    {
        let yy: usize = y as usize;
        let ww: usize = self.width as usize;
        let xx: usize = x as usize;
        proof {
            self.lemma_index_in_range(x as int, y as int);
            assert(yy * ww == y * self.width) by (nonlinear_arith)
                requires
                    yy == y,
                    ww == self.width,
            ;
        }
        self.pixels[yy * ww + xx]
    }
}

/// An 8-bit raster, used for grid detection: a nonzero pixel marks an edge.
#[derive(Clone, Debug)]
pub struct Raster8 {
    pub width: u32,
    pub height: u32,
    pub pixels: Vec<u8>,
}

impl Raster8 {
    pub open spec fn wf(self) -> bool {
        &&& self.pixels@.len() == self.width * self.height
        &&& self.width <= 0xFFFF
        &&& self.height <= 0xFFFF
    }

    pub open spec fn pixel(self, x: int, y: int) -> u8 {
        self.pixels@[y * self.width + x]
    }

    proof fn lemma_index_in_range(self, x: int, y: int)
        requires
            self.wf(),
            0 <= x < self.width,
            0 <= y < self.height,
        ensures
            0 <= y * self.width + x < self.pixels@.len(),
            y * self.width + x < 0xFFFF_FFFF,
    {
        assert(0 <= y * self.width + x && y * self.width + x < self.width * self.height
            && self.width * self.height <= 0xFFFF * 0xFFFF)
            by (nonlinear_arith)
            requires
                0 <= x < self.width,
                0 <= y < self.height,
                self.width <= 0xFFFF,
                self.height <= 0xFFFF,
        ;
    }

    /// A raster of the given dimensions with every pixel `0`.
    pub fn new(width: u32, height: u32) -> (r: Raster8)
        requires
            width <= 0xFFFF,
            height <= 0xFFFF,
        ensures
            r.wf(),
            r.width == width,
            r.height == height,
            forall|i: int| 0 <= i < r.pixels@.len() ==> r.pixels@[i] == 0,
    {
        let ww: usize = width as usize;
        let hh: usize = height as usize;
        assert(ww * hh <= 0xFFFF * 0xFFFF) by (nonlinear_arith)
            requires
                ww <= 0xFFFF,
                hh <= 0xFFFF,
        ;
        let n: usize = ww * hh;
        let mut pixels: Vec<u8> = Vec::new();
        let mut i: usize = 0;
        while i < n
            invariant
                i <= n,
                pixels@.len() == i,
                forall|j: int| 0 <= j < i ==> pixels@[j] == 0,
            decreases n - i,
        {
            pixels.push(0);
            i = i + 1;
        }
        Raster8 { width, height, pixels }
    }

    /// Wraps an existing row-major pixel vector.
    pub fn from_pixels(width: u32, height: u32, pixels: Vec<u8>) -> (r: Raster8)
        requires
            width <= 0xFFFF,
            height <= 0xFFFF,
            pixels@.len() == width * height,
        ensures
            r.wf(),
            r.width == width,
            r.height == height,
            r.pixels == pixels,
    {
        Raster8 { width, height, pixels }
    }

    /// Reads the pixel at `(x, y)`.
    pub fn get(&self, x: u32, y: u32) -> (p: u8)
        requires
            self.wf(),
            x < self.width,
            y < self.height,
        ensures
            p == self.pixel(x as int, y as int),
    {
        let yy: usize = y as usize;
        let ww: usize = self.width as usize;
        let xx: usize = x as usize;
        proof {
            self.lemma_index_in_range(x as int, y as int);
            assert(yy * ww == y * self.width) by (nonlinear_arith)
                requires
                    yy == y,
                    ww == self.width,
            ;
        }
        self.pixels[yy * ww + xx]
    }
}

} // verus!
