use vstd::prelude::*;

verus! {

/// A dense single-channel grid of 8-bit intensities, stored row by row.
pub struct LumaGrid {
    pub width: u32,
    pub height: u32,
    pub data: Vec<u8>,
}

/// One four-channel output pixel.
#[derive(Clone, Copy, Debug, PartialEq, Eq, Structural)]
pub struct Rgba {
    pub r: u8,
    pub g: u8,
    pub b: u8,
    pub a: u8,
}

/// A dense four-channel grid, stored row by row.
pub struct RgbaGrid {
    pub width: u32,
    pub height: u32,
    pub pixels: Vec<Rgba>,
}

/// The cell `(x, y)` of a `width`-wide grid sits at `y * width + x`, inside
/// the `width * height` cells of the grid.
pub proof fn lemma_cell_index(width: int, height: int, x: int, y: int)
    requires
        0 <= x < width,
        0 <= y < height,
    ensures
        0 <= y * width + x < width * height,
{
    assert(0 <= y * width) by (nonlinear_arith)
        requires
            0 <= y,
            0 <= width,
    ;
    assert(y * width + x < width * height) by (nonlinear_arith)
        requires
            0 <= x < width,
            0 <= y < height,
    ;
}

impl LumaGrid {
    /// Every row holds exactly `width` samples.
    pub open spec fn wf(&self) -> bool {
        self.data@.len() == self.width * self.height
    }

    /// The intensity at column `x`, row `y`.
    pub open spec fn at(&self, x: int, y: int) -> int {
        self.data@[y * self.width + x] as int
    }

    /// Builds a grid from its rows laid end to end; `None` when `data` does
    /// not hold exactly `width * height` samples.
    pub fn from_raw(width: u32, height: u32, data: Vec<u8>) -> (r: Option<LumaGrid>)
        ensures
            r is Some <==> data@.len() == width * height,
            r matches Some(g) ==> g.width == width && g.height == height && g.data@ == data@,
    {
        let w = width as u64;
        let h = height as u64;
        assert(w * h <= u32::MAX as int * u32::MAX as int) by (nonlinear_arith)
            requires
                w <= u32::MAX,
                h <= u32::MAX,
        ;
        if data.len() as u64 == w * h {
            Some(LumaGrid { width, height, data })
        } else {
            None
        }
    }

    /// The intensity at column `x`, row `y`.
    pub fn get(&self, x: u32, y: u32) -> (v: u8)
        requires
            self.wf(),
            x < self.width,
            y < self.height,
        ensures
            v == self.at(x as int, y as int),
    {
        let len = self.data.len();
        proof {
            lemma_cell_index(self.width as int, self.height as int, x as int, y as int);
        }
        assert(y * self.width + x < len);
        self.data[y as usize * self.width as usize + x as usize]
    }
}

impl RgbaGrid {
    /// Every row holds exactly `width` pixels.
    pub open spec fn wf(&self) -> bool {
        self.pixels@.len() == self.width * self.height
    }

    /// The pixel at column `x`, row `y`.
    pub open spec fn pixel(&self, x: int, y: int) -> Rgba {
        self.pixels@[y * self.width + x]
    }

    /// The pixel at column `x`, row `y`.
    pub fn get(&self, x: u32, y: u32) -> (p: Rgba)
        requires
            self.wf(),
            x < self.width,
            y < self.height,
        ensures
            p == self.pixel(x as int, y as int),
    {
        let len = self.pixels.len();
        proof {
            lemma_cell_index(self.width as int, self.height as int, x as int, y as int);
        }
        assert(y * self.width + x < len);
        self.pixels[y as usize * self.width as usize + x as usize]
    }
}

} // verus!
