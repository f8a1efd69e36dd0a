use vstd::prelude::*;

use crate::grid::{lemma_cell_index, LumaGrid, Rgba, RgbaGrid};

verus! {

/// The largest sum of squares whose rounded root still fits below 255:
/// `254 * 254 + 254`.
pub const LAST_UNSATURATED: u32 = 64770;

/// Response of the horizontal kernel
/// ```text
/// -1  0  1
/// -2  0  2
/// -1  0  1
/// ```
/// centred on `(x, y)`.
pub open spec fn horizontal_gradient(g: LumaGrid, x: int, y: int) -> int {
    (g.at(x + 1, y - 1) + 2 * g.at(x + 1, y) + g.at(x + 1, y + 1)) - (g.at(x - 1, y - 1) + 2
        * g.at(x - 1, y) + g.at(x - 1, y + 1))
}

/// Response of the vertical kernel
/// ```text
/// -1 -2 -1
///  0  0  0
///  1  2  1
/// ```
/// centred on `(x, y)`.
pub open spec fn vertical_gradient(g: LumaGrid, x: int, y: int) -> int {
    (g.at(x - 1, y + 1) + 2 * g.at(x, y + 1) + g.at(x + 1, y + 1)) - (g.at(x - 1, y - 1) + 2
        * g.at(x, y - 1) + g.at(x + 1, y - 1))
}

/// `gx² + gy²` at `(x, y)`.
pub open spec fn squared_magnitude(g: LumaGrid, x: int, y: int) -> int {
    horizontal_gradient(g, x, y) * horizontal_gradient(g, x, y) + vertical_gradient(g, x, y)
        * vertical_gradient(g, x, y)
}

/// `r` is the integer nearest to the square root of `n`: `r - 1/2 <= sqrt(n) < r + 1/2`.
pub open spec fn is_rounded_root(n: int, r: int) -> bool {
    &&& 0 <= r
    &&& r == 0 || r * r - r < n
    &&& n <= r * r + r
}

/// The square root of `n` rounded to the nearest integer, saturated at 255.
pub open spec fn saturated_root(n: int) -> int {
    if n > LAST_UNSATURATED {
        255
    } else {
        choose|r: int| is_rounded_root(n, r)
    }
}

/// The pixel that a cell receives when no gradient is computed for it.
pub open spec fn border_pixel() -> Rgba {
    Rgba { r: 0, g: 0, b: 0, a: 255 }
}

/// A gray, opaque pixel of level `v`.
pub open spec fn gray_pixel(v: u8) -> Rgba {
    Rgba { r: v, g: v, b: v, a: 255 }
}

/// `(x, y)` has a full 3×3 neighbourhood in a `width × height` grid.
pub open spec fn is_interior(width: int, height: int, x: int, y: int) -> bool {
    1 <= x < width - 1 && 1 <= y < height - 1
}

/// The output pixel at `(x, y)` of the edge map of `g`.
pub open spec fn edge_pixel(g: LumaGrid, x: int, y: int) -> Rgba {
    if is_interior(g.width as int, g.height as int, x, y) {
        gray_pixel(saturated_root(squared_magnitude(g, x, y)) as u8)
    } else {
        border_pixel()
    }
}

/// `out` is the edge map of `g`: same size, and `edge_pixel` at every cell.
pub open spec fn is_edge_map(g: LumaGrid, out: RgbaGrid) -> bool {
    &&& out.width == g.width
    &&& out.height == g.height
    &&& out.wf()
    &&& forall|x: int, y: int|
        0 <= x < g.width && 0 <= y < g.height ==> #[trigger] out.pixel(x, y) == edge_pixel(g, x, y)
}

/// A number has at most one rounded root.
pub proof fn lemma_rounded_root_unique(n: int, r1: int, r2: int)
    requires
        is_rounded_root(n, r1),
        is_rounded_root(n, r2),
    ensures
        r1 == r2,
{
    if r1 < r2 {
        assert(r2 * r2 - r2 >= r1 * r1 + r1) by (nonlinear_arith)
            requires
                0 <= r1 < r2,
        ;
    } else if r2 < r1 {
        assert(r1 * r1 - r1 >= r2 * r2 + r2) by (nonlinear_arith)
            requires
                0 <= r2 < r1,
        ;
    }
}

/// Counting up from `r`, a rounded root of `n` is found.
proof fn lemma_rounded_root_from(n: int, r: int)
    requires
        0 <= r <= 255,
        0 <= n <= LAST_UNSATURATED,
        r == 0 || r * r - r < n,
    ensures
        exists|k: int| is_rounded_root(n, k),
    decreases 255 - r,
{
    if n <= r * r + r {
        assert(is_rounded_root(n, r));
    } else {
        assert(r < 255);
        assert((r + 1) * (r + 1) - (r + 1) == r * r + r) by (nonlinear_arith);
        lemma_rounded_root_from(n, r + 1);
    }
}

/// `saturated_root(n)` is 255 exactly when the rounded root reaches 255, and
/// is the rounded root otherwise.
pub proof fn lemma_saturated_root(n: int)
    requires
        0 <= n,
    ensures
        0 <= saturated_root(n) <= 255,
        saturated_root(n) == 255 <==> n > LAST_UNSATURATED,
        n <= LAST_UNSATURATED ==> is_rounded_root(n, saturated_root(n)),
{
    if n <= LAST_UNSATURATED {
        lemma_rounded_root_from(n, 0);
        let r = saturated_root(n);
        assert(is_rounded_root(n, r));
        if r >= 255 {
            assert(r * r - r >= 255 * 255 - 255) by (nonlinear_arith)
                requires
                    r >= 255,
            ;
        }
    }
}

/// The square root of `n`, rounded to the nearest integer and saturated at 255.
pub fn rounded_root(n: u32) -> (r: u8)
    ensures
        r == saturated_root(n as int),
{
    let mut k: u32 = 0;
    // `above` is `k * k + k`, the largest square sum whose rounded root is `k`
    let mut above: u32 = 0;
    while k < 255 && above < n
        invariant
            k <= 255,
            above == k * k + k,
            k == 0 || k * k - k < n,
        decreases 255 - k,
    {
        assert((k + 1) * (k + 1) + (k + 1) == k * k + k + 2 * k + 2) by (nonlinear_arith);
        assert(k * k + k == (k + 1) * (k + 1) - (k + 1)) by (nonlinear_arith);
        assert(k * k + k <= 254 * 254 + 254) by (nonlinear_arith)
            requires
                k <= 254,
        ;
        above = above + 2 * k + 2;
        k = k + 1;
    }
    proof {
        lemma_saturated_root(n as int);
        if k < 255 {
            assert(is_rounded_root(n as int, k as int));
            if n as int <= LAST_UNSATURATED {
                lemma_rounded_root_unique(n as int, k as int, saturated_root(n as int));
            } else {
                assert(k * k + k <= 254 * 254 + 254) by (nonlinear_arith)
                    requires
                        k <= 254,
                ;
            }
        } else {
            assert(n as int > LAST_UNSATURATED);
        }
    }
    k as u8
}

/// `gx² + gy²` at the interior cell `(x, y)`.
fn squared_magnitude_at(g: &LumaGrid, x: u32, y: u32) -> (n: u32)
    requires
        g.wf(),
        1 <= x && x + 1 < g.width,
        1 <= y && y + 1 < g.height,
    ensures
        n == squared_magnitude(*g, x as int, y as int),
{
    let nw = g.get(x - 1, y - 1) as i32;
    let n = g.get(x, y - 1) as i32;
    let ne = g.get(x + 1, y - 1) as i32;
    let w = g.get(x - 1, y) as i32;
    let e = g.get(x + 1, y) as i32;
    let sw = g.get(x - 1, y + 1) as i32;
    let s = g.get(x, y + 1) as i32;
    let se = g.get(x + 1, y + 1) as i32;
    let gx: i32 = (ne + 2 * e + se) - (nw + 2 * w + sw);
    let gy: i32 = (sw + 2 * s + se) - (nw + 2 * n + ne);
    assert(0 <= gx * gx <= 1020 * 1020) by (nonlinear_arith)
        requires
            -1020 <= gx <= 1020,
    ;
    assert(0 <= gy * gy <= 1020 * 1020) by (nonlinear_arith)
        requires
            -1020 <= gy <= 1020,
    ;
    (gx * gx + gy * gy) as u32
}

/// The edge map of `g`: every interior cell holds the rounded, saturated
/// gradient magnitude in its three colour channels; every other cell holds
/// `border_pixel()`. Alpha is 255 everywhere.
pub fn edge_detect(g: &LumaGrid) -> (out: RgbaGrid)
    requires
        g.wf(),
    ensures
        is_edge_map(*g, out),
        forall|x: int, y: int|
            0 <= x < g.width && 0 <= y < g.height ==> (#[trigger] out.pixel(x, y)).a == 255,
        forall|x: int, y: int|
            0 <= x < g.width && 0 <= y < g.height && !is_interior(g.width as int, g.height as int, x, y)
                ==> #[trigger] out.pixel(x, y) == border_pixel(),
        g.width < 3 || g.height < 3 ==> forall|x: int, y: int|
            0 <= x < g.width && 0 <= y < g.height ==> #[trigger] out.pixel(x, y) == border_pixel(),
{
    let width = g.width;
    let height = g.height;
    let mut pixels: Vec<Rgba> = Vec::new();
    let mut y: u32 = 0;
    while y < height
        invariant
            g.wf(),
            width == g.width,
            height == g.height,
            y <= height,
            pixels@.len() == y * width,
            forall|i: int, j: int|
                0 <= i < width && 0 <= j < y ==> #[trigger] pixels@[j * width + i] == edge_pixel(
                    *g,
                    i,
                    j,
                ),
        decreases height - y,
    {
        let mut x: u32 = 0;
        while x < width
            invariant
                g.wf(),
                width == g.width,
                height == g.height,
                y < height,
                x <= width,
                pixels@.len() == y * width + x,
                forall|i: int, j: int|
                    0 <= i < width && 0 <= j < y ==> #[trigger] pixels@[j * width + i]
                        == edge_pixel(*g, i, j),
                forall|i: int| 0 <= i < x ==> #[trigger] pixels@[y * width + i] == edge_pixel(*g, i, y as int),
            decreases width - x,
        {
            let p = if 1 <= x && x + 1 < width && 1 <= y && y + 1 < height {
                let v = rounded_root(squared_magnitude_at(g, x, y));
                Rgba { r: v, g: v, b: v, a: 255 }
            } else {
                Rgba { r: 0, g: 0, b: 0, a: 255 }
            };
            proof {
                lemma_cell_index(width as int, height as int, x as int, y as int);
            }
            let ghost before = pixels@;
            pixels.push(p);
            proof {
                assert forall|i: int, j: int| 0 <= i < width && 0 <= j < y implies #[trigger] pixels@[j
                    * width + i] == edge_pixel(*g, i, j) by {
                    lemma_cell_index(width as int, y as int, i, j);
                    assert(width * y == y * width) by (nonlinear_arith);
                    assert(j * width + i < before.len());
                    assert(pixels@[j * width + i] == before[j * width + i]);
                }
                assert forall|i: int| 0 <= i < x + 1 implies #[trigger] pixels@[y * width + i]
                    == edge_pixel(*g, i, y as int) by {
                    if i < x {
                        assert(pixels@[y * width + i] == before[y * width + i]);
                    }
                }
            }
            x = x + 1;
        }
        proof {
            assert((y + 1) * width == y * width + width) by (nonlinear_arith);
            assert forall|i: int, j: int| 0 <= i < width && 0 <= j < y + 1 implies #[trigger] pixels@[j
                * width + i] == edge_pixel(*g, i, j) by {
                if j == y {
                    assert(pixels@[y * width + i] == edge_pixel(*g, i, y as int));
                }
            }
        }
        y = y + 1;
    }
    let out = RgbaGrid { width, height, pixels };
    proof {
        assert(height * width == width * height) by (nonlinear_arith);
        assert forall|x: int, y: int| 0 <= x < g.width && 0 <= y < g.height implies #[trigger] out.pixel(
            x,
            y,
        ) == edge_pixel(*g, x, y) by {
            assert(out.pixels@[y * width + x] == edge_pixel(*g, x, y));
        }
    }
    out
}

} // verus!
