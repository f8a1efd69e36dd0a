use vstd::prelude::*;

use crate::gradient::{
    edge_pixel, gray_pixel, horizontal_gradient, is_interior, is_rounded_root,
    lemma_rounded_root_unique, lemma_saturated_root, saturated_root, squared_magnitude,
    vertical_gradient,
};
use crate::grid::LumaGrid;

verus! {

/// Every cell of `g` has intensity `c`.
pub open spec fn is_uniform(g: LumaGrid, c: int) -> bool {
    forall|x: int, y: int| 0 <= x < g.width && 0 <= y < g.height ==> #[trigger] g.at(x, y) == c
}

/// Columns left of `edge` have intensity `left`, the others `right`.
pub open spec fn is_vertical_step(g: LumaGrid, edge: int, left: int, right: int) -> bool {
    forall|x: int, y: int|
        0 <= x < g.width && 0 <= y < g.height ==> #[trigger] g.at(x, y) == if x < edge {
            left
        } else {
            right
        }
}

/// `m` is `g` mirrored left to right.
pub open spec fn is_mirror(g: LumaGrid, m: LumaGrid) -> bool {
    &&& m.width == g.width
    &&& m.height == g.height
    &&& forall|x: int, y: int|
        0 <= x < g.width && 0 <= y < g.height ==> #[trigger] m.at(x, y) == g.at(
            g.width - 1 - x,
            y,
        )
}

/// No gradient gives a zero level; any gradient gives a positive one.
pub proof fn lemma_root_zero_iff(n: int)
    requires
        0 <= n,
    ensures
        saturated_root(n) == 0 <==> n == 0,
{
    lemma_saturated_root(n);
    if n == 0 {
        assert(is_rounded_root(0, 0));
        lemma_rounded_root_unique(0, 0, saturated_root(0));
    }
}

/// A grid of one intensity has no edges: both gradients vanish at every
/// interior cell, whose level is then 0.
pub proof fn uniform_grid_has_no_edges(g: LumaGrid, c: int)
    requires
        g.wf(),
        is_uniform(g, c),
    ensures
        forall|x: int, y: int|
            is_interior(g.width as int, g.height as int, x, y) ==> horizontal_gradient(g, x, y) == 0
                && vertical_gradient(g, x, y) == 0 && #[trigger] edge_pixel(g, x, y) == gray_pixel(0),
{
    assert forall|x: int, y: int| is_interior(g.width as int, g.height as int, x, y) implies horizontal_gradient(
        g,
        x,
        y,
    ) == 0 && vertical_gradient(g, x, y) == 0 && #[trigger] edge_pixel(g, x, y) == gray_pixel(0) by {
        assert(g.at(x - 1, y - 1) == c && g.at(x, y - 1) == c && g.at(x + 1, y - 1) == c);
        assert(g.at(x - 1, y) == c && g.at(x + 1, y) == c);
        assert(g.at(x - 1, y + 1) == c && g.at(x, y + 1) == c && g.at(x + 1, y + 1) == c);
        lemma_root_zero_iff(squared_magnitude(g, x, y));
    }
}

/// Across a vertical step between two different intensities, the interior
/// cells of the two columns beside the step get a positive level, cells
/// whose neighbourhood lies on one side get level 0, so every cell beside
/// the step is brighter than every cell away from it.
pub proof fn step_edge_outshines_flat_regions(g: LumaGrid, edge: int, left: int, right: int)
    requires
        g.wf(),
        is_vertical_step(g, edge, left, right),
        left != right,
    ensures
        forall|x: int, y: int|
            is_interior(g.width as int, g.height as int, x, y) && (x == edge - 1 || x == edge)
                ==> (#[trigger] edge_pixel(g, x, y)).r > 0,
        forall|x: int, y: int|
            is_interior(g.width as int, g.height as int, x, y) && (x + 1 < edge || x > edge)
                ==> #[trigger] edge_pixel(g, x, y) == gray_pixel(0),
        forall|x1: int, y1: int, x2: int, y2: int|
            is_interior(g.width as int, g.height as int, x1, y1) && (x1 == edge - 1 || x1 == edge)
                && is_interior(g.width as int, g.height as int, x2, y2) && (x2 + 1 < edge || x2
                > edge) ==> (#[trigger] edge_pixel(g, x1, y1)).r > (#[trigger] edge_pixel(
                g,
                x2,
                y2,
            )).r,
{
    assert forall|x: int, y: int| is_interior(g.width as int, g.height as int, x, y) implies {
        &&& (x == edge - 1 || x == edge) ==> (#[trigger] edge_pixel(g, x, y)).r > 0
        &&& (x + 1 < edge || x > edge) ==> edge_pixel(g, x, y) == gray_pixel(0)
    } by {
        let a = g.at(x - 1, y - 1);
        assert(g.at(x - 1, y) == a && g.at(x - 1, y + 1) == a);
        let b = g.at(x + 1, y - 1);
        assert(g.at(x + 1, y) == b && g.at(x + 1, y + 1) == b);
        assert(g.at(x, y - 1) == g.at(x, y + 1));
        assert(vertical_gradient(g, x, y) == 0);
        assert(horizontal_gradient(g, x, y) == 4 * (b - a));
        let n = squared_magnitude(g, x, y);
        assert(n == 16 * (b - a) * (b - a)) by (nonlinear_arith)
            requires
                n == 4 * (b - a) * (4 * (b - a)) + 0 * 0,
        ;
        assert(n >= 0) by (nonlinear_arith)
            requires
                n == 16 * (b - a) * (b - a),
        ;
        lemma_root_zero_iff(n);
        lemma_saturated_root(n);
        if x == edge - 1 || x == edge {
            assert(a == left && b == right);
            assert(n != 0) by (nonlinear_arith)
                requires
                    n == 16 * (b - a) * (b - a),
                    a != b,
            ;
        }
    }
}

/// Mirroring the input left to right mirrors the edge map.
pub proof fn mirror_symmetry(g: LumaGrid, m: LumaGrid)
    requires
        g.wf(),
        m.wf(),
        is_mirror(g, m),
    ensures
        forall|x: int, y: int|
            0 <= x < g.width && 0 <= y < g.height ==> #[trigger] edge_pixel(m, x, y) == edge_pixel(
                g,
                g.width - 1 - x,
                y,
            ),
{
    assert forall|x: int, y: int| 0 <= x < g.width && 0 <= y < g.height implies #[trigger] edge_pixel(
        m,
        x,
        y,
    ) == edge_pixel(g, g.width - 1 - x, y) by {
        let w = g.width as int;
        let mx = w - 1 - x;
        if is_interior(w, g.height as int, x, y) {
            assert(m.at(x - 1, y - 1) == g.at(mx + 1, y - 1));
            assert(m.at(x, y - 1) == g.at(mx, y - 1));
            assert(m.at(x + 1, y - 1) == g.at(mx - 1, y - 1));
            assert(m.at(x - 1, y) == g.at(mx + 1, y));
            assert(m.at(x + 1, y) == g.at(mx - 1, y));
            assert(m.at(x - 1, y + 1) == g.at(mx + 1, y + 1));
            assert(m.at(x, y + 1) == g.at(mx, y + 1));
            assert(m.at(x + 1, y + 1) == g.at(mx - 1, y + 1));
            assert(horizontal_gradient(m, x, y) == -horizontal_gradient(g, mx, y));
            assert(vertical_gradient(m, x, y) == vertical_gradient(g, mx, y));
            let h = horizontal_gradient(g, mx, y);
            assert((-h) * (-h) == h * h) by (nonlinear_arith);
            assert(squared_magnitude(m, x, y) == squared_magnitude(g, mx, y));
        }
    }
}

} // verus!
