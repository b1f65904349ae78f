//! The shapes the canvas draws, as sets of pixels, and the edge test of a
//! triangle.

use vstd::prelude::*;
use vstd::relations::injective_on;
use vstd::set_lib::{lemma_int_range, lemma_map_size, set_int_range};

use crate::normal::{rect_covers, span_fits};

verus! {

/// Whether `(px, py)` lies strictly inside the circle of center `(cx, cy)`
/// and radius `radius`.
pub open spec fn circle_covers(cx: int, cy: int, radius: int, px: int, py: int) -> bool {
    (cx - px) * (cx - px) + (cy - py) * (cy - py) < radius * radius
}

/// Whether the bounding box of the circle, as a corner and a signed extent,
/// can be computed in `i32`.
pub open spec fn circle_fits(cx: int, cy: int, radius: int) -> bool {
    &&& i32::MIN <= cx - radius <= i32::MAX
    &&& i32::MIN <= cy - radius <= i32::MAX
    &&& i32::MIN <= 2 * radius <= i32::MAX
    &&& span_fits(cx - radius, 2 * radius)
    &&& span_fits(cy - radius, 2 * radius)
}

/// Every point strictly inside a circle lies in its bounding box: the box
/// with corner `(cx - radius, cy - radius)` and extent `2 * radius`.
pub(crate) proof fn lemma_circle_in_box(cx: int, cy: int, radius: int, px: int, py: int)
    ensures
        circle_covers(cx, cy, radius, px, py) ==> rect_covers(
            cx - radius,
            cy - radius,
            2 * radius,
            2 * radius,
            px,
            py,
        ),
{
    if circle_covers(cx, cy, radius, px, py) {
        let dx = cx - px;
        let dy = cy - py;
        assert(dx * dx < radius * radius) by (nonlinear_arith)
            requires
                dx * dx + dy * dy < radius * radius,
        ;
        assert(dy * dy < radius * radius) by (nonlinear_arith)
            requires
                dx * dx + dy * dy < radius * radius,
        ;
        lemma_below_square(dx, radius);
        lemma_below_square(dy, radius);
    }
}

/// `d * d < r * r` bounds `d` strictly by `|r|` on both sides.
proof fn lemma_below_square(d: int, r: int)
    requires
        d * d < r * r,
    ensures
        -r < d < r || r < d < -r,
{
    if r >= 0 {
        if d >= r {
            assert(d * d >= r * r) by (nonlinear_arith)
                requires
                    d >= r >= 0,
            ;
        }
        if d <= -r {
            assert(d * d >= r * r) by (nonlinear_arith)
                requires
                    d <= -r <= 0,
            ;
        }
    } else {
        if d >= -r {
            assert(d * d >= r * r) by (nonlinear_arith)
                requires
                    d >= -r > 0,
            ;
        }
        if d <= r {
            assert(d * d >= r * r) by (nonlinear_arith)
                requires
                    d <= r < 0,
            ;
        }
    }
}

/// A square of a value below `2^32` in size is below `2^64`.
pub(crate) proof fn lemma_square_bound(d: int)
    requires
        -0x1_0000_0000 <= d <= 0x1_0000_0000,
    ensures
        0 <= d * d <= 0x1_0000_0000_0000_0000,
{
    assert(0 <= d * d <= 0x1_0000_0000_0000_0000) by (nonlinear_arith)
        requires
            -0x1_0000_0000 <= d <= 0x1_0000_0000,
    ;
}

/// The edge function of the directed edge `a -> b` at `p`: twice the signed
/// area of the triangle `a, b, p`.
pub open spec fn edge(ax: int, ay: int, bx: int, by: int, px: int, py: int) -> int {
    (bx - ax) * (py - ay) - (by - ay) * (px - ax)
}

/// Whether `p` passes the edge test of the triangle `1, 2, 3`: the edge
/// functions of `1 -> 2`, `2 -> 3` and `3 -> 1` are all non-negative at `p`.
/// A triangle whose vertices come in the other winding passes the test at
/// no point but on its edges.
pub open spec fn inside_triangle(
    x1: int,
    y1: int,
    x2: int,
    y2: int,
    x3: int,
    y3: int,
    px: int,
    py: int,
) -> bool {
    &&& edge(x1, y1, x2, y2, px, py) >= 0
    &&& edge(x2, y2, x3, y3, px, py) >= 0
    &&& edge(x3, y3, x1, y1, px, py) >= 0
}

/// A product of two values below `2^32` in size is below `2^64` in size.
proof fn lemma_product_bound(a: int, b: int)
    requires
        -0x1_0000_0000 <= a <= 0x1_0000_0000,
        -0x1_0000_0000 <= b <= 0x1_0000_0000,
    ensures
        -0x1_0000_0000_0000_0000 <= a * b <= 0x1_0000_0000_0000_0000,
{
    assert(-0x1_0000_0000_0000_0000 <= a * b <= 0x1_0000_0000_0000_0000) by (nonlinear_arith)
        requires
            -0x1_0000_0000 <= a <= 0x1_0000_0000,
            -0x1_0000_0000 <= b <= 0x1_0000_0000,
    ;
}

/// The edge function of `a -> b` at `p`, computed without overflow.
fn edge_value(ax: i32, ay: i32, bx: i32, by: i32, px: i32, py: i32) -> (r: i128)
    ensures
        r == edge(ax as int, ay as int, bx as int, by as int, px as int, py as int),
{
    let dxb: i64 = bx as i64 - ax as i64;
    let dyp: i64 = py as i64 - ay as i64;
    let dyb: i64 = by as i64 - ay as i64;
    let dxp: i64 = px as i64 - ax as i64;
    proof {
        lemma_product_bound(dxb as int, dyp as int);
        lemma_product_bound(dyb as int, dxp as int);
    }
    dxb as i128 * dyp as i128 - dyb as i128 * dxp as i128
}

/// Whether `(x, y)` passes the edge test of the triangle
/// `(x1, y1), (x2, y2), (x3, y3)`; see [`inside_triangle`].
pub fn point_in_triangle(
    x1: i32,
    y1: i32,
    x2: i32,
    y2: i32,
    x3: i32,
    y3: i32,
    x: i32,
    y: i32,
) -> (r: bool)
    ensures
        r == inside_triangle(
            x1 as int,
            y1 as int,
            x2 as int,
            y2 as int,
            x3 as int,
            y3 as int,
            x as int,
            y as int,
        ),
{
    // Edge (v1, v2).
    let z1 = edge_value(x1, y1, x2, y2, x, y);
    // Edge (v2, v3).
    let z2 = edge_value(x2, y2, x3, y3, x, y);
    // Edge (v3, v1).
    let z3 = edge_value(x3, y3, x1, y1, x, y);
    z1 >= 0 && z2 >= 0 && z3 >= 0
}

/// The pixels of the box `[x, x + width) x [y, y + height)`.
pub open spec fn box_pixels(x: int, y: int, width: int, height: int) -> Set<(int, int)> {
    Set::new(|p: (int, int)| x <= p.0 < x + width && y <= p.1 < y + height)
}

/// The pixels of the row `[x, x + width) x {row}`.
spec fn row_pixels(x: int, width: int, row: int) -> Set<(int, int)> {
    set_int_range(x, x + width).map(|px: int| (px, row))
}

proof fn lemma_row_len(x: int, width: int, row: int)
    requires
        width >= 0,
    ensures
        row_pixels(x, width, row).finite(),
        row_pixels(x, width, row).len() == width,
{
    lemma_int_range(x, x + width);
    let f = |px: int| (px, row);
    assert(injective_on(f, set_int_range(x, x + width)));
    lemma_map_size(set_int_range(x, x + width), row_pixels(x, width, row), f);
}

proof fn lemma_box_len(x: int, y: int, width: int, height: int)
    requires
        width >= 0,
        height >= 0,
    ensures
        box_pixels(x, y, width, height).finite(),
        box_pixels(x, y, width, height).len() == width * height,
    decreases height,
{
    if height == 0 {
        assert(box_pixels(x, y, width, height) =~= Set::empty());
    } else {
        let row = y + height - 1;
        lemma_box_len(x, y, width, height - 1);
        lemma_row_len(x, width, row);
        let upper = box_pixels(x, y, width, height - 1);
        let last = row_pixels(x, width, row);
        assert forall|p: (int, int)| last.contains(p) implies p.1 == row && x <= p.0 < x + width by {
            let px = choose|px: int| #[trigger] set_int_range(x, x + width).contains(px) && (px, row) == p;
        }
        assert forall|p: (int, int)| x <= p.0 < x + width && p.1 == row implies #[trigger] last.contains(p) by {
            assert(set_int_range(x, x + width).contains(p.0));
            assert((p.0, row) == p);
        }
        assert(upper.disjoint(last));
        assert(box_pixels(x, y, width, height) =~= upper + last);
        vstd::set_lib::lemma_set_disjoint_lens(upper, last);
        assert(width * (height - 1) + width == width * height) by (nonlinear_arith);
    }
}

/// A rectangle of positive extent that lies wholly inside a canvas covers
/// exactly `width * height` of the canvas's pixels: by the contract of
/// [`crate::canvas::Canvas::rect`], drawing it sets exactly those pixels to its color and
/// leaves every other pixel as it was.
pub proof fn lemma_rect_inside_area(
    x: int,
    y: int,
    width: int,
    height: int,
    canvas_width: int,
    canvas_height: int,
)
    requires
        0 < width,
        0 < height,
        0 <= x,
        x + width <= canvas_width,
        0 <= y,
        y + height <= canvas_height,
    ensures
        ({
            let covered = Set::new(
                |p: (int, int)|
                    0 <= p.0 < canvas_width && 0 <= p.1 < canvas_height && rect_covers(
                        x,
                        y,
                        width,
                        height,
                        p.0,
                        p.1,
                    ),
            );
            covered.finite() && covered.len() == width * height
        }),
{
    let covered = Set::new(
        |p: (int, int)|
            0 <= p.0 < canvas_width && 0 <= p.1 < canvas_height && rect_covers(
                x,
                y,
                width,
                height,
                p.0,
                p.1,
            ),
    );
    assert(covered =~= box_pixels(x, y, width, height));
    lemma_box_len(x, y, width, height);
}

} // verus!
