use vstd::prelude::*;

verus! {

pub open spec fn min2(a: int, b: int) -> int {
    if a <= b {
        a
    } else {
        b
    }
}

pub open spec fn max2(a: int, b: int) -> int {
    if a >= b {
        a
    } else {
        b
    }
}

pub open spec fn min3(a: int, b: int, c: int) -> int {
    min2(min2(a, b), c)
}

pub open spec fn max3(a: int, b: int, c: int) -> int {
    max2(max2(a, b), c)
}

/// The coordinate of the far edge of a span that starts at `start` and has
/// the signed extent `extent`: `start + sign(extent) * (|extent| - 1)`.
pub open spec fn far_corner(start: int, extent: int) -> int {
    if extent >= 0 {
        start + extent - 1
    } else {
        start + extent + 1
    }
}

/// The smaller end of the inclusive span described by `start` and `extent`.
pub open spec fn span_lo(start: int, extent: int) -> int {
    min2(start, far_corner(start, extent))
}

/// The larger end of the inclusive span described by `start` and `extent`.
pub open spec fn span_hi(start: int, extent: int) -> int {
    max2(start, far_corner(start, extent))
}

/// Whether the far corner of a span can be held in an `i32`.
pub open spec fn span_fits(start: int, extent: int) -> bool {
    extent != 0 ==> i32::MIN <= far_corner(start, extent) <= i32::MAX
}

/// Whether the rectangle `(x, y, width, height)` has at least one pixel in
/// `[0, canvas_width) x [0, canvas_height)`.
pub open spec fn rect_visible(
    x: int,
    y: int,
    width: int,
    height: int,
    canvas_width: int,
    canvas_height: int,
) -> bool {
    &&& width != 0
    &&& height != 0
    &&& span_lo(x, width) < canvas_width
    &&& span_hi(x, width) >= 0
    &&& span_lo(y, height) < canvas_height
    &&& span_hi(y, height) >= 0
}

/// Whether the pixel `(px, py)` lies in the rectangle `(x, y, width, height)`
/// given in signed-extent form, before any clipping.
pub open spec fn rect_covers(x: int, y: int, width: int, height: int, px: int, py: int) -> bool {
    &&& width != 0
    &&& height != 0
    &&& span_lo(x, width) <= px <= span_hi(x, width)
    &&& span_lo(y, height) <= py <= span_hi(y, height)
}

/// A rectangle clipped to a canvas: the inclusive box `[x1, x2] x [y1, y2]`,
/// and the box `[orig_x1, orig_x2] x [orig_y1, orig_y2]` it had before it
/// was clamped.
#[derive(Debug, Clone, Copy, PartialEq, Eq, Structural)]
pub struct NormalizedRect {
    pub x1: i32,
    pub y1: i32,
    pub x2: i32,
    pub y2: i32,
    pub orig_x1: i32,
    pub orig_y1: i32,
    pub orig_x2: i32,
    pub orig_y2: i32,
}

/// Turns a rectangle given by one corner `(x, y)` and a signed extent into
/// an inclusive box that can be walked over a canvas of
/// `canvas_width x canvas_height` pixels without further bounds checks.
///
/// A negative extent mirrors the rectangle so that `(x, y)` is its right
/// (or bottom) edge. A zero extent, or a rectangle that lies wholly outside
/// the canvas, gives `None`.
pub fn normalize_rect(
    x: i32,
    y: i32,
    width: i32,
    height: i32,
    canvas_width: i32,
    canvas_height: i32,
) -> (r: Option<NormalizedRect>)
    requires
        span_fits(x as int, width as int),
        span_fits(y as int, height as int),
    ensures
        r is None <==> !rect_visible(
            x as int,
            y as int,
            width as int,
            height as int,
            canvas_width as int,
            canvas_height as int,
        ),
        width == 0 || height == 0 ==> r is None,
        r matches Some(nr) ==> {
            &&& nr.orig_x1 == span_lo(x as int, width as int)
            &&& nr.orig_x2 == span_hi(x as int, width as int)
            &&& nr.orig_y1 == span_lo(y as int, height as int)
            &&& nr.orig_y2 == span_hi(y as int, height as int)
            &&& nr.x1 == max2(nr.orig_x1 as int, 0)
            &&& nr.x2 == min2(nr.orig_x2 as int, canvas_width - 1)
            &&& nr.y1 == max2(nr.orig_y1 as int, 0)
            &&& nr.y2 == min2(nr.orig_y2 as int, canvas_height - 1)
        },
        canvas_width > 0 && canvas_height > 0 ==> (r matches Some(nr) ==> {
            &&& 0 <= nr.x1 <= nr.x2 < canvas_width
            &&& 0 <= nr.y1 <= nr.y2 < canvas_height
        }),
{
    // An empty rectangle has nothing to draw.
    if width == 0 || height == 0 {
        return None;
    }

    // From the one-corner form to the two-corner form, ordered per axis.
    let far_x = x as i64 + if width > 0 {
        width as i64 - 1
    } else {
        width as i64 + 1
    };
    let far_y = y as i64 + if height > 0 {
        height as i64 - 1
    } else {
        height as i64 + 1
    };
    let far_x = far_x as i32;
    let far_y = far_y as i32;
    let (orig_x1, orig_x2) = if x > far_x {
        (far_x, x)
    } else {
        (x, far_x)
    };
    let (orig_y1, orig_y2) = if y > far_y {
        (far_y, y)
    } else {
        (y, far_y)
    };

    // Cull the rectangle when it misses the canvas, knowing x1 <= x2 and y1 <= y2.
    if orig_x1 >= canvas_width || orig_x2 < 0 || orig_y1 >= canvas_height || orig_y2 < 0 {
        return None;
    }

    // Clamp the rectangle to the canvas.
    let x1 = if orig_x1 < 0 {
        0
    } else {
        orig_x1
    };
    let x2 = if orig_x2 >= canvas_width {
        canvas_width - 1
    } else {
        orig_x2
    };
    let y1 = if orig_y1 < 0 {
        0
    } else {
        orig_y1
    };
    let y2 = if orig_y2 >= canvas_height {
        canvas_height - 1
    } else {
        orig_y2
    };
    Some(NormalizedRect { x1, y1, x2, y2, orig_x1, orig_y1, orig_x2, orig_y2 })
}

/// Whether the bounding box of the triangle has a pixel in
/// `[0, width) x [0, height)`.
pub open spec fn triangle_box_visible(
    width: int,
    height: int,
    x1: int,
    y1: int,
    x2: int,
    y2: int,
    x3: int,
    y3: int,
) -> bool {
    &&& max2(min3(x1, x2, x3), 0) < width
    &&& max3(x1, x2, x3) >= 0
    &&& max2(min3(y1, y2, y3), 0) < height
    &&& max3(y1, y2, y3) >= 0
}

/// Whether the pixel `(px, py)` lies in the bounding box of the triangle.
pub open spec fn triangle_box_covers(
    x1: int,
    y1: int,
    x2: int,
    y2: int,
    x3: int,
    y3: int,
    px: int,
    py: int,
) -> bool {
    &&& min3(x1, x2, x3) <= px <= max3(x1, x2, x3)
    &&& min3(y1, y2, y3) <= py <= max3(y1, y2, y3)
}

/// The bounding box of a triangle clipped to a canvas: the inclusive box
/// `[left_x, right_x] x [top_y, bottom_y]`.
#[derive(Debug, Clone, Copy, PartialEq, Eq, Structural)]
pub struct NormalizedTriangle {
    pub left_x: i32,
    pub right_x: i32,
    pub top_y: i32,
    pub bottom_y: i32,
}

impl NormalizedTriangle {
    /// Whether the pixel `(px, py)` lies in the box.
    pub open spec fn contains(&self, px: int, py: int) -> bool {
        self.left_x <= px <= self.right_x && self.top_y <= py <= self.bottom_y
    }
}

/// Computes the bounding box of the triangle `(x1, y1), (x2, y2), (x3, y3)`
/// clipped to a canvas of `width x height` pixels, as ranges that can be
/// walked without further bounds checks. `None` when the box misses the
/// canvas.
pub fn normalize_triangle(
    width: usize,
    height: usize,
    x1: i32,
    y1: i32,
    x2: i32,
    y2: i32,
    x3: i32,
    y3: i32,
) -> (r: Option<NormalizedTriangle>)
    ensures
        r is None <==> !triangle_box_visible(
            width as int,
            height as int,
            x1 as int,
            y1 as int,
            x2 as int,
            y2 as int,
            x3 as int,
            y3 as int,
        ),
        r matches Some(nt) ==> {
            &&& nt.left_x == max2(min3(x1 as int, x2 as int, x3 as int), 0)
            &&& nt.right_x == min2(max3(x1 as int, x2 as int, x3 as int), width - 1)
            &&& nt.top_y == max2(min3(y1 as int, y2 as int, y3 as int), 0)
            &&& nt.bottom_y == min2(max3(y1 as int, y2 as int, y3 as int), height - 1)
            &&& 0 <= nt.left_x <= nt.right_x < width
            &&& 0 <= nt.top_y <= nt.bottom_y < height
        },
        r matches Some(nt) ==> forall|px: int, py: int|
            0 <= px < width && 0 <= py < height && #[trigger] triangle_box_covers(
                x1 as int,
                y1 as int,
                x2 as int,
                y2 as int,
                x3 as int,
                y3 as int,
                px,
                py,
            ) ==> nt.contains(px, py),
        r is None ==> forall|px: int, py: int|
            0 <= px < width && 0 <= py < height ==> !#[trigger] triangle_box_covers(
                x1 as int,
                y1 as int,
                x2 as int,
                y2 as int,
                x3 as int,
                y3 as int,
                px,
                py,
            ),
{
    let (left_x, right_x) = match clip_axis(width, x1, x2, x3) {
        Some(b) => b,
        None => return None,
    };
    let (top_y, bottom_y) = match clip_axis(height, y1, y2, y3) {
        Some(b) => b,
        None => return None,
    };
    Some(NormalizedTriangle { left_x, right_x, top_y, bottom_y })
}

/// The span `[min(a, b, c), max(a, b, c)]` clamped to `[0, size)`, or `None`
/// when the two do not meet.
fn clip_axis(size: usize, a: i32, b: i32, c: i32) -> (r: Option<(i32, i32)>)
    ensures
        r is None <==> !(max2(min3(a as int, b as int, c as int), 0) < size && max3(
            a as int,
            b as int,
            c as int,
        ) >= 0),
        r matches Some((lo, hi)) ==> {
            &&& lo == max2(min3(a as int, b as int, c as int), 0)
            &&& hi == min2(max3(a as int, b as int, c as int), size - 1)
        },
{
    let mut lo = a;
    let mut hi = a;
    if lo > b {
        lo = b;
    }
    if lo > c {
        lo = c;
    }
    if hi < b {
        hi = b;
    }
    if hi < c {
        hi = c;
    }

    // Clamped to the canvas.
    if lo < 0 {
        lo = 0;
    }
    if lo as usize >= size {
        return None;
    }
    if hi < 0 {
        return None;
    }
    if hi as usize >= size {
        hi = (size - 1) as i32;
    }
    Some((lo, hi))
}

} // verus!
