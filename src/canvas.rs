use vstd::prelude::*;

use crate::color::{alpha_of, blue_of, green_of, red_of, Color};
use crate::normal::{normalize_rect, normalize_triangle, rect_covers, span_fits, triangle_box_covers};
use crate::shapes::{
    circle_covers, circle_fits, inside_triangle, lemma_circle_in_box, lemma_square_bound,
    point_in_triangle,
};

verus! {

/// Distinct pixels of a row-major buffer of rows `width` pixels long have
/// distinct indices.
proof fn lemma_index_injective(width: int, x1: int, y1: int, x2: int, y2: int)
    requires
        0 <= x1 < width,
        0 <= x2 < width,
    ensures
        width * y1 + x1 == width * y2 + x2 ==> x1 == x2 && y1 == y2,
{
    if width * y1 + x1 != width * y2 + x2 {
    } else if y1 > y2 {
        assert(false) by (nonlinear_arith)
            requires
                0 <= x1 < width,
                0 <= x2 < width,
                width * y1 + x1 == width * y2 + x2,
                y1 > y2,
        ;
    } else if y1 < y2 {
        assert(false) by (nonlinear_arith)
            requires
                0 <= x1 < width,
                0 <= x2 < width,
                width * y1 + x1 == width * y2 + x2,
                y1 < y2,
        ;
    }
}

/// A pixel inside a `width x height` buffer has an index below
/// `width * height`.
proof fn lemma_index_in_range(width: int, height: int, x: int, y: int)
    requires
        0 <= x < width,
        0 <= y < height,
    ensures
        0 <= width * y + x < width * height,
{
    assert(0 <= width * y + x < width * height) by (nonlinear_arith)
        requires
            0 <= x < width,
            0 <= y < height,
    ;
}

/// A buffer of `width x height` packed pixels, row-major: the pixel
/// `(x, y)` is at index `width * y + x`.
#[derive(Debug, PartialEq, Eq)]
pub struct Canvas {
    pixels: Vec<u32>,
    width: usize,
    height: usize,
}

impl Canvas {
    pub closed spec fn width_spec(&self) -> int {
        self.width as int
    }

    pub closed spec fn height_spec(&self) -> int {
        self.height as int
    }

    /// The pixel buffer, row after row.
    pub closed spec fn pixels_spec(&self) -> Seq<u32> {
        self.pixels@
    }

    /// The buffer holds one pixel per coordinate, and every coordinate can
    /// be written as an `i32`.
    pub open spec fn wf(&self) -> bool {
        &&& self.width_spec() <= i32::MAX
        &&& self.height_spec() <= i32::MAX
        &&& self.width_spec() * self.height_spec() <= usize::MAX
        &&& self.pixels_spec().len() == self.width_spec() * self.height_spec()
    }

    pub open spec fn in_canvas(&self, x: int, y: int) -> bool {
        0 <= x < self.width_spec() && 0 <= y < self.height_spec()
    }

    pub open spec fn index_of(&self, x: int, y: int) -> int {
        self.width_spec() * y + x
    }

    /// The packed color at `(x, y)`.
    pub open spec fn pixel(&self, x: int, y: int) -> u32 {
        self.pixels_spec()[self.index_of(x, y)]
    }

    /// Same size as `other`, and well formed.
    pub open spec fn same_shape(&self, other: &Canvas) -> bool {
        &&& self.wf()
        &&& self.width_spec() == other.width_spec()
        &&& self.height_spec() == other.height_spec()
    }

    /// Creates a canvas of `width x height` pixels, all 0.
    pub fn new(width: usize, height: usize) -> (c: Canvas)
        requires
            width <= i32::MAX,
            height <= i32::MAX,
            width * height <= usize::MAX,
        ensures
            c.wf(),
            c.width_spec() == width,
            c.height_spec() == height,
            forall|x: int, y: int| c.in_canvas(x, y) ==> #[trigger] c.pixel(x, y) == 0,
    {
        let c = Canvas { pixels: vec![0u32; width * height], width, height };
        assert forall|x: int, y: int| c.in_canvas(x, y) implies #[trigger] c.pixel(x, y) == 0 by {
            lemma_index_in_range(width as int, height as int, x, y);
        }
        c
    }

    pub fn get_width(&self) -> (r: usize)
        ensures
            r == self.width_spec(),
    {
        self.width
    }

    pub fn get_height(&self) -> (r: usize)
        ensures
            r == self.height_spec(),
    {
        self.height
    }

    /// Takes the pixel buffer out of the canvas.
    pub fn take(self) -> (r: Vec<u32>)
        ensures
            r@ == self.pixels_spec(),
    {
        self.pixels
    }

    /// The pixel buffer as a slice.
    pub fn get_pixels(&self) -> (r: &[u32])
        ensures
            r@ == self.pixels_spec(),
    {
        self.pixels.as_slice()
    }

    /// The pixel buffer as a mutable slice.
    pub fn get_pixels_mut(&mut self) -> (r: &mut [u32])
        ensures
            r@ == old(self).pixels_spec(),
            final(self).pixels_spec() == final(r)@,
            final(self).width_spec() == old(self).width_spec(),
            final(self).height_spec() == old(self).height_spec(),
    {
        self.pixels.as_mut_slice()
    }

    /// The pixel buffer as bytes, four per pixel in the order red, green,
    /// blue, alpha.
    pub fn get_data(&self) -> (r: Vec<u8>)
        requires
            self.pixels_spec().len() * 4 <= usize::MAX,
        ensures
            r@.len() == 4 * self.pixels_spec().len(),
            forall|i: int|
                0 <= i < self.pixels_spec().len() ==> {
                    &&& r@[4 * i] == red_of(#[trigger] self.pixels_spec()[i])
                    &&& r@[4 * i + 1] == green_of(self.pixels_spec()[i])
                    &&& r@[4 * i + 2] == blue_of(self.pixels_spec()[i])
                    &&& r@[4 * i + 3] == alpha_of(self.pixels_spec()[i])
                },
    {
        let mut data: Vec<u8> = Vec::with_capacity(self.pixels.len() * 4);
        let mut k: usize = 0;
        while k < self.pixels.len()
            invariant
                k <= self.pixels@.len(),
                self.pixels@.len() * 4 <= usize::MAX,
                data@.len() == 4 * k,
                forall|i: int|
                    0 <= i < k ==> {
                        &&& data@[4 * i] == red_of(#[trigger] self.pixels@[i])
                        &&& data@[4 * i + 1] == green_of(self.pixels@[i])
                        &&& data@[4 * i + 2] == blue_of(self.pixels@[i])
                        &&& data@[4 * i + 3] == alpha_of(self.pixels@[i])
                    },
            decreases self.pixels@.len() - k,
        {
            let p = self.pixels[k];
            data.push(p.red());
            data.push(p.green());
            data.push(p.blue());
            data.push(p.alpha());
            k = k + 1;
        }
        data
    }

    /// Whether `(x, y)` is a pixel of the canvas.
    pub fn in_bounds(&self, x: i32, y: i32) -> (r: bool)
        requires
            self.wf(),
        ensures
            r == self.in_canvas(x as int, y as int),
    {
        0 <= x && x < self.width as i32 && 0 <= y && y < self.height as i32
    }

    /// The index of the pixel `(x, y)` in the buffer.
    pub fn get_index(&self, x: i32, y: i32) -> (r: usize)
        requires
            self.wf(),
            self.in_canvas(x as int, y as int),
        ensures
            r == self.index_of(x as int, y as int),
            r < self.pixels_spec().len(),
    {
        proof {
            lemma_index_in_range(self.width as int, self.height as int, x as int, y as int);
        }
        self.width * y as usize + x as usize
    }

    /// The packed color at `(x, y)`.
    pub fn get_pixel(&self, x: i32, y: i32) -> (r: &u32)
        requires
            self.wf(),
            self.in_canvas(x as int, y as int),
        ensures
            *r == self.pixel(x as int, y as int),
    {
        let index = self.get_index(x, y);
        &self.pixels[index]
    }

    /// A mutable reference to the packed color at `(x, y)`.
    pub fn get_pixel_mut(&mut self, x: i32, y: i32) -> (r: &mut u32)
        requires
            old(self).wf(),
            old(self).in_canvas(x as int, y as int),
        ensures
            *r == old(self).pixel(x as int, y as int),
            final(self).same_shape(old(self)),
            final(self).pixels_spec() == old(self).pixels_spec().update(
                old(self).index_of(x as int, y as int),
                *final(r),
            ),
    {
        let index = self.get_index(x, y);
        &mut self.pixels[index]
    }

    /// Writes `color` at `(x, y)`, which must be a pixel of the canvas.
    pub fn set_pixel_unchecked<C: Color>(&mut self, x: i32, y: i32, color: C)
        requires
            old(self).wf(),
            old(self).in_canvas(x as int, y as int),
        ensures
            final(self).same_shape(old(self)),
            final(self).pixel(x as int, y as int) == color.packed(),
            forall|px: int, py: int|
                final(self).in_canvas(px, py) && !(px == x && py == y) ==> #[trigger] final(self).pixel(px, py) == old(self).pixel(px, py),
    {
        let pixel_color = color.pack();
        let ghost start = *self;
        *self.get_pixel_mut(x, y) = pixel_color;
        proof {
            lemma_index_in_range(self.width as int, self.height as int, x as int, y as int);
            assert forall|px: int, py: int|
                self.in_canvas(px, py) && !(px == x && py == y) implies #[trigger] self.pixel(px, py)
                == start.pixel(px, py) by {
                lemma_index_injective(self.width as int, px, py, x as int, y as int);
                lemma_index_in_range(self.width as int, self.height as int, px, py);
            }
        }
    }

    /// Writes `color` at `(x, y)` when that is a pixel of the canvas, and
    /// does nothing otherwise.
    pub fn set_pixel<C: Color>(&mut self, x: i32, y: i32, color: C)
        requires
            old(self).wf(),
        ensures
            final(self).same_shape(old(self)),
            forall|px: int, py: int|
                final(self).in_canvas(px, py) ==> #[trigger] final(self).pixel(px, py) == if px == x
                    && py == y {
                    color.packed()
                } else {
                    old(self).pixel(px, py)
                },
    {
        if self.in_bounds(x, y) {
            self.set_pixel_unchecked(x, y, color);
        }
    }

    /// Writes `color` to every pixel.
    pub fn fill<C: Color>(&mut self, color: C)
        requires
            old(self).wf(),
        ensures
            final(self).same_shape(old(self)),
            forall|px: int, py: int|
                final(self).in_canvas(px, py) ==> #[trigger] final(self).pixel(px, py)
                    == color.packed(),
    {
        let pixel_color = color.pack();
        let ghost start = *self;
        let height = self.height as i32;
        let width = self.width as i32;
        let mut y: i32 = 0;
        while y < height
            invariant
                self.same_shape(&start),
                width == self.width_spec(),
                height == self.height_spec(),
                0 <= y <= height,
                forall|px: int, py: int|
                    self.in_canvas(px, py) ==> #[trigger] self.pixel(px, py) == if py < y {
                        pixel_color
                    } else {
                        start.pixel(px, py)
                    },
            decreases height - y,
        {
            let mut x: i32 = 0;
            while x < width
                invariant
                    self.same_shape(&start),
                    width == self.width_spec(),
                    height == self.height_spec(),
                    0 <= y < height,
                    0 <= x <= width,
                    forall|px: int, py: int|
                        self.in_canvas(px, py) ==> #[trigger] self.pixel(px, py) == if py < y || (py
                            == y && px < x) {
                            pixel_color
                        } else {
                            start.pixel(px, py)
                        },
                decreases width - x,
            {
                self.set_pixel_unchecked(x, y, pixel_color);
                x = x + 1;
            }
            y = y + 1;
        }
    }

    /// Draws the rectangle with corner `(x, y)` and signed extent
    /// `width x height`: a negative width makes `x` its right edge, a
    /// negative height makes `y` its bottom edge. The part outside the canvas
    /// is clipped; a zero extent draws nothing.
    pub fn rect<C: Color>(&mut self, x: i32, y: i32, width: i32, height: i32, color: C)
        requires
            old(self).wf(),
            span_fits(x as int, width as int),
            span_fits(y as int, height as int),
        ensures
            final(self).same_shape(old(self)),
            forall|px: int, py: int|
                final(self).in_canvas(px, py) ==> #[trigger] final(self).pixel(px, py) == if rect_covers(
                    x as int,
                    y as int,
                    width as int,
                    height as int,
                    px,
                    py,
                ) {
                    color.packed()
                } else {
                    old(self).pixel(px, py)
                },
    {
        let pixel_color = color.pack();
        let nr = match normalize_rect(x, y, width, height, self.width as i32, self.height as i32) {
            Some(nr) => nr,
            None => return ,
        };
        let ghost start = *self;
        // Walk the clipped box, column by column.
        let mut cx: i32 = nr.x1;
        while cx <= nr.x2
            invariant
                self.same_shape(&start),
                nr.x1 <= cx <= nr.x2 + 1,
                nr.y1 <= nr.y2 + 1,
                0 <= nr.x1 && nr.x2 < self.width_spec(),
                0 <= nr.y1 && nr.y2 < self.height_spec(),
                forall|px: int, py: int|
                    self.in_canvas(px, py) ==> #[trigger] self.pixel(px, py) == if nr.x1 <= px < cx
                        && nr.y1 <= py <= nr.y2 {
                        pixel_color
                    } else {
                        start.pixel(px, py)
                    },
            decreases nr.x2 + 1 - cx,
        {
            let mut cy: i32 = nr.y1;
            while cy <= nr.y2
                invariant
                    self.same_shape(&start),
                    nr.x1 <= cx <= nr.x2,
                    nr.y1 <= cy <= nr.y2 + 1,
                    0 <= nr.x1 && nr.x2 < self.width_spec(),
                    0 <= nr.y1 && nr.y2 < self.height_spec(),
                    forall|px: int, py: int|
                        self.in_canvas(px, py) ==> #[trigger] self.pixel(px, py) == if (nr.x1 <= px
                            < cx && nr.y1 <= py <= nr.y2) || (px == cx && nr.y1 <= py < cy) {
                            pixel_color
                        } else {
                            start.pixel(px, py)
                        },
                decreases nr.y2 + 1 - cy,
            {
                self.set_pixel_unchecked(cx, cy, pixel_color);
                cy = cy + 1;
            }
            cx = cx + 1;
        }
    }

    /// Draws the disc of center `(center_x, center_y)` and radius `radius`:
    /// the pixels whose squared distance to the center is strictly below
    /// `radius * radius`.
    pub fn circle<C: Color>(&mut self, center_x: i32, center_y: i32, radius: i32, color: C)
        requires
            old(self).wf(),
            circle_fits(center_x as int, center_y as int, radius as int),
        ensures
            final(self).same_shape(old(self)),
            forall|px: int, py: int|
                final(self).in_canvas(px, py) ==> #[trigger] final(self).pixel(px, py) == if circle_covers(
                    center_x as int,
                    center_y as int,
                    radius as int,
                    px,
                    py,
                ) {
                    color.packed()
                } else {
                    old(self).pixel(px, py)
                },
    {
        let pixel_color = color.pack();
        let ghost start = *self;
        // Clip the bounding box of the circle to the canvas.
        let nr = match normalize_rect(
            center_x - radius,
            center_y - radius,
            radius * 2,
            radius * 2,
            self.width as i32,
            self.height as i32,
        ) {
            Some(nr) => nr,
            None => {
                proof {
                    assert forall|px: int, py: int| self.in_canvas(px, py) implies !circle_covers(
                        center_x as int,
                        center_y as int,
                        radius as int,
                        px,
                        py,
                    ) by {
                        lemma_circle_in_box(center_x as int, center_y as int, radius as int, px, py);
                    }
                }
                return ;
            },
        };
        proof {
            lemma_square_bound(radius as int);
        }
        let r2: i128 = radius as i128 * radius as i128;
        let mut x: i32 = nr.x1;
        while x <= nr.x2
            invariant
                self.same_shape(&start),
                nr.x1 <= x <= nr.x2 + 1,
                nr.y1 <= nr.y2 + 1,
                0 <= nr.x1 && nr.x2 < self.width_spec(),
                0 <= nr.y1 && nr.y2 < self.height_spec(),
                r2 == radius * radius,
                forall|px: int, py: int|
                    self.in_canvas(px, py) ==> #[trigger] self.pixel(px, py) == if nr.x1 <= px < x
                        && nr.y1 <= py <= nr.y2 && circle_covers(
                        center_x as int,
                        center_y as int,
                        radius as int,
                        px,
                        py,
                    ) {
                        pixel_color
                    } else {
                        start.pixel(px, py)
                    },
            decreases nr.x2 + 1 - x,
        {
            let mut y: i32 = nr.y1;
            while y <= nr.y2
                invariant
                    self.same_shape(&start),
                    nr.x1 <= x <= nr.x2,
                    nr.y1 <= y <= nr.y2 + 1,
                    0 <= nr.x1 && nr.x2 < self.width_spec(),
                    0 <= nr.y1 && nr.y2 < self.height_spec(),
                    r2 == radius * radius,
                    forall|px: int, py: int|
                        self.in_canvas(px, py) ==> #[trigger] self.pixel(px, py) == if ((nr.x1 <= px
                            < x && nr.y1 <= py <= nr.y2) || (px == x && nr.y1 <= py < y))
                            && circle_covers(
                            center_x as int,
                            center_y as int,
                            radius as int,
                            px,
                            py,
                        ) {
                            pixel_color
                        } else {
                            start.pixel(px, py)
                        },
                decreases nr.y2 + 1 - y,
            {
                // The distance of the current pixel from the center.
                let dx: i64 = center_x as i64 - x as i64;
                let dy: i64 = center_y as i64 - y as i64;
                proof {
                    lemma_square_bound(dx as int);
                    lemma_square_bound(dy as int);
                }
                let d2: i128 = dx as i128 * dx as i128 + dy as i128 * dy as i128;
                if d2 < r2 {
                    self.set_pixel_unchecked(x, y, pixel_color);
                }
                y = y + 1;
            }
            x = x + 1;
        }
        proof {
            assert forall|px: int, py: int| self.in_canvas(px, py) implies #[trigger] self.pixel(
                px,
                py,
            ) == if circle_covers(center_x as int, center_y as int, radius as int, px, py) {
                pixel_color
            } else {
                start.pixel(px, py)
            } by {
                lemma_circle_in_box(center_x as int, center_y as int, radius as int, px, py);
            }
        }
    }

    /// Draws the triangle `(x1, y1), (x2, y2), (x3, y3)`: the pixels of its
    /// bounding box that pass the edge test of [`inside_triangle`]. Pixels on
    /// an edge are drawn. The vertices must come in the winding that makes
    /// the edge functions non-negative inside; in the other winding only
    /// pixels on the edges are drawn.
    pub fn triangle<C: Color>(
        &mut self,
        x1: i32,
        y1: i32,
        x2: i32,
        y2: i32,
        x3: i32,
        y3: i32,
        color: C,
    )
        requires
            old(self).wf(),
        ensures
            final(self).same_shape(old(self)),
            forall|px: int, py: int|
                final(self).in_canvas(px, py) ==> #[trigger] final(self).pixel(px, py) == if triangle_box_covers(
                    x1 as int,
                    y1 as int,
                    x2 as int,
                    y2 as int,
                    x3 as int,
                    y3 as int,
                    px,
                    py,
                ) && inside_triangle(
                    x1 as int,
                    y1 as int,
                    x2 as int,
                    y2 as int,
                    x3 as int,
                    y3 as int,
                    px,
                    py,
                ) {
                    color.packed()
                } else {
                    old(self).pixel(px, py)
                },
    {
        let pixel_color = color.pack();
        let ghost start = *self;
        let nt = match normalize_triangle(self.width, self.height, x1, y1, x2, y2, x3, y3) {
            Some(nt) => nt,
            None => {
                proof {
                    assert forall|px: int, py: int| self.in_canvas(px, py) implies !triangle_box_covers(
                        x1 as int,
                        y1 as int,
                        x2 as int,
                        y2 as int,
                        x3 as int,
                        y3 as int,
                        px,
                        py,
                    ) by {}
                }
                return ;
            },
        };
        let mut x: i32 = nt.left_x;
        while x <= nt.right_x
            invariant
                self.same_shape(&start),
                nt.left_x <= x <= nt.right_x + 1,
                0 <= nt.left_x <= nt.right_x < self.width_spec(),
                0 <= nt.top_y <= nt.bottom_y < self.height_spec(),
                forall|px: int, py: int|
                    self.in_canvas(px, py) ==> #[trigger] self.pixel(px, py) == if nt.left_x <= px < x
                        && nt.top_y <= py <= nt.bottom_y && inside_triangle(
                        x1 as int,
                        y1 as int,
                        x2 as int,
                        y2 as int,
                        x3 as int,
                        y3 as int,
                        px,
                        py,
                    ) {
                        pixel_color
                    } else {
                        start.pixel(px, py)
                    },
            decreases nt.right_x + 1 - x,
        {
            let mut y: i32 = nt.top_y;
            while y <= nt.bottom_y
                invariant
                    self.same_shape(&start),
                    nt.left_x <= x <= nt.right_x,
                    nt.top_y <= y <= nt.bottom_y + 1,
                    0 <= nt.left_x <= nt.right_x < self.width_spec(),
                    0 <= nt.top_y <= nt.bottom_y < self.height_spec(),
                    forall|px: int, py: int|
                        self.in_canvas(px, py) ==> #[trigger] self.pixel(px, py) == if ((nt.left_x
                            <= px < x && nt.top_y <= py <= nt.bottom_y) || (px == x && nt.top_y <= py
                            < y)) && inside_triangle(
                            x1 as int,
                            y1 as int,
                            x2 as int,
                            y2 as int,
                            x3 as int,
                            y3 as int,
                            px,
                            py,
                        ) {
                            pixel_color
                        } else {
                            start.pixel(px, py)
                        },
                decreases nt.bottom_y + 1 - y,
            {
                if point_in_triangle(x1, y1, x2, y2, x3, y3, x, y) {
                    self.set_pixel_unchecked(x, y, pixel_color);
                }
                y = y + 1;
            }
            x = x + 1;
        }
        proof {
            assert forall|px: int, py: int| self.in_canvas(px, py) implies (nt.left_x <= px
                <= nt.right_x && nt.top_y <= py <= nt.bottom_y) == triangle_box_covers(
                x1 as int,
                y1 as int,
                x2 as int,
                y2 as int,
                x3 as int,
                y3 as int,
                px,
                py,
            ) by {}
        }
    }
}

} // verus!
