//! Drawing in the 320 by 200 graphics mode with one byte per pixel.

use vstd::prelude::*;

verus! {

/// The number of pixels in a row.
pub const SCREEN_WIDTH: usize = 320;

/// The number of rows.
pub const SCREEN_HEIGHT: usize = 200;

/// The address at which the pixels lie in memory, row by row.
pub const VGA_ADDRESS: u64 = 0xA0000;

/// Whether the screen has a pixel at `x` and `y`.
pub open spec fn on_screen(x: int, y: int) -> bool {
    0 <= x < 320 && 0 <= y < 200
}

/// The position of the pixel at `x` and `y` among the pixels of the screen.
pub open spec fn pixel_offset(x: int, y: int) -> int {
    y * 320 + x
}

/// The pixels after the one at `x` and `y` is set to `color`: nothing
/// changes if the screen has no such pixel.
pub open spec fn plot(pixels: Seq<u8>, x: int, y: int, color: u8) -> Seq<u8> {
    if on_screen(x, y) {
        pixels.update(pixel_offset(x, y), color)
    } else {
        pixels
    }
}

/// The pixels of the screen.
pub struct Frame {
    pixels: Vec<u8>,
}

impl Frame {
    /// The colour numbers of the pixels, row by row.
    pub closed spec fn view(&self) -> Seq<u8> {
        self.pixels@
    }

    pub open spec fn wf(&self) -> bool {
        self@.len() == 64000
    }

    /// A screen on which every pixel has colour 0.
    pub fn new() -> (frame: Frame)
        ensures
            frame.wf(),
            forall|i: int| 0 <= i < 64000 ==> frame@[i] == 0,
    {
        let mut pixels: Vec<u8> = Vec::new();
        let mut i: usize = 0;
        while i < SCREEN_WIDTH * SCREEN_HEIGHT
            invariant
                i <= 64000,
                pixels@.len() == i,
                forall|j: int| 0 <= j < i ==> pixels@[j] == 0,
            decreases 64000 - i,
        {
            pixels.push(0);
            i += 1;
        }
        Frame { pixels }
    }

    /// The colour numbers of the pixels, row by row.
    pub fn pixels(&self) -> (r: &Vec<u8>)
        ensures
            r@ == self@,
    {
        &self.pixels
    }
}

/// Sets the pixel at `x` and `y` to `color`, if the screen has such a pixel.
pub fn set_pixel(frame: &mut Frame, x: isize, y: isize, color: u8)
    requires
        old(frame).wf(),
    ensures
        final(frame).wf(),
        final(frame)@ == plot(old(frame)@, x as int, y as int, color),
{
    if x >= 0 && x < 320 && y >= 0 && y < 200 {
        let offset: usize = (y * 320 + x) as usize;
        frame.pixels.set(offset, color);
    }
}

/// The distance between two coordinates.
pub open spec fn span(from: int, to: int) -> int {
    if from <= to {
        to - from
    } else {
        from - to
    }
}

/// The coordinate `steps` steps from `from` in the direction of `to`.
pub open spec fn toward(from: int, to: int, steps: int) -> int {
    if from < to {
        from + steps
    } else {
        from - steps
    }
}

/// The number of points of the line between two points: one for each step
/// along the longer of its two extents, and one for the start.
pub open spec fn line_len(x0: int, y0: int, x1: int, y1: int) -> int {
    let dx = span(x0, x1);
    let dy = span(y0, y1);
    if dx > dy {
        dx + 1
    } else {
        dy + 1
    }
}

/// Point `k` of the line from `(x0, y0)` to `(x1, y1)`. The line takes one
/// step per point along its longer extent; along the shorter it has taken,
/// by point `k`, the `k`-th part of the extent, rounded to the nearest step,
/// a half rounded down where the extent in `x` is the longer and also where
/// the extents are equal.
pub open spec fn line_point(x0: int, y0: int, x1: int, y1: int, k: int) -> (int, int) {
    let dx = span(x0, x1);
    let dy = span(y0, y1);
    if dx > dy {
        (toward(x0, x1, k), toward(y0, y1, (k * dy + (dx - 1 - dx / 2)) / dx))
    } else if dy > 0 {
        (toward(x0, x1, (k * dx + (dy - 1 - dy / 2)) / dy), toward(y0, y1, k))
    } else {
        (x0, y0)
    }
}

/// The points of the line from `(x0, y0)` to `(x1, y1)`, in the order in
/// which they are drawn.
pub open spec fn line_points(x0: int, y0: int, x1: int, y1: int) -> Seq<(int, int)> {
    Seq::new(line_len(x0, y0, x1, y1) as nat, |k: int| line_point(x0, y0, x1, y1, k))
}

/// The pixels after each of the points is set to `color`.
pub open spec fn plot_all(pixels: Seq<u8>, points: Seq<(int, int)>, color: u8) -> Seq<u8>
    decreases points.len(),
{
    if points.len() == 0 {
        pixels
    } else {
        plot(plot_all(pixels, points.drop_last(), color), points.last().0, points.last().1, color)
    }
}

/// Where the extent in `x` is the longer, the error term tells how many
/// steps have been taken in `y`.
proof fn lemma_x_major(dx: int, dy: int, k: int, b: int, e: int)
    requires
        dx > dy >= 0,
        0 <= k <= dx,
        e == dx / 2 - k * dy + b * dx,
        0 <= e < dx,
    ensures
        b == (k * dy + (dx - 1 - dx / 2)) / dx,
        0 <= b <= dy,
        k == dx ==> b == dy,
{
    let n = k * dy + (dx - 1 - dx / 2);
    assert(n == b * dx + (dx - 1 - e));
    vstd::arithmetic::div_mod::lemma_fundamental_div_mod_converse(n, dx, b, dx - 1 - e);
    assert(b >= 0) by (nonlinear_arith)
        requires
            b * dx == e - dx / 2 + k * dy,
            e >= 0,
            dx / 2 < dx,
            k >= 0,
            dy >= 0,
            dx > 0,
    ;
    assert(b <= dy && (k == dx ==> b == dy)) by (nonlinear_arith)
        requires
            b * dx == e - dx / 2 + k * dy,
            0 <= e < dx,
            0 <= dx / 2 < dx,
            0 <= k <= dx,
            dy >= 0,
            dx > 0,
    ;
}

/// Where the extent in `y` is at least as long, the error term tells how
/// many steps have been taken in `x`.
proof fn lemma_y_major(dx: int, dy: int, k: int, a: int, e: int)
    requires
        0 <= dx <= dy,
        dy > 0,
        0 <= k <= dy,
        e == -(dy / 2) - a * dy + k * dx,
        -dy < e <= 0,
    ensures
        a == (k * dx + (dy - 1 - dy / 2)) / dy,
        0 <= a <= dx,
        k == dy ==> a == dx,
{
    let n = k * dx + (dy - 1 - dy / 2);
    assert(n == a * dy + (dy - 1 + e));
    vstd::arithmetic::div_mod::lemma_fundamental_div_mod_converse(n, dy, a, dy - 1 + e);
    assert(a >= 0) by (nonlinear_arith)
        requires
            a * dy == k * dx - dy / 2 - e,
            e > -dy,
            e <= 0,
            0 <= dy / 2 < dy,
            k >= 0,
            dx >= 0,
            dy > 0,
    ;
    assert(a <= dx && (k == dy ==> a == dx)) by (nonlinear_arith)
        requires
            a * dy == k * dx - dy / 2 - e,
            -dy < e <= 0,
            0 <= dy / 2 < dy,
            0 <= k <= dy,
            0 <= dx <= dy,
            dy > 0,
    ;
}

/// Draws the line from `(x0, y0)` to `(x1, y1)` in `color`, point by point
/// from the first end to the second. Points off the screen are left out.
#[verifier::rlimit(50)]
pub fn draw_line(
    frame: &mut Frame,
    input_x0: isize,
    input_y0: isize,
    x1: isize,
    y1: isize,
    color: u8,
)
    requires
        old(frame).wf(),
        span(input_x0 as int, x1 as int) <= isize::MAX,
        span(input_y0 as int, y1 as int) <= isize::MAX,
    ensures
        final(frame).wf(),
        final(frame)@ == plot_all(
            old(frame)@,
            line_points(input_x0 as int, input_y0 as int, x1 as int, y1 as int),
            color,
        ),
{
    let mut x0: isize = input_x0;
    let mut y0: isize = input_y0;
    let dx: isize = if x1 >= x0 {
        x1 - x0
    } else {
        x0 - x1
    };
    let dy: isize = if y1 >= y0 {
        y1 - y0
    } else {
        y0 - y1
    };
    let sx: isize = if x0 < x1 {
        1
    } else {
        -1
    };
    let sy: isize = if y0 < y1 {
        1
    } else {
        -1
    };
    let mut err: isize = (if dx > dy {
        dx
    } else {
        -dy
    }) / 2;
    let ghost e0: int = if dx > dy {
        dx as int / 2
    } else {
        -(dy as int / 2)
    };
    let ghost points = line_points(input_x0 as int, input_y0 as int, x1 as int, y1 as int);
    let ghost n: int = if dx > dy {
        dx as int
    } else {
        dy as int
    };
    let ghost before = frame@;
    // Steps taken so far in x and in y, and their products with the
    // extents.
    let ghost mut a: int = 0;
    let ghost mut b: int = 0;
    let ghost mut a_dy: int = 0;
    let ghost mut b_dx: int = 0;
    loop
        invariant_except_break
            frame.wf(),
            dx == span(input_x0 as int, x1 as int),
            dy == span(input_y0 as int, y1 as int),
            0 <= dx <= isize::MAX,
            0 <= dy <= isize::MAX,
            sx == (if input_x0 < x1 {
                1int
            } else {
                -1int
            }),
            sy == (if input_y0 < y1 {
                1int
            } else {
                -1int
            }),
            e0 == (if dx > dy {
                dx as int / 2
            } else {
                -(dy as int / 2)
            }),
            n == (if dx > dy {
                dx as int
            } else {
                dy as int
            }),
            points == line_points(input_x0 as int, input_y0 as int, x1 as int, y1 as int),
            before == old(frame)@,
            0 <= a <= dx + 1,
            0 <= b <= dy + 1,
            a_dy == a * dy,
            b_dx == b * dx,
            err == e0 - a_dy + b_dx,
            dx > dy ==> 0 <= err < dx,
            dx <= dy && dy > 0 ==> -dy < err <= 0,
            dx > dy ==> a <= n,
            x0 == toward(input_x0 as int, x1 as int, a),
            y0 == toward(input_y0 as int, y1 as int, b),
            (if dx > dy {
                a
            } else {
                b
            }) <= n,
            dx == 0 && dy == 0 ==> a == 0 && b == 0,
            frame@ == plot_all(before, points.take(if dx > dy {
                a
            } else {
                b
            }), color),
        ensures
            frame.wf(),
            frame@ == plot_all(before, points, color),
        decreases
            n - (if dx > dy {
                a
            } else {
                b
            }),
    {
        let ghost k: int = if dx > dy {
            a
        } else {
            b
        };
        proof {
            if dx > dy {
                lemma_x_major(dx as int, dy as int, a, b, err as int);
            } else if dy > 0 {
                lemma_y_major(dx as int, dy as int, b, a, err as int);
            }
            assert(0 <= a <= dx && 0 <= b <= dy);
            assert(points[k] == (x0 as int, y0 as int));
            assert(points.take(k + 1).drop_last() =~= points.take(k));
        }
        set_pixel(frame, x0, y0, color);
        if x0 == x1 && y0 == y1 {
            proof {
                assert(k == n);
                assert(points.take(k + 1) =~= points);
            }
            break;
        }
        proof {
            assert(k < n);
        }
        let e2: isize = err;
        let step_x: bool = e2 > -dx;
        let step_y: bool = e2 < dy;
        proof {
            // A step is taken only along an extent that is not yet used up.
            if step_x && a == dx {
                assert(a_dy - b_dx >= dx) by (nonlinear_arith)
                    requires
                        a_dy == dx * dy,
                        b_dx == b * dx,
                        0 <= b < dy,
                        dx >= 0,
                ;
                assert(false);
            }
            if step_y && b == dy {
                assert(b_dx - a_dy >= dy) by (nonlinear_arith)
                    requires
                        b_dx == dy * dx,
                        a_dy == a * dy,
                        0 <= a < dx,
                        dy >= 0,
                ;
                assert(false);
            }
        }
        // Where both steps are taken the two extents are settled against
        // each other first: the term itself never leaves the longer one.
        if step_x && step_y {
            err = e2 + (dx - dy);
        } else if step_x {
            err = e2 - dy;
        } else if step_y {
            err = e2 + dx;
        }
        if step_x {
            x0 = x0 + sx;
            proof {
                assert((a + 1) * dy == a * dy + dy) by (nonlinear_arith);
                a = a + 1;
                a_dy = a_dy + dy;
            }
        }
        if step_y {
            y0 = y0 + sy;
            proof {
                assert((b + 1) * dx == b * dx + dx) by (nonlinear_arith);
                b = b + 1;
                b_dx = b_dx + dx;
            }
        }
    }
}

} // verus!
