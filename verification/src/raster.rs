//! The rasterizer: a canvas of pixels and an integer-stepping line drawer.
//! A line is drawn by doubling an error accumulator against the coordinate
//! deltas, stepping x and/or y toward the endpoint each iteration; pixels
//! outside the canvas are silently skipped, never an error.

use vstd::prelude::*;

verus! {

/// Largest canvas side length.
pub const CANVAS_MAX: usize = 0x8000;

/// The distance between two coordinates.
pub open spec fn dist(a: int, b: int) -> int {
    if a >= b {
        a - b
    } else {
        b - a
    }
}

/// The pixels the stepping visits from `(x, y)` on: plot, stop at the
/// endpoint, else advance x and/or y by comparing the doubled error term
/// against the deltas. `fuel` only forces termination; a started walk never
/// runs out of it.
pub open spec fn line_points_rec(
    x: int,
    y: int,
    x1: int,
    y1: int,
    err: int,
    dx: int,
    dy: int,
    sx: int,
    sy: int,
    fuel: nat,
) -> Seq<(int, int)>
    decreases fuel,
{
    if x == x1 && y == y1 {
        seq![(x, y)]
    } else if fuel == 0 {
        seq![(x, y)]
    } else {
        let e2 = 2 * err;
        let nx = if e2 > -dy {
            x + sx
        } else {
            x
        };
        let err1 = if e2 > -dy {
            err - dy
        } else {
            err
        };
        let ny = if e2 < dx {
            y + sy
        } else {
            y
        };
        let err2 = if e2 < dx {
            err1 + dx
        } else {
            err1
        };
        seq![(x, y)] + line_points_rec(nx, ny, x1, y1, err2, dx, dy, sx, sy, (fuel - 1) as nat)
    }
}

/// The connected pixel path the rasterizer plots from `(x0, y0)` to
/// `(x1, y1)` inclusive.
pub open spec fn line_points(x0: int, y0: int, x1: int, y1: int) -> Seq<(int, int)> {
    let dx = dist(x1, x0);
    let dy = dist(y1, y0);
    let sx: int = if x0 < x1 {
        1
    } else {
        -1
    };
    let sy: int = if y0 < y1 {
        1
    } else {
        -1
    };
    line_points_rec(x0, y0, x1, y1, dx - dy, dx, dy, sx, sy, (dx + dy) as nat)
}

/// Distinct in-range pixel coordinates land on distinct buffer cells.
pub proof fn lemma_cell_injective(px: int, py: int, qx: int, qy: int, w: int)
    requires
        0 <= px < w,
        0 <= qx < w,
        py * w + px == qy * w + qx,
    ensures
        px == qx,
        py == qy,
{
    assert(px == qx && py == qy) by (nonlinear_arith)
        requires
            0 <= px < w,
            0 <= qx < w,
            py * w + px == qy * w + qx,
    ;
}

/// A flat pixel buffer of fixed width x height.
pub struct Canvas {
    buf: Vec<u32>,
    width: usize,
    height: usize,
}

impl View for Canvas {
    type V = Seq<u32>;

    closed spec fn view(&self) -> Seq<u32> {
        self.buf@
    }
}

impl Canvas {
    pub closed spec fn spec_width(&self) -> int {
        self.width as int
    }

    pub closed spec fn spec_height(&self) -> int {
        self.height as int
    }

    /// The cells match the dimensions and both sides are in range.
    pub closed spec fn wf(&self) -> bool {
        &&& self.buf@.len() == self.spec_width() * self.spec_height()
        &&& 1 <= self.spec_width() <= CANVAS_MAX
        &&& 1 <= self.spec_height() <= CANVAS_MAX
    }

    /// A well-formed canvas has exactly width x height cells.
    pub proof fn lemma_wf_len(&self)
        requires
            self.wf(),
        ensures
            self@.len() == self.spec_width() * self.spec_height(),
            1 <= self.spec_width() <= CANVAS_MAX,
            1 <= self.spec_height() <= CANVAS_MAX,
    {
    }

    /// A fresh canvas with every pixel set to `color`.
    pub fn new(width: usize, height: usize, color: u32) -> (c: Canvas)
        requires
            1 <= width <= CANVAS_MAX,
            1 <= height <= CANVAS_MAX,
        ensures
            c.wf(),
            c.spec_width() == width,
            c.spec_height() == height,
            forall|p: int| 0 <= p < c@.len() ==> c@[p] == color,
    {
        proof {
            assert(width * height <= 0x4000_0000) by (nonlinear_arith)
                requires
                    width <= 0x8000,
                    height <= 0x8000,
            ;
            assert(0 < width * height) by (nonlinear_arith)
                requires
                    1 <= width,
                    1 <= height,
            ;
        }
        let n: usize = width * height;
        let mut buf: Vec<u32> = Vec::new();
        for p in 0..n
            invariant
                buf@.len() == p,
                forall|q: int| 0 <= q < p ==> buf@[q] == color,
        {
            buf.push(color);
        }
        Canvas { buf, width, height }
    }

    pub fn width(&self) -> (w: usize)
        ensures
            w == self.spec_width(),
    {
        self.width
    }

    pub fn height(&self) -> (h: usize)
        ensures
            h == self.spec_height(),
    {
        self.height
    }

    /// The pixel at `(x, y)`.
    pub fn get(&self, x: usize, y: usize) -> (v: u32)
        requires
            self.wf(),
            x < self.spec_width(),
            y < self.spec_height(),
        ensures
            v == self@[y * self.spec_width() + x],
    {
        proof {
            assert(y * self.spec_width() + x < self.spec_width() * self.spec_height())
                by (nonlinear_arith)
                requires
                    0 <= x < self.spec_width(),
                    0 <= y < self.spec_height(),
            ;
            assert(0 <= y * self.spec_width()) by (nonlinear_arith)
                requires
                    0 <= y,
                    0 <= self.spec_width(),
            ;
            assert(self.spec_width() * self.spec_height() <= 0x4000_0000) by (nonlinear_arith)
                requires
                    self.spec_width() <= 0x8000,
                    self.spec_height() <= 0x8000,
            ;
        }
        self.buf[y * self.width + x]
    }

    /// The whole pixel buffer, row by row.
    pub fn pixels(&self) -> (r: &Vec<u32>)
        ensures
            r@ == self@,
    {
        &self.buf
    }

    /// Resets every pixel to `color`.
    pub fn clear(&mut self, color: u32)
        requires
            old(self).wf(),
        ensures
            final(self).wf(),
            final(self).spec_width() == old(self).spec_width(),
            final(self).spec_height() == old(self).spec_height(),
            final(self)@.len() == old(self)@.len(),
            forall|p: int| 0 <= p < final(self)@.len() ==> final(self)@[p] == color,
    {
        let n = self.buf.len();
        for p in 0..n
            invariant
                self.buf@.len() == n,
                self.width == old(self).width,
                self.height == old(self).height,
                old(self).wf(),
                self.buf@.len() == old(self).buf@.len(),
                forall|q: int| 0 <= q < p ==> self.buf@[q] == color,
        {
            self.buf.set(p, color);
        }
    }
}

proof fn lemma_rec_connected(
    x: int,
    y: int,
    x1: int,
    y1: int,
    err: int,
    dx: int,
    dy: int,
    sx: int,
    sy: int,
    fuel: nat,
    i: int,
    j: int,
)
    requires
        sx == 1 || sx == -1,
        sy == 1 || sy == -1,
        0 <= i <= dx,
        0 <= j <= dy,
        x1 == x + sx * (dx - i),
        y1 == y + sy * (dy - j),
        err == dx * (1 + j) - dy * (1 + i),
        fuel >= dx + dy - i - j,
    ensures
        ({
            let s = line_points_rec(x, y, x1, y1, err, dx, dy, sx, sy, fuel);
            &&& s.len() >= 1
            &&& s[0] == (x, y)
            &&& s.last() == (x1, y1)
            &&& forall|m: int|
                0 <= m < s.len() - 1 ==> -1 <= (#[trigger] s[m + 1]).0 - s[m].0 <= 1 && -1 <= s[
                    m + 1
                ].1 - s[m].1 <= 1 && (s[m + 1].0 != s[m].0 || s[m + 1].1 != s[m].1)
        }),
    decreases fuel,
{
    let s = line_points_rec(x, y, x1, y1, err, dx, dy, sx, sy, fuel);
    if x == x1 && y == y1 {
        assert(s =~= seq![(x, y)]);
    } else {
        if x == x1 {
            assert(i == dx) by (nonlinear_arith)
                requires
                    x1 == x + sx * (dx - i),
                    x == x1,
                    sx == 1 || sx == -1,
                    0 <= i <= dx,
            ;
        }
        if y == y1 {
            assert(j == dy) by (nonlinear_arith)
                requires
                    y1 == y + sy * (dy - j),
                    y == y1,
                    sy == 1 || sy == -1,
                    0 <= j <= dy,
            ;
        }
        if i == dx {
            assert(x == x1) by (nonlinear_arith)
                requires
                    x1 == x + sx * (dx - i),
                    i == dx,
            ;
        }
        if j == dy {
            assert(y == y1) by (nonlinear_arith)
                requires
                    y1 == y + sy * (dy - j),
                    j == dy,
            ;
        }
        assert(i < dx || j < dy);
        assert(fuel >= 1);
        let e2 = 2 * err;
        // no overstep on either axis
        if i == dx {
            assert(j < dy);
            assert(!(e2 > -dy)) by (nonlinear_arith)
                requires
                    e2 == 2 * (dx * (1 + j) - dy * (1 + i)),
                    i == dx,
                    0 <= j,
                    j + 1 <= dy,
                    0 <= dx,
            ;
        }
        if j == dy {
            assert(i < dx);
            assert(!(e2 < dx)) by (nonlinear_arith)
                requires
                    e2 == 2 * (dx * (1 + j) - dy * (1 + i)),
                    j == dy,
                    0 <= i,
                    i + 1 <= dx,
                    0 <= dy,
                    1 <= dx,
            ;
        }
        let stepx = e2 > -dy;
        let stepy = e2 < dx;
        // no stall: at least one axis advances
        if !stepx && !stepy {
            assert(dx <= e2 && e2 <= -dy);
            assert(dx == 0 && dy == 0);
            assert(false);
        }
        let nx = if stepx {
            x + sx
        } else {
            x
        };
        let ny = if stepy {
            y + sy
        } else {
            y
        };
        let nerr = if stepy {
            (if stepx {
                err - dy
            } else {
                err
            }) + dx
        } else {
            (if stepx {
                err - dy
            } else {
                err
            })
        };
        let ni = if stepx {
            i + 1
        } else {
            i
        };
        let nj = if stepy {
            j + 1
        } else {
            j
        };
        assert(x1 == nx + sx * (dx - ni)) by (nonlinear_arith)
            requires
                x1 == x + sx * (dx - i),
                (nx == x + sx && ni == i + 1) || (nx == x && ni == i),
        ;
        assert(y1 == ny + sy * (dy - nj)) by (nonlinear_arith)
            requires
                y1 == y + sy * (dy - j),
                (ny == y + sy && nj == j + 1) || (ny == y && nj == j),
        ;
        assert(nerr == dx * (1 + nj) - dy * (1 + ni)) by (nonlinear_arith)
            requires
                err == dx * (1 + j) - dy * (1 + i),
                (ni == i + 1 && nerr == err - dy + (if nj == j + 1 {
                    dx
                } else {
                    0int
                })) || (ni == i && nj == j + 1 && nerr == err + dx),
                nj == j || nj == j + 1,
        ;
        lemma_rec_connected(nx, ny, x1, y1, nerr, dx, dy, sx, sy, (fuel - 1) as nat, ni, nj);
        let s2 = line_points_rec(nx, ny, x1, y1, nerr, dx, dy, sx, sy, (fuel - 1) as nat);
        assert(s =~= seq![(x, y)] + s2);
        assert(s.last() == s2.last());
        assert forall|m: int| 0 <= m < s.len() - 1 implies -1 <= (#[trigger] s[m + 1]).0 - s[m].0
            <= 1 && -1 <= s[m + 1].1 - s[m].1 <= 1 && (s[m + 1].0 != s[m].0 || s[m + 1].1
            != s[m].1) by {
            if m == 0 {
                assert(s[0] == (x, y));
                assert(s[1] == s2[0]);
                assert(s2[0] == (nx, ny));
            } else {
                assert(s[m] == s2[m - 1]);
                assert(s[m + 1] == s2[m]);
                assert(s2[(m - 1) + 1] == s2[m]);
            }
        }
    }
}

/// Law: the rasterized path is a connected walk from endpoint to endpoint.
/// `line_points(x0, y0, x1, y1)` starts at `(x0, y0)`, ends exactly at
/// `(x1, y1)`, and each step moves to one of the eight neighboring pixels:
/// both coordinates change by at most one and at least one changes, so the
/// path has no gaps.
pub proof fn lemma_line_points_connected(x0: int, y0: int, x1: int, y1: int)
    ensures
        ({
            let s = line_points(x0, y0, x1, y1);
            &&& s.len() >= 1
            &&& s[0] == (x0, y0)
            &&& s.last() == (x1, y1)
            &&& forall|m: int|
                0 <= m < s.len() - 1 ==> -1 <= (#[trigger] s[m + 1]).0 - s[m].0 <= 1 && -1 <= s[
                    m + 1
                ].1 - s[m].1 <= 1 && (s[m + 1].0 != s[m].0 || s[m + 1].1 != s[m].1)
        }),
{
    let dx = dist(x1, x0);
    let dy = dist(y1, y0);
    let sx: int = if x0 < x1 {
        1
    } else {
        -1
    };
    let sy: int = if y0 < y1 {
        1
    } else {
        -1
    };
    assert(x1 == x0 + sx * (dx - 0)) by (nonlinear_arith)
        requires
            dx == dist(x1, x0),
            sx == (if x0 < x1 {
                1int
            } else {
                -1int
            }),
    ;
    assert(y1 == y0 + sy * (dy - 0)) by (nonlinear_arith)
        requires
            dy == dist(y1, y0),
            sy == (if y0 < y1 {
                1int
            } else {
                -1int
            }),
    ;
    assert(dx - dy == dx * (1 + 0) - dy * (1 + 0)) by (nonlinear_arith);
    lemma_rec_connected(x0, y0, x1, y1, dx - dy, dx, dy, sx, sy, (dx + dy) as nat, 0, 0);
}

proof fn lemma_rec_horizontal(x: int, y: int, x1: int, dx: int, sy: int, fuel: nat)
    requires
        x <= x1,
        dx >= 1,
        fuel >= x1 - x,
    ensures
        line_points_rec(x, y, x1, y, dx, dx, 0, 1, sy, fuel).len() == x1 - x + 1,
        forall|k: int|
            0 <= k <= x1 - x ==> #[trigger] line_points_rec(x, y, x1, y, dx, dx, 0, 1, sy, fuel)[k]
                == (x + k, y),
    decreases x1 - x,
{
    let s = line_points_rec(x, y, x1, y, dx, dx, 0, 1, sy, fuel);
    if x == x1 {
        assert(s =~= seq![(x, y)]);
    } else {
        let s2 = line_points_rec(x + 1, y, x1, y, dx, dx, 0, 1, sy, (fuel - 1) as nat);
        lemma_rec_horizontal(x + 1, y, x1, dx, sy, (fuel - 1) as nat);
        assert(s =~= seq![(x, y)] + s2);
        assert forall|k: int| 0 <= k <= x1 - x implies #[trigger] s[k] == (x + k, y) by {
            if k > 0 {
                assert(s[k] == s2[k - 1]);
                assert(s2[k - 1] == (x + 1 + (k - 1), y));
            }
        }
    }
}

/// Law: raster correctness on a horizontal run. The line from `(x0, y)` to
/// `(x1, y)` with `x0 <= x1` visits exactly the pixels `(x0, y)` through
/// `(x1, y)` inclusive, in order, and no others.
pub proof fn lemma_line_points_horizontal(x0: int, y: int, x1: int)
    requires
        x0 <= x1,
    ensures
        line_points(x0, y, x1, y).len() == x1 - x0 + 1,
        forall|k: int|
            0 <= k <= x1 - x0 ==> #[trigger] line_points(x0, y, x1, y)[k] == (x0 + k, y),
{
    if x0 == x1 {
        assert(line_points(x0, y, x1, y) =~= seq![(x0, y)]);
    } else {
        lemma_rec_horizontal(x0, y, x1, x1 - x0, -1, (x1 - x0) as nat);
    }
}

/// Whether the pixel behind flat buffer index `p` (in a canvas `w` wide)
/// lies on the point list.
pub open spec fn covers(pts: Seq<(int, int)>, p: int, w: int) -> bool {
    pts.contains((p % w, p / w))
}

/// Draws the straight line from `(x0, y0)` to `(x1, y1)` inclusive: every
/// pixel of `line_points` that lies on the canvas takes `color`, every
/// other pixel keeps its value.
pub fn draw_line(c: &mut Canvas, x0: i32, y0: i32, x1: i32, y1: i32, color: u32)
    requires
        old(c).wf(),
        -0x2000_0000 <= x0 <= 0x2000_0000,
        -0x2000_0000 <= y0 <= 0x2000_0000,
        -0x2000_0000 <= x1 <= 0x2000_0000,
        -0x2000_0000 <= y1 <= 0x2000_0000,
    ensures
        final(c).wf(),
        final(c).spec_width() == old(c).spec_width(),
        final(c).spec_height() == old(c).spec_height(),
        final(c)@.len() == old(c)@.len(),
        forall|p: int|
            0 <= p < old(c)@.len() ==> final(c)@[p] == (if covers(
                line_points(x0 as int, y0 as int, x1 as int, y1 as int),
                p,
                old(c).spec_width(),
            ) {
                color
            } else {
                old(c)@[p]
            }),
{
    let w = c.width();
    let h = c.height();
    let ghost orig = c@;
    let ghost pts = line_points(x0 as int, y0 as int, x1 as int, y1 as int);
    let x1i: i64 = x1 as i64;
    let y1i: i64 = y1 as i64;
    let mut x: i64 = x0 as i64;
    let mut y: i64 = y0 as i64;
    let dx: i64 = if x1 >= x0 {
        x1 as i64 - x0 as i64
    } else {
        x0 as i64 - x1 as i64
    };
    let dy: i64 = if y1 >= y0 {
        y1 as i64 - y0 as i64
    } else {
        y0 as i64 - y1 as i64
    };
    let sx: i64 = if x0 < x1 {
        1
    } else {
        -1
    };
    let sy: i64 = if y0 < y1 {
        1
    } else {
        -1
    };
    let mut err: i64 = dx - dy;
    let ghost mut t: int = 0;
    let ghost mut i: int = 0;
    let ghost mut j: int = 0;
    proof {
        assert(w * h <= 0x4000_0000) by (nonlinear_arith)
            requires
                w <= 0x8000,
                h <= 0x8000,
        ;
        assert(pts.take(0) =~= Seq::<(int, int)>::empty());
        assert(err as int == dx as int * (1 + 0) - dy as int * (1 + 0)) by (nonlinear_arith)
            requires
                err as int == dx as int - dy as int,
        ;
        assert(pts =~= pts.take(0) + line_points_rec(
            x as int,
            y as int,
            x1 as int,
            y1 as int,
            err as int,
            dx as int,
            dy as int,
            sx as int,
            sy as int,
            (dx + dy) as nat,
        ));
    }
    loop
        invariant_except_break
            c.wf(),
            c.spec_width() == w,
            c.spec_height() == h,
            c@.len() == orig.len(),
            orig.len() == w * h,
            w * h <= 0x4000_0000,
            1 <= w <= CANVAS_MAX,
            1 <= h <= CANVAS_MAX,
            x1i == x1 as i64,
            y1i == y1 as i64,
            dx == dist(x1 as int, x0 as int),
            dy == dist(y1 as int, y0 as int),
            sx == (if x0 < x1 { 1int } else { -1int }),
            sy == (if y0 < y1 { 1int } else { -1int }),
            -0x2000_0000 <= x0 <= 0x2000_0000,
            -0x2000_0000 <= y0 <= 0x2000_0000,
            -0x2000_0000 <= x1 <= 0x2000_0000,
            -0x2000_0000 <= y1 <= 0x2000_0000,
            x1 as int == x0 as int + sx * dx,
            y1 as int == y0 as int + sy * dy,
            x as int == x0 as int + sx * i,
            y as int == y0 as int + sy * j,
            0 <= i <= dx,
            0 <= j <= dy,
            err as int == dx * (1 + j) - dy * (1 + i),
            0 <= t <= i + j,
            t <= pts.len(),
            pts == line_points(x0 as int, y0 as int, x1 as int, y1 as int),
            pts =~= pts.take(t) + line_points_rec(
                x as int,
                y as int,
                x1 as int,
                y1 as int,
                err as int,
                dx as int,
                dy as int,
                sx as int,
                sy as int,
                (dx + dy - t) as nat,
            ),
            forall|p: int|
                0 <= p < orig.len() ==> c@[p] == (if covers(pts.take(t), p, w as int) {
                    color
                } else {
                    orig[p]
                }),
        ensures
            c.wf(),
            c.spec_width() == w,
            c.spec_height() == h,
            c@.len() == orig.len(),
            forall|p: int|
                0 <= p < orig.len() ==> c@[p] == (if covers(pts, p, w as int) {
                    color
                } else {
                    orig[p]
                }),
        decreases dx + dy - i - j,
    {
        let ghost rest = line_points_rec(
            x as int,
            y as int,
            x1 as int,
            y1 as int,
            err as int,
            dx as int,
            dy as int,
            sx as int,
            sy as int,
            (dx + dy - t) as nat,
        );
        proof {
            assert(pts.len() == t + rest.len());
            assert(rest.len() >= 1);
            assert(rest[0] == (x as int, y as int));
            assert(pts[t] == rest[0]);
            assert(t < pts.len());
        }
        // plot the current pixel if it lies on the canvas
        let inb = x >= 0 && y >= 0 && x < w as i64 && y < h as i64;
        let ghost idx_g: int = (y as int) * (w as int) + (x as int);
        if inb {
            proof {
                assert((y as int) * w + x < w * h) by (nonlinear_arith)
                    requires
                        0 <= x as int,
                        (x as int) < w,
                        0 <= y as int,
                        (y as int) < h,
                ;
                assert(0 <= (y as int) * w) by (nonlinear_arith)
                    requires
                        0 <= y as int,
                        0 <= w,
                ;
            }
            let idx: usize = (y as usize) * w + (x as usize);
            set_cell(c, idx, color);
        }
        proof {
            let xi = x as int;
            let yi = y as int;
            let wi = w as int;
            let hi = h as int;
            assert(pts.take(t + 1) =~= pts.take(t).push((xi, yi)));
            assert forall|p: int| 0 <= p < orig.len() implies c@[p] == (if covers(
                pts.take(t + 1),
                p,
                wi,
            ) {
                color
            } else {
                orig[p]
            }) by {
                vstd::arithmetic::div_mod::lemma_fundamental_div_mod(p, wi);
                vstd::arithmetic::div_mod::lemma_mod_bound(p, wi);
                let px = p % wi;
                let py = p / wi;
                assert(0 <= py && py < hi) by (nonlinear_arith)
                    requires
                        p == wi * py + px,
                        0 <= p,
                        p < wi * hi,
                        0 <= px,
                        px < wi,
                        1 <= wi,
                ;
                if px == xi && py == yi {
                    // this is the plotted cell; it lies on the canvas
                    assert(p == idx_g) by (nonlinear_arith)
                        requires
                            p == wi * py + px,
                            idx_g == yi * wi + xi,
                            px == xi,
                            py == yi,
                    ;
                    assert(inb);
                    assert(c@[p] == color);
                    assert(pts.take(t + 1)[t] == (px, py));
                    assert(pts.take(t + 1).contains((px, py)));
                } else {
                    if inb {
                        if p == idx_g {
                            assert(idx_g == yi * wi + xi);
                            vstd::arithmetic::div_mod::lemma_fundamental_div_mod_converse(
                                p,
                                wi,
                                yi,
                                xi,
                            );
                            assert(false);
                        }
                        assert(c@[p] == (if covers(pts.take(t), p, wi) {
                            color
                        } else {
                            orig[p]
                        }));
                    }
                    if pts.take(t + 1).contains((px, py)) {
                        let k = choose|k: int|
                            0 <= k < pts.take(t + 1).len() && #[trigger] pts.take(t + 1)[k] == (
                            px,
                            py,
                        );
                        assert(k != t);
                        assert(pts.take(t)[k] == (px, py));
                        assert(pts.take(t).contains((px, py)));
                    } else {
                        if pts.take(t).contains((px, py)) {
                            let k = choose|k: int|
                                0 <= k < pts.take(t).len() && #[trigger] pts.take(t)[k] == (
                                px,
                                py,
                            );
                            assert(pts.take(t + 1)[k] == (px, py));
                            assert(pts.take(t + 1).contains((px, py)));
                        }
                    }
                }
            }
        }
        if x == x1i && y == y1i {
            proof {
                assert(rest =~= seq![(x as int, y as int)]);
                assert(pts.take(t + 1) =~= pts);
            }
            break ;
        }
        proof {
            // the walk is not done, so it still has fuel and steps at least
            // one coordinate toward the endpoint
            if x as int == x1 as int {
                assert(i == dx) by (nonlinear_arith)
                    requires
                        x as int == x0 as int + sx * i,
                        x1 as int == x0 as int + sx * dx,
                        x as int == x1 as int,
                        sx == 1 || sx == -1,
                        0 <= i <= dx,
                ;
            }
            if y as int == y1 as int {
                assert(j == dy) by (nonlinear_arith)
                    requires
                        y as int == y0 as int + sy * j,
                        y1 as int == y0 as int + sy * dy,
                        y as int == y1 as int,
                        sy == 1 || sy == -1,
                        0 <= j <= dy,
                ;
            }
            assert(!(i == dx && j == dy)) by {
                if i == dx && j == dy {
                    assert(x as int == x1 as int && y as int == y1 as int) by (nonlinear_arith)
                        requires
                            x as int == x0 as int + sx * i,
                            x1 as int == x0 as int + sx * dx,
                            i == dx,
                            y as int == y0 as int + sy * j,
                            y1 as int == y0 as int + sy * dy,
                            j == dy,
                    ;
                    assert(false);
                }
            }
            assert(i < dx || j < dy);
            assert(t < dx + dy);
            assert(-0x2000_0000_0000_0000 < err as int && (err as int) < 0x2000_0000_0000_0000)
                by (nonlinear_arith)
                requires
                    err as int == dx * (1 + j) - dy * (1 + i),
                    0 <= i <= dx,
                    0 <= j <= dy,
                    0 <= dx <= 0x4000_0000,
                    0 <= dy <= 0x4000_0000,
            ;
        }
        let e2: i64 = 2 * err;
        let ghost old_i = i;
        let ghost old_j = j;
        let ghost old_err = err as int;
        let ghost old_x = x as int;
        let ghost old_y = y as int;
        if e2 > -dy {
            proof {
                if i == dx {
                    assert(x as int == x1 as int) by (nonlinear_arith)
                        requires
                            x as int == x0 as int + sx * i,
                            x1 as int == x0 as int + sx * dx,
                            i == dx,
                    ;
                    assert(j < dy);
                    assert(false) by (nonlinear_arith)
                        requires
                            2 * (dx * (1 + j) - dy * (1 + i)) > -dy,
                            i == dx,
                            0 <= j,
                            j + 1 <= dy,
                            0 <= dx,
                    ;
                }
                i = i + 1;
                assert((x as int) + sx == x0 as int + sx * i && -0x2000_0000 <= x0 as int + sx
                    * i && x0 as int + sx * i <= 0x2000_0000) by (nonlinear_arith)
                    requires
                        x as int == x0 as int + sx * (i - 1),
                        1 <= i <= dx,
                        x1 as int == x0 as int + sx * dx,
                        sx == 1 || sx == -1,
                        -0x2000_0000 <= x0 as int,
                        x0 as int <= 0x2000_0000,
                        -0x2000_0000 <= x1 as int,
                        x1 as int <= 0x2000_0000,
                ;
            }
            err = err - dy;
            x = x + sx;
        }
        if e2 < dx {
            proof {
                if j == dy {
                    assert(y as int == y1 as int) by (nonlinear_arith)
                        requires
                            y as int == y0 as int + sy * j,
                            y1 as int == y0 as int + sy * dy,
                            j == dy,
                    ;
                    assert(old_i < dx);
                    assert(false) by (nonlinear_arith)
                        requires
                            2 * (dx * (1 + j) - dy * (1 + old_i)) < dx,
                            j == dy,
                            0 <= old_i,
                            old_i + 1 <= dx,
                            0 <= dy,
                            1 <= dx,
                    ;
                }
                j = j + 1;
                assert((y as int) + sy == y0 as int + sy * j && -0x2000_0000 <= y0 as int + sy
                    * j && y0 as int + sy * j <= 0x2000_0000) by (nonlinear_arith)
                    requires
                        y as int == y0 as int + sy * (j - 1),
                        1 <= j <= dy,
                        y1 as int == y0 as int + sy * dy,
                        sy == 1 || sy == -1,
                        -0x2000_0000 <= y0 as int,
                        y0 as int <= 0x2000_0000,
                        -0x2000_0000 <= y1 as int,
                        y1 as int <= 0x2000_0000,
                ;
            }
            err = err + dx;
            y = y + sy;
        }
        proof {
            assert(x as int == x0 as int + sx * i) by (nonlinear_arith)
                requires
                    (i == old_i && x as int == old_x) || (i == old_i + 1 && x as int == old_x
                        + sx),
                    old_x == x0 as int + sx * old_i,
            ;
            assert(y as int == y0 as int + sy * j) by (nonlinear_arith)
                requires
                    (j == old_j && y as int == old_y) || (j == old_j + 1 && y as int == old_y
                        + sy),
                    old_y == y0 as int + sy * old_j,
            ;
            assert(err as int == dx * (1 + j) - dy * (1 + i)) by (nonlinear_arith)
                requires
                    old_err == dx * (1 + old_j) - dy * (1 + old_i),
                    (i == old_i + 1 && err as int == old_err - dy + (if j == old_j + 1 {
                        dx as int
                    } else {
                        0int
                    })) || (i == old_i && j == old_j + 1 && err as int == old_err + dx),
                    j == old_j || j == old_j + 1,
            ;
            assert(rest =~= seq![(old_x, old_y)] + line_points_rec(
                x as int,
                y as int,
                x1 as int,
                y1 as int,
                err as int,
                dx as int,
                dy as int,
                sx as int,
                sy as int,
                (dx + dy - t - 1) as nat,
            ));
            assert(pts =~= pts.take(t + 1) + line_points_rec(
                x as int,
                y as int,
                x1 as int,
                y1 as int,
                err as int,
                dx as int,
                dy as int,
                sx as int,
                sy as int,
                (dx + dy - (t + 1)) as nat,
            ));
            t = t + 1;
        }
    }
}

/// Writes one buffer cell; the canvas keeps its dimensions.
fn set_cell(c: &mut Canvas, idx: usize, color: u32)
    requires
        old(c).wf(),
        idx < old(c)@.len(),
    ensures
        final(c).wf(),
        final(c).spec_width() == old(c).spec_width(),
        final(c).spec_height() == old(c).spec_height(),
        final(c)@ =~= old(c)@.update(idx as int, color),
{
    c.buf.set(idx, color);
}

} // verus!
