//! Integer-only Bresenham line rasterization over the frame buffer.

use vstd::prelude::*;
use crate::color::Color;
use crate::gui::{Gui, GuiView, spec_pixel};

verus! {

/// Coordinates handed to `line` are capped well inside the i64 range so the
/// rasterizer's doubled error accumulators cannot overflow.
pub const COORD_LIMIT: i64 = 0x0800_0000_0000_0000;

pub open spec fn coord_ok(c: int) -> bool {
    -COORD_LIMIT <= c <= COORD_LIMIT
}

pub open spec fn iabs(a: int) -> int {
    if a >= 0 {
        a
    } else {
        -a
    }
}

pub open spec fn isign(a: int) -> int {
    if a > 0 {
        1int
    } else if a < 0 {
        -1int
    } else {
        0int
    }
}

/// The inclusive horizontal run of n cells starting at (x, y).
pub open spec fn hseg(x: int, y: int, n: nat) -> Seq<(int, int)> {
    Seq::new(n, |i: int| (x + i, y))
}

/// The inclusive vertical run of n cells starting at (x, y).
pub open spec fn vseg(x: int, y: int, n: nat) -> Seq<(int, int)> {
    Seq::new(n, |i: int| (x, y + i))
}

/// The x-major Bresenham walk: n cells starting at (x, y), one per column;
/// each step adds twice the absolute minor slope to the error accumulator
/// and, when it turns non-negative, steps y by `step` and subtracts `span2`
/// (twice the major span).
pub open spec fn x_walk(
    x: int,
    y: int,
    n: nat,
    slope_abs: int,
    step: int,
    err: int,
    span2: int,
) -> Seq<(int, int)>
    decreases n,
{
    if n == 0 {
        Seq::empty()
    } else {
        let e = err + 2 * slope_abs;
        if e >= 0 {
            seq![(x, y)] + x_walk(x + 1, y + step, (n - 1) as nat, slope_abs, step, e - span2, span2)
        } else {
            seq![(x, y)] + x_walk(x + 1, y, (n - 1) as nat, slope_abs, step, e, span2)
        }
    }
}

/// The y-major Bresenham walk: n cells starting at (x, y), one per row.
pub open spec fn y_walk(
    x: int,
    y: int,
    n: nat,
    slope_abs: int,
    step: int,
    err: int,
    span2: int,
) -> Seq<(int, int)>
    decreases n,
{
    if n == 0 {
        Seq::empty()
    } else {
        let e = err + 2 * slope_abs;
        if e >= 0 {
            seq![(x, y)] + y_walk(x + step, y + 1, (n - 1) as nat, slope_abs, step, e - span2, span2)
        } else {
            seq![(x, y)] + y_walk(x, y + 1, (n - 1) as nat, slope_abs, step, e, span2)
        }
    }
}

/// The cell sequence a `line` call visits, in order: axis-aligned segments
/// are normalized to an ascending scan; otherwise the endpoints are ordered
/// along the major axis and walked with the error accumulator.
pub open spec fn line_points(x0: int, y0: int, x1: int, y1: int) -> Seq<(int, int)> {
    let dx = x1 - x0;
    let dy = y1 - y0;
    if dy == 0 {
        if x0 <= x1 {
            hseg(x0, y0, (x1 - x0 + 1) as nat)
        } else {
            hseg(x1, y0, (x0 - x1 + 1) as nat)
        }
    } else if dx == 0 {
        if y0 <= y1 {
            vseg(x0, y0, (y1 - y0 + 1) as nat)
        } else {
            vseg(x0, y1, (y0 - y1 + 1) as nat)
        }
    } else {
        let adx = iabs(dx);
        let ady = iabs(dy);
        if ady <= adx {
            if x0 <= x1 {
                x_walk(x0, y0, (adx + 1) as nat, ady, isign(dy), -adx, 2 * adx)
            } else {
                x_walk(x1, y1, (adx + 1) as nat, ady, isign(y0 - y1), -adx, 2 * adx)
            }
        } else {
            if y0 <= y1 {
                y_walk(x0, y0, (ady + 1) as nat, adx, isign(dx), -ady, 2 * ady)
            } else {
                y_walk(x1, y1, (ady + 1) as nat, adx, isign(x0 - x1), -ady, 2 * ady)
            }
        }
    }
}

/// Folding `pixel` over a sequence of points.
pub open spec fn draw_points(
    v: GuiView,
    pts: Seq<(int, int)>,
    c: char,
    fg: Color,
    bg: Color,
) -> GuiView
    decreases pts.len(),
{
    if pts.len() == 0 {
        v
    } else {
        draw_points(
            spec_pixel(v, pts[0].0, pts[0].1, c, fg, bg),
            pts.subrange(1, pts.len() as int),
            c,
            fg,
            bg,
        )
    }
}

/// Drawing one more point continues the fold.
pub proof fn lemma_draw_points_push(
    v: GuiView,
    pts: Seq<(int, int)>,
    p: (int, int),
    c: char,
    fg: Color,
    bg: Color,
)
    ensures
        draw_points(v, pts.push(p), c, fg, bg) == spec_pixel(
            draw_points(v, pts, c, fg, bg),
            p.0,
            p.1,
            c,
            fg,
            bg,
        ),
    decreases pts.len(),
{
    if pts.len() == 0 {
        assert(pts.push(p)[0] == p);
        assert(pts.push(p).subrange(1, 1) =~= Seq::<(int, int)>::empty());
        assert(draw_points(spec_pixel(v, p.0, p.1, c, fg, bg), Seq::<(int, int)>::empty(), c, fg, bg)
            == spec_pixel(v, p.0, p.1, c, fg, bg));
        assert(draw_points(v, pts, c, fg, bg) == v);
    } else {
        assert(pts.push(p)[0] == pts[0]);
        assert(pts.push(p).subrange(1, pts.len() as int + 1) =~= pts.subrange(1, pts.len() as int).push(
            p,
        ));
        lemma_draw_points_push(
            spec_pixel(v, pts[0].0, pts[0].1, c, fg, bg),
            pts.subrange(1, pts.len() as int),
            p,
            c,
            fg,
            bg,
        );
    }
}

/// Drawing a single point is one `pixel` application.
pub proof fn lemma_draw_points_single(v: GuiView, x: int, y: int, c: char, fg: Color, bg: Color)
    ensures
        draw_points(v, seq![(x, y)], c, fg, bg) == spec_pixel(v, x, y, c, fg, bg),
{
    assert(seq![(x, y)][0] == (x, y));
    assert(seq![(x, y)].subrange(1, 1) =~= Seq::<(int, int)>::empty());
    assert(draw_points(spec_pixel(v, x, y, c, fg, bg), Seq::<(int, int)>::empty(), c, fg, bg)
        == spec_pixel(v, x, y, c, fg, bg));
}

/// A degenerate line visits exactly one cell, its start point.
pub proof fn lemma_line_points_single(x0: int, y0: int)
    ensures
        line_points(x0, y0, x0, y0) =~= seq![(x0, y0)],
{
}

/// A horizontal line visits exactly the inclusive run of columns between
/// its endpoints, at the shared row, ascending.
pub proof fn lemma_line_points_horizontal(x0: int, y0: int, x1: int)
    ensures
        line_points(x0, y0, x1, y0).len() == iabs(x1 - x0) + 1,
        forall|i: int|
            0 <= i <= iabs(x1 - x0) ==> #[trigger] line_points(x0, y0, x1, y0)[i] == (
            if x0 <= x1 {
                x0 + i
            } else {
                x1 + i
            }, y0),
{
}

/// A vertical line visits exactly the inclusive run of rows between its
/// endpoints, at the shared column, ascending.
pub proof fn lemma_line_points_vertical(x0: int, y0: int, y1: int)
    requires
        y0 != y1,
    ensures
        line_points(x0, y0, x0, y1).len() == iabs(y1 - y0) + 1,
        forall|i: int|
            0 <= i <= iabs(y1 - y0) ==> #[trigger] line_points(x0, y0, x0, y1)[i] == (x0, if y0
                <= y1 {
                y0 + i
            } else {
                y1 + i
            }),
{
}

/// Shape of the x-major walk: one cell per column, starting at (x, y), with
/// y moving by 0 or `step` between neighbors and never against `step`.
pub proof fn lemma_x_walk_shape(x: int, y: int, n: nat, sa: int, step: int, err: int, span2: int)
    ensures
        x_walk(x, y, n, sa, step, err, span2).len() == n,
        forall|i: int|
            0 <= i < n ==> (#[trigger] x_walk(x, y, n, sa, step, err, span2)[i]).0 == x + i,
        n > 0 ==> x_walk(x, y, n, sa, step, err, span2)[0] == (x, y),
        forall|i: int, j: int|
            0 <= i <= j < n && step == 1 ==> (#[trigger] x_walk(x, y, n, sa, step, err, span2)[i]).1
                <= (#[trigger] x_walk(x, y, n, sa, step, err, span2)[j]).1,
        forall|i: int, j: int|
            0 <= i <= j < n && step == -1 ==> (#[trigger] x_walk(x, y, n, sa, step, err, span2)[i]).1
                >= (#[trigger] x_walk(x, y, n, sa, step, err, span2)[j]).1,
        forall|i: int|
            0 <= i < n - 1 ==> (#[trigger] x_walk(x, y, n, sa, step, err, span2)[i + 1]).1 == (
            x_walk(x, y, n, sa, step, err, span2)[i]).1 || (x_walk(x, y, n, sa, step, err, span2)[i
                + 1]).1 == (x_walk(x, y, n, sa, step, err, span2)[i]).1 + step,
    decreases n,
{
    if n > 0 {
        let e = err + 2 * sa;
        let ny = if e >= 0 {
            y + step
        } else {
            y
        };
        let ne = if e >= 0 {
            e - span2
        } else {
            e
        };
        let tail = x_walk(x + 1, ny, (n - 1) as nat, sa, step, ne, span2);
        let whole = x_walk(x, y, n, sa, step, err, span2);
        lemma_x_walk_shape(x + 1, ny, (n - 1) as nat, sa, step, ne, span2);
        assert(whole == seq![(x, y)] + tail);
        assert forall|i: int| 0 <= i < n implies (#[trigger] whole[i]).0 == x + i by {
            if i > 0 {
                assert(whole[i] == tail[i - 1]);
            }
        }
        assert forall|i: int| 0 <= i < n - 1 implies (#[trigger] whole[i + 1]).1 == (whole[i]).1
            || (whole[i + 1]).1 == (whole[i]).1 + step by {
            if i == 0 {
                assert(seq![(x, y)][0] == (x, y));
                assert(whole[0] == (x, y));
                assert(whole[1] == tail[0]);
                assert(tail[0] == (x + 1, ny));
            } else {
                assert(whole[i] == tail[i - 1]);
                assert(whole[i + 1] == tail[i]);
                assert(tail[(i - 1) + 1].1 == tail[i - 1].1 || tail[(i - 1) + 1].1 == tail[i - 1].1
                    + step);
            }
        }
        assert forall|i: int, j: int| 0 <= i <= j < n && step == 1 implies (#[trigger] whole[i]).1
            <= (#[trigger] whole[j]).1 by {
            if i == 0 {
                assert(seq![(x, y)][0] == (x, y));
                assert(whole[0] == (x, y));
                if j > 0 {
                    assert(whole[j] == tail[j - 1]);
                    assert(tail[0] == (x + 1, ny));
                    assert(tail[0].1 <= tail[j - 1].1);
                }
            } else {
                assert(whole[i] == tail[i - 1]);
                assert(whole[j] == tail[j - 1]);
            }
        }
        assert forall|i: int, j: int| 0 <= i <= j < n && step == -1 implies (#[trigger] whole[i]).1
            >= (#[trigger] whole[j]).1 by {
            if i == 0 {
                assert(seq![(x, y)][0] == (x, y));
                assert(whole[0] == (x, y));
                if j > 0 {
                    assert(whole[j] == tail[j - 1]);
                    assert(tail[0] == (x + 1, ny));
                    assert(tail[0].1 >= tail[j - 1].1);
                }
            } else {
                assert(whole[i] == tail[i - 1]);
                assert(whole[j] == tail[j - 1]);
            }
        }
    }
}

impl Gui {
    /// Integer-only Bresenham rasterization from (x0, y0) to (x1, y1): the
    /// buffer afterwards equals folding `pixel` over `line_points`, so
    /// segments partially off-grid are clipped cell by cell.
    pub fn line(&mut self, x0: i64, y0: i64, x1: i64, y1: i64, c: char, fg: Color, bg: Color)
        requires
            old(self).wf(),
            coord_ok(x0 as int),
            coord_ok(y0 as int),
            coord_ok(x1 as int),
            coord_ok(y1 as int),
        ensures
            final(self).wf(),
            final(self)@ == draw_points(
                old(self)@,
                line_points(x0 as int, y0 as int, x1 as int, y1 as int),
                c,
                fg,
                bg,
            ),
            final(self)@.width == old(self)@.width,
            final(self)@.height == old(self)@.height,
            final(self).out() == old(self).out(),
    {
        let ghost pts = line_points(x0 as int, y0 as int, x1 as int, y1 as int);
        let dx: i64 = x1 - x0;
        let dy: i64 = y1 - y0;

        if dy == 0 {
            let xs: i64 = if x0 > x1 {
                x1
            } else {
                x0
            };
            let xe: i64 = if x0 > x1 {
                x0
            } else {
                x1
            };
            proof {
                assert(pts == hseg(xs as int, y0 as int, (xe - xs + 1) as nat));
            }
            let mut x: i64 = xs;
            while x <= xe
                invariant
                    self.wf(),
                    xs <= x <= xe + 1,
                    xe <= COORD_LIMIT,
                    pts == hseg(xs as int, y0 as int, (xe - xs + 1) as nat),
                    pts.len() == xe - xs + 1,
                    self@ == draw_points(old(self)@, pts.take(x - xs), c, fg, bg),
                    self@.width == old(self)@.width,
                    self@.height == old(self)@.height,
                    self.out() == old(self).out(),
                decreases xe + 1 - x,
            {
                let ghost k: int = x as int - xs as int;
                proof {
                    assert(pts[k] == (x as int, y0 as int));
                }
                self.pixel(x, y0, c, fg, bg);
                proof {
                    lemma_draw_points_push(old(self)@, pts.take(k), (x as int, y0 as int), c, fg, bg);
                    assert(pts.take(k).push(pts[k]) =~= pts.take(k + 1));
                }
                x = x + 1;
            }
            proof {
                assert(pts.take(pts.len() as int) =~= pts);
            }
            return ;
        }
        if dx == 0 {
            let ys: i64 = if y0 > y1 {
                y1
            } else {
                y0
            };
            let ye: i64 = if y0 > y1 {
                y0
            } else {
                y1
            };
            proof {
                assert(pts == vseg(x0 as int, ys as int, (ye - ys + 1) as nat));
            }
            let mut y: i64 = ys;
            while y <= ye
                invariant
                    self.wf(),
                    ys <= y <= ye + 1,
                    ye <= COORD_LIMIT,
                    pts == vseg(x0 as int, ys as int, (ye - ys + 1) as nat),
                    pts.len() == ye - ys + 1,
                    self@ == draw_points(old(self)@, pts.take(y - ys), c, fg, bg),
                    self@.width == old(self)@.width,
                    self@.height == old(self)@.height,
                    self.out() == old(self).out(),
                decreases ye + 1 - y,
            {
                let ghost k: int = y as int - ys as int;
                proof {
                    assert(pts[k] == (x0 as int, y as int));
                }
                self.pixel(x0, y, c, fg, bg);
                proof {
                    lemma_draw_points_push(old(self)@, pts.take(k), (x0 as int, y as int), c, fg, bg);
                    assert(pts.take(k).push(pts[k]) =~= pts.take(k + 1));
                }
                y = y + 1;
            }
            proof {
                assert(pts.take(pts.len() as int) =~= pts);
            }
            return ;
        }

        let adx: i64 = if dx >= 0 {
            dx
        } else {
            -dx
        };
        let ady: i64 = if dy >= 0 {
            dy
        } else {
            -dy
        };

        if ady <= adx {
            // x-major: normalize so the scan runs toward positive x.
            let xs: i64 = if x0 <= x1 {
                x0
            } else {
                x1
            };
            let xe: i64 = if x0 <= x1 {
                x1
            } else {
                x0
            };
            let ys: i64 = if x0 <= x1 {
                y0
            } else {
                y1
            };
            let ye: i64 = if x0 <= x1 {
                y1
            } else {
                y0
            };
            let step: i64 = if ye > ys {
                1
            } else {
                -1
            };
            let span2: i64 = 2 * adx;
            let mut err: i64 = -adx;
            let mut y: i64 = ys;
            let mut x: i64 = xs;
            proof {
                assert(pts == x_walk(
                    xs as int,
                    ys as int,
                    (adx + 1) as nat,
                    ady as int,
                    step as int,
                    -adx as int,
                    span2 as int,
                ));
                lemma_x_walk_shape(
                    xs as int,
                    ys as int,
                    (adx + 1) as nat,
                    ady as int,
                    step as int,
                    -adx as int,
                    span2 as int,
                );
                assert(pts.subrange(0, pts.len() as int) =~= pts);
            }
            while x <= xe
                invariant
                    self.wf(),
                    xs <= x <= xe + 1,
                    xe == xs + adx,
                    coord_ok(xs as int),
                    coord_ok(ys as int),
                    coord_ok(xe as int),
                    0 < adx <= 2 * COORD_LIMIT,
                    0 < ady <= adx,
                    step == 1 || step == -1,
                    span2 == 2 * adx,
                    -span2 <= err < 0,
                    -(x - xs) <= y - ys <= x - xs,
                    pts.len() == adx + 1,
                    x_walk(
                        x as int,
                        y as int,
                        (xe + 1 - x) as nat,
                        ady as int,
                        step as int,
                        err as int,
                        span2 as int,
                    ) == pts.subrange(x - xs, pts.len() as int),
                    self@ == draw_points(old(self)@, pts.take(x - xs), c, fg, bg),
                    self@.width == old(self)@.width,
                    self@.height == old(self)@.height,
                    self.out() == old(self).out(),
                decreases xe + 1 - x,
            {
                let ghost k: int = x as int - xs as int;
                let ghost cur_walk = x_walk(
                    x as int,
                    y as int,
                    (xe + 1 - x) as nat,
                    ady as int,
                    step as int,
                    err as int,
                    span2 as int,
                );
                proof {
                    assert(seq![(x as int, y as int)][0] == (x as int, y as int));
                    assert(cur_walk[0] == (x as int, y as int));
                    assert(pts.subrange(k, pts.len() as int)[0] == pts[k]);
                    assert(pts[k] == (x as int, y as int));
                }
                self.pixel(x, y, c, fg, bg);
                proof {
                    lemma_draw_points_push(old(self)@, pts.take(k), (x as int, y as int), c, fg, bg);
                    assert(pts.take(k).push(pts[k]) =~= pts.take(k + 1));
                }
                let ghost old_y: int = y as int;
                err = err + 2 * ady;
                if err >= 0 {
                    err = err - span2;
                    y = y + step;
                }
                x = x + 1;
                proof {
                    let tail = x_walk(
                        x as int,
                        y as int,
                        (xe + 1 - x) as nat,
                        ady as int,
                        step as int,
                        err as int,
                        span2 as int,
                    );
                    assert(cur_walk == seq![(x as int - 1, old_y)] + tail);
                    assert(pts.subrange(k + 1, pts.len() as int) =~= tail) by {
                        assert forall|t: int| 0 <= t < pts.len() - (k + 1) implies pts.subrange(
                            k + 1,
                            pts.len() as int,
                        )[t] == tail[t] by {
                            assert(pts.subrange(k, pts.len() as int)[t + 1] == pts[k + 1 + t]);
                            assert((seq![(x as int - 1, old_y)] + tail)[t + 1] == tail[t]);
                        }
                    }
                }
            }
            proof {
                assert(pts.take(pts.len() as int) =~= pts);
            }
        } else {
            // y-major: normalize so the scan runs toward positive y.
            let ys: i64 = if y0 <= y1 {
                y0
            } else {
                y1
            };
            let ye: i64 = if y0 <= y1 {
                y1
            } else {
                y0
            };
            let xs: i64 = if y0 <= y1 {
                x0
            } else {
                x1
            };
            let xe: i64 = if y0 <= y1 {
                x1
            } else {
                x0
            };
            let step: i64 = if xe > xs {
                1
            } else {
                -1
            };
            let span2: i64 = 2 * ady;
            let mut err: i64 = -ady;
            let mut x: i64 = xs;
            let mut y: i64 = ys;
            proof {
                assert(pts == y_walk(
                    xs as int,
                    ys as int,
                    (ady + 1) as nat,
                    adx as int,
                    step as int,
                    -ady as int,
                    span2 as int,
                ));
                assert(pts.subrange(0, pts.len() as int) =~= pts);
                lemma_y_walk_len(
                    xs as int,
                    ys as int,
                    (ady + 1) as nat,
                    adx as int,
                    step as int,
                    -ady as int,
                    span2 as int,
                );
            }
            while y <= ye
                invariant
                    self.wf(),
                    ys <= y <= ye + 1,
                    ye == ys + ady,
                    coord_ok(xs as int),
                    coord_ok(ys as int),
                    coord_ok(ye as int),
                    0 < ady <= 2 * COORD_LIMIT,
                    0 < adx <= ady,
                    step == 1 || step == -1,
                    span2 == 2 * ady,
                    -span2 <= err < 0,
                    -(y - ys) <= x - xs <= y - ys,
                    pts.len() == ady + 1,
                    y_walk(
                        x as int,
                        y as int,
                        (ye + 1 - y) as nat,
                        adx as int,
                        step as int,
                        err as int,
                        span2 as int,
                    ) == pts.subrange(y - ys, pts.len() as int),
                    self@ == draw_points(old(self)@, pts.take(y - ys), c, fg, bg),
                    self@.width == old(self)@.width,
                    self@.height == old(self)@.height,
                    self.out() == old(self).out(),
                decreases ye + 1 - y,
            {
                let ghost k: int = y as int - ys as int;
                let ghost cur_walk = y_walk(
                    x as int,
                    y as int,
                    (ye + 1 - y) as nat,
                    adx as int,
                    step as int,
                    err as int,
                    span2 as int,
                );
                proof {
                    assert(seq![(x as int, y as int)][0] == (x as int, y as int));
                    assert(cur_walk[0] == (x as int, y as int));
                    assert(pts.subrange(k, pts.len() as int)[0] == pts[k]);
                    assert(pts[k] == (x as int, y as int));
                }
                self.pixel(x, y, c, fg, bg);
                proof {
                    lemma_draw_points_push(old(self)@, pts.take(k), (x as int, y as int), c, fg, bg);
                    assert(pts.take(k).push(pts[k]) =~= pts.take(k + 1));
                }
                let ghost old_x: int = x as int;
                err = err + 2 * adx;
                if err >= 0 {
                    err = err - span2;
                    x = x + step;
                }
                y = y + 1;
                proof {
                    let tail = y_walk(
                        x as int,
                        y as int,
                        (ye + 1 - y) as nat,
                        adx as int,
                        step as int,
                        err as int,
                        span2 as int,
                    );
                    assert(cur_walk == seq![(old_x, y as int - 1)] + tail);
                    assert(pts.subrange(k + 1, pts.len() as int) =~= tail) by {
                        assert forall|t: int| 0 <= t < pts.len() - (k + 1) implies pts.subrange(
                            k + 1,
                            pts.len() as int,
                        )[t] == tail[t] by {
                            assert(pts.subrange(k, pts.len() as int)[t + 1] == pts[k + 1 + t]);
                            assert((seq![(old_x, y as int - 1)] + tail)[t + 1] == tail[t]);
                        }
                    }
                }
            }
            proof {
                assert(pts.take(pts.len() as int) =~= pts);
            }
        }
    }
}

/// Length of the y-major walk.
pub proof fn lemma_y_walk_len(x: int, y: int, n: nat, sa: int, step: int, err: int, span2: int)
    ensures
        y_walk(x, y, n, sa, step, err, span2).len() == n,
    decreases n,
{
    if n > 0 {
        let e = err + 2 * sa;
        if e >= 0 {
            lemma_y_walk_len(x + step, y + 1, (n - 1) as nat, sa, step, e - span2, span2);
        } else {
            lemma_y_walk_len(x, y + 1, (n - 1) as nat, sa, step, e, span2);
        }
    }
}

/// An x-major line (0 < |y1 - y0| <= x1 - x0) visits exactly one cell per
/// column of the inclusive x range, starting at (x0, y0); its y coordinate
/// moves monotonically toward y1 and never changes by more than one row
/// between neighboring columns.
pub proof fn lemma_line_points_x_major(x0: int, y0: int, x1: int, y1: int)
    requires
        x0 < x1,
        y0 != y1,
        iabs(y1 - y0) <= x1 - x0,
    ensures
        line_points(x0, y0, x1, y1).len() == x1 - x0 + 1,
        forall|i: int|
            0 <= i <= x1 - x0 ==> (#[trigger] line_points(x0, y0, x1, y1)[i]).0 == x0 + i,
        line_points(x0, y0, x1, y1)[0] == (x0, y0),
        forall|i: int|
            0 <= i < x1 - x0 ==> iabs(
                (#[trigger] line_points(x0, y0, x1, y1)[i + 1]).1 - (line_points(
                    x0,
                    y0,
                    x1,
                    y1,
                )[i]).1,
            ) <= 1,
        y0 < y1 ==> forall|i: int, j: int|
            0 <= i <= j <= x1 - x0 ==> (#[trigger] line_points(x0, y0, x1, y1)[i]).1 <= (
            #[trigger] line_points(x0, y0, x1, y1)[j]).1,
        y0 > y1 ==> forall|i: int, j: int|
            0 <= i <= j <= x1 - x0 ==> (#[trigger] line_points(x0, y0, x1, y1)[i]).1 >= (
            #[trigger] line_points(x0, y0, x1, y1)[j]).1,
{
    lemma_x_walk_shape(
        x0,
        y0,
        (x1 - x0 + 1) as nat,
        iabs(y1 - y0),
        isign(y1 - y0),
        -(x1 - x0),
        2 * (x1 - x0),
    );
}

} // verus!
