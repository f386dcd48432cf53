//! Primitive drawing routines on a [`Rasterizer`]: rectangles, images and
//! raw blits, circles, lines, triangles and Bezier curves.
//!
//! Each routine is specified as a fold of per-pixel effects over the region
//! or point sequence it visits, in the order the executable loops visit them:
//! [`row_fold`] and [`grid_fold`] run a per-pixel effect over one row or a
//! whole rectangular region in row-major order, and [`draw_pts`] (from the
//! core module) folds single pixel writes over an explicit point sequence.

use vstd::prelude::*;

use crate::color::Color;
use crate::rasterizer::{
    Canvas, Rasterizer, pset_s, pget_s, draw_pts, px_index, write_px, lemma_px_index_bounds,
    lemma_dims_from_len, write_px4, same_cfg, lemma_pset_s_cfg, lemma_draw_pts_cfg,
    lemma_px_index_injective,
};
use vstd::arithmetic::div_mod::lemma_fundamental_div_mod_converse;

verus! {

/// `v` clamped into `[lo, hi]`.
pub open spec fn clamp_s(v: int, lo: int, hi: int) -> int {
    if v < lo {
        lo
    } else if v > hi {
        hi
    } else {
        v
    }
}

/// Apply the per-pixel effect `f` to the `n` pixels `(x0, y)` ...
/// `(x0 + n - 1, y)`, left to right.
pub open spec fn row_fold(
    c: Canvas,
    y: int,
    x0: int,
    n: nat,
    f: spec_fn(Canvas, int, int) -> Canvas,
) -> Canvas
    decreases n,
{
    if n == 0 {
        c
    } else {
        f(row_fold(c, y, x0, (n - 1) as nat, f), x0 + n - 1, y)
    }
}

/// Apply the per-pixel effect `f` to the `n` pixels `(x, y0)` ...
/// `(x, y0 + n - 1)`, top to bottom.
pub open spec fn col_fold(
    c: Canvas,
    x: int,
    y0: int,
    n: nat,
    f: spec_fn(Canvas, int, int) -> Canvas,
) -> Canvas
    decreases n,
{
    if n == 0 {
        c
    } else {
        f(col_fold(c, x, y0, (n - 1) as nat, f), x, y0 + n - 1)
    }
}

/// Apply the per-pixel effect `f` to an `ncols` x `nrows` region whose
/// top-left pixel is `(x0, y0)`, row by row, each row left to right.
pub open spec fn grid_fold(
    c: Canvas,
    x0: int,
    y0: int,
    ncols: nat,
    nrows: nat,
    f: spec_fn(Canvas, int, int) -> Canvas,
) -> Canvas
    decreases nrows,
{
    if nrows == 0 {
        c
    } else {
        row_fold(grid_fold(c, x0, y0, ncols, (nrows - 1) as nat, f), y0 + nrows - 1, x0, ncols, f)
    }
}

/// The per-pixel effect of drawing one flat color through the active mode.
pub open spec fn fill_px(col: Color) -> spec_fn(Canvas, int, int) -> Canvas {
    |c: Canvas, x: int, y: int| pset_s(c, x, y, col)
}

/// The per-pixel effect of blitting `src` placed at `(x, y)` through the
/// active mode: sample the source pixel under the destination pixel and skip
/// it when fully transparent.
pub open spec fn pimg_px(src: Canvas, x: int, y: int) -> spec_fn(Canvas, int, int) -> Canvas {
    |c: Canvas, dx: int, dy: int|
        {
            let pc = pget_s(src, dx - x, dy - y);
            if pc.a == 0 {
                c
            } else {
                pset_s(c, dx, dy, pc)
            }
        }
}

/// The per-pixel effect of a raw copy of `src` placed at `(x, y)`: overwrite
/// the four bytes, ignoring mode, tint, opacity and alpha, counting nothing.
pub open spec fn copy_px(src: Canvas, x: int, y: int) -> spec_fn(Canvas, int, int) -> Canvas {
    |c: Canvas, dx: int, dy: int|
        (Canvas {
            buf: write_px(c.buf, px_index(c.width, dx, dy), pget_s(src, dx - x, dy - y)),
            ..c
        })
}

/// The per-pixel effect of a tiled blit of the source rectangle at
/// `(rx, ry, rw, rh)` placed at `(x, y)`: source coordinates wrap modulo the
/// source dimensions; no alpha skip, the mode decides.
pub open spec fn pimgrect_px(src: Canvas, x: int, y: int, rx: int, ry: int) -> spec_fn(
    Canvas,
    int,
    int,
) -> Canvas {
    |c: Canvas, dx: int, dy: int|
        pset_s(
            c,
            dx,
            dy,
            pget_s(src, (rx + dx - x) % (src.width as int), (ry + dy - y) % (src.height as int)),
        )
}

/// The per-pixel effect of a filled circle centered at `(xc, yc)`: draw the
/// pixel when it lies inside the disc of radius `r`.
pub open spec fn circle_px(xc: int, yc: int, r: int, col: Color) -> spec_fn(
    Canvas,
    int,
    int,
) -> Canvas {
    |c: Canvas, px: int, py: int|
        if (px - xc) * (px - xc) + (py - yc) * (py - yc) <= r * r {
            pset_s(c, px, py, col)
        } else {
            c
        }
}

/// The model of a filled rectangle: the active mode applied to every pixel of
/// `[x, x + w) x [y, y + h)` clamped into bounds, in row-major order.
pub open spec fn prect_fill_s(c: Canvas, x: int, y: int, w: int, h: int, col: Color) -> Canvas {
    let x0 = clamp_s(x, 0, c.width as int);
    let x1 = clamp_s(x + w, 0, c.width as int);
    let y0 = clamp_s(y, 0, c.height as int);
    let y1 = clamp_s(y + h, 0, c.height as int);
    if x0 < x1 && y0 < y1 {
        grid_fold(c, x0, y0, (x1 - x0) as nat, (y1 - y0) as nat, fill_px(col))
    } else {
        c
    }
}

/// The model of an outlined rectangle: the top and bottom rows, then the left
/// and right columns, of the clamped rectangle.
pub open spec fn prect_outline_s(c: Canvas, x: int, y: int, w: int, h: int, col: Color) -> Canvas {
    let x0 = clamp_s(x, 0, c.width as int);
    let x1 = clamp_s(x + w, 0, c.width as int);
    let y0 = clamp_s(y, 0, c.height as int);
    let y1 = clamp_s(y + h, 0, c.height as int);
    if x0 < x1 && y0 < y1 {
        let ncols = (x1 - x0) as nat;
        let nrows = (y1 - y0) as nat;
        let c1 = row_fold(c, y0, x0, ncols, fill_px(col));
        let c2 = row_fold(c1, y1 - 1, x0, ncols, fill_px(col));
        let c3 = col_fold(c2, x0, y0, nrows, fill_px(col));
        col_fold(c3, x1 - 1, y0, nrows, fill_px(col))
    } else {
        c
    }
}

/// The model of `prectangle`.
pub open spec fn prect_s(
    c: Canvas,
    filled: bool,
    x: int,
    y: int,
    w: int,
    h: int,
    col: Color,
) -> Canvas {
    if filled {
        prect_fill_s(c, x, y, w, h, col)
    } else {
        prect_outline_s(c, x, y, w, h, col)
    }
}

/// The model of `pimg`: the source blitted at `(x, y)` through the active
/// mode, clipped to the destination, fully transparent source pixels skipped.
pub open spec fn pimg_s(c: Canvas, src: Canvas, x: int, y: int) -> Canvas {
    let x0 = clamp_s(x, 0, c.width as int);
    let x1 = clamp_s(x + src.width, 0, c.width as int);
    let y0 = clamp_s(y, 0, c.height as int);
    let y1 = clamp_s(y + src.height, 0, c.height as int);
    if x0 < x1 && y0 < y1 {
        grid_fold(c, x0, y0, (x1 - x0) as nat, (y1 - y0) as nat, pimg_px(src, x, y))
    } else {
        c
    }
}

/// The model of `blit`: the source copied raw at `(x, y)`, clipped to the
/// destination; modes, tint, opacity, alpha and the drawn counter are not
/// involved.
pub open spec fn blit_s(c: Canvas, src: Canvas, x: int, y: int) -> Canvas {
    let x0 = clamp_s(x, 0, c.width as int);
    let x1 = clamp_s(x + src.width, 0, c.width as int);
    let y0 = clamp_s(y, 0, c.height as int);
    let y1 = clamp_s(y + src.height, 0, c.height as int);
    if x0 < x1 && y0 < y1 {
        grid_fold(c, x0, y0, (x1 - x0) as nat, (y1 - y0) as nat, copy_px(src, x, y))
    } else {
        c
    }
}

/// The model of `pimgrect`: a `rw` x `rh` window of the source, its origin at
/// `(rx, ry)` wrapped modulo the source dimensions, drawn at `(x, y)` through
/// the active mode, clipped to the destination.
pub open spec fn pimgrect_s(
    c: Canvas,
    src: Canvas,
    x: int,
    y: int,
    rx: int,
    ry: int,
    rw: int,
    rh: int,
) -> Canvas {
    let x0 = clamp_s(x, 0, c.width as int);
    let x1 = clamp_s(x + rw, 0, c.width as int);
    let y0 = clamp_s(y, 0, c.height as int);
    let y1 = clamp_s(y + rh, 0, c.height as int);
    if x0 < x1 && y0 < y1 {
        grid_fold(c, x0, y0, (x1 - x0) as nat, (y1 - y0) as nat, pimgrect_px(src, x, y, rx, ry))
    } else {
        c
    }
}

/// The model of a filled circle: every pixel of the clamped inclusive
/// bounding box that lies inside the disc, in row-major order.
pub open spec fn pcircle_fill_s(c: Canvas, xc: int, yc: int, r: int, col: Color) -> Canvas {
    let x0 = clamp_s(xc - r, 0, c.width as int);
    let x1 = clamp_s(xc + r + 1, 0, c.width as int);
    let y0 = clamp_s(yc - r, 0, c.height as int);
    let y1 = clamp_s(yc + r + 1, 0, c.height as int);
    if x0 < x1 && y0 < y1 {
        grid_fold(c, x0, y0, (x1 - x0) as nat, (y1 - y0) as nat, circle_px(xc, yc, r, col))
    } else {
        c
    }
}

/// The eight symmetric points one midpoint-circle step plots, in plot order,
/// applied to a canvas.
pub open spec fn oct8_s(c: Canvas, xc: int, yc: int, x: int, y: int, col: Color) -> Canvas {
    let c1 = pset_s(c, xc + x, yc + y, col);
    let c2 = pset_s(c1, xc - x, yc + y, col);
    let c3 = pset_s(c2, xc + x, yc - y, col);
    let c4 = pset_s(c3, xc - x, yc - y, col);
    let c5 = pset_s(c4, xc + y, yc + x, col);
    let c6 = pset_s(c5, xc - y, yc + x, col);
    let c7 = pset_s(c6, xc + y, yc - x, col);
    pset_s(c7, xc - y, yc - x, col)
}

/// The remaining midpoint-circle iterations from state `(x, y, d)`: while
/// `y >= x`, advance one step and plot the eight symmetric points.
pub open spec fn midcircle_s(c: Canvas, xc: int, yc: int, x: int, y: int, d: int, col: Color) -> Canvas
    decreases y - x + 2,
{
    if y >= x {
        let x1 = x + 1;
        let y1 = if d > 0 {
            y - 1
        } else {
            y
        };
        let d1 = if d > 0 {
            d + 4 * (x1 - y1) + 10
        } else {
            d + 4 * x1 + 6
        };
        midcircle_s(oct8_s(c, xc, yc, x1, y1, col), xc, yc, x1, y1, d1, col)
    } else {
        c
    }
}

/// The model of an outlined circle: the midpoint algorithm with 8-way
/// symmetry; a negative radius draws nothing.
pub open spec fn pcircle_outline_s(c: Canvas, xc: int, yc: int, r: int, col: Color) -> Canvas {
    if r < 0 {
        c
    } else {
        midcircle_s(oct8_s(c, xc, yc, 0, r, col), xc, yc, 0, r, 3 - 2 * r, col)
    }
}

/// The model of `pcircle`.
pub open spec fn pcircle_s(c: Canvas, filled: bool, xc: int, yc: int, r: int, col: Color) -> Canvas {
    if filled {
        pcircle_fill_s(c, xc, yc, r, col)
    } else {
        pcircle_outline_s(c, xc, yc, r, col)
    }
}

/// Absolute value.
pub open spec fn abs_s(v: int) -> int {
    if v < 0 {
        -v
    } else {
        v
    }
}

/// One Bresenham step from `(cx, cy)` toward `(x1, y1)`: the next position
/// and error term. `dx`, `dy`, `sx`, `sy` are fixed by the endpoints. Each
/// axis only steps while it has not reached its target, so the path stays
/// inside the endpoints' bounding box.
pub open spec fn line_step(
    cx: int,
    cy: int,
    x1: int,
    y1: int,
    dx: int,
    dy: int,
    sx: int,
    sy: int,
    err: int,
) -> (int, int, int) {
    let e2 = 2 * err;
    let cx2 = if e2 > -dx && cx != x1 {
        cx + sx
    } else {
        cx
    };
    let err1 = if e2 > -dx && cx != x1 {
        err - dy
    } else {
        err
    };
    let cy2 = if e2 < dy && cy != y1 {
        cy + sy
    } else {
        cy
    };
    let err2 = if e2 < dy && cy != y1 {
        err1 + dx
    } else {
        err1
    };
    (cx2, cy2, err2)
}

/// The points the Bresenham loop visits from state `(cx, cy, err)`, the
/// current position included, the target `(x1, y1)` included last. `fuel`
/// bounds the number of iterations; it starts at `dx + dy + 1`, which the
/// stepping never exhausts before the target on any line the algorithm
/// traces.
pub open spec fn line_pts_rec(
    cx: int,
    cy: int,
    x1: int,
    y1: int,
    dx: int,
    dy: int,
    sx: int,
    sy: int,
    err: int,
    fuel: nat,
) -> Seq<(int, int)>
    decreases fuel,
{
    if fuel == 0 {
        Seq::empty()
    } else if cx == x1 && cy == y1 {
        seq![(cx, cy)]
    } else {
        let s = line_step(cx, cy, x1, y1, dx, dy, sx, sy, err);
        seq![(cx, cy)] + line_pts_rec(s.0, s.1, x1, y1, dx, dy, sx, sy, s.2, (fuel - 1) as nat)
    }
}

/// The pixels of the line from `(x0, y0)` to `(x1, y1)` inclusive, in the
/// order Bresenham's algorithm visits them.
pub open spec fn line_pts(x0: int, y0: int, x1: int, y1: int) -> Seq<(int, int)> {
    let dx = abs_s(x1 - x0);
    let dy = abs_s(y1 - y0);
    let sx: int = if x0 < x1 {
        1
    } else {
        -1
    };
    let sy: int = if y0 < y1 {
        1
    } else {
        -1
    };
    let err = if dx > dy {
        dx / 2
    } else {
        -(dy / 2)
    };
    line_pts_rec(x0, y0, x1, y1, dx, dy, sx, sy, err, (dx + dy + 1) as nat)
}

/// A point list's coordinates as mathematical integers.
pub open spec fn pts_view(s: Seq<(i64, i64)>) -> Seq<(int, int)> {
    s.map_values(|p: (i64, i64)| (p.0 as int, p.1 as int))
}

/// The line tracer yields at least one point, at most `fuel` points.
pub proof fn lemma_line_pts_rec_len(
    cx: int,
    cy: int,
    x1: int,
    y1: int,
    dx: int,
    dy: int,
    sx: int,
    sy: int,
    err: int,
    fuel: nat,
)
    ensures
        line_pts_rec(cx, cy, x1, y1, dx, dy, sx, sy, err, fuel).len() <= fuel,
        fuel > 0 ==> line_pts_rec(cx, cy, x1, y1, dx, dy, sx, sy, err, fuel).len() >= 1,
    decreases fuel,
{
    if fuel > 0 && !(cx == x1 && cy == y1) {
        let s = line_step(cx, cy, x1, y1, dx, dy, sx, sy, err);
        lemma_line_pts_rec_len(s.0, s.1, x1, y1, dx, dy, sx, sy, s.2, (fuel - 1) as nat);
    }
}

/// A line holds at least its two endpoints' worth of points and at most one
/// per unit of combined span, plus one.
pub proof fn lemma_line_pts_len(x0: int, y0: int, x1: int, y1: int)
    ensures
        1 <= line_pts(x0, y0, x1, y1).len() <= abs_s(x1 - x0) + abs_s(y1 - y0) + 1,
{
    let dx = abs_s(x1 - x0);
    let dy = abs_s(y1 - y0);
    let sx: int = if x0 < x1 {
        1int
    } else {
        -1int
    };
    let sy: int = if y0 < y1 {
        1int
    } else {
        -1int
    };
    let err = if dx > dy {
        dx / 2
    } else {
        -(dy / 2)
    };
    lemma_line_pts_rec_len(x0, y0, x1, y1, dx, dy, sx, sy, err, (dx + dy + 1) as nat);
}

/// Every point the line tracer yields lies in the bounding box of the
/// current position and the target.
pub proof fn lemma_line_pts_rec_box(
    cx: int,
    cy: int,
    x1: int,
    y1: int,
    dx: int,
    dy: int,
    sx: int,
    sy: int,
    err: int,
    fuel: nat,
)
    requires
        sx == 1 || sx == -1,
        sy == 1 || sy == -1,
        sx == 1 ==> cx <= x1,
        sx == -1 ==> cx >= x1,
        sy == 1 ==> cy <= y1,
        sy == -1 ==> cy >= y1,
    ensures
        forall|i: int|
            #![trigger line_pts_rec(cx, cy, x1, y1, dx, dy, sx, sy, err, fuel)[i]]
            0 <= i < line_pts_rec(cx, cy, x1, y1, dx, dy, sx, sy, err, fuel).len() ==> {
                let p = line_pts_rec(cx, cy, x1, y1, dx, dy, sx, sy, err, fuel)[i];
                (if cx <= x1 {
                    cx <= p.0 <= x1
                } else {
                    x1 <= p.0 <= cx
                }) && (if cy <= y1 {
                    cy <= p.1 <= y1
                } else {
                    y1 <= p.1 <= cy
                })
            },
    decreases fuel,
{
    if fuel > 0 && !(cx == x1 && cy == y1) {
        let s = line_step(cx, cy, x1, y1, dx, dy, sx, sy, err);
        lemma_line_pts_rec_box(s.0, s.1, x1, y1, dx, dy, sx, sy, s.2, (fuel - 1) as nat);
        let whole = line_pts_rec(cx, cy, x1, y1, dx, dy, sx, sy, err, fuel);
        let rest = line_pts_rec(s.0, s.1, x1, y1, dx, dy, sx, sy, s.2, (fuel - 1) as nat);
        assert(whole == seq![(cx, cy)] + rest);
        assert(forall|i: int| 1 <= i < whole.len() ==> whole[i] == rest[i - 1]);
    }
}

/// Every pixel of a line lies in its endpoints' bounding box.
pub proof fn lemma_line_pts_box(x0: int, y0: int, x1: int, y1: int)
    ensures
        forall|i: int|
            #![trigger line_pts(x0, y0, x1, y1)[i]]
            0 <= i < line_pts(x0, y0, x1, y1).len() ==> {
                let p = line_pts(x0, y0, x1, y1)[i];
                (if x0 <= x1 {
                    x0 <= p.0 <= x1
                } else {
                    x1 <= p.0 <= x0
                }) && (if y0 <= y1 {
                    y0 <= p.1 <= y1
                } else {
                    y1 <= p.1 <= y0
                })
            },
{
    let dx = abs_s(x1 - x0);
    let dy = abs_s(y1 - y0);
    let sx: int = if x0 < x1 {
        1int
    } else {
        -1int
    };
    let sy: int = if y0 < y1 {
        1int
    } else {
        -1int
    };
    let err = if dx > dy {
        dx / 2
    } else {
        -(dy / 2)
    };
    lemma_line_pts_rec_box(x0, y0, x1, y1, dx, dy, sx, sy, err, (dx + dy + 1) as nat);
}

/// Does any point of `s` lie on row `y`?
pub open spec fn row_has(s: Seq<(int, int)>, y: int) -> bool {
    exists|i: int| 0 <= i < s.len() && s[i].1 == y
}

/// The least x coordinate among the points of `s` on row `y` (meaningful
/// only when the row is inhabited).
pub open spec fn row_min(s: Seq<(int, int)>, y: int) -> int
    decreases s.len(),
{
    if s.len() == 0 {
        0
    } else {
        let p = s.last();
        let rest = s.drop_last();
        if p.1 == y {
            if row_has(rest, y) && row_min(rest, y) <= p.0 {
                row_min(rest, y)
            } else {
                p.0
            }
        } else {
            row_min(rest, y)
        }
    }
}

/// The greatest x coordinate among the points of `s` on row `y`.
pub open spec fn row_max(s: Seq<(int, int)>, y: int) -> int
    decreases s.len(),
{
    if s.len() == 0 {
        0
    } else {
        let p = s.last();
        let rest = s.drop_last();
        if p.1 == y {
            if row_has(rest, y) && row_max(rest, y) >= p.0 {
                row_max(rest, y)
            } else {
                p.0
            }
        } else {
            row_max(rest, y)
        }
    }
}

/// How one more edge point changes a row's presence, minimum and maximum.
pub proof fn lemma_row_scan_step(s: Seq<(int, int)>, p: (int, int))
    ensures
        forall|y: int| #[trigger]
            row_has(s.push(p), y) == (row_has(s, y) || p.1 == y),
        forall|y: int| #[trigger]
            row_min(s.push(p), y) == (if p.1 == y {
                if row_has(s, y) && row_min(s, y) <= p.0 {
                    row_min(s, y)
                } else {
                    p.0
                }
            } else {
                row_min(s, y)
            }),
        forall|y: int| #[trigger]
            row_max(s.push(p), y) == (if p.1 == y {
                if row_has(s, y) && row_max(s, y) >= p.0 {
                    row_max(s, y)
                } else {
                    p.0
                }
            } else {
                row_max(s, y)
            }),
{
    assert(s.push(p).drop_last() =~= s);
    assert(s.push(p).last() == p);
    assert forall|y: int| #[trigger] row_has(s.push(p), y) == (row_has(s, y) || p.1 == y) by {
        if row_has(s, y) {
            let i = choose|i: int| 0 <= i < s.len() && s[i].1 == y;
            assert(s.push(p)[i].1 == y);
        }
        if p.1 == y {
            assert(s.push(p)[s.len() as int].1 == y);
        }
        if row_has(s.push(p), y) {
            let i = choose|i: int| 0 <= i < s.push(p).len() && s.push(p)[i].1 == y;
            if i < s.len() {
                assert(s[i].1 == y);
            }
        }
    }
}

/// A per-pixel effect that keeps the canvas configuration and buffer length,
/// on any well-formed canvas with positive dimensions.
pub open spec fn cfg_preserving(f: spec_fn(Canvas, int, int) -> Canvas) -> bool {
    forall|c: Canvas, x: int, y: int|
        (c.wf() && c.width > 0 && c.height > 0) ==> same_cfg(c, #[trigger] f(c, x, y))
}

/// A row of a configuration-preserving effect keeps the configuration.
pub proof fn lemma_row_fold_cfg(
    c: Canvas,
    y: int,
    x0: int,
    n: nat,
    f: spec_fn(Canvas, int, int) -> Canvas,
)
    requires
        cfg_preserving(f),
        c.wf(),
        c.width > 0,
        c.height > 0,
    ensures
        same_cfg(c, row_fold(c, y, x0, n, f)),
    decreases n,
{
    if n > 0 {
        lemma_row_fold_cfg(c, y, x0, (n - 1) as nat, f);
    }
}

/// A column of a configuration-preserving effect keeps the configuration.
pub proof fn lemma_col_fold_cfg(
    c: Canvas,
    x: int,
    y0: int,
    n: nat,
    f: spec_fn(Canvas, int, int) -> Canvas,
)
    requires
        cfg_preserving(f),
        c.wf(),
        c.width > 0,
        c.height > 0,
    ensures
        same_cfg(c, col_fold(c, x, y0, n, f)),
    decreases n,
{
    if n > 0 {
        lemma_col_fold_cfg(c, x, y0, (n - 1) as nat, f);
    }
}

/// A grid of a configuration-preserving effect keeps the configuration.
pub proof fn lemma_grid_fold_cfg(
    c: Canvas,
    x0: int,
    y0: int,
    ncols: nat,
    nrows: nat,
    f: spec_fn(Canvas, int, int) -> Canvas,
)
    requires
        cfg_preserving(f),
        c.wf(),
        c.width > 0,
        c.height > 0,
    ensures
        same_cfg(c, grid_fold(c, x0, y0, ncols, nrows, f)),
    decreases nrows,
{
    if nrows > 0 {
        lemma_grid_fold_cfg(c, x0, y0, ncols, (nrows - 1) as nat, f);
        lemma_row_fold_cfg(
            grid_fold(c, x0, y0, ncols, (nrows - 1) as nat, f),
            y0 + nrows - 1,
            x0,
            ncols,
            f,
        );
    }
}

/// Rows of two effects that agree on the row's pixels are equal.
pub proof fn lemma_row_fold_congruence(
    c: Canvas,
    y: int,
    x0: int,
    n: nat,
    f: spec_fn(Canvas, int, int) -> Canvas,
    g: spec_fn(Canvas, int, int) -> Canvas,
)
    requires
        forall|cc: Canvas, xx: int|
            x0 <= xx < x0 + n ==> #[trigger] f(cc, xx, y) == g(cc, xx, y),
    ensures
        row_fold(c, y, x0, n, f) == row_fold(c, y, x0, n, g),
    decreases n,
{
    if n > 0 {
        lemma_row_fold_congruence(c, y, x0, (n - 1) as nat, f, g);
    }
}

/// Grids of two effects that agree on the region's pixels are equal.
pub proof fn lemma_grid_fold_congruence(
    c: Canvas,
    x0: int,
    y0: int,
    ncols: nat,
    nrows: nat,
    f: spec_fn(Canvas, int, int) -> Canvas,
    g: spec_fn(Canvas, int, int) -> Canvas,
)
    requires
        forall|cc: Canvas, xx: int, yy: int|
            (x0 <= xx < x0 + ncols && y0 <= yy < y0 + nrows) ==> #[trigger] f(cc, xx, yy) == g(
                cc,
                xx,
                yy,
            ),
    ensures
        grid_fold(c, x0, y0, ncols, nrows, f) == grid_fold(c, x0, y0, ncols, nrows, g),
    decreases nrows,
{
    if nrows > 0 {
        lemma_grid_fold_congruence(c, x0, y0, ncols, (nrows - 1) as nat, f, g);
        lemma_row_fold_congruence(
            grid_fold(c, x0, y0, ncols, (nrows - 1) as nat, f),
            y0 + nrows - 1,
            x0,
            ncols,
            f,
            g,
        );
    }
}

/// What one composited write leaves at pixel `(px, py)`: the compositing
/// function's result, or the stored color when the mode skips the write.
pub open spec fn composited_px(c: Canvas, px: int, py: int, col: Color) -> Color {
    let bg = crate::rasterizer::px_at(c.buf, px_index(c.width, px, py));
    match crate::rasterizer::composite(c.mode, c.tint, c.opacity, bg, col) {
        Some(v) => v,
        None => bg,
    }
}

/// Pointwise readback of one filled row: the row's pixels hold the
/// composited color, every other pixel is untouched.
proof fn lemma_row_fold_fill_px(
    c: Canvas,
    y: int,
    x0: int,
    n: nat,
    col: Color,
    qx: int,
    qy: int,
)
    requires
        c.wf(),
        c.width > 0,
        c.height > 0,
        !(c.mode is Collect),
        0 <= x0,
        x0 + n <= c.width,
        0 <= y < c.height,
        c.in_bounds(qx, qy),
    ensures
        ({
            let c2 = row_fold(c, y, x0, n, fill_px(col));
            let idx = px_index(c.width, qx, qy);
            &&& (qy == y && x0 <= qx < x0 + n) ==> crate::rasterizer::px_at(c2.buf, idx)
                == composited_px(c, qx, qy, col)
            &&& !(qy == y && x0 <= qx < x0 + n) ==> crate::rasterizer::px_at(c2.buf, idx)
                == crate::rasterizer::px_at(c.buf, idx)
        }),
    decreases n,
{
    let idx = px_index(c.width, qx, qy);
    lemma_px_index_bounds(c.width as int, c.height as int, qx, qy);
    if n > 0 {
        lemma_row_fold_fill_px(c, y, x0, (n - 1) as nat, col, qx, qy);
        let cp = row_fold(c, y, x0, (n - 1) as nat, fill_px(col));
        lemma_fill_px_cfg(col);
        lemma_row_fold_cfg(c, y, x0, (n - 1) as nat, fill_px(col));
        let px2 = x0 + n - 1;
        vstd::arithmetic::div_mod::lemma_small_mod(px2 as nat, cp.width);
        vstd::arithmetic::div_mod::lemma_small_mod(y as nat, cp.height);
        let idx2 = px_index(cp.width, px2, y);
        lemma_px_index_bounds(cp.width as int, cp.height as int, px2, y);
        assert(row_fold(c, y, x0, n, fill_px(col)) == pset_s(cp, px2, y, col));
        if qx == px2 && qy == y {
        } else {
            lemma_px_index_injective(c.width as int, qx, qy, px2, y);
        }
    }
}

/// Pointwise readback of a filled region: each pixel of the region holds the
/// composited color, every other pixel is untouched.
proof fn lemma_grid_fold_fill_px(
    c: Canvas,
    x0: int,
    y0: int,
    ncols: nat,
    nrows: nat,
    col: Color,
    qx: int,
    qy: int,
)
    requires
        c.wf(),
        c.width > 0,
        c.height > 0,
        !(c.mode is Collect),
        0 <= x0,
        x0 + ncols <= c.width,
        0 <= y0,
        y0 + nrows <= c.height,
        c.in_bounds(qx, qy),
    ensures
        ({
            let c2 = grid_fold(c, x0, y0, ncols, nrows, fill_px(col));
            let idx = px_index(c.width, qx, qy);
            &&& (x0 <= qx < x0 + ncols && y0 <= qy < y0 + nrows) ==> crate::rasterizer::px_at(
                c2.buf,
                idx,
            ) == composited_px(c, qx, qy, col)
            &&& !(x0 <= qx < x0 + ncols && y0 <= qy < y0 + nrows) ==> crate::rasterizer::px_at(
                c2.buf,
                idx,
            ) == crate::rasterizer::px_at(c.buf, idx)
        }),
    decreases nrows,
{
    if nrows > 0 {
        lemma_grid_fold_fill_px(c, x0, y0, ncols, (nrows - 1) as nat, col, qx, qy);
        let cg = grid_fold(c, x0, y0, ncols, (nrows - 1) as nat, fill_px(col));
        lemma_fill_px_cfg(col);
        lemma_grid_fold_cfg(c, x0, y0, ncols, (nrows - 1) as nat, fill_px(col));
        lemma_row_fold_fill_px(cg, y0 + nrows - 1, x0, ncols, col, qx, qy);
    }
}

/// Pointwise readback of `prectangle`'s filled model, stated over the raw
/// rectangle: an in-bounds pixel inside `[x, x + w) x [y, y + h)` holds the
/// composited color, every other in-bounds pixel is untouched. (Collect mode
/// writes nothing, so it is left out.)
pub proof fn law_prect_fill_pointwise(
    c: Canvas,
    x: int,
    y: int,
    w: int,
    h: int,
    col: Color,
    qx: int,
    qy: int,
)
    requires
        c.wf(),
        c.width > 0,
        c.height > 0,
        !(c.mode is Collect),
        c.in_bounds(qx, qy),
    ensures
        ({
            let c2 = prect_fill_s(c, x, y, w, h, col);
            let idx = px_index(c.width, qx, qy);
            &&& (x <= qx < x + w && y <= qy < y + h) ==> crate::rasterizer::px_at(c2.buf, idx)
                == composited_px(c, qx, qy, col)
            &&& !(x <= qx < x + w && y <= qy < y + h) ==> crate::rasterizer::px_at(c2.buf, idx)
                == crate::rasterizer::px_at(c.buf, idx)
        }),
{
    let x0 = clamp_s(x, 0, c.width as int);
    let x1 = clamp_s(x + w, 0, c.width as int);
    let y0 = clamp_s(y, 0, c.height as int);
    let y1 = clamp_s(y + h, 0, c.height as int);
    if x0 < x1 && y0 < y1 {
        lemma_grid_fold_fill_px(c, x0, y0, (x1 - x0) as nat, (y1 - y0) as nat, col, qx, qy);
    }
}

/// The flat-color effect preserves the configuration.
pub proof fn lemma_fill_px_cfg(col: Color)
    ensures
        cfg_preserving(fill_px(col)),
{
    assert forall|c: Canvas, x: int, y: int|
        (c.wf() && c.width > 0 && c.height > 0) ==> same_cfg(
            c,
            #[trigger] fill_px(col)(c, x, y),
        ) by {
        if c.wf() && c.width > 0 && c.height > 0 {
            lemma_pset_s_cfg(c, x, y, col);
        }
    }
}

/// The disc-test effect preserves the configuration.
pub proof fn lemma_circle_px_cfg(xc: int, yc: int, r: int, col: Color)
    ensures
        cfg_preserving(circle_px(xc, yc, r, col)),
{
    assert forall|c: Canvas, x: int, y: int|
        (c.wf() && c.width > 0 && c.height > 0) ==> same_cfg(
            c,
            #[trigger] circle_px(xc, yc, r, col)(c, x, y),
        ) by {
        if c.wf() && c.width > 0 && c.height > 0 {
            lemma_pset_s_cfg(c, x, y, col);
        }
    }
}

/// A filled circle keeps the configuration.
pub proof fn lemma_pcircle_fill_s_cfg(c: Canvas, xc: int, yc: int, r: int, col: Color)
    requires
        c.wf(),
    ensures
        same_cfg(c, pcircle_fill_s(c, xc, yc, r, col)),
{
    lemma_circle_px_cfg(xc, yc, r, col);
    let x0 = clamp_s(xc - r, 0, c.width as int);
    let x1 = clamp_s(xc + r + 1, 0, c.width as int);
    let y0 = clamp_s(yc - r, 0, c.height as int);
    let y1 = clamp_s(yc + r + 1, 0, c.height as int);
    if x0 < x1 && y0 < y1 {
        lemma_grid_fold_cfg(
            c,
            x0,
            y0,
            (x1 - x0) as nat,
            (y1 - y0) as nat,
            circle_px(xc, yc, r, col),
        );
    }
}

/// A per-pixel effect that keeps the configuration on canvases of the given
/// dimensions when applied to in-bounds pixels.
pub open spec fn cfg_preserving_in(f: spec_fn(Canvas, int, int) -> Canvas, w: nat, h: nat) -> bool {
    forall|c: Canvas, x: int, y: int|
        (c.wf() && c.width == w && c.height == h && 0 <= x < w && 0 <= y < h) ==> same_cfg(
            c,
            #[trigger] f(c, x, y),
        )
}

/// A row of an in-bounds-preserving effect keeps the configuration.
pub proof fn lemma_row_fold_cfg_in(
    c: Canvas,
    y: int,
    x0: int,
    n: nat,
    f: spec_fn(Canvas, int, int) -> Canvas,
)
    requires
        cfg_preserving_in(f, c.width, c.height),
        c.wf(),
        0 <= x0,
        x0 + n <= c.width,
        0 <= y < c.height,
    ensures
        same_cfg(c, row_fold(c, y, x0, n, f)),
    decreases n,
{
    if n > 0 {
        lemma_row_fold_cfg_in(c, y, x0, (n - 1) as nat, f);
    }
}

/// A grid of an in-bounds-preserving effect keeps the configuration.
pub proof fn lemma_grid_fold_cfg_in(
    c: Canvas,
    x0: int,
    y0: int,
    ncols: nat,
    nrows: nat,
    f: spec_fn(Canvas, int, int) -> Canvas,
)
    requires
        cfg_preserving_in(f, c.width, c.height),
        c.wf(),
        0 <= x0,
        x0 + ncols <= c.width,
        0 <= y0,
        y0 + nrows <= c.height,
    ensures
        same_cfg(c, grid_fold(c, x0, y0, ncols, nrows, f)),
    decreases nrows,
{
    if nrows > 0 {
        lemma_grid_fold_cfg_in(c, x0, y0, ncols, (nrows - 1) as nat, f);
        lemma_row_fold_cfg_in(
            grid_fold(c, x0, y0, ncols, (nrows - 1) as nat, f),
            y0 + nrows - 1,
            x0,
            ncols,
            f,
        );
    }
}

/// A raw blit keeps the configuration.
pub proof fn lemma_blit_s_cfg(c: Canvas, src: Canvas, x: int, y: int)
    requires
        c.wf(),
    ensures
        same_cfg(c, blit_s(c, src, x, y)),
{
    let x0 = clamp_s(x, 0, c.width as int);
    let x1 = clamp_s(x + src.width, 0, c.width as int);
    let y0 = clamp_s(y, 0, c.height as int);
    let y1 = clamp_s(y + src.height, 0, c.height as int);
    if x0 < x1 && y0 < y1 {
        let f = copy_px(src, x, y);
        assert forall|cc: Canvas, xx: int, yy: int|
            (cc.wf() && cc.width == c.width && cc.height == c.height && 0 <= xx < c.width && 0 <= yy
                < c.height) ==> same_cfg(cc, #[trigger] f(cc, xx, yy)) by {
            if cc.wf() && cc.width == c.width && cc.height == c.height && 0 <= xx < c.width && 0
                <= yy < c.height {
                lemma_px_index_bounds(cc.width as int, cc.height as int, xx, yy);
            }
        }
        lemma_grid_fold_cfg_in(c, x0, y0, (x1 - x0) as nat, (y1 - y0) as nat, f);
    }
}

/// The image-sampling effect preserves the configuration.
pub proof fn lemma_pimg_px_cfg(src: Canvas, x: int, y: int)
    ensures
        cfg_preserving(pimg_px(src, x, y)),
{
    assert forall|c: Canvas, xx: int, yy: int|
        (c.wf() && c.width > 0 && c.height > 0) ==> same_cfg(
            c,
            #[trigger] pimg_px(src, x, y)(c, xx, yy),
        ) by {
        if c.wf() && c.width > 0 && c.height > 0 {
            let pc = pget_s(src, xx - x, yy - y);
            lemma_pset_s_cfg(c, xx, yy, pc);
        }
    }
}

/// A clipped image blit keeps the configuration.
pub proof fn lemma_pimg_s_cfg(c: Canvas, src: Canvas, x: int, y: int)
    requires
        c.wf(),
    ensures
        same_cfg(c, pimg_s(c, src, x, y)),
{
    let x0 = clamp_s(x, 0, c.width as int);
    let x1 = clamp_s(x + src.width, 0, c.width as int);
    let y0 = clamp_s(y, 0, c.height as int);
    let y1 = clamp_s(y + src.height, 0, c.height as int);
    if x0 < x1 && y0 < y1 {
        lemma_pimg_px_cfg(src, x, y);
        lemma_grid_fold_cfg(c, x0, y0, (x1 - x0) as nat, (y1 - y0) as nat, pimg_px(src, x, y));
    }
}

/// A tiled blit keeps the configuration.
pub proof fn lemma_pimgrect_s_cfg(
    c: Canvas,
    src: Canvas,
    x: int,
    y: int,
    rx: int,
    ry: int,
    rw: int,
    rh: int,
)
    requires
        c.wf(),
    ensures
        same_cfg(c, pimgrect_s(c, src, x, y, rx, ry, rw, rh)),
{
    let x0 = clamp_s(x, 0, c.width as int);
    let x1 = clamp_s(x + rw, 0, c.width as int);
    let y0 = clamp_s(y, 0, c.height as int);
    let y1 = clamp_s(y + rh, 0, c.height as int);
    if x0 < x1 && y0 < y1 {
        let f = pimgrect_px(src, x, y, rx, ry);
        assert forall|cc: Canvas, xx: int, yy: int|
            (cc.wf() && cc.width > 0 && cc.height > 0) ==> same_cfg(
                cc,
                #[trigger] f(cc, xx, yy),
            ) by {
            if cc.wf() && cc.width > 0 && cc.height > 0 {
                let pc = pget_s(
                    src,
                    (rx + xx - x) % (src.width as int),
                    (ry + yy - y) % (src.height as int),
                );
                lemma_pset_s_cfg(cc, xx, yy, pc);
            }
        }
        lemma_grid_fold_cfg(c, x0, y0, (x1 - x0) as nat, (y1 - y0) as nat, f);
    }
}

/// A drawn rectangle keeps the configuration.
pub proof fn lemma_prect_s_cfg(c: Canvas, filled: bool, x: int, y: int, w: int, h: int, col: Color)
    requires
        c.wf(),
    ensures
        same_cfg(c, prect_s(c, filled, x, y, w, h, col)),
{
    let x0 = clamp_s(x, 0, c.width as int);
    let x1 = clamp_s(x + w, 0, c.width as int);
    let y0 = clamp_s(y, 0, c.height as int);
    let y1 = clamp_s(y + h, 0, c.height as int);
    if x0 < x1 && y0 < y1 {
        lemma_fill_px_cfg(col);
        let f = fill_px(col);
        let ncols = (x1 - x0) as nat;
        let nrows = (y1 - y0) as nat;
        if filled {
            lemma_grid_fold_cfg(c, x0, y0, ncols, nrows, f);
        } else {
            let c1 = row_fold(c, y0, x0, ncols, f);
            lemma_row_fold_cfg(c, y0, x0, ncols, f);
            let c2 = row_fold(c1, y1 - 1, x0, ncols, f);
            lemma_row_fold_cfg(c1, y1 - 1, x0, ncols, f);
            let c3 = col_fold(c2, x0, y0, nrows, f);
            lemma_col_fold_cfg(c2, x0, y0, nrows, f);
            lemma_col_fold_cfg(c3, x1 - 1, y0, nrows, f);
        }
    }
}

/// One midpoint-circle step keeps the configuration.
pub proof fn lemma_oct8_s_cfg(c: Canvas, xc: int, yc: int, x: int, y: int, col: Color)
    requires
        c.wf(),
        c.width > 0,
        c.height > 0,
    ensures
        same_cfg(c, oct8_s(c, xc, yc, x, y, col)),
{
    let c1 = pset_s(c, xc + x, yc + y, col);
    lemma_pset_s_cfg(c, xc + x, yc + y, col);
    let c2 = pset_s(c1, xc - x, yc + y, col);
    lemma_pset_s_cfg(c1, xc - x, yc + y, col);
    let c3 = pset_s(c2, xc + x, yc - y, col);
    lemma_pset_s_cfg(c2, xc + x, yc - y, col);
    let c4 = pset_s(c3, xc - x, yc - y, col);
    lemma_pset_s_cfg(c3, xc - x, yc - y, col);
    let c5 = pset_s(c4, xc + y, yc + x, col);
    lemma_pset_s_cfg(c4, xc + y, yc + x, col);
    let c6 = pset_s(c5, xc - y, yc + x, col);
    lemma_pset_s_cfg(c5, xc - y, yc + x, col);
    let c7 = pset_s(c6, xc + y, yc - x, col);
    lemma_pset_s_cfg(c6, xc + y, yc - x, col);
    lemma_pset_s_cfg(c7, xc - y, yc - x, col);
}

/// The midpoint-circle loop keeps the configuration.
pub proof fn lemma_midcircle_s_cfg(c: Canvas, xc: int, yc: int, x: int, y: int, d: int, col: Color)
    requires
        c.wf(),
        c.width > 0,
        c.height > 0,
    ensures
        same_cfg(c, midcircle_s(c, xc, yc, x, y, d, col)),
    decreases y - x + 2,
{
    if y >= x {
        let x1 = x + 1;
        let y1 = if d > 0 {
            y - 1
        } else {
            y
        };
        let d1 = if d > 0 {
            d + 4 * (x1 - y1) + 10
        } else {
            d + 4 * x1 + 6
        };
        lemma_oct8_s_cfg(c, xc, yc, x1, y1, col);
        lemma_midcircle_s_cfg(oct8_s(c, xc, yc, x1, y1, col), xc, yc, x1, y1, d1, col);
    }
}

/// A drawn circle keeps the configuration; the outline variant needs a
/// nonempty canvas (its pixel writes wrap by the dimensions).
pub proof fn lemma_pcircle_s_cfg(c: Canvas, filled: bool, xc: int, yc: int, r: int, col: Color)
    requires
        c.wf(),
        !filled ==> c.width > 0 && c.height > 0,
    ensures
        same_cfg(c, pcircle_s(c, filled, xc, yc, r, col)),
{
    if filled {
        lemma_pcircle_fill_s_cfg(c, xc, yc, r, col);
    } else {
        if r >= 0 {
            lemma_oct8_s_cfg(c, xc, yc, 0, r, col);
            lemma_midcircle_s_cfg(oct8_s(c, xc, yc, 0, r, col), xc, yc, 0, r, 3 - 2 * r, col);
        }
    }
}

/// The edge pixels of a triangle: its three sides in draw order.
pub open spec fn tri_edge(x1: int, y1: int, x2: int, y2: int, x3: int, y3: int) -> Seq<(int, int)> {
    line_pts(x1, y1, x2, y2) + line_pts(x2, y2, x3, y3) + line_pts(x3, y3, x1, y1)
}

/// The scanline fill of a triangle, rows `0` to `n - 1` in order: each row
/// that holds an edge pixel gets a horizontal line from the least to the
/// greatest edge x on that row.
pub open spec fn tri_rows_s(c: Canvas, edge: Seq<(int, int)>, n: nat, col: Color) -> Canvas
    decreases n,
{
    if n == 0 {
        c
    } else {
        let y = n - 1;
        let c2 = tri_rows_s(c, edge, (n - 1) as nat, col);
        if row_has(edge, y) {
            draw_pts(c2, line_pts(row_min(edge, y), y, row_max(edge, y), y), col)
        } else {
            c2
        }
    }
}

/// The model of a filled triangle: scanline fill over the whole height.
pub open spec fn ptriangle_fill_s(
    c: Canvas,
    x1: int,
    y1: int,
    x2: int,
    y2: int,
    x3: int,
    y3: int,
    col: Color,
) -> Canvas {
    tri_rows_s(c, tri_edge(x1, y1, x2, y2, x3, y3), c.height, col)
}

/// The model of `ptriangle`: scanline fill, or the three outlines in draw
/// order.
pub open spec fn ptriangle_s(
    c: Canvas,
    filled: bool,
    x1: int,
    y1: int,
    x2: int,
    y2: int,
    x3: int,
    y3: int,
    col: Color,
) -> Canvas {
    if filled {
        ptriangle_fill_s(c, x1, y1, x2, y2, x3, y3, col)
    } else {
        let c1 = draw_pts(c, line_pts(x1, y1, x2, y2), col);
        let c2 = draw_pts(c1, line_pts(x1, y1, x3, y3), col);
        draw_pts(c2, line_pts(x2, y2, x3, y3), col)
    }
}

/// Fixed-step interpolation between `a` and `b`, `i` parts out of `n`,
/// rounding toward minus infinity.
pub open spec fn lerp_q(a: int, b: int, i: int, n: int) -> int {
    a + ((b - a) * i) / n
}

/// The point the quadratic Bezier sampler stamps at step `i` of `n`: two
/// chained interpolations, start to mid, then toward the end.
pub open spec fn bez2_point(
    x0: int,
    y0: int,
    x1: int,
    y1: int,
    mx: int,
    my: int,
    i: int,
    n: int,
) -> (int, int) {
    let px0 = lerp_q(x0, mx, i, n);
    let py0 = lerp_q(y0, my, i, n);
    (lerp_q(px0, x1, i, n), lerp_q(py0, y1, i, n))
}

/// The first `k` steps of the quadratic Bezier: a filled circle of the given
/// thickness stamped at each sampled point.
pub open spec fn bez2_steps_s(
    c: Canvas,
    thickness: int,
    x0: int,
    y0: int,
    x1: int,
    y1: int,
    mx: int,
    my: int,
    n: int,
    k: nat,
    col: Color,
) -> Canvas
    decreases k,
{
    if k == 0 {
        c
    } else {
        let p = bez2_point(x0, y0, x1, y1, mx, my, k - 1, n);
        pcircle_fill_s(
            bez2_steps_s(c, thickness, x0, y0, x1, y1, mx, my, n, (k - 1) as nat, col),
            p.0,
            p.1,
            thickness,
            col,
        )
    }
}

/// The model of the quadratic Bezier: the step count is twice the combined
/// pixel length of the two control segments, so the sample density scales
/// with the estimated arc length.
pub open spec fn pbeizer_s(
    c: Canvas,
    thickness: int,
    x0: int,
    y0: int,
    x1: int,
    y1: int,
    mx: int,
    my: int,
    col: Color,
) -> Canvas {
    let n = 2 * (line_pts(x0, y0, mx, my).len() + line_pts(mx, my, x1, y1).len());
    bez2_steps_s(c, thickness, x0, y0, x1, y1, mx, my, n as int, (n + 1) as nat, col)
}

/// The point the cubic Bezier sampler stamps at step `i` of `n`: three
/// chained interpolations.
pub open spec fn bez3_point(
    x0: int,
    y0: int,
    x1: int,
    y1: int,
    mx0: int,
    my0: int,
    mx1: int,
    my1: int,
    i: int,
    n: int,
) -> (int, int) {
    let px0 = lerp_q(x0, mx0, i, n);
    let py0 = lerp_q(y0, my0, i, n);
    let px1 = lerp_q(px0, mx1, i, n);
    let py1 = lerp_q(py0, my1, i, n);
    (lerp_q(px1, x1, i, n), lerp_q(py1, y1, i, n))
}

/// The first `k` steps of the cubic Bezier: one pixel per sampled point.
pub open spec fn bez3_steps_s(
    c: Canvas,
    x0: int,
    y0: int,
    x1: int,
    y1: int,
    mx0: int,
    my0: int,
    mx1: int,
    my1: int,
    n: int,
    k: nat,
    col: Color,
) -> Canvas
    decreases k,
{
    if k == 0 {
        c
    } else {
        let p = bez3_point(x0, y0, x1, y1, mx0, my0, mx1, my1, k - 1, n);
        pset_s(
            bez3_steps_s(c, x0, y0, x1, y1, mx0, my0, mx1, my1, n, (k - 1) as nat, col),
            p.0,
            p.1,
            col,
        )
    }
}

/// The model of the cubic Bezier: step count from the three control
/// segments' combined pixel length.
pub open spec fn pbeizer_cubic_s(
    c: Canvas,
    x0: int,
    y0: int,
    x1: int,
    y1: int,
    mx0: int,
    my0: int,
    mx1: int,
    my1: int,
    col: Color,
) -> Canvas {
    let n = 2 * (line_pts(x0, y0, mx0, my0).len() + line_pts(mx0, my0, mx1, my1).len() + line_pts(
        mx1,
        my1,
        x1,
        y1,
    ).len());
    bez3_steps_s(c, x0, y0, x1, y1, mx0, my0, mx1, my1, n as int, (n + 1) as nat, col)
}

/// Division rounding toward minus infinity.
pub(crate) fn div_floor_i128(a: i128, b: i128) -> (r: i128)
    requires
        b > 0,
        a >= -0x4000_0000_0000_0000_0000_0000_0000_0000,
    ensures
        r == (a as int) / (b as int),
{
    if a >= 0 {
        a / b
    } else {
        let k = -(a + 1);
        let q = k / b;
        proof {
            let ki = k as int;
            let bi = b as int;
            vstd::arithmetic::div_mod::lemma_fundamental_div_mod(ki, bi);
            vstd::arithmetic::div_mod::lemma_mod_bound(ki, bi);
            let qq = ki / bi;
            let rr = ki % bi;
            assert(bi * (-qq - 1) + (bi - 1 - rr) == -(bi * qq + rr + 1)) by (nonlinear_arith);
            lemma_fundamental_div_mod_converse(a as int, bi, -qq - 1, bi - 1 - rr);
        }
        -q - 1
    }
}

/// One interpolation step, clamped by construction between its endpoints.
fn lerp_q_run(a: i64, b: i64, i: i64, n: i64) -> (r: i64)
    requires
        n > 0,
        0 <= i <= n,
        abs_s(b as int - a as int) < 0x4000_0000_0000_0000,
    ensures
        r == lerp_q(a as int, b as int, i as int, n as int),
        a <= b ==> a <= r <= b,
        b < a ==> b <= r <= a,
{
    proof {
        let d = b as int - a as int;
        let ii = i as int;
        assert(abs_s(d * ii) < 0x2000_0000_0000_0000_0000_0000_0000_0000) by (nonlinear_arith)
            requires
                abs_s(d) < 0x4000_0000_0000_0000,
                0 <= ii < 0x8000_0000_0000_0000,
        ;
    }
    let num: i128 = (b as i128 - a as i128) * (i as i128);
    proof {
        let d = b as int - a as int;
        let ii = i as int;
        let nn = n as int;
        assert(d >= 0 ==> 0 <= d * ii <= d * nn) by (nonlinear_arith)
            requires
                0 <= ii <= nn,
        ;
        assert(d < 0 ==> d * nn <= d * ii <= 0) by (nonlinear_arith)
            requires
                0 <= ii <= nn,
        ;
        vstd::arithmetic::div_mod::lemma_div_multiples_vanish(d, nn);
        if d >= 0 {
            vstd::arithmetic::div_mod::lemma_div_is_ordered(d * ii, d * nn, nn);
            vstd::arithmetic::div_mod::lemma_div_pos_is_pos(d * ii, nn);
        } else {
            vstd::arithmetic::div_mod::lemma_div_is_ordered(d * nn, d * ii, nn);
            vstd::arithmetic::div_mod::lemma_div_is_ordered(d * ii, 0, nn);
        }
    }
    let q = div_floor_i128(num, n as i128);
    (a as i128 + q) as i64
}

/// Euclidean remainder on wide integers.
fn wrap_i128(v: i128, m: i128) -> (r: i128)
    requires
        m > 0,
    ensures
        r == (v as int) % (m as int),
        0 <= r < m,
{
    if v >= 0 {
        v % m
    } else {
        let k = -(v + 1);
        let t = k % m;
        proof {
            let ki = k as int;
            let mi = m as int;
            vstd::arithmetic::div_mod::lemma_fundamental_div_mod(ki, mi);
            vstd::arithmetic::div_mod::lemma_mod_bound(ki, mi);
            let q = ki / mi;
            let rr = ki % mi;
            assert(mi * (-q - 1) + (mi - 1 - rr) == -(mi * q + rr + 1)) by (nonlinear_arith);
            lemma_fundamental_div_mod_converse(v as int, mi, -q - 1, mi - 1 - rr);
        }
        m - 1 - t
    }
}

/// Clamp a (wide) coordinate into `[0, hi]`.
pub(crate) fn clamp_to_dim(v: i128, hi: i64) -> (r: i64)
    requires
        hi >= 0,
    ensures
        r as int == clamp_s(v as int, 0, hi as int),
        0 <= r <= hi,
{
    if v < 0 {
        0
    } else if v > hi as i128 {
        hi
    } else {
        v as i64
    }
}

impl Rasterizer {
    /// Draw a rectangle, filled or outlined, through the active mode. The
    /// rectangle `[x, x + w) x [y, y + h)` is clamped into bounds before
    /// iterating; a non-positive width or height draws nothing.
    pub fn prectangle(&mut self, filled: bool, x: i64, y: i64, w: i64, h: i64, color: Color)
        requires
            old(self).wf(),
        ensures
            final(self).wf(),
            final(self)@ == prect_s(
                old(self)@,
                filled,
                x as int,
                y as int,
                w as int,
                h as int,
                color,
            ),
    {
        if self.width == 0 || self.height == 0 {
            return ;
        }
        let n = self.color.len();
        proof {
            lemma_dims_from_len(self.width as int, self.height as int, self@.buf.len() as int);
        }
        let wi: i64 = self.width as i64;
        let hi: i64 = self.height as i64;
        let x0 = clamp_to_dim(x as i128, wi);
        let x1 = clamp_to_dim(x as i128 + w as i128, wi);
        let y0 = clamp_to_dim(y as i128, hi);
        let y1 = clamp_to_dim(y as i128 + h as i128, hi);
        if !(x0 < x1 && y0 < y1) {
            return ;
        }
        let ghost ncols = (x1 - x0) as nat;
        let ghost nrows = (y1 - y0) as nat;
        let ghost c0 = self@;
        if filled {
            let mut py: i64 = y0;
            while py < y1
                invariant
                    y0 <= py <= y1,
                    self.wf(),
                    self@ == grid_fold(c0, x0 as int, y0 as int, ncols, (py - y0) as nat, fill_px(color)),
                    self@.width == c0.width > 0,
                    self@.height == c0.height > 0,
                    x0 < x1 <= self@.width as int,
                    0 <= x0,
                    0 <= y0,
                    y1 <= self@.height as int,
                    ncols == x1 - x0,
                decreases y1 - py,
            {
                let mut px: i64 = x0;
                while px < x1
                    invariant
                        x0 <= px <= x1,
                        y0 <= py < y1,
                        self.wf(),
                        self@ == row_fold(
                            grid_fold(c0, x0 as int, y0 as int, ncols, (py - y0) as nat, fill_px(color)),
                            py as int,
                            x0 as int,
                            (px - x0) as nat,
                            fill_px(color),
                        ),
                        self@.width == c0.width > 0,
                        self@.height == c0.height > 0,
                        x0 < x1 <= self@.width as int,
                        0 <= x0,
                        0 <= y0,
                        y1 <= self@.height as int,
                        ncols == x1 - x0,
                    decreases x1 - px,
                {
                    self.pset(px, py, color);
                    px = px + 1;
                }
                py = py + 1;
            }
        } else {
            let ghost f = fill_px(color);
            let mut px: i64 = x0;
            while px < x1
                invariant
                    x0 <= px <= x1,
                    self.wf(),
                    self@ == row_fold(c0, y0 as int, x0 as int, (px - x0) as nat, f),
                    self@.width == c0.width > 0,
                    self@.height == c0.height > 0,
                    x0 < x1 <= self@.width as int,
                    0 <= x0,
                    0 <= y0 < y1 <= self@.height as int,
                    f == fill_px(color),
                decreases x1 - px,
            {
                self.pset(px, y0, color);
                px = px + 1;
            }
            let ghost c1 = self@;
            let mut px: i64 = x0;
            while px < x1
                invariant
                    x0 <= px <= x1,
                    self.wf(),
                    self@ == row_fold(c1, (y1 - 1) as int, x0 as int, (px - x0) as nat, f),
                    self@.width == c1.width > 0,
                    self@.height == c1.height > 0,
                    x0 < x1 <= self@.width as int,
                    0 <= x0,
                    0 <= y0 < y1 <= self@.height as int,
                    f == fill_px(color),
                decreases x1 - px,
            {
                self.pset(px, y1 - 1, color);
                px = px + 1;
            }
            let ghost c2 = self@;
            let mut py: i64 = y0;
            while py < y1
                invariant
                    y0 <= py <= y1,
                    self.wf(),
                    self@ == col_fold(c2, x0 as int, y0 as int, (py - y0) as nat, f),
                    self@.width == c2.width > 0,
                    self@.height == c2.height > 0,
                    x0 < x1 <= self@.width as int,
                    0 <= x0,
                    0 <= y0 < y1 <= self@.height as int,
                    f == fill_px(color),
                decreases y1 - py,
            {
                self.pset(x0, py, color);
                py = py + 1;
            }
            let ghost c3 = self@;
            let mut py: i64 = y0;
            while py < y1
                invariant
                    y0 <= py <= y1,
                    self.wf(),
                    self@ == col_fold(c3, (x1 - 1) as int, y0 as int, (py - y0) as nat, f),
                    self@.width == c3.width > 0,
                    self@.height == c3.height > 0,
                    x0 < x1 <= self@.width as int,
                    0 <= x0,
                    0 <= y0 < y1 <= self@.height as int,
                    f == fill_px(color),
                decreases y1 - py,
            {
                self.pset(x1 - 1, py, color);
                py = py + 1;
            }
        }
    }

    /// Copy a whole image into this buffer at `(x, y)`, raw: every channel is
    /// overwritten, no mode, tint, opacity or alpha is involved, and the
    /// drawn-pixel counter does not move. Clipped to this buffer's bounds.
    pub fn blit(&mut self, image: &Rasterizer, x: i64, y: i64)
        requires
            old(self).wf(),
            image.wf(),
        ensures
            final(self).wf(),
            final(self)@ == blit_s(old(self)@, image@, x as int, y as int),
    {
        if self.width == 0 || self.height == 0 {
            return ;
        }
        let n = self.color.len();
        proof {
            lemma_dims_from_len(self.width as int, self.height as int, self@.buf.len() as int);
        }
        let wi: i64 = self.width as i64;
        let hi: i64 = self.height as i64;
        let x0 = clamp_to_dim(x as i128, wi);
        let x1 = clamp_to_dim(x as i128 + image.width as i128, wi);
        let y0 = clamp_to_dim(y as i128, hi);
        let y1 = clamp_to_dim(y as i128 + image.height as i128, hi);
        if !(x0 < x1 && y0 < y1) {
            return ;
        }
        let m = image.color.len();
        proof {
            assert(image@.width > 0 && image@.height > 0);
            lemma_dims_from_len(image.width as int, image.height as int, image@.buf.len() as int);
        }
        let ghost ncols = (x1 - x0) as nat;
        let ghost c0 = self@;
        let ghost f = copy_px(image@, x as int, y as int);
        let mut dy: i64 = y0;
        while dy < y1
            invariant
                y0 <= dy <= y1,
                self.wf(),
                image.wf(),
                self@ == grid_fold(c0, x0 as int, y0 as int, ncols, (dy - y0) as nat, f),
                self@.width == c0.width > 0,
                self@.height == c0.height > 0,
                x0 < x1 <= self@.width as int,
                0 <= x0,
                0 <= y0,
                y1 <= self@.height as int,
                ncols == x1 - x0,
                f == copy_px(image@, x as int, y as int),
                x <= x0,
                y <= y0,
                x1 - x <= image@.width,
                y1 - y <= image@.height,
                4 * image@.width <= usize::MAX,
                4 * image@.height <= usize::MAX,
            decreases y1 - dy,
        {
            let mut dx: i64 = x0;
            while dx < x1
                invariant
                    x0 <= dx <= x1,
                    y0 <= dy < y1,
                    self.wf(),
                    image.wf(),
                    self@ == row_fold(
                        grid_fold(c0, x0 as int, y0 as int, ncols, (dy - y0) as nat, f),
                        dy as int,
                        x0 as int,
                        (dx - x0) as nat,
                        f,
                    ),
                    self@.width == c0.width > 0,
                    self@.height == c0.height > 0,
                    x0 < x1 <= self@.width as int,
                    0 <= x0,
                    0 <= y0,
                    y1 <= self@.height as int,
                    ncols == x1 - x0,
                    f == copy_px(image@, x as int, y as int),
                    x <= x0,
                    y <= y0,
                    x1 - x <= image@.width,
                    y1 - y <= image@.height,
                    4 * image@.width <= usize::MAX,
                    4 * image@.height <= usize::MAX,
                decreases x1 - dx,
            {
                let pc = image.pget(dx - x, dy - y);
                let n2 = self.color.len();
                proof {
                    lemma_px_index_bounds(
                        self.width as int,
                        self.height as int,
                        dx as int,
                        dy as int,
                    );
                }
                let idx: usize = ((dy as usize) * self.width + (dx as usize)) * 4;
                write_px4(&mut self.color, idx, pc);
                dx = dx + 1;
            }
            dy = dy + 1;
        }
    }

    /// Draw a whole image at `(x, y)` through the active mode, skipping fully
    /// transparent source pixels; clipped to this buffer's bounds.
    pub fn pimg(&mut self, image: &Rasterizer, x: i64, y: i64)
        requires
            old(self).wf(),
            image.wf(),
        ensures
            final(self).wf(),
            final(self)@ == pimg_s(old(self)@, image@, x as int, y as int),
    {
        if self.width == 0 || self.height == 0 {
            return ;
        }
        let n = self.color.len();
        proof {
            lemma_dims_from_len(self.width as int, self.height as int, self@.buf.len() as int);
        }
        let wi: i64 = self.width as i64;
        let hi: i64 = self.height as i64;
        let x0 = clamp_to_dim(x as i128, wi);
        let x1 = clamp_to_dim(x as i128 + image.width as i128, wi);
        let y0 = clamp_to_dim(y as i128, hi);
        let y1 = clamp_to_dim(y as i128 + image.height as i128, hi);
        if !(x0 < x1 && y0 < y1) {
            return ;
        }
        let m = image.color.len();
        proof {
            assert(image@.width > 0 && image@.height > 0);
            lemma_dims_from_len(image.width as int, image.height as int, image@.buf.len() as int);
        }
        let ghost ncols = (x1 - x0) as nat;
        let ghost c0 = self@;
        let ghost f = pimg_px(image@, x as int, y as int);
        let mut dy: i64 = y0;
        while dy < y1
            invariant
                y0 <= dy <= y1,
                self.wf(),
                image.wf(),
                self@ == grid_fold(c0, x0 as int, y0 as int, ncols, (dy - y0) as nat, f),
                self@.width == c0.width > 0,
                self@.height == c0.height > 0,
                x0 < x1 <= self@.width as int,
                0 <= x0,
                0 <= y0,
                y1 <= self@.height as int,
                ncols == x1 - x0,
                f == pimg_px(image@, x as int, y as int),
                x <= x0,
                y <= y0,
                x1 - x <= image@.width,
                y1 - y <= image@.height,
                4 * image@.width <= usize::MAX,
                4 * image@.height <= usize::MAX,
            decreases y1 - dy,
        {
            let mut dx: i64 = x0;
            while dx < x1
                invariant
                    x0 <= dx <= x1,
                    y0 <= dy < y1,
                    self.wf(),
                    image.wf(),
                    self@ == row_fold(
                        grid_fold(c0, x0 as int, y0 as int, ncols, (dy - y0) as nat, f),
                        dy as int,
                        x0 as int,
                        (dx - x0) as nat,
                        f,
                    ),
                    self@.width == c0.width > 0,
                    self@.height == c0.height > 0,
                    x0 < x1 <= self@.width as int,
                    0 <= x0,
                    0 <= y0,
                    y1 <= self@.height as int,
                    ncols == x1 - x0,
                    f == pimg_px(image@, x as int, y as int),
                    x <= x0,
                    y <= y0,
                    x1 - x <= image@.width,
                    y1 - y <= image@.height,
                    4 * image@.width <= usize::MAX,
                    4 * image@.height <= usize::MAX,
                decreases x1 - dx,
            {
                let pc = image.pget(dx - x, dy - y);
                if pc.a > 0 {
                    self.pset(dx, dy, pc);
                }
                dx = dx + 1;
            }
            dy = dy + 1;
        }
    }

    /// Draw a `rw` x `rh` window of the source image at `(x, y)` through the
    /// active mode; the window's origin is `(rx, ry)` and source coordinates
    /// wrap modulo the source dimensions (tiled sampling).
    pub fn pimgrect(&mut self, image: &Rasterizer, x: i64, y: i64, rx: i64, ry: i64, rw: i64, rh: i64)
        requires
            old(self).wf(),
            image.wf(),
            image@.width > 0,
            image@.height > 0,
        ensures
            final(self).wf(),
            final(self)@ == pimgrect_s(
                old(self)@,
                image@,
                x as int,
                y as int,
                rx as int,
                ry as int,
                rw as int,
                rh as int,
            ),
    {
        if self.width == 0 || self.height == 0 {
            return ;
        }
        let n = self.color.len();
        let m = image.color.len();
        proof {
            lemma_dims_from_len(self.width as int, self.height as int, self@.buf.len() as int);
            lemma_dims_from_len(image.width as int, image.height as int, image@.buf.len() as int);
        }
        let wi: i64 = self.width as i64;
        let hi: i64 = self.height as i64;
        let x0 = clamp_to_dim(x as i128, wi);
        let x1 = clamp_to_dim(x as i128 + rw as i128, wi);
        let y0 = clamp_to_dim(y as i128, hi);
        let y1 = clamp_to_dim(y as i128 + rh as i128, hi);
        if !(x0 < x1 && y0 < y1) {
            return ;
        }
        let ghost ncols = (x1 - x0) as nat;
        let ghost c0 = self@;
        let ghost f = pimgrect_px(image@, x as int, y as int, rx as int, ry as int);
        let mut dy: i64 = y0;
        while dy < y1
            invariant
                y0 <= dy <= y1,
                self.wf(),
                image.wf(),
                image@.width > 0,
                image@.height > 0,
                4 * image@.width <= usize::MAX,
                4 * image@.height <= usize::MAX,
                self@ == grid_fold(c0, x0 as int, y0 as int, ncols, (dy - y0) as nat, f),
                self@.width == c0.width > 0,
                self@.height == c0.height > 0,
                x0 < x1 <= self@.width as int,
                0 <= x0,
                0 <= y0,
                y1 <= self@.height as int,
                ncols == x1 - x0,
                f == pimgrect_px(image@, x as int, y as int, rx as int, ry as int),
                x <= x0,
                y <= y0,
                x1 - x <= i64::MAX,
                y1 - y <= i64::MAX,
            decreases y1 - dy,
        {
            let mut dx: i64 = x0;
            while dx < x1
                invariant
                    x0 <= dx <= x1,
                    y0 <= dy < y1,
                    self.wf(),
                    image.wf(),
                    image@.width > 0,
                    image@.height > 0,
                    4 * image@.width <= usize::MAX,
                    4 * image@.height <= usize::MAX,
                    self@ == row_fold(
                        grid_fold(c0, x0 as int, y0 as int, ncols, (dy - y0) as nat, f),
                        dy as int,
                        x0 as int,
                        (dx - x0) as nat,
                        f,
                    ),
                    self@.width == c0.width > 0,
                    self@.height == c0.height > 0,
                    x0 < x1 <= self@.width as int,
                    0 <= x0,
                    0 <= y0,
                    y1 <= self@.height as int,
                    ncols == x1 - x0,
                    f == pimgrect_px(image@, x as int, y as int, rx as int, ry as int),
                    x <= x0,
                    y <= y0,
                    x1 - x <= i64::MAX,
                    y1 - y <= i64::MAX,
                decreases x1 - dx,
            {
                let sx = wrap_i128(rx as i128 + (dx - x) as i128, image.width as i128);
                let sy = wrap_i128(ry as i128 + (dy - y) as i128, image.height as i128);
                let pc = image.pget(sx as i64, sy as i64);
                self.pset(dx, dy, pc);
                dx = dx + 1;
            }
            dy = dy + 1;
        }
    }

    /// Draw a circle, filled or outlined, through the active mode. The filled
    /// variant tests every pixel of the clamped bounding box against the
    /// disc; the outline variant runs the midpoint algorithm with 8-way
    /// symmetry. A negative radius draws nothing. The outline variant caps
    /// the radius and keeps the center away from the integer limits so that
    /// its error term and the plotted coordinates fit machine integers.
    pub fn pcircle(&mut self, filled: bool, xc: i64, yc: i64, r: i64, color: Color)
        requires
            old(self).wf(),
            !filled ==> old(self)@.width > 0 && old(self)@.height > 0,
            !filled ==> r < 0x8000_0000,
            !filled ==> xc + r < i64::MAX && xc - r > i64::MIN && yc + r < i64::MAX && yc - r
                > i64::MIN,
        ensures
            final(self).wf(),
            final(self)@ == pcircle_s(old(self)@, filled, xc as int, yc as int, r as int, color),
    {
        if filled {
            self.pcircle_fill_run(xc, yc, r, color);
        } else {
            self.pcircle_outline_run(xc, yc, r, color);
        }
    }

    /// The filled-circle loop: brute-force disc test over the bounding box.
    fn pcircle_fill_run(&mut self, xc: i64, yc: i64, r: i64, color: Color)
        requires
            old(self).wf(),
        ensures
            final(self).wf(),
            final(self)@ == pcircle_fill_s(old(self)@, xc as int, yc as int, r as int, color),
    {
            if self.width == 0 || self.height == 0 {
                return ;
            }
            let n = self.color.len();
            proof {
                lemma_dims_from_len(self.width as int, self.height as int, self@.buf.len() as int);
            }
            let wi: i64 = self.width as i64;
            let hi: i64 = self.height as i64;
            let x0 = clamp_to_dim(xc as i128 - r as i128, wi);
            let x1 = clamp_to_dim(xc as i128 + r as i128 + 1, wi);
            let y0 = clamp_to_dim(yc as i128 - r as i128, hi);
            let y1 = clamp_to_dim(yc as i128 + r as i128 + 1, hi);
            if !(x0 < x1 && y0 < y1) {
                return ;
            }
            let ghost ncols = (x1 - x0) as nat;
            let ghost c0 = self@;
            let ghost f = circle_px(xc as int, yc as int, r as int, color);
            proof {
                assert(0 <= (r as int) * (r as int)
                    <= 0x4000_0000_0000_0000_0000_0000_0000_0000) by (nonlinear_arith)
                    requires
                        -0x8000_0000_0000_0000 <= r as int <= 0x7fff_ffff_ffff_ffff,
                ;
            }
            let r2: i128 = (r as i128) * (r as i128);
            let mut py: i64 = y0;
            while py < y1
                invariant
                    y0 <= py <= y1,
                    self.wf(),
                    self@ == grid_fold(c0, x0 as int, y0 as int, ncols, (py - y0) as nat, f),
                    self@.width == c0.width > 0,
                    self@.height == c0.height > 0,
                    x0 < x1 <= self@.width as int,
                    0 <= x0,
                    0 <= y0,
                    y1 <= self@.height as int,
                    ncols == x1 - x0,
                    f == circle_px(xc as int, yc as int, r as int, color),
                    xc - r <= x0,
                    x1 <= xc + r + 1,
                    yc - r <= y0,
                    y1 <= yc + r + 1,
                    r2 == (r as int) * (r as int),
                decreases y1 - py,
            {
                let mut px: i64 = x0;
                while px < x1
                    invariant
                        x0 <= px <= x1,
                        y0 <= py < y1,
                        self.wf(),
                        self@ == row_fold(
                            grid_fold(c0, x0 as int, y0 as int, ncols, (py - y0) as nat, f),
                            py as int,
                            x0 as int,
                            (px - x0) as nat,
                            f,
                        ),
                        self@.width == c0.width > 0,
                        self@.height == c0.height > 0,
                        x0 < x1 <= self@.width as int,
                        0 <= x0,
                        0 <= y0,
                        y1 <= self@.height as int,
                        ncols == x1 - x0,
                        f == circle_px(xc as int, yc as int, r as int, color),
                        xc - r <= x0,
                        x1 <= xc + r + 1,
                        yc - r <= y0,
                        y1 <= yc + r + 1,
                        r2 == (r as int) * (r as int),
                    decreases x1 - px,
                {
                    let ddx: i128 = px as i128 - xc as i128;
                    let ddy: i128 = py as i128 - yc as i128;
                    proof {
                        assert(-(r as int) <= ddx as int <= r as int);
                        assert(-(r as int) <= ddy as int <= r as int);
                        assert((ddx as int) * (ddx as int) <= (r as int) * (r as int) && (
                        ddy as int) * (ddy as int) <= (r as int) * (r as int) && (ddx as int) * (
                        ddx as int) >= 0 && (ddy as int) * (ddy as int) >= 0) by (nonlinear_arith)
                            requires
                                -(r as int) <= ddx as int <= r as int,
                                -(r as int) <= ddy as int <= r as int,
                        ;
                    }
                    let dx2: i128 = ddx * ddx;
                    let dy2: i128 = ddy * ddy;
                    if dy2 <= r2 && dx2 <= r2 - dy2 {
                        self.pset(px, py, color);
                    }
                    px = px + 1;
                }
                py = py + 1;
            }
    }

    /// The outlined-circle loop: midpoint algorithm, eight points per step.
    #[verifier::rlimit(50)]
    fn pcircle_outline_run(&mut self, xc: i64, yc: i64, r: i64, color: Color)
        requires
            old(self).wf(),
            old(self)@.width > 0,
            old(self)@.height > 0,
            r < 0x8000_0000,
            xc + r < i64::MAX,
            xc - r > i64::MIN,
            yc + r < i64::MAX,
            yc - r > i64::MIN,
        ensures
            final(self).wf(),
            final(self)@ == pcircle_outline_s(old(self)@, xc as int, yc as int, r as int, color),
    {
            if r < 0 {
                return ;
            }
            let ghost c0 = self@;
            let mut x: i64 = 0;
            let mut y: i64 = r;
            let mut d: i128 = 3 - 2 * (r as i128);
            self.pset(xc + x, yc + y, color);
            self.pset(xc - x, yc + y, color);
            self.pset(xc + x, yc - y, color);
            self.pset(xc - x, yc - y, color);
            self.pset(xc + y, yc + x, color);
            self.pset(xc - y, yc + x, color);
            self.pset(xc + y, yc - x, color);
            self.pset(xc - y, yc - x, color);
            while y >= x
                invariant
                    self.wf(),
                    self@.width == c0.width > 0,
                    self@.height == c0.height > 0,
                    0 <= x <= r + 1,
                    -1 <= y <= r,
                    y >= x - 2,
                    0 <= r < 0x8000_0000,
                    xc + r < i64::MAX,
                    xc - r > i64::MIN,
                    yc + r < i64::MAX,
                    yc - r > i64::MIN,
                    d <= 3 + 2 * (r as int) + (x as int) * (8 * (r as int) + 18),
                    d >= -(3 + 2 * (r as int)) - (x as int) * (8 * (r as int) + 18),
                    midcircle_s(self@, xc as int, yc as int, x as int, y as int, d as int, color)
                        == pcircle_outline_s(c0, xc as int, yc as int, r as int, color),
                decreases y - x + 2,
            {
                let ghost xo = x as int;
                x = x + 1;
                proof {
                    let ri = r as int;
                    assert((xo + 1) * (8 * ri + 18) == xo * (8 * ri + 18) + (8 * ri + 18))
                        by (nonlinear_arith);
                    assert(xo * (8 * ri + 18) <= 0x8000_0000_0000_0000_0000) by (nonlinear_arith)
                        requires
                            0 <= xo <= ri + 1,
                            0 <= ri < 0x8000_0000,
                    ;
                }
                if d > 0 {
                    y = y - 1;
                    d = d + 4 * ((x as i128) - (y as i128)) + 10;
                } else {
                    d = d + 4 * (x as i128) + 6;
                }
                self.pset(xc + x, yc + y, color);
                self.pset(xc - x, yc + y, color);
                self.pset(xc + x, yc - y, color);
                self.pset(xc - x, yc - y, color);
                self.pset(xc + y, yc + x, color);
                self.pset(xc - y, yc + x, color);
                self.pset(xc + y, yc - x, color);
                self.pset(xc - y, yc - x, color);
            }
    }

    /// Collect the pixel positions of the line from `(x0, y0)` to
    /// `(x1, y1)`, without drawing. Each coordinate span is capped so that
    /// the error term fits machine integers.
    pub fn cline(&mut self, x0: i64, y0: i64, x1: i64, y1: i64) -> (pts: Vec<(i64, i64)>)
        requires
            abs_s(x1 as int - x0 as int) < 0x4000_0000_0000_0000,
            abs_s(y1 as int - y0 as int) < 0x4000_0000_0000_0000,
        ensures
            final(self)@ == old(self)@,
            pts_view(pts@) == line_pts(x0 as int, y0 as int, x1 as int, y1 as int),
    {
        let mut pts: Vec<(i64, i64)> = Vec::new();
        let mut cx: i64 = x0;
        let mut cy: i64 = y0;
        let dx: i128 = if x0 > x1 {
            x0 as i128 - x1 as i128
        } else {
            x1 as i128 - x0 as i128
        };
        let dy: i128 = if y0 > y1 {
            y0 as i128 - y1 as i128
        } else {
            y1 as i128 - y0 as i128
        };
        let sx: i64 = if x0 < x1 {
            1
        } else {
            -1
        };
        let sy: i64 = if y0 < y1 {
            1
        } else {
            -1
        };
        let mut err: i128 = if dx > dy {
            dx / 2
        } else {
            -(dy / 2)
        };
        let mut fuel: i128 = dx + dy + 1;
        let ghost target = line_pts(x0 as int, y0 as int, x1 as int, y1 as int);
        loop
            invariant_except_break
                fuel >= 0,
                dx == abs_s(x1 as int - x0 as int),
                dy == abs_s(y1 as int - y0 as int),
                0 <= dx < 0x4000_0000_0000_0000,
                0 <= dy < 0x4000_0000_0000_0000,
                sx as int == (if (x0 as int) < (x1 as int) {
                    1int
                } else {
                    -1int
                }),
                sy as int == (if (y0 as int) < (y1 as int) {
                    1int
                } else {
                    -1int
                }),
                abs_s(cx as int - x0 as int) + abs_s(x1 as int - cx as int) == dx as int,
                abs_s(cy as int - y0 as int) + abs_s(y1 as int - cy as int) == dy as int,
                abs_s(err as int) <= dx as int + dy as int + abs_s(cx as int - x0 as int) * (
                dy as int) + abs_s(cy as int - y0 as int) * (dx as int),
                pts_view(pts@) + line_pts_rec(
                    cx as int,
                    cy as int,
                    x1 as int,
                    y1 as int,
                    dx as int,
                    dy as int,
                    sx as int,
                    sy as int,
                    err as int,
                    fuel as nat,
                ) == target,
                final(self)@ == old(self)@,
            ensures
                pts_view(pts@) == target,
                final(self)@ == old(self)@,
            decreases fuel,
        {
            if fuel == 0 {
                break ;
            }
            let ghost pts_pre = pts@;
            pts.push((cx, cy));
            proof {
                assert(pts_view(pts@) =~= pts_view(pts_pre).push((cx as int, cy as int)));
                assert(pts_view(pts_pre).push((cx as int, cy as int)) + line_pts_rec(
                    cx as int,
                    cy as int,
                    x1 as int,
                    y1 as int,
                    dx as int,
                    dy as int,
                    sx as int,
                    sy as int,
                    err as int,
                    fuel as nat,
                ).drop_first() =~= pts_view(pts_pre) + line_pts_rec(
                    cx as int,
                    cy as int,
                    x1 as int,
                    y1 as int,
                    dx as int,
                    dy as int,
                    sx as int,
                    sy as int,
                    err as int,
                    fuel as nat,
                ));
            }
            if cx == x1 && cy == y1 {
                proof {
                    assert(line_pts_rec(
                        cx as int,
                        cy as int,
                        x1 as int,
                        y1 as int,
                        dx as int,
                        dy as int,
                        sx as int,
                        sy as int,
                        err as int,
                        fuel as nat,
                    ) =~= seq![(cx as int, cy as int)]);
                    assert(pts_view(pts@) =~= target);
                }
                break ;
            }
            proof {
                let kx = abs_s(cx as int - x0 as int);
                let ky = abs_s(cy as int - y0 as int);
                assert((kx + 1) * (dy as int) == kx * (dy as int) + dy as int && (ky + 1) * (
                dx as int) == ky * (dx as int) + dx as int) by (nonlinear_arith);
                assert(kx * (dy as int) <= 0x1000_0000_0000_0000_0000_0000_0000_0000 && ky * (
                dx as int) <= 0x1000_0000_0000_0000_0000_0000_0000_0000) by (nonlinear_arith)
                    requires
                        0 <= kx <= dx as int,
                        0 <= ky <= dy as int,
                        (dx as int) < 0x4000_0000_0000_0000,
                        (dy as int) < 0x4000_0000_0000_0000,
                ;
            }
            let e2: i128 = 2 * err;
            if e2 > -dx && cx != x1 {
                err = err - dy;
                cx = cx + sx;
            }
            if e2 < dy && cy != y1 {
                err = err + dx;
                cy = cy + sy;
            }
            fuel = fuel - 1;
        }
        pts
    }

    /// Draw the line from `(x0, y0)` to `(x1, y1)` inclusive through the
    /// active mode, pixel by pixel in Bresenham order; coordinates wrap as
    /// `pset` wraps them.
    pub fn pline(&mut self, x0: i64, y0: i64, x1: i64, y1: i64, color: Color)
        requires
            old(self).wf(),
            old(self)@.width > 0,
            old(self)@.height > 0,
            abs_s(x1 as int - x0 as int) < 0x4000_0000_0000_0000,
            abs_s(y1 as int - y0 as int) < 0x4000_0000_0000_0000,
        ensures
            final(self).wf(),
            final(self)@ == draw_pts(
                old(self)@,
                line_pts(x0 as int, y0 as int, x1 as int, y1 as int),
                color,
            ),
    {
        let pts = self.cline(x0, y0, x1, y1);
        let ghost target = line_pts(x0 as int, y0 as int, x1 as int, y1 as int);
        let ghost c0 = self@;
        let m = pts.len();
        let mut i: usize = 0;
        while i < m
            invariant
                i <= m,
                m == pts@.len(),
                self.wf(),
                self@.width == c0.width > 0,
                self@.height == c0.height > 0,
                pts_view(pts@) == target,
                self@ == draw_pts(c0, target.take(i as int), color),
            decreases m - i,
        {
            let p = pts[i];
            self.pset(p.0, p.1, color);
            proof {
                assert(target.take(i + 1).drop_last() =~= target.take(i as int));
                assert(target.take(i + 1).last() == (p.0 as int, p.1 as int));
            }
            i = i + 1;
        }
        proof {
            assert(target.take(m as int) =~= target);
        }
    }

    /// Draw a triangle through the active mode. The outline is its three
    /// sides; the filled variant gathers the sides' pixels, buckets them by
    /// scanline row, and draws a horizontal span from the least to the
    /// greatest edge x of every inhabited row.
    pub fn ptriangle(&mut self, filled: bool, x1: i64, y1: i64, x2: i64, y2: i64, x3: i64, y3: i64, color: Color)
        requires
            old(self).wf(),
            old(self)@.width > 0,
            old(self)@.height > 0,
            abs_s(x2 as int - x1 as int) < 0x4000_0000_0000_0000,
            abs_s(y2 as int - y1 as int) < 0x4000_0000_0000_0000,
            abs_s(x3 as int - x2 as int) < 0x4000_0000_0000_0000,
            abs_s(y3 as int - y2 as int) < 0x4000_0000_0000_0000,
            abs_s(x1 as int - x3 as int) < 0x4000_0000_0000_0000,
            abs_s(y1 as int - y3 as int) < 0x4000_0000_0000_0000,
        ensures
            final(self).wf(),
            final(self)@ == ptriangle_s(
                old(self)@,
                filled,
                x1 as int,
                y1 as int,
                x2 as int,
                y2 as int,
                x3 as int,
                y3 as int,
                color,
            ),
    {
        if !filled {
            let ghost ca = self@;
            self.pline(x1, y1, x2, y2, color);
            proof {
                lemma_draw_pts_cfg(ca, line_pts(x1 as int, y1 as int, x2 as int, y2 as int), color);
            }
            let ghost cb = self@;
            self.pline(x1, y1, x3, y3, color);
            proof {
                lemma_draw_pts_cfg(cb, line_pts(x1 as int, y1 as int, x3 as int, y3 as int), color);
            }
            let ghost cc = self@;
            self.pline(x2, y2, x3, y3, color);
            proof {
                lemma_draw_pts_cfg(cc, line_pts(x2 as int, y2 as int, x3 as int, y3 as int), color);
            }
            return ;
        }
        let ghost c0 = self@;
        let mut edge = self.cline(x1, y1, x2, y2);
        let mut v23 = self.cline(x2, y2, x3, y3);
        let mut v31 = self.cline(x3, y3, x1, y1);
        edge.append(&mut v23);
        edge.append(&mut v31);
        let ghost edge_s = tri_edge(x1 as int, y1 as int, x2 as int, y2 as int, x3 as int, y3 as int);
        proof {
            assert(pts_view(edge@) =~= edge_s);
        }
        let ghost min_x: int = {
            let mm = if x1 <= x2 {
                x1 as int
            } else {
                x2 as int
            };
            if mm <= x3 as int {
                mm
            } else {
                x3 as int
            }
        };
        let ghost max_x: int = {
            let mm = if x1 >= x2 {
                x1 as int
            } else {
                x2 as int
            };
            if mm >= x3 as int {
                mm
            } else {
                x3 as int
            }
        };
        proof {
            lemma_line_pts_box(x1 as int, y1 as int, x2 as int, y2 as int);
            lemma_line_pts_box(x2 as int, y2 as int, x3 as int, y3 as int);
            lemma_line_pts_box(x3 as int, y3 as int, x1 as int, y1 as int);
            let l12 = line_pts(x1 as int, y1 as int, x2 as int, y2 as int);
            let l23 = line_pts(x2 as int, y2 as int, x3 as int, y3 as int);
            let l31 = line_pts(x3 as int, y3 as int, x1 as int, y1 as int);
            assert forall|i: int| 0 <= i < edge_s.len() implies min_x <= (#[trigger] edge_s[i]).0 <= max_x by {
                if i < l12.len() {
                    assert(edge_s[i] == l12[i]);
                } else if i < l12.len() + l23.len() {
                    assert(edge_s[i] == l23[i - l12.len()]);
                } else {
                    assert(edge_s[i] == l31[i - l12.len() - l23.len()]);
                }
            }
        }
        let n = self.color.len();
        proof {
            lemma_dims_from_len(self.width as int, self.height as int, self@.buf.len() as int);
        }
        let h = self.height;
        let mut spans: Vec<(i64, i64, bool)> = Vec::new();
        let mut fill_i: usize = 0;
        while fill_i < h
            invariant
                fill_i <= h,
                spans@.len() == fill_i,
                forall|j: int| 0 <= j < fill_i ==> spans@[j] == (0i64, 0i64, false),
            decreases h - fill_i,
        {
            spans.push((0, 0, false));
            fill_i = fill_i + 1;
        }
        let m = edge.len();
        let mut k: usize = 0;
        while k < m
            invariant
                k <= m,
                m == edge@.len(),
                spans@.len() == h,
                pts_view(edge@) == edge_s,
                forall|i: int| 0 <= i < edge_s.len() ==> min_x <= (#[trigger] edge_s[i]).0 <= max_x,
                max_x - min_x < 0x4000_0000_0000_0000,
                forall|yy: int|
                    0 <= yy < h ==> {
                        &&& (#[trigger] spans@[yy]).2 == row_has(edge_s.take(k as int), yy)
                        &&& (spans@[yy].2 ==> spans@[yy].0 == row_min(edge_s.take(k as int), yy)
                            && spans@[yy].1 == row_max(edge_s.take(k as int), yy) && min_x <= spans@[yy].0
                            <= max_x && min_x <= spans@[yy].1 <= max_x)
                    },
            decreases m - k,
        {
            let p = edge[k];
            proof {
                lemma_row_scan_step(edge_s.take(k as int), (p.0 as int, p.1 as int));
                assert(edge_s.take(k + 1) =~= edge_s.take(k as int).push((p.0 as int, p.1 as int)));
                assert(edge_s[k as int] == (p.0 as int, p.1 as int));
            }
            if p.1 >= 0 && (p.1 as u64) < (h as u64) {
                let yy = p.1 as usize;
                let cur = spans[yy];
                if cur.2 {
                    let nmin = if cur.0 <= p.0 {
                        cur.0
                    } else {
                        p.0
                    };
                    let nmax = if cur.1 >= p.0 {
                        cur.1
                    } else {
                        p.0
                    };
                    spans.set(yy, (nmin, nmax, true));
                } else {
                    spans.set(yy, (p.0, p.0, true));
                }
            }
            k = k + 1;
        }
        proof {
            assert(edge_s.take(m as int) =~= edge_s);
        }
        let mut yy: usize = 0;
        while yy < h
            invariant
                yy <= h,
                spans@.len() == h,
                self.wf(),
                self@.width == c0.width > 0,
                self@.height == c0.height > 0,
                h == c0.height,
                4 * (h as int) <= usize::MAX,
                self@ == tri_rows_s(c0, edge_s, yy as nat, color),
                max_x - min_x < 0x4000_0000_0000_0000,
                forall|j: int|
                    0 <= j < h ==> {
                        &&& (#[trigger] spans@[j]).2 == row_has(edge_s, j)
                        &&& (spans@[j].2 ==> spans@[j].0 == row_min(edge_s, j) && spans@[j].1
                            == row_max(edge_s, j) && min_x <= spans@[j].0 <= max_x && min_x
                            <= spans@[j].1 <= max_x)
                    },
            decreases h - yy,
        {
            let sp = spans[yy];
            if sp.2 {
                let ghost cprev = self@;
                self.pline(sp.0, yy as i64, sp.1, yy as i64, color);
                proof {
                    lemma_draw_pts_cfg(
                        cprev,
                        line_pts(sp.0 as int, yy as int, sp.1 as int, yy as int),
                        color,
                    );
                }
            }
            yy = yy + 1;
        }
    }

    /// Draw a quadratic Bezier curve through the active mode: sample the
    /// curve at a density derived from the control segments' pixel length and
    /// stamp a filled circle of the given thickness at each sample.
    pub fn pbeizer(&mut self, thickness: i64, x0: i64, y0: i64, x1: i64, y1: i64, mx: i64, my: i64, color: Color)
        requires
            old(self).wf(),
            abs_s(mx as int - x0 as int) < 0x4000_0000,
            abs_s(my as int - y0 as int) < 0x4000_0000,
            abs_s(x1 as int - mx as int) < 0x4000_0000,
            abs_s(y1 as int - my as int) < 0x4000_0000,
        ensures
            final(self).wf(),
            final(self)@ == pbeizer_s(
                old(self)@,
                thickness as int,
                x0 as int,
                y0 as int,
                x1 as int,
                y1 as int,
                mx as int,
                my as int,
                color,
            ),
    {
        let ghost c0 = self@;
        let v1 = self.cline(x0, y0, mx, my);
        let v2 = self.cline(mx, my, x1, y1);
        proof {
            lemma_line_pts_len(x0 as int, y0 as int, mx as int, my as int);
            lemma_line_pts_len(mx as int, my as int, x1 as int, y1 as int);
            assert(v1@.len() == pts_view(v1@).len());
            assert(v2@.len() == pts_view(v2@).len());
        }
        let n: i64 = 2 * ((v1.len() + v2.len()) as i64);
        let mut i: i64 = 0;
        while i <= n
            invariant
                0 <= i <= n + 1,
                2 <= n < 0x2_0000_0000,
                n as int == 2 * (line_pts(x0 as int, y0 as int, mx as int, my as int).len()
                    + line_pts(mx as int, my as int, x1 as int, y1 as int).len()),
                self.wf(),
                self@ == bez2_steps_s(
                    c0,
                    thickness as int,
                    x0 as int,
                    y0 as int,
                    x1 as int,
                    y1 as int,
                    mx as int,
                    my as int,
                    n as int,
                    i as nat,
                    color,
                ),
                abs_s(mx as int - x0 as int) < 0x4000_0000,
                abs_s(my as int - y0 as int) < 0x4000_0000,
                abs_s(x1 as int - mx as int) < 0x4000_0000,
                abs_s(y1 as int - my as int) < 0x4000_0000,
            decreases n + 1 - i,
        {
            let px0 = lerp_q_run(x0, mx, i, n);
            let py0 = lerp_q_run(y0, my, i, n);
            let px1 = lerp_q_run(px0, x1, i, n);
            let py1 = lerp_q_run(py0, y1, i, n);
            let ghost cprev = self@;
            self.pcircle(true, px1, py1, thickness, color);
            proof {
                lemma_pcircle_fill_s_cfg(
                    cprev,
                    px1 as int,
                    py1 as int,
                    thickness as int,
                    color,
                );
            }
            i = i + 1;
        }
    }

    /// Draw a cubic Bezier curve through the active mode: sample the curve at
    /// a density derived from the control segments' pixel length and draw one
    /// pixel per sample.
    pub fn pbeizer_cubic(&mut self, x0: i64, y0: i64, x1: i64, y1: i64, mx0: i64, my0: i64, mx1: i64, my1: i64, color: Color)
        requires
            old(self).wf(),
            old(self)@.width > 0,
            old(self)@.height > 0,
            abs_s(mx0 as int - x0 as int) < 0x2000_0000,
            abs_s(my0 as int - y0 as int) < 0x2000_0000,
            abs_s(mx1 as int - mx0 as int) < 0x2000_0000,
            abs_s(my1 as int - my0 as int) < 0x2000_0000,
            abs_s(x1 as int - mx1 as int) < 0x2000_0000,
            abs_s(y1 as int - my1 as int) < 0x2000_0000,
        ensures
            final(self).wf(),
            final(self)@ == pbeizer_cubic_s(
                old(self)@,
                x0 as int,
                y0 as int,
                x1 as int,
                y1 as int,
                mx0 as int,
                my0 as int,
                mx1 as int,
                my1 as int,
                color,
            ),
    {
        let ghost c0 = self@;
        let v1 = self.cline(x0, y0, mx0, my0);
        let v2 = self.cline(mx0, my0, mx1, my1);
        let v3 = self.cline(mx1, my1, x1, y1);
        proof {
            lemma_line_pts_len(x0 as int, y0 as int, mx0 as int, my0 as int);
            lemma_line_pts_len(mx0 as int, my0 as int, mx1 as int, my1 as int);
            lemma_line_pts_len(mx1 as int, my1 as int, x1 as int, y1 as int);
            assert(v1@.len() == pts_view(v1@).len());
            assert(v2@.len() == pts_view(v2@).len());
            assert(v3@.len() == pts_view(v3@).len());
        }
        let n: i64 = 2 * (((v1.len() + v2.len()) + v3.len()) as i64);
        let mut i: i64 = 0;
        while i <= n
            invariant
                0 <= i <= n + 1,
                2 <= n < 0x2_0000_0000,
                n as int == 2 * (line_pts(x0 as int, y0 as int, mx0 as int, my0 as int).len()
                    + line_pts(mx0 as int, my0 as int, mx1 as int, my1 as int).len() + line_pts(
                    mx1 as int,
                    my1 as int,
                    x1 as int,
                    y1 as int,
                ).len()),
                self.wf(),
                self@.width == c0.width > 0,
                self@.height == c0.height > 0,
                self@ == bez3_steps_s(
                    c0,
                    x0 as int,
                    y0 as int,
                    x1 as int,
                    y1 as int,
                    mx0 as int,
                    my0 as int,
                    mx1 as int,
                    my1 as int,
                    n as int,
                    i as nat,
                    color,
                ),
                abs_s(mx0 as int - x0 as int) < 0x2000_0000,
                abs_s(my0 as int - y0 as int) < 0x2000_0000,
                abs_s(mx1 as int - mx0 as int) < 0x2000_0000,
                abs_s(my1 as int - my0 as int) < 0x2000_0000,
                abs_s(x1 as int - mx1 as int) < 0x2000_0000,
                abs_s(y1 as int - my1 as int) < 0x2000_0000,
            decreases n + 1 - i,
        {
            let px0 = lerp_q_run(x0, mx0, i, n);
            let py0 = lerp_q_run(y0, my0, i, n);
            let px1 = lerp_q_run(px0, mx1, i, n);
            let py1 = lerp_q_run(py0, my1, i, n);
            let px2 = lerp_q_run(px1, x1, i, n);
            let py2 = lerp_q_run(py1, y1, i, n);
            let ghost cprev = self@;
            self.pset(px2, py2, color);
            proof {
                lemma_pset_s_cfg(cprev, px2 as int, py2 as int, color);
            }
            i = i + 1;
        }
    }
}

} // verus!
