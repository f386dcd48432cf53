//! The rotated/scaled sprite blit: build a compound affine transform
//! (translate x rotate x scale x pivot), take the transformed bounding box of
//! the source's corners, and inverse-map every destination pixel in that box
//! to a source sample.
//!
//! All geometry runs on fixed-point integers with 16 fractional bits (65536
//! is one pixel). The rotation is given as a fixed-point cosine/sine pair, so
//! no floating point is involved; callers turn an angle into that pair.

use vstd::prelude::*;

use crate::color::Color;
use crate::rasterizer::{Canvas, Rasterizer, pset_s, pget_s, lemma_dims_from_len};
use crate::primitives::{clamp_s, grid_fold, row_fold, abs_s, clamp_to_dim, div_floor_i128};

verus! {

/// Floor division with a divisor of either sign (never zero).
pub open spec fn fx_div(a: int, b: int) -> int {
    if b >= 0 {
        a / b
    } else {
        (-a) / (-b)
    }
}

/// Destination x (fixed-point) of the source-space fixed-point point
/// `(px, py)` under translate(x, y) x rotate(cos, sin) x scale(sx, sy) x
/// translate(-pivot).
pub open spec fn mtx_fwd_x(
    x: int,
    cos: int,
    sin: int,
    sx: int,
    sy: int,
    pvx: int,
    pvy: int,
    px: int,
    py: int,
) -> int {
    x + (cos * ((sx * (px - pvx)) / 65536)) / 65536 - (sin * ((sy * (py - pvy)) / 65536)) / 65536
}

/// Destination y (fixed-point) of the same transform.
pub open spec fn mtx_fwd_y(
    x: int,
    cos: int,
    sin: int,
    sx: int,
    sy: int,
    pvx: int,
    pvy: int,
    px: int,
    py: int,
) -> int {
    x + (sin * ((sx * (px - pvx)) / 65536)) / 65536 + (cos * ((sy * (py - pvy)) / 65536)) / 65536
}

/// The source pixel under destination pixel `(dx, dy)`: the analytic inverse
/// (rotate by the transposed rotation, divide out the scale, add the pivot
/// back), floored to integer source coordinates.
pub open spec fn mtx_inv(
    x: int,
    y: int,
    cos: int,
    sin: int,
    sx: int,
    sy: int,
    pvx: int,
    pvy: int,
    dx: int,
    dy: int,
) -> (int, int) {
    let u = dx * 65536 - x;
    let v = dy * 65536 - y;
    let rx = (cos * u + sin * v) / 65536;
    let ry = (cos * v - sin * u) / 65536;
    let sxp = fx_div(rx * 65536, sx) + pvx;
    let syp = fx_div(ry * 65536, sy) + pvy;
    (sxp / 65536, syp / 65536)
}

/// The per-pixel effect of the transformed blit: inverse-map the destination
/// pixel; skip it when its preimage falls outside the source or samples a
/// fully transparent pixel, else draw the sample through the active mode.
pub open spec fn mtx_px(
    src: Canvas,
    x: int,
    y: int,
    cos: int,
    sin: int,
    sx: int,
    sy: int,
    pvx: int,
    pvy: int,
) -> spec_fn(Canvas, int, int) -> Canvas {
    |c: Canvas, dx: int, dy: int|
        {
            let sp = mtx_inv(x, y, cos, sin, sx, sy, pvx, pvy, dx, dy);
            if 0 <= sp.0 < src.width && 0 <= sp.1 < src.height {
                let pc = pget_s(src, sp.0, sp.1);
                if pc.a == 0 {
                    c
                } else {
                    pset_s(c, dx, dy, pc)
                }
            } else {
                c
            }
        }
}

/// The smaller of two values.
pub open spec fn min_i(a: int, b: int) -> int {
    if a <= b {
        a
    } else {
        b
    }
}

/// The greater of two values.
pub open spec fn max_i(a: int, b: int) -> int {
    if a >= b {
        a
    } else {
        b
    }
}

/// The model of `pimgmtx`: the transformed bounding box of the source's four
/// corners, rounded outward to whole pixels and clamped into bounds, each of
/// its pixels inverse-mapped and composited. The pivot is normalized (65536
/// is the source's far edge).
pub open spec fn pimgmtx_s(
    c: Canvas,
    src: Canvas,
    x: int,
    y: int,
    cos: int,
    sin: int,
    sx: int,
    sy: int,
    pv_in_x: int,
    pv_in_y: int,
) -> Canvas {
    let pvx = (src.width as int) * pv_in_x;
    let pvy = (src.height as int) * pv_in_y;
    let wfx = (src.width as int) * 65536;
    let hfx = (src.height as int) * 65536;
    let x1 = mtx_fwd_x(x, cos, sin, sx, sy, pvx, pvy, 0, 0);
    let y1 = mtx_fwd_y(y, cos, sin, sx, sy, pvx, pvy, 0, 0);
    let x2 = mtx_fwd_x(x, cos, sin, sx, sy, pvx, pvy, wfx, hfx);
    let y2 = mtx_fwd_y(y, cos, sin, sx, sy, pvx, pvy, wfx, hfx);
    let x3 = mtx_fwd_x(x, cos, sin, sx, sy, pvx, pvy, 0, hfx);
    let y3 = mtx_fwd_y(y, cos, sin, sx, sy, pvx, pvy, 0, hfx);
    let x4 = mtx_fwd_x(x, cos, sin, sx, sy, pvx, pvy, wfx, 0);
    let y4 = mtx_fwd_y(y, cos, sin, sx, sy, pvx, pvy, wfx, 0);
    let minx = min_i(min_i(x1, x2), min_i(x3, x4));
    let maxx = max_i(max_i(x1, x2), max_i(x3, x4));
    let miny = min_i(min_i(y1, y2), min_i(y3, y4));
    let maxy = max_i(max_i(y1, y2), max_i(y3, y4));
    let rsx = clamp_s(minx / 65536, 0, c.width as int);
    let rex = clamp_s((maxx + 65535) / 65536, 0, c.width as int);
    let rsy = clamp_s(miny / 65536, 0, c.height as int);
    let rey = clamp_s((maxy + 65535) / 65536, 0, c.height as int);
    if rsx < rex && rsy < rey {
        grid_fold(
            c,
            rsx,
            rsy,
            (rex - rsx) as nat,
            (rey - rsy) as nat,
            mtx_px(src, x, y, cos, sin, sx, sy, pvx, pvy),
        )
    } else {
        c
    }
}

/// A transformed blit keeps the configuration.
pub proof fn lemma_pimgmtx_s_cfg(
    c: Canvas,
    src: Canvas,
    x: int,
    y: int,
    cos: int,
    sin: int,
    sx: int,
    sy: int,
    pv_in_x: int,
    pv_in_y: int,
)
    requires
        c.wf(),
    ensures
        crate::rasterizer::same_cfg(c, pimgmtx_s(c, src, x, y, cos, sin, sx, sy, pv_in_x, pv_in_y)),
{
    let pvx = (src.width as int) * pv_in_x;
    let pvy = (src.height as int) * pv_in_y;
    let wfx = (src.width as int) * 65536;
    let hfx = (src.height as int) * 65536;
    let x1 = mtx_fwd_x(x, cos, sin, sx, sy, pvx, pvy, 0, 0);
    let y1 = mtx_fwd_y(y, cos, sin, sx, sy, pvx, pvy, 0, 0);
    let x2 = mtx_fwd_x(x, cos, sin, sx, sy, pvx, pvy, wfx, hfx);
    let y2 = mtx_fwd_y(y, cos, sin, sx, sy, pvx, pvy, wfx, hfx);
    let x3 = mtx_fwd_x(x, cos, sin, sx, sy, pvx, pvy, 0, hfx);
    let y3 = mtx_fwd_y(y, cos, sin, sx, sy, pvx, pvy, 0, hfx);
    let x4 = mtx_fwd_x(x, cos, sin, sx, sy, pvx, pvy, wfx, 0);
    let y4 = mtx_fwd_y(y, cos, sin, sx, sy, pvx, pvy, wfx, 0);
    let minx = min_i(min_i(x1, x2), min_i(x3, x4));
    let maxx = max_i(max_i(x1, x2), max_i(x3, x4));
    let miny = min_i(min_i(y1, y2), min_i(y3, y4));
    let maxy = max_i(max_i(y1, y2), max_i(y3, y4));
    let rsx = clamp_s(minx / 65536, 0, c.width as int);
    let rex = clamp_s((maxx + 65535) / 65536, 0, c.width as int);
    let rsy = clamp_s(miny / 65536, 0, c.height as int);
    let rey = clamp_s((maxy + 65535) / 65536, 0, c.height as int);
    if rsx < rex && rsy < rey {
        let f = mtx_px(src, x, y, cos, sin, sx, sy, pvx, pvy);
        assert forall|cc: Canvas, xx: int, yy: int|
            (cc.wf() && cc.width > 0 && cc.height > 0) ==> crate::rasterizer::same_cfg(
                cc,
                #[trigger] f(cc, xx, yy),
            ) by {
            if cc.wf() && cc.width > 0 && cc.height > 0 {
                let sp = mtx_inv(x, y, cos, sin, sx, sy, pvx, pvy, xx, yy);
                if 0 <= sp.0 < src.width && 0 <= sp.1 < src.height {
                    let pc = pget_s(src, sp.0, sp.1);
                    crate::rasterizer::lemma_pset_s_cfg(cc, xx, yy, pc);
                }
            }
        }
        crate::primitives::lemma_grid_fold_cfg(
            c,
            rsx,
            rsy,
            (rex - rsx) as nat,
            (rey - rsy) as nat,
            f,
        );
    }
}

/// The identity transform reproduces the plain blit: a transformed draw at
/// whole-pixel position (a, b) with rotation zero (cosine one, sine zero),
/// unit scale and zero pivot equals `pimg` at (a, b), state for state.
pub proof fn law_pimgmtx_identity(c: Canvas, src: Canvas, a: int, b: int)
    ensures
        pimgmtx_s(c, src, 65536 * a, 65536 * b, 65536, 0, 65536, 65536, 0, 0) == crate::primitives::pimg_s(
            c,
            src,
            a,
            b,
        ),
{
    let x = 65536 * a;
    let y = 65536 * b;
    let w = src.width as int;
    let h = src.height as int;
    let wfx = w * 65536;
    let hfx = h * 65536;
    vstd::arithmetic::div_mod::lemma_div_multiples_vanish(0, 65536);
    vstd::arithmetic::div_mod::lemma_div_multiples_vanish(w, 65536);
    vstd::arithmetic::div_mod::lemma_div_multiples_vanish(h, 65536);
    assert(wfx == 65536 * w && hfx == 65536 * h);
    assert(mtx_fwd_x(x, 65536, 0, 65536, 65536, 0, 0, 0, 0) == x) by {
        vstd::arithmetic::div_mod::lemma_div_multiples_vanish(0, 65536);
    }
    assert forall|px: int, py: int|
        0 <= px <= wfx && 0 <= py <= hfx implies #[trigger] mtx_fwd_x(
        x,
        65536,
        0,
        65536,
        65536,
        0,
        0,
        px,
        py,
    ) == x + px && #[trigger] mtx_fwd_y(y, 65536, 0, 65536, 65536, 0, 0, px, py) == y + py by {
        vstd::arithmetic::div_mod::lemma_div_multiples_vanish(px, 65536);
        vstd::arithmetic::div_mod::lemma_div_multiples_vanish(py, 65536);
    }
    let minx = min_i(min_i(x, x + wfx), min_i(x, x + wfx));
    let maxx = max_i(max_i(x, x + wfx), max_i(x, x + wfx));
    assert(minx == x && maxx == x + wfx);
    vstd::arithmetic::div_mod::lemma_div_multiples_vanish(a, 65536);
    vstd::arithmetic::div_mod::lemma_div_multiples_vanish(b, 65536);
    assert(x / 65536 == a && y / 65536 == b);
    assert(x + wfx == 65536 * (a + w) && y + hfx == 65536 * (b + h)) by (nonlinear_arith)
        requires
            x == 65536 * a,
            y == 65536 * b,
            wfx == w * 65536,
            hfx == h * 65536,
    ;
    vstd::arithmetic::div_mod::lemma_fundamental_div_mod_converse(
        65536 * (a + w) + 65535,
        65536,
        a + w,
        65535,
    );
    vstd::arithmetic::div_mod::lemma_fundamental_div_mod_converse(
        65536 * (b + h) + 65535,
        65536,
        b + h,
        65535,
    );
    assert((x + wfx + 65535) / 65536 == a + w && (y + hfx + 65535) / 65536 == b + h);
    let rsx = clamp_s(a, 0, c.width as int);
    let rex = clamp_s(a + w, 0, c.width as int);
    let rsy = clamp_s(b, 0, c.height as int);
    let rey = clamp_s(b + h, 0, c.height as int);
    if rsx < rex && rsy < rey {
        let f = mtx_px(src, x, y, 65536, 0, 65536, 65536, 0, 0);
        let g = crate::primitives::pimg_px(src, a, b);
        assert forall|cc: Canvas, dx: int, dy: int|
            (rsx <= dx < rsx + (rex - rsx) as nat && rsy <= dy < rsy + (rey - rsy) as nat)
                implies #[trigger] f(cc, dx, dy) == g(cc, dx, dy) by {
            let u = dx * 65536 - x;
            let v = dy * 65536 - y;
            assert(u == 65536 * (dx - a) && v == 65536 * (dy - b)) by (nonlinear_arith)
                requires
                    u == dx * 65536 - x,
                    v == dy * 65536 - y,
                    x == 65536 * a,
                    y == 65536 * b,
            ;
            vstd::arithmetic::div_mod::lemma_div_multiples_vanish(u, 65536);
            vstd::arithmetic::div_mod::lemma_div_multiples_vanish(v, 65536);
            assert((65536 * u + 0 * v) / 65536 == u && (65536 * v - 0 * u) / 65536 == v);
            assert(fx_div(u * 65536, 65536) == u && fx_div(v * 65536, 65536) == v) by {
                vstd::arithmetic::div_mod::lemma_div_multiples_vanish(u, 65536);
                vstd::arithmetic::div_mod::lemma_div_multiples_vanish(v, 65536);
                assert(u * 65536 == 65536 * u && v * 65536 == 65536 * v);
            }
            vstd::arithmetic::div_mod::lemma_div_multiples_vanish(dx - a, 65536);
            vstd::arithmetic::div_mod::lemma_div_multiples_vanish(dy - b, 65536);
            assert(mtx_inv(x, y, 65536, 0, 65536, 65536, 0, 0, dx, dy) == (dx - a, dy - b));
            assert(0 <= dx - a < src.width && 0 <= dy - b < src.height);
        }
        crate::primitives::lemma_grid_fold_congruence(
            c,
            rsx,
            rsy,
            (rex - rsx) as nat,
            (rey - rsy) as nat,
            f,
            g,
        );
    }
}

/// Floor division on wide integers, divisor of either sign.
fn div_floor_any(a: i128, b: i128) -> (r: i128)
    requires
        b != 0,
        -0x4000_0000_0000_0000_0000_0000_0000_0000 < a
            < 0x4000_0000_0000_0000_0000_0000_0000_0000,
        -0x4000_0000_0000_0000_0000_0000_0000_0000 < b
            < 0x4000_0000_0000_0000_0000_0000_0000_0000,
    ensures
        r == fx_div(a as int, b as int),
{
    if b > 0 {
        div_floor_i128(a, b)
    } else {
        div_floor_i128(-a, -b)
    }
}

/// The forward transform of one source corner, in fixed point.
fn fwd_run(
    x: i128,
    y: i128,
    cos: i128,
    sin: i128,
    sx: i128,
    sy: i128,
    pvx: i128,
    pvy: i128,
    px: i128,
    py: i128,
) -> (r: (i128, i128))
    requires
        abs_s(x as int) <= 0x200_0000_0000,
        abs_s(y as int) <= 0x200_0000_0000,
        abs_s(cos as int) <= 0x2_0000,
        abs_s(sin as int) <= 0x2_0000,
        abs_s(sx as int) <= 0x100_0000,
        abs_s(sy as int) <= 0x100_0000,
        abs_s(pvx as int) <= 0x2_0000_0000_0000,
        abs_s(pvy as int) <= 0x2_0000_0000_0000,
        0 <= px as int <= 0x100_0000_0000,
        0 <= py as int <= 0x100_0000_0000,
    ensures
        r.0 == mtx_fwd_x(
            x as int,
            cos as int,
            sin as int,
            sx as int,
            sy as int,
            pvx as int,
            pvy as int,
            px as int,
            py as int,
        ),
        r.1 == mtx_fwd_y(
            y as int,
            cos as int,
            sin as int,
            sx as int,
            sy as int,
            pvx as int,
            pvy as int,
            px as int,
            py as int,
        ),
        abs_s(r.0 as int) <= 0x2000_0000_0000_0000_0000_0000,
        abs_s(r.1 as int) <= 0x2000_0000_0000_0000_0000_0000,
{
    proof {
        let sxi = sx as int;
        let syi = sy as int;
        let ci = cos as int;
        let si = sin as int;
        let dxp = px as int - pvx as int;
        let dyp = py as int - pvy as int;
        assert(abs_s(sxi * dxp) <= 0x100_0000 * 0x3_0000_0000_0000 && abs_s(syi * dyp)
            <= 0x100_0000 * 0x3_0000_0000_0000) by (nonlinear_arith)
            requires
                abs_s(sxi) <= 0x100_0000,
                abs_s(syi) <= 0x100_0000,
                abs_s(dxp) <= 0x3_0000_0000_0000,
                abs_s(dyp) <= 0x3_0000_0000_0000,
        ;
        lemma_abs_div_bound(sxi * dxp, 0x300_0000_0000_0000_0000);
        lemma_abs_div_bound(syi * dyp, 0x300_0000_0000_0000_0000);
        let tx = (sxi * dxp) / 65536;
        let ty = (syi * dyp) / 65536;
        assert(abs_s(ci * tx) <= 0x2_0000 * 0x300_0000_0000_0000_0000 && abs_s(si * ty) <= 0x2_0000
            * 0x300_0000_0000_0000_0000 && abs_s(si * tx) <= 0x2_0000 * 0x300_0000_0000_0000_0000
            && abs_s(ci * ty) <= 0x2_0000 * 0x300_0000_0000_0000_0000) by (nonlinear_arith)
            requires
                abs_s(ci) <= 0x2_0000,
                abs_s(si) <= 0x2_0000,
                abs_s(tx) <= 0x300_0000_0000_0000_0000,
                abs_s(ty) <= 0x300_0000_0000_0000_0000,
        ;
        lemma_abs_div_bound(ci * tx, 0x600_0000_0000_0000_0000_0000);
        lemma_abs_div_bound(si * ty, 0x600_0000_0000_0000_0000_0000);
        lemma_abs_div_bound(si * tx, 0x600_0000_0000_0000_0000_0000);
        lemma_abs_div_bound(ci * ty, 0x600_0000_0000_0000_0000_0000);
    }
    let tx = div_floor_any(sx * (px - pvx), 65536);
    let ty = div_floor_any(sy * (py - pvy), 65536);
    let rx = x + div_floor_any(cos * tx, 65536) - div_floor_any(sin * ty, 65536);
    let ry = y + div_floor_any(sin * tx, 65536) + div_floor_any(cos * ty, 65536);
    (rx, ry)
}

/// Division by a positive constant shrinks the absolute value, so a bound on
/// the numerator bounds the quotient.
pub(crate) proof fn lemma_abs_div_bound(a: int, bound: int)
    requires
        abs_s(a) <= bound,
        0 <= bound,
    ensures
        abs_s(a / 65536) <= bound,
{
    vstd::arithmetic::div_mod::lemma_fundamental_div_mod(a, 65536);
    vstd::arithmetic::div_mod::lemma_mod_bound(a, 65536);
    let q = a / 65536;
    let r = a % 65536;
    assert(a == 65536 * q + r);
    assert(abs_s(q) <= bound) by (nonlinear_arith)
        requires
            a == 65536 * q + r,
            0 <= r < 65536,
            abs_s(a) <= bound,
            0 <= bound,
    ;
}

impl Rasterizer {
    /// Draw a rotated and scaled image through the active mode. The position
    /// `(x, y)`, the rotation's cosine/sine pair, the two scale factors and
    /// the normalized pivot are all fixed-point values with 16 fractional
    /// bits (65536 is 1.0). Destination pixels whose preimage falls outside
    /// the source, or samples a fully transparent pixel, are skipped. The
    /// input caps keep every intermediate product inside machine integers:
    /// buffers up to 16 million pixels a side, positions up to 16 million
    /// pixels, rotation pairs and pivots up to 2.0, scales up to 256.0 and
    /// nonzero.
    pub fn pimgmtx(
        &mut self,
        image: &Rasterizer,
        x: i64,
        y: i64,
        cos: i64,
        sin: i64,
        scale_x: i64,
        scale_y: i64,
        pivot_x: i64,
        pivot_y: i64,
    )
        requires
            old(self).wf(),
            image.wf(),
            old(self)@.width <= 0x100_0000,
            old(self)@.height <= 0x100_0000,
            image@.width <= 0x100_0000,
            image@.height <= 0x100_0000,
            abs_s(x as int) <= 0x200_0000_0000,
            abs_s(y as int) <= 0x200_0000_0000,
            abs_s(cos as int) <= 0x2_0000,
            abs_s(sin as int) <= 0x2_0000,
            scale_x != 0,
            scale_y != 0,
            abs_s(scale_x as int) <= 0x100_0000,
            abs_s(scale_y as int) <= 0x100_0000,
            abs_s(pivot_x as int) <= 0x2_0000,
            abs_s(pivot_y as int) <= 0x2_0000,
        ensures
            final(self).wf(),
            final(self)@ == pimgmtx_s(
                old(self)@,
                image@,
                x as int,
                y as int,
                cos as int,
                sin as int,
                scale_x as int,
                scale_y as int,
                pivot_x as int,
                pivot_y as int,
            ),
    {
        let ghost c0 = self@;
        proof {
            assert(abs_s((image@.width as int) * (pivot_x as int)) <= 0x2_0000_0000_0000 && abs_s(
                (image@.height as int) * (pivot_y as int),
            ) <= 0x2_0000_0000_0000) by (nonlinear_arith)
                requires
                    0 <= image@.width <= 0x100_0000,
                    0 <= image@.height <= 0x100_0000,
                    abs_s(pivot_x as int) <= 0x2_0000,
                    abs_s(pivot_y as int) <= 0x2_0000,
            ;
        }
        let pvx: i128 = (image.width as i128) * (pivot_x as i128);
        let pvy: i128 = (image.height as i128) * (pivot_y as i128);
        let wfx: i128 = (image.width as i128) * 65536;
        let hfx: i128 = (image.height as i128) * 65536;
        let p1 = fwd_run(
            x as i128,
            y as i128,
            cos as i128,
            sin as i128,
            scale_x as i128,
            scale_y as i128,
            pvx,
            pvy,
            0,
            0,
        );
        let p2 = fwd_run(
            x as i128,
            y as i128,
            cos as i128,
            sin as i128,
            scale_x as i128,
            scale_y as i128,
            pvx,
            pvy,
            wfx,
            hfx,
        );
        let p3 = fwd_run(
            x as i128,
            y as i128,
            cos as i128,
            sin as i128,
            scale_x as i128,
            scale_y as i128,
            pvx,
            pvy,
            0,
            hfx,
        );
        let p4 = fwd_run(
            x as i128,
            y as i128,
            cos as i128,
            sin as i128,
            scale_x as i128,
            scale_y as i128,
            pvx,
            pvy,
            wfx,
            0,
        );
        let x1f = p1.0;
        let y1f = p1.1;
        let x2f = p2.0;
        let y2f = p2.1;
        let x3f = p3.0;
        let y3f = p3.1;
        let x4f = p4.0;
        let y4f = p4.1;
        let minx = min4_i128(x1f, x2f, x3f, x4f);
        let maxx = max4_i128(x1f, x2f, x3f, x4f);
        let miny = min4_i128(y1f, y2f, y3f, y4f);
        let maxy = max4_i128(y1f, y2f, y3f, y4f);
        if self.width == 0 || self.height == 0 {
            return ;
        }
        let n = self.color.len();
        proof {
            lemma_dims_from_len(self.width as int, self.height as int, self@.buf.len() as int);
        }
        let wi: i64 = self.width as i64;
        let hi: i64 = self.height as i64;
        let rsx = clamp_to_dim(div_floor_any(minx, 65536), wi);
        let rex = clamp_to_dim(div_floor_any(maxx + 65535, 65536), wi);
        let rsy = clamp_to_dim(div_floor_any(miny, 65536), hi);
        let rey = clamp_to_dim(div_floor_any(maxy + 65535, 65536), hi);
        if !(rsx < rex && rsy < rey) {
            return ;
        }
        let ghost ncols = (rex - rsx) as nat;
        let ghost f = mtx_px(
            image@,
            x as int,
            y as int,
            cos as int,
            sin as int,
            scale_x as int,
            scale_y as int,
            pvx as int,
            pvy as int,
        );
        let mut dy: i64 = rsy;
        while dy < rey
            invariant
                rsy <= dy <= rey,
                self.wf(),
                image.wf(),
                self@ == grid_fold(c0, rsx as int, rsy as int, ncols, (dy - rsy) as nat, f),
                self@.width == c0.width > 0,
                self@.height == c0.height > 0,
                rsx < rex <= self@.width as int <= 0x100_0000,
                0 <= rsx,
                0 <= rsy,
                rey <= self@.height as int <= 0x100_0000,
                ncols == rex - rsx,
                f == mtx_px(
                    image@,
                    x as int,
                    y as int,
                    cos as int,
                    sin as int,
                    scale_x as int,
                    scale_y as int,
                    pvx as int,
                    pvy as int,
                ),
                abs_s(x as int) <= 0x200_0000_0000,
                abs_s(y as int) <= 0x200_0000_0000,
                abs_s(cos as int) <= 0x2_0000,
                abs_s(sin as int) <= 0x2_0000,
                scale_x != 0,
                scale_y != 0,
                abs_s(scale_x as int) <= 0x100_0000,
                abs_s(scale_y as int) <= 0x100_0000,
                abs_s(pvx as int) <= 0x2_0000_0000_0000,
                abs_s(pvy as int) <= 0x2_0000_0000_0000,
                image@.width <= 0x100_0000,
                image@.height <= 0x100_0000,
            decreases rey - dy,
        {
            let mut dx: i64 = rsx;
            while dx < rex
                invariant
                    rsx <= dx <= rex,
                    rsy <= dy < rey,
                    self.wf(),
                    image.wf(),
                    self@ == row_fold(
                        grid_fold(c0, rsx as int, rsy as int, ncols, (dy - rsy) as nat, f),
                        dy as int,
                        rsx as int,
                        (dx - rsx) as nat,
                        f,
                    ),
                    self@.width == c0.width > 0,
                    self@.height == c0.height > 0,
                    rsx < rex <= self@.width as int <= 0x100_0000,
                    0 <= rsx,
                    0 <= rsy,
                    rey <= self@.height as int <= 0x100_0000,
                    ncols == rex - rsx,
                    f == mtx_px(
                        image@,
                        x as int,
                        y as int,
                        cos as int,
                        sin as int,
                        scale_x as int,
                        scale_y as int,
                        pvx as int,
                        pvy as int,
                    ),
                    abs_s(x as int) <= 0x200_0000_0000,
                    abs_s(y as int) <= 0x200_0000_0000,
                    abs_s(cos as int) <= 0x2_0000,
                    abs_s(sin as int) <= 0x2_0000,
                    scale_x != 0,
                    scale_y != 0,
                    abs_s(scale_x as int) <= 0x100_0000,
                    abs_s(scale_y as int) <= 0x100_0000,
                    abs_s(pvx as int) <= 0x2_0000_0000_0000,
                    abs_s(pvy as int) <= 0x2_0000_0000_0000,
                    image@.width <= 0x100_0000,
                    image@.height <= 0x100_0000,
                decreases rex - dx,
            {
                let sp = inv_run(
                    x as i128,
                    y as i128,
                    cos as i128,
                    sin as i128,
                    scale_x as i128,
                    scale_y as i128,
                    pvx,
                    pvy,
                    dx,
                    dy,
                );
                let sxp = sp.0;
                let syp = sp.1;
                if sxp >= 0 && syp >= 0 && (sxp as u64) < (image.width as u64) && (syp as u64) < (
                image.height as u64) {
                    let pc = image.pget(sxp, syp);
                    if pc.a > 0 {
                        self.pset(dx, dy, pc);
                    }
                }
                dx = dx + 1;
            }
            dy = dy + 1;
        }
    }
}

/// The least of four values.
fn min4_i128(a: i128, b: i128, c: i128, d: i128) -> (r: i128)
    ensures
        r as int == min_i(min_i(a as int, b as int), min_i(c as int, d as int)),
{
    let ab = if a <= b {
        a
    } else {
        b
    };
    let cd = if c <= d {
        c
    } else {
        d
    };
    if ab <= cd {
        ab
    } else {
        cd
    }
}

/// The greatest of four values.
fn max4_i128(a: i128, b: i128, c: i128, d: i128) -> (r: i128)
    ensures
        r as int == max_i(max_i(a as int, b as int), max_i(c as int, d as int)),
{
    let ab = if a >= b {
        a
    } else {
        b
    };
    let cd = if c >= d {
        c
    } else {
        d
    };
    if ab >= cd {
        ab
    } else {
        cd
    }
}

/// The inverse map of one destination pixel, floored to source coordinates.
fn inv_run(
    x: i128,
    y: i128,
    cos: i128,
    sin: i128,
    sx: i128,
    sy: i128,
    pvx: i128,
    pvy: i128,
    dx: i64,
    dy: i64,
) -> (r: (i64, i64))
    requires
        abs_s(x as int) <= 0x200_0000_0000,
        abs_s(y as int) <= 0x200_0000_0000,
        abs_s(cos as int) <= 0x2_0000,
        abs_s(sin as int) <= 0x2_0000,
        sx != 0,
        sy != 0,
        abs_s(sx as int) <= 0x100_0000,
        abs_s(sy as int) <= 0x100_0000,
        abs_s(pvx as int) <= 0x2_0000_0000_0000,
        abs_s(pvy as int) <= 0x2_0000_0000_0000,
        0 <= dx as int <= 0x100_0000,
        0 <= dy as int <= 0x100_0000,
    ensures
        (r.0 as int, r.1 as int) == mtx_inv(
            x as int,
            y as int,
            cos as int,
            sin as int,
            sx as int,
            sy as int,
            pvx as int,
            pvy as int,
            dx as int,
            dy as int,
        ),
{
    let u: i128 = (dx as i128) * 65536 - x;
    let v: i128 = (dy as i128) * 65536 - y;
    proof {
        let ci = cos as int;
        let si = sin as int;
        let ui = u as int;
        let vi = v as int;
        assert(abs_s(ci * ui) <= 0x2_0000 * 0x400_0000_0000 && abs_s(si * vi) <= 0x2_0000
            * 0x400_0000_0000 && abs_s(ci * vi) <= 0x2_0000 * 0x400_0000_0000 && abs_s(si * ui)
            <= 0x2_0000 * 0x400_0000_0000) by (nonlinear_arith)
            requires
                abs_s(ci) <= 0x2_0000,
                abs_s(si) <= 0x2_0000,
                abs_s(ui) <= 0x400_0000_0000,
                abs_s(vi) <= 0x400_0000_0000,
        ;
    }
    let rxn: i128 = cos * u + sin * v;
    let ryn: i128 = cos * v - sin * u;
    proof {
        lemma_div_fx_shrink(rxn as int, 0x1000_0000_0000);
        lemma_div_fx_shrink(ryn as int, 0x1000_0000_0000);
    }
    let rx = div_floor_any(rxn, 65536);
    let ry = div_floor_any(ryn, 65536);
    proof {
        lemma_fx_div_bound(rx as int * 65536, sx as int, 0x1000_0001_0000_0000);
        lemma_fx_div_bound(ry as int * 65536, sy as int, 0x1000_0001_0000_0000);
    }
    let sxp_fx = div_floor_any(rx * 65536, sx) + pvx;
    let syp_fx = div_floor_any(ry * 65536, sy) + pvy;
    proof {
        lemma_div_fx_shrink(sxp_fx as int, 0x1002_0002_0000);
        lemma_div_fx_shrink(syp_fx as int, 0x1002_0002_0000);
    }
    let sxp = div_floor_any(sxp_fx, 65536);
    let syp = div_floor_any(syp_fx, 65536);
        (sxp as i64, syp as i64)
}

/// Floor division by the fixed-point unit shrinks a magnitude bound by the
/// unit, up to the rounding pixel.
proof fn lemma_div_fx_shrink(a: int, bound: int)
    requires
        abs_s(a) <= bound * 65536,
        0 <= bound,
    ensures
        abs_s(a / 65536) <= bound + 1,
{
    vstd::arithmetic::div_mod::lemma_fundamental_div_mod(a, 65536);
    vstd::arithmetic::div_mod::lemma_mod_bound(a, 65536);
    let q = a / 65536;
    let r = a % 65536;
    assert(abs_s(q) <= bound + 1) by (nonlinear_arith)
        requires
            a == 65536 * q + r,
            0 <= r < 65536,
            abs_s(a) <= bound * 65536,
            0 <= bound,
    ;
}

/// Floor division by a nonzero divisor cannot grow past the numerator's
/// magnitude bound.
proof fn lemma_fx_div_bound(a: int, b: int, bound: int)
    requires
        b != 0,
        abs_s(a) <= bound,
        0 <= bound,
    ensures
        abs_s(fx_div(a, b)) <= bound,
{
    let bb = if b >= 0 {
        b
    } else {
        -b
    };
    let aa = if b >= 0 {
        a
    } else {
        -a
    };
    vstd::arithmetic::div_mod::lemma_fundamental_div_mod(aa, bb);
    vstd::arithmetic::div_mod::lemma_mod_bound(aa, bb);
    let q = aa / bb;
    let r = aa % bb;
    assert(abs_s(q) <= bound) by (nonlinear_arith)
        requires
            aa == bb * q + r,
            0 <= r < bb,
            1 <= bb,
            abs_s(aa) <= bound,
            0 <= bound,
    ;
}

/// The camera matrix computed from position, rotation pair and scale: the
/// forward coefficients of translate(pos) x rotate(rot) x scale(scale), in
/// fixed point (65536 is 1.0).
pub open spec fn cam_mtx_spec(pos: (i64, i64), rot: (i64, i64), scale: (i64, i64)) -> (
    i128,
    i128,
    i128,
    i128,
    i128,
    i128,
) {
    (
        (((rot.0 as int) * (scale.0 as int)) / 65536) as i128,
        (((-(rot.1 as int)) * (scale.1 as int)) / 65536) as i128,
        pos.0 as i128,
        (((rot.1 as int) * (scale.0 as int)) / 65536) as i128,
        (((rot.0 as int) * (scale.1 as int)) / 65536) as i128,
        pos.1 as i128,
    )
}

impl Rasterizer {
    /// Recompute the cached camera matrix from the camera position, rotation
    /// pair and scale.
    pub fn update_camera(&mut self)
        ensures
            final(self)@ == (Canvas {
                cam_mtx: cam_mtx_spec(
                    old(self)@.cam_pos,
                    old(self)@.cam_rot,
                    old(self)@.cam_scale,
                ),
                ..old(self)@
            }),
    {
        let (cx, cy) = self.camera_position;
        let (rc, rs) = self.camera_rotation;
        let (sx, sy) = self.camera_scale;
        proof {
            assert(forall|a: int, b: int|
                (-0x8000_0000_0000_0000 <= a <= 0x8000_0000_0000_0000 && -0x8000_0000_0000_0000
                    <= b <= 0x8000_0000_0000_0000) ==> -0x4000_0000_0000_0000_0000_0000_0000_0000
                    <= #[trigger] (a * b) <= 0x4000_0000_0000_0000_0000_0000_0000_0000)
                by (nonlinear_arith);
        }
        let m00: i128 = div_floor_i128((rc as i128) * (sx as i128), 65536);
        let m01: i128 = div_floor_i128((-(rs as i128)) * (sy as i128), 65536);
        let m10: i128 = div_floor_i128((rs as i128) * (sx as i128), 65536);
        let m11: i128 = div_floor_i128((rc as i128) * (sy as i128), 65536);
        self.camera_matrix = (m00, m01, cx as i128, m10, m11, cy as i128);
        proof {
            assert(self@.cam_mtx == cam_mtx_spec(
                old(self)@.cam_pos,
                old(self)@.cam_rot,
                old(self)@.cam_scale,
            ));
        }
    }
}

} // verus!
