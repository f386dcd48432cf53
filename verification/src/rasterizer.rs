//! The single-threaded drawing engine: a flat row-major RGBA byte buffer plus
//! drawing state (compositing mode, tint, opacity), with per-pixel compositing
//! and the primitive drawing routines built on it.
//!
//! Every drawing operation is specified against a mathematical model of the
//! buffer ([`Canvas`]): a sequence of bytes together with the drawing state.
//! [`pset_s`] is the model of a single pixel write, and the primitives are
//! specified as folds of `pset_s` over the sequence of points they touch, or
//! pointwise where each pixel is touched at most once.

use vstd::prelude::*;
use vstd::arithmetic::div_mod::lemma_fundamental_div_mod_converse;

use crate::color::{Color, modulate_spec, plus_sat_spec, inverted_spec, blend_spec};

verus! {

/// Selects how a [`Rasterizer`] composites incoming pixels; see [`composite`].
#[derive(Clone, Copy, Debug, PartialEq, Eq, Structural)]
pub enum DrawMode {
    Collect,
    NoOp,
    NoAlpha,
    Opaque,
    Alpha,
    Addition,
    Subtraction,
    Multiply,
    Divide,
    InvertedAlpha,
    InvertedOpaque,
    InvertedBgAlpha,
    InvertedBgOpaque,
    PatternOpaque,
    PatternAlpha,
    PatternAddition,
    PatternSubtraction,
    PatternMultiply,
    PatternDivide,
    PatternInvertedAlpha,
    PatternInvertedOpaque,
    PatternInvertedBgAlpha,
    PatternInvertedBgOpaque,
}

/// The mathematical state of one framebuffer: dimensions, raw bytes in
/// row-major RGBA order, and the drawing state that compositing reads.
pub ghost struct Canvas {
    pub width: nat,
    pub height: nat,
    pub buf: Seq<u8>,
    pub mode: DrawMode,
    pub tint: Color,
    pub opacity: u8,
    pub off_x: nat,
    pub off_y: nat,
    pub drawn: u64,
    pub collected: Seq<(i64, i64, Color)>,
    pub anim: bool,
    pub anim_folder: Seq<char>,
    pub cam_pos: (i64, i64),
    pub cam_rot: (i64, i64),
    pub cam_scale: (i64, i64),
    pub cam_mtx: (i128, i128, i128, i128, i128, i128),
}

impl Canvas {
    /// The buffer holds exactly four bytes per pixel.
    pub open spec fn wf(self) -> bool {
        self.buf.len() == self.width * self.height * 4
    }

    /// (x, y) names a pixel of this canvas.
    pub open spec fn in_bounds(self, x: int, y: int) -> bool {
        0 <= x < self.width && 0 <= y < self.height
    }
}

/// Byte offset of the pixel at (x, y) in a buffer of width `w`.
pub open spec fn px_index(w: nat, x: int, y: int) -> int {
    (y * w + x) * 4
}

/// The color stored at byte offset `idx`.
pub open spec fn px_at(buf: Seq<u8>, idx: int) -> Color {
    Color { r: buf[idx], g: buf[idx + 1], b: buf[idx + 2], a: buf[idx + 3] }
}

/// The buffer with the four bytes at `idx` replaced by `c`.
pub open spec fn write_px(buf: Seq<u8>, idx: int, c: Color) -> Seq<u8> {
    buf.update(idx, c.r).update(idx + 1, c.g).update(idx + 2, c.b).update(idx + 3, c.a)
}

/// A color with its alpha forced to 255; compositing reads the background
/// this way.
pub open spec fn opaque255(c: Color) -> Color {
    Color { r: c.r, g: c.g, b: c.b, a: 255u8 }
}

/// The compositing function: what one pixel write stores, given the active
/// mode, the tint, the opacity byte, the raw background bytes and the
/// incoming (foreground) color. `None` means the write is skipped.
///
/// The foreground is always tinted first; the background's alpha is read as
/// 255. Opaque modes gate on full incoming alpha; Addition, Multiply and
/// InvertedAlpha skip fully transparent pixels. Modes with no compositing
/// function bound (Subtraction, Divide, the Pattern family) never write.
pub open spec fn composite(mode: DrawMode, tint: Color, opacity: u8, bg_raw: Color, fg: Color) -> Option<Color> {
    let bg = opaque255(bg_raw);
    match mode {
        DrawMode::NoOp => Some(fg),
        DrawMode::NoAlpha => Some(modulate_spec(fg, tint)),
        DrawMode::Opaque => if fg.a == 255 {
            Some(modulate_spec(fg, tint))
        } else {
            None
        },
        DrawMode::Alpha => Some(blend_spec(modulate_spec(fg, tint), bg, opacity)),
        DrawMode::Addition => if fg.a == 0 {
            None
        } else {
            Some(plus_sat_spec(blend_spec(modulate_spec(fg, tint), bg, opacity), bg))
        },
        DrawMode::Multiply => if fg.a == 0 {
            None
        } else {
            Some(modulate_spec(blend_spec(inverted_spec(modulate_spec(fg, tint)), bg, opacity), bg))
        },
        DrawMode::InvertedAlpha => if fg.a == 0 {
            None
        } else {
            Some(blend_spec(inverted_spec(modulate_spec(fg, tint)), bg, opacity))
        },
        DrawMode::InvertedOpaque => if fg.a == 255 {
            Some(inverted_spec(modulate_spec(bg, tint)))
        } else {
            None
        },
        DrawMode::InvertedBgOpaque => if fg.a == 255 {
            Some(inverted_spec(modulate_spec(bg, tint)))
        } else {
            None
        },
        DrawMode::InvertedBgAlpha => if fg.a == 255 {
            Some(blend_spec(bg, inverted_spec(modulate_spec(bg, tint)), opacity))
        } else {
            None
        },
        _ => None,
    }
}

/// The drawn-pixel counter advances by one per successful write, saturating.
pub open spec fn sat_inc(d: u64) -> u64 {
    if d == u64::MAX {
        d
    } else {
        (d + 1) as u64
    }
}

/// The model of one compositing write at byte offset `idx` under `mode`:
/// the buffer bytes and the drawn counter change, nothing else.
pub open spec fn apply_mode(c: Canvas, mode: DrawMode, idx: int, col: Color) -> Canvas {
    match composite(mode, c.tint, c.opacity, px_at(c.buf, idx), col) {
        Some(c2) => Canvas { buf: write_px(c.buf, idx, c2), drawn: sat_inc(c.drawn), ..c },
        None => c,
    }
}

/// The model of `pset`: wrap the coordinates into bounds, then either record
/// the pixel (Collect mode) or composite it into the buffer.
pub open spec fn pset_s(c: Canvas, x: int, y: int, col: Color) -> Canvas
    recommends
        c.wf(),
        c.width > 0,
        c.height > 0,
{
    let wx = x % (c.width as int);
    let wy = y % (c.height as int);
    if c.mode is Collect {
        Canvas { collected: c.collected.push((wx as i64, wy as i64, col)), ..c }
    } else {
        apply_mode(c, c.mode, px_index(c.width, wx, wy), col)
    }
}

/// A fold of [`pset_s`] over a sequence of points, all with one color: the
/// model of the primitives that draw point by point, in order.
pub open spec fn draw_pts(c: Canvas, pts: Seq<(int, int)>, col: Color) -> Canvas
    decreases pts.len(),
{
    if pts.len() == 0 {
        c
    } else {
        pset_s(draw_pts(c, pts.drop_last(), col), pts.last().0, pts.last().1, col)
    }
}

/// Two canvases share everything a pixel write cannot touch: dimensions,
/// drawing state, offsets, frame-dump bookkeeping, and the buffer's length.
pub open spec fn same_cfg(a: Canvas, b: Canvas) -> bool {
    &&& b.width == a.width
    &&& b.height == a.height
    &&& b.mode == a.mode
    &&& b.tint == a.tint
    &&& b.opacity == a.opacity
    &&& b.off_x == a.off_x
    &&& b.off_y == a.off_y
    &&& b.anim == a.anim
    &&& b.anim_folder == a.anim_folder
    &&& b.cam_pos == a.cam_pos
    &&& b.cam_rot == a.cam_rot
    &&& b.cam_scale == a.cam_scale
    &&& b.cam_mtx == a.cam_mtx
    &&& b.buf.len() == a.buf.len()
}

/// One pixel write keeps the configuration and the buffer length.
pub proof fn lemma_pset_s_cfg(c: Canvas, x: int, y: int, col: Color)
    requires
        c.wf(),
        c.width > 0,
        c.height > 0,
    ensures
        same_cfg(c, pset_s(c, x, y, col)),
{
    vstd::arithmetic::div_mod::lemma_mod_bound(x, c.width as int);
    vstd::arithmetic::div_mod::lemma_mod_bound(y, c.height as int);
    lemma_px_index_bounds(
        c.width as int,
        c.height as int,
        x % (c.width as int),
        y % (c.height as int),
    );
}

/// Drawing a point sequence keeps the configuration and the buffer length.
pub proof fn lemma_draw_pts_cfg(c: Canvas, pts: Seq<(int, int)>, col: Color)
    requires
        c.wf(),
        c.width > 0,
        c.height > 0,
    ensures
        same_cfg(c, draw_pts(c, pts, col)),
    decreases pts.len(),
{
    if pts.len() > 0 {
        lemma_draw_pts_cfg(c, pts.drop_last(), col);
        lemma_pset_s_cfg(draw_pts(c, pts.drop_last(), col), pts.last().0, pts.last().1, col);
    }
}

/// Row-major byte offsets stay inside the buffer.
pub proof fn lemma_px_index_bounds(w: int, h: int, x: int, y: int)
    requires
        0 <= x < w,
        0 <= y < h,
    ensures
        0 <= (y * w + x) * 4,
        (y * w + x) * 4 + 3 < w * h * 4,
{
    assert(0 <= (y * w + x) * 4 && (y * w + x) * 4 + 3 < w * h * 4) by (nonlinear_arith)
        requires
            0 <= x < w,
            0 <= y < h,
    ;
}

/// Distinct in-bounds pixels have distinct (non-overlapping) byte offsets.
pub proof fn lemma_px_index_injective(w: int, x1: int, y1: int, x2: int, y2: int)
    requires
        0 <= x1 < w,
        0 <= x2 < w,
        0 <= y1,
        0 <= y2,
        (x1, y1) != (x2, y2),
    ensures
        (y1 * w + x1) * 4 + 4 <= (y2 * w + x2) * 4 || (y2 * w + x2) * 4 + 4 <= (y1 * w + x1) * 4,
{
    assert((y1 * w + x1) * 4 + 4 <= (y2 * w + x2) * 4 || (y2 * w + x2) * 4 + 4 <= (y1 * w + x1)
        * 4) by (nonlinear_arith)
        requires
            0 <= x1 < w,
            0 <= x2 < w,
            0 <= y1,
            0 <= y2,
            !(x1 == x2 && y1 == y2),
    ;
}

/// Recover a pixel's coordinates from its byte offset.
pub proof fn lemma_px_index_inverse(w: int, x: int, y: int)
    requires
        0 <= x < w,
        0 <= y,
    ensures
        ((y * w + x) * 4) / 4 == y * w + x,
        (y * w + x) / w == y,
        (y * w + x) % w == x,
{
    assert((y * w + x) * 4 == (y * w + x) * 4 + 0);
    lemma_fundamental_div_mod_converse((y * w + x) * 4, 4, y * w + x, 0);
    lemma_fundamental_div_mod_converse(y * w + x, w, y, x);
}

/// The drawing switchboard: a width x height framebuffer of packed RGBA
/// bytes, the active compositing mode, tint and opacity, an offset recording
/// this buffer's place inside a parent buffer (used for partition tiles), a
/// diagnostic count of pixels written since the last clear, and the list of
/// pixels gathered by Collect mode.
///
/// Invariant ([`Rasterizer::wf`]): the byte buffer's length is exactly
/// `width * height * 4`.
pub struct Rasterizer {
    pub width: usize,
    pub height: usize,
    pub color: Vec<u8>,
    pub draw_mode: DrawMode,
    pub tint: Color,
    pub opacity: u8,
    pub offset_x: usize,
    pub offset_y: usize,
    pub drawn_pixels_since_clear: u64,
    pub collected_pixels: Vec<(i64, i64, Color)>,
    pub render_next_frame_as_animation: bool,
    pub render_next_frame_folder: String,
    pub camera_position: (i64, i64),
    pub camera_rotation: (i64, i64),
    pub camera_scale: (i64, i64),
    pub camera_matrix: (i128, i128, i128, i128, i128, i128),
}

impl View for Rasterizer {
    type V = Canvas;

    open spec fn view(&self) -> Canvas {
        Canvas {
            width: self.width as nat,
            height: self.height as nat,
            buf: self.color@,
            mode: self.draw_mode,
            tint: self.tint,
            opacity: self.opacity,
            off_x: self.offset_x as nat,
            off_y: self.offset_y as nat,
            drawn: self.drawn_pixels_since_clear,
            collected: self.collected_pixels@,
            anim: self.render_next_frame_as_animation,
            anim_folder: self.render_next_frame_folder@,
            cam_pos: self.camera_position,
            cam_rot: self.camera_rotation,
            cam_scale: self.camera_scale,
            cam_mtx: self.camera_matrix,
        }
    }
}

/// A vector of `n` zero bytes.
fn zero_vec(n: usize) -> (v: Vec<u8>)
    ensures
        v@.len() == n,
        forall|i: int| 0 <= i < n ==> v@[i] == 0u8,
{
    let mut v: Vec<u8> = Vec::new();
    let mut i: usize = 0;
    while i < n
        invariant
            i <= n,
            v@.len() == i,
            forall|j: int| 0 <= j < i ==> v@[j] == 0u8,
        decreases n - i,
    {
        v.push(0);
        i = i + 1;
    }
    v
}

/// Write the four bytes of `c` at byte offset `idx`.
pub(crate) fn write_px4(v: &mut Vec<u8>, idx: usize, c: Color)
    requires
        idx + 3 < old(v)@.len(),
    ensures
        final(v)@ == write_px(old(v)@, idx as int, c),
{
    let n = v.len();
    v.set(idx, c.r);
    v.set(idx + 1, c.g);
    v.set(idx + 2, c.b);
    v.set(idx + 3, c.a);
}

/// Read the four bytes at byte offset `idx` as a color.
pub(crate) fn read_px4(v: &Vec<u8>, idx: usize) -> (c: Color)
    requires
        idx + 3 < v@.len(),
    ensures
        c == px_at(v@, idx as int),
{
    let n = v.len();
    Color { r: v[idx], g: v[idx + 1], b: v[idx + 2], a: v[idx + 3] }
}

/// Euclidean remainder: the representative of `v` modulo `m` in `[0, m)`.
pub(crate) fn wrap_i64(v: i64, m: i64) -> (r: i64)
    requires
        m > 0,
    ensures
        r == (v as int) % (m as int),
        0 <= r < m,
{
    if v >= 0 {
        v % m
    } else {
        let k = -(v + 1);
        let t = k % m;
        proof {
            let ki = k as int;
            let mi = m as int;
            vstd::arithmetic::div_mod::lemma_fundamental_div_mod(ki, mi);
            vstd::arithmetic::div_mod::lemma_mod_bound(ki, mi);
            let q = ki / mi;
            let r = ki % mi;
            assert(mi * (-q - 1) + (mi - 1 - r) == -(mi * q + r + 1)) by (nonlinear_arith);
            lemma_fundamental_div_mod_converse(v as int, mi, -q - 1, mi - 1 - r);
        }
        m - 1 - t
    }
}

impl Rasterizer {
    /// The type's invariant: the byte buffer holds width x height pixels.
    pub open spec fn wf(self) -> bool {
        self@.wf()
    }

    /// A fresh all-zero framebuffer with the default drawing state: Opaque
    /// mode, white tint, full opacity.
    pub fn new(width: usize, height: usize) -> (r: Rasterizer)
        requires
            width * height * 4 <= usize::MAX,
        ensures
            r.wf(),
            r@ == (Canvas {
                width: width as nat,
                height: height as nat,
                buf: Seq::new((width * height * 4) as nat, |i: int| 0u8),
                mode: DrawMode::Opaque,
                tint: Color { r: 255u8, g: 255u8, b: 255u8, a: 255u8 },
                opacity: 255u8,
                off_x: 0,
                off_y: 0,
                drawn: 0u64,
                collected: Seq::<(i64, i64, Color)>::empty(),
                anim: false,
                anim_folder: "./"@,
                cam_pos: (0i64, 0i64),
                cam_rot: (65536i64, 0i64),
                cam_scale: (65536i64, 65536i64),
                cam_mtx: (65536i128, 0i128, 0i128, 0i128, 65536i128, 0i128),
            }),
    {
        proof {
            assert(width * height * 4 == width * height * 4) by (nonlinear_arith);
        }
        let len: usize = (width * height) * 4;
        proof {
            assert((width * height) * 4 == width * height * 4) by (nonlinear_arith);
        }
        let buf = zero_vec(len);
        let r = Rasterizer {
            width,
            height,
            color: buf,
            draw_mode: DrawMode::Opaque,
            tint: Color::white(),
            opacity: 255,
            offset_x: 0,
            offset_y: 0,
            drawn_pixels_since_clear: 0,
            collected_pixels: Vec::new(),
            render_next_frame_as_animation: false,
            render_next_frame_folder: "./".to_owned(),
            camera_position: (0, 0),
            camera_rotation: (65536, 0),
            camera_scale: (65536, 65536),
            camera_matrix: (65536, 0, 0, 0, 65536, 0),
        };
        proof {
            assert(r@.buf =~= Seq::new((width * height * 4) as nat, |i: int| 0u8));
        }
        r
    }

    /// Bounds-checked read: the stored color inside the buffer, opaque black
    /// for any out-of-range coordinate.
    pub fn pget(&self, x: i64, y: i64) -> (c: Color)
        requires
            self.wf(),
        ensures
            c == pget_s(self@, x as int, y as int),
    {
        if x < 0 || y < 0 {
            return Color::black();
        }
        if (x as u64) >= (self.width as u64) || (y as u64) >= (self.height as u64) {
            return Color::black();
        }
        let xu = x as usize;
        let yu = y as usize;
        let n = self.color.len();
        proof {
            lemma_px_index_bounds(self.width as int, self.height as int, xu as int, yu as int);
        }
        let idx: usize = (yu * self.width + xu) * 4;
        read_px4(&self.color, idx)
    }
}

/// The model of `pget`: the stored color in bounds, opaque black outside.
pub open spec fn pget_s(c: Canvas, x: int, y: int) -> Color {
    if c.in_bounds(x, y) {
        px_at(c.buf, px_index(c.width, x, y))
    } else {
        Color { r: 0u8, g: 0u8, b: 0u8, a: 255u8 }
    }
}

/// A nonempty buffer forces both dimensions positive and both representable
/// far below `i64::MAX`.
pub(crate) proof fn lemma_dims_from_len(w: int, h: int, len: int)
    requires
        len == w * h * 4,
        len <= usize::MAX,
        w >= 0,
        h >= 0,
        0 < len || (w > 0 && h > 0),
    ensures
        w > 0,
        h > 0,
        0 < len,
        4 * w <= len,
        4 * h <= len,
{
    assert(w > 0 && h > 0 && 0 < len && 4 * w <= len && 4 * h <= len) by (nonlinear_arith)
        requires
            len == w * h * 4,
            w >= 0,
            h >= 0,
            0 < len || (w > 0 && h > 0),
    ;
}

/// Bump the drawn-pixel counter, saturating.
fn count_drawn(r: &mut Rasterizer)
    ensures
        final(r)@ == (Canvas { drawn: sat_inc(old(r)@.drawn), ..old(r)@ }),
{
    if r.drawn_pixels_since_clear < u64::MAX {
        r.drawn_pixels_since_clear = r.drawn_pixels_since_clear + 1;
    }
}

/// Collect-mode write: recover the pixel from the byte offset and append it
/// to the collected list instead of touching the buffer.
pub fn pset_collect(rasterizer: &mut Rasterizer, idx: usize, color: Color)
    requires
        old(rasterizer).wf(),
        idx + 3 < old(rasterizer)@.buf.len(),
    ensures
        final(rasterizer).wf(),
        final(rasterizer)@ == (Canvas {
            collected: old(rasterizer)@.collected.push(
                (
                    (((idx as int) / 4) % (old(rasterizer)@.width as int)) as i64,
                    (((idx as int) / 4) / (old(rasterizer)@.width as int)) as i64,
                    color,
                ),
            ),
            ..old(rasterizer)@
        }),
{
    let n = rasterizer.color.len();
    proof {
        lemma_dims_from_len(
            rasterizer.width as int,
            rasterizer.height as int,
            rasterizer@.buf.len() as int,
        );
    }
    let p: usize = idx / 4;
    let x: i64 = (p % rasterizer.width) as i64;
    proof {
        let wi = rasterizer.width as int;
        let hi = rasterizer.height as int;
        assert(4 * (p as int) <= (idx as int) < wi * hi * 4);
        assert((p as int) < wi * hi) by (nonlinear_arith)
            requires
                4 * (p as int) < wi * hi * 4,
        ;
        vstd::arithmetic::div_mod::lemma_multiply_divide_lt(p as int, wi, hi);
        vstd::arithmetic::div_mod::lemma_mod_bound(p as int, wi);
    }
    let y: i64 = (p / rasterizer.width) as i64;
    rasterizer.collected_pixels.push((x, y, color));
}

/// Raw overwrite: store the incoming color without tinting or blending.
pub fn pset_noop(rasterizer: &mut Rasterizer, idx: usize, color: Color)
    requires
        old(rasterizer).wf(),
        idx + 3 < old(rasterizer)@.buf.len(),
    ensures
        final(rasterizer).wf(),
        final(rasterizer)@ == apply_mode(old(rasterizer)@, DrawMode::NoOp, idx as int, color),
{
    write_px4(&mut rasterizer.color, idx, color);
    count_drawn(rasterizer);
}

/// Overwrite with the tinted incoming color, ignoring alpha.
pub fn pset_noalpha(rasterizer: &mut Rasterizer, idx: usize, color: Color)
    requires
        old(rasterizer).wf(),
        idx + 3 < old(rasterizer)@.buf.len(),
    ensures
        final(rasterizer).wf(),
        final(rasterizer)@ == apply_mode(old(rasterizer)@, DrawMode::NoAlpha, idx as int, color),
{
    let c = color.modulate(rasterizer.tint);
    write_px4(&mut rasterizer.color, idx, c);
    count_drawn(rasterizer);
}

/// Overwrite with the tinted color only when the incoming pixel is fully
/// opaque; otherwise skip.
pub fn pset_opaque(rasterizer: &mut Rasterizer, idx: usize, color: Color)
    requires
        old(rasterizer).wf(),
        idx + 3 < old(rasterizer)@.buf.len(),
    ensures
        final(rasterizer).wf(),
        final(rasterizer)@ == apply_mode(old(rasterizer)@, DrawMode::Opaque, idx as int, color),
{
    if color.a < 255 {
        return ;
    }
    let c = color.modulate(rasterizer.tint);
    write_px4(&mut rasterizer.color, idx, c);
    count_drawn(rasterizer);
}

/// Blend the tinted color over the stored pixel, weighted by the opacity
/// byte; the background's alpha is read as 255.
pub fn pset_alpha(rasterizer: &mut Rasterizer, idx: usize, color: Color)
    requires
        old(rasterizer).wf(),
        idx + 3 < old(rasterizer)@.buf.len(),
    ensures
        final(rasterizer).wf(),
        final(rasterizer)@ == apply_mode(old(rasterizer)@, DrawMode::Alpha, idx as int, color),
{
    let fg = color.modulate(rasterizer.tint);
    let bg_raw = read_px4(&rasterizer.color, idx);
    let bg = Color::new(bg_raw.r, bg_raw.g, bg_raw.b, 255);
    let c = fg.blend_fast(bg, rasterizer.opacity);
    write_px4(&mut rasterizer.color, idx, c);
    count_drawn(rasterizer);
}

/// Alpha-blend, then add the result to the background, saturating; skipped
/// for fully transparent incoming pixels.
pub fn pset_addition(rasterizer: &mut Rasterizer, idx: usize, color: Color)
    requires
        old(rasterizer).wf(),
        idx + 3 < old(rasterizer)@.buf.len(),
    ensures
        final(rasterizer).wf(),
        final(rasterizer)@ == apply_mode(old(rasterizer)@, DrawMode::Addition, idx as int, color),
{
    if color.a == 0 {
        return ;
    }
    let fg = color.modulate(rasterizer.tint);
    let bg_raw = read_px4(&rasterizer.color, idx);
    let bg = Color::new(bg_raw.r, bg_raw.g, bg_raw.b, 255);
    let c = fg.blend_fast(bg, rasterizer.opacity).plus_sat(bg);
    write_px4(&mut rasterizer.color, idx, c);
    count_drawn(rasterizer);
}

/// Alpha-blend the inverted tinted color against the background, then
/// multiply the result with the background channel-wise; skipped for fully
/// transparent incoming pixels.
pub fn pset_multiply(rasterizer: &mut Rasterizer, idx: usize, color: Color)
    requires
        old(rasterizer).wf(),
        idx + 3 < old(rasterizer)@.buf.len(),
    ensures
        final(rasterizer).wf(),
        final(rasterizer)@ == apply_mode(old(rasterizer)@, DrawMode::Multiply, idx as int, color),
{
    if color.a == 0 {
        return ;
    }
    let fg = color.modulate(rasterizer.tint);
    let bg_raw = read_px4(&rasterizer.color, idx);
    let bg = Color::new(bg_raw.r, bg_raw.g, bg_raw.b, 255);
    let c = fg.inverted().blend_fast(bg, rasterizer.opacity).modulate(bg);
    write_px4(&mut rasterizer.color, idx, c);
    count_drawn(rasterizer);
}

/// Alpha-blend the inverted tinted color over the background; skipped for
/// fully transparent incoming pixels.
pub fn pset_inverted_alpha(rasterizer: &mut Rasterizer, idx: usize, color: Color)
    requires
        old(rasterizer).wf(),
        idx + 3 < old(rasterizer)@.buf.len(),
    ensures
        final(rasterizer).wf(),
        final(rasterizer)@ == apply_mode(
            old(rasterizer)@,
            DrawMode::InvertedAlpha,
            idx as int,
            color,
        ),
{
    if color.a == 0 {
        return ;
    }
    let fg = color.modulate(rasterizer.tint);
    let bg_raw = read_px4(&rasterizer.color, idx);
    let bg = Color::new(bg_raw.r, bg_raw.g, bg_raw.b, 255);
    let c = fg.inverted().blend_fast(bg, rasterizer.opacity);
    write_px4(&mut rasterizer.color, idx, c);
    count_drawn(rasterizer);
}

/// Store the inverted tinted background when the incoming pixel is fully
/// opaque; otherwise skip.
pub fn pset_inverted_opaque(rasterizer: &mut Rasterizer, idx: usize, color: Color)
    requires
        old(rasterizer).wf(),
        idx + 3 < old(rasterizer)@.buf.len(),
    ensures
        final(rasterizer).wf(),
        final(rasterizer)@ == apply_mode(
            old(rasterizer)@,
            DrawMode::InvertedOpaque,
            idx as int,
            color,
        ),
{
    if color.a < 255 {
        return ;
    }
    let bg_raw = read_px4(&rasterizer.color, idx);
    let bg = Color::new(bg_raw.r, bg_raw.g, bg_raw.b, 255);
    let c = bg.modulate(rasterizer.tint).inverted();
    write_px4(&mut rasterizer.color, idx, c);
    count_drawn(rasterizer);
}

/// Same compositing as [`pset_inverted_opaque`]: store the inverted tinted
/// background for fully opaque incoming pixels.
pub fn pset_inverted_bg_opaque(rasterizer: &mut Rasterizer, idx: usize, color: Color)
    requires
        old(rasterizer).wf(),
        idx + 3 < old(rasterizer)@.buf.len(),
    ensures
        final(rasterizer).wf(),
        final(rasterizer)@ == apply_mode(
            old(rasterizer)@,
            DrawMode::InvertedBgOpaque,
            idx as int,
            color,
        ),
{
    if color.a < 255 {
        return ;
    }
    let bg_raw = read_px4(&rasterizer.color, idx);
    let bg = Color::new(bg_raw.r, bg_raw.g, bg_raw.b, 255);
    let c = bg.modulate(rasterizer.tint).inverted();
    write_px4(&mut rasterizer.color, idx, c);
    count_drawn(rasterizer);
}

/// Blend the background over its own inverted tinted value, weighted by the
/// opacity byte, for fully opaque incoming pixels.
pub fn pset_inverted_bg_alpha(rasterizer: &mut Rasterizer, idx: usize, color: Color)
    requires
        old(rasterizer).wf(),
        idx + 3 < old(rasterizer)@.buf.len(),
    ensures
        final(rasterizer).wf(),
        final(rasterizer)@ == apply_mode(
            old(rasterizer)@,
            DrawMode::InvertedBgAlpha,
            idx as int,
            color,
        ),
{
    if color.a < 255 {
        return ;
    }
    let bg_raw = read_px4(&rasterizer.color, idx);
    let bg = Color::new(bg_raw.r, bg_raw.g, bg_raw.b, 255);
    let c = bg.blend_fast(bg.modulate(rasterizer.tint).inverted(), rasterizer.opacity);
    write_px4(&mut rasterizer.color, idx, c);
    count_drawn(rasterizer);
}

/// The modes that are bound to a compositing function; `set_draw_mode` on any
/// other mode leaves the active mode unchanged.
pub open spec fn mode_implemented(m: DrawMode) -> bool {
    match m {
        DrawMode::Collect => true,
        DrawMode::NoOp => true,
        DrawMode::NoAlpha => true,
        DrawMode::Opaque => true,
        DrawMode::Alpha => true,
        DrawMode::Addition => true,
        DrawMode::Multiply => true,
        DrawMode::InvertedAlpha => true,
        DrawMode::InvertedOpaque => true,
        DrawMode::InvertedBgOpaque => true,
        DrawMode::InvertedBgAlpha => true,
        _ => false,
    }
}

/// The model of `clear`: an all-zero buffer, counter reset, frame-dump flag
/// dropped; dimensions and drawing state kept.
pub open spec fn clear_s(c: Canvas) -> Canvas {
    Canvas {
        buf: Seq::new(c.width * c.height * 4, |i: int| 0u8),
        drawn: 0u64,
        anim: false,
        ..c
    }
}

/// The channel of `col` selected by a byte's position within its pixel.
pub open spec fn channel_of(col: Color, ch: int) -> u8 {
    if ch == 0 {
        col.r
    } else if ch == 1 {
        col.g
    } else if ch == 2 {
        col.b
    } else {
        col.a
    }
}

/// The model of `clear_color`: every pixel holds `col`, counter reset,
/// frame-dump flag dropped.
pub open spec fn flood_s(c: Canvas, col: Color) -> Canvas {
    Canvas {
        buf: Seq::new(c.width * c.height * 4, |i: int| channel_of(col, i % 4)),
        drawn: 0u64,
        anim: false,
        ..c
    }
}

impl Rasterizer {
    /// Select the compositing function used by subsequent `pset`-based calls.
    /// A mode with no compositing function bound leaves the selection as it
    /// was.
    pub fn set_draw_mode(&mut self, mode: DrawMode)
        ensures
            final(self)@ == if mode_implemented(mode) {
                Canvas { mode, ..old(self)@ }
            } else {
                old(self)@
            },
    {
        match mode {
            DrawMode::Collect => { self.draw_mode = mode; },
            DrawMode::NoOp => { self.draw_mode = mode; },
            DrawMode::NoAlpha => { self.draw_mode = mode; },
            DrawMode::Opaque => { self.draw_mode = mode; },
            DrawMode::Alpha => { self.draw_mode = mode; },
            DrawMode::Addition => { self.draw_mode = mode; },
            DrawMode::Multiply => { self.draw_mode = mode; },
            DrawMode::InvertedAlpha => { self.draw_mode = mode; },
            DrawMode::InvertedOpaque => { self.draw_mode = mode; },
            DrawMode::InvertedBgOpaque => { self.draw_mode = mode; },
            DrawMode::InvertedBgAlpha => { self.draw_mode = mode; },
            _ => {},
        }
    }

    /// Ask for the frames drawn until the next clear to be dumped under the
    /// given folder; only records the request, the presentation layer reads
    /// it.
    pub fn save_next_frame_draw_process_until_clear(&mut self, path_to: &str)
        ensures
            final(self)@ == (Canvas { anim: true, anim_folder: path_to@, ..old(self)@ }),
    {
        self.render_next_frame_as_animation = true;
        self.render_next_frame_folder = path_to.to_owned();
    }

    /// Zero the whole buffer and reset the drawn-pixel counter.
    pub fn clear(&mut self)
        requires
            old(self).wf(),
        ensures
            final(self).wf(),
            final(self)@ == clear_s(old(self)@),
    {
        let n = self.color.len();
        self.color = zero_vec(n);
        self.drawn_pixels_since_clear = 0;
        self.render_next_frame_as_animation = false;
        proof {
            assert(self@.buf =~= clear_s(old(self)@).buf);
        }
    }

    /// Flood-fill the whole buffer with one color and reset the drawn-pixel
    /// counter.
    pub fn clear_color(&mut self, color: Color)
        requires
            old(self).wf(),
        ensures
            final(self).wf(),
            final(self)@ == flood_s(old(self)@, color),
    {
        let n = self.color.len();
        let mut v: Vec<u8> = Vec::new();
        let mut i: usize = 0;
        while i < n
            invariant
                i <= n,
                v@.len() == i,
                forall|j: int| 0 <= j < i ==> v@[j] == channel_of(color, j % 4),
            decreases n - i,
        {
            let ch: usize = i % 4;
            if ch == 0 {
                v.push(color.r);
            } else if ch == 1 {
                v.push(color.g);
            } else if ch == 2 {
                v.push(color.b);
            } else {
                v.push(color.a);
            }
            i = i + 1;
        }
        self.color = v;
        self.drawn_pixels_since_clear = 0;
        self.render_next_frame_as_animation = false;
        proof {
            assert(self@.buf =~= flood_s(old(self)@, color).buf);
        }
    }

    /// Drop the pixels gathered by Collect mode.
    pub fn clear_collected(&mut self)
        ensures
            final(self)@ == (Canvas {
                collected: Seq::<(i64, i64, Color)>::empty(),
                ..old(self)@
            }),
    {
        self.collected_pixels = Vec::new();
        proof {
            assert(self@.collected =~= Seq::<(i64, i64, Color)>::empty());
        }
    }

    /// Reallocate the buffer to new dimensions, zero-filled; drawing state
    /// and offsets are kept.
    pub fn resize(&mut self, width: usize, height: usize)
        requires
            width * height * 4 <= usize::MAX,
        ensures
            final(self).wf(),
            final(self)@ == (Canvas {
                width: width as nat,
                height: height as nat,
                buf: Seq::new((width * height * 4) as nat, |i: int| 0u8),
                ..old(self)@
            }),
    {
        proof {
            assert((width * height) * 4 == width * height * 4) by (nonlinear_arith);
        }
        self.width = width;
        self.height = height;
        self.color = zero_vec((width * height) * 4);
        proof {
            assert(self@.buf =~= Seq::new((width * height * 4) as nat, |i: int| 0u8));
        }
    }

    /// Draw one pixel through the active compositing mode, wrapping both
    /// coordinates into bounds by modulo.
    pub fn pset(&mut self, x: i64, y: i64, color: Color)
        requires
            old(self).wf(),
            old(self)@.width > 0,
            old(self)@.height > 0,
        ensures
            final(self).wf(),
            final(self)@ == pset_s(old(self)@, x as int, y as int, color),
    {
        let n = self.color.len();
        proof {
            lemma_dims_from_len(self.width as int, self.height as int, self@.buf.len() as int);
        }
        let wi: i64 = self.width as i64;
        let hi: i64 = self.height as i64;
        let wx = wrap_i64(x, wi);
        let wy = wrap_i64(y, hi);
        proof {
            lemma_px_index_bounds(self.width as int, self.height as int, wx as int, wy as int);
        }
        let idx: usize = ((wy as usize) * self.width + (wx as usize)) * 4;
        proof {
            lemma_px_index_inverse(self.width as int, wx as int, wy as int);
        }
        match self.draw_mode {
            DrawMode::Collect => pset_collect(self, idx, color),
            DrawMode::NoOp => pset_noop(self, idx, color),
            DrawMode::NoAlpha => pset_noalpha(self, idx, color),
            DrawMode::Opaque => pset_opaque(self, idx, color),
            DrawMode::Alpha => pset_alpha(self, idx, color),
            DrawMode::Addition => pset_addition(self, idx, color),
            DrawMode::Multiply => pset_multiply(self, idx, color),
            DrawMode::InvertedAlpha => pset_inverted_alpha(self, idx, color),
            DrawMode::InvertedOpaque => pset_inverted_opaque(self, idx, color),
            DrawMode::InvertedBgOpaque => pset_inverted_bg_opaque(self, idx, color),
            DrawMode::InvertedBgAlpha => pset_inverted_bg_alpha(self, idx, color),
            _ => {},
        }
    }
}

} // verus!
