//! The library's stated laws, proved once over the models that the drawing
//! operations' contracts use.

use vstd::prelude::*;

use crate::color::{Color, modulate_spec, blend_spec, lemma_blend_opacity_ends, lemma_modulate_white};
use crate::rasterizer::{
    Canvas, DrawMode, apply_mode, clear_s, flood_s, composite, pset_s, pget_s, channel_of,
    opaque255, px_index, sat_inc, lemma_px_index_bounds,
};

verus! {

/// Writing a pixel at any coordinates lands on the coordinates wrapped by
/// modulo into bounds: `pset` at (x, y) equals `pset` at
/// (x mod width, y mod height).
pub proof fn law_pset_wraparound(c: Canvas, x: int, y: int, col: Color)
    requires
        c.width > 0,
        c.height > 0,
    ensures
        pset_s(c, x, y, col) == pset_s(
            c,
            x % (c.width as int),
            y % (c.height as int),
            col,
        ),
{
    vstd::arithmetic::div_mod::lemma_mod_twice(x, c.width as int);
    vstd::arithmetic::div_mod::lemma_mod_twice(y, c.height as int);
}

/// Reading any out-of-range coordinate returns opaque black.
pub proof fn law_pget_out_of_bounds(c: Canvas, x: int, y: int)
    requires
        !c.in_bounds(x, y),
    ensures
        pget_s(c, x, y) == (Color { r: 0u8, g: 0u8, b: 0u8, a: 255u8 }),
{
}

/// After a clear, every in-bounds pixel reads fully transparent black.
pub proof fn law_clear_reads_zero(c: Canvas, x: int, y: int)
    requires
        c.in_bounds(x, y),
    ensures
        pget_s(clear_s(c), x, y) == (Color { r: 0u8, g: 0u8, b: 0u8, a: 0u8 }),
{
    lemma_px_index_bounds(c.width as int, c.height as int, x, y);
}

/// After a flood fill, every in-bounds pixel reads the fill color.
pub proof fn law_clear_color_reads_color(c: Canvas, col: Color, x: int, y: int)
    requires
        c.in_bounds(x, y),
    ensures
        pget_s(flood_s(c, col), x, y) == col,
{
    lemma_px_index_bounds(c.width as int, c.height as int, x, y);
    let idx = px_index(c.width, x, y);
    vstd::arithmetic::div_mod::lemma_fundamental_div_mod_converse(idx, 4, (y * c.width + x), 0);
    vstd::arithmetic::div_mod::lemma_fundamental_div_mod_converse(
        idx + 1,
        4,
        (y * c.width + x),
        1,
    );
    vstd::arithmetic::div_mod::lemma_fundamental_div_mod_converse(
        idx + 2,
        4,
        (y * c.width + x),
        2,
    );
    vstd::arithmetic::div_mod::lemma_fundamental_div_mod_converse(
        idx + 3,
        4,
        (y * c.width + x),
        3,
    );
    assert(channel_of(col, idx % 4) == col.r);
    assert(pget_s(flood_s(c, col), x, y) == col);
}

/// Opaque-mode compositing: an incoming pixel with alpha below 255 leaves
/// the background untouched; with alpha 255 and a white tint the background
/// becomes exactly the incoming color.
pub proof fn law_opaque_composite(tint: Color, opacity: u8, bg: Color, fg: Color)
    ensures
        fg.a < 255 ==> composite(DrawMode::Opaque, tint, opacity, bg, fg) is None,
        fg.a == 255 ==> composite(DrawMode::Opaque, tint, opacity, bg, fg) == Some(
            modulate_spec(fg, tint),
        ),
        fg.a == 255 && tint == (Color { r: 255u8, g: 255u8, b: 255u8, a: 255u8 }) ==> composite(
            DrawMode::Opaque,
            tint,
            opacity,
            bg,
            fg,
        ) == Some(fg),
{
    if fg.a == 255 && tint == (Color { r: 255u8, g: 255u8, b: 255u8, a: 255u8 }) {
        lemma_modulate_white(fg);
    }
}

/// Alpha blending with opacity 0 returns the background exactly; with
/// opacity 255 it returns the (tinted) foreground exactly.
pub proof fn law_blend_opacity_ends(tint: Color, bg: Color, fg: Color)
    ensures
        composite(DrawMode::Alpha, tint, 0u8, bg, fg) == Some(opaque255(bg)),
        composite(DrawMode::Alpha, tint, 255u8, bg, fg) == Some(modulate_spec(fg, tint)),
{
    lemma_blend_opacity_ends(modulate_spec(fg, tint), opaque255(bg));
}

/// An Opaque-mode write at byte offset `idx`, at the buffer level: an
/// incoming pixel with alpha below 255 leaves every byte and the drawn-pixel
/// counter untouched; with alpha 255 exactly the four bytes at `idx` become
/// the tinted incoming channels, every other byte is unchanged, and the
/// counter advances by one.
pub proof fn law_opaque_write(c: Canvas, idx: int, fg: Color)
    requires
        c.mode == DrawMode::Opaque,
        0 <= idx,
        idx + 3 < c.buf.len(),
    ensures
        fg.a < 255 ==> apply_mode(c, DrawMode::Opaque, idx, fg) == c,
        fg.a == 255 ==> {
            let c2 = apply_mode(c, DrawMode::Opaque, idx, fg);
            let tc = modulate_spec(fg, c.tint);
            &&& c2.buf.len() == c.buf.len()
            &&& c2.buf[idx] == tc.r
            &&& c2.buf[idx + 1] == tc.g
            &&& c2.buf[idx + 2] == tc.b
            &&& c2.buf[idx + 3] == tc.a
            &&& forall|k: int|
                0 <= k < c.buf.len() && !(idx <= k < idx + 4) ==> c2.buf[k] == c.buf[k]
            &&& c2.drawn == sat_inc(c.drawn)
            &&& c2 == (Canvas { buf: c2.buf, drawn: c2.drawn, ..c })
        },
{
}

/// An Alpha-mode write with opacity 0, at the buffer level: the pixel's
/// color bytes keep their prior background values exactly, its alpha byte
/// becomes 255 (background alpha is forced opaque after the blend), and
/// every other byte is unchanged.
pub proof fn law_alpha_opacity_zero_write(c: Canvas, idx: int, fg: Color)
    requires
        c.mode == DrawMode::Alpha,
        c.opacity == 0,
        0 <= idx,
        idx + 3 < c.buf.len(),
    ensures
        ({
            let c2 = apply_mode(c, DrawMode::Alpha, idx, fg);
            &&& c2.buf.len() == c.buf.len()
            &&& c2.buf[idx] == c.buf[idx]
            &&& c2.buf[idx + 1] == c.buf[idx + 1]
            &&& c2.buf[idx + 2] == c.buf[idx + 2]
            &&& c2.buf[idx + 3] == 255u8
            &&& forall|k: int|
                0 <= k < c.buf.len() && !(idx <= k < idx + 4) ==> c2.buf[k] == c.buf[k]
        }),
{
    lemma_blend_opacity_ends(
        modulate_spec(fg, c.tint),
        opaque255(crate::rasterizer::px_at(c.buf, idx)),
    );
}

} // verus!
