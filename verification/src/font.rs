//! Bitmap fonts: a fixed-cell glyph atlas plus the index string that maps a
//! character to its cell, and the text-printing primitive built on the tiled
//! blit.

use vstd::prelude::*;
use vstd::std_specs::iter::IteratorSpec;

use crate::rasterizer::{Canvas, Rasterizer, lemma_dims_from_len};
use crate::primitives::{abs_s, pimgrect_s, lemma_pimgrect_s_cfg};

verus! {

/// A glyph lookup table: the atlas image, the characters in atlas order, and
/// the fixed glyph cell metrics.
pub struct Font {
    pub fontimg: Rasterizer,
    pub glyphidx: Vec<char>,
    pub glyphidx_sizes: Vec<i64>,
    pub glyph_width: i64,
    pub glyph_height: i64,
    pub glyph_spacing: i64,
}

/// The mathematical state of a font.
pub ghost struct FontView {
    pub img: Canvas,
    pub glyphs: Seq<char>,
    pub sizes: Seq<i64>,
    pub gw: int,
    pub gh: int,
    pub spacing: int,
}

impl View for Font {
    type V = FontView;

    open spec fn view(&self) -> FontView {
        FontView {
            img: self.fontimg@,
            glyphs: self.glyphidx@,
            sizes: self.glyphidx_sizes@,
            gw: self.glyph_width as int,
            gh: self.glyph_height as int,
            spacing: self.glyph_spacing as int,
        }
    }
}

/// One character's glyph scan over the first `j` atlas entries: every entry
/// matching the character blits its atlas cell at the cursor and advances
/// the cursor by a glyph width plus spacing. Returns the canvas and the new
/// x cursor.
pub open spec fn print_glyph_scan(
    c: Canvas,
    f: FontView,
    ch: char,
    x: int,
    y: int,
    jx: int,
    jy: int,
    j: nat,
) -> (Canvas, int)
    decreases j,
{
    if j == 0 {
        (c, jx)
    } else {
        let prev = print_glyph_scan(c, f, ch, x, y, jx, jy, (j - 1) as nat);
        if (f.glyphs[j - 1] as u32) == (ch as u32) {
            let rectx = ((j - 1) * f.gw) % (f.img.width as int);
            let recty = (((j - 1) * f.gw) / (f.img.width as int)) * f.gh;
            let c2 = pimgrect_s(prev.0, f.img, x + prev.1, y + jy, rectx, recty, f.gw, f.gh);
            (c2, prev.1 + f.gw + f.spacing)
        } else {
            prev
        }
    }
}

/// The first `k` characters of a printed text: a newline (code point 10)
/// resets the x cursor and advances the y cursor by a glyph height plus line
/// spacing; a space (code point 32) advances the x cursor by a glyph width;
/// any other character runs the glyph scan, and then wraps to a new line
/// once the x cursor passes the wrap width. Returns the canvas and both
/// cursors.
pub open spec fn print_s(
    c: Canvas,
    f: FontView,
    text: Seq<char>,
    x: int,
    y: int,
    nls: int,
    wrap: Option<u32>,
    k: nat,
) -> (Canvas, int, int)
    decreases k,
{
    if k == 0 {
        (c, 0, 0)
    } else {
        let prev = print_s(c, f, text, x, y, nls, wrap, (k - 1) as nat);
        let ch = text[k - 1];
        if (ch as u32) == 10 {
            (prev.0, 0, prev.2 + f.gh + nls)
        } else if (ch as u32) == 32 {
            (prev.0, prev.1 + f.gw, prev.2)
        } else {
            let g = print_glyph_scan(prev.0, f, ch, x, y, prev.1, prev.2, f.glyphs.len());
            if match wrap {
                Some(wv) => g.1 > wv,
                None => false,
            } {
                (g.0, 0, prev.2 + f.gh + nls)
            } else {
                (g.0, g.1, prev.2)
            }
        }
    }
}

/// The glyph scan keeps the canvas configuration, and moves the x cursor
/// forward by at most one glyph advance per atlas entry.
pub proof fn lemma_print_glyph_scan_cfg(
    c: Canvas,
    f: FontView,
    ch: char,
    x: int,
    y: int,
    jx: int,
    jy: int,
    j: nat,
)
    requires
        c.wf(),
        f.gw >= 0,
        f.spacing >= 0,
    ensures
        crate::rasterizer::same_cfg(c, print_glyph_scan(c, f, ch, x, y, jx, jy, j).0),
        jx <= print_glyph_scan(c, f, ch, x, y, jx, jy, j).1 <= jx + j * (f.gw + f.spacing),
    decreases j,
{
    if j > 0 {
        lemma_print_glyph_scan_cfg(c, f, ch, x, y, jx, jy, (j - 1) as nat);
        let prev = print_glyph_scan(c, f, ch, x, y, jx, jy, (j - 1) as nat);
        if (f.glyphs[j - 1] as u32) == (ch as u32) {
            let rectx = ((j - 1) * f.gw) % (f.img.width as int);
            let recty = (((j - 1) * f.gw) / (f.img.width as int)) * f.gh;
            lemma_pimgrect_s_cfg(prev.0, f.img, x + prev.1, y + jy, rectx, recty, f.gw, f.gh);
        }
        assert((j - 1) * (f.gw + f.spacing) + (f.gw + f.spacing) == j * (f.gw + f.spacing))
            by (nonlinear_arith);
    } else {
        assert(j * (f.gw + f.spacing) == 0) by (nonlinear_arith)
            requires
                j == 0,
        ;
    }
}

/// Printing keeps the canvas configuration and keeps both cursors within
/// bounds set by the text length, the atlas size and the glyph metrics.
pub proof fn lemma_print_s_cfg(
    c: Canvas,
    f: FontView,
    text: Seq<char>,
    x: int,
    y: int,
    nls: int,
    wrap: Option<u32>,
    k: nat,
)
    requires
        c.wf(),
        f.gw >= 0,
        f.gh >= 0,
        f.spacing >= 0,
        nls >= 0,
    ensures
        crate::rasterizer::same_cfg(c, print_s(c, f, text, x, y, nls, wrap, k).0),
        0 <= print_s(c, f, text, x, y, nls, wrap, k).1 <= k * (f.glyphs.len() + 1) * (f.gw
            + f.spacing),
        0 <= print_s(c, f, text, x, y, nls, wrap, k).2 <= k * (f.gh + nls),
    decreases k,
{
    let glen = f.glyphs.len() as int;
    let adv = f.gw + f.spacing;
    if k > 0 {
        lemma_print_s_cfg(c, f, text, x, y, nls, wrap, (k - 1) as nat);
        let prev = print_s(c, f, text, x, y, nls, wrap, (k - 1) as nat);
        let ch = text[k - 1];
        assert((k - 1) * (glen + 1) * adv + (glen + 1) * adv == k * (glen + 1) * adv && (k - 1) * (
        f.gh + nls) + (f.gh + nls) == k * (f.gh + nls) && (k - 1) * (glen + 1) * adv >= 0 && (k - 1)
            * (f.gh + nls) >= 0 && glen * adv <= (glen + 1) * adv && adv <= (glen + 1) * adv)
            by (nonlinear_arith)
            requires
                k >= 1,
                glen >= 0,
                adv >= 0,
                f.gh + nls >= 0,
        ;
        if (ch as u32) == 10 {
        } else if (ch as u32) == 32 {
        } else {
            lemma_print_glyph_scan_cfg(prev.0, f, ch, x, y, prev.1, prev.2, f.glyphs.len());
        }
    } else {
        assert(k * (glen + 1) * adv == 0 && k * (f.gh + nls) == 0) by (nonlinear_arith)
            requires
                k == 0,
        ;
    }
}

impl Rasterizer {
    /// Print text with a bitmap font: spaces advance the cursor, newlines
    /// reset it and drop a line, unknown characters are skipped, and every
    /// known glyph is blitted from its atlas cell through the active mode,
    /// wrapping once the cursor passes `wrap_width`. The size caps on the
    /// text, atlas and metrics keep every cursor position inside machine
    /// integers.
    pub fn pprint(
        &mut self,
        font: &Font,
        text: String,
        x: i64,
        y: i64,
        newline_space: i64,
        wrap_width: Option<u32>,
    )
        requires
            old(self).wf(),
            font.fontimg.wf(),
            font@.img.width > 0,
            font@.img.height > 0,
            text@.len() <= 0x10_0000,
            font@.glyphs.len() <= 0x10_0000,
            0 <= font@.gw <= 0x10_0000,
            0 <= font@.gh <= 0x10_0000,
            0 <= font@.spacing <= 0x10_0000,
            0 <= newline_space <= 0x10_0000,
            abs_s(x as int) <= 0x100_0000_0000,
            abs_s(y as int) <= 0x100_0000_0000,
        ensures
            final(self).wf(),
            final(self)@ == print_s(
                old(self)@,
                font@,
                text@,
                x as int,
                y as int,
                newline_space as int,
                wrap_width,
                text@.len(),
            ).0,
    {
        let ghost c0 = self@;
        let ghost fv = font@;
        let ghost tchars = text@;
        let mut jumpx: i64 = 0;
        let mut jumpy: i64 = 0;
        let glen = font.glyphidx.len();
        let mut it = text.as_str().chars();
        let ghost mut i: int = 0;
        loop
            invariant_except_break
                0 <= i <= tchars.len(),
                it.obeys_prophetic_iter_laws(),
                it.remaining() =~= tchars.skip(i),
                c0.wf(),
                self.wf(),
                fv == font@,
                font.fontimg.wf(),
                fv.img.width > 0,
                fv.img.height > 0,
                glen == fv.glyphs.len() <= 0x10_0000,
                tchars.len() <= 0x10_0000,
                0 <= fv.gw <= 0x10_0000,
                0 <= fv.gh <= 0x10_0000,
                0 <= fv.spacing <= 0x10_0000,
                0 <= newline_space <= 0x10_0000,
                abs_s(x as int) <= 0x100_0000_0000,
                abs_s(y as int) <= 0x100_0000_0000,
                (self@, jumpx as int, jumpy as int) == print_s(
                    c0,
                    fv,
                    tchars,
                    x as int,
                    y as int,
                    newline_space as int,
                    wrap_width,
                    i as nat,
                ),
                self@.width == c0.width,
                self@.height == c0.height,
            ensures
                self.wf(),
                self@ == print_s(
                    c0,
                    fv,
                    tchars,
                    x as int,
                    y as int,
                    newline_space as int,
                    wrap_width,
                    tchars.len(),
                ).0,
                self@.width == c0.width,
                self@.height == c0.height,
            decreases tchars.len() - i,
        {
            let ghost it_pre = it;
            let next_ch = it.next();
            let ch = match next_ch {
                Some(c) => c,
                None => {
                    proof {
                        assert(tchars.skip(i) =~= Seq::<char>::empty());
                        assert(i == tchars.len());
                    }
                    break ;
                },
            };
            proof {
                assert(it_pre.remaining().len() > 0);
                assert(ch == tchars.skip(i)[0]);
                assert(ch == tchars[i]);
                assert(it.remaining() =~= tchars.skip(i + 1));
                lemma_print_s_cfg(
                    c0,
                    fv,
                    tchars,
                    x as int,
                    y as int,
                    newline_space as int,
                    wrap_width,
                    i as nat,
                );
                assert(i * ((fv.glyphs.len() + 1) as int) * (fv.gw + fv.spacing) <= 0x10_0000 * (
                0x10_0000 + 1) * 0x20_0000 && i * (fv.gh + newline_space) <= 0x10_0000 * 0x20_0000)
                    by (nonlinear_arith)
                    requires
                        0 <= i <= 0x10_0000,
                        0 <= fv.glyphs.len() <= 0x10_0000,
                        0 <= fv.gw + fv.spacing <= 0x20_0000,
                        0 <= fv.gh + newline_space <= 0x20_0000,
                ;
            }
            let code = ch as u32;
            if code == 10 {
                jumpy = jumpy + (font.glyph_height + newline_space);
                jumpx = 0;
            } else if code == 32 {
                jumpx = jumpx + font.glyph_width;
            } else {
                let ghost jx0 = jumpx as int;
                let ghost jy0 = jumpy as int;
                let ghost cpre = self@;
                let mut j: usize = 0;
                while j < glen
                    invariant
                        j <= glen,
                        glen == fv.glyphs.len() <= 0x10_0000,
                        self.wf(),
                        fv == font@,
                        font.fontimg.wf(),
                        fv.img.width > 0,
                        fv.img.height > 0,
                        0 <= fv.gw <= 0x10_0000,
                        0 <= fv.gh <= 0x10_0000,
                        0 <= fv.spacing <= 0x10_0000,
                        abs_s(x as int) <= 0x100_0000_0000,
                        abs_s(y as int) <= 0x100_0000_0000,
                        abs_s(jx0) <= 0x4000_0000_0000_0000,
                        abs_s(jy0) <= 0x4000_0000_0000_0000,
                        code == ch as u32,
                        (self@, jumpx as int) == print_glyph_scan(
                            cpre,
                            fv,
                            ch,
                            x as int,
                            y as int,
                            jx0,
                            jy0,
                            j as nat,
                        ),
                        jumpy as int == jy0,
                        self@.width == cpre.width,
                        self@.height == cpre.height,
                        cpre.wf(),
                    decreases glen - j,
                {
                    proof {
                        lemma_print_glyph_scan_cfg(
                            cpre,
                            fv,
                            ch,
                            x as int,
                            y as int,
                            jx0,
                            jy0,
                            j as nat,
                        );
                        assert((j as int) * (fv.gw + fv.spacing) <= 0x10_0000 * 0x20_0000)
                            by (nonlinear_arith)
                            requires
                                0 <= j as int <= 0x10_0000,
                                0 <= fv.gw + fv.spacing <= 0x20_0000,
                        ;
                    }
                    let g = font.glyphidx[j];
                    if (g as u32) == code {
                        let fl = font.fontimg.color.len();
                        proof {
                            assert(0 <= (j as int) * fv.gw <= 0x10_0000 * 0x10_0000)
                                by (nonlinear_arith)
                                requires
                                    0 <= j as int <= 0x10_0000,
                                    0 <= fv.gw <= 0x10_0000,
                            ;
                            lemma_dims_from_len(
                                font.fontimg.width as int,
                                font.fontimg.height as int,
                                font@.img.buf.len() as int,
                            );
                        }
                        let cell: i64 = (j as i64) * font.glyph_width;
                        proof {
                            vstd::arithmetic::div_mod::lemma_mod_bound(
                                cell as int,
                                font.fontimg.width as int,
                            );
                            vstd::arithmetic::div_mod::lemma_div_pos_is_pos(
                                cell as int,
                                font.fontimg.width as int,
                            );
                            vstd::arithmetic::div_mod::lemma_div_nonincreasing(
                                cell as int,
                                font.fontimg.width as int,
                            );
                            assert(cell as int / (font.fontimg.width as int) <= cell as int);
                            assert((cell as int / (font.fontimg.width as int)) * (fv.gh)
                                <= 0x100_0000_0000 * 0x10_0000 && 0 <= (cell as int / (
                            font.fontimg.width as int)) * fv.gh) by (nonlinear_arith)
                                requires
                                    0 <= cell as int / (font.fontimg.width as int)
                                        <= 0x100_0000_0000,
                                    0 <= fv.gh <= 0x10_0000,
                            ;
                        }
                        let rectx: i64 = cell % (font.fontimg.width as i64);
                        let recty: i64 = (cell / (font.fontimg.width as i64)) * font.glyph_height;
                        self.pimgrect(
                            &font.fontimg,
                            x + jumpx,
                            y + jumpy,
                            rectx,
                            recty,
                            font.glyph_width,
                            font.glyph_height,
                        );
                        jumpx = jumpx + (font.glyph_width + font.glyph_spacing);
                        proof {
                            lemma_pimgrect_s_cfg(
                                print_glyph_scan(
                                    cpre,
                                    fv,
                                    ch,
                                    x as int,
                                    y as int,
                                    jx0,
                                    jy0,
                                    j as nat,
                                ).0,
                                fv.img,
                                x + print_glyph_scan(
                                    cpre,
                                    fv,
                                    ch,
                                    x as int,
                                    y as int,
                                    jx0,
                                    jy0,
                                    j as nat,
                                ).1,
                                y + jy0,
                                ((j as int) * fv.gw) % (fv.img.width as int),
                                (((j as int) * fv.gw) / (fv.img.width as int)) * fv.gh,
                                fv.gw,
                                fv.gh,
                            );
                        }
                    }
                    j = j + 1;
                }
                if wrap_width.is_some() {
                    let wv = match wrap_width {
                        Some(v) => v,
                        None => 0,
                    };
                    if jumpx > wv as i64 {
                        jumpy = jumpy + (font.glyph_height + newline_space);
                        jumpx = 0;
                    }
                }
            }
            proof {
                i = i + 1;
            }
        }
    }
}

} // verus!
