//! The parallel-dispatch wrapper: a master [`Rasterizer`] plus a grid of
//! independent partition rasterizers, each covering a rectangular region of
//! the master and tagged with its offset. Large fill-type operations are
//! dispatched per partition in that partition's local coordinates and the
//! partition buffers are then recomposited (raw-blitted) back into the master
//! in partition order; small operations run directly on the master.
//!
//! Partitions occupy disjoint regions, so the recomposition order cannot
//! matter; the per-partition work is pure computation on disjoint buffers and
//! may run on worker threads (the embedding layer owns that fan-out), while
//! this module verifies the dispatch decision, the per-partition drawing and
//! the recomposition.

use vstd::prelude::*;

use crate::color::Color;
use crate::rasterizer::{
    Canvas, DrawMode, Rasterizer, clear_s, flood_s, mode_implemented, same_cfg, draw_pts,
    pget_s, pset_s, lemma_dims_from_len, lemma_draw_pts_cfg,
};
use crate::primitives::{
    abs_s, blit_s, clamp_s, grid_fold, line_pts, pcircle_s, pimg_s, pimgrect_s, prect_s,
    lemma_prect_s_cfg, lemma_pcircle_s_cfg, lemma_pimg_s_cfg, lemma_pimgrect_s_cfg,
    lemma_blit_s_cfg,
};
use crate::transform::{pimgmtx_s, lemma_pimgmtx_s_cfg};

verus! {

/// Pixel-area thresholds above which a fill-type operation is dispatched to
/// the partitions instead of run serially on the master.
#[derive(Clone, Copy, Debug, PartialEq, Eq, Structural)]
pub enum BoundingParallelThreshold {
    Always,
    High,
    Medium,
    Low,
    VeryLow,
}

impl BoundingParallelThreshold {
    /// The threshold's pixel count.
    pub open spec fn value_s(self) -> int {
        match self {
            BoundingParallelThreshold::Always => 0,
            BoundingParallelThreshold::High => 8192,
            BoundingParallelThreshold::Medium => 16384,
            BoundingParallelThreshold::Low => 32768,
            BoundingParallelThreshold::VeryLow => 65536,
        }
    }

    /// The least squared radius whose disc area reaches this threshold: the
    /// smallest integer `k` with `pi * k >= value_s()`, so comparing a
    /// squared radius against it decides `pi * r * r >= value_s()` exactly.
    pub open spec fn circle_area_floor_s(self) -> int {
        match self {
            BoundingParallelThreshold::Always => 0,
            BoundingParallelThreshold::High => 2608,
            BoundingParallelThreshold::Medium => 5216,
            BoundingParallelThreshold::Low => 10431,
            BoundingParallelThreshold::VeryLow => 20861,
        }
    }

    /// The least squared radius whose disc area reaches this threshold.
    pub fn circle_area_floor(&self) -> (v: u64)
        ensures
            v as int == self.circle_area_floor_s(),
    {
        match self {
            BoundingParallelThreshold::Always => 0,
            BoundingParallelThreshold::High => 2608,
            BoundingParallelThreshold::Medium => 5216,
            BoundingParallelThreshold::Low => 10431,
            BoundingParallelThreshold::VeryLow => 20861,
        }
    }

    /// The threshold's pixel count.
    pub fn value(&self) -> (v: u64)
        ensures
            v as int == self.value_s(),
    {
        match self {
            BoundingParallelThreshold::Always => 0,
            BoundingParallelThreshold::High => 8192,
            BoundingParallelThreshold::Medium => 16384,
            BoundingParallelThreshold::Low => 32768,
            BoundingParallelThreshold::VeryLow => 65536,
        }
    }
}

/// The supported partition grids.
#[derive(Clone, Copy, Debug, PartialEq, Eq, Structural)]
pub enum PartitionScheme {
    Full,
    Split2x1,
    Split1x2,
    Split2x2,
    Split3x1,
    Split3x2,
    Split3x3,
    Split4x4,
    Split5x5,
    Split8x8,
}

impl PartitionScheme {
    /// Number of partition columns.
    pub open spec fn cols_s(self) -> int {
        match self {
            PartitionScheme::Full => 1,
            PartitionScheme::Split2x1 => 1,
            PartitionScheme::Split1x2 => 2,
            PartitionScheme::Split2x2 => 2,
            PartitionScheme::Split3x1 => 3,
            PartitionScheme::Split3x2 => 3,
            PartitionScheme::Split3x3 => 3,
            PartitionScheme::Split4x4 => 4,
            PartitionScheme::Split5x5 => 5,
            PartitionScheme::Split8x8 => 8,
        }
    }

    /// Number of partition rows.
    pub open spec fn rows_s(self) -> int {
        match self {
            PartitionScheme::Full => 1,
            PartitionScheme::Split2x1 => 2,
            PartitionScheme::Split1x2 => 1,
            PartitionScheme::Split2x2 => 2,
            PartitionScheme::Split3x1 => 1,
            PartitionScheme::Split3x2 => 2,
            PartitionScheme::Split3x3 => 3,
            PartitionScheme::Split4x4 => 4,
            PartitionScheme::Split5x5 => 5,
            PartitionScheme::Split8x8 => 8,
        }
    }
}

/// The grid shape chosen for a detected or declared core count: a fixed
/// lookup table, with a two-core machine split along its longer axis and
/// unknown high counts falling back to the densest grid.
pub open spec fn scheme_for(n: int, w: int, h: int) -> PartitionScheme {
    if n <= 1 {
        PartitionScheme::Full
    } else if n == 2 {
        if h > w {
            PartitionScheme::Split2x1
        } else {
            PartitionScheme::Split1x2
        }
    } else if n == 3 {
        PartitionScheme::Split3x1
    } else if n == 4 || n == 5 {
        PartitionScheme::Split2x2
    } else if n == 6 {
        PartitionScheme::Split3x2
    } else if n == 8 || n == 10 {
        PartitionScheme::Split3x3
    } else if n == 12 || n == 16 {
        PartitionScheme::Split4x4
    } else if n == 20 || n == 24 {
        PartitionScheme::Split5x5
    } else if n > 24 {
        PartitionScheme::Split8x8
    } else {
        PartitionScheme::Split4x4
    }
}

/// The state a fresh partition tile starts in: zeroed buffer, default drawing
/// state, tagged with its offset inside the master.
pub open spec fn fresh_canvas(w: nat, h: nat, ox: nat, oy: nat) -> Canvas {
    Canvas {
        width: w,
        height: h,
        buf: Seq::new(w * h * 4, |i: int| 0u8),
        mode: DrawMode::Opaque,
        tint: Color { r: 255u8, g: 255u8, b: 255u8, a: 255u8 },
        opacity: 255u8,
        off_x: ox,
        off_y: oy,
        drawn: 0u64,
        collected: Seq::<(i64, i64, Color)>::empty(),
        anim: false,
        anim_folder: "./"@,
        cam_pos: (0i64, 0i64),
        cam_rot: (65536i64, 0i64),
        cam_scale: (65536i64, 65536i64),
        cam_mtx: (65536i128, 0i128, 0i128, 0i128, 65536i128, 0i128),
    }
}

/// A cols x rows grid of fresh partitions over a w x h master, row-major:
/// partition i covers the cell at column i % cols, row i / cols, each cell
/// `w / cols` x `h / rows` pixels.
pub open spec fn grid_parts(w: nat, h: nat, cols: int, rows: int) -> Seq<Canvas> {
    Seq::new(
        (cols * rows) as nat,
        |i: int|
            fresh_canvas(
                (w as int / cols) as nat,
                (h as int / rows) as nat,
                ((i % cols) * (w as int / cols)) as nat,
                ((i / cols) * (h as int / rows)) as nat,
            ),
    )
}

/// The mathematical state of a partitioned rasterizer.
pub ghost struct PartsView {
    pub master: Canvas,
    pub parts: Seq<Canvas>,
    pub scheme: PartitionScheme,
    pub threshold: BoundingParallelThreshold,
}

impl PartsView {
    /// Every buffer is well-formed and every partition fits inside the
    /// master's dimensions.
    pub open spec fn wf(self) -> bool {
        &&& self.master.wf()
        &&& forall|i: int|
            0 <= i < self.parts.len() ==> {
                &&& (#[trigger] self.parts[i]).wf()
                &&& self.parts[i].off_x + self.parts[i].width <= self.master.width
                &&& self.parts[i].off_y + self.parts[i].height <= self.master.height
            }
    }
}

/// A rasterizer that supports parallel rendering by partitioning the image
/// into independent tiles, sized by the machine's core count.
pub struct PartitionedRasterizer {
    pub rasterizer: Rasterizer,
    pub partitions: Vec<Rasterizer>,
    pub scheme: PartitionScheme,
    pub threshold: BoundingParallelThreshold,
}

impl View for PartitionedRasterizer {
    type V = PartsView;

    open spec fn view(&self) -> PartsView {
        PartsView {
            master: self.rasterizer@,
            parts: self.partitions@.map_values(|r: Rasterizer| r@),
            scheme: self.scheme,
            threshold: self.threshold,
        }
    }
}

/// Relies on num_cpus::get: the number of logical cores, always at least 1.
#[verifier::external_body]
fn detect_cpus() -> (n: usize)
    ensures
        n >= 1,
{
    num_cpus::get()
}

/// One step of a per-partition dispatch: run the per-partition effect on
/// partition `k - 1`, then recomposite (raw-blit) its buffer into the master
/// at its offset.
pub open spec fn fan_s(m: Canvas, parts: Seq<Canvas>, k: nat, op: spec_fn(Canvas) -> Canvas) -> (
    Canvas,
    Seq<Canvas>,
)
    decreases k,
{
    if k == 0 {
        (m, parts)
    } else {
        let prev = fan_s(m, parts, (k - 1) as nat, op);
        let p = prev.1[k - 1];
        let p2 = op(p);
        (blit_s(prev.0, p2, p.off_x as int, p.off_y as int), prev.1.update(k - 1, p2))
    }
}

/// Partitions at or beyond the step count are untouched by the fan, and the
/// partition list's length never changes.
pub proof fn lemma_fan_suffix(
    m: Canvas,
    parts: Seq<Canvas>,
    k: nat,
    op: spec_fn(Canvas) -> Canvas,
)
    requires
        k <= parts.len(),
    ensures
        fan_s(m, parts, k, op).1.len() == parts.len(),
        forall|j: int| k <= j < parts.len() ==> fan_s(m, parts, k, op).1[j] == parts[j],
    decreases k,
{
    if k > 0 {
        lemma_fan_suffix(m, parts, (k - 1) as nat, op);
    }
}

/// Every partition the fan has reached holds the per-partition effect of its
/// original state.
pub proof fn lemma_fan_parts(
    m: Canvas,
    parts: Seq<Canvas>,
    k: nat,
    op: spec_fn(Canvas) -> Canvas,
)
    requires
        k <= parts.len(),
    ensures
        forall|i: int| 0 <= i < k ==> fan_s(m, parts, k, op).1[i] == op(parts[i]),
    decreases k,
{
    if k > 0 {
        lemma_fan_parts(m, parts, (k - 1) as nat, op);
        lemma_fan_suffix(m, parts, (k - 1) as nat, op);
    }
}

/// The per-partition effect of a dispatched rectangle: the same rectangle in
/// the partition's local coordinates.
pub open spec fn rect_op(filled: bool, x: int, y: int, w: int, h: int, col: Color) -> spec_fn(
    Canvas,
) -> Canvas {
    |p: Canvas| prect_s(p, filled, x - p.off_x, y - p.off_y, w, h, col)
}

/// The per-partition effect of a dispatched circle; a degenerate partition
/// with no pixels is left as it is.
pub open spec fn circle_op(filled: bool, xc: int, yc: int, r: int, col: Color) -> spec_fn(
    Canvas,
) -> Canvas {
    |p: Canvas|
        if p.width > 0 && p.height > 0 {
            pcircle_s(p, filled, xc - p.off_x, yc - p.off_y, r, col)
        } else {
            p
        }
}

/// The per-partition effect of a dispatched image blit.
pub open spec fn img_op(src: Canvas, x: int, y: int) -> spec_fn(Canvas) -> Canvas {
    |p: Canvas| pimg_s(p, src, x - p.off_x, y - p.off_y)
}

/// The per-partition effect of a dispatched tiled blit.
pub open spec fn imgrect_op(
    src: Canvas,
    x: int,
    y: int,
    rx: int,
    ry: int,
    rw: int,
    rh: int,
) -> spec_fn(Canvas) -> Canvas {
    |p: Canvas| pimgrect_s(p, src, x - p.off_x, y - p.off_y, rx, ry, rw, rh)
}

/// The partitions of a cols x rows grid exactly fit inside the master.
pub proof fn lemma_grid_parts_wf(w: nat, h: nat, cols: int, rows: int)
    requires
        1 <= cols,
        1 <= rows,
    ensures
        forall|i: int|
            0 <= i < grid_parts(w, h, cols, rows).len() ==> {
                &&& (#[trigger] grid_parts(w, h, cols, rows)[i]).wf()
                &&& grid_parts(w, h, cols, rows)[i].off_x + grid_parts(w, h, cols, rows)[i].width
                    <= w
                &&& grid_parts(w, h, cols, rows)[i].off_y + grid_parts(w, h, cols, rows)[i].height
                    <= h
            },
{
    let cw = w as int / cols;
    let ch = h as int / rows;
    assert forall|i: int| 0 <= i < grid_parts(w, h, cols, rows).len() implies {
        &&& (#[trigger] grid_parts(w, h, cols, rows)[i]).wf()
        &&& grid_parts(w, h, cols, rows)[i].off_x + grid_parts(w, h, cols, rows)[i].width <= w
        &&& grid_parts(w, h, cols, rows)[i].off_y + grid_parts(w, h, cols, rows)[i].height <= h
    } by {
        vstd::arithmetic::div_mod::lemma_mod_bound(i, cols);
        vstd::arithmetic::div_mod::lemma_fundamental_div_mod(w as int, cols);
        vstd::arithmetic::div_mod::lemma_fundamental_div_mod(h as int, rows);
        vstd::arithmetic::div_mod::lemma_div_pos_is_pos(w as int, cols);
        vstd::arithmetic::div_mod::lemma_div_pos_is_pos(h as int, rows);
        assert(0 <= i / cols < rows) by {
            vstd::arithmetic::div_mod::lemma_div_pos_is_pos(i, cols);
            vstd::arithmetic::div_mod::lemma_multiply_divide_lt(i, cols, rows);
        }
        assert((i % cols) * cw + cw <= cols * cw && (i / cols) * ch + ch <= rows * ch)
            by (nonlinear_arith)
            requires
                0 <= i % cols < cols,
                0 <= i / cols < rows,
                cw >= 0,
                ch >= 0,
        ;
        assert(cols * cw <= w && rows * ch <= h) by (nonlinear_arith)
            requires
                w as int == cols * cw + (w as int) % cols,
                h as int == rows * ch + (h as int) % rows,
                0 <= (w as int) % cols,
                0 <= (h as int) % rows,
        ;
    }
}

/// The per-partition effect of a dispatched transformed blit: the position
/// moves by the partition offset in fixed point.
pub open spec fn imgmtx_op(
    src: Canvas,
    x: int,
    y: int,
    cos: int,
    sin: int,
    sx: int,
    sy: int,
    pvx: int,
    pvy: int,
) -> spec_fn(Canvas) -> Canvas {
    |p: Canvas|
        pimgmtx_s(
            p,
            src,
            x - (p.off_x as int) * 65536,
            y - (p.off_y as int) * 65536,
            cos,
            sin,
            sx,
            sy,
            pvx,
            pvy,
        )
}

impl PartitionedRasterizer {
    /// Draw a rectangle: above the area threshold and filled, dispatch it to
    /// every partition in local coordinates and recomposite; otherwise run it
    /// directly on the master.
    pub fn prectangle(&mut self, filled: bool, x: i64, y: i64, width: i64, height: i64, color: Color)
        requires
            old(self)@.wf(),
            old(self)@.master.width > 0,
            old(self)@.master.height > 0,
        ensures
            final(self)@.wf(),
            final(self)@.scheme == old(self)@.scheme,
            final(self)@.threshold == old(self)@.threshold,
            ({
                let op = rect_op(filled, x as int, y as int, width as int, height as int, color);
                if filled && (width as int) * (height as int) >= old(self)@.threshold.value_s() {
                    let st = fan_s(old(self)@.master, old(self)@.parts, old(self)@.parts.len(), op);
                    final(self)@.master == st.0 && final(self)@.parts == st.1
                } else {
                    final(self)@.master == prect_s(
                        old(self)@.master,
                        filled,
                        x as int,
                        y as int,
                        width as int,
                        height as int,
                        color,
                    ) && final(self)@.parts == old(self)@.parts
                }
            }),
    {
        proof {
            assert(forall|a: int, b: int|
                (-0x8000_0000_0000_0000 <= a < 0x8000_0000_0000_0000 && -0x8000_0000_0000_0000
                    <= b < 0x8000_0000_0000_0000) ==> -0x4000_0000_0000_0000_0000_0000_0000_0000
                    <= #[trigger] (a * b) <= 0x4000_0000_0000_0000_0000_0000_0000_0000)
                by (nonlinear_arith);
        }
        let total_area: i128 = (width as i128) * (height as i128);
        let thr = self.threshold.value();
        let n0 = self.rasterizer.color.len();
        proof {
            lemma_dims_from_len(
                self.rasterizer.width as int,
                self.rasterizer.height as int,
                self@.master.buf.len() as int,
            );
        }
        if filled && total_area >= thr as i128 {
            let ghost v0 = self@;
            let ghost op = rect_op(filled, x as int, y as int, width as int, height as int, color);
            let ghost n = v0.parts.len();
            let mut done: Vec<Rasterizer> = Vec::new();
            while self.partitions.len() > 0
                invariant
                    done@.len() + self.partitions@.len() == n,
                    n == v0.parts.len(),
                    v0.wf(),
                    v0.master.width > 0,
                    v0.master.height > 0,
                    4 * v0.master.width <= usize::MAX,
                    4 * v0.master.height <= usize::MAX,
                    self.scheme == v0.scheme,
                    self.threshold == v0.threshold,
                    self.rasterizer.wf(),
                    self.rasterizer@.width == v0.master.width,
                    self.rasterizer@.height == v0.master.height,
                    op == rect_op(filled, x as int, y as int, width as int, height as int, color),
                    self.rasterizer@ == fan_s(v0.master, v0.parts, done@.len() as nat, op).0,
                    forall|i: int|
                        0 <= i < done@.len() ==> (#[trigger] done@[i])@ == fan_s(
                            v0.master,
                            v0.parts,
                            done@.len() as nat,
                            op,
                        ).1[i],
                    forall|i: int|
                        0 <= i < self.partitions@.len() ==> (#[trigger] self.partitions@[i])@
                            == v0.parts[done@.len() + i],
                decreases self.partitions@.len(),
            {
                let ghost k = done@.len() as nat;
                proof {
                    lemma_fan_suffix(v0.master, v0.parts, k, op);
                    lemma_fan_parts(v0.master, v0.parts, k, op);
                }
                let mut part = self.partitions.remove(0);
                let ox = part.offset_x;
                let oy = part.offset_y;
                let ghost p_pre = part@;
                let rxw: i128 = x as i128 - ox as i128;
                let ryw: i128 = y as i128 - oy as i128;
                if rxw >= (i64::MIN as i128) && ryw >= (i64::MIN as i128) {
                    part.prectangle(filled, rxw as i64, ryw as i64, width, height, color);
                } else {
                    proof {
                        assert(op(p_pre) == p_pre);
                    }
                }
                proof {
                    lemma_prect_s_cfg(
                        p_pre,
                        filled,
                        x - p_pre.off_x,
                        y - p_pre.off_y,
                        width as int,
                        height as int,
                        color,
                    );
                    assert(part@ == op(p_pre));
                }
                let ghost m_pre = self.rasterizer@;
                self.rasterizer.blit(&part, ox as i64, oy as i64);
                done.push(part);
                proof {
                    lemma_blit_s_cfg(m_pre, part@, ox as int, oy as int);
                    lemma_fan_suffix(v0.master, v0.parts, (k + 1) as nat, op);
                    lemma_fan_parts(v0.master, v0.parts, (k + 1) as nat, op);
                }
            }
            self.partitions = done;
            proof {
                lemma_fan_parts(v0.master, v0.parts, n, op);
                lemma_fan_suffix(v0.master, v0.parts, n, op);
                assert(self@.parts =~= fan_s(v0.master, v0.parts, n, op).1);
                assert forall|i: int| 0 <= i < self@.parts.len() implies {
                    &&& (#[trigger] self@.parts[i]).wf()
                    &&& self@.parts[i].off_x + self@.parts[i].width <= self@.master.width
                    &&& self@.parts[i].off_y + self@.parts[i].height <= self@.master.height
                } by {
                    lemma_prect_s_cfg(
                        v0.parts[i],
                        filled,
                        x - v0.parts[i].off_x,
                        y - v0.parts[i].off_y,
                        width as int,
                        height as int,
                        color,
                    );
                }
            }
        } else {
            let ghost m0 = self@.master;
            self.rasterizer.prectangle(filled, x, y, width, height, color);
            proof {
                lemma_prect_s_cfg(
                    m0,
                    filled,
                    x as int,
                    y as int,
                    width as int,
                    height as int,
                    color,
                );
            }
        }
    }
}

impl PartitionedRasterizer {
    /// Zero every buffer, master and partitions, and reset their drawn-pixel counters.
    pub fn clear(&mut self )
        requires
            old(self)@.wf(),
        ensures
            final(self)@.wf(),
            final(self)@.scheme == old(self)@.scheme,
            final(self)@.threshold == old(self)@.threshold,
            final(self)@.master == clear_s(old(self)@.master),
            final(self)@.parts.len() == old(self)@.parts.len(),
            forall|i: int|
                0 <= i < old(self)@.parts.len() ==> final(self)@.parts[i] == clear_s(#[trigger] old(self)@.parts[i]),
    {
        let ghost v0 = self@;
        self.rasterizer.clear();
        let ghost n = v0.parts.len();
        let mut done: Vec<Rasterizer> = Vec::new();
        while self.partitions.len() > 0
            invariant
                done@.len() + self.partitions@.len() == n,
                n == v0.parts.len(),
                v0.wf(),
                self.scheme == v0.scheme,
                self.threshold == v0.threshold,
                self.rasterizer@ == clear_s(v0.master),
                forall|i: int|
                    0 <= i < done@.len() ==> (#[trigger] done@[i])@ == clear_s(v0.parts[i]),
                forall|i: int|
                    0 <= i < self.partitions@.len() ==> (#[trigger] self.partitions@[i])@
                        == v0.parts[done@.len() + i],
            decreases self.partitions@.len(),
        {
            let mut p = self.partitions.remove(0);
            p.clear();
            done.push(p);
        }
        self.partitions = done;
        proof {
            assert forall|i: int| 0 <= i < self@.parts.len() implies {
                &&& (#[trigger] self@.parts[i]).wf()
                &&& self@.parts[i].off_x + self@.parts[i].width <= self@.master.width
                &&& self@.parts[i].off_y + self@.parts[i].height <= self@.master.height
            } by {
                assert(v0.parts[i].wf());
            }
        }
    }

    /// Flood-fill every buffer, master and partitions, with one color.
    pub fn clear_color(&mut self , color: Color)
        requires
            old(self)@.wf(),
        ensures
            final(self)@.wf(),
            final(self)@.scheme == old(self)@.scheme,
            final(self)@.threshold == old(self)@.threshold,
            final(self)@.master == flood_s(old(self)@.master, color),
            final(self)@.parts.len() == old(self)@.parts.len(),
            forall|i: int|
                0 <= i < old(self)@.parts.len() ==> final(self)@.parts[i] == flood_s(#[trigger] old(self)@.parts[i], color),
    {
        let ghost v0 = self@;
        self.rasterizer.clear_color(color);
        let ghost n = v0.parts.len();
        let mut done: Vec<Rasterizer> = Vec::new();
        while self.partitions.len() > 0
            invariant
                done@.len() + self.partitions@.len() == n,
                n == v0.parts.len(),
                v0.wf(),
                self.scheme == v0.scheme,
                self.threshold == v0.threshold,
                self.rasterizer@ == flood_s(v0.master, color),
                forall|i: int|
                    0 <= i < done@.len() ==> (#[trigger] done@[i])@ == flood_s(v0.parts[i], color),
                forall|i: int|
                    0 <= i < self.partitions@.len() ==> (#[trigger] self.partitions@[i])@
                        == v0.parts[done@.len() + i],
            decreases self.partitions@.len(),
        {
            let mut p = self.partitions.remove(0);
            p.clear_color(color);
            done.push(p);
        }
        self.partitions = done;
        proof {
            assert forall|i: int| 0 <= i < self@.parts.len() implies {
                &&& (#[trigger] self@.parts[i]).wf()
                &&& self@.parts[i].off_x + self@.parts[i].width <= self@.master.width
                &&& self@.parts[i].off_y + self@.parts[i].height <= self@.master.height
            } by {
                assert(v0.parts[i].wf());
            }
        }
    }

    /// Select the compositing mode on the master and every partition.
    pub fn set_draw_mode(&mut self , mode: DrawMode)
        requires
            old(self)@.wf(),
        ensures
            final(self)@.wf(),
            final(self)@.scheme == old(self)@.scheme,
            final(self)@.threshold == old(self)@.threshold,
            final(self)@.master == (if mode_implemented(mode) { Canvas { mode, ..old(self)@.master } } else { old(self)@.master }),
            final(self)@.parts.len() == old(self)@.parts.len(),
            forall|i: int|
                0 <= i < old(self)@.parts.len() ==> final(self)@.parts[i] == (if mode_implemented(mode) { Canvas { mode, ..(#[trigger] old(self)@.parts[i]) } } else { old(self)@.parts[i] }),
    {
        let ghost v0 = self@;
        self.rasterizer.set_draw_mode(mode);
        let ghost n = v0.parts.len();
        let mut done: Vec<Rasterizer> = Vec::new();
        while self.partitions.len() > 0
            invariant
                done@.len() + self.partitions@.len() == n,
                n == v0.parts.len(),
                v0.wf(),
                self.scheme == v0.scheme,
                self.threshold == v0.threshold,
                self.rasterizer@ == (if mode_implemented(mode) { Canvas { mode, ..v0.master } } else { v0.master }),
                forall|i: int|
                    0 <= i < done@.len() ==> (#[trigger] done@[i])@ == (if mode_implemented(mode) { Canvas { mode, ..v0.parts[i] } } else { v0.parts[i] }),
                forall|i: int|
                    0 <= i < self.partitions@.len() ==> (#[trigger] self.partitions@[i])@
                        == v0.parts[done@.len() + i],
            decreases self.partitions@.len(),
        {
            let mut p = self.partitions.remove(0);
            p.set_draw_mode(mode);
            done.push(p);
        }
        self.partitions = done;
        proof {
            assert forall|i: int| 0 <= i < self@.parts.len() implies {
                &&& (#[trigger] self@.parts[i]).wf()
                &&& self@.parts[i].off_x + self@.parts[i].width <= self@.master.width
                &&& self@.parts[i].off_y + self@.parts[i].height <= self@.master.height
            } by {
                assert(v0.parts[i].wf());
            }
        }
    }

    /// Set the tint on the master and every partition.
    pub fn set_tint(&mut self , color: Color)
        requires
            old(self)@.wf(),
        ensures
            final(self)@.wf(),
            final(self)@.scheme == old(self)@.scheme,
            final(self)@.threshold == old(self)@.threshold,
            final(self)@.master == (Canvas { tint: color, ..old(self)@.master }),
            final(self)@.parts.len() == old(self)@.parts.len(),
            forall|i: int|
                0 <= i < old(self)@.parts.len() ==> final(self)@.parts[i] == (Canvas { tint: color, ..(#[trigger] old(self)@.parts[i]) }),
    {
        let ghost v0 = self@;
        self.rasterizer.tint = color;
        let ghost n = v0.parts.len();
        let mut done: Vec<Rasterizer> = Vec::new();
        while self.partitions.len() > 0
            invariant
                done@.len() + self.partitions@.len() == n,
                n == v0.parts.len(),
                v0.wf(),
                self.scheme == v0.scheme,
                self.threshold == v0.threshold,
                self.rasterizer@ == (Canvas { tint: color, ..v0.master }),
                forall|i: int|
                    0 <= i < done@.len() ==> (#[trigger] done@[i])@ == (Canvas { tint: color, ..v0.parts[i] }),
                forall|i: int|
                    0 <= i < self.partitions@.len() ==> (#[trigger] self.partitions@[i])@
                        == v0.parts[done@.len() + i],
            decreases self.partitions@.len(),
        {
            let mut p = self.partitions.remove(0);
            p.tint = color;
            done.push(p);
        }
        self.partitions = done;
        proof {
            assert forall|i: int| 0 <= i < self@.parts.len() implies {
                &&& (#[trigger] self@.parts[i]).wf()
                &&& self@.parts[i].off_x + self@.parts[i].width <= self@.master.width
                &&& self@.parts[i].off_y + self@.parts[i].height <= self@.master.height
            } by {
                assert(v0.parts[i].wf());
            }
        }
    }

    /// Set the opacity byte on the master and every partition.
    pub fn set_opacity(&mut self , opacity: u8)
        requires
            old(self)@.wf(),
        ensures
            final(self)@.wf(),
            final(self)@.scheme == old(self)@.scheme,
            final(self)@.threshold == old(self)@.threshold,
            final(self)@.master == (Canvas { opacity, ..old(self)@.master }),
            final(self)@.parts.len() == old(self)@.parts.len(),
            forall|i: int|
                0 <= i < old(self)@.parts.len() ==> final(self)@.parts[i] == (Canvas { opacity, ..(#[trigger] old(self)@.parts[i]) }),
    {
        let ghost v0 = self@;
        self.rasterizer.opacity = opacity;
        let ghost n = v0.parts.len();
        let mut done: Vec<Rasterizer> = Vec::new();
        while self.partitions.len() > 0
            invariant
                done@.len() + self.partitions@.len() == n,
                n == v0.parts.len(),
                v0.wf(),
                self.scheme == v0.scheme,
                self.threshold == v0.threshold,
                self.rasterizer@ == (Canvas { opacity, ..v0.master }),
                forall|i: int|
                    0 <= i < done@.len() ==> (#[trigger] done@[i])@ == (Canvas { opacity, ..v0.parts[i] }),
                forall|i: int|
                    0 <= i < self.partitions@.len() ==> (#[trigger] self.partitions@[i])@
                        == v0.parts[done@.len() + i],
            decreases self.partitions@.len(),
        {
            let mut p = self.partitions.remove(0);
            p.opacity = opacity;
            done.push(p);
        }
        self.partitions = done;
        proof {
            assert forall|i: int| 0 <= i < self@.parts.len() implies {
                &&& (#[trigger] self@.parts[i]).wf()
                &&& self@.parts[i].off_x + self@.parts[i].width <= self@.master.width
                &&& self@.parts[i].off_y + self@.parts[i].height <= self@.master.height
            } by {
                assert(v0.parts[i].wf());
            }
        }
    }

    /// Set the camera position (fixed point) on the master and every partition.
    pub fn set_camera_position(&mut self , x: i64, y: i64)
        requires
            old(self)@.wf(),
        ensures
            final(self)@.wf(),
            final(self)@.scheme == old(self)@.scheme,
            final(self)@.threshold == old(self)@.threshold,
            final(self)@.master == (Canvas { cam_pos: (x, y), ..old(self)@.master }),
            final(self)@.parts.len() == old(self)@.parts.len(),
            forall|i: int|
                0 <= i < old(self)@.parts.len() ==> final(self)@.parts[i] == (Canvas { cam_pos: (x, y), ..(#[trigger] old(self)@.parts[i]) }),
    {
        let ghost v0 = self@;
        self.rasterizer.camera_position = (x, y);
        let ghost n = v0.parts.len();
        let mut done: Vec<Rasterizer> = Vec::new();
        while self.partitions.len() > 0
            invariant
                done@.len() + self.partitions@.len() == n,
                n == v0.parts.len(),
                v0.wf(),
                self.scheme == v0.scheme,
                self.threshold == v0.threshold,
                self.rasterizer@ == (Canvas { cam_pos: (x, y), ..v0.master }),
                forall|i: int|
                    0 <= i < done@.len() ==> (#[trigger] done@[i])@ == (Canvas { cam_pos: (x, y), ..v0.parts[i] }),
                forall|i: int|
                    0 <= i < self.partitions@.len() ==> (#[trigger] self.partitions@[i])@
                        == v0.parts[done@.len() + i],
            decreases self.partitions@.len(),
        {
            let mut p = self.partitions.remove(0);
            p.camera_position = (x, y);
            done.push(p);
        }
        self.partitions = done;
        proof {
            assert forall|i: int| 0 <= i < self@.parts.len() implies {
                &&& (#[trigger] self@.parts[i]).wf()
                &&& self@.parts[i].off_x + self@.parts[i].width <= self@.master.width
                &&& self@.parts[i].off_y + self@.parts[i].height <= self@.master.height
            } by {
                assert(v0.parts[i].wf());
            }
        }
    }

    /// Set the camera rotation pair (fixed point) on the master and every partition.
    pub fn set_camera_rotation(&mut self , cos: i64, sin: i64)
        requires
            old(self)@.wf(),
        ensures
            final(self)@.wf(),
            final(self)@.scheme == old(self)@.scheme,
            final(self)@.threshold == old(self)@.threshold,
            final(self)@.master == (Canvas { cam_rot: (cos, sin), ..old(self)@.master }),
            final(self)@.parts.len() == old(self)@.parts.len(),
            forall|i: int|
                0 <= i < old(self)@.parts.len() ==> final(self)@.parts[i] == (Canvas { cam_rot: (cos, sin), ..(#[trigger] old(self)@.parts[i]) }),
    {
        let ghost v0 = self@;
        self.rasterizer.camera_rotation = (cos, sin);
        let ghost n = v0.parts.len();
        let mut done: Vec<Rasterizer> = Vec::new();
        while self.partitions.len() > 0
            invariant
                done@.len() + self.partitions@.len() == n,
                n == v0.parts.len(),
                v0.wf(),
                self.scheme == v0.scheme,
                self.threshold == v0.threshold,
                self.rasterizer@ == (Canvas { cam_rot: (cos, sin), ..v0.master }),
                forall|i: int|
                    0 <= i < done@.len() ==> (#[trigger] done@[i])@ == (Canvas { cam_rot: (cos, sin), ..v0.parts[i] }),
                forall|i: int|
                    0 <= i < self.partitions@.len() ==> (#[trigger] self.partitions@[i])@
                        == v0.parts[done@.len() + i],
            decreases self.partitions@.len(),
        {
            let mut p = self.partitions.remove(0);
            p.camera_rotation = (cos, sin);
            done.push(p);
        }
        self.partitions = done;
        proof {
            assert forall|i: int| 0 <= i < self@.parts.len() implies {
                &&& (#[trigger] self@.parts[i]).wf()
                &&& self@.parts[i].off_x + self@.parts[i].width <= self@.master.width
                &&& self@.parts[i].off_y + self@.parts[i].height <= self@.master.height
            } by {
                assert(v0.parts[i].wf());
            }
        }
    }

    /// Set the camera scale (fixed point) on the master and every partition.
    pub fn set_camera_scale(&mut self , x: i64, y: i64)
        requires
            old(self)@.wf(),
        ensures
            final(self)@.wf(),
            final(self)@.scheme == old(self)@.scheme,
            final(self)@.threshold == old(self)@.threshold,
            final(self)@.master == (Canvas { cam_scale: (x, y), ..old(self)@.master }),
            final(self)@.parts.len() == old(self)@.parts.len(),
            forall|i: int|
                0 <= i < old(self)@.parts.len() ==> final(self)@.parts[i] == (Canvas { cam_scale: (x, y), ..(#[trigger] old(self)@.parts[i]) }),
    {
        let ghost v0 = self@;
        self.rasterizer.camera_scale = (x, y);
        let ghost n = v0.parts.len();
        let mut done: Vec<Rasterizer> = Vec::new();
        while self.partitions.len() > 0
            invariant
                done@.len() + self.partitions@.len() == n,
                n == v0.parts.len(),
                v0.wf(),
                self.scheme == v0.scheme,
                self.threshold == v0.threshold,
                self.rasterizer@ == (Canvas { cam_scale: (x, y), ..v0.master }),
                forall|i: int|
                    0 <= i < done@.len() ==> (#[trigger] done@[i])@ == (Canvas { cam_scale: (x, y), ..v0.parts[i] }),
                forall|i: int|
                    0 <= i < self.partitions@.len() ==> (#[trigger] self.partitions@[i])@
                        == v0.parts[done@.len() + i],
            decreases self.partitions@.len(),
        {
            let mut p = self.partitions.remove(0);
            p.camera_scale = (x, y);
            done.push(p);
        }
        self.partitions = done;
        proof {
            assert forall|i: int| 0 <= i < self@.parts.len() implies {
                &&& (#[trigger] self@.parts[i]).wf()
                &&& self@.parts[i].off_x + self@.parts[i].width <= self@.master.width
                &&& self@.parts[i].off_y + self@.parts[i].height <= self@.master.height
            } by {
                assert(v0.parts[i].wf());
            }
        }
    }

    /// Recompute the cached camera matrix on the master and every partition.
    pub fn update_camera(&mut self )
        requires
            old(self)@.wf(),
        ensures
            final(self)@.wf(),
            final(self)@.scheme == old(self)@.scheme,
            final(self)@.threshold == old(self)@.threshold,
            final(self)@.master == (Canvas { cam_mtx: crate::transform::cam_mtx_spec(old(self)@.master.cam_pos, old(self)@.master.cam_rot, old(self)@.master.cam_scale), ..old(self)@.master }),
            final(self)@.parts.len() == old(self)@.parts.len(),
            forall|i: int|
                0 <= i < old(self)@.parts.len() ==> final(self)@.parts[i] == (Canvas { cam_mtx: crate::transform::cam_mtx_spec((#[trigger] old(self)@.parts[i]).cam_pos, old(self)@.parts[i].cam_rot, old(self)@.parts[i].cam_scale), ..old(self)@.parts[i] }),
    {
        let ghost v0 = self@;
        self.rasterizer.update_camera();
        let ghost n = v0.parts.len();
        let mut done: Vec<Rasterizer> = Vec::new();
        while self.partitions.len() > 0
            invariant
                done@.len() + self.partitions@.len() == n,
                n == v0.parts.len(),
                v0.wf(),
                self.scheme == v0.scheme,
                self.threshold == v0.threshold,
                self.rasterizer@ == (Canvas { cam_mtx: crate::transform::cam_mtx_spec(v0.master.cam_pos, v0.master.cam_rot, v0.master.cam_scale), ..v0.master }),
                forall|i: int|
                    0 <= i < done@.len() ==> (#[trigger] done@[i])@ == (Canvas { cam_mtx: crate::transform::cam_mtx_spec(v0.parts[i].cam_pos, v0.parts[i].cam_rot, v0.parts[i].cam_scale), ..v0.parts[i] }),
                forall|i: int|
                    0 <= i < self.partitions@.len() ==> (#[trigger] self.partitions@[i])@
                        == v0.parts[done@.len() + i],
            decreases self.partitions@.len(),
        {
            let mut p = self.partitions.remove(0);
            p.update_camera();
            done.push(p);
        }
        self.partitions = done;
        proof {
            assert forall|i: int| 0 <= i < self@.parts.len() implies {
                &&& (#[trigger] self@.parts[i]).wf()
                &&& self@.parts[i].off_x + self@.parts[i].width <= self@.master.width
                &&& self@.parts[i].off_y + self@.parts[i].height <= self@.master.height
            } by {
                assert(v0.parts[i].wf());
            }
        }
    }
}

impl PartitionedRasterizer {
    /// A fresh partitioned rasterizer: a zeroed master plus partitions sized
    /// to the given core count (0 asks the machine).
    pub fn new(width: usize, height: usize, cores: usize) -> (r: PartitionedRasterizer)
        requires
            width * height * 4 <= usize::MAX,
        ensures
            r@.wf(),
            r@.master == fresh_canvas(width as nat, height as nat, 0, 0),
            r@.threshold == BoundingParallelThreshold::High,
            cores > 0 ==> r@.scheme == scheme_for(cores as int, width as int, height as int),
            cores == 0 ==> exists|nc: int|
                nc >= 1 && r@.scheme == scheme_for(nc, width as int, height as int),
            r@.parts == grid_parts(
                width as nat,
                height as nat,
                r@.scheme.cols_s(),
                r@.scheme.rows_s(),
            ),
    {
        let mut pr = PartitionedRasterizer {
            rasterizer: Rasterizer::new(width, height),
            partitions: Vec::new(),
            scheme: PartitionScheme::Full,
            threshold: BoundingParallelThreshold::High,
        };
        proof {
            assert(pr.rasterizer@ =~= fresh_canvas(width as nat, height as nat, 0, 0));
            assert(pr@.parts =~= Seq::<Canvas>::empty());
        }
        pr.set_core_limit(cores);
        pr
    }

    /// Pick the partition scheme for a core count (0 asks the machine) and
    /// regenerate all partitions against the master's dimensions.
    pub fn set_core_limit(&mut self, cores: usize)
        requires
            old(self)@.master.wf(),
        ensures
            final(self)@.wf(),
            final(self)@.master == old(self)@.master,
            final(self)@.threshold == old(self)@.threshold,
            cores > 0 ==> final(self)@.scheme == scheme_for(
                cores as int,
                old(self)@.master.width as int,
                old(self)@.master.height as int,
            ),
            cores == 0 ==> exists|nc: int|
                nc >= 1 && final(self)@.scheme == scheme_for(
                    nc,
                    old(self)@.master.width as int,
                    old(self)@.master.height as int,
                ),
            final(self)@.parts == grid_parts(
                old(self)@.master.width,
                old(self)@.master.height,
                final(self)@.scheme.cols_s(),
                final(self)@.scheme.rows_s(),
            ),
    {
        let cpu_count: usize = if cores == 0 {
            detect_cpus()
        } else {
            cores
        };
        let w = self.rasterizer.width;
        let h = self.rasterizer.height;
        let scheme: PartitionScheme = if cpu_count <= 1 {
            PartitionScheme::Full
        } else if cpu_count == 2 {
            if h > w {
                PartitionScheme::Split2x1
            } else {
                PartitionScheme::Split1x2
            }
        } else if cpu_count == 3 {
            PartitionScheme::Split3x1
        } else if cpu_count == 4 || cpu_count == 5 {
            PartitionScheme::Split2x2
        } else if cpu_count == 6 {
            PartitionScheme::Split3x2
        } else if cpu_count == 8 || cpu_count == 10 {
            PartitionScheme::Split3x3
        } else if cpu_count == 12 || cpu_count == 16 {
            PartitionScheme::Split4x4
        } else if cpu_count == 20 || cpu_count == 24 {
            PartitionScheme::Split5x5
        } else if cpu_count > 24 {
            PartitionScheme::Split8x8
        } else {
            PartitionScheme::Split4x4
        };
        proof {
            assert(scheme == scheme_for(
                cpu_count as int,
                old(self)@.master.width as int,
                old(self)@.master.height as int,
            ));
        }
        self.scheme = scheme;
        self.generate_partitions();
    }

    /// Rebuild the partition list for the active scheme: the old partitions
    /// are discarded and fresh tiles allocated against the master's current
    /// dimensions.
    pub fn generate_partitions(&mut self)
        requires
            old(self)@.master.wf(),
        ensures
            final(self)@.wf(),
            final(self)@.master == old(self)@.master,
            final(self)@.scheme == old(self)@.scheme,
            final(self)@.threshold == old(self)@.threshold,
            final(self)@.parts == grid_parts(
                old(self)@.master.width,
                old(self)@.master.height,
                old(self)@.scheme.cols_s(),
                old(self)@.scheme.rows_s(),
            ),
    {
        match self.scheme {
            PartitionScheme::Full => self.partition_full(),
            PartitionScheme::Split1x2 => self.partition_split_vertical(),
            PartitionScheme::Split2x1 => self.partition_split_horizontal(),
            PartitionScheme::Split2x2 => self.partition_split_2x2(),
            PartitionScheme::Split3x3 => self.partition_split_3x3(),
            PartitionScheme::Split3x2 => self.partition_split_3x2(),
            PartitionScheme::Split3x1 => self.partition_split_3x1(),
            PartitionScheme::Split4x4 => self.partition_split_4x4(),
            PartitionScheme::Split5x5 => self.partition_split_5x5(),
            PartitionScheme::Split8x8 => self.partition_split_8x8(),
        }
    }

    /// One partition covering the whole master.
    fn partition_full(&mut self)
        requires
            old(self)@.master.wf(),
        ensures
            final(self)@.wf(),
            final(self)@.master == old(self)@.master,
            final(self)@.scheme == old(self)@.scheme,
            final(self)@.threshold == old(self)@.threshold,
            final(self)@.parts == grid_parts(old(self)@.master.width, old(self)@.master.height, 1, 1),
    {
        self.split_grid(1, 1);
    }

    /// Two partitions side by side.
    fn partition_split_vertical(&mut self)
        requires
            old(self)@.master.wf(),
        ensures
            final(self)@.wf(),
            final(self)@.master == old(self)@.master,
            final(self)@.scheme == old(self)@.scheme,
            final(self)@.threshold == old(self)@.threshold,
            final(self)@.parts == grid_parts(old(self)@.master.width, old(self)@.master.height, 2, 1),
    {
        self.split_grid(2, 1);
    }

    /// Two partitions stacked.
    fn partition_split_horizontal(&mut self)
        requires
            old(self)@.master.wf(),
        ensures
            final(self)@.wf(),
            final(self)@.master == old(self)@.master,
            final(self)@.scheme == old(self)@.scheme,
            final(self)@.threshold == old(self)@.threshold,
            final(self)@.parts == grid_parts(old(self)@.master.width, old(self)@.master.height, 1, 2),
    {
        self.split_grid(1, 2);
    }

    /// A 2 x 2 grid of partitions.
    fn partition_split_2x2(&mut self)
        requires
            old(self)@.master.wf(),
        ensures
            final(self)@.wf(),
            final(self)@.master == old(self)@.master,
            final(self)@.scheme == old(self)@.scheme,
            final(self)@.threshold == old(self)@.threshold,
            final(self)@.parts == grid_parts(old(self)@.master.width, old(self)@.master.height, 2, 2),
    {
        self.split_grid(2, 2);
    }

    /// Three partitions side by side.
    fn partition_split_3x1(&mut self)
        requires
            old(self)@.master.wf(),
        ensures
            final(self)@.wf(),
            final(self)@.master == old(self)@.master,
            final(self)@.scheme == old(self)@.scheme,
            final(self)@.threshold == old(self)@.threshold,
            final(self)@.parts == grid_parts(old(self)@.master.width, old(self)@.master.height, 3, 1),
    {
        self.split_grid(3, 1);
    }

    /// A 3 x 2 grid of partitions.
    fn partition_split_3x2(&mut self)
        requires
            old(self)@.master.wf(),
        ensures
            final(self)@.wf(),
            final(self)@.master == old(self)@.master,
            final(self)@.scheme == old(self)@.scheme,
            final(self)@.threshold == old(self)@.threshold,
            final(self)@.parts == grid_parts(old(self)@.master.width, old(self)@.master.height, 3, 2),
    {
        self.split_grid(3, 2);
    }

    /// A 3 x 3 grid of partitions.
    fn partition_split_3x3(&mut self)
        requires
            old(self)@.master.wf(),
        ensures
            final(self)@.wf(),
            final(self)@.master == old(self)@.master,
            final(self)@.scheme == old(self)@.scheme,
            final(self)@.threshold == old(self)@.threshold,
            final(self)@.parts == grid_parts(old(self)@.master.width, old(self)@.master.height, 3, 3),
    {
        self.split_grid(3, 3);
    }

    /// A 4 x 4 grid of partitions.
    fn partition_split_4x4(&mut self)
        requires
            old(self)@.master.wf(),
        ensures
            final(self)@.wf(),
            final(self)@.master == old(self)@.master,
            final(self)@.scheme == old(self)@.scheme,
            final(self)@.threshold == old(self)@.threshold,
            final(self)@.parts == grid_parts(old(self)@.master.width, old(self)@.master.height, 4, 4),
    {
        self.split_grid(4, 4);
    }

    /// A 5 x 5 grid of partitions.
    fn partition_split_5x5(&mut self)
        requires
            old(self)@.master.wf(),
        ensures
            final(self)@.wf(),
            final(self)@.master == old(self)@.master,
            final(self)@.scheme == old(self)@.scheme,
            final(self)@.threshold == old(self)@.threshold,
            final(self)@.parts == grid_parts(old(self)@.master.width, old(self)@.master.height, 5, 5),
    {
        self.split_grid(5, 5);
    }

    /// An 8 x 8 grid of partitions.
    fn partition_split_8x8(&mut self)
        requires
            old(self)@.master.wf(),
        ensures
            final(self)@.wf(),
            final(self)@.master == old(self)@.master,
            final(self)@.scheme == old(self)@.scheme,
            final(self)@.threshold == old(self)@.threshold,
            final(self)@.parts == grid_parts(old(self)@.master.width, old(self)@.master.height, 8, 8),
    {
        self.split_grid(8, 8);
    }

    /// Replace the partitions with a fresh cols x rows grid of tiles, each
    /// `width / cols` x `height / rows`, tagged with its offset.
    fn split_grid(&mut self, cols: usize, rows: usize)
        requires
            old(self)@.master.wf(),
            1 <= cols <= 8,
            1 <= rows <= 8,
        ensures
            final(self)@.wf(),
            final(self)@.master == old(self)@.master,
            final(self)@.scheme == old(self)@.scheme,
            final(self)@.threshold == old(self)@.threshold,
            final(self)@.parts == grid_parts(
                old(self)@.master.width,
                old(self)@.master.height,
                cols as int,
                rows as int,
            ),
    {
        let ghost v0 = self@;
        let ghost target = grid_parts(v0.master.width, v0.master.height, cols as int, rows as int);
        self.partitions = Vec::new();
        let n0 = self.rasterizer.color.len();
        let w = self.rasterizer.width;
        let h = self.rasterizer.height;
        let cellw = w / cols;
        let cellh = h / rows;
        proof {
            assert(cellw * cellh * 4 <= w * h * 4 && cellw * cols <= w && cellh * rows <= h)
                by (nonlinear_arith)
                requires
                    cellw == (w as int) / (cols as int),
                    cellh == (h as int) / (rows as int),
                    1 <= cols,
                    1 <= rows,
                    0 <= w,
                    0 <= h,
            ;
        }
        let mut y: usize = 0;
        while y < rows
            invariant
                y <= rows,
                1 <= cols <= 8,
                1 <= rows <= 8,
                cellw == v0.master.width as int / cols as int,
                cellh == v0.master.height as int / rows as int,
                cellw * cellh * 4 <= usize::MAX,
                cellw * cols <= v0.master.width,
                cellh * rows <= v0.master.height,
                self.rasterizer@ == v0.master,
                self.scheme == v0.scheme,
                self.threshold == v0.threshold,
                target == grid_parts(v0.master.width, v0.master.height, cols as int, rows as int),
                self.partitions@.len() == y * cols,
                forall|i: int|
                    0 <= i < self.partitions@.len() ==> (#[trigger] self.partitions@[i])@
                        == target[i],
            decreases rows - y,
        {
            let mut x: usize = 0;
            while x < cols
                invariant
                    x <= cols,
                    y < rows,
                    1 <= cols <= 8,
                    1 <= rows <= 8,
                    cellw == v0.master.width as int / cols as int,
                    cellh == v0.master.height as int / rows as int,
                    cellw * cellh * 4 <= usize::MAX,
                    cellw * cols <= v0.master.width,
                    cellh * rows <= v0.master.height,
                    self.rasterizer@ == v0.master,
                    self.scheme == v0.scheme,
                    self.threshold == v0.threshold,
                    target == grid_parts(
                        v0.master.width,
                        v0.master.height,
                        cols as int,
                        rows as int,
                    ),
                    self.partitions@.len() == y * cols + x,
                    forall|i: int|
                        0 <= i < self.partitions@.len() ==> (#[trigger] self.partitions@[i])@
                            == target[i],
                decreases cols - x,
            {
                proof {
                    assert(cellw * x <= cellw * cols && cellh * y <= cellh * rows && (y * cols + x)
                        + 1 <= cols * rows && cellw * (x + 1) <= cellw * cols && cellh * (y + 1)
                        <= cellh * rows) by (nonlinear_arith)
                        requires
                            0 <= x < cols,
                            0 <= y < rows,
                            0 <= cellw,
                            0 <= cellh,
                    ;
                }
                let mut r = Rasterizer::new(cellw, cellh);
                r.offset_x = cellw * x;
                r.offset_y = cellh * y;
                proof {
                    let i: int = (y as int) * (cols as int) + (x as int);
                    vstd::arithmetic::div_mod::lemma_fundamental_div_mod_converse(
                        i,
                        cols as int,
                        y as int,
                        x as int,
                    );
                    assert(i % (cols as int) == x as int && i / (cols as int) == y as int);
                    assert((i % (cols as int)) * cellw as int == (cellw as int) * (x as int))
                        by (nonlinear_arith)
                        requires
                            i % (cols as int) == x as int,
                    ;
                    assert((i / (cols as int)) * cellh as int == (cellh as int) * (y as int))
                        by (nonlinear_arith)
                        requires
                            i / (cols as int) == y as int,
                    ;
                    assert(r@.buf =~= target[i].buf);
                    assert(r@ == target[i]);
                }
                self.partitions.push(r);
                x = x + 1;
            }
            proof {
                assert(y * cols + cols == (y + 1) * cols) by (nonlinear_arith);
            }
            y = y + 1;
        }
        proof {
            assert(self.partitions@.len() == rows * cols == cols * rows) by (nonlinear_arith)
                requires
                    self.partitions@.len() == rows * cols,
            ;
            assert(self@.parts =~= target);
            lemma_grid_parts_wf(v0.master.width, v0.master.height, cols as int, rows as int);
        }
    }

    /// Reallocate the master to new dimensions and rebuild the partitions.
    pub fn resize(&mut self, width: usize, height: usize)
        requires
            old(self)@.master.wf(),
            width * height * 4 <= usize::MAX,
        ensures
            final(self)@.wf(),
            final(self)@.scheme == old(self)@.scheme,
            final(self)@.threshold == old(self)@.threshold,
            final(self)@.master == (Canvas {
                width: width as nat,
                height: height as nat,
                buf: Seq::new((width * height * 4) as nat, |i: int| 0u8),
                ..old(self)@.master
            }),
            final(self)@.parts == grid_parts(
                width as nat,
                height as nat,
                old(self)@.scheme.cols_s(),
                old(self)@.scheme.rows_s(),
            ),
    {
        self.rasterizer.resize(width, height);
        self.generate_partitions();
    }

    /// Raw-copy an image into the master at `(x, y)`; partitions are not
    /// involved.
    pub fn blit(&mut self, image: &Rasterizer, x: i64, y: i64)
        requires
            old(self)@.wf(),
            image.wf(),
        ensures
            final(self)@.wf(),
            final(self)@.master == blit_s(old(self)@.master, image@, x as int, y as int),
            final(self)@.parts == old(self)@.parts,
            final(self)@.scheme == old(self)@.scheme,
            final(self)@.threshold == old(self)@.threshold,
    {
        let ghost m0 = self@.master;
        self.rasterizer.blit(image, x, y);
        proof {
            lemma_blit_s_cfg(m0, image@, x as int, y as int);
        }
    }

    /// Draw one pixel on the master through its active mode; partitions are
    /// not involved.
    pub fn pset(&mut self, x: i64, y: i64, color: Color)
        requires
            old(self)@.wf(),
            old(self)@.master.width > 0,
            old(self)@.master.height > 0,
        ensures
            final(self)@.wf(),
            final(self)@.master == pset_s(old(self)@.master, x as int, y as int, color),
            final(self)@.parts == old(self)@.parts,
            final(self)@.scheme == old(self)@.scheme,
            final(self)@.threshold == old(self)@.threshold,
    {
        let ghost m0 = self@.master;
        self.rasterizer.pset(x, y, color);
        proof {
            crate::rasterizer::lemma_pset_s_cfg(m0, x as int, y as int, color);
        }
    }

    /// Bounds-checked read from the master buffer.
    pub fn pget(&mut self, x: i64, y: i64) -> (c: Color)
        requires
            old(self)@.wf(),
        ensures
            final(self)@ == old(self)@,
            c == pget_s(old(self)@.master, x as int, y as int),
    {
        self.rasterizer.pget(x, y)
    }

    /// Draw a line on the master through its active mode; too cheap to
    /// dispatch to partitions.
    pub fn pline(&mut self, x0: i64, y0: i64, x1: i64, y1: i64, color: Color)
        requires
            old(self)@.wf(),
            old(self)@.master.width > 0,
            old(self)@.master.height > 0,
            abs_s(x1 as int - x0 as int) < 0x4000_0000_0000_0000,
            abs_s(y1 as int - y0 as int) < 0x4000_0000_0000_0000,
        ensures
            final(self)@.wf(),
            final(self)@.master == draw_pts(
                old(self)@.master,
                line_pts(x0 as int, y0 as int, x1 as int, y1 as int),
                color,
            ),
            final(self)@.parts == old(self)@.parts,
            final(self)@.scheme == old(self)@.scheme,
            final(self)@.threshold == old(self)@.threshold,
    {
        let ghost m0 = self@.master;
        self.rasterizer.pline(x0, y0, x1, y1, color);
        proof {
            lemma_draw_pts_cfg(
                m0,
                line_pts(x0 as int, y0 as int, x1 as int, y1 as int),
                color,
            );
        }
    }
}


impl PartitionedRasterizer {
    /// Draw a circle: when the disc area pi r^2 reaches the threshold
    /// (decided exactly through the threshold's precomputed squared-radius
    /// floor), dispatch it to every partition in local coordinates and
    /// recomposite; otherwise run it directly on the master. Degenerate
    /// partitions with no pixels are skipped.
    #[verifier::rlimit(80)]
    pub fn pcircle(&mut self, filled: bool, xc: i64, yc: i64, radius: i64, color: Color)
        requires
            old(self)@.wf(),
            old(self)@.master.width > 0,
            old(self)@.master.height > 0,
            !filled ==> radius < 0x8000_0000 && abs_s(xc as int) <= 0x1000_0000_0000_0000
                && abs_s(yc as int) <= 0x1000_0000_0000_0000,
        ensures
            final(self)@.wf(),
            final(self)@.scheme == old(self)@.scheme,
            final(self)@.threshold == old(self)@.threshold,
            ({
                let op = circle_op(filled, xc as int, yc as int, radius as int, color);
                if (radius as int) * (radius as int) >= old(self)@.threshold.circle_area_floor_s() {
                    let st = fan_s(old(self)@.master, old(self)@.parts, old(self)@.parts.len(), op);
                    final(self)@.master == st.0 && final(self)@.parts == st.1
                } else {
                    final(self)@.master == pcircle_s(
                        old(self)@.master,
                        filled,
                        xc as int,
                        yc as int,
                        radius as int,
                        color,
                    ) && final(self)@.parts == old(self)@.parts
                }
            }),
    {
        proof {
            assert(forall|a: int, b: int|
                (-0x8000_0000_0000_0000 <= a < 0x8000_0000_0000_0000 && -0x8000_0000_0000_0000
                    <= b < 0x8000_0000_0000_0000) ==> -0x4000_0000_0000_0000_0000_0000_0000_0000
                    <= #[trigger] (a * b) <= 0x4000_0000_0000_0000_0000_0000_0000_0000)
                by (nonlinear_arith);
        }
        let r2: i128 = (radius as i128) * (radius as i128);
        let rhs: u64 = self.threshold.circle_area_floor();
        let n0 = self.rasterizer.color.len();
        proof {
            lemma_dims_from_len(
                self.rasterizer.width as int,
                self.rasterizer.height as int,
                self@.master.buf.len() as int,
            );
        }
        if r2 >= rhs as i128 {
            let ghost v0 = self@;
            let ghost op = circle_op(filled, xc as int, yc as int, radius as int, color);
            let ghost n = v0.parts.len();
            let mut done: Vec<Rasterizer> = Vec::new();
            while self.partitions.len() > 0
                invariant
                    done@.len() + self.partitions@.len() == n,
                    n == v0.parts.len(),
                    v0.wf(),
                    v0.master.width > 0,
                    v0.master.height > 0,
                    4 * v0.master.width <= usize::MAX,
                    4 * v0.master.height <= usize::MAX,
                    self.scheme == v0.scheme,
                    self.threshold == v0.threshold,
                    self.rasterizer.wf(),
                    self.rasterizer@.width == v0.master.width,
                    self.rasterizer@.height == v0.master.height,
                    !filled ==> radius < 0x8000_0000 && abs_s(xc as int) <= 0x1000_0000_0000_0000
                        && abs_s(yc as int) <= 0x1000_0000_0000_0000,
                    op == circle_op(filled, xc as int, yc as int, radius as int, color),
                    self.rasterizer@ == fan_s(v0.master, v0.parts, done@.len() as nat, op).0,
                    forall|i: int|
                        0 <= i < done@.len() ==> (#[trigger] done@[i])@ == fan_s(
                            v0.master,
                            v0.parts,
                            done@.len() as nat,
                            op,
                        ).1[i],
                    forall|i: int|
                        0 <= i < self.partitions@.len() ==> (#[trigger] self.partitions@[i])@
                            == v0.parts[done@.len() + i],
                decreases self.partitions@.len(),
            {
                let ghost k = done@.len() as nat;
                proof {
                    lemma_fan_suffix(v0.master, v0.parts, k, op);
                    lemma_fan_parts(v0.master, v0.parts, k, op);
                }
                let mut part = self.partitions.remove(0);
                let ox = part.offset_x;
                let oy = part.offset_y;
                let ghost p_pre = part@;
                let rxw: i128 = xc as i128 - ox as i128;
                let ryw: i128 = yc as i128 - oy as i128;
                if part.width > 0 && part.height > 0 {
                    if filled {
                        if rxw >= (i64::MIN as i128) && ryw >= (i64::MIN as i128) {
                            part.pcircle(filled, rxw as i64, ryw as i64, radius, color);
                        } else {
                            proof {
                                assert(op(p_pre) == p_pre);
                            }
                        }
                    } else {
                        part.pcircle(filled, rxw as i64, ryw as i64, radius, color);
                    }
                } else {
                    proof {
                        assert(op(p_pre) == p_pre);
                    }
                }
                proof {
                    if p_pre.width > 0 && p_pre.height > 0 {
                        lemma_pcircle_s_cfg(
                            p_pre,
                            filled,
                            xc - p_pre.off_x,
                            yc - p_pre.off_y,
                            radius as int,
                            color,
                        );
                    }
                    assert(part@ == op(p_pre));
                }
                let ghost m_pre = self.rasterizer@;
                self.rasterizer.blit(&part, ox as i64, oy as i64);
                done.push(part);
                proof {
                    lemma_blit_s_cfg(m_pre, part@, ox as int, oy as int);
                    lemma_fan_suffix(v0.master, v0.parts, (k + 1) as nat, op);
                    lemma_fan_parts(v0.master, v0.parts, (k + 1) as nat, op);
                }
            }
            self.partitions = done;
            proof {
                lemma_fan_parts(v0.master, v0.parts, n, op);
                lemma_fan_suffix(v0.master, v0.parts, n, op);
                assert(self@.parts =~= fan_s(v0.master, v0.parts, n, op).1);
                assert forall|i: int| 0 <= i < self@.parts.len() implies {
                    &&& (#[trigger] self@.parts[i]).wf()
                    &&& self@.parts[i].off_x + self@.parts[i].width <= self@.master.width
                    &&& self@.parts[i].off_y + self@.parts[i].height <= self@.master.height
                } by {
                    if v0.parts[i].width > 0 && v0.parts[i].height > 0 {
                        lemma_pcircle_s_cfg(
                            v0.parts[i],
                            filled,
                            xc - v0.parts[i].off_x,
                            yc - v0.parts[i].off_y,
                            radius as int,
                            color,
                        );
                    }
                }
            }
        } else {
            let ghost m0 = self@.master;
            self.rasterizer.pcircle(filled, xc, yc, radius, color);
            proof {
                lemma_pcircle_s_cfg(m0, filled, xc as int, yc as int, radius as int, color);
            }
        }
    }

    /// Draw an image: above the area threshold (its pixel count), dispatch
    /// it to every partition in local coordinates and recomposite; otherwise
    /// run it directly on the master.
    pub fn pimg(&mut self, image: &Rasterizer, x: i64, y: i64)
        requires
            old(self)@.wf(),
            old(self)@.master.width > 0,
            old(self)@.master.height > 0,
            image.wf(),
        ensures
            final(self)@.wf(),
            final(self)@.scheme == old(self)@.scheme,
            final(self)@.threshold == old(self)@.threshold,
            ({
                let op = img_op(image@, x as int, y as int);
                if (image@.width as int) * (image@.height as int)
                    >= old(self)@.threshold.value_s() {
                    let st = fan_s(old(self)@.master, old(self)@.parts, old(self)@.parts.len(), op);
                    final(self)@.master == st.0 && final(self)@.parts == st.1
                } else {
                    final(self)@.master == pimg_s(old(self)@.master, image@, x as int, y as int)
                        && final(self)@.parts == old(self)@.parts
                }
            }),
    {
        let ml = image.color.len();
        proof {
            assert((image@.width as int) * (image@.height as int) * 4 == 4 * ((image@.width as int)
                * (image@.height as int)) && 0 <= (image@.width as int) * (image@.height as int))
                by (nonlinear_arith);
        }
        let total_area: i128 = (image.width as i128) * (image.height as i128);
        let thr = self.threshold.value();
        let n0 = self.rasterizer.color.len();
        proof {
            lemma_dims_from_len(
                self.rasterizer.width as int,
                self.rasterizer.height as int,
                self@.master.buf.len() as int,
            );
        }
        if total_area >= thr as i128 {
            let ghost v0 = self@;
            let ghost op = img_op(image@, x as int, y as int);
            let ghost n = v0.parts.len();
            let mut done: Vec<Rasterizer> = Vec::new();
            while self.partitions.len() > 0
                invariant
                    done@.len() + self.partitions@.len() == n,
                    n == v0.parts.len(),
                    v0.wf(),
                    v0.master.width > 0,
                    v0.master.height > 0,
                    4 * v0.master.width <= usize::MAX,
                    4 * v0.master.height <= usize::MAX,
                    self.scheme == v0.scheme,
                    self.threshold == v0.threshold,
                    self.rasterizer.wf(),
                    self.rasterizer@.width == v0.master.width,
                    self.rasterizer@.height == v0.master.height,
                    image.wf(),
                    op == img_op(image@, x as int, y as int),
                    self.rasterizer@ == fan_s(v0.master, v0.parts, done@.len() as nat, op).0,
                    forall|i: int|
                        0 <= i < done@.len() ==> (#[trigger] done@[i])@ == fan_s(
                            v0.master,
                            v0.parts,
                            done@.len() as nat,
                            op,
                        ).1[i],
                    forall|i: int|
                        0 <= i < self.partitions@.len() ==> (#[trigger] self.partitions@[i])@
                            == v0.parts[done@.len() + i],
                decreases self.partitions@.len(),
            {
                let ghost k = done@.len() as nat;
                proof {
                    lemma_fan_suffix(v0.master, v0.parts, k, op);
                    lemma_fan_parts(v0.master, v0.parts, k, op);
                }
                let mut part = self.partitions.remove(0);
                let ox = part.offset_x;
                let oy = part.offset_y;
                let ghost p_pre = part@;
                let rxw: i128 = x as i128 - ox as i128;
                let ryw: i128 = y as i128 - oy as i128;
                let ml2 = image.color.len();
                if rxw >= (i64::MIN as i128) && ryw >= (i64::MIN as i128) {
                    part.pimg(image, rxw as i64, ryw as i64);
                } else {
                    proof {
                        let sw = image@.width as int;
                        let sh = image@.height as int;
                        assert(sh >= 1 ==> 4 * sw <= sw * sh * 4) by (nonlinear_arith)
                            requires
                                sw >= 0,
                                sh >= 0,
                        ;
                        assert(sw >= 1 ==> 4 * sh <= sw * sh * 4) by (nonlinear_arith)
                            requires
                                sw >= 0,
                                sh >= 0,
                        ;
                        assert(op(p_pre) == p_pre);
                    }
                }
                proof {
                    lemma_pimg_s_cfg(p_pre, image@, x - p_pre.off_x, y - p_pre.off_y);
                    assert(part@ == op(p_pre));
                }
                let ghost m_pre = self.rasterizer@;
                self.rasterizer.blit(&part, ox as i64, oy as i64);
                done.push(part);
                proof {
                    lemma_blit_s_cfg(m_pre, part@, ox as int, oy as int);
                    lemma_fan_suffix(v0.master, v0.parts, (k + 1) as nat, op);
                    lemma_fan_parts(v0.master, v0.parts, (k + 1) as nat, op);
                }
            }
            self.partitions = done;
            proof {
                lemma_fan_parts(v0.master, v0.parts, n, op);
                lemma_fan_suffix(v0.master, v0.parts, n, op);
                assert(self@.parts =~= fan_s(v0.master, v0.parts, n, op).1);
                assert forall|i: int| 0 <= i < self@.parts.len() implies {
                    &&& (#[trigger] self@.parts[i]).wf()
                    &&& self@.parts[i].off_x + self@.parts[i].width <= self@.master.width
                    &&& self@.parts[i].off_y + self@.parts[i].height <= self@.master.height
                } by {
                    lemma_pimg_s_cfg(
                        v0.parts[i],
                        image@,
                        x - v0.parts[i].off_x,
                        y - v0.parts[i].off_y,
                    );
                }
            }
        } else {
            let ghost m0 = self@.master;
            self.rasterizer.pimg(image, x, y);
            proof {
                lemma_pimg_s_cfg(m0, image@, x as int, y as int);
            }
        }
    }
}

/// The magenta partition borders drawn by the debug view, one partition at a
/// time: its top edge, then its left edge.
pub open spec fn debug_lines_s(m: Canvas, parts: Seq<Canvas>, k: nat) -> Canvas
    decreases k,
{
    if k == 0 {
        m
    } else {
        let p = parts[k - 1];
        let col = Color { r: 255u8, g: 0u8, b: 255u8, a: 255u8 };
        let m1 = debug_lines_s(m, parts, (k - 1) as nat);
        let m2 = draw_pts(
            m1,
            line_pts(
                p.off_x as int,
                p.off_y as int,
                p.off_x + p.width as int,
                p.off_y as int,
            ),
            col,
        );
        draw_pts(
            m2,
            line_pts(
                p.off_x as int,
                p.off_y as int,
                p.off_x as int,
                p.off_y + p.height as int,
            ),
            col,
        )
    }
}

impl PartitionedRasterizer {
    /// Outline every partition's region on the master in magenta.
    pub fn draw_debug_view(&mut self)
        requires
            old(self)@.wf(),
            old(self)@.master.width > 0,
            old(self)@.master.height > 0,
        ensures
            final(self)@.wf(),
            final(self)@.master == debug_lines_s(
                old(self)@.master,
                old(self)@.parts,
                old(self)@.parts.len(),
            ),
            final(self)@.parts == old(self)@.parts,
            final(self)@.scheme == old(self)@.scheme,
            final(self)@.threshold == old(self)@.threshold,
    {
        let ghost v0 = self@;
        let n0 = self.rasterizer.color.len();
        proof {
            lemma_dims_from_len(
                self.rasterizer.width as int,
                self.rasterizer.height as int,
                self@.master.buf.len() as int,
            );
        }
        let col = Color::new(255, 0, 255, 255);
        let m = self.partitions.len();
        let mut i: usize = 0;
        while i < m
            invariant
                i <= m,
                m == v0.parts.len(),
                v0.wf(),
                v0.master.width > 0,
                v0.master.height > 0,
                4 * v0.master.width <= usize::MAX,
                4 * v0.master.height <= usize::MAX,
                self.partitions@.map_values(|r: Rasterizer| r@) == v0.parts,
                self.scheme == v0.scheme,
                self.threshold == v0.threshold,
                self.rasterizer.wf(),
                self.rasterizer@.width == v0.master.width,
                self.rasterizer@.height == v0.master.height,
                col == (Color { r: 255u8, g: 0u8, b: 255u8, a: 255u8 }),
                self.rasterizer@ == debug_lines_s(v0.master, v0.parts, i as nat),
            decreases m - i,
        {
            let ox = self.partitions[i].offset_x;
            let oy = self.partitions[i].offset_y;
            let pw = self.partitions[i].width;
            let ph = self.partitions[i].height;
            proof {
                assert(self.partitions@[i as int]@ == v0.parts[i as int]);
            }
            let ghost m1 = self.rasterizer@;
            self.rasterizer.pline(ox as i64, oy as i64, (ox + pw) as i64, oy as i64, col);
            proof {
                lemma_draw_pts_cfg(
                    m1,
                    line_pts(ox as int, oy as int, ox as int + pw as int, oy as int),
                    col,
                );
            }
            let ghost m2 = self.rasterizer@;
            self.rasterizer.pline(ox as i64, oy as i64, ox as i64, (oy + ph) as i64, col);
            proof {
                lemma_draw_pts_cfg(
                    m2,
                    line_pts(ox as int, oy as int, ox as int, oy as int + ph as int),
                    col,
                );
            }
            i = i + 1;
        }
    }
}


impl PartitionedRasterizer {
    /// Draw a window of an image with tiled sampling: above the area
    /// threshold (the source's pixel count), dispatch it to every partition
    /// in local coordinates and recomposite; otherwise run it directly on
    /// the master.
    pub fn pimgrect(&mut self, image: &Rasterizer, x: i64, y: i64, ix: i64, iy: i64, iw: i64, ih: i64)
        requires
            old(self)@.wf(),
            old(self)@.master.width > 0,
            old(self)@.master.height > 0,
            image.wf(),
            image@.width > 0,
            image@.height > 0,
        ensures
            final(self)@.wf(),
            final(self)@.scheme == old(self)@.scheme,
            final(self)@.threshold == old(self)@.threshold,
            ({
                let op = imgrect_op(
                    image@,
                    x as int,
                    y as int,
                    ix as int,
                    iy as int,
                    iw as int,
                    ih as int,
                );
                if (image@.width as int) * (image@.height as int)
                    >= old(self)@.threshold.value_s() {
                    let st = fan_s(old(self)@.master, old(self)@.parts, old(self)@.parts.len(), op);
                    final(self)@.master == st.0 && final(self)@.parts == st.1
                } else {
                    final(self)@.master == pimgrect_s(
                        old(self)@.master,
                        image@,
                        x as int,
                        y as int,
                        ix as int,
                        iy as int,
                        iw as int,
                        ih as int,
                    ) && final(self)@.parts == old(self)@.parts
                }
            }),
    {
        let ml = image.color.len();
        proof {
            assert((image@.width as int) * (image@.height as int) * 4 == 4 * ((image@.width as int)
                * (image@.height as int)) && 0 <= (image@.width as int) * (image@.height as int))
                by (nonlinear_arith);
        }
        let total_area: i128 = (image.width as i128) * (image.height as i128);
        let thr = self.threshold.value();
        let n0 = self.rasterizer.color.len();
        proof {
            lemma_dims_from_len(
                self.rasterizer.width as int,
                self.rasterizer.height as int,
                self@.master.buf.len() as int,
            );
        }
        if total_area >= thr as i128 {
            let ghost v0 = self@;
            let ghost op = imgrect_op(
                image@,
                x as int,
                y as int,
                ix as int,
                iy as int,
                iw as int,
                ih as int,
            );
            let ghost n = v0.parts.len();
            let mut done: Vec<Rasterizer> = Vec::new();
            while self.partitions.len() > 0
                invariant
                    done@.len() + self.partitions@.len() == n,
                    n == v0.parts.len(),
                    v0.wf(),
                    v0.master.width > 0,
                    v0.master.height > 0,
                    4 * v0.master.width <= usize::MAX,
                    4 * v0.master.height <= usize::MAX,
                    self.scheme == v0.scheme,
                    self.threshold == v0.threshold,
                    self.rasterizer.wf(),
                    self.rasterizer@.width == v0.master.width,
                    self.rasterizer@.height == v0.master.height,
                    image.wf(),
                    image@.width > 0,
                    image@.height > 0,
                    op == imgrect_op(
                        image@,
                        x as int,
                        y as int,
                        ix as int,
                        iy as int,
                        iw as int,
                        ih as int,
                    ),
                    self.rasterizer@ == fan_s(v0.master, v0.parts, done@.len() as nat, op).0,
                    forall|i: int|
                        0 <= i < done@.len() ==> (#[trigger] done@[i])@ == fan_s(
                            v0.master,
                            v0.parts,
                            done@.len() as nat,
                            op,
                        ).1[i],
                    forall|i: int|
                        0 <= i < self.partitions@.len() ==> (#[trigger] self.partitions@[i])@
                            == v0.parts[done@.len() + i],
                decreases self.partitions@.len(),
            {
                let ghost k = done@.len() as nat;
                proof {
                    lemma_fan_suffix(v0.master, v0.parts, k, op);
                    lemma_fan_parts(v0.master, v0.parts, k, op);
                }
                let mut part = self.partitions.remove(0);
                let ox = part.offset_x;
                let oy = part.offset_y;
                let ghost p_pre = part@;
                let rxw: i128 = x as i128 - ox as i128;
                let ryw: i128 = y as i128 - oy as i128;
                if rxw >= (i64::MIN as i128) && ryw >= (i64::MIN as i128) {
                    part.pimgrect(image, rxw as i64, ryw as i64, ix, iy, iw, ih);
                } else {
                    proof {
                        assert(op(p_pre) == p_pre);
                    }
                }
                proof {
                    lemma_pimgrect_s_cfg(
                        p_pre,
                        image@,
                        x - p_pre.off_x,
                        y - p_pre.off_y,
                        ix as int,
                        iy as int,
                        iw as int,
                        ih as int,
                    );
                    assert(part@ == op(p_pre));
                }
                let ghost m_pre = self.rasterizer@;
                self.rasterizer.blit(&part, ox as i64, oy as i64);
                done.push(part);
                proof {
                    lemma_blit_s_cfg(m_pre, part@, ox as int, oy as int);
                    lemma_fan_suffix(v0.master, v0.parts, (k + 1) as nat, op);
                    lemma_fan_parts(v0.master, v0.parts, (k + 1) as nat, op);
                }
            }
            self.partitions = done;
            proof {
                lemma_fan_parts(v0.master, v0.parts, n, op);
                lemma_fan_suffix(v0.master, v0.parts, n, op);
                assert(self@.parts =~= fan_s(v0.master, v0.parts, n, op).1);
                assert forall|i: int| 0 <= i < self@.parts.len() implies {
                    &&& (#[trigger] self@.parts[i]).wf()
                    &&& self@.parts[i].off_x + self@.parts[i].width <= self@.master.width
                    &&& self@.parts[i].off_y + self@.parts[i].height <= self@.master.height
                } by {
                    lemma_pimgrect_s_cfg(
                        v0.parts[i],
                        image@,
                        x - v0.parts[i].off_x,
                        y - v0.parts[i].off_y,
                        ix as int,
                        iy as int,
                        iw as int,
                        ih as int,
                    );
                }
            }
        } else {
            let ghost m0 = self@.master;
            self.rasterizer.pimgrect(image, x, y, ix, iy, iw, ih);
            proof {
                lemma_pimgrect_s_cfg(
                    m0,
                    image@,
                    x as int,
                    y as int,
                    ix as int,
                    iy as int,
                    iw as int,
                    ih as int,
                );
            }
        }
    }

    /// Draw a rotated and scaled image: above the area threshold (the
    /// source's area scaled by both fixed-point scale factors), dispatch it
    /// to every partition with the position moved into partition space and
    /// recomposite; otherwise run it directly on the master. Takes the same
    /// fixed-point arguments and caps as the master-level transform.
    pub fn pimgmtx(
        &mut self,
        image: &Rasterizer,
        x: i64,
        y: i64,
        cos: i64,
        sin: i64,
        scale_x: i64,
        scale_y: i64,
        pivot_x: i64,
        pivot_y: i64,
    )
        requires
            old(self)@.wf(),
            old(self)@.master.width > 0,
            old(self)@.master.height > 0,
            old(self)@.master.width <= 0x100_0000,
            old(self)@.master.height <= 0x100_0000,
            image.wf(),
            image@.width <= 0x100_0000,
            image@.height <= 0x100_0000,
            abs_s(x as int) <= 0x100_0000_0000,
            abs_s(y as int) <= 0x100_0000_0000,
            abs_s(cos as int) <= 0x2_0000,
            abs_s(sin as int) <= 0x2_0000,
            scale_x != 0,
            scale_y != 0,
            abs_s(scale_x as int) <= 0x100_0000,
            abs_s(scale_y as int) <= 0x100_0000,
            abs_s(pivot_x as int) <= 0x2_0000,
            abs_s(pivot_y as int) <= 0x2_0000,
        ensures
            final(self)@.wf(),
            final(self)@.scheme == old(self)@.scheme,
            final(self)@.threshold == old(self)@.threshold,
            ({
                let op = imgmtx_op(
                    image@,
                    x as int,
                    y as int,
                    cos as int,
                    sin as int,
                    scale_x as int,
                    scale_y as int,
                    pivot_x as int,
                    pivot_y as int,
                );
                let sw = ((image@.width as int) * (scale_x as int)) / 65536;
                let sh = ((image@.height as int) * (scale_y as int)) / 65536;
                if sw * sh >= old(self)@.threshold.value_s() {
                    let st = fan_s(old(self)@.master, old(self)@.parts, old(self)@.parts.len(), op);
                    final(self)@.master == st.0 && final(self)@.parts == st.1
                } else {
                    final(self)@.master == pimgmtx_s(
                        old(self)@.master,
                        image@,
                        x as int,
                        y as int,
                        cos as int,
                        sin as int,
                        scale_x as int,
                        scale_y as int,
                        pivot_x as int,
                        pivot_y as int,
                    ) && final(self)@.parts == old(self)@.parts
                }
            }),
    {
        proof {
            assert(abs_s((image@.width as int) * (scale_x as int)) <= 0x100_0000 * 0x100_0000
                && abs_s((image@.height as int) * (scale_y as int)) <= 0x100_0000 * 0x100_0000)
                by (nonlinear_arith)
                requires
                    0 <= image@.width <= 0x100_0000,
                    0 <= image@.height <= 0x100_0000,
                    abs_s(scale_x as int) <= 0x100_0000,
                    abs_s(scale_y as int) <= 0x100_0000,
            ;
        }
        let swn: i128 = (image.width as i128) * (scale_x as i128);
        let shn: i128 = (image.height as i128) * (scale_y as i128);
        let sw = crate::primitives::div_floor_i128(swn, 65536);
        let sh = crate::primitives::div_floor_i128(shn, 65536);
        proof {
            crate::transform::lemma_abs_div_bound(swn as int, 0x1_0000_0000_0000);
            crate::transform::lemma_abs_div_bound(shn as int, 0x1_0000_0000_0000);
            assert(abs_s((sw as int) * (sh as int)) <= 0x1_0000_0000_0000 * 0x1_0000_0000_0000)
                by (nonlinear_arith)
                requires
                    abs_s(sw as int) <= 0x1_0000_0000_0000,
                    abs_s(sh as int) <= 0x1_0000_0000_0000,
            ;
        }
        let scaled_area: i128 = sw * sh;
        let thr = self.threshold.value();
        let n0 = self.rasterizer.color.len();
        proof {
            lemma_dims_from_len(
                self.rasterizer.width as int,
                self.rasterizer.height as int,
                self@.master.buf.len() as int,
            );
        }
        if scaled_area >= thr as i128 {
            let ghost v0 = self@;
            let ghost op = imgmtx_op(
                image@,
                x as int,
                y as int,
                cos as int,
                sin as int,
                scale_x as int,
                scale_y as int,
                pivot_x as int,
                pivot_y as int,
            );
            let ghost n = v0.parts.len();
            let mut done: Vec<Rasterizer> = Vec::new();
            while self.partitions.len() > 0
                invariant
                    done@.len() + self.partitions@.len() == n,
                    n == v0.parts.len(),
                    v0.wf(),
                    v0.master.width > 0,
                    v0.master.height > 0,
                    v0.master.width <= 0x100_0000,
                    v0.master.height <= 0x100_0000,
                    self.scheme == v0.scheme,
                    self.threshold == v0.threshold,
                    self.rasterizer.wf(),
                    self.rasterizer@.width == v0.master.width,
                    self.rasterizer@.height == v0.master.height,
                    image.wf(),
                    image@.width <= 0x100_0000,
                    image@.height <= 0x100_0000,
                    abs_s(x as int) <= 0x100_0000_0000,
                    abs_s(y as int) <= 0x100_0000_0000,
                    abs_s(cos as int) <= 0x2_0000,
                    abs_s(sin as int) <= 0x2_0000,
                    scale_x != 0,
                    scale_y != 0,
                    abs_s(scale_x as int) <= 0x100_0000,
                    abs_s(scale_y as int) <= 0x100_0000,
                    abs_s(pivot_x as int) <= 0x2_0000,
                    abs_s(pivot_y as int) <= 0x2_0000,
                    op == imgmtx_op(
                        image@,
                        x as int,
                        y as int,
                        cos as int,
                        sin as int,
                        scale_x as int,
                        scale_y as int,
                        pivot_x as int,
                        pivot_y as int,
                    ),
                    self.rasterizer@ == fan_s(v0.master, v0.parts, done@.len() as nat, op).0,
                    forall|i: int|
                        0 <= i < done@.len() ==> (#[trigger] done@[i])@ == fan_s(
                            v0.master,
                            v0.parts,
                            done@.len() as nat,
                            op,
                        ).1[i],
                    forall|i: int|
                        0 <= i < self.partitions@.len() ==> (#[trigger] self.partitions@[i])@
                            == v0.parts[done@.len() + i],
                decreases self.partitions@.len(),
            {
                let ghost k = done@.len() as nat;
                proof {
                    lemma_fan_suffix(v0.master, v0.parts, k, op);
                    lemma_fan_parts(v0.master, v0.parts, k, op);
                }
                let mut part = self.partitions.remove(0);
                let ox = part.offset_x;
                let oy = part.offset_y;
                let ghost p_pre = part@;
                let rxw: i128 = x as i128 - (ox as i128) * 65536;
                let ryw: i128 = y as i128 - (oy as i128) * 65536;
                proof {
                    assert(p_pre.off_x + p_pre.width <= v0.master.width);
                    assert(p_pre.off_y + p_pre.height <= v0.master.height);
                }
                part.pimgmtx(
                    image,
                    rxw as i64,
                    ryw as i64,
                    cos,
                    sin,
                    scale_x,
                    scale_y,
                    pivot_x,
                    pivot_y,
                );
                proof {
                    lemma_pimgmtx_s_cfg(
                        p_pre,
                        image@,
                        x - (p_pre.off_x as int) * 65536,
                        y - (p_pre.off_y as int) * 65536,
                        cos as int,
                        sin as int,
                        scale_x as int,
                        scale_y as int,
                        pivot_x as int,
                        pivot_y as int,
                    );
                    assert(part@ == op(p_pre));
                }
                let ghost m_pre = self.rasterizer@;
                self.rasterizer.blit(&part, ox as i64, oy as i64);
                done.push(part);
                proof {
                    lemma_blit_s_cfg(m_pre, part@, ox as int, oy as int);
                    lemma_fan_suffix(v0.master, v0.parts, (k + 1) as nat, op);
                    lemma_fan_parts(v0.master, v0.parts, (k + 1) as nat, op);
                }
            }
            self.partitions = done;
            proof {
                lemma_fan_parts(v0.master, v0.parts, n, op);
                lemma_fan_suffix(v0.master, v0.parts, n, op);
                assert(self@.parts =~= fan_s(v0.master, v0.parts, n, op).1);
                assert forall|i: int| 0 <= i < self@.parts.len() implies {
                    &&& (#[trigger] self@.parts[i]).wf()
                    &&& self@.parts[i].off_x + self@.parts[i].width <= self@.master.width
                    &&& self@.parts[i].off_y + self@.parts[i].height <= self@.master.height
                } by {
                    lemma_pimgmtx_s_cfg(
                        v0.parts[i],
                        image@,
                        x - (v0.parts[i].off_x as int) * 65536,
                        y - (v0.parts[i].off_y as int) * 65536,
                        cos as int,
                        sin as int,
                        scale_x as int,
                        scale_y as int,
                        pivot_x as int,
                        pivot_y as int,
                    );
                }
            }
        } else {
            let ghost m0 = self@.master;
            self.rasterizer.pimgmtx(image, x, y, cos, sin, scale_x, scale_y, pivot_x, pivot_y);
            proof {
                lemma_pimgmtx_s_cfg(
                    m0,
                    image@,
                    x as int,
                    y as int,
                    cos as int,
                    sin as int,
                    scale_x as int,
                    scale_y as int,
                    pivot_x as int,
                    pivot_y as int,
                );
            }
        }
    }
}

} // verus!
