//! Stitching rendered tiles into the full RGBA8 canvas.
//!
//! A capture renders the tiles of a `TilePlan` one after the other; the
//! renderer is outside work (it awaits the GPU), so `TiledCapture` is the
//! state of the capture between two renders: it names the next tile to
//! render, takes its pixels, and, once every tile is in, hands the canvas to
//! the `image` crate.
use vstd::prelude::*;
use crate::arith::{lemma_div_mod_parts, lemma_mul_mono};
use crate::image_out::{image_samples, image_size, rgba_image_from_raw, RgbaImage};
use crate::tiling::{
    lemma_pixel_in_own_tile, lemma_plan_shape, lemma_tile_in_image, lemma_tile_owns_pixel, PlanModel,
    TilePlan, TileRect,
};

verus! {

/// Column of the pixel that canvas byte `p` belongs to.
pub open spec fn px(m: PlanModel, p: int) -> int {
    (p / 4) % m.width
}

/// Row of the pixel that canvas byte `p` belongs to.
pub open spec fn py(m: PlanModel, p: int) -> int {
    (p / 4) / m.width
}

/// Bytes of the canvas: four per pixel, row by row.
pub open spec fn canvas_len(m: PlanModel) -> int {
    4 * m.width * m.height
}

/// Canvas byte `p` as tile `k` renders it: tile pixels are `tile_w` per
/// row, four bytes each, counted from the tile's top-left corner.
pub open spec fn tile_byte(m: PlanModel, k: int, tile: Seq<u8>, p: int) -> u8 {
    tile[((py(m, p) - m.tile_y0(k)) * m.tile_w + (px(m, p) - m.tile_x0(k))) * 4 + p % 4]
}

/// The canvas once the first `tiles.len()` tiles are in: every pixel of a
/// tile that has arrived holds that tile's bytes, every other pixel is zero.
pub open spec fn partial_canvas(m: PlanModel, tiles: Seq<Seq<u8>>) -> Seq<u8> {
    Seq::new(
        canvas_len(m) as nat,
        |p: int|
            {
                let k = m.tile_of(px(m, p), py(m, p));
                if 0 <= k < tiles.len() {
                    tile_byte(m, k, tiles[k], p)
                } else {
                    0u8
                }
            },
    )
}

/// A tile's pixel buffer reaches every byte of the tile's kept part.
pub open spec fn tile_len_ok(m: PlanModel, k: int, len: int) -> bool {
    4 * ((m.span_h(k) - 1) * m.tile_w + m.span_w(k)) <= len
}

/// Every canvas byte belongs to a pixel of the image.
pub proof fn lemma_byte_pixel(m: PlanModel, p: int)
    requires
        m.is_plan(),
        0 <= p < canvas_len(m),
    ensures
        0 <= px(m, p) < m.width,
        0 <= py(m, p) < m.height,
        p == 4 * (py(m, p) * m.width + px(m, p)) + p % 4,
        0 <= p % 4 < 4,
{
    let q = p / 4;
    vstd::arithmetic::div_mod::lemma_fundamental_div_mod(p, 4);
    vstd::arithmetic::div_mod::lemma_fundamental_div_mod(q, m.width);
    vstd::arithmetic::div_mod::lemma_mod_pos_bound(q, m.width);
    vstd::arithmetic::div_mod::lemma_div_pos_is_pos(q, m.width);
    assert(q < m.width * m.height) by (nonlinear_arith)
        requires p == 4 * q + p % 4, 0 <= p % 4, p < 4 * m.width * m.height;
    assert(q / m.width < m.height) by (nonlinear_arith)
        requires
            q == m.width * (q / m.width) + q % m.width,
            0 <= q % m.width,
            q < m.width * m.height,
            m.width > 0;
    assert(m.width * (q / m.width) == (q / m.width) * m.width) by (nonlinear_arith);
}

/// Accepting tile `tiles.len()` changes exactly the canvas bytes of that
/// tile's pixels, which take the tile's bytes; the pixels of the tiles that
/// arrived before keep theirs.
pub proof fn lemma_partial_canvas_push(m: PlanModel, tiles: Seq<Seq<u8>>, tile: Seq<u8>, p: int)
    requires
        m.is_plan(),
        tiles.len() < m.tile_count(),
        0 <= p < canvas_len(m),
    ensures
        partial_canvas(m, tiles.push(tile))[p] == if m.in_tile(tiles.len() as int, px(m, p), py(m, p)) {
            tile_byte(m, tiles.len() as int, tile, p)
        } else {
            partial_canvas(m, tiles)[p]
        },
{
    lemma_byte_pixel(m, p);
    let x = px(m, p);
    let y = py(m, p);
    let n = tiles.len() as int;
    lemma_pixel_in_own_tile(m, x, y);
    if m.in_tile(n, x, y) {
        lemma_plan_shape(m);
        assert(0 <= n);
        lemma_tile_owns_pixel(m, n, x, y);
    }
}

/// Once every tile is in, each canvas byte is the byte that the tile owning
/// its pixel rendered for it, at the pixel's offset inside that tile.
pub proof fn lemma_full_canvas(m: PlanModel, tiles: Seq<Seq<u8>>, p: int)
    requires
        m.is_plan(),
        tiles.len() == m.tile_count(),
        0 <= p < canvas_len(m),
    ensures
        0 <= m.tile_of(px(m, p), py(m, p)) < m.tile_count(),
        m.in_tile(m.tile_of(px(m, p), py(m, p)), px(m, p), py(m, p)),
        partial_canvas(m, tiles)[p] == tile_byte(
            m,
            m.tile_of(px(m, p), py(m, p)),
            tiles[m.tile_of(px(m, p), py(m, p))],
            p,
        ),
{
    lemma_byte_pixel(m, p);
    lemma_pixel_in_own_tile(m, px(m, p), py(m, p));
}

/// A planned tile can always be read back and stitched: its staging layout
/// exists, and the unpadded pixels that the readback yields reach every byte
/// of the tile's kept part.
pub proof fn lemma_readback_feeds_stitching(m: PlanModel, k: int)
    requires
        m.is_plan(),
        0 <= k < m.tile_count(),
    ensures
        crate::readback::layout_fits(m.tile_w, m.tile_h),
        tile_len_ok(m, k, m.tile_h * (4 * m.tile_w)),
{
    lemma_plan_shape(m);
    lemma_tile_in_image(m, k);
    let sw = m.span_w(k);
    let sh = m.span_h(k);
    lemma_mul_mono(sh - 1, m.tile_h - 1, m.tile_w);
    assert(4 * ((sh - 1) * m.tile_w + sw) <= m.tile_h * (4 * m.tile_w)) by (nonlinear_arith)
        requires
            (sh - 1) * m.tile_w <= (m.tile_h - 1) * m.tile_w,
            sw <= m.tile_w;
}

/// What a canvas holds, in terms of the plan alone: byte `c` of pixel
/// `(x, y)` sits at `4 * (y * width + x) + c`; it belongs to the tile in grid
/// column `x / tile_w` and grid row `y / tile_h`, numbered row by row; if
/// that tile has arrived the byte is the tile's byte `c` of its pixel
/// `(x % tile_w, y % tile_h)`, laid out `tile_w` pixels per row, otherwise it
/// is zero.
pub proof fn lemma_canvas_pixel(m: PlanModel, tiles: Seq<Seq<u8>>, x: int, y: int, c: int)
    requires
        m.is_plan(),
        0 <= x < m.width,
        0 <= y < m.height,
        0 <= c < 4,
    ensures
        partial_canvas(m, tiles).len() == 4 * m.width * m.height,
        0 <= 4 * (y * m.width + x) + c < 4 * m.width * m.height,
        0 <= (y / m.tile_h) * m.tiles_x + x / m.tile_w < m.tiles_x * m.tiles_y,
        partial_canvas(m, tiles)[4 * (y * m.width + x) + c] == if (y / m.tile_h) * m.tiles_x + x
            / m.tile_w < tiles.len() {
            tiles[(y / m.tile_h) * m.tiles_x + x / m.tile_w][4 * ((y % m.tile_h) * m.tile_w + x
                % m.tile_w) + c]
        } else {
            0u8
        },
{
    lemma_plan_shape(m);
    let p = 4 * (y * m.width + x) + c;
    assert(0 <= y * m.width) by (nonlinear_arith)
        requires 0 <= y, 0 < m.width;
    assert(y * m.width + x < (y + 1) * m.width) by (nonlinear_arith)
        requires x < m.width;
    lemma_mul_mono(y + 1, m.height, m.width);
    assert(4 * (m.height * m.width) == 4 * m.width * m.height) by (nonlinear_arith);
    lemma_div_mod_parts(y * m.width + x, 4, c);
    assert((y * m.width + x) * 4 + c == p) by (nonlinear_arith)
        requires p == 4 * (y * m.width + x) + c;
    lemma_div_mod_parts(y, m.width, x);
    assert(px(m, p) == x && py(m, p) == y);
    lemma_pixel_in_own_tile(m, x, y);
    let k = m.tile_of(x, y);
    let i = x / m.tile_w;
    let j = y / m.tile_h;
    vstd::arithmetic::div_mod::lemma_div_pos_is_pos(x, m.tile_w);
    vstd::arithmetic::div_mod::lemma_div_pos_is_pos(y, m.tile_h);
    vstd::arithmetic::div_mod::lemma_fundamental_div_mod(x, m.tile_w);
    vstd::arithmetic::div_mod::lemma_fundamental_div_mod(y, m.tile_h);
    vstd::arithmetic::div_mod::lemma_mod_pos_bound(x, m.tile_w);
    assert(i < m.tiles_x) by (nonlinear_arith)
        requires
            x == m.tile_w * i + x % m.tile_w,
            0 <= x % m.tile_w,
            x < m.width,
            m.tiles_x * m.tile_w >= m.width,
            m.tile_w > 0;
    lemma_div_mod_parts(j, m.tiles_x, i);
    assert(m.tile_x0(k) == i * m.tile_w);
    assert(m.tile_y0(k) == j * m.tile_h);
    assert(x - m.tile_x0(k) == x % m.tile_w) by (nonlinear_arith)
        requires x == m.tile_w * i + x % m.tile_w, m.tile_x0(k) == i * m.tile_w;
    assert(y - m.tile_y0(k) == y % m.tile_h) by (nonlinear_arith)
        requires y == m.tile_h * j + y % m.tile_h, m.tile_y0(k) == j * m.tile_h;
    assert(((y % m.tile_h) * m.tile_w + x % m.tile_w) * 4 + c == 4 * ((y % m.tile_h) * m.tile_w + x
        % m.tile_w) + c) by (nonlinear_arith);
}

/// Canvas byte range of row `r` of the kept part of tile `k`: exactly the
/// bytes of the tile's pixels in image row `tile_y0(k) + r`, and each takes
/// the tile byte at the same offset from the start of the tile's row `r`.
proof fn lemma_row_bytes(m: PlanModel, k: int, r: int, p: int)
    requires
        m.is_plan(),
        0 <= k < m.tile_count(),
        0 <= r < m.span_h(k),
        0 <= p < canvas_len(m),
    ensures
        ({
            let dst = 4 * ((m.tile_y0(k) + r) * m.width + m.tile_x0(k));
            &&& (dst <= p < dst + 4 * m.span_w(k)) <==> (m.in_tile(k, px(m, p), py(m, p)) && py(m, p)
                == m.tile_y0(k) + r)
            &&& (dst <= p < dst + 4 * m.span_w(k)) ==> ((py(m, p) - m.tile_y0(k)) * m.tile_w + (px(m, p)
                - m.tile_x0(k))) * 4 + p % 4 == 4 * r * m.tile_w + (p - dst)
        }),
{
    lemma_byte_pixel(m, p);
    lemma_plan_shape(m);
    let x = px(m, p);
    let y = py(m, p);
    let x0 = m.tile_x0(k);
    let y0 = m.tile_y0(k);
    let sw = m.span_w(k);
    let c = p % 4;
    let row = y0 + r;
    let dst = 4 * (row * m.width + x0);
    lemma_tile_in_image(m, k);
    // p = 4 * (y * W + x) + c
    if dst <= p < dst + 4 * sw {
        // then y * W + x lies in [row * W + x0, row * W + x0 + sw)
        assert(p - dst == 4 * (y * m.width + x - row * m.width - x0) + c) by (nonlinear_arith)
            requires
                p == 4 * (y * m.width + x) + c,
                dst == 4 * (row * m.width + x0);
        let e = y * m.width + x - row * m.width - x0;
        lemma_div_mod_parts(e, 4, c);
        assert(4 * e + c == e * 4 + c) by (nonlinear_arith);
        assert(0 <= e < sw);
        lemma_div_mod_parts(row, m.width, x0 + e);
        lemma_div_mod_parts(y, m.width, x);
        assert(y * m.width + x == row * m.width + (x0 + e));
        assert(y == row && x == x0 + e);
        assert(((y - y0) * m.tile_w + (x - x0)) * 4 + c == 4 * r * m.tile_w + (p - dst)) by (nonlinear_arith)
            requires y - y0 == r, x - x0 == e, p - dst == 4 * e + c;
    }
    if m.in_tile(k, x, y) && y == row {
        assert(dst <= p < dst + 4 * sw) by (nonlinear_arith)
            requires
                p == 4 * (y * m.width + x) + c,
                dst == 4 * (row * m.width + x0),
                y == row,
                x0 <= x < x0 + sw,
                0 <= c < 4;
    }
}

/// Copies the kept part of tile `rect.index` from its pixel buffer into the
/// canvas, row by row.
fn blit_tile(canvas: &mut Vec<u8>, plan: &TilePlan, rect: &TileRect, pixels: &[u8])
    requires
        plan.wf(),
        rect.index < plan@.tile_count(),
        rect.x0 == plan@.tile_x0(rect.index as int),
        rect.y0 == plan@.tile_y0(rect.index as int),
        rect.width == plan@.span_w(rect.index as int),
        rect.height == plan@.span_h(rect.index as int),
        old(canvas)@.len() == canvas_len(plan@),
        tile_len_ok(plan@, rect.index as int, pixels@.len() as int),
    ensures
        final(canvas)@.len() == old(canvas)@.len(),
        forall|p: int|
            0 <= p < old(canvas)@.len() ==> #[trigger] final(canvas)@[p] == if plan@.in_tile(
                rect.index as int,
                px(plan@, p),
                py(plan@, p),
            ) {
                tile_byte(plan@, rect.index as int, pixels@, p)
            } else {
                old(canvas)@[p]
            },
{
    let ghost m = plan@;
    let ghost k = rect.index as int;
    let ghost old_canvas = canvas@;
    proof {
        lemma_plan_shape(m);
    }
    let full_stride: usize = (plan.width * 4) as usize;
    let copy_bytes: usize = (rect.width * 4) as usize;
    let mut row: u32 = 0;
    while row < rect.height
        invariant
            plan.wf(),
            m == plan@,
            k == rect.index,
            rect.index < m.tile_count(),
            rect.x0 == m.tile_x0(k),
            rect.y0 == m.tile_y0(k),
            rect.width == m.span_w(k),
            rect.height == m.span_h(k),
            full_stride == 4 * m.width,
            copy_bytes == 4 * m.span_w(k),
            tile_len_ok(m, k, pixels@.len() as int),
            row <= rect.height,
            canvas@.len() == canvas_len(m),
            old_canvas.len() == canvas_len(m),
            forall|p: int|
                0 <= p < canvas_len(m) ==> #[trigger] canvas@[p] == if m.in_tile(k, px(m, p), py(m, p))
                    && py(m, p) < m.tile_y0(k) + row {
                    tile_byte(m, k, pixels@, p)
                } else {
                    old_canvas[p]
                },
        decreases rect.height - row,
    {
        proof {
            lemma_plan_shape(m);
            lemma_mul_mono(row as int, (m.span_h(k) - 1) as int, m.tile_w);
            lemma_mul_mono((m.span_h(k) - 1) as int, m.tile_h - 1, m.tile_w);
            assert(m.tile_h * m.tile_w * 4 <= u32::MAX) by (nonlinear_arith)
                requires m.tile_w * m.tile_h * 4 <= u32::MAX;
            assert((m.tile_h - 1) * m.tile_w <= m.tile_h * m.tile_w) by (nonlinear_arith)
                requires m.tile_w >= 0;
            lemma_tile_in_image(m, k);
            let yr = m.tile_y0(k) + row;
            assert(yr < m.height);
            lemma_mul_mono(yr, m.height - 1, m.width);
            assert(4 * (yr * m.width + m.tile_x0(k)) + 4 * m.span_w(k) <= canvas_len(m)) by (nonlinear_arith)
                requires
                    yr * m.width <= (m.height - 1) * m.width,
                    m.tile_x0(k) + m.span_w(k) <= m.width,
                    canvas_len(m) == 4 * m.width * m.height;
            assert(0 <= yr * m.width) by (nonlinear_arith)
                requires 0 <= yr, 0 < m.width;
        }
        let src_start: usize = (row * plan.tile_w) as usize * 4;
        assert(src_start == 4 * row * m.tile_w) by (nonlinear_arith)
            requires src_start == (row * plan.tile_w) * 4, m.tile_w == plan.tile_w;
        let dst_row: u32 = rect.y0 + row;
        assert(dst_row * full_stride + rect.x0 * 4 + copy_bytes <= canvas_len(m)) by (nonlinear_arith)
            requires
                full_stride == 4 * m.width,
                dst_row == m.tile_y0(k) + row,
                rect.x0 == m.tile_x0(k),
                copy_bytes == 4 * m.span_w(k),
                4 * ((m.tile_y0(k) + row) * m.width + m.tile_x0(k)) + 4 * m.span_w(k) <= canvas_len(m);
        assert(canvas_len(m) <= usize::MAX);
        assert(0 <= dst_row * full_stride) by (nonlinear_arith)
            requires 0 <= dst_row, 0 <= full_stride;
        let dst_start: usize = dst_row as usize * full_stride + rect.x0 as usize * 4;
        assert(dst_start == 4 * ((m.tile_y0(k) + row) * m.width + m.tile_x0(k))) by (nonlinear_arith)
            requires
                dst_start == dst_row * full_stride + rect.x0 * 4,
                full_stride == 4 * m.width,
                dst_row == m.tile_y0(k) + row,
                rect.x0 == m.tile_x0(k);
        assert(src_start + copy_bytes <= pixels@.len()) by (nonlinear_arith)
            requires
                src_start == row * m.tile_w * 4,
                copy_bytes == 4 * m.span_w(k),
                row * m.tile_w <= (m.span_h(k) - 1) * m.tile_w,
                tile_len_ok(m, k, pixels@.len() as int),
                4 * ((m.span_h(k) - 1) * m.tile_w + m.span_w(k)) <= pixels@.len();
        let mut j: usize = 0;
        while j < copy_bytes
            invariant
                plan.wf(),
                m == plan@,
                k == rect.index,
                rect.index < m.tile_count(),
                rect.x0 == m.tile_x0(k),
                rect.y0 == m.tile_y0(k),
                rect.height == m.span_h(k),
                copy_bytes == 4 * m.span_w(k),
                row < rect.height,
                src_start == 4 * row * m.tile_w,
                src_start + copy_bytes <= pixels.len(),
                dst_start == 4 * ((m.tile_y0(k) + row) * m.width + m.tile_x0(k)),
                dst_start + copy_bytes <= canvas_len(m),
                j <= copy_bytes,
                canvas@.len() == canvas_len(m),
                old_canvas.len() == canvas_len(m),
                forall|p: int|
                    0 <= p < canvas_len(m) ==> #[trigger] canvas@[p] == if (m.in_tile(k, px(m, p), py(m, p))
                        && py(m, p) < m.tile_y0(k) + row) || (dst_start <= p < dst_start + j) {
                        tile_byte(m, k, pixels@, p)
                    } else {
                        old_canvas[p]
                    },
            decreases copy_bytes - j,
        {
            proof {
                lemma_row_bytes(m, k, row as int, (dst_start + j) as int);
            }
            canvas[dst_start + j] = pixels[src_start + j];
            j += 1;
        }
        proof {
            assert forall|p: int| 0 <= p < canvas_len(m) implies #[trigger] canvas@[p] == if m.in_tile(
                k,
                px(m, p),
                py(m, p),
            ) && py(m, p) < m.tile_y0(k) + row + 1 {
                tile_byte(m, k, pixels@, p)
            } else {
                old_canvas[p]
            } by {
                lemma_row_bytes(m, k, row as int, p);
            }
        }
        row += 1;
    }
}

/// The model of a capture in progress.
pub struct CaptureModel {
    pub plan: PlanModel,
    /// Number of tiles accepted so far; the next tile to render.
    pub next: int,
    /// The pixel buffers of the accepted tiles, in order.
    pub received: Seq<Seq<u8>>,
    /// The canvas bytes.
    pub canvas: Seq<u8>,
}

/// A tiled capture between two tile renders.
pub struct TiledCapture {
    plan: TilePlan,
    canvas: Vec<u8>,
    next: u32,
    received: Ghost<Seq<Seq<u8>>>,
}

impl View for TiledCapture {
    type V = CaptureModel;

    closed spec fn view(&self) -> CaptureModel {
        CaptureModel {
            plan: self.plan@,
            next: self.next as int,
            received: self.received@,
            canvas: self.canvas@,
        }
    }
}

impl TiledCapture {
    /// The capture state is consistent: the plan is valid, the tiles arrive
    /// in order, and the canvas holds exactly the tiles accepted so far.
    pub open spec fn wf(&self) -> bool {
        &&& self@.plan.is_plan()
        &&& 0 <= self@.next <= self@.plan.tile_count()
        &&& self@.received.len() == self@.next
        &&& self@.canvas == partial_canvas(self@.plan, self@.received)
    }

    /// Starts a capture: an all-zero canvas, no tile accepted yet.
    pub fn new(plan: TilePlan) -> (r: TiledCapture)
        requires
            plan.wf(),
        ensures
            r.wf(),
            r@.plan == plan@,
            r@.next == 0,
            r@.received == Seq::<Seq<u8>>::empty(),
    {
        proof {
            lemma_plan_shape(plan@);
        }
        assert(plan.width * plan.height * 4 <= usize::MAX) by (nonlinear_arith)
            requires 4 * plan.width * plan.height <= usize::MAX;
        assert(plan.width * plan.height <= usize::MAX) by (nonlinear_arith)
            requires plan.width * plan.height * 4 <= usize::MAX;
        let bytes: u64 = plan.width as u64 * plan.height as u64 * 4;
        let canvas: Vec<u8> = vec![0u8; bytes as usize];
        let ghost received = Seq::<Seq<u8>>::empty();
        assert forall|i: int| 0 <= i < canvas@.len() implies canvas@[i] == 0u8 by {
            assert(cloned(0u8, canvas@[i]));
        }
        let r = TiledCapture { plan, canvas, next: 0, received: Ghost(received) };
        assert(canvas@.len() == canvas_len(r.plan@)) by (nonlinear_arith)
            requires
                canvas@.len() == bytes,
                bytes == plan.width * plan.height * 4,
                canvas_len(r.plan@) == 4 * plan.width * plan.height;
        assert(r.canvas@ =~= partial_canvas(r.plan@, received));
        r
    }

    /// The plan of the capture.
    pub fn plan(&self) -> (r: &TilePlan)
        requires
            self.wf(),
        ensures
            r@ == self@.plan,
            r.wf(),
    {
        &self.plan
    }

    /// The tile to render next, or `None` once every tile is in.
    pub fn next_tile(&self) -> (r: Option<TileRect>)
        requires
            self.wf(),
        ensures
            r is None <==> self@.next == self@.plan.tile_count(),
            r matches Some(t) ==> {
                &&& t.index == self@.next
                &&& t.x0 == self@.plan.tile_x0(self@.next)
                &&& t.y0 == self@.plan.tile_y0(self@.next)
                &&& t.width == self@.plan.span_w(self@.next)
                &&& t.height == self@.plan.span_h(self@.next)
            },
    {
        if self.next < self.plan.tile_count() {
            Some(self.plan.tile(self.next))
        } else {
            None
        }
    }

    /// Takes the rendered pixels of the next tile (`tile_w * tile_h` RGBA8
    /// pixels, row by row) and copies its kept part into the canvas.
    pub fn accept_tile(&mut self, pixels: &[u8])
        requires
            old(self).wf(),
            old(self)@.next < old(self)@.plan.tile_count(),
            tile_len_ok(old(self)@.plan, old(self)@.next, pixels@.len() as int),
        ensures
            final(self).wf(),
            final(self)@.plan == old(self)@.plan,
            final(self)@.next == old(self)@.next + 1,
            final(self)@.received == old(self)@.received.push(pixels@),
    {
        let rect = self.plan.tile(self.next);
        let ghost old_received = self.received@;
        blit_tile(&mut self.canvas, &self.plan, &rect, pixels);
        proof {
            let m = self.plan@;
            assert forall|p: int| 0 <= p < canvas_len(m) implies #[trigger] self.canvas@[p]
                == partial_canvas(m, old_received.push(pixels@))[p] by {
                lemma_partial_canvas_push(m, old_received, pixels@, p);
            }
            assert(self.canvas@ =~= partial_canvas(m, old_received.push(pixels@)));
        }
        self.received = Ghost(old_received.push(pixels@));
        self.next = self.next + 1;
    }

    /// Ends the capture once every tile is in: the canvas becomes an RGBA8
    /// image of the plan's size whose samples are the stitched tiles.
    pub fn finish(self) -> (r: Option<RgbaImage>)
        requires
            self.wf(),
            self@.next == self@.plan.tile_count(),
        ensures
            r matches Some(img) && image_samples(img) == partial_canvas(self@.plan, self@.received)
                && image_size(img) == (self@.plan.width as u32, self@.plan.height as u32),
    {
        proof {
            lemma_plan_shape(self.plan@);
            assert(4 * self.plan.width * self.plan.height == 4 * (self.plan.width * self.plan.height)) by (nonlinear_arith);
        }
        rgba_image_from_raw(self.plan.width, self.plan.height, self.canvas)
    }
}

} // verus!
