//! The tile plan of a tiled capture.
//!
//! An image of `width` x `height` pixels is cut into a grid of
//! `tiles_x` x `tiles_y` tiles of `tile_w` x `tile_h` pixels, where no tile
//! side exceeds `limit`, the smaller of the requested tile size and the GPU's
//! texture limit.  Tile sides are rounded up to a multiple of four (unless
//! that would exceed the limit).  The tiles of the last column and row may
//! reach past the image; only their part inside the image is kept.
use vstd::prelude::*;
use crate::arith::{ceil_div, lemma_ceil_div, lemma_ceil_div_le, lemma_div_mod_parts, lemma_mul_mono};
use crate::readback::{layout_fits, ReadbackLayout};

verus! {

pub open spec fn min_int(a: int, b: int) -> int {
    if a <= b { a } else { b }
}

/// `a` rounded up to a multiple of four.
pub open spec fn round_up4(a: int) -> int {
    ((a + 3) / 4) * 4
}

/// The mathematical content of a tile plan.
pub struct PlanModel {
    pub width: int,
    pub height: int,
    pub limit: int,
    pub tiles_x: int,
    pub tiles_y: int,
    pub tile_w: int,
    pub tile_h: int,
}

/// The plan for a `width` x `height` image whose tiles may not exceed `limit`:
/// as few tiles per axis as the limit allows, each as even as possible,
/// rounded up to a multiple of four and clamped to the limit.
pub open spec fn plan_model(width: int, height: int, limit: int) -> PlanModel {
    let tiles_x = ceil_div(width, limit);
    let tiles_y = ceil_div(height, limit);
    PlanModel {
        width,
        height,
        limit,
        tiles_x,
        tiles_y,
        tile_w: min_int(round_up4(ceil_div(width, tiles_x)), limit),
        tile_h: min_int(round_up4(ceil_div(height, tiles_y)), limit),
    }
}

/// The inputs for which a tiled capture can be planned: non-empty image,
/// non-zero limit, and every 32-bit size computation of the capture (tile
/// counts, tile sizes, the canvas row stride, the staging layout of a tile)
/// free of overflow; the canvas of `4 * width * height` bytes must be
/// addressable.
pub open spec fn plan_fits(width: int, height: int, limit: int) -> bool {
    let m = plan_model(width, height, limit);
    &&& 0 < width
    &&& 0 < height
    &&& 0 < limit <= u32::MAX
    &&& width + limit - 1 <= u32::MAX
    &&& height + limit - 1 <= u32::MAX
    &&& width + m.tiles_x - 1 <= u32::MAX
    &&& height + m.tiles_y - 1 <= u32::MAX
    &&& ceil_div(width, m.tiles_x) + 3 <= u32::MAX
    &&& ceil_div(height, m.tiles_y) + 3 <= u32::MAX
    &&& 4 * width <= u32::MAX
    &&& 4 * width * height <= usize::MAX
    &&& m.tiles_x * m.tiles_y <= u32::MAX
    &&& layout_fits(m.tile_w, m.tile_h)
}

impl PlanModel {
    /// A plan built by `plan_model` from inputs that `plan_fits` accepts.
    pub open spec fn is_plan(self) -> bool {
        &&& plan_fits(self.width, self.height, self.limit)
        &&& self == plan_model(self.width, self.height, self.limit)
    }

    pub open spec fn tile_count(self) -> int {
        self.tiles_x * self.tiles_y
    }

    /// Left edge of tile `k`; tiles are numbered row by row.
    pub open spec fn tile_x0(self, k: int) -> int {
        (k % self.tiles_x) * self.tile_w
    }

    /// Top edge of tile `k`.
    pub open spec fn tile_y0(self, k: int) -> int {
        (k / self.tiles_x) * self.tile_h
    }

    /// Width of the part of tile `k` inside the image.
    pub open spec fn span_w(self, k: int) -> int {
        min_int(self.tile_w, self.width - self.tile_x0(k))
    }

    /// Height of the part of tile `k` inside the image.
    pub open spec fn span_h(self, k: int) -> int {
        min_int(self.tile_h, self.height - self.tile_y0(k))
    }

    /// Pixel `(x, y)` lies in the kept part of tile `k`.
    pub open spec fn in_tile(self, k: int, x: int, y: int) -> bool {
        &&& self.tile_x0(k) <= x < self.tile_x0(k) + self.span_w(k)
        &&& self.tile_y0(k) <= y < self.tile_y0(k) + self.span_h(k)
    }

    /// The tile that pixel `(x, y)` belongs to.
    pub open spec fn tile_of(self, x: int, y: int) -> int {
        (y / self.tile_h) * self.tiles_x + x / self.tile_w
    }
}

/// A tile plan; see `plan_model`.
#[derive(Clone, Copy, Debug, PartialEq, Eq)]
pub struct TilePlan {
    pub width: u32,
    pub height: u32,
    pub tile_limit: u32,
    pub tiles_x: u32,
    pub tiles_y: u32,
    pub tile_w: u32,
    pub tile_h: u32,
}

impl View for TilePlan {
    type V = PlanModel;

    open spec fn view(&self) -> PlanModel {
        PlanModel {
            width: self.width as int,
            height: self.height as int,
            limit: self.tile_limit as int,
            tiles_x: self.tiles_x as int,
            tiles_y: self.tiles_y as int,
            tile_w: self.tile_w as int,
            tile_h: self.tile_h as int,
        }
    }
}

/// The kept part of one tile, in image coordinates.
#[derive(Clone, Copy, Debug, PartialEq, Eq)]
pub struct TileRect {
    /// Position of the tile in row-by-row order, from 0.
    pub index: u32,
    pub x0: u32,
    pub y0: u32,
    /// Width of the kept part (the tile itself is `tile_w` wide).
    pub width: u32,
    /// Height of the kept part.
    pub height: u32,
}

/// Facts about the model that follow from the plan's definition: the grid
/// dimensions are positive, every tile side is at least the even share and
/// at most the limit, the grid covers the image and its last column and row
/// start inside it.
pub proof fn lemma_plan_shape(m: PlanModel)
    requires
        m.is_plan(),
    ensures
        1 <= m.tiles_x <= m.width,
        1 <= m.tiles_y <= m.height,
        1 <= m.tile_w <= m.limit,
        1 <= m.tile_h <= m.limit,
        m.tile_w % 4 == 0 || m.tile_w == m.limit,
        m.tile_h % 4 == 0 || m.tile_h == m.limit,
        m.tiles_x * m.tile_w >= m.width,
        m.tiles_y * m.tile_h >= m.height,
        (m.tiles_x - 1) * m.tile_w < m.width,
        (m.tiles_y - 1) * m.tile_h < m.height,
{
    lemma_axis_shape(m.width, m.limit);
    lemma_axis_shape(m.height, m.limit);
}

/// One axis of the plan: `n` pixels cut into `t = ceil(n / l)` pieces of
/// `s = min(round_up4(ceil(n / t)), l)` pixels.
proof fn lemma_axis_shape(n: int, l: int)
    requires
        0 < n,
        0 < l,
    ensures
        ({
            let t = ceil_div(n, l);
            let s = min_int(round_up4(ceil_div(n, t)), l);
            &&& 1 <= t <= n
            &&& 1 <= s <= l
            &&& s % 4 == 0 || s == l
            &&& t * s >= n
            &&& (t - 1) * s < n
        }),
{
    let t = ceil_div(n, l);
    lemma_ceil_div(n, l);
    assert(n <= l * n) by (nonlinear_arith)
        requires n > 0, l >= 1;
    lemma_ceil_div_le(n, l, n);
    let c = ceil_div(n, t);
    lemma_ceil_div(n, t);
    // c <= l because t * l >= n
    assert(n <= t * l) by (nonlinear_arith)
        requires l * t >= n;
    lemma_ceil_div_le(n, t, l);
    let r = round_up4(c);
    assert(c <= r <= c + 3 && r % 4 == 0) by {
        vstd::arithmetic::div_mod::lemma_fundamental_div_mod(c + 3, 4);
        vstd::arithmetic::div_mod::lemma_mod_pos_bound(c + 3, 4);
        vstd::arithmetic::div_mod::lemma_mod_multiples_basic((c + 3) / 4, 4);
    }
    let s = min_int(r, l);
    assert(t * s >= n) by {
        lemma_mul_mono(c, s, t);
    }
    assert((t - 1) * s < n) by {
        lemma_mul_mono(s, l, t - 1);
        assert((t - 1) * l < n) by (nonlinear_arith)
            requires l * t < n + l;
    }
}

/// The plan is the tightest one the limit allows: the fewest tiles per axis
/// whose sides stay within the limit, and a tile side that is the least
/// multiple of four covering the axis with that many tiles, or the limit
/// when that multiple would exceed it.
pub proof fn lemma_plan_is_tightest(m: PlanModel)
    requires
        m.is_plan(),
    ensures
        (m.tiles_x - 1) * m.limit < m.width <= m.tiles_x * m.limit,
        (m.tiles_y - 1) * m.limit < m.height <= m.tiles_y * m.limit,
        m.tile_w <= m.limit,
        m.tile_h <= m.limit,
        m.tile_w % 4 == 0 || m.tile_w == m.limit,
        m.tile_h % 4 == 0 || m.tile_h == m.limit,
        m.tiles_x * m.tile_w >= m.width,
        m.tiles_y * m.tile_h >= m.height,
        forall|s: int| 0 < s < m.tile_w && s % 4 == 0 ==> #[trigger] (m.tiles_x * s) < m.width,
        forall|s: int| 0 < s < m.tile_h && s % 4 == 0 ==> #[trigger] (m.tiles_y * s) < m.height,
{
    lemma_plan_shape(m);
    lemma_axis_tightest(m.width, m.limit);
    lemma_axis_tightest(m.height, m.limit);
}

/// One axis of `lemma_plan_is_tightest`.
proof fn lemma_axis_tightest(n: int, l: int)
    requires
        0 < n,
        0 < l,
    ensures
        ({
            let t = ceil_div(n, l);
            let s = min_int(round_up4(ceil_div(n, t)), l);
            &&& (t - 1) * l < n <= t * l
            &&& forall|q: int| 0 < q < s && q % 4 == 0 ==> #[trigger] (t * q) < n
        }),
{
    lemma_axis_shape(n, l);
    let t = ceil_div(n, l);
    lemma_ceil_div(n, l);
    assert((t - 1) * l < n && n <= t * l) by (nonlinear_arith)
        requires l * t >= n, l * t < n + l;
    let c = ceil_div(n, t);
    lemma_ceil_div(n, t);
    let r = round_up4(c);
    vstd::arithmetic::div_mod::lemma_fundamental_div_mod(c + 3, 4);
    vstd::arithmetic::div_mod::lemma_mod_pos_bound(c + 3, 4);
    vstd::arithmetic::div_mod::lemma_mod_multiples_basic((c + 3) / 4, 4);
    assert(r - 4 < c);
    let s = min_int(r, l);
    assert forall|q: int| 0 < q < s && q % 4 == 0 implies #[trigger] (t * q) < n by {
        vstd::arithmetic::div_mod::lemma_fundamental_div_mod(q, 4);
        assert(q <= r - 4);
        assert(q <= c - 1);
        lemma_mul_mono(q, c - 1, t);
        assert(t * (c - 1) < n) by (nonlinear_arith)
            requires t * c < n + t;
    }
}

/// Every pixel of the image lies in the tile `tile_of` names.
pub proof fn lemma_pixel_in_own_tile(m: PlanModel, x: int, y: int)
    requires
        m.is_plan(),
        0 <= x < m.width,
        0 <= y < m.height,
    ensures
        0 <= m.tile_of(x, y) < m.tile_count(),
        m.in_tile(m.tile_of(x, y), x, y),
{
    lemma_plan_shape(m);
    let i = x / m.tile_w;
    let j = y / m.tile_h;
    vstd::arithmetic::div_mod::lemma_fundamental_div_mod(x, m.tile_w);
    vstd::arithmetic::div_mod::lemma_mod_pos_bound(x, m.tile_w);
    vstd::arithmetic::div_mod::lemma_fundamental_div_mod(y, m.tile_h);
    vstd::arithmetic::div_mod::lemma_mod_pos_bound(y, m.tile_h);
    vstd::arithmetic::div_mod::lemma_div_pos_is_pos(x, m.tile_w);
    vstd::arithmetic::div_mod::lemma_div_pos_is_pos(y, m.tile_h);
    assert(i < m.tiles_x) by (nonlinear_arith)
        requires
            x == m.tile_w * i + x % m.tile_w,
            0 <= x % m.tile_w,
            x < m.width,
            m.tiles_x * m.tile_w >= m.width,
            m.tile_w > 0;
    assert(j < m.tiles_y) by (nonlinear_arith)
        requires
            y == m.tile_h * j + y % m.tile_h,
            0 <= y % m.tile_h,
            y < m.height,
            m.tiles_y * m.tile_h >= m.height,
            m.tile_h > 0;
    let k = j * m.tiles_x + i;
    lemma_div_mod_parts(j, m.tiles_x, i);
    assert(k < (j + 1) * m.tiles_x) by (nonlinear_arith)
        requires k == j * m.tiles_x + i, i < m.tiles_x;
    lemma_mul_mono(j + 1, m.tiles_y, m.tiles_x);
    assert(0 <= k) by (nonlinear_arith)
        requires k == j * m.tiles_x + i, 0 <= i, 0 <= j, 0 < m.tiles_x;
    assert(m.tile_x0(k) == i * m.tile_w);
    assert(m.tile_y0(k) == j * m.tile_h);
    assert(i * m.tile_w == m.tile_w * i) by (nonlinear_arith);
    assert(j * m.tile_h == m.tile_h * j) by (nonlinear_arith);
}

/// A pixel in the kept part of tile `k` lies in the image, and `tile_of`
/// names `k` for it: the kept parts of distinct tiles do not overlap.
pub proof fn lemma_tile_owns_pixel(m: PlanModel, k: int, x: int, y: int)
    requires
        m.is_plan(),
        0 <= k < m.tile_count(),
        m.in_tile(k, x, y),
    ensures
        0 <= x < m.width,
        0 <= y < m.height,
        m.tile_of(x, y) == k,
{
    lemma_plan_shape(m);
    let i = k % m.tiles_x;
    let j = k / m.tiles_x;
    vstd::arithmetic::div_mod::lemma_fundamental_div_mod(k, m.tiles_x);
    vstd::arithmetic::div_mod::lemma_mod_pos_bound(k, m.tiles_x);
    vstd::arithmetic::div_mod::lemma_div_pos_is_pos(k, m.tiles_x);
    assert(0 <= i * m.tile_w && 0 <= j * m.tile_h) by (nonlinear_arith)
        requires 0 <= i, 0 <= j, 0 < m.tile_w, 0 < m.tile_h;
    lemma_div_mod_parts(i, m.tile_w, x - m.tile_x0(k));
    lemma_div_mod_parts(j, m.tile_h, y - m.tile_y0(k));
    assert(k == j * m.tiles_x + i) by (nonlinear_arith)
        requires k == m.tiles_x * j + i;
}

/// The kept part of every tile is a non-empty rectangle inside the image,
/// no larger than the tile.
pub proof fn lemma_tile_in_image(m: PlanModel, k: int)
    requires
        m.is_plan(),
        0 <= k < m.tile_count(),
    ensures
        0 <= k % m.tiles_x < m.tiles_x,
        0 <= k / m.tiles_x < m.tiles_y,
        0 <= m.tile_x0(k),
        0 <= m.tile_y0(k),
        0 < m.span_w(k) <= m.tile_w,
        0 < m.span_h(k) <= m.tile_h,
        m.tile_x0(k) + m.span_w(k) <= m.width,
        m.tile_y0(k) + m.span_h(k) <= m.height,
{
    lemma_plan_shape(m);
    vstd::arithmetic::div_mod::lemma_mod_pos_bound(k, m.tiles_x);
    vstd::arithmetic::div_mod::lemma_div_pos_is_pos(k, m.tiles_x);
    vstd::arithmetic::div_mod::lemma_fundamental_div_mod(k, m.tiles_x);
    let i = k % m.tiles_x;
    let j = k / m.tiles_x;
    assert(j < m.tiles_y) by (nonlinear_arith)
        requires
            k == m.tiles_x * j + i,
            0 <= i,
            k < m.tiles_x * m.tiles_y,
            m.tiles_x > 0;
    lemma_mul_mono(i, m.tiles_x - 1, m.tile_w);
    lemma_mul_mono(j, m.tiles_y - 1, m.tile_h);
    lemma_mul_mono(0, i, m.tile_w);
    lemma_mul_mono(0, j, m.tile_h);
}

impl TilePlan {
    pub open spec fn wf(&self) -> bool {
        &&& self@.is_plan()
    }

    /// Plans the capture of a `width` x `height` image whose tiles may be at
    /// most `max_tile_dim` pixels and at most the GPU's `device_limit` on
    /// each side.  `None` where a size computation of the capture would
    /// overflow or divide by zero.
    pub fn new(width: u32, height: u32, max_tile_dim: u32, device_limit: u32) -> (r: Option<TilePlan>)
        ensures
            r is Some <==> plan_fits(
                width as int,
                height as int,
                min_int(max_tile_dim as int, device_limit as int),
            ),
            r matches Some(p) ==> {
                &&& p.wf()
                &&& p.width == width
                &&& p.height == height
                &&& p.tile_limit == min_int(max_tile_dim as int, device_limit as int)
                &&& p.tile_w <= max_tile_dim && p.tile_w <= device_limit
                &&& p.tile_h <= max_tile_dim && p.tile_h <= device_limit
                &&& p.tile_w % 4 == 0 || p.tile_w == p.tile_limit
                &&& p.tile_h % 4 == 0 || p.tile_h == p.tile_limit
                &&& p.tiles_x * p.tile_w >= width && (p.tiles_x - 1) * p.tile_w < width
                &&& p.tiles_y * p.tile_h >= height && (p.tiles_y - 1) * p.tile_h < height
            },
    {
        let limit: u32 = if max_tile_dim < device_limit { max_tile_dim } else { device_limit };
        let ghost lim = limit as int;
        if width == 0 || height == 0 || limit == 0 {
            return None;
        }
        if width > u32::MAX - (limit - 1) || height > u32::MAX - (limit - 1) {
            return None;
        }
        let tiles_x: u32 = (width + (limit - 1)) / limit;
        let tiles_y: u32 = (height + (limit - 1)) / limit;
        proof {
            lemma_ceil_div(width as int, lim);
            lemma_ceil_div(height as int, lim);
        }
        if width > u32::MAX - (tiles_x - 1) || height > u32::MAX - (tiles_y - 1) {
            return None;
        }
        let even_w: u32 = (width + (tiles_x - 1)) / tiles_x;
        let even_h: u32 = (height + (tiles_y - 1)) / tiles_y;
        if even_w > u32::MAX - 3 || even_h > u32::MAX - 3 {
            return None;
        }
        let sum_w: u32 = even_w + 3;
        let sum_h: u32 = even_h + 3;
        let rounded_w: u32 = sum_w & !3u32;
        let rounded_h: u32 = sum_h & !3u32;
        assert(sum_w & !3u32 == (sum_w / 4) * 4) by (bit_vector);
        assert(sum_h & !3u32 == (sum_h / 4) * 4) by (bit_vector);
        let tile_w: u32 = if rounded_w < limit { rounded_w } else { limit };
        let tile_h: u32 = if rounded_h < limit { rounded_h } else { limit };
        if width > u32::MAX / 4 {
            return None;
        }
        proof {
            assert(4 * width * height <= 0xffff_ffff * 0xffff_ffff) by (nonlinear_arith)
                requires 4 * width <= 0xffff_ffff, height <= 0xffff_ffff;
            assert((width as int) * (height as int) * 4 == 4 * width * height) by (nonlinear_arith);
        }
        if width as u64 * height as u64 * 4 > usize::MAX as u64 {
            return None;
        }
        proof {
            crate::readback::lemma_product_fits_u64(tiles_x, tiles_y);
        }
        if tiles_x as u64 * tiles_y as u64 > u32::MAX as u64 {
            return None;
        }
        match ReadbackLayout::new(tile_w, tile_h) {
            None => None,
            Some(_) => {
                let plan = TilePlan {
                    width,
                    height,
                    tile_limit: limit,
                    tiles_x,
                    tiles_y,
                    tile_w,
                    tile_h,
                };
                assert(plan@ == plan_model(width as int, height as int, lim));
                proof {
                    lemma_plan_shape(plan@);
                }
                Some(plan)
            },
        }
    }

    /// Number of tiles of the plan.
    pub fn tile_count(&self) -> (n: u32)
        requires
            self.wf(),
        ensures
            n == self@.tile_count(),
    {
        self.tiles_x * self.tiles_y
    }

    /// The kept part of tile `k`, tiles numbered row by row.
    pub fn tile(&self, k: u32) -> (r: TileRect)
        requires
            self.wf(),
            k < self@.tile_count(),
        ensures
            r.index == k,
            r.x0 == self@.tile_x0(k as int),
            r.y0 == self@.tile_y0(k as int),
            r.width == self@.span_w(k as int),
            r.height == self@.span_h(k as int),
            r.x0 == (k % self.tiles_x) * self.tile_w,
            r.y0 == (k / self.tiles_x) * self.tile_h,
            r.width == if self.tile_w <= self.width - r.x0 { self.tile_w as int } else { self.width - r.x0 },
            r.height == if self.tile_h <= self.height - r.y0 { self.tile_h as int } else { self.height - r.y0 },
            0 < r.width <= self.tile_w,
            0 < r.height <= self.tile_h,
            r.x0 + r.width <= self.width,
            r.y0 + r.height <= self.height,
    {
        proof {
            lemma_tile_in_image(self@, k as int);
        }
        let x0: u32 = (k % self.tiles_x) * self.tile_w;
        let y0: u32 = (k / self.tiles_x) * self.tile_h;
        let rest_w: u32 = self.width - x0;
        let rest_h: u32 = self.height - y0;
        TileRect {
            index: k,
            x0,
            y0,
            width: if self.tile_w < rest_w { self.tile_w } else { rest_w },
            height: if self.tile_h < rest_h { self.tile_h } else { rest_h },
        }
    }
}

} // verus!
