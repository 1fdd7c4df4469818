//! Row layout of the staging buffer that a rendered tile is copied into.
//!
//! wgpu requires every row of a texture-to-buffer copy to start at a multiple
//! of `COPY_BYTES_PER_ROW_ALIGNMENT`, so a tile of `tile_w` RGBA8 pixels is
//! read back with `padded_bytes_per_row >= 4 * tile_w` bytes per row, and the
//! padding has to be stripped again.
use vstd::prelude::*;
use crate::arith::{lemma_div_mod_parts, lemma_mul_mono};

verus! {

/// The value that wgpu documents for `COPY_BYTES_PER_ROW_ALIGNMENT`.
pub open spec fn copy_alignment() -> int {
    256
}

/// `n` rounded up to the next multiple of `a`.
pub open spec fn align_up(n: int, a: int) -> int {
    ((n + a - 1) / a) * a
}

/// Bytes per row of the staging buffer for a tile `tile_w` pixels wide.
pub open spec fn padded_row_bytes(tile_w: int) -> int {
    align_up(4 * tile_w, copy_alignment())
}

/// The padded row is the least multiple of the copy alignment that holds
/// the row's pixels.
pub proof fn lemma_padded_row_bytes(tile_w: int)
    requires
        0 <= tile_w,
    ensures
        padded_row_bytes(tile_w) % copy_alignment() == 0,
        4 * tile_w <= padded_row_bytes(tile_w) < 4 * tile_w + copy_alignment(),
{
    let n = 4 * tile_w + 255;
    vstd::arithmetic::div_mod::lemma_fundamental_div_mod(n, 256);
    vstd::arithmetic::div_mod::lemma_mod_pos_bound(n, 256);
    vstd::arithmetic::div_mod::lemma_mod_multiples_basic(n / 256, 256);
}

/// Reads `wgpu::COPY_BYTES_PER_ROW_ALIGNMENT`.  The contract claims that the
/// constant is 256, the value that wgpu-types defines and documents.
#[verifier::external_body]
fn copy_bytes_per_row_alignment() -> (r: u32)
    ensures
        r == copy_alignment(),
{
    wgpu::COPY_BYTES_PER_ROW_ALIGNMENT
}

/// The byte layout of one tile in the staging buffer.
pub struct ReadbackLayout {
    pub tile_w: u32,
    pub tile_h: u32,
    /// `4 * tile_w`: the RGBA8 bytes of one row of the tile.
    pub bytes_per_row: u32,
    /// `bytes_per_row` rounded up to the copy alignment.
    pub padded_bytes_per_row: u32,
    /// Size of the staging buffer: `padded_bytes_per_row * tile_h`.
    pub buffer_size: u64,
}

/// The layout of a `tile_w` x `tile_h` tile can be computed in 32-bit
/// arithmetic: the row sizes, the staging-buffer size and the tile's pixel
/// byte count all fit in a `u32`.
pub open spec fn layout_fits(tile_w: int, tile_h: int) -> bool {
    &&& 4 * tile_w + copy_alignment() - 1 <= u32::MAX
    &&& padded_row_bytes(tile_w) * tile_h <= u32::MAX
    &&& tile_w * tile_h * 4 <= u32::MAX
}

/// Least length of a staging buffer from which every row of the tile can be read.
pub open spec fn required_len(tile_w: int, tile_h: int) -> int {
    if tile_h == 0 {
        0
    } else {
        (tile_h - 1) * padded_row_bytes(tile_w) + 4 * tile_w
    }
}

/// The tile's pixels with the row padding removed: byte `i` of row `r`
/// comes from byte `i` of row `r` of the staging buffer.
pub open spec fn unpadded(data: Seq<u8>, tile_w: int, tile_h: int) -> Seq<u8> {
    Seq::new(
        (tile_h * (4 * tile_w)) as nat,
        |p: int| data[(p / (4 * tile_w)) * padded_row_bytes(tile_w) + p % (4 * tile_w)],
    )
}

/// The product of two `u32` values fits in a `u64`.
pub proof fn lemma_product_fits_u64(a: u32, b: u32)
    ensures
        a * b <= u64::MAX,
{
    assert(a * b <= 0xffff_ffff * 0xffff_ffff) by (nonlinear_arith)
        requires a <= 0xffff_ffffu32, b <= 0xffff_ffffu32;
}

/// What the readback of a tile is: the layout's staging rows start every
/// `padded_bytes_per_row` bytes, that stride is the least multiple of 256
/// holding the `4 * tile_w` pixel bytes of a row, and the unpadded tile
/// holds `tile_h` rows of `4 * tile_w` bytes each, where byte `i` of row `r`
/// is byte `i` of the staging row `r`, i.e. the staging byte at
/// `r * padded_bytes_per_row + i`.
pub proof fn lemma_unpad_rows(layout: ReadbackLayout, data: Seq<u8>, pixels: Seq<u8>)
    requires
        layout.wf(),
        pixels == unpadded(data, layout.tile_w as int, layout.tile_h as int),
    ensures
        layout.bytes_per_row == 4 * layout.tile_w,
        layout.padded_bytes_per_row % 256 == 0,
        layout.bytes_per_row <= layout.padded_bytes_per_row < layout.bytes_per_row + 256,
        pixels.len() == layout.tile_h * layout.bytes_per_row,
        forall|r: int, i: int|
            0 <= r < layout.tile_h && 0 <= i < layout.bytes_per_row ==> #[trigger] pixels[r
                * layout.bytes_per_row + i] == data[r * layout.padded_bytes_per_row + i],
{
    lemma_padded_row_bytes(layout.tile_w as int);
    let rb = layout.bytes_per_row as int;
    let pad = layout.padded_bytes_per_row as int;
    assert(pixels.len() == layout.tile_h * rb) by (nonlinear_arith)
        requires pixels.len() == layout.tile_h * (4 * layout.tile_w), rb == 4 * layout.tile_w;
    assert forall|r: int, i: int| 0 <= r < layout.tile_h && 0 <= i < rb implies #[trigger] pixels[r
        * rb + i] == data[r * pad + i] by {
        lemma_div_mod_parts(r, rb, i);
        assert(r * rb + i < (r + 1) * rb) by (nonlinear_arith)
            requires i < rb;
        lemma_mul_mono(r + 1, layout.tile_h as int, rb);
        assert(0 <= r * rb) by (nonlinear_arith)
            requires 0 <= r, 0 <= rb;
    }
}

impl ReadbackLayout {
    pub open spec fn wf(&self) -> bool {
        &&& layout_fits(self.tile_w as int, self.tile_h as int)
        &&& self.bytes_per_row == 4 * self.tile_w
        &&& self.padded_bytes_per_row == padded_row_bytes(self.tile_w as int)
        &&& self.buffer_size == self.padded_bytes_per_row * self.tile_h
    }

    /// The staging layout for a tile; `None` where the 32-bit size
    /// computations would overflow.
    pub fn new(tile_w: u32, tile_h: u32) -> (r: Option<ReadbackLayout>)
        ensures
            r is Some <==> layout_fits(tile_w as int, tile_h as int),
            r matches Some(l) ==> l.wf() && l.tile_w == tile_w && l.tile_h == tile_h,
    {
        let align = copy_bytes_per_row_alignment();
        if tile_w > (u32::MAX - (align - 1)) / 4 {
            return None;
        }
        let bytes_per_row: u32 = tile_w * 4;
        let sum: u32 = bytes_per_row + (align - 1);
        let padded: u32 = sum & !(align - 1);
        assert(sum & !255u32 == (sum / 256) * 256) by (bit_vector);
        assert(tile_w * tile_h * 4 == bytes_per_row * tile_h) by (nonlinear_arith)
            requires bytes_per_row == tile_w * 4;
        proof {
            lemma_product_fits_u64(padded, tile_h);
            lemma_product_fits_u64(bytes_per_row, tile_h);
        }
        if padded as u64 * tile_h as u64 > u32::MAX as u64 {
            return None;
        }
        if bytes_per_row as u64 * tile_h as u64 > u32::MAX as u64 {
            return None;
        }
        let buffer_size: u64 = (padded * tile_h) as u64;
        Some(ReadbackLayout {
            tile_w,
            tile_h,
            bytes_per_row,
            padded_bytes_per_row: padded,
            buffer_size,
        })
    }

    /// Copies the tile's rows out of the staging buffer, dropping the
    /// padding at the end of every row.
    pub fn unpad(&self, data: &[u8]) -> (pixels: Vec<u8>)
        requires
            self.wf(),
            data@.len() >= required_len(self.tile_w as int, self.tile_h as int),
        ensures
            pixels@ == unpadded(data@, self.tile_w as int, self.tile_h as int),
            pixels@.len() == self.tile_h * self.bytes_per_row,
            forall|r: int, i: int|
                0 <= r < self.tile_h && 0 <= i < self.bytes_per_row ==> #[trigger] pixels@[r
                    * self.bytes_per_row + i] == data@[r * self.padded_bytes_per_row + i],
    {
        let row_bytes: usize = self.bytes_per_row as usize;
        let ghost tw = self.tile_w as int;
        let ghost rb = 4 * tw;
        let ghost pad = padded_row_bytes(tw);
        let mut pixels: Vec<u8> = Vec::new();
        let mut row: u32 = 0;
        while row < self.tile_h
            invariant
                self.wf(),
                data@.len() >= required_len(tw, self.tile_h as int),
                tw == self.tile_w,
                rb == 4 * tw,
                row_bytes == rb,
                pad == self.padded_bytes_per_row,
                row <= self.tile_h,
                pixels@.len() == row * rb,
                forall|q: int|
                    0 <= q < row * rb ==> #[trigger] pixels@[q] == data@[(q / rb) * pad + q % rb],
            decreases self.tile_h - row,
        {
            proof {
                lemma_mul_mono(row as int, (self.tile_h - 1) as int, pad);
                lemma_mul_mono((self.tile_h - 1) as int, self.tile_h as int, pad);
            }
            let start: usize = (row * self.padded_bytes_per_row) as usize;
            let mut i: usize = 0;
            while i < row_bytes
                invariant
                    self.wf(),
                    data@.len() >= required_len(tw, self.tile_h as int),
                    tw == self.tile_w,
                    rb == 4 * tw,
                    row_bytes == rb,
                    pad == self.padded_bytes_per_row,
                    row < self.tile_h,
                    start == row * pad,
                    start + rb <= data.len(),
                    i <= row_bytes,
                    pixels@.len() == row * rb + i,
                    forall|q: int|
                        0 <= q < row * rb + i ==> #[trigger] pixels@[q] == data@[(q / rb) * pad + q
                            % rb],
                decreases row_bytes - i,
            {
                proof {
                    lemma_div_mod_parts(row as int, rb, i as int);
                }
                pixels.push(data[start + i]);
                i += 1;
            }
            proof {
                assert((row + 1) * rb == row * rb + rb) by (nonlinear_arith);
            }
            row += 1;
        }
        assert(pixels@ =~= unpadded(data@, tw, self.tile_h as int));
        proof {
            lemma_unpad_rows(*self, data@, pixels@);
        }
        pixels
    }
}

} // verus!
