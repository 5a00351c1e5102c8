//! Tiling plan of the x4 super-resolution: the (possibly reduced) photo is cut
//! into 256-pixel tiles that overlap by 32 pixels, each tile is upscaled on its
//! own and the results are blended with linear ramps over the overlaps.

use vstd::prelude::*;
use vstd::arithmetic::div_mod::*;
use crate::sizing::{fit_dims, fit_within, MAX_UPSCALE_INPUT};

verus! {

/// Side of a square tile fed to the network.
pub const TILE: usize = 256;
/// Overlap between neighbouring tiles.
pub const OVERLAP: usize = 32;
/// Distance between the origins of neighbouring tiles.
pub const STRIDE: usize = 224;
/// Upscaling factor of the network.
pub const SCALE: usize = 4;

/// Number of tiles along a side of `size` pixels.
pub open spec fn tiles_for(size: int) -> int {
    if size <= TILE {
        1
    } else {
        (size - TILE + STRIDE - 1) / (STRIDE as int) + 1
    }
}

/// Tiles needed along a side of `size` pixels: one tile up to 256 pixels, then one
/// more per started 224 pixels.
pub fn tile_count(size: usize) -> (n: usize)
    ensures
        n as int == tiles_for(size as int),
        n >= 1,
        (n - 1) * STRIDE + TILE >= size,
        n == 1 || (n - 2) * STRIDE + TILE < size,
{
    if size <= TILE {
        1
    } else {
        (size - TILE + (STRIDE - 1)) / STRIDE + 1
    }
}

/// Work plan of one upscale: size of the network input (long side at most 640),
/// tile counts, and the bottom/right padding that makes the tiles fit exactly.
pub struct UpscalePlan {
    pub base_w: usize,
    pub base_h: usize,
    pub tiles_x: usize,
    pub tiles_y: usize,
    pub pad_w: usize,
    pub pad_h: usize,
}

impl UpscalePlan {
    /// The plan is consistent: the padded input is exactly covered by the tiles.
    pub open spec fn wf(self) -> bool {
        &&& self.tiles_x as int == tiles_for(self.base_w as int)
        &&& self.tiles_y as int == tiles_for(self.base_h as int)
        &&& self.base_w + self.pad_w == (self.tiles_x - 1) * STRIDE + TILE
        &&& self.base_h + self.pad_h == (self.tiles_y - 1) * STRIDE + TILE
    }
}

/// Plan for upscaling a `cols` x `rows` photo.
pub fn upscale_plan(cols: i32, rows: i32) -> (p: UpscalePlan)
    requires
        cols >= 0,
        rows >= 0,
    ensures
        p.wf(),
        (p.base_w as int, p.base_h as int) == fit_dims(cols as int, rows as int, MAX_UPSCALE_INPUT as int),
        p.base_w <= MAX_UPSCALE_INPUT || p.base_w == cols,
        p.base_h <= MAX_UPSCALE_INPUT || p.base_h == rows,
{
    let (bw, bh) = fit_within(cols, rows, MAX_UPSCALE_INPUT);
    let bw = bw as usize;
    let bh = bh as usize;
    let tiles_x = tile_count(bw);
    let tiles_y = tile_count(bh);
    let pad_w = (tiles_x - 1) * STRIDE + TILE - bw;
    let pad_h = (tiles_y - 1) * STRIDE + TILE - bh;
    UpscalePlan { base_w: bw, base_h: bh, tiles_x, tiles_y, pad_w, pad_h }
}

/// Blend weight, in 32nds, of output row or column `i` of a tile `len` pixels long:
/// a linear ramp over the first and last 32 pixels, except on the outer edge of the
/// photo (`first_edge`, `last_edge`) where the weight stays full.
pub open spec fn ramp_weight(i: int, len: int, first_edge: bool, last_edge: bool) -> int {
    let o = OVERLAP as int;
    if first_edge && i < o {
        o
    } else if last_edge && i + o > len {
        o
    } else if i < o {
        i + 1
    } else if i + o > len {
        len - i
    } else {
        o
    }
}

/// Blend weight in 32nds (see `ramp_weight`); never zero inside the tile.
pub fn ramp(i: usize, len: usize, first_edge: bool, last_edge: bool) -> (r: u32)
    requires
        i < len,
    ensures
        r as int == ramp_weight(i as int, len as int, first_edge, last_edge),
        1 <= r <= OVERLAP,
{
    if first_edge && i < OVERLAP {
        return OVERLAP as u32;
    }
    let near_end = len < OVERLAP || i > len - OVERLAP;
    if last_edge && near_end {
        return OVERLAP as u32;
    }
    if i < OVERLAP {
        (i + 1) as u32
    } else if near_end {
        (len - i) as u32
    } else {
        OVERLAP as u32
    }
}

/// Position in the padded BGR byte buffer (`wp` pixels per row) of the input value
/// number `k` of the tile at `(x0, y0)`; tile values are laid out channel-major,
/// RGB order, rows of 256.
pub open spec fn tile_source(k: int, wp: int, x0: int, y0: int) -> int {
    let c = k / 65536;
    let y = (k % 65536) / 256;
    let x = k % 256;
    (y0 + y) * (wp * 3) + (x0 + x) * 3 + (2 - c)
}

proof fn lemma_tile_coords(k: int)
    requires
        0 <= k < 3 * 65536,
    ensures
        0 <= k / 65536 < 3,
        0 <= (k % 65536) / 256 < 256,
        0 <= k % 256 < 256,
        k == (k / 65536) * 65536 + ((k % 65536) / 256) * 256 + k % 256,
{
    lemma_fundamental_div_mod(k, 65536);
    lemma_fundamental_div_mod(k % 65536, 256);
    lemma_mod_mod(k, 65536, 256);
    lemma_mod_pos_bound(k, 65536);
    lemma_mod_pos_bound(k % 65536, 256);
    lemma_div_pos_is_pos(k % 65536, 256);
    lemma_div_pos_is_pos(k, 65536);
    lemma_div_is_ordered(k, 3 * 65536 - 1, 65536);
    lemma_div_is_ordered(k % 65536, 65535, 256);
}

proof fn lemma_tile_source_bound(c: int, y: int, x: int, wp: int, x0: int, y0: int, limit: int)
    by (nonlinear_arith)
    requires
        0 <= c < 3,
        0 <= y < 256,
        0 <= x < 256,
        wp >= 0,
        x0 >= 0,
        y0 >= 0,
        (y0 + 255) * (wp * 3) + (x0 + 255) * 3 + 2 < limit,
    ensures
        0 <= wp * 3 < limit,
        0 <= (y0 + y) * (wp * 3) < limit,
        0 <= (y0 + y) * (wp * 3) + (x0 + x) * 3 < limit,
        0 <= (y0 + y) * (wp * 3) + (x0 + x) * 3 + (2 - c) < limit,
{
    assert((y0 + y) * (wp * 3) <= (y0 + 255) * (wp * 3));
}

/// Network input of one tile: the 256 x 256 pixels at `(x0, y0)` of the padded BGR
/// byte buffer (`wp` pixels per row), as RGB planes one after the other; entry
/// `c * 65536 + y * 256 + x` is channel `c` (red, green, blue) of pixel `(x0 + x, y0 + y)`.
pub fn tile_input(bytes: &[u8], wp: usize, x0: usize, y0: usize) -> (input: Vec<u8>)
    requires
        y0 + 255 <= usize::MAX,
        (y0 + 255) * (wp * 3) + (x0 + 255) * 3 + 2 < bytes@.len(),
    ensures
        input@.len() == 3 * 65536,
        forall|k: int| 0 <= k < 3 * 65536 ==> #[trigger] input@[k] == bytes@[tile_source(k, wp as int, x0 as int, y0 as int)],
        forall|c: int, y: int, x: int|
            0 <= c < 3 && 0 <= y < 256 && 0 <= x < 256 ==> #[trigger] input@[c * 65536 + y * 256 + x]
                == bytes@[(y0 + y) * (wp * 3) + (x0 + x) * 3 + (2 - c)],
{
    let blen = bytes.len();
    let mut input: Vec<u8> = Vec::new();
    let mut k: usize = 0;
    while k < 3 * 65536
        invariant
            k <= 3 * 65536,
            blen == bytes@.len(),
            y0 + 255 <= usize::MAX,
            (y0 + 255) * (wp * 3) + (x0 + 255) * 3 + 2 < bytes@.len(),
            input@.len() == k,
            forall|j: int| 0 <= j < k ==> #[trigger] input@[j] == bytes@[tile_source(j, wp as int, x0 as int, y0 as int)],
        decreases 3 * 65536 - k,
    {
        let c = k / 65536;
        let y = (k % 65536) / 256;
        let x = k % 256;
        proof {
            lemma_tile_coords(k as int);
            lemma_tile_source_bound(c as int, y as int, x as int, wp as int, x0 as int, y0 as int, blen as int);
        }
        input.push(bytes[(y0 + y) * (wp * 3) + (x0 + x) * 3 + (2 - c)]);
        k += 1;
    }
    proof {
        assert forall|c: int, y: int, x: int|
            0 <= c < 3 && 0 <= y < 256 && 0 <= x < 256 implies #[trigger] input@[c * 65536 + y * 256 + x]
                == bytes@[(y0 + y) * (wp * 3) + (x0 + x) * 3 + (2 - c)] by {
            let k = c * 65536 + y * 256 + x;
            lemma_fundamental_div_mod_converse(k, 65536, c, y * 256 + x);
            lemma_fundamental_div_mod_converse(y * 256 + x, 256, y, x);
            lemma_fundamental_div_mod_converse(k, 256, c * 256 + y, x);
            assert(k % 256 == x);
        }
    }
    input
}

} // verus!
