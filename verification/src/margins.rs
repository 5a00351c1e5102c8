//! Detection of near-uniform white scan margins around an extracted photo.
//!
//! The photo is examined on a reduced grey copy whose long side is at most
//! 420 pixels; the margins found there are mapped back to full resolution.

use vstd::prelude::*;
use crate::sizing::{fit_dims, fit_within, max_int};

verus! {

/// Long side of the reduced copy used to look for margins.
pub const TRIM_WORK_SIDE: i32 = 420;

/// Smallest side, in full-resolution pixels, that trimming may leave.
pub const TRIM_MIN_SIDE: i32 = 120;

/// Sum over the first `n` cells of row `y` of `g` (width `w`).
pub open spec fn row_sum(g: Seq<u8>, w: int, y: int, n: int) -> int
    decreases n,
{
    if n <= 0 { 0 } else { row_sum(g, w, y, n - 1) + g[y * w + n - 1] }
}

/// Number of bright cells (value at least 228) among the first `n` cells of row `y`.
pub open spec fn row_bright(g: Seq<u8>, w: int, y: int, n: int) -> int
    decreases n,
{
    if n <= 0 {
        0
    } else {
        row_bright(g, w, y, n - 1) + if g[y * w + n - 1] >= 228 { 1int } else { 0int }
    }
}

/// Sum over the first `n` cells of column `x`.
pub open spec fn col_sum(g: Seq<u8>, w: int, x: int, n: int) -> int
    decreases n,
{
    if n <= 0 { 0 } else { col_sum(g, w, x, n - 1) + g[(n - 1) * w + x] }
}

/// Number of bright cells among the first `n` cells of column `x`.
pub open spec fn col_bright(g: Seq<u8>, w: int, x: int, n: int) -> int
    decreases n,
{
    if n <= 0 {
        0
    } else {
        col_bright(g, w, x, n - 1) + if g[(n - 1) * w + x] >= 228 { 1int } else { 0int }
    }
}

/// A row is white margin when at least 98% of its cells are bright and its mean is at least 235.
pub open spec fn row_white(g: Seq<u8>, w: int, y: int) -> bool {
    50 * row_bright(g, w, y, w) >= 49 * w && row_sum(g, w, y, w) >= 235 * w
}

/// A column is white margin when at least 98% of its cells are bright and its mean is at least 235.
pub open spec fn col_white(g: Seq<u8>, w: int, h: int, x: int) -> bool {
    50 * col_bright(g, w, x, h) >= 49 * h && col_sum(g, w, x, h) >= 235 * h
}

/// Length of the run of indices `0, 1, ...` satisfying `p`, stopping at `lim`.
pub open spec fn leading_run(p: spec_fn(int) -> bool, lim: int) -> int
    decreases lim,
{
    if lim <= 0 {
        0
    } else if leading_run(p, lim - 1) == lim - 1 && p(lim - 1) {
        lim
    } else {
        leading_run(p, lim - 1)
    }
}

/// How far a margin may reach on a side of `n` cells: below half, and at most 30%.
pub open spec fn trim_limit(n: int) -> int {
    let half = n / 2;
    let cap = 3 * n / 10;
    if half < cap { half } else { cap }
}

pub open spec fn top_margin(g: Seq<u8>, w: int, h: int) -> int {
    leading_run(|y: int| row_white(g, w, y), trim_limit(h))
}

pub open spec fn bottom_margin(g: Seq<u8>, w: int, h: int) -> int {
    leading_run(|b: int| row_white(g, w, h - 1 - b), trim_limit(h))
}

pub open spec fn left_margin(g: Seq<u8>, w: int, h: int) -> int {
    leading_run(|x: int| col_white(g, w, h, x), trim_limit(w))
}

pub open spec fn right_margin(g: Seq<u8>, w: int, h: int) -> int {
    leading_run(|r: int| col_white(g, w, h, w - 1 - r), trim_limit(w))
}

proof fn lemma_leading_run(p: spec_fn(int) -> bool, lim: int, t: int)
    requires
        0 <= t <= lim,
        forall|j: int| 0 <= j < t ==> #[trigger] p(j),
        t == lim || !p(t),
    ensures
        leading_run(p, lim) == t,
    decreases lim,
{
    if lim > 0 {
        if t == lim {
            lemma_leading_run(p, lim - 1, lim - 1);
        } else {
            lemma_leading_run(p, lim - 1, t);
            if t == lim - 1 {
                assert(!p(lim - 1));
            }
        }
    }
}

proof fn lemma_leading_run_bound(p: spec_fn(int) -> bool, lim: int)
    requires
        lim >= 0,
    ensures
        0 <= leading_run(p, lim) <= lim,
    decreases lim,
{
    if lim > 0 {
        lemma_leading_run_bound(p, lim - 1);
    }
}

proof fn lemma_cell_index(x: int, y: int, w: int, h: int)
    by (nonlinear_arith)
    requires
        0 <= x < w,
        0 <= y < h,
    ensures
        0 <= y * w + x < w * h,
        y * w + x + 1 == y * w + (x + 1),
{
}

fn is_white_row(g: &[u8], w: usize, h: usize, y: usize) -> (r: bool)
    requires
        g@.len() == w * h,
        y < h,
        w <= 0x1_0000_0000,
        h <= 0x1_0000_0000,
    ensures
        r == row_white(g@, w as int, y as int),
{
    let glen = g.len();
    let mut bright: u64 = 0;
    let mut sum: u64 = 0;
    let mut x: usize = 0;
    while x < w
        invariant
            x <= w,
            y < h,
            g@.len() == w * h,
            w <= 0x1_0000_0000,
            h <= 0x1_0000_0000,
            bright as int == row_bright(g@, w as int, y as int, x as int),
            sum as int == row_sum(g@, w as int, y as int, x as int),
            glen == g@.len(),
            bright <= x,
            sum <= 255 * x,
        decreases w - x,
    {
        proof {
            lemma_cell_index(x as int, y as int, w as int, h as int);
        }
        let v = g[y * w + x];
        sum += v as u64;
        if v >= 228 {
            bright += 1;
        }
        x += 1;
    }
    50 * bright >= 49 * (w as u64) && sum >= 235 * (w as u64)
}

fn is_white_col(g: &[u8], w: usize, h: usize, x: usize) -> (r: bool)
    requires
        g@.len() == w * h,
        x < w,
        w <= 0x1_0000_0000,
        h <= 0x1_0000_0000,
    ensures
        r == col_white(g@, w as int, h as int, x as int),
{
    let glen = g.len();
    let mut bright: u64 = 0;
    let mut sum: u64 = 0;
    let mut y: usize = 0;
    while y < h
        invariant
            y <= h,
            x < w,
            g@.len() == w * h,
            w <= 0x1_0000_0000,
            h <= 0x1_0000_0000,
            bright as int == col_bright(g@, w as int, x as int, y as int),
            sum as int == col_sum(g@, w as int, x as int, y as int),
            glen == g@.len(),
            bright <= y,
            sum <= 255 * y,
        decreases h - y,
    {
        proof {
            lemma_cell_index(x as int, y as int, w as int, h as int);
        }
        let v = g[y * w + x];
        sum += v as u64;
        if v >= 228 {
            bright += 1;
        }
        y += 1;
    }
    50 * bright >= 49 * (h as u64) && sum >= 235 * (h as u64)
}

fn limit_of(n: usize) -> (l: usize)
    requires
        n <= 0x1_0000_0000,
    ensures
        l as int == trim_limit(n as int),
{
    let half = n / 2;
    let cap = (3 * (n as u64) / 10) as usize;
    if half < cap { half } else { cap }
}

/// White margins `(top, bottom, left, right)`, in cells of the reduced grey copy `g`
/// (`w` x `h`, row-major): the number of consecutive white rows (columns) from each
/// edge, never reaching half the side and never more than 30% of it.
pub fn white_margins(g: &[u8], w: usize, h: usize) -> (m: (usize, usize, usize, usize))
    requires
        g@.len() == w * h,
        w <= 0x1_0000_0000,
        h <= 0x1_0000_0000,
    ensures
        m.0 == top_margin(g@, w as int, h as int),
        m.1 == bottom_margin(g@, w as int, h as int),
        m.2 == left_margin(g@, w as int, h as int),
        m.3 == right_margin(g@, w as int, h as int),
        m.0 <= 3 * h / 10 && m.0 <= h / 2,
        m.1 <= 3 * h / 10 && m.1 <= h / 2,
        m.2 <= 3 * w / 10 && m.2 <= w / 2,
        m.3 <= 3 * w / 10 && m.3 <= w / 2,
{
    let ghost gi = g@;
    let ghost wi = w as int;
    let ghost hi = h as int;
    let lim_h = limit_of(h);
    let lim_w = limit_of(w);
    let mut top: usize = 0;
    while top < lim_h && is_white_row(g, w, h, top)
        invariant
            top <= lim_h,
            lim_h as int == trim_limit(hi),
            lim_h <= h,
            g@.len() == w * h,
            w <= 0x1_0000_0000,
            h <= 0x1_0000_0000,
            gi == g@,
            wi == w,
            hi == h,
            forall|j: int| 0 <= j < top ==> row_white(gi, wi, j),
        decreases lim_h - top,
    {
        top += 1;
    }
    proof {
        let p = |y: int| row_white(gi, wi, y);
        assert forall|j: int| 0 <= j < top implies #[trigger] p(j) by {}
        lemma_leading_run(p, lim_h as int, top as int);
    }
    let ghost pb = |b: int| row_white(gi, wi, hi - 1 - b);
    let mut bottom: usize = 0;
    while bottom < lim_h && is_white_row(g, w, h, h - 1 - bottom)
        invariant
            bottom <= lim_h,
            lim_h as int == trim_limit(hi),
            lim_h <= h,
            g@.len() == w * h,
            w <= 0x1_0000_0000,
            h <= 0x1_0000_0000,
            gi == g@,
            wi == w,
            hi == h,
            pb == (|b: int| row_white(gi, wi, hi - 1 - b)),
            forall|j: int| 0 <= j < bottom ==> #[trigger] pb(j),
        decreases lim_h - bottom,
    {
        bottom += 1;
    }
    proof {
        lemma_leading_run(pb, lim_h as int, bottom as int);
    }
    let mut left: usize = 0;
    while left < lim_w && is_white_col(g, w, h, left)
        invariant
            left <= lim_w,
            lim_w as int == trim_limit(wi),
            lim_w <= w,
            g@.len() == w * h,
            w <= 0x1_0000_0000,
            h <= 0x1_0000_0000,
            gi == g@,
            wi == w,
            hi == h,
            forall|j: int| 0 <= j < left ==> col_white(gi, wi, hi, j),
        decreases lim_w - left,
    {
        left += 1;
    }
    proof {
        let p = |x: int| col_white(gi, wi, hi, x);
        assert forall|j: int| 0 <= j < left implies #[trigger] p(j) by {}
        lemma_leading_run(p, lim_w as int, left as int);
    }
    let ghost pr = |r: int| col_white(gi, wi, hi, wi - 1 - r);
    let mut right: usize = 0;
    while right < lim_w && is_white_col(g, w, h, w - 1 - right)
        invariant
            right <= lim_w,
            lim_w as int == trim_limit(wi),
            lim_w <= w,
            g@.len() == w * h,
            w <= 0x1_0000_0000,
            h <= 0x1_0000_0000,
            gi == g@,
            wi == w,
            hi == h,
            pr == (|r: int| col_white(gi, wi, hi, wi - 1 - r)),
            forall|j: int| 0 <= j < right ==> #[trigger] pr(j),
        decreases lim_w - right,
    {
        right += 1;
    }
    proof {
        lemma_leading_run(pr, lim_w as int, right as int);
    }
    (top, bottom, left, right)
}


/// A margin of `t` reduced cells measured in full-resolution pixels (rounded down);
/// `long` is the full-resolution long side. The ratio is taken exactly in integers,
/// so where a floating-point `t / (420 / long)` lands just below an integer this
/// gives one pixel more.
pub open spec fn to_full(t: int, long: int) -> int {
    if long > TRIM_WORK_SIDE { t * long / (TRIM_WORK_SIDE as int) } else { t }
}

/// The most a side of `n` full-resolution pixels may lose: 30% of it, rounded down.
pub open spec fn side_cap(n: int) -> int {
    3 * n / 10
}

/// A margin of `t` reduced cells cut at full resolution on a side of `n` pixels:
/// its full-resolution size, but never more than 30% of the side.
pub open spec fn full_cut(t: int, long: int, n: int) -> int {
    let f = to_full(t, long);
    if f < side_cap(n) { f } else { side_cap(n) }
}

/// A margin of `t` reduced cells amounts to fewer than 6 full-resolution pixels.
pub open spec fn negligible(t: int, long: int) -> bool {
    if long > TRIM_WORK_SIDE { t * long < 6 * (TRIM_WORK_SIDE as int) } else { t < 6 }
}

/// Photos smaller than this on either side are never trimmed.
pub open spec fn too_small_to_trim(cols: int, rows: int) -> bool {
    cols < 2 * (TRIM_MIN_SIDE as int) || rows < 2 * (TRIM_MIN_SIDE as int)
}

/// The crop `(x, y, width, height)` that removes the white margins found on the
/// reduced grey copy `g` (`w` x `h`) of a `cols` x `rows` photo, or `None` when the
/// photo stays as it is.
pub open spec fn trim_rect(cols: int, rows: int, g: Seq<u8>, w: int, h: int) -> Option<(int, int, int, int)> {
    if too_small_to_trim(cols, rows) || w == 0 || h == 0 {
        None
    } else {
        let long = max_int(cols, rows);
        let top = top_margin(g, w, h);
        let bottom = bottom_margin(g, w, h);
        let left = left_margin(g, w, h);
        let right = right_margin(g, w, h);
        if negligible(top + bottom, long) && negligible(left + right, long) {
            None
        } else {
            let fx = full_cut(left, long, cols);
            let fy = full_cut(top, long, rows);
            let fw0 = max_int(cols - fx - full_cut(right, long, cols), TRIM_MIN_SIDE as int);
            let fh0 = max_int(rows - fy - full_cut(bottom, long, rows), TRIM_MIN_SIDE as int);
            let fw = if fw0 < cols - fx { fw0 } else { cols - fx };
            let fh = if fh0 < rows - fy { fh0 } else { rows - fy };
            if fw < TRIM_MIN_SIDE || fh < TRIM_MIN_SIDE {
                None
            } else {
                Some((fx, fy, fw, fh))
            }
        }
    }
}

/// Size of the reduced grey copy on which margins are looked for, or `None` when
/// the photo is too small to be trimmed at all.
pub fn trim_work_size(cols: i32, rows: i32) -> (r: Option<(i32, i32)>)
    requires
        cols >= 0,
        rows >= 0,
    ensures
        r == if too_small_to_trim(cols as int, rows as int) {
            None::<(i32, i32)>
        } else {
            let d = fit_dims(cols as int, rows as int, TRIM_WORK_SIDE as int);
            Some((d.0 as i32, d.1 as i32))
        },
{
    if cols < 2 * TRIM_MIN_SIDE || rows < 2 * TRIM_MIN_SIDE {
        None
    } else {
        Some(fit_within(cols, rows, TRIM_WORK_SIDE))
    }
}

fn to_full_exec(t: usize, long: i32) -> (r: i64)
    requires
        t <= 0x1_0000_0000,
        long >= 0,
    ensures
        r as int == to_full(t as int, long as int),
        0 <= r < 0x80_0000_0000_0000,
{
    if long > TRIM_WORK_SIDE {
        proof {
            assert(0 <= (t as int) * (long as int) <= 0x1_0000_0000 * 0x8000_0000) by (nonlinear_arith)
                requires
                    0 <= t <= 0x1_0000_0000,
                    0 <= long <= 0x8000_0000,
            ;
        }
        ((t as i128) * (long as i128) / (TRIM_WORK_SIDE as i128)) as i64
    } else {
        t as i64
    }
}

fn negligible_exec(t: usize, long: i32) -> (r: bool)
    requires
        t <= 0x2_0000_0000,
        long >= 0,
    ensures
        r == negligible(t as int, long as int),
{
    if long > TRIM_WORK_SIDE {
        proof {
            assert(0 <= (t as int) * (long as int) <= 0x2_0000_0000 * 0x8000_0000) by (nonlinear_arith)
                requires
                    0 <= t <= 0x2_0000_0000,
                    0 <= long <= 0x8000_0000,
            ;
        }
        (t as i128) * (long as i128) < 6 * (TRIM_WORK_SIDE as i128)
    } else {
        t < 6
    }
}

fn capped(v: i64, cap: i64) -> (r: i64)
    ensures
        r == if v < cap { v } else { cap },
{
    if v < cap { v } else { cap }
}

/// Crop that removes near-uniform white scan margins from a `cols` x `rows` photo,
/// judged on its reduced grey copy `g` (`w` x `h`, row-major; see `trim_work_size`):
/// a row or column is margin when at least 98% of it is bright (>= 228) and its mean
/// is at least 235; no side loses more than 30% of the copy, nor (at full resolution)
/// more than 30% of the photo's side; the result keeps at least 120 pixels per side.
/// `None` means the photo stays unchanged:
/// it is too small, or the margins found are under 6 full-resolution pixels.
#[verifier::rlimit(40)]
pub fn trim_white_borders(cols: i32, rows: i32, g: &[u8], w: usize, h: usize) -> (r: Option<(i32, i32, i32, i32)>)
    requires
        cols >= 0,
        rows >= 0,
        g@.len() == w * h,
        w <= 0x1_0000_0000,
        h <= 0x1_0000_0000,
    ensures
        match r {
            None => trim_rect(cols as int, rows as int, g@, w as int, h as int) is None,
            Some(c) => trim_rect(cols as int, rows as int, g@, w as int, h as int) == Some(
                (c.0 as int, c.1 as int, c.2 as int, c.3 as int),
            ),
        },
        r matches Some(c) ==> 0 <= c.0 && 0 <= c.1 && TRIM_MIN_SIDE <= c.2 && TRIM_MIN_SIDE <= c.3
            && c.0 + c.2 <= cols && c.1 + c.3 <= rows,
        r matches Some(c) ==> {
            &&& c.0 <= side_cap(cols as int)
            &&& c.1 <= side_cap(rows as int)
            &&& cols - c.0 - c.2 <= side_cap(cols as int)
            &&& rows - c.1 - c.3 <= side_cap(rows as int)
        },
{
    if cols < 2 * TRIM_MIN_SIDE || rows < 2 * TRIM_MIN_SIDE || w == 0 || h == 0 {
        return None;
    }
    let long = if cols >= rows { cols } else { rows };
    let (top, bottom, left, right) = white_margins(g, w, h);
    if negligible_exec(top + bottom, long) && negligible_exec(left + right, long) {
        return None;
    }
    let cols64 = cols as i64;
    let rows64 = rows as i64;
    let cap_x = 3 * cols64 / 10;
    let cap_y = 3 * rows64 / 10;
    let fx = capped(to_full_exec(left, long), cap_x);
    let fy = capped(to_full_exec(top, long), cap_y);
    let fr = capped(to_full_exec(right, long), cap_x);
    let fb = capped(to_full_exec(bottom, long), cap_y);
    let min_side = TRIM_MIN_SIDE as i64;
    let fw0 = if cols64 - fx - fr > min_side { cols64 - fx - fr } else { min_side };
    let fh0 = if rows64 - fy - fb > min_side { rows64 - fy - fb } else { min_side };
    let fw = if fw0 < cols64 - fx { fw0 } else { cols64 - fx };
    let fh = if fh0 < rows64 - fy { fh0 } else { rows64 - fy };
    if fw < min_side || fh < min_side {
        return None;
    }
    Some((fx as i32, fy as i32, fw as i32, fh as i32))
}

/// Where the trimming crop lies: it starts after the left and top white margins (each
/// mapped to full resolution and capped at 30% of its side), and, unless the 120-pixel
/// minimum steps in, it ends where the right and bottom white margins begin.
pub proof fn lemma_crop_follows_margins(cols: int, rows: int, g: Seq<u8>, w: int, h: int)
    requires
        trim_rect(cols, rows, g, w, h) is Some,
    ensures
        ({
            let c = trim_rect(cols, rows, g, w, h).unwrap();
            let long = max_int(cols, rows);
            let cut_right = full_cut(right_margin(g, w, h), long, cols);
            let cut_bottom = full_cut(bottom_margin(g, w, h), long, rows);
            &&& c.0 == full_cut(left_margin(g, w, h), long, cols)
            &&& c.1 == full_cut(top_margin(g, w, h), long, rows)
            &&& cols - c.0 - cut_right >= TRIM_MIN_SIDE ==> c.0 + c.2 == cols - cut_right
            &&& rows - c.1 - cut_bottom >= TRIM_MIN_SIDE ==> c.1 + c.3 == rows - cut_bottom
        }),
{
    lemma_leading_runs_nonneg();
}

proof fn lemma_leading_runs_nonneg()
    ensures
        forall|p: spec_fn(int) -> bool, lim: int| #[trigger] leading_run(p, lim) >= 0,
{
    assert forall|p: spec_fn(int) -> bool, lim: int| #[trigger] leading_run(p, lim) >= 0 by {
        if lim >= 0 {
            lemma_leading_run_bound(p, lim);
        }
    }
}

} // verus!
