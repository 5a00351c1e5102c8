//! Polygon rasterization on a byte grid and greedy coverage selection of
//! candidate photo outlines.

use vstd::prelude::*;
use vstd::relations::*;
use vstd::arithmetic::div_mod::*;

verus! {

broadcast use vstd::seq_lib::group_to_multiset_ensures;

/// The usual order on `i32`, as a relation value (so every use names the same relation).
pub open spec fn leq_i32() -> spec_fn(i32, i32) -> bool {
    |a: i32, b: i32| a <= b
}

proof fn lemma_leq_i32_total()
    ensures
        total_ordering(leq_i32()),
{
}

/// Quotient of `n` by a positive `d`, rounded toward zero.
pub open spec fn quot_toward_zero(n: int, d: int) -> int {
    if n >= 0 {
        n / d
    } else {
        -((-n) / d)
    }
}

pub open spec fn clamp_int(v: int, lo: int, hi: int) -> int {
    if v < lo {
        lo
    } else if v > hi {
        hi
    } else {
        v
    }
}

/// The centre line of pixel row `y` (at height `y + 1/2`) crosses the edge from `p` to `q`.
pub open spec fn crosses(p: (i32, i32), q: (i32, i32), y: int) -> bool {
    (p.1 <= y && q.1 > y) || (q.1 <= y && p.1 > y)
}

/// Column at which the centre line of row `y` meets the edge `p`-`q`, rounded toward
/// zero: `x = p.x + (y + 1/2 - p.y) * (q.x - p.x) / (q.y - p.y)`, computed exactly as a
/// fraction (floating point is not available here); where an `f32` evaluation lands just
/// below an integer column, this gives that column.
pub open spec fn crossing_column(p: (i32, i32), q: (i32, i32), y: int) -> int {
    let num = 2 * (p.0 * (q.1 - p.1)) + (2 * y + 1 - 2 * p.1) * (q.0 - p.0);
    let den = 2 * (q.1 - p.1);
    if den > 0 {
        quot_toward_zero(num, den)
    } else {
        quot_toward_zero(-num, -den)
    }
}

/// Crossing columns of row `y` with the first `n` edges of the closed polygon
/// (edge `i` joins vertex `i` to vertex `i + 1`, wrapping), clamped to `[0, w - 1]`.
pub open spec fn row_crossings(pts: Seq<(i32, i32)>, y: int, w: int, n: int) -> Seq<i32>
    decreases n,
{
    if n <= 0 || pts.len() == 0 {
        Seq::empty()
    } else {
        let prev = row_crossings(pts, y, w, n - 1);
        let p = pts[n - 1];
        let q = pts[n % (pts.len() as int)];
        if crosses(p, q, y) {
            prev.push(clamp_int(crossing_column(p, q, y), 0, w - 1) as i32)
        } else {
            prev
        }
    }
}

/// All crossings of row `y`, in increasing order.
pub open spec fn sorted_row(pts: Seq<(i32, i32)>, y: int, w: int) -> Seq<i32> {
    row_crossings(pts, y, w, pts.len() as int).sort_by(leq_i32())
}

/// Column `x` lies in one of the first `k` spans `[s[2j], s[2j + 1]]`.
pub open spec fn in_spans(s: Seq<i32>, x: int, k: int) -> bool
    decreases k,
{
    if k <= 0 {
        false
    } else {
        in_spans(s, x, k - 1) || (s[2 * (k - 1)] <= x && x <= s[2 * (k - 1) + 1])
    }
}

/// Column `x` lies between a pair of consecutive crossings (even-odd rule).
pub open spec fn covered(s: Seq<i32>, x: int) -> bool {
    in_spans(s, x, s.len() as int / 2)
}

pub open spec fn min_y(pts: Seq<(i32, i32)>, n: int) -> int
    decreases n,
{
    if n <= 1 {
        pts[0].1 as int
    } else {
        let m = min_y(pts, n - 1);
        if (pts[n - 1].1 as int) < m { pts[n - 1].1 as int } else { m }
    }
}

pub open spec fn max_y(pts: Seq<(i32, i32)>, n: int) -> int
    decreases n,
{
    if n <= 1 {
        pts[0].1 as int
    } else {
        let m = max_y(pts, n - 1);
        if (pts[n - 1].1 as int) > m { pts[n - 1].1 as int } else { m }
    }
}

/// First grid row that the fill visits.
pub open spec fn first_row(pts: Seq<(i32, i32)>) -> int {
    let m = min_y(pts, pts.len() as int);
    if m < 0 { 0 } else { m }
}

/// Last grid row that the fill visits.
pub open spec fn last_row(pts: Seq<(i32, i32)>, h: int) -> int {
    let m = max_y(pts, pts.len() as int);
    if m > h - 1 { h - 1 } else { m }
}

/// Cell `(x, y)` of a `w`-wide, `h`-high grid is inside the polygon `pts`.
pub open spec fn polygon_cell(pts: Seq<(i32, i32)>, w: int, h: int, x: int, y: int) -> bool {
    &&& pts.len() >= 3
    &&& first_row(pts) <= y <= last_row(pts, h)
    &&& covered(sorted_row(pts, y, w), x)
}


proof fn lemma_mul_bound(a: int, b: int, ba: int, bb: int)
    by (nonlinear_arith)
    requires
        0 <= ba,
        0 <= bb,
        -ba <= a <= ba,
        -bb <= b <= bb,
    ensures
        -(ba * bb) <= a * b <= ba * bb,
{
}

/// Crossing column of row `y` with the edge `p`-`q`, clamped to the grid width.
fn crossing_at(p: (i32, i32), q: (i32, i32), y: i32, w: usize) -> (c: i32)
    requires
        crosses(p, q, y as int),
        1 <= w <= i32::MAX,
    ensures
        c as int == clamp_int(crossing_column(p, q, y as int), 0, w - 1),
        0 <= c < w,
{
    let dy: i128 = q.1 as i128 - p.1 as i128;
    let dx: i128 = q.0 as i128 - p.0 as i128;
    let off: i128 = 2 * (y as i128) + 1 - 2 * (p.1 as i128);
    let px: i128 = p.0 as i128;
    proof {
        lemma_mul_bound(px as int, dy as int, 0x8000_0000, 0x1_0000_0000);
        lemma_mul_bound(off as int, dx as int, 0x2_0000_0001, 0x1_0000_0000);
    }
    let a: i128 = px * dy;
    let b: i128 = off * dx;
    let num: i128 = 2 * a + b;
    let den: i128 = 2 * dy;
    let (n, d): (i128, i128) = if den > 0 { (num, den) } else { (-num, -den) };
    assert(d > 0);
    let qz: i128 = if n >= 0 { n / d } else { -((-n) / d) };
    assert(qz as int == crossing_column(p, q, y as int));
    let hi: i128 = w as i128 - 1;
    let c: i128 = if qz < 0 { 0 } else if qz > hi { hi } else { qz };
    c as i32
}

/// The crossings of row `y`, clamped and sorted.
fn sorted_crossings(pts: &[(i32, i32)], y: i32, w: usize) -> (xs: Vec<i32>)
    requires
        pts@.len() >= 1,
        1 <= w <= i32::MAX,
    ensures
        xs@ == sorted_row(pts@, y as int, w as int),
        sorted_by(xs@, leq_i32()),
        forall|i: int| 0 <= i < xs@.len() ==> 0 <= #[trigger] xs@[i] < w,
{
    let n = pts.len();
    let mut xs: Vec<i32> = Vec::new();
    let mut i: usize = 0;
    while i < n
        invariant
            i <= n,
            n == pts@.len(),
            1 <= w <= i32::MAX,
            sorted_by(xs@, leq_i32()),
            xs@.to_multiset() == row_crossings(pts@, y as int, w as int, i as int).to_multiset(),
            forall|j: int| 0 <= j < xs@.len() ==> 0 <= #[trigger] xs@[j] < w,
        decreases n - i,
    {
        let p = pts[i];
        let q = pts[(i + 1) % n];
        if (p.1 <= y && q.1 > y) || (q.1 <= y && p.1 > y) {
            let c = crossing_at(p, q, y, w);
            let mut j: usize = 0;
            while j < xs.len() && xs[j] <= c
                invariant
                    j <= xs@.len(),
                    forall|k: int| 0 <= k < j ==> #[trigger] xs@[k] <= c,
                decreases xs@.len() - j,
            {
                j += 1;
            }
            let ghost before = xs@;
            xs.insert(j, c);
            proof {
                assert(xs@ == before.insert(j as int, c));
                assert forall|a: int, b: int| 0 <= a < b < xs@.len() implies #[trigger] (leq_i32())(
                    xs@[a],
                    xs@[b],
                ) by {
                    if b < j {
                        assert((leq_i32())(before[a], before[b]));
                    } else if b == j {
                        assert(before[a] <= c);
                    } else if a < j {
                        assert((leq_i32())(before[a], before[b - 1]));
                    } else if a == j {
                        assert(!(before[j as int] <= c));
                        if b - 1 > j {
                            assert((leq_i32())(before[j as int], before[b - 1]));
                        }
                    } else {
                        assert((leq_i32())(before[a - 1], before[b - 1]));
                    }
                }
            }
        }
        i += 1;
    }
    proof {
        let full = row_crossings(pts@, y as int, w as int, n as int);
        lemma_leq_i32_total();
        full.lemma_sort_by_ensures(leq_i32());
        vstd::seq_lib::lemma_sorted_unique(xs@, full.sort_by(leq_i32()), leq_i32());
    }
    xs
}


proof fn lemma_row_cell(i: int, w: int, y: int)
    requires
        w > 0,
        y >= 0,
        y * w <= i < y * w + w,
    ensures
        i / w == y,
        i % w == i - y * w,
{
    lemma_fundamental_div_mod_converse(i, w, y, i - y * w);
}

proof fn lemma_row_index(i: int, w: int)
    requires
        w > 0,
        i >= 0,
    ensures
        (i / w) * w <= i < (i / w) * w + w,
        i % w == i - (i / w) * w,
        i / w >= 0,
{
    lemma_fundamental_div_mod(i, w);
    vstd::arithmetic::mul::lemma_mul_is_commutative(w, i / w);
    lemma_div_pos_is_pos(i, w);
    lemma_mod_pos_bound(i, w);
}

proof fn lemma_row_start(y: int, w: int, h: int)
    by (nonlinear_arith)
    requires
        0 <= y < h,
        w > 0,
    ensures
        0 <= y * w,
        y * w + w <= w * h,
{
}

/// Sets to 255 every cell of row `y` that lies in a span of the sorted crossings `xs`.
fn fill_row_spans(grid: &mut [u8], w: usize, y: usize, xs: &Vec<i32>)
    requires
        w > 0,
        y * w + w <= old(grid)@.len(),
        sorted_by(xs@, leq_i32()),
        forall|i: int| 0 <= i < xs@.len() ==> 0 <= #[trigger] xs@[i] < w,
    ensures
        final(grid)@.len() == old(grid)@.len(),
        forall|i: int|
            0 <= i < old(grid)@.len() ==> #[trigger] final(grid)@[i] == if y * w <= i < y * w + w
                && covered(xs@, i - y * w) {
                255u8
            } else {
                old(grid)@[i]
            },
{
    let ghost g0 = grid@;
    let glen = grid.len();
    assert(glen == g0.len());
    let base = y * w;
    let xlen = xs.len();
    let npairs = xlen / 2;
    let mut k: usize = 0;
    while k < npairs
        invariant
            k <= npairs,
            xlen == xs@.len(),
            npairs == xlen / 2,
            sorted_by(xs@, leq_i32()),
            base == y * w,
            base + w <= g0.len(),
            grid@.len() == g0.len(),
            forall|i: int| 0 <= i < xs@.len() ==> 0 <= #[trigger] xs@[i] < w,
            forall|i: int|
                0 <= i < g0.len() ==> #[trigger] grid@[i] == if base <= i < base + w && in_spans(
                    xs@,
                    i - base,
                    k as int,
                ) {
                    255u8
                } else {
                    g0[i]
                },
        decreases npairs - k,
    {
        let a = xs[2 * k] as usize;
        let b = xs[2 * k + 1] as usize;
        let ghost before = grid@;
        assert((leq_i32())(xs@[2 * k as int], xs@[2 * k + 1]));
        let mut x = a;
        while x <= b
            invariant
                a <= x <= b + 1,
                b < w,
                base == y * w,
                base + w <= g0.len(),
                grid@.len() == g0.len(),
                forall|i: int|
                    0 <= i < g0.len() ==> #[trigger] grid@[i] == if base + a <= i < base + x {
                        255u8
                    } else {
                        before[i]
                    },
            decreases b + 1 - x,
        {
            grid[base + x] = 255u8;
            x += 1;
        }
        proof {
            assert((leq_i32())(xs@[2 * k as int], xs@[2 * k + 1]));
            assert forall|i: int| 0 <= i < g0.len() implies #[trigger] grid@[i] == if base <= i
                < base + w && in_spans(xs@, i - base, k + 1) {
                255u8
            } else {
                g0[i]
            } by {
                assert(in_spans(xs@, i - base, k + 1) == (in_spans(xs@, i - base, k as int) || (
                xs@[2 * k as int] <= i - base && i - base <= xs@[2 * k + 1])));
            }
        }
        k += 1;
    }
}

/// Even-odd scanline fill of the closed polygon `pts` into a `w` x `h` byte grid
/// (row-major): every cell whose centre row meets the polygon between a pair of
/// consecutive edge crossings is set to 255; all other bytes are left as they were.
/// Polygons with fewer than three vertices fill nothing.
pub fn fill_polygon_scanline(pts: &[(i32, i32)], grid: &mut [u8], w: usize, h: usize)
    requires
        1 <= w <= i32::MAX,
        h <= i32::MAX,
        w * h <= old(grid)@.len(),
    ensures
        final(grid)@.len() == old(grid)@.len(),
        forall|i: int|
            0 <= i < old(grid)@.len() ==> #[trigger] final(grid)@[i] == if i < w * h
                && polygon_cell(pts@, w as int, h as int, i % (w as int), i / (w as int)) {
                255u8
            } else {
                old(grid)@[i]
            },
{
    let ghost g0 = grid@;
    let n = pts.len();
    if n < 3 {
        return;
    }
    let mut lo: i32 = pts[0].1;
    let mut hi: i32 = pts[0].1;
    let mut i: usize = 1;
    while i < n
        invariant
            1 <= i <= n,
            n == pts@.len(),
            lo as int == min_y(pts@, i as int),
            hi as int == max_y(pts@, i as int),
        decreases n - i,
    {
        if pts[i].1 < lo {
            lo = pts[i].1;
        }
        if pts[i].1 > hi {
            hi = pts[i].1;
        }
        i += 1;
    }
    let ylo: i32 = if lo < 0 { 0 } else { lo };
    let hcap: i32 = h as i32 - 1;
    let yhi: i32 = if hi > hcap { hcap } else { hi };
    let mut y: i32 = ylo;
    while y <= yhi
        invariant
            n == pts@.len(),
            n >= 3,
            1 <= w <= i32::MAX,
            h <= i32::MAX,
            w * h <= g0.len(),
            grid@.len() == g0.len(),
            ylo as int == first_row(pts@),
            yhi as int == last_row(pts@, h as int),
            ylo <= y,
            yhi <= hcap,
            hcap == h - 1,
            forall|i: int|
                0 <= i < g0.len() ==> #[trigger] grid@[i] == if i < w * h && i / (w as int) < y
                    && polygon_cell(pts@, w as int, h as int, i % (w as int), i / (w as int)) {
                    255u8
                } else {
                    g0[i]
                },
        decreases yhi as int + 1 - y as int,
    {
        let xs = sorted_crossings(pts, y, w);
        let yu = y as usize;
        proof {
            lemma_row_start(yu as int, w as int, h as int);
        }
        let ghost before = grid@;
        fill_row_spans(grid, w, yu, &xs);
        proof {
            assert forall|i: int| 0 <= i < g0.len() implies #[trigger] grid@[i] == if i < w * h
                && i / (w as int) < y + 1 && polygon_cell(
                pts@,
                w as int,
                h as int,
                i % (w as int),
                i / (w as int),
            ) {
                255u8
            } else {
                g0[i]
            } by {
                lemma_row_index(i, w as int);
                let r = i / (w as int);
                if yu * w <= i < yu * w + w {
                    lemma_row_cell(i, w as int, yu as int);
                    assert(i < w * h);
                } else {
                    if r == y {
                        assert(r * w <= i < r * w + w);
                        assert(false);
                    }
                }
            }
        }
        y += 1;
    }
    proof {
        assert forall|i: int| 0 <= i < g0.len() implies #[trigger] grid@[i] == if i < w * h
            && polygon_cell(pts@, w as int, h as int, i % (w as int), i / (w as int)) {
            255u8
        } else {
            g0[i]
        } by {
            lemma_row_index(i, w as int);
        }
    }
}


/// Cell `i` (row-major) of a `w`-wide, `h`-high grid lies inside polygon `q`.
pub open spec fn inside(q: Seq<(i32, i32)>, w: int, h: int, i: int) -> bool {
    polygon_cell(q, w, h, i % w, i / w)
}

/// Number of the first `n` cells inside polygon `q`.
pub open spec fn count_inside(q: Seq<(i32, i32)>, w: int, h: int, n: int) -> nat
    decreases n,
{
    if n <= 0 {
        0
    } else {
        count_inside(q, w, h, n - 1) + if inside(q, w, h, n - 1) { 1nat } else { 0nat }
    }
}

/// Number of the first `n` cells inside polygon `q` and not yet covered.
pub open spec fn count_fresh(q: Seq<(i32, i32)>, w: int, h: int, cover: Seq<bool>, n: int) -> nat
    decreases n,
{
    if n <= 0 {
        0
    } else {
        count_fresh(q, w, h, cover, n - 1) + if inside(q, w, h, n - 1) && !cover[n - 1] {
            1nat
        } else {
            0nat
        }
    }
}

/// A polygon is accepted when it covers some cell and at least 35% of its cells are fresh.
pub open spec fn accepts(total: nat, fresh: nat) -> bool {
    total > 0 && 20 * fresh >= 7 * total
}

/// The acceptance test of polygon `q` against the coverage `cover`.
pub open spec fn adds_coverage(q: Seq<(i32, i32)>, w: int, h: int, cover: Seq<bool>) -> bool {
    accepts(count_inside(q, w, h, w * h), count_fresh(q, w, h, cover, w * h))
}

/// Cells covered by the accepted polygons among the first `k`.
pub open spec fn cover_after(polys: Seq<Seq<(i32, i32)>>, w: int, h: int, k: int) -> Seq<bool>
    decreases k,
{
    if k <= 0 {
        Seq::new((w * h) as nat, |i: int| false)
    } else {
        let c = cover_after(polys, w, h, k - 1);
        let q = polys[k - 1];
        if adds_coverage(q, w, h, c) {
            Seq::new((w * h) as nat, |i: int| c[i] || inside(q, w, h, i))
        } else {
            c
        }
    }
}

/// Indices of the accepted polygons among the first `k`, in order.
pub open spec fn accepted_indices(polys: Seq<Seq<(i32, i32)>>, w: int, h: int, k: int) -> Seq<usize>
    decreases k,
{
    if k <= 0 {
        Seq::empty()
    } else {
        let prev = accepted_indices(polys, w, h, k - 1);
        if adds_coverage(polys[k - 1], w, h, cover_after(polys, w, h, k - 1)) {
            prev.push((k - 1) as usize)
        } else {
            prev
        }
    }
}

/// Greedy coverage selection: polygons are taken in the given order (largest
/// first in practice) and each is kept only when at least 35% of its rasterized
/// cells are not yet covered by the polygons kept before it. Returns the indices
/// of the kept polygons, in order.
pub fn select_by_coverage(polys: &Vec<Vec<(i32, i32)>>, mw: usize, mh: usize) -> (kept: Vec<usize>)
    requires
        1 <= mw <= i32::MAX,
        mh <= i32::MAX,
        mw * mh <= usize::MAX,
    ensures
        kept@ == accepted_indices(polys@.map_values(|q: Vec<(i32, i32)>| q@), mw as int, mh as int, polys@.len() as int),
{
    let ghost ps = polys@.map_values(|q: Vec<(i32, i32)>| q@);
    let ghost w = mw as int;
    let ghost h = mh as int;
    let n = mw * mh;
    let mut cover: Vec<u8> = vec![0u8; n];
    let mut kept: Vec<usize> = Vec::new();
    let mut k: usize = 0;
    while k < polys.len()
        invariant
            k <= polys@.len(),
            ps == polys@.map_values(|q: Vec<(i32, i32)>| q@),
            w == mw,
            h == mh,
            n == mw * mh,
            1 <= mw <= i32::MAX,
            mh <= i32::MAX,
            cover@.len() == n,
            forall|i: int| 0 <= i < n ==> (#[trigger] cover@[i] != 0) == cover_after(ps, w, h, k as int)[i],
            cover_after(ps, w, h, k as int).len() == n,
            kept@ == accepted_indices(ps, w, h, k as int),
        decreases polys@.len() - k,
    {
        let mut mask: Vec<u8> = vec![0u8; n];
        fill_polygon_scanline(polys[k].as_slice(), mask.as_mut_slice(), mw, mh);
        let ghost q = ps[k as int];
        assert(q == polys@[k as int]@);
        let ghost c = cover_after(ps, w, h, k as int);
        let mut total: usize = 0;
        let mut fresh: usize = 0;
        let mut i: usize = 0;
        while i < n
            invariant
                i <= n,
                n == mw * mh,
                mask@.len() == n,
                cover@.len() == n,
                c.len() == n,
                forall|j: int| 0 <= j < n ==> (#[trigger] cover@[j] != 0) == c[j],
                forall|j: int| 0 <= j < n ==> (#[trigger] mask@[j] != 0) == inside(q, w, h, j),
                total == count_inside(q, w, h, i as int),
                fresh == count_fresh(q, w, h, c, i as int),
                total <= i,
                fresh <= i,
            decreases n - i,
        {
            if mask[i] > 0 {
                total += 1;
                if cover[i] == 0 {
                    fresh += 1;
                }
            }
            i += 1;
        }
        if total > 0 && (fresh as u128) * 20 >= (total as u128) * 7 {
            let mut j: usize = 0;
            while j < n
                invariant
                    j <= n,
                    n == mw * mh,
                    mask@.len() == n,
                    cover@.len() == n,
                    c.len() == n,
                    forall|t: int| 0 <= t < n ==> (#[trigger] mask@[t] != 0) == inside(q, w, h, t),
                    forall|t: int|
                        0 <= t < n ==> (#[trigger] cover@[t] != 0) == if t < j {
                            c[t] || inside(q, w, h, t)
                        } else {
                            c[t]
                        },
                decreases n - j,
            {
                if mask[j] > 0 {
                    cover[j] = 1u8;
                }
                j += 1;
            }
            kept.push(k);
        }
        k += 1;
    }
    kept
}

proof fn lemma_no_fresh_cells(q: Seq<(i32, i32)>, w: int, h: int, cover: Seq<bool>, n: int)
    requires
        forall|i: int| 0 <= i < n && #[trigger] inside(q, w, h, i) ==> cover[i],
    ensures
        count_fresh(q, w, h, cover, n) == 0,
    decreases n,
{
    if n > 0 {
        lemma_no_fresh_cells(q, w, h, cover, n - 1);
    }
}

proof fn lemma_cover_grows(polys: Seq<Seq<(i32, i32)>>, w: int, h: int, j: int, k: int)
    requires
        0 <= j <= k,
        w >= 1,
        h >= 0,
    ensures
        forall|i: int| 0 <= i < w * h && #[trigger] cover_after(polys, w, h, j)[i] ==> cover_after(polys, w, h, k)[i],
    decreases k,
{
    if k > j {
        lemma_cover_grows(polys, w, h, j, k - 1);
        assert(w * h >= 0) by (nonlinear_arith)
            requires
                w >= 1,
                h >= 0,
        ;
    }
}

/// A polygon whose cells are all covered already by the polygons kept before it
/// (a fragment inside a kept photo, for one) is dropped and leaves the coverage as it was.
pub proof fn lemma_covered_polygon_dropped(polys: Seq<Seq<(i32, i32)>>, w: int, h: int, k: int)
    requires
        0 <= k < polys.len(),
        w >= 1,
        h >= 0,
        forall|i: int| 0 <= i < w * h && #[trigger] inside(polys[k], w, h, i) ==> cover_after(polys, w, h, k)[i],
    ensures
        accepted_indices(polys, w, h, k + 1) == accepted_indices(polys, w, h, k),
        cover_after(polys, w, h, k + 1) == cover_after(polys, w, h, k),
{
    lemma_no_fresh_cells(polys[k], w, h, cover_after(polys, w, h, k), w * h);
}

/// A polygon equal to one kept before it is dropped: duplicates are removed.
pub proof fn lemma_duplicate_dropped(polys: Seq<Seq<(i32, i32)>>, w: int, h: int, j: int, k: int)
    requires
        0 <= j < k < polys.len(),
        w >= 1,
        h >= 0,
        polys[j] == polys[k],
        adds_coverage(polys[j], w, h, cover_after(polys, w, h, j)),
    ensures
        accepted_indices(polys, w, h, k + 1) == accepted_indices(polys, w, h, k),
{
    assert(w * h >= 0) by (nonlinear_arith)
        requires
            w >= 1,
            h >= 0,
    ;
    lemma_cover_grows(polys, w, h, j + 1, k);
    assert forall|i: int| 0 <= i < w * h && #[trigger] inside(polys[k], w, h, i) implies cover_after(
        polys,
        w,
        h,
        k,
    )[i] by {
        assert(cover_after(polys, w, h, j + 1)[i]);
    }
    lemma_covered_polygon_dropped(polys, w, h, k);
}

/// The 35% rule: candidate `k` is kept, after the candidates kept before it, exactly
/// when it covers at least one cell and at least 35% of its cells are not covered yet;
/// a kept candidate adds its cells to the coverage, a dropped one leaves it unchanged.
pub proof fn lemma_thirty_five_percent_rule(polys: Seq<Seq<(i32, i32)>>, w: int, h: int, k: int)
    requires
        0 <= k < polys.len(),
    ensures
        ({
            let total = count_inside(polys[k], w, h, w * h);
            let fresh = count_fresh(polys[k], w, h, cover_after(polys, w, h, k), w * h);
            let kept = total > 0 && 100 * fresh >= 35 * total;
            &&& kept ==> accepted_indices(polys, w, h, k + 1) == accepted_indices(polys, w, h, k).push(k as usize)
            &&& !kept ==> accepted_indices(polys, w, h, k + 1) == accepted_indices(polys, w, h, k)
            &&& !kept ==> cover_after(polys, w, h, k + 1) == cover_after(polys, w, h, k)
            &&& kept ==> forall|i: int|
                0 <= i < w * h ==> #[trigger] cover_after(polys, w, h, k + 1)[i] == (cover_after(polys, w, h, k)[i]
                    || inside(polys[k], w, h, i))
        }),
{
}

} // verus!
