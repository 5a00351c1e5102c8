//! Binary-mask steps of sheet segmentation that work on connected-component
//! labelings: filling interior holes, picking the components that carry a
//! candidate, and building watershed markers and region masks.

use vstd::prelude::*;

verus! {

/// Number of distinct values a 16-bit component label can take.
pub const LABEL_RANGE: usize = 65536;

/// Marker value that keeps the watershed out of pixels outside the component.
pub const OUTSIDE_MARKER: i32 = 999;

/// Background and foreground swapped: zero bytes become 255, all others 0.
pub fn invert_mask(mask: &[u8]) -> (inv: Vec<u8>)
    ensures
        inv@.len() == mask@.len(),
        forall|i: int| 0 <= i < mask@.len() ==> #[trigger] inv@[i] == if mask@[i] == 0 { 255u8 } else { 0u8 },
{
    let mut inv: Vec<u8> = Vec::new();
    let mut i: usize = 0;
    while i < mask.len()
        invariant
            i <= mask@.len(),
            inv@.len() == i,
            forall|j: int| 0 <= j < i ==> #[trigger] inv@[j] == if mask@[j] == 0 { 255u8 } else { 0u8 },
        decreases mask@.len() - i,
    {
        inv.push(if mask[i] == 0 { 255u8 } else { 0u8 });
        i += 1;
    }
    inv
}

/// Component `k` of a labeling touches the border of the `w` x `h` image; `stats`
/// holds five integers per component: left, top, width, height, area.
pub open spec fn touches_border(stats: Seq<i32>, k: int, w: int, h: int) -> bool {
    let sx = stats[5 * k] as int;
    let sy = stats[5 * k + 1] as int;
    let sw = stats[5 * k + 2] as int;
    let sh = stats[5 * k + 3] as int;
    sx == 0 || sy == 0 || sx + sw >= w || sy + sh >= h
}

/// Label `l` is a hole: a component other than the first (label 0) among `n`
/// that does not touch the border.
pub open spec fn is_hole(stats: Seq<i32>, n: int, w: int, h: int, l: int) -> bool {
    1 <= l < n && !touches_border(stats, l, w, h)
}

/// Which of the `n` labels are holes.
pub fn hole_labels(stats: &[i32], n: usize, w: i32, h: i32) -> (holes: Vec<bool>)
    requires
        5 * n <= stats@.len(),
    ensures
        holes@.len() == n,
        forall|l: int| 0 <= l < n ==> #[trigger] holes@[l] == is_hole(stats@, n as int, w as int, h as int, l),
{
    let slen = stats.len();
    let mut holes: Vec<bool> = Vec::new();
    let mut k: usize = 0;
    while k < n
        invariant
            k <= n,
            slen == stats@.len(),
            5 * n <= stats@.len(),
            holes@.len() == k,
            forall|l: int| 0 <= l < k ==> #[trigger] holes@[l] == is_hole(stats@, n as int, w as int, h as int, l),
        decreases n - k,
    {
        if k == 0 {
            holes.push(false);
        } else {
            let sx = stats[5 * k] as i64;
            let sy = stats[5 * k + 1] as i64;
            let sw = stats[5 * k + 2] as i64;
            let sh = stats[5 * k + 3] as i64;
            let touches = sx == 0 || sy == 0 || sx + sw >= w as i64 || sy + sh >= h as i64;
            holes.push(!touches);
        }
        k += 1;
    }
    holes
}

/// Interior holes of a binary mask filled in: `labels` is the 4-connected labeling of
/// the inverted mask (`n` components, `stats` per component); zero pixels whose
/// background component does not touch the `w` x `h` border become 255, every other
/// pixel keeps its value.
pub fn fill_holes(mask: &[u8], labels: &[u16], stats: &[i32], n: usize, w: i32, h: i32) -> (out: Vec<u8>)
    requires
        labels@.len() == mask@.len(),
        5 * n <= stats@.len(),
    ensures
        out@.len() == mask@.len(),
        forall|i: int|
            0 <= i < mask@.len() ==> #[trigger] out@[i] == if mask@[i] == 0 && is_hole(
                stats@,
                n as int,
                w as int,
                h as int,
                labels@[i] as int,
            ) {
                255u8
            } else {
                mask@[i]
            },
{
    let holes = hole_labels(stats, n, w, h);
    let mut out: Vec<u8> = Vec::new();
    let mut i: usize = 0;
    while i < mask.len()
        invariant
            i <= mask@.len(),
            labels@.len() == mask@.len(),
            holes@.len() == n,
            forall|l: int| 0 <= l < n ==> #[trigger] holes@[l] == is_hole(stats@, n as int, w as int, h as int, l),
            out@.len() == i,
            forall|j: int|
                0 <= j < i ==> #[trigger] out@[j] == if mask@[j] == 0 && is_hole(
                    stats@,
                    n as int,
                    w as int,
                    h as int,
                    labels@[j] as int,
                ) {
                    255u8
                } else {
                    mask@[j]
                },
        decreases mask@.len() - i,
    {
        let l = labels[i] as usize;
        let hole = l < n && holes[l];
        out.push(if mask[i] == 0 && hole { 255u8 } else { mask[i] });
        i += 1;
    }
    out
}

/// Watershed markers for one component: pixels outside it (`comp == 0`) get the
/// marker 999, the others keep their seed label. Pairs are taken up to the shorter input.
pub fn patch_markers(seeds: &[i32], comp: &[u8]) -> (markers: Vec<i32>)
    ensures
        markers@.len() == if seeds@.len() < comp@.len() { seeds@.len() } else { comp@.len() },
        forall|i: int|
            0 <= i < markers@.len() ==> #[trigger] markers@[i] == if comp@[i] == 0 {
                OUTSIDE_MARKER
            } else {
                seeds@[i]
            },
{
    let n = if seeds.len() < comp.len() { seeds.len() } else { comp.len() };
    let mut markers: Vec<i32> = Vec::new();
    let mut i: usize = 0;
    while i < n
        invariant
            i <= n,
            n <= seeds@.len(),
            n <= comp@.len(),
            markers@.len() == i,
            forall|j: int|
                0 <= j < i ==> #[trigger] markers@[j] == if comp@[j] == 0 {
                    OUTSIDE_MARKER
                } else {
                    seeds@[j]
                },
        decreases n - i,
    {
        markers.push(if comp[i] == 0 { OUTSIDE_MARKER } else { seeds[i] });
        i += 1;
    }
    markers
}

/// Mask of the watershed region `k`: 255 where the marker equals `k`, 0 elsewhere.
pub fn region_mask(markers: &[i32], k: i32) -> (bits: Vec<u8>)
    ensures
        bits@.len() == markers@.len(),
        forall|i: int| 0 <= i < markers@.len() ==> #[trigger] bits@[i] == if markers@[i] == k { 255u8 } else { 0u8 },
{
    let mut bits: Vec<u8> = Vec::new();
    let mut i: usize = 0;
    while i < markers.len()
        invariant
            i <= markers@.len(),
            bits@.len() == i,
            forall|j: int| 0 <= j < i ==> #[trigger] bits@[j] == if markers@[j] == k { 255u8 } else { 0u8 },
        decreases markers@.len() - i,
    {
        bits.push(if markers[i] == k { 255u8 } else { 0u8 });
        i += 1;
    }
    bits
}


/// End (exclusive) of a box side that starts at `a0` and nominally ends at `a1`:
/// the box always spans at least one cell.
pub open spec fn box_end(a0: int, a1: int) -> int {
    if a1 > a0 { a1 } else { a0 + 1 }
}

/// Occurrences of label `l` in row `y` (labeling of width `tw`) over columns `[x0, x)`.
pub open spec fn row_label_count(lab: Seq<u16>, tw: int, y: int, x0: int, x: int, l: int) -> nat
    decreases x - x0,
{
    if x <= x0 {
        0
    } else {
        row_label_count(lab, tw, y, x0, x - 1, l) + if lab[y * tw + x - 1] as int == l { 1nat } else { 0nat }
    }
}

/// Occurrences of label `l` in rows `[y0, y)` over columns `[x0, x1)`.
pub open spec fn box_label_count(lab: Seq<u16>, tw: int, x0: int, x1: int, y0: int, y: int, l: int) -> nat
    decreases y - y0,
{
    if y <= y0 {
        0
    } else {
        box_label_count(lab, tw, x0, x1, y0, y - 1, l) + row_label_count(lab, tw, y - 1, x0, x1, l)
    }
}

/// Occurrences of label `l` inside the candidate's box `[bx0, bx1) x [by0, by1)`.
pub open spec fn label_count_in_box(lab: Seq<u16>, tw: int, bx0: int, by0: int, bx1: int, by1: int, l: int) -> nat {
    box_label_count(lab, tw, bx0, box_end(bx0, bx1), by0, box_end(by0, by1), l)
}

/// A foreground label that occurs in the box at least `min_count` times (and at least once).
pub open spec fn is_big_label(lab: Seq<u16>, tw: int, bx0: int, by0: int, bx1: int, by1: int, min_count: int, l: int) -> bool {
    let c = label_count_in_box(lab, tw, bx0, by0, bx1, by1, l);
    l != 0 && c >= 1 && c >= min_count
}

/// The big labels below `upto`, in increasing order.
pub open spec fn big_labels_below(lab: Seq<u16>, tw: int, bx0: int, by0: int, bx1: int, by1: int, min_count: int, upto: int) -> Seq<i32>
    decreases upto,
{
    if upto <= 0 {
        Seq::empty()
    } else {
        let prev = big_labels_below(lab, tw, bx0, by0, bx1, by1, min_count, upto - 1);
        if is_big_label(lab, tw, bx0, by0, bx1, by1, min_count, upto - 1) {
            prev.push((upto - 1) as i32)
        } else {
            prev
        }
    }
}

proof fn lemma_box_step(a: int, b: int, x: int, ex: int, total: int)
    by (nonlinear_arith)
    requires
        0 <= a,
        0 <= x < ex,
        (a + 1) * ex <= total,
    ensures
        a * ex + x + 1 <= total,
        a * ex + x + 1 == a * ex + (x + 1),
        (a + 1) * ex == a * ex + ex,
{
}

proof fn lemma_cell_bound(y: int, x: int, tw: int, ey: int, ex: int, len: int)
    by (nonlinear_arith)
    requires
        0 <= y < ey,
        0 <= x < ex,
        tw >= 0,
        (ey - 1) * tw + ex - 1 < len,
    ensures
        0 <= y * tw + x < len,
{
    assert(y * tw <= (ey - 1) * tw);
}

/// Labels of the components that carry a candidate: every non-zero label occurring at
/// least `min_count` times (and at least once) in the box `[bx0, bx1) x [by0, by1)`
/// of the 16-bit labeling `labels` (row width `tw`), in increasing order. A box side
/// that would be empty spans one cell.
pub fn big_labels(labels: &[u16], tw: usize, bx0: usize, by0: usize, bx1: usize, by1: usize, min_count: usize) -> (big: Vec<i32>)
    requires
        bx0 < usize::MAX,
        by0 < usize::MAX,
        ((if by1 > by0 { by1 as int } else { by0 + 1 }) - 1) * tw + (if bx1 > bx0 { bx1 as int } else { bx0 + 1 }) - 1 < labels@.len(),
        ((if by1 > by0 { by1 as int } else { by0 + 1 }) - by0) * ((if bx1 > bx0 { bx1 as int } else { bx0 + 1 }) - bx0) <= usize::MAX,
    ensures
        big@ == big_labels_below(labels@, tw as int, bx0 as int, by0 as int, bx1 as int, by1 as int, min_count as int, LABEL_RANGE as int),
{
    let ghost lab = labels@;
    let llen = labels.len();
    let ey: usize = if by1 > by0 { by1 } else { by0 + 1 };
    let ex: usize = if bx1 > bx0 { bx1 } else { bx0 + 1 };
    let ghost total = (ey - by0) * (ex - bx0);
    let mut counts: Vec<usize> = vec![0usize; LABEL_RANGE];
    let mut done: usize = 0;
    let mut y: usize = by0;
    while y < ey
        invariant
            by0 <= y <= ey,
            lab == labels@,
            llen == labels@.len(),
            (ey - 1) * tw + ex - 1 < labels@.len(),
            total == (ey - by0) * (ex - bx0),
            total <= usize::MAX,
            bx0 < ex,
            counts@.len() == LABEL_RANGE,
            done == (y - by0) * (ex - bx0),
            forall|l: int| 0 <= l < LABEL_RANGE ==> #[trigger] counts@[l] <= done,
            forall|l: int|
                0 <= l < LABEL_RANGE ==> #[trigger] counts@[l] == if l == 0 {
                    0
                } else {
                    box_label_count(lab, tw as int, bx0 as int, ex as int, by0 as int, y as int, l)
                },
        decreases ey - y,
    {
        proof {
            assert((y - by0 + 1) * (ex - bx0) <= total) by (nonlinear_arith)
                requires
                    y < ey,
                    by0 <= y,
                    bx0 < ex,
                    total == (ey - by0) * (ex - bx0),
            ;
        }
        let mut x: usize = bx0;
        while x < ex
            invariant
                by0 <= y < ey,
                bx0 <= x <= ex,
                lab == labels@,
                llen == labels@.len(),
                (ey - 1) * tw + ex - 1 < labels@.len(),
                total <= usize::MAX,
                (y - by0 + 1) * (ex - bx0) <= total,
                counts@.len() == LABEL_RANGE,
                done == (y - by0) * (ex - bx0) + (x - bx0),
                forall|l: int| 0 <= l < LABEL_RANGE ==> #[trigger] counts@[l] <= done,
                forall|l: int|
                    0 <= l < LABEL_RANGE ==> #[trigger] counts@[l] == if l == 0 {
                        0
                    } else {
                        box_label_count(lab, tw as int, bx0 as int, ex as int, by0 as int, y as int, l)
                            + row_label_count(lab, tw as int, y as int, bx0 as int, x as int, l)
                    },
            decreases ex - x,
        {
            proof {
                lemma_cell_bound(y as int, x as int, tw as int, ey as int, ex as int, labels@.len() as int);
                lemma_box_step((y - by0) as int, 0, (x - bx0) as int, (ex - bx0) as int, total);
            }
            let l = labels[y * tw + x] as usize;
            if l != 0 {
                counts[l] = counts[l] + 1;
            }
            done = done + 1;
            x += 1;
        }
        proof {
            lemma_box_step((y - by0) as int, 0, 0, (ex - bx0) as int, total);
        }
        y += 1;
    }
    let mut big: Vec<i32> = Vec::new();
    let mut l: usize = 0;
    while l < LABEL_RANGE
        invariant
            l <= LABEL_RANGE,
            lab == labels@,
            counts@.len() == LABEL_RANGE,
            ey == box_end(by0 as int, by1 as int),
            ex == box_end(bx0 as int, bx1 as int),
            forall|t: int|
                0 <= t < LABEL_RANGE ==> #[trigger] counts@[t] == if t == 0 {
                    0
                } else {
                    box_label_count(lab, tw as int, bx0 as int, ex as int, by0 as int, ey as int, t)
                },
            big@ == big_labels_below(lab, tw as int, bx0 as int, by0 as int, bx1 as int, by1 as int, min_count as int, l as int),
        decreases LABEL_RANGE - l,
    {
        let c = counts[l];
        if l != 0 && c >= 1 && c >= min_count {
            big.push(l as i32);
        }
        l += 1;
    }
    big
}

} // verus!
