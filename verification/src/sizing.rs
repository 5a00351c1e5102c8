//! Working-image sizes: every reduced copy keeps the aspect ratio and brings the
//! long side down to a cap, with sides rounded to the nearest pixel.

use vstd::prelude::*;

verus! {

/// Long side of the copy on which sheets are segmented.
pub const DETECT_MAX_SIDE: i32 = 1600;
/// Long side cap for the input of the x4 upscaler.
pub const MAX_UPSCALE_INPUT: i32 = 640;
/// Long side of the copy fed to the colorizer.
pub const MAX_COLORIZE_SIDE: i32 = 512;
/// Long side of the copy on which faces are located for restoration.
pub const FACE_RESTORE_DETECT_SIDE: i32 = 960;
/// Orientation detection caps huge crops at this long side...
pub const FACE_MAX_SIDE: i32 = 2400;
/// ...and enlarges small crops toward this long side, at most twofold.
pub const FACE_MIN_SIDE: i32 = 1150;
/// Long side of the annotated sheet preview.
pub const PREVIEW_SIDE: i32 = 900;

pub open spec fn max_int(a: int, b: int) -> int {
    if a >= b { a } else { b }
}

/// `v * num / den` rounded to the nearest integer, halves upward (`v, num >= 0`, `den > 0`).
pub open spec fn round_ratio(v: int, num: int, den: int) -> int {
    (2 * v * num + den) / (2 * den)
}

/// Size after bringing the long side down to `cap` (sizes already within the cap are kept).
/// Each side is `side * cap / long` rounded exactly in integers (floating point is not
/// available here), so where a floating-point `side * (cap / long)` falls just below a
/// half this gives one pixel more.
pub open spec fn fit_dims(w: int, h: int, cap: int) -> (int, int) {
    let long = max_int(w, h);
    if long > cap {
        (round_ratio(w, cap, long), round_ratio(h, cap, long))
    } else {
        (w, h)
    }
}

/// Size of the orientation-detection copy: long sides above 2400 come down to 2400,
/// long sides below 1150 go up toward 1150 but at most twofold, others are kept.
pub open spec fn orient_dims(w: int, h: int) -> (int, int) {
    let long = max_int(w, h);
    if long > FACE_MAX_SIDE {
        (round_ratio(w, FACE_MAX_SIDE as int, long), round_ratio(h, FACE_MAX_SIDE as int, long))
    } else if long < FACE_MIN_SIDE {
        if 2 * long <= FACE_MIN_SIDE {
            (2 * w, 2 * h)
        } else {
            (round_ratio(w, FACE_MIN_SIDE as int, long), round_ratio(h, FACE_MIN_SIDE as int, long))
        }
    } else {
        (w, h)
    }
}

/// Size of the annotated preview: long side at most 900, sides rounded down. The ratio
/// is taken exactly in integers, so where a floating-point `side * (900 / long)` falls
/// just below an integer this gives one pixel more.
pub open spec fn preview_dims(w: int, h: int) -> (int, int) {
    let long = max_int(w, h);
    if long > PREVIEW_SIDE {
        (w * (PREVIEW_SIDE as int) / long, h * (PREVIEW_SIDE as int) / long)
    } else {
        (w, h)
    }
}

proof fn lemma_round_ratio_bound(v: int, num: int, den: int)
    by (nonlinear_arith)
    requires
        0 <= v <= den,
        0 < num,
        0 < den,
    ensures
        0 <= round_ratio(v, num, den) <= num,
{
    assert(2 * v * num + den <= 2 * den * num + den);
    assert((2 * v * num + den) / (2 * den) <= (2 * den * num + den) / (2 * den));
    assert((2 * den * num + den) / (2 * den) == num);
}

proof fn lemma_floor_ratio_bound(v: int, num: int, den: int)
    by (nonlinear_arith)
    requires
        0 <= v <= den,
        0 < num,
        0 < den,
    ensures
        0 <= v * num / den <= num,
{
    assert(v * num <= den * num);
}

fn round_ratio_exec(v: i32, num: i32, den: i32) -> (r: i32)
    requires
        0 <= v <= den,
        0 < num,
        0 < den,
    ensures
        r as int == round_ratio(v as int, num as int, den as int),
        0 <= r <= num,
{
    proof {
        lemma_round_ratio_bound(v as int, num as int, den as int);
        assert(0 <= (v as int) * (num as int) <= 0x4000_0000_0000_0000) by (nonlinear_arith)
            requires
                0 <= v <= 0x8000_0000,
                0 < num <= 0x8000_0000,
        ;
    }
    let prod: i128 = (v as i128) * (num as i128);
    let t: i128 = 2 * prod + den as i128;
    assert(t == 2 * (v as int) * (num as int) + den) by (nonlinear_arith)
        requires
            prod == (v as int) * (num as int),
            t == 2 * prod + den,
    ;
    (t / (2 * den as i128)) as i32
}

/// Size after bringing the long side of a `w` x `h` image down to `cap`.
pub fn fit_within(w: i32, h: i32, cap: i32) -> (d: (i32, i32))
    requires
        w >= 0,
        h >= 0,
        cap > 0,
    ensures
        (d.0 as int, d.1 as int) == fit_dims(w as int, h as int, cap as int),
        max_int(d.0 as int, d.1 as int) <= cap || (d.0 == w && d.1 == h),
{
    let long = if w >= h { w } else { h };
    if long > cap {
        let a = round_ratio_exec(w, cap, long);
        let b = round_ratio_exec(h, cap, long);
        (a, b)
    } else {
        (w, h)
    }
}

/// Size of the copy on which a photo's orientation is judged.
pub fn orient_size(w: i32, h: i32) -> (d: (i32, i32))
    requires
        0 <= w <= i32::MAX / 2,
        0 <= h <= i32::MAX / 2,
    ensures
        (d.0 as int, d.1 as int) == orient_dims(w as int, h as int),
{
    let long = if w >= h { w } else { h };
    if long > FACE_MAX_SIDE {
        (round_ratio_exec(w, FACE_MAX_SIDE, long), round_ratio_exec(h, FACE_MAX_SIDE, long))
    } else if long < FACE_MIN_SIDE {
        if 2 * long <= FACE_MIN_SIDE {
            (2 * w, 2 * h)
        } else {
            (round_ratio_exec(w, FACE_MIN_SIDE, long), round_ratio_exec(h, FACE_MIN_SIDE, long))
        }
    } else {
        (w, h)
    }
}

/// Size of the annotated sheet preview.
pub fn preview_size(w: i32, h: i32) -> (d: (i32, i32))
    requires
        w >= 0,
        h >= 0,
    ensures
        (d.0 as int, d.1 as int) == preview_dims(w as int, h as int),
{
    let long = if w >= h { w } else { h };
    if long > PREVIEW_SIDE {
        proof {
            lemma_floor_ratio_bound(w as int, PREVIEW_SIDE as int, long as int);
            lemma_floor_ratio_bound(h as int, PREVIEW_SIDE as int, long as int);
        }
        let a = ((w as i64) * (PREVIEW_SIDE as i64) / (long as i64)) as i32;
        let b = ((h as i64) * (PREVIEW_SIDE as i64) / (long as i64)) as i32;
        (a, b)
    } else {
        (w, h)
    }
}

} // verus!
