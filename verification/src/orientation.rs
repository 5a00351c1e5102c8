//! Quarter-turn rotations of photos and the bookkeeping of their rotation angle.

use vstd::prelude::*;

verus! {

/// Clockwise quarter turn applied to an image.
pub enum QuarterTurn {
    Keep,
    Clockwise90,
    Half,
    CounterClockwise90,
}

/// An angle in degrees brought into `[0, 360)`.
pub open spec fn normal_degrees(deg: int) -> int {
    deg % 360
}

/// Remainder with the sign of the dividend, as Rust's `%` computes it.
pub open spec fn trunc_rem(a: int, m: int) -> int {
    if a >= 0 { a % m } else { -((-a) % m) }
}

/// Rotation angle of a photo after it is turned by `deg` degrees clockwise.
pub open spec fn turned(rotation: int, deg: int) -> int {
    trunc_rem(rotation + normal_degrees(deg), 360)
}

/// Turn that rotates an image `deg` degrees clockwise: right angles give the
/// matching quarter turn, any other angle leaves the image as it is.
pub open spec fn quarter_turn_spec(deg: int) -> QuarterTurn {
    let d = normal_degrees(deg);
    if d == 90 {
        QuarterTurn::Clockwise90
    } else if d == 180 {
        QuarterTurn::Half
    } else if d == 270 {
        QuarterTurn::CounterClockwise90
    } else {
        QuarterTurn::Keep
    }
}

/// `deg` brought into `[0, 360)`.
pub fn normalize_degrees(deg: i32) -> (d: i32)
    ensures
        d as int == normal_degrees(deg as int),
        0 <= d < 360,
{
    if deg >= 0 {
        deg % 360
    } else {
        let r = (-(deg as i64)) % 360;
        if r == 0 { 0 } else { (360 - r) as i32 }
    }
}

/// The quarter turn for a clockwise rotation by `deg` degrees.
pub fn quarter_turn(deg: i32) -> (t: QuarterTurn)
    ensures
        t == quarter_turn_spec(deg as int),
{
    let d = normalize_degrees(deg);
    if d == 90 {
        QuarterTurn::Clockwise90
    } else if d == 180 {
        QuarterTurn::Half
    } else if d == 270 {
        QuarterTurn::CounterClockwise90
    } else {
        QuarterTurn::Keep
    }
}

/// Rotation angle after turning a photo at angle `rotation` by `deg` degrees clockwise.
pub fn turn(rotation: i32, deg: i32) -> (r: i32)
    ensures
        r as int == turned(rotation as int, deg as int),
{
    let a: i64 = rotation as i64 + normalize_degrees(deg) as i64;
    if a >= 0 {
        (a % 360) as i32
    } else {
        (-((-a) % 360)) as i32
    }
}

/// Turning keeps an angle in `[0, 360)` there, and four quarter turns in either
/// direction bring a photo back to the angle it started at.
pub proof fn lemma_four_quarter_turns(rotation: int)
    requires
        0 <= rotation < 360,
    ensures
        forall|deg: int| 0 <= #[trigger] turned(rotation, deg) < 360,
        turned(turned(turned(turned(rotation, 90), 90), 90), 90) == rotation,
        turned(turned(turned(turned(rotation, -90), -90), -90), -90) == rotation,
        turned(turned(rotation, 90), -90) == rotation,
{
}

/// The quarter turn that undoes `t`.
pub open spec fn inverse_turn(t: QuarterTurn) -> QuarterTurn {
    match t {
        QuarterTurn::Keep => QuarterTurn::Keep,
        QuarterTurn::Clockwise90 => QuarterTurn::CounterClockwise90,
        QuarterTurn::Half => QuarterTurn::Half,
        QuarterTurn::CounterClockwise90 => QuarterTurn::Clockwise90,
    }
}

/// Turning by `d` and by `d + 360 k` degrees is the same quarter turn, and turning by
/// `360 - d` undoes turning by `d`; likewise a photo's angle comes back after a turn by
/// `d` followed by a turn by `360 - d`.
pub proof fn lemma_quarter_turn_round_trip(d: int, k: int, rotation: int)
    requires
        0 <= rotation < 360,
    ensures
        quarter_turn_spec(d + 360 * k) == quarter_turn_spec(d),
        quarter_turn_spec(360 - d) == inverse_turn(quarter_turn_spec(d)),
        turned(turned(rotation, d), 360 - d) == rotation,
{
    let r = d % 360;
    assert(d == 360 * (d / 360) + r && 0 <= r < 360);
    assert((d + 360 * k) % 360 == r) by {
        vstd::arithmetic::div_mod::lemma_mod_multiples_vanish(k + d / 360, r, 360);
        assert(d + 360 * k == 360 * (k + d / 360) + r) by (nonlinear_arith)
            requires
                d == 360 * (d / 360) + r,
        ;
    }
    assert((360 - d) % 360 == (360 - r) % 360) by {
        vstd::arithmetic::div_mod::lemma_mod_multiples_vanish(-(d / 360), 360 - r, 360);
        assert(360 - d == 360 * (-(d / 360)) + (360 - r)) by (nonlinear_arith)
            requires
                d == 360 * (d / 360) + r,
        ;
    }
}

} // verus!
