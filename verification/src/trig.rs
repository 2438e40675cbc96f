use vstd::prelude::*;

verus! {

/// The rational sine approximation over a half turn, in thousandths: for an
/// angle of `x` degrees between 0 and 180 the value is
/// `4000·x·(180−x) / (40500 − x·(180−x))`, rounded toward zero.
pub open spec fn half_turn_sin_milli(x: int) -> int
    recommends
        0 <= x <= 180,
{
    (4000 * (x * (180 - x))) / (40500 - x * (180 - x))
}

/// The sine of an angle in degrees, in thousandths: the rational half-turn
/// approximation, negated over the second half of the turn.
pub open spec fn spec_sin_milli(x: int) -> int
    recommends
        0 <= x <= 360,
{
    if x <= 180 {
        half_turn_sin_milli(x)
    } else {
        -half_turn_sin_milli(x - 180)
    }
}

/// The product of an angle and its half-turn complement stays within the
/// quarter-square bound.
proof fn lemma_angle_product_bounds(x: int)
    requires
        0 <= x <= 180,
    ensures
        0 <= x * (180 - x) <= 8100,
{
    assert(0 <= x * (180 - x) <= 8100) by (nonlinear_arith)
        requires
            0 <= x <= 180,
    ;
}

/// The half-turn approximation stays within one, that is a thousand
/// thousandths.
proof fn lemma_half_turn_sin_milli_bounds(x: int)
    requires
        0 <= x <= 180,
    ensures
        0 <= half_turn_sin_milli(x) <= 1000,
{
    lemma_angle_product_bounds(x);
    let p = x * (180 - x);
    let num = 4000 * p;
    let den = 40500 - p;
    assert(num >= 0) by (nonlinear_arith)
        requires
            p >= 0,
            num == 4000 * p,
    ;
    vstd::arithmetic::div_mod::lemma_div_pos_is_pos(num, den);
    assert(num <= 1000 * den) by (nonlinear_arith)
        requires
            0 <= p <= 8100,
            num == 4000 * p,
            den == 40500 - p,
    ;
    vstd::arithmetic::div_mod::lemma_div_is_ordered(num, 1000 * den, den);
    vstd::arithmetic::div_mod::lemma_div_multiples_vanish(1000, den);
    assert((den * 1000) / den == 1000);
    assert(1000 * den == den * 1000) by (nonlinear_arith);
}

/// The sine of an angle in degrees, in thousandths.
pub fn sin_milli(deg: i64) -> (r: i64)
    requires
        0 <= deg <= 360,
    ensures
        r == spec_sin_milli(deg as int),
        -1000 <= r <= 1000,
{
    let x: i64 = if deg <= 180 {
        deg
    } else {
        deg - 180
    };
    proof {
        lemma_angle_product_bounds(x as int);
        lemma_half_turn_sin_milli_bounds(x as int);
    }
    let p: i64 = x * (180 - x);
    let v: i64 = (4000 * p) / (40500 - p);
    if deg <= 180 {
        v
    } else {
        -v
    }
}

/// The cosine of an angle in degrees, in thousandths: the sine a quarter
/// turn ahead.
pub fn cos_milli(deg: i64) -> (r: i64)
    requires
        0 <= deg <= 360,
    ensures
        r == spec_sin_milli((deg + 90) % 360),
        -1000 <= r <= 1000,
{
    sin_milli((deg + 90) % 360)
}

} // verus!
