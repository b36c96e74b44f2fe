//! Integer arithmetic on timestamps: machine division rounds toward zero, casts keep low bits.
use vstd::prelude::*;

verus! {

/// The absolute value of an integer.
pub open spec fn magnitude(a: int) -> int {
    if a < 0 {
        -a
    } else {
        a
    }
}

/// The quotient of `a` by `b`, rounded toward zero.
#[verifier::opaque]
pub open spec fn trunc_div(a: int, b: int) -> int {
    if (a < 0) == (b < 0) {
        magnitude(a) / magnitude(b)
    } else {
        -(magnitude(a) / magnitude(b))
    }
}

/// What `trunc_div` leaves over; it has the sign of `a`.
pub open spec fn trunc_rem(a: int, b: int) -> int {
    a - trunc_div(a, b) * b
}

/// The value that is left when an integer is cast to eight bits.
pub open spec fn low_byte(a: int) -> int {
    a % 256
}

/// Whether an integer is an `i64`.
pub open spec fn fits_i64(a: int) -> bool {
    i64::MIN <= a <= i64::MAX
}

/// Whether `value * mul / div` can be computed in `i64`.
pub open spec fn scale_fits(value: int, mul: int, div: int) -> bool {
    &&& div != 0
    &&& fits_i64(value * mul)
    &&& !(value * mul == i64::MIN && div == -1)
}

proof fn lemma_div_by_negative(a: int, b: int)
    requires
        b < 0,
    ensures
        a / b == -(a / (-b)),
{
    let q = a / (-b);
    let r = a % (-b);
    vstd::arithmetic::div_mod::lemma_fundamental_div_mod(a, -b);
    assert(a == b * (-q) + r) by (nonlinear_arith)
        requires
            a == (-b) * q + r,
    ;
    assert(0 <= r < -b);
    assert(a / b == -q) by (nonlinear_arith)
        requires
            a == b * (-q) + r,
            0 <= r < -b,
            b < 0,
    ;
}

/// The machine quotient of two `i64` values.
pub fn div_i64(a: i64, b: i64) -> (quotient: i64)
    requires
        b != 0,
        !(a == i64::MIN && b == -1),
    ensures
        quotient == trunc_div(a as int, b as int),
{
    proof {
        reveal(trunc_div);
        if b < 0 {
            lemma_div_by_negative(a as int, b as int);
            lemma_div_by_negative(-(a as int), b as int);
            if a < 0 && b < -1 {
                vstd::arithmetic::div_mod::lemma_div_is_ordered_by_denominator(
                    -(a as int),
                    2,
                    -(b as int),
                );
            }
        }
    }
    a / b
}

/// By a positive divisor, the quotient and what is left over have the sign of the dividend.
pub proof fn lemma_trunc_by_positive(a: int, b: int)
    requires
        b > 0,
    ensures
        a >= 0 ==> trunc_div(a, b) == a / b && trunc_rem(a, b) == a % b,
        a < 0 ==> trunc_div(a, b) == -((-a) / b) && trunc_rem(a, b) == -((-a) % b),
        -b < trunc_rem(a, b) < b,
{
    reveal(trunc_div);
    let m = magnitude(a);
    let q = m / b;
    vstd::arithmetic::div_mod::lemma_fundamental_div_mod(m, b);
    assert(b * q == q * b && b * q == -((-q) * b)) by (nonlinear_arith);
}

/// What is left over of one `i64` value by another, as the machine computes it.
pub fn rem_i64(a: i64, b: i64) -> (rem: i64)
    requires
        b > 0,
    ensures
        rem == trunc_rem(a as int, b as int),
{
    proof {
        lemma_trunc_by_positive(a as int, b as int);
    }
    a % b
}

/// Whether `scale` may be called on these values.
pub fn can_scale(value: i64, mul: i64, div: i64) -> (fits: bool)
    ensures
        fits == scale_fits(value as int, mul as int, div as int),
{
    match value.checked_mul(mul) {
        Some(product) => div != 0 && !(product == i64::MIN && div == -1),
        None => false,
    }
}

/// `value * mul / div`, the quotient rounded toward zero.
pub fn scale(value: i64, mul: i64, div: i64) -> (scaled: i64)
    requires
        scale_fits(value as int, mul as int, div as int),
    ensures
        scaled == trunc_div(value * mul, div as int),
{
    div_i64(value * mul, div)
}

/// The low eight bits of an `i64`, as a cast takes them.
pub fn byte_of(a: i64) -> (b: u8)
    ensures
        b == low_byte(a as int),
{
    assert(((a as u64) & 0xff) as u8 == a as u8) by (bit_vector);
    assert(((a as u64) & 0xff) == (a as int) % 256) by (bit_vector);
    #[verifier::truncate]
    (a as u8)
}

/// The quotient times the divisor comes as near to the dividend as it can without passing it: what
/// is left over is smaller than the divisor and has the sign of the dividend.
pub proof fn law_quotient_rounds_toward_zero(a: int, b: int)
    requires
        b != 0,
    ensures
        a >= 0 ==> 0 <= a - trunc_div(a, b) * b,
        a <= 0 ==> a - trunc_div(a, b) * b <= 0,
        b > 0 ==> -b < a - trunc_div(a, b) * b < b,
        b < 0 ==> b < a - trunc_div(a, b) * b < -b,
        trunc_rem(a, b) == a - trunc_div(a, b) * b,
{
    reveal(trunc_div);
    let (m, n) = (magnitude(a), magnitude(b));
    let q = m / n;
    vstd::arithmetic::div_mod::lemma_fundamental_div_mod(m, n);
    assert(n * q == q * n && q * b == -(q * (-b)) && (-q) * b == -(q * b)) by (nonlinear_arith);
}

/// A value can be scaled exactly when the divisor is not zero and neither the product nor the
/// quotient leaves the machine's range.
pub proof fn law_scale_fits(value: int, mul: int, div: int)
    ensures
        scale_fits(value, mul, div) <==> div != 0 && i64::MIN <= value * mul <= i64::MAX && i64::MIN
            <= trunc_div(value * mul, div) <= i64::MAX,
{
    reveal(trunc_div);
    let (m, n) = (magnitude(value * mul), magnitude(div));
    if div != 0 {
        vstd::arithmetic::div_mod::lemma_div_pos_is_pos(m, n);
        vstd::arithmetic::div_mod::lemma_div_is_ordered_by_denominator(m, 1, n);
        if n >= 2 {
            vstd::arithmetic::div_mod::lemma_div_is_ordered_by_denominator(m, 2, n);
        }
    }
}

/// The byte that is left of an integer differs from it by whole multiples of 256.
pub proof fn law_low_byte(a: int)
    ensures
        0 <= low_byte(a) <= 255,
        (a - low_byte(a)) % 256 == 0,
{
}

} // verus!
