//! What singles stand for, and what is asked of arithmetic on them.
//!
//! The laws of the library are about the numbers that go in and come out. They
//! hold of every arithmetic that rounds: each operation gives a single that no
//! other separates from the exact result, and that lies near it unless the result
//! is too large.

use crate::arith::{Arith, Op, Vec3, HALF, ONE, ZERO};
use crate::single::{single, Single, EXPONENT_STEP, INFINITY_BITS};
use vstd::arithmetic::power2::{lemma2_to64, lemma_pow2_adds, lemma_pow2_pos, pow2};
use vstd::prelude::*;

verus! {

/// The single stands for a number.
pub open spec fn finite(x: Single) -> bool {
    x.magnitude() < INFINITY_BITS
}

/// What the bits below the sign bit stand for, in units of two to the power of
/// minus 150.
pub open spec fn units(magnitude: int) -> int {
    let exponent = magnitude / EXPONENT_STEP as int;
    let fraction = magnitude % EXPONENT_STEP as int;
    if exponent == 0 {
        fraction * 2
    } else {
        (fraction + EXPONENT_STEP) * pow2(exponent as nat)
    }
}

/// The number that a single stands for.
pub open spec fn number(x: Single) -> real {
    if x.negative() {
        -absolute(x.magnitude())
    } else {
        absolute(x.magnitude())
    }
}

/// What the bits below the sign bit stand for.
pub open spec fn absolute(magnitude: int) -> real {
    units(magnitude) as real / (pow2(150) as int) as real
}

/// Two numbers lie no farther apart than `error`.
pub open spec fn close(a: real, b: real, error: real) -> bool {
    -error <= a - b && a - b <= error
}

/// A number without its sign.
pub open spec fn size(a: real) -> real {
    if a < 0real {
        -a
    } else {
        a
    }
}

pub open spec fn square(a: real) -> real {
    a * a
}

/// No single lies between `r` and the exact result.
pub open spec fn faithful(r: Single, exact: real) -> bool {
    &&& !r.nan()
    &&& forall|c: Single|
        #![trigger number(c)]
        finite(c) ==> {
            &&& exact <= number(c) ==> r.at_most(c)
            &&& number(c) <= exact ==> c.at_most(r)
        }
}

/// The single is the exact result, rounded.
pub open spec fn rounded(r: Single, exact: real, reach: real, error: real) -> bool {
    &&& faithful(r, exact)
    &&& -reach <= exact && exact <= reach ==> finite(r) && close(number(r), exact, error)
}

/// The single is the square root of a number, rounded.
pub open spec fn root_rounded(r: Single, a: real, reach: real, error: real) -> bool {
    &&& !r.nan()
    &&& single(ZERO).at_most(r)
    &&& forall|c: Single|
        #![trigger number(c)]
        finite(c) && number(c) >= 0real ==> {
            &&& a <= square(number(c)) ==> r.at_most(c)
            &&& square(number(c)) <= a ==> c.at_most(r)
        }
    &&& a <= square(reach) ==> {
        &&& finite(r)
        &&& a <= square(number(r) + error)
        &&& number(r) >= error ==> square(number(r) - error) <= a
    }
}

/// The whole number is the largest that is no larger than `a`.
pub open spec fn is_floor(n: int, a: real) -> bool {
    n as real <= a && a < n as real + 1real
}

/// The single is the largest whole number that is no larger than `a`.
pub open spec fn floored(r: Single, a: real) -> bool {
    finite(r) && exists|n: int| #[trigger] is_floor(n, a) && number(r) == n as real
}

/// The arithmetic rounds: faithfully, and by no more than `error` wherever the
/// exact result is no larger than `reach`.
pub open spec fn rounds(g: Arith, reach: real, error: real) -> bool {
    &&& reach >= 1real
    &&& error >= 0real
    &&& forall|a: Single, b: Single|
        finite(a) && finite(b) ==> rounded(
            #[trigger] g(Op::Add(a, b)),
            number(a) + number(b),
            reach,
            error,
        )
    &&& forall|a: Single, b: Single|
        finite(a) && finite(b) ==> rounded(
            #[trigger] g(Op::Sub(a, b)),
            number(a) - number(b),
            reach,
            error,
        )
    &&& forall|a: Single, b: Single|
        finite(a) && finite(b) ==> rounded(
            #[trigger] g(Op::Mul(a, b)),
            number(a) * number(b),
            reach,
            error,
        )
    &&& forall|a: Single, b: Single|
        finite(a) && finite(b) && number(b) != 0real ==> rounded(
            #[trigger] g(Op::Div(a, b)),
            number(a) / number(b),
            reach,
            error,
        )
    &&& forall|a: Single|
        finite(a) && number(a) >= 0real ==> root_rounded(
            #[trigger] g(Op::Sqrt(a)),
            number(a),
            reach,
            error,
        )
    &&& forall|a: Single| finite(a) ==> floored(#[trigger] g(Op::Floor(a)), number(a))
    &&& forall|i: i64| rounded(#[trigger] g(Op::FromInt(i)), i as real, reach, error)
}

/// All three coordinates are numbers.
pub open spec fn vec_finite(v: Vec3) -> bool {
    finite(v.x) && finite(v.y) && finite(v.z)
}

proof fn lemma_units_step(m: int)
    requires
        0 <= m,
    ensures
        units(m) < units(m + 1),
        0 <= units(m),
{
    let step = EXPONENT_STEP as int;
    let e = m / step;
    let f = m % step;
    lemma_pow2_pos(e as nat);
    let p = pow2(e as nat) as int;
    if f == step - 1 {
        assert((m + 1) / step == e + 1 && (m + 1) % step == 0);
        lemma_pow2_adds(e as nat, 1);
        lemma2_to64();
        let q = pow2((e + 1) as nat) as int;
        assert(q == 2 * p);
        assert((0 + step) * q == (2 * step) * p) by (nonlinear_arith)
            requires
                q == 2 * p,
        ;
        assert((f + step) * p < (2 * step) * p) by (nonlinear_arith)
            requires
                f < step,
                p > 0,
        ;
        if e == 0 {
            assert(pow2(0) == 1);
        }
    } else {
        assert((m + 1) / step == e && (m + 1) % step == f + 1);
        assert((f + step) * p < (f + 1 + step) * p) by (nonlinear_arith)
            requires
                p > 0,
        ;
    }
    assert(0 <= (f + step) * p) by (nonlinear_arith)
        requires
            p > 0,
            f >= 0,
            step > 0,
    ;
}

proof fn lemma_units_grow(m: int, n: int)
    requires
        0 <= m < n,
    ensures
        units(m) < units(n),
    decreases n - m,
{
    lemma_units_step(n - 1);
    if m < n - 1 {
        lemma_units_grow(m, n - 1);
    }
}

proof fn lemma_absolute_grows(m: int, n: int)
    requires
        0 <= m < n,
    ensures
        0real <= absolute(m),
        absolute(m) < absolute(n),
        absolute(0) == 0real,
{
    lemma_units_grow(m, n);
    lemma_units_step(m);
    lemma_pow2_pos(150);
    let unit = (pow2(150) as int) as real;
    let x = units(m) as real;
    let y = units(n) as real;
    assert(x / unit < y / unit) by (nonlinear_arith)
        requires
            unit > 0real,
            x < y,
    ;
    assert(0real <= x / unit) by (nonlinear_arith)
        requires
            unit > 0real,
            0real <= x,
    ;
    assert(0real / unit == 0real) by (nonlinear_arith)
        requires
            unit > 0real,
    ;
    assert(units(0) == 0);
}

/// Singles are ordered as the numbers that they stand for.
pub proof fn lemma_order(a: Single, b: Single)
    requires
        finite(a),
        finite(b),
    ensures
        a.below(b) <==> number(a) < number(b),
        a.at_most(b) <==> number(a) <= number(b),
{
    let m = a.magnitude();
    let n = b.magnitude();
    lemma_absolute_grows(m, m + 1);
    lemma_absolute_grows(n, n + 1);
    if m < n {
        lemma_absolute_grows(m, n);
    } else if n < m {
        lemma_absolute_grows(n, m);
    }
    if 0 < m {
        lemma_absolute_grows(0, m);
    }
    if 0 < n {
        lemma_absolute_grows(0, n);
    }
}

/// Flipping the sign bit changes the sign of the number; clearing it takes the
/// sign away.
pub proof fn lemma_signs(x: Single)
    requires
        finite(x),
    ensures
        finite(x.negated()),
        number(x.negated()) == -number(x),
        finite(x.without_sign()),
        number(x.without_sign()) == size(number(x)),
        x.magnitude() == 0 <==> number(x) == 0real,
        number(single(ZERO)) == 0real,
{
    let m = x.magnitude();
    lemma_absolute_grows(m, m + 1);
    if 0 < m {
        lemma_absolute_grows(0, m);
    }
    assert(x.without_sign().magnitude() == m);
    assert(x.negated().magnitude() == m);
}

/// What a single with the given exponent field and significand stands for.
pub proof fn lemma_known(x: Single, exponent: int, significand: int)
    requires
        1 <= exponent <= 150,
        EXPONENT_STEP <= significand < 2 * EXPONENT_STEP,
        x.bits == exponent * EXPONENT_STEP + (significand - EXPONENT_STEP),
    ensures
        finite(x),
        number(x) * ((pow2((150 - exponent) as nat) as int) as real) == significand as real,
{
    let rest = (150 - exponent) as nat;
    lemma_pow2_adds(exponent as nat, rest);
    lemma_pow2_pos(exponent as nat);
    lemma_pow2_pos(rest);
    let pi = pow2(exponent as nat) as int;
    let qi = pow2(rest) as int;
    let p = pi as real;
    let q = qi as real;
    let s = significand as real;
    assert(x.magnitude() == x.bits);
    assert(x.magnitude() / EXPONENT_STEP as int == exponent);
    assert(x.magnitude() % EXPONENT_STEP as int == significand - EXPONENT_STEP);
    assert(units(x.magnitude()) == significand * pi);
    assert((significand * pi) as real == significand as real * pi as real) by (nonlinear_arith);
    assert((pi * qi) as real == pi as real * qi as real) by (nonlinear_arith);
    assert(s * p / (p * q) * q == s) by (nonlinear_arith)
        requires
            p > 0real,
            q > 0real,
    ;
}

/// A single whose exponent field is `exponent` stands for its significand over the
/// right power of two.
pub proof fn lemma_fraction(x: Single, exponent: int, significand: int, parts: int, value: real)
    requires
        1 <= exponent <= 150,
        EXPONENT_STEP <= significand < 2 * EXPONENT_STEP,
        x.bits == exponent * EXPONENT_STEP + (significand - EXPONENT_STEP),
        parts == pow2((150 - exponent) as nat),
        value * (parts as real) == significand as real,
    ensures
        finite(x),
        number(x) == value,
{
    lemma_known(x, exponent, significand);
    lemma_pow2_pos((150 - exponent) as nat);
    let k = parts as real;
    let a = number(x);
    assert(a == value) by (nonlinear_arith)
        requires
            a * k == value * k,
            k > 0real,
    ;
}

/// A product is no larger than the factors allow.
pub proof fn lemma_product(a: real, b: real, m: real, n: real)
    requires
        size(a) <= m,
        size(b) <= n,
    ensures
        size(a * b) <= m * n,
{
    assert(size(a * b) <= m * n) by (nonlinear_arith)
        requires
            -m <= a,
            a <= m,
            -n <= b,
            b <= n,
    ;
}

/// Products of larger numbers are larger.
pub proof fn lemma_grows(a: real, b: real, c: real)
    requires
        a <= b,
        0real <= c,
    ensures
        a * c <= b * c,
        c * a <= c * b,
{
    assert(a * c <= b * c) by (nonlinear_arith)
        requires
            a <= b,
            0real <= c,
    ;
    assert(a * c == c * a && b * c == c * b) by (nonlinear_arith);
}

/// Numbers are in the order of their products with a number above zero.
pub proof fn lemma_shrinks(a: real, b: real, c: real)
    requires
        a * c <= b * c,
        0real < c,
    ensures
        a <= b,
{
    assert(a <= b) by (nonlinear_arith)
        requires
            a * c <= b * c,
            0real < c,
    ;
}

/// A quotient times its divisor is the dividend.
pub proof fn lemma_divides(a: real, b: real)
    requires
        b > 0real,
    ensures
        a / b * b == a,
        a >= 0real ==> a / b >= 0real,
        a <= 0real ==> a / b <= 0real,
{
    let q = a / b;
    assert(q * b == a) by (nonlinear_arith)
        requires
            b > 0real,
            q == a / b,
    ;
    assert(a >= 0real ==> q >= 0real) by (nonlinear_arith)
        requires
            q * b == a,
            b > 0real,
    ;
    assert(a <= 0real ==> q <= 0real) by (nonlinear_arith)
        requires
            q * b == a,
            b > 0real,
    ;
}

/// Numbers that are not negative are in the order of their squares.
pub proof fn lemma_square_order(a: real, b: real)
    requires
        square(a) <= square(b),
        0real <= b,
    ensures
        a <= b,
{
    if a > b {
        assert(a * a > b * b) by (nonlinear_arith)
            requires
                a > b,
                0real <= b,
        ;
    }
}

/// The size of a product is the product of the sizes.
pub proof fn lemma_size_product(a: real, b: real)
    requires
        0real <= b,
    ensures
        size(a * b) == size(a) * b,
{
    if a < 0real {
        lemma_grows(a, 0real, b);
        assert((-a) * b == -(a * b)) by (nonlinear_arith);
        assert(0real * b == 0real);
        if a * b == 0real {
        }
    } else {
        lemma_grows(0real, a, b);
        assert(0real * b == 0real);
    }
}

/// A single that stands for a whole number has that as its whole part.
proof fn lemma_whole(x: Single, size: int)
    requires
        finite(x),
        0 <= size,
        units(x.magnitude()) == size * pow2(150),
    ensures
        x.whole() == size,
{
    let step = EXPONENT_STEP as int;
    let m = x.magnitude();
    let e = m / step;
    let f = m % step;
    let s = f + step;
    assert(m == e * step + f);
    if e >= 150 {
        let rest = (e - 150) as nat;
        lemma_pow2_adds(rest, 150);
        lemma_pow2_pos(150);
        let p = pow2(rest) as int;
        let q = pow2(150) as int;
        assert(s * (p * q) == (s * p) * q) by (nonlinear_arith);
        assert(s * p == size) by (nonlinear_arith)
            requires
                (s * p) * q == size * q,
                q > 0,
        ;
    } else if e > 0 {
        let rest = (150 - e) as nat;
        lemma_pow2_adds(e as nat, rest);
        lemma_pow2_pos(e as nat);
        lemma_pow2_pos(rest);
        let p = pow2(e as nat) as int;
        let q = pow2(rest) as int;
        assert(size * (p * q) == (size * q) * p) by (nonlinear_arith);
        assert(s == size * q) by (nonlinear_arith)
            requires
                s * p == (size * q) * p,
                p > 0,
        ;
        vstd::arithmetic::div_mod::lemma_div_by_multiple(size, q);
    } else {
        lemma2_to64();
        lemma_pow2_adds(32, 118);
        lemma_pow2_pos(118);
        let p = pow2(118) as int;
        let q = pow2(150) as int;
        assert(q == 0x1_0000_0000 * p);
        assert(q > 2 * step) by (nonlinear_arith)
            requires
                q == 0x1_0000_0000 * p,
                p >= 1,
                step == 0x80_0000,
        ;
        if size > 0 {
            assert(size * q >= q) by (nonlinear_arith)
                requires
                    size >= 1,
                    q > 0,
            ;
        }
        vstd::arithmetic::div_mod::lemma_basic_div(s, q);
    }
}

/// A single that stands for a whole number becomes that number, held to the range.
pub proof fn lemma_truncated(x: Single, n: int, low: int, high: int)
    requires
        finite(x),
        number(x) == n as real,
        low <= 0 <= high,
    ensures
        x.truncated(low, high) == if n < low {
            low
        } else if n > high {
            high
        } else {
            n
        },
{
    let m = x.magnitude();
    let size = if x.negative() {
        -n
    } else {
        n
    };
    lemma_pow2_pos(150);
    let qi = pow2(150) as int;
    let u = units(m);
    let a = u as real;
    let q = qi as real;
    let s = size as real;
    lemma_divides(a, q);
    assert(a / q == s);
    assert((size * qi) as real == size as real * qi as real) by (nonlinear_arith);
    assert(u == size * qi);
    lemma_units_step(m);
    assert(size >= 0) by (nonlinear_arith)
        requires
            size * qi >= 0,
            qi > 0,
    ;
    lemma_whole(x, size);
}

/// A few singles and their numbers.
pub proof fn lemma_few_numbers()
    ensures
        finite(single(ZERO)),
        finite(single(ONE)),
        finite(single(HALF)),
        number(single(ZERO)) == 0real,
        number(single(ONE)) == 1real,
        number(single(HALF)) * 2real == 1real,
{
    lemma2_to64();
    lemma_signs(single(ZERO));
    lemma_fraction(single(ONE), 127, 0x80_0000, 0x80_0000, 1real);
    lemma_fraction(single(HALF), 126, 0x80_0000, 0x100_0000, 1real / 2real);
}

} // verus!
