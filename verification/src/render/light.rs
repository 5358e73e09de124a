//! What drawing comes to, in numbers.

use crate::arith::{Arith, Op, Sym2, HALF, ONE, ZERO};
use crate::render::frame::{center_of, over_background};
use crate::render::rasterize::{
    alpha_of, cutoff_weight, drawn, effective_alpha, light_behind, seen, sigma_of, tinted,
    Pixel, RasterizeUniforms, Splat, ALPHA_CUTOFF_MID, MAX_ALPHA, OPAQUE_BELOW,
};
use crate::rounding::{
    close, finite, lemma_few_numbers, lemma_fraction, lemma_order, lemma_signs, number, rounded,
    rounds, size,
};
use crate::single::{single, Single};
use vstd::arithmetic::power2::{lemma2_to64, lemma2_to64_rest};
use vstd::prelude::*;

verus! {

/// The exponent that a splat has at a point: half of the quadratic form of its
/// conic, `conic_x` along X, `conic_z` along Y, and `conic_y` across.
pub open spec fn exponent_at(splat: Splat, x: Single, y: Single) -> real {
    let dx = number(splat.xy_x) - number(x);
    let dy = number(splat.xy_y) - number(y);
    (number(splat.conic_x) * (dx * dx) + number(splat.conic_z) * (dy * dy)) / 2real + number(
        splat.conic_y,
    ) * (dx * dy)
}

/// The quadratic form that an operation on a conic stands for.
pub open spec fn form_at(x: Single, y: Single, conic: Sym2, center_x: Single, center_y: Single) -> real {
    let dx = number(center_x) - number(x);
    let dy = number(center_y) - number(y);
    (number(conic.c00) * (dx * dx) + number(conic.c11) * (dy * dy)) / 2real + number(conic.c01) * (
    dx * dy)
}

/// The arithmetic rounds, its exponents are those of the conic give or take
/// `error`, it is monotone in factors that are not negative, and its exponential
/// grows and stays between zero and one up to zero.
pub open spec fn shades(g: Arith, reach: real, error: real) -> bool {
    &&& rounds(g, reach, error)
    &&& forall|x: Single, y: Single, conic: Sym2, center_x: Single, center_y: Single|
        finite(x) && finite(y) && finite(conic.c00) && finite(conic.c01) && finite(conic.c11)
            && finite(center_x) && finite(center_y) && -reach <= form_at(
            x,
            y,
            conic,
            center_x,
            center_y,
        ) && form_at(x, y, conic, center_x, center_y) <= reach ==> {
            let r = #[trigger] g(Op::Sigma { x, y, conic, center_x, center_y });
            finite(r) && close(number(r), form_at(x, y, conic, center_x, center_y), error)
        }
    &&& forall|a: Single, b: Single|
        finite(a) && finite(b) && number(a) <= number(b) ==> (#[trigger] g(Op::Exp(a))).at_most(
            #[trigger] g(Op::Exp(b)),
        )
    &&& forall|a: Single|
        finite(a) && number(a) <= 0real ==> {
            let r = #[trigger] g(Op::Exp(a));
            finite(r) && 0real <= number(r) && number(r) <= 1real
        }
    &&& forall|k: Single, a: Single, b: Single|
        finite(k) && finite(a) && finite(b) && number(k) >= 0real && number(a) <= number(b) ==> (
        #[trigger] g(Op::Mul(k, a))).at_most(#[trigger] g(Op::Mul(k, b)))
    &&& forall|k: Single, a: Single, b: Single|
        finite(k) && finite(a) && finite(b) && number(a) <= number(b) ==> (
        #[trigger] g(Op::Sub(k, b))).at_most(#[trigger] g(Op::Sub(k, a)))
}

/// The parameters of a splat are numbers, its opacity between zero and one.
pub open spec fn proper(splat: Splat) -> bool {
    &&& finite(splat.xy_x) && finite(splat.xy_y)
    &&& finite(splat.conic_x) && finite(splat.conic_y) && finite(splat.conic_z)
    &&& finite(splat.color_a) && 0real <= number(splat.color_a) && number(splat.color_a) <= 1real
    &&& finite(splat.color_r) && finite(splat.color_g) && finite(splat.color_b)
}

/// The light that comes through a pixel is a share.
pub open spec fn sound(pixel: Pixel) -> bool {
    &&& finite(pixel.t_acc) && 0real <= number(pixel.t_acc) && number(pixel.t_acc) <= 1real
    &&& finite(pixel.r) && finite(pixel.g) && finite(pixel.b)
}

/// The opacity of a splat at a point where its exponent is not negative.
proof fn lemma_alpha(g: Arith, reach: real, error: real, splat: Splat, x: Single, y: Single)
    requires
        shades(g, reach, error),
        proper(splat),
        finite(x),
        finite(y),
        finite(sigma_of(g, splat, x, y)),
        0real <= number(sigma_of(g, splat, x, y)),
    ensures
        ({
            let alpha = alpha_of(g, splat, x, y);
            &&& finite(alpha)
            &&& 0real <= number(alpha) && number(alpha) <= number(splat.color_a)
            &&& number(alpha) <= number(single(MAX_ALPHA)) && number(single(MAX_ALPHA)) < 1real
        }),
{
    lemma_few_numbers();
    lemma_signs(sigma_of(g, splat, x, y));
    let zero = single(ZERO);
    let most = single(MAX_ALPHA);
    lemma_order(most, single(ONE));
    lemma_order(zero, most);
    let falloff = g(Op::Exp(sigma_of(g, splat, x, y).negated()));
    let a = number(splat.color_a);
    let f = number(falloff);
    assert(0real <= a * f && a * f <= a && a * f <= 1real) by (nonlinear_arith)
        requires
            0real <= a,
            a <= 1real,
            0real <= f,
            f <= 1real,
    ;
    let raw = g(Op::Mul(splat.color_a, falloff));
    assert(rounded(raw, a * f, reach, error));
    lemma_order(zero, raw);
    lemma_order(raw, splat.color_a);
    lemma_order(most, raw);
}

/// Opacity falls with the exponent.
proof fn lemma_alpha_falls(
    g: Arith,
    reach: real,
    error: real,
    splat: Splat,
    x: Single,
    y: Single,
    u: Single,
    v: Single,
)
    requires
        shades(g, reach, error),
        proper(splat),
        finite(x),
        finite(y),
        finite(u),
        finite(v),
        error <= exponent_at(splat, x, y),
        exponent_at(splat, x, y) + 2real * error <= exponent_at(splat, u, v),
        exponent_at(splat, u, v) <= reach,
    ensures
        finite(sigma_of(g, splat, x, y)) && finite(sigma_of(g, splat, u, v)),
        0real <= number(sigma_of(g, splat, x, y)),
        0real <= number(sigma_of(g, splat, u, v)),
        alpha_of(g, splat, u, v).at_most(alpha_of(g, splat, x, y)),
{
    let near = sigma_of(g, splat, x, y);
    let far = sigma_of(g, splat, u, v);
    let conic = Sym2 { c00: splat.conic_x, c01: splat.conic_y, c11: splat.conic_z };
    assert(exponent_at(splat, x, y) == form_at(x, y, conic, splat.xy_x, splat.xy_y));
    assert(exponent_at(splat, u, v) == form_at(u, v, conic, splat.xy_x, splat.xy_y));
    assert(finite(near) && close(number(near), exponent_at(splat, x, y), error));
    assert(finite(far) && close(number(far), exponent_at(splat, u, v), error));
    lemma_signs(near);
    lemma_signs(far);
    lemma_alpha(g, reach, error, splat, x, y);
    lemma_alpha(g, reach, error, splat, u, v);
    let a = g(Op::Exp(near.negated()));
    let b = g(Op::Exp(far.negated()));
    lemma_order(b, a);
    assert(g(Op::Mul(splat.color_a, b)).at_most(g(Op::Mul(splat.color_a, a))));
    lemma_order(alpha_of(g, splat, u, v), alpha_of(g, splat, x, y));
}

/// What the hard cutoff leaves of an opacity.
proof fn lemma_effective(g: Arith, reach: real, error: real, splat: Splat, x: Single, y: Single)
    requires
        shades(g, reach, error),
        proper(splat),
        finite(x),
        finite(y),
        finite(sigma_of(g, splat, x, y)),
        seen(g, splat, x, y, false),
    ensures
        ({
            let alpha = alpha_of(g, splat, x, y);
            let kept = effective_alpha(g, splat, x, y, false);
            &&& 0real <= number(sigma_of(g, splat, x, y))
            &&& finite(alpha) && finite(kept)
            &&& number(kept) == number(alpha)
            &&& number(single(ALPHA_CUTOFF_MID)) <= number(kept)
            &&& 0real <= number(kept) && number(kept) <= number(splat.color_a)
            &&& number(kept) < 1real
        }),
{
    lemma_few_numbers();
    let zero = single(ZERO);
    lemma_order(zero, sigma_of(g, splat, x, y));
    lemma_alpha(g, reach, error, splat, x, y);
    let alpha = alpha_of(g, splat, x, y);
    let kept = effective_alpha(g, splat, x, y, false);
    lemma_order(zero, zero);
    lemma_order(single(ALPHA_CUTOFF_MID), alpha);
    assert(cutoff_weight(g, alpha, false) == single(ONE));
    assert(rounded(kept, number(alpha) * number(single(ONE)), reach, error));
    assert(number(alpha) * 1real == number(alpha));
    lemma_order(kept, alpha);
    lemma_order(alpha, kept);
}

/// What still comes through behind a splat that is seen.
proof fn lemma_light(
    g: Arith,
    reach: real,
    error: real,
    pixel: Pixel,
    splat: Splat,
    x: Single,
    y: Single,
)
    requires
        shades(g, reach, error),
        proper(splat),
        sound(pixel),
        finite(x),
        finite(y),
        finite(sigma_of(g, splat, x, y)),
        seen(g, splat, x, y, false),
    ensures
        ({
            let a = number(effective_alpha(g, splat, x, y, false));
            let rest = g(Op::Sub(single(ONE), effective_alpha(g, splat, x, y, false)));
            let next = light_behind(g, pixel, splat, x, y, false);
            &&& finite(rest) && 0real <= number(rest) && number(rest) <= 1real
            &&& finite(next) && 0real <= number(next)
            &&& next.at_most(pixel.t_acc)
            &&& close(number(next), number(pixel.t_acc) * (1real - a), 2real * error)
        }),
{
    lemma_few_numbers();
    lemma_effective(g, reach, error, splat, x, y);
    let one = single(ONE);
    let zero = single(ZERO);
    let kept = effective_alpha(g, splat, x, y, false);
    let rest = g(Op::Sub(one, kept));
    assert(rounded(rest, 1real - number(kept), reach, error));
    lemma_order(rest, one);
    lemma_order(zero, rest);
    let t = number(pixel.t_acc);
    let k = number(rest);
    let a = number(kept);
    assert(0real <= t * k && t * k <= t) by (nonlinear_arith)
        requires
            0real <= t,
            0real <= k,
            k <= 1real,
    ;
    assert(close(t * k, t * (1real - a), error)) by (nonlinear_arith)
        requires
            0real <= t,
            t <= 1real,
            close(k, 1real - a, error),
            error >= 0real,
    ;
    let next = light_behind(g, pixel, splat, x, y, false);
    assert(rounded(next, t * k, reach, error));
    lemma_order(zero, next);
}

/// The opacity of a splat falls with its own conic: where its exponent is smaller,
/// by more than rounding, a splat covers a pixel at least as much. So a splat whose
/// `conic_x` is smaller than its `conic_z` covers at least as much along X as along
/// Y.
pub proof fn law_splat_falls_with_its_conic(
    g: Arith,
    reach: real,
    error: real,
    pixel: Pixel,
    splat: Splat,
    isect: int,
    x: Single,
    y: Single,
    u: Single,
    v: Single,
)
    requires
        shades(g, reach, error),
        proper(splat),
        sound(pixel),
        finite(x),
        finite(y),
        finite(u),
        finite(v),
        error <= exponent_at(splat, x, y),
        exponent_at(splat, x, y) + 2real * error <= exponent_at(splat, u, v),
        exponent_at(splat, u, v) <= reach,
    ensures
        ({
            let nearer = drawn(g, pixel, splat, isect, x, y, false);
            let farther = drawn(g, pixel, splat, isect, u, v, false);
            &&& farther.done ==> nearer.done
            &&& nearer.done || nearer.t_acc.at_most(farther.t_acc)
        }),
{
    lemma_few_numbers();
    lemma_alpha_falls(g, reach, error, splat, x, y, u, v);
    lemma_alpha(g, reach, error, splat, x, y);
    lemma_alpha(g, reach, error, splat, u, v);
    let zero = single(ZERO);
    let here = alpha_of(g, splat, x, y);
    let there = alpha_of(g, splat, u, v);
    lemma_order(zero, sigma_of(g, splat, x, y));
    lemma_order(zero, single(ONE));
    lemma_order(zero, zero);
    lemma_order(pixel.t_acc, pixel.t_acc);
    lemma_order(there, here);
    if !pixel.done && seen(g, splat, u, v, false) {
        lemma_order(single(ALPHA_CUTOFF_MID), there);
        lemma_order(single(ALPHA_CUTOFF_MID), here);
        assert(seen(g, splat, x, y, false));
        lemma_effective(g, reach, error, splat, x, y);
        lemma_effective(g, reach, error, splat, u, v);
        lemma_light(g, reach, error, pixel, splat, x, y);
        lemma_light(g, reach, error, pixel, splat, u, v);
        let a = g(Op::Sub(single(ONE), effective_alpha(g, splat, x, y, false)));
        let b = g(Op::Sub(single(ONE), effective_alpha(g, splat, u, v, false)));
        lemma_order(a, b);
        let near = light_behind(g, pixel, splat, x, y, false);
        let far = light_behind(g, pixel, splat, u, v, false);
        assert(near.at_most(far));
        lemma_order(near, single(OPAQUE_BELOW));
        lemma_order(far, single(OPAQUE_BELOW));
        lemma_order(near, far);
    } else if !pixel.done && seen(g, splat, x, y, false) {
        lemma_light(g, reach, error, pixel, splat, x, y);
    }
}

/// The part of a colour that counts.
pub open spec fn lit(color: Single) -> real {
    if number(color) > 0real {
        number(color)
    } else {
        0real
    }
}

proof fn lemma_tinted(
    g: Arith,
    reach: real,
    error: real,
    sum: Single,
    color: Single,
    visibility: Single,
    share: real,
    most: real,
)
    requires
        rounds(g, reach, error),
        error <= 1real,
        finite(sum),
        finite(color),
        finite(visibility),
        number(color) <= most,
        most >= 0real,
        0real <= share && share <= 1real,
        close(number(visibility), share, error),
        size(number(sum)) + 4real * most + 4real <= reach,
    ensures
        finite(tinted(g, sum, color, visibility)),
        close(
            number(tinted(g, sum, color, visibility)),
            number(sum) + lit(color) * share,
            (most + 2real) * error,
        ),
{
    lemma_few_numbers();
    lemma_order(single(ZERO), color);
    let light = if single(ZERO).below(color) {
        color
    } else {
        single(ZERO)
    };
    let c = number(light);
    let v = number(visibility);
    assert(c == lit(color));
    assert(close(c * v, c * share, most * error) && -2real * most <= c * v && c * v <= 2real * most)
        by (nonlinear_arith)
        requires
            0real <= c,
            c <= most,
            close(v, share, error),
            0real <= share,
            share <= 1real,
            error >= 0real,
            error <= 1real,
    ;
    let part = g(Op::Mul(light, visibility));
    assert(rounded(part, c * v, reach, error));
    let end = g(Op::Add(sum, part));
    assert(rounded(end, number(sum) + number(part), reach, error));
    assert((most + 2real) * error == most * error + 2real * error) by (nonlinear_arith);
}

/// The lesser of the largest opacity, 0.999, and the splat's own opacity times the
/// exponential of what its conic takes away.
pub open spec fn opacity_at(g: Arith, splat: Splat, x: Single, y: Single) -> real {
    let conic = Sym2 { c00: splat.conic_x, c01: splat.conic_y, c11: splat.conic_z };
    let taken = g(Op::Sigma { x, y, conic, center_x: splat.xy_x, center_y: splat.xy_y });
    let falling = number(splat.color_a) * number(g(Op::Exp(taken.negated())));
    if falling > 999real / 1000real {
        999real / 1000real
    } else {
        falling
    }
}

/// `after` is `before` with a splat of opacity `a` behind it, up to rounding: the
/// light behind is dimmed by `a`, each channel gets the splat's own colour in that
/// channel by the share `a` of the light that still came through, and the depth is
/// that of the first splat behind which less than half of the light is left.
pub open spec fn blended(before: Pixel, after: Pixel, splat: Splat, a: real, error: real) -> bool {
    let t = number(before.t_acc);
    let left = t * (1real - a);
    &&& close(number(after.t_acc), left, error)
    &&& close(number(after.r), number(before.r) + lit(splat.color_r) * (a * t), error)
    &&& close(number(after.g), number(before.g) + lit(splat.color_g) * (a * t), error)
    &&& close(number(after.b), number(before.b) + lit(splat.color_b) * (a * t), error)
    &&& after.last_depth == splat.depth
    &&& !after.done
    &&& before.depth_set ==> after.depth_set && after.depth == before.depth
    &&& !before.depth_set && left + error < 1real / 2real ==> after.depth_set && after.depth
        == splat.depth
    &&& !before.depth_set && left - error >= 1real / 2real ==> !after.depth_set
}

proof fn lemma_thresholds()
    ensures
        finite(single(MAX_ALPHA)),
        finite(single(ALPHA_CUTOFF_MID)),
        finite(single(OPAQUE_BELOW)),
        close(number(single(MAX_ALPHA)), 999real / 1000real, 1real / 1000000real),
        close(number(single(ALPHA_CUTOFF_MID)), 1real / 255real, 1real / 1000000real),
        close(number(single(OPAQUE_BELOW)), 1real / 10000real, 1real / 1000000real),
{
    lemma2_to64();
    lemma2_to64_rest();
    lemma_fraction(single(MAX_ALPHA), 126, 0xff_be77, 0x100_0000, 16760439real / 16777216real);
    lemma_fraction(
        single(ALPHA_CUTOFF_MID),
        119,
        0x80_8081,
        0x8000_0000,
        8421505real / 2147483648real,
    );
    lemma_fraction(
        single(OPAQUE_BELOW),
        113,
        0xd1_b717,
        0x20_0000_0000,
        13743895real / 137438953472real,
    );
}

/// How opaque a splat is that is not cut off.
proof fn lemma_opacity(g: Arith, reach: real, error: real, splat: Splat, x: Single, y: Single)
    requires
        shades(g, reach, error),
        proper(splat),
        finite(x),
        finite(y),
        -reach <= exponent_at(splat, x, y) && exponent_at(splat, x, y) <= reach,
    ensures
        finite(sigma_of(g, splat, x, y)),
        close(number(sigma_of(g, splat, x, y)), exponent_at(splat, x, y), error),
        0real <= number(sigma_of(g, splat, x, y)) ==> {
            &&& finite(alpha_of(g, splat, x, y))
            &&& close(
                number(alpha_of(g, splat, x, y)),
                opacity_at(g, splat, x, y),
                error + 1real / 1000000real,
            )
            &&& 0real <= opacity_at(g, splat, x, y)
        },
{
    lemma_thresholds();
    let conic = Sym2 { c00: splat.conic_x, c01: splat.conic_y, c11: splat.conic_z };
    assert(exponent_at(splat, x, y) == form_at(x, y, conic, splat.xy_x, splat.xy_y));
    let sigma = g(Op::Sigma { x, y, conic, center_x: splat.xy_x, center_y: splat.xy_y });
    assert(sigma_of(g, splat, x, y) == sigma);
    assert(finite(sigma) && close(number(sigma), exponent_at(splat, x, y), error));
    if 0real <= number(sigma) {
        lemma_signs(sigma);
        lemma_alpha(g, reach, error, splat, x, y);
        let falloff = g(Op::Exp(sigma.negated()));
        let a = number(splat.color_a);
        let f = number(falloff);
        assert(0real <= a * f && a * f <= 1real) by (nonlinear_arith)
            requires
                0real <= a,
                a <= 1real,
                0real <= f,
                f <= 1real,
        ;
        let raw = g(Op::Mul(splat.color_a, falloff));
        assert(rounded(raw, a * f, reach, error));
        lemma_order(single(MAX_ALPHA), raw);
    }
}

/// A splat is blended in behind what a pixel has gathered. It changes nothing once
/// the pixel is finished, where its conic takes away less than nothing, and where
/// its opacity lies below 1/255; it finishes the pixel, and adds nothing, where less
/// than 1/10000 of the light would come through behind it.
pub proof fn law_splats_are_blended_front_to_back(
    g: Arith,
    reach: real,
    error: real,
    pixel: Pixel,
    splat: Splat,
    isect: int,
    x: Single,
    y: Single,
    most: real,
)
    requires
        shades(g, reach, error),
        error <= 1real,
        proper(splat),
        sound(pixel),
        finite(x),
        finite(y),
        -reach <= exponent_at(splat, x, y) && exponent_at(splat, x, y) <= reach,
        most >= 0real,
        number(splat.color_r) <= most,
        number(splat.color_g) <= most,
        number(splat.color_b) <= most,
        size(number(pixel.r)) + 4real * most + 4real <= reach,
        size(number(pixel.g)) + 4real * most + 4real <= reach,
        size(number(pixel.b)) + 4real * most + 4real <= reach,
    ensures
        ({
            let after = drawn(g, pixel, splat, isect, x, y, false);
            let opacity = opacity_at(g, splat, x, y);
            let left = number(pixel.t_acc) * (1real - opacity);
            let slack = (most + 3real) * (2real * error + 1real / 500000real);
            let hit = !pixel.done && exponent_at(splat, x, y) >= error && opacity >= 1real / 255real
                + slack;
            &&& pixel.done || exponent_at(splat, x, y) < -error ==> after == pixel
            &&& exponent_at(splat, x, y) >= error && opacity < 1real / 255real - slack ==> after
                == pixel
            &&& hit && left <= 1real / 10000real - slack ==> after == (Pixel { done: true, ..pixel })
            &&& hit && left > 1real / 10000real + slack ==> blended(
                pixel,
                after,
                splat,
                opacity,
                slack,
            )
        }),
{
    lemma_few_numbers();
    lemma_thresholds();
    lemma_opacity(g, reach, error, splat, x, y);
    let after = drawn(g, pixel, splat, isect, x, y, false);
    let opacity = opacity_at(g, splat, x, y);
    let small = error + 1real / 1000000real;
    let slack = (most + 3real) * (2real * error + 1real / 500000real);
    assert(slack == most * (2real * small) + 6real * small && most * (2real * small) >= 0real)
        by (nonlinear_arith)
        requires
            slack == (most + 3real) * (2real * error + 1real / 500000real),
            small == error + 1real / 1000000real,
            most >= 0real,
            error >= 0real,
    ;
    lemma_order(single(ZERO), sigma_of(g, splat, x, y));
    lemma_order(single(ZERO), single(ZERO));
    lemma_order(single(ZERO), single(ONE));
    if exponent_at(splat, x, y) >= error {
        let alpha = alpha_of(g, splat, x, y);
        lemma_order(single(ALPHA_CUTOFF_MID), alpha);
        if !pixel.done && opacity >= 1real / 255real + slack {
            assert(seen(g, splat, x, y, false));
            lemma_blended(g, reach, error, pixel, splat, isect, x, y, most);
        }
    }
}

proof fn lemma_blended(
    g: Arith,
    reach: real,
    error: real,
    pixel: Pixel,
    splat: Splat,
    isect: int,
    x: Single,
    y: Single,
    most: real,
)
    requires
        shades(g, reach, error),
        error <= 1real,
        proper(splat),
        sound(pixel),
        finite(x),
        finite(y),
        -reach <= exponent_at(splat, x, y) && exponent_at(splat, x, y) <= reach,
        most >= 0real,
        number(splat.color_r) <= most,
        number(splat.color_g) <= most,
        number(splat.color_b) <= most,
        size(number(pixel.r)) + 4real * most + 4real <= reach,
        size(number(pixel.g)) + 4real * most + 4real <= reach,
        size(number(pixel.b)) + 4real * most + 4real <= reach,
        !pixel.done,
        seen(g, splat, x, y, false),
    ensures
        ({
            let after = drawn(g, pixel, splat, isect, x, y, false);
            let opacity = opacity_at(g, splat, x, y);
            let left = number(pixel.t_acc) * (1real - opacity);
            let slack = (most + 3real) * (2real * error + 1real / 500000real);
            &&& left <= 1real / 10000real - slack ==> after == (Pixel { done: true, ..pixel })
            &&& left > 1real / 10000real + slack ==> blended(pixel, after, splat, opacity, slack)
        }),
{
    lemma_few_numbers();
    lemma_thresholds();
    lemma_opacity(g, reach, error, splat, x, y);
    lemma_effective(g, reach, error, splat, x, y);
    lemma_light(g, reach, error, pixel, splat, x, y);
    let after = drawn(g, pixel, splat, isect, x, y, false);
    let o = opacity_at(g, splat, x, y);
    let small = error + 1real / 1000000real;
    let slack = (most + 3real) * (2real * error + 1real / 500000real);
    let kept = effective_alpha(g, splat, x, y, false);
    let a = number(kept);
    let t = number(pixel.t_acc);
    assert(close(a, o, small));
    assert(slack == most * (2real * small) + 6real * small && most * (2real * small) >= 0real)
        by (nonlinear_arith)
        requires
            slack == (most + 3real) * (2real * error + 1real / 500000real),
            small == error + 1real / 1000000real,
            most >= 0real,
            error >= 0real,
    ;
    assert(close(t * (1real - a), t * (1real - o), small)) by (nonlinear_arith)
        requires
            close(a, o, small),
            0real <= t,
            t <= 1real,
    ;
    let next = light_behind(g, pixel, splat, x, y, false);
    lemma_order(next, single(OPAQUE_BELOW));
    lemma_order(next, single(HALF));
    let left = t * (1real - o);
    if left > 1real / 10000real + slack {
        let visibility = g(Op::Mul(kept, pixel.t_acc));
        assert(0real <= a * t && a * t <= 1real) by (nonlinear_arith)
            requires
                0real <= a,
                a <= 1real,
                0real <= t,
                t <= 1real,
        ;
        assert(rounded(visibility, a * t, reach, error));
        assert(close(a * t, o * t, small)) by (nonlinear_arith)
            requires
                close(a, o, small),
                0real <= t,
                t <= 1real,
        ;
        lemma_tinted(g, reach, error, pixel.r, splat.color_r, visibility, a * t, most);
        lemma_tinted(g, reach, error, pixel.g, splat.color_g, visibility, a * t, most);
        lemma_tinted(g, reach, error, pixel.b, splat.color_b, visibility, a * t, most);
        lemma_lit(splat.color_r, a * t, o * t, most, small, error);
        lemma_lit(splat.color_g, a * t, o * t, most, small, error);
        lemma_lit(splat.color_b, a * t, o * t, most, small, error);
    }
}

proof fn lemma_lit(color: Single, a: real, b: real, most: real, small: real, error: real)
    requires
        number(color) <= most,
        0real <= error && error <= small,
        most >= 0real,
        close(a, b, small),
    ensures
        close(lit(color) * a, lit(color) * b, most * small),
        (most + 2real) * error + most * small <= most * (2real * small) + 6real * small,
{
    let c = lit(color);
    assert(close(c * a, c * b, most * small)) by (nonlinear_arith)
        requires
            0real <= c,
            c <= most,
            close(a, b, small),
            small >= 0real,
    ;
    assert((most + 2real) * error + most * small <= most * (2real * small) + 6real * small)
        by (nonlinear_arith)
        requires
            0real <= error,
            error <= small,
            most >= 0real,
    ;
}

/// A splat covers at least as much along the axis along which its conic is flatter:
/// with a smaller `conic_x` than `conic_z`, as much at an offset along X as at the
/// same offset along Y, and the other way round.
pub proof fn law_splat_reaches_along_its_flatter_axis(
    g: Arith,
    reach: real,
    error: real,
    pixel: Pixel,
    splat: Splat,
    isect: int,
    x: Single,
    y: Single,
    offset: real,
)
    requires
        shades(g, reach, error),
        proper(splat),
        sound(pixel),
        finite(x),
        finite(y),
        number(x) - number(splat.xy_x) == offset,
        number(y) - number(splat.xy_y) == offset,
        number(splat.conic_x) * (offset * offset) >= 2real * error,
        number(splat.conic_z) * (offset * offset) >= 2real * error,
        number(splat.conic_x) * (offset * offset) <= reach,
        number(splat.conic_z) * (offset * offset) <= reach,
    ensures
        ({
            let beside = drawn(g, pixel, splat, isect, x, splat.xy_y, false);
            let below = drawn(g, pixel, splat, isect, splat.xy_x, y, false);
            let along_x = number(splat.conic_x) * (offset * offset);
            let along_y = number(splat.conic_z) * (offset * offset);
            &&& along_x + 4real * error <= along_y ==> beside.done || beside.t_acc.at_most(
                below.t_acc,
            )
            &&& along_y + 4real * error <= along_x ==> below.done || below.t_acc.at_most(
                beside.t_acc,
            )
        }),
{
    let a = number(splat.conic_x);
    let b = number(splat.conic_y);
    let c = number(splat.conic_z);
    let off = -offset;
    assert(off * off == offset * offset) by (nonlinear_arith)
        requires
            off == -offset,
    ;
    assert(b * (off * 0real) == 0real && b * (0real * off) == 0real && a * (0real * 0real) == 0real
        && c * (0real * 0real) == 0real) by (nonlinear_arith);
    assert(exponent_at(splat, x, splat.xy_y) == a * (offset * offset) / 2real);
    assert(exponent_at(splat, splat.xy_x, y) == c * (offset * offset) / 2real);
    let along_x = a * (offset * offset);
    let along_y = c * (offset * offset);
    if along_x + 4real * error <= along_y {
        law_splat_falls_with_its_conic(
            g,
            reach,
            error,
            pixel,
            splat,
            isect,
            x,
            splat.xy_y,
            splat.xy_x,
            y,
        );
    }
    if along_y + 4real * error <= along_x {
        law_splat_falls_with_its_conic(
            g,
            reach,
            error,
            pixel,
            splat,
            isect,
            splat.xy_x,
            y,
            x,
            splat.xy_y,
        );
    }
}

/// The background shows through a pixel by the light that is left, channel by
/// channel, and what is not light is opacity.
pub proof fn law_background_shows_through(
    g: Arith,
    reach: real,
    error: real,
    pixel: Pixel,
    u: RasterizeUniforms,
    most: real,
)
    requires
        rounds(g, reach, error),
        error <= 1real,
        sound(pixel),
        finite(u.bg_r) && finite(u.bg_g) && finite(u.bg_b),
        size(number(u.bg_r)) <= most && size(number(u.bg_g)) <= most && size(number(u.bg_b)) <= most,
        size(number(pixel.r)) + most + 2real <= reach,
        size(number(pixel.g)) + most + 2real <= reach,
        size(number(pixel.b)) + most + 2real <= reach,
    ensures
        ({
            let t = number(pixel.t_acc);
            &&& close(
                number(pixel.final_r(g, u)),
                number(pixel.r) + t * number(u.bg_r),
                2real * error,
            )
            &&& close(
                number(pixel.final_g(g, u)),
                number(pixel.g) + t * number(u.bg_g),
                2real * error,
            )
            &&& close(
                number(pixel.final_b(g, u)),
                number(pixel.b) + t * number(u.bg_b),
                2real * error,
            )
            &&& close(number(pixel.final_a(g)), 1real - t, error)
        }),
{
    lemma_few_numbers();
    lemma_shown(g, reach, error, pixel.r, pixel.t_acc, u.bg_r, most);
    lemma_shown(g, reach, error, pixel.g, pixel.t_acc, u.bg_g, most);
    lemma_shown(g, reach, error, pixel.b, pixel.t_acc, u.bg_b, most);
    assert(rounded(pixel.final_a(g), 1real - number(pixel.t_acc), reach, error));
}

proof fn lemma_shown(
    g: Arith,
    reach: real,
    error: real,
    sum: Single,
    light: Single,
    color: Single,
    most: real,
)
    requires
        rounds(g, reach, error),
        error <= 1real,
        finite(sum) && finite(light) && finite(color),
        0real <= number(light) && number(light) <= 1real,
        size(number(color)) <= most,
        size(number(sum)) + most + 2real <= reach,
    ensures
        close(
            number(over_background(g, sum, light, color)),
            number(sum) + number(light) * number(color),
            2real * error,
        ),
{
    let t = number(light);
    let c = number(color);
    assert(-most <= t * c && t * c <= most) by (nonlinear_arith)
        requires
            -most <= c,
            c <= most,
            0real <= t,
            t <= 1real,
    ;
    let part = g(Op::Mul(light, color));
    assert(rounded(part, t * c, reach, error));
    assert(rounded(g(Op::Add(sum, part)), number(sum) + number(part), reach, error));
}

/// Pixels are drawn at their centres.
pub proof fn law_pixels_are_drawn_at_their_centres(g: Arith, reach: real, error: real, index: int)
    requires
        rounds(g, reach, error),
        error <= 1real,
        0 <= index <= i64::MAX,
        index as real + 2real <= reach,
    ensures
        finite(center_of(g, index)),
        close(number(center_of(g, index)), index as real + 1real / 2real, 2real * error),
{
    lemma_few_numbers();
    let whole = g(Op::FromInt(index as i64));
    assert(rounded(whole, (index as i64) as real, reach, error));
    assert(rounded(
        g(Op::Add(whole, single(HALF))),
        number(whole) + number(single(HALF)),
        reach,
        error,
    ));
}

} // verus!
