//! What conversion to affine layout comes to, if values stand for real numbers.

use vstd::arithmetic::power;
use vstd::arithmetic::power2;
use vstd::prelude::*;

use crate::model::affine;
use crate::model::affine::AffineQuantizedMatrix;
use crate::model::blocks;
use crate::model::descriptor::Descriptor;
use crate::model::error::ModelError;
use crate::model::index;
use crate::model::index::{GgufModel, ModelSource};
use crate::model::laws;
use crate::model::packing;
use crate::model::reading_laws;
use crate::model::values;
use crate::tensor::arithmetic::Arithmetic;
use crate::tensor::dense;
use crate::tensor::meaning;
use crate::tensor::reals;
use crate::tensor::reals::Reals;
use crate::tensor::rows;

verus! {

/// Whether a bias is the least or the greatest number of a group, with a scale
/// that leads from it into the group.
pub open spec fn starts_at_an_edge(low: real, high: real, scale: real, bias: real) -> bool {
    ||| bias == low && scale > 0real
    ||| bias == high && scale < 0real
}

/// What holds of the scale and the bias of a group whose numbers lie between
/// `low` and `high`. If they lie `bins` smallest scales apart, the steps lead from
/// one edge of the group to one step off the other; otherwise they are small.
pub open spec fn spans(
    low: real,
    high: real,
    bins: real,
    smallest: real,
    scale: real,
    bias: real,
) -> bool {
    let width = high - low;
    let step = reals::magnitude(scale);
    if width > bins * smallest {
        &&& starts_at_an_edge(low, high, scale, bias)
        &&& step * bins <= 2real * width
        &&& width <= step * bins + step
    } else {
        ||| {
            &&& bias == 0real
            &&& step == smallest
            &&& 2real * reals::magnitude(low) <= smallest
            &&& 2real * reals::magnitude(high) <= smallest
        }
        ||| {
            &&& starts_at_an_edge(low, high, scale, bias)
            &&& 2real * step <= 3real * smallest
        }
    }
}

/// The scale that leads from the edge farther from zero: `distance` is that of the
/// edge, and `count` the whole number of steps nearest to it.
proof fn lemma_wide(bins: real, step: real, width: real, distance: real, count: real, scale: real)
    requires
        bins >= 3real,
        step > 0real,
        step * bins == width,
        2real * distance >= width,
        -1real * step <= 2real * (count * step - distance) <= step,
        count * scale == distance,
    ensures
        count > 0real,
        scale > 0real,
        scale * bins <= 2real * width,
        width <= scale * bins + scale,
{
    assert(2real * distance >= 3real * step) by (nonlinear_arith)
        requires
            2real * distance >= step * bins,
            bins >= 3real,
            step > 0real,
    ;
    assert(count > 0real) by (nonlinear_arith)
        requires
            2real * (count * step - distance) >= -1real * step,
            2real * distance >= 3real * step,
            step > 0real,
    ;
    assert(scale > 0real) by (nonlinear_arith)
        requires
            count * scale == distance,
            count > 0real,
            2real * distance >= 3real * step,
            step > 0real,
    ;
    // The scale is at most twice the step.
    assert(count * scale <= 2real * (count * step)) by (nonlinear_arith)
        requires
            count * scale == distance,
            2real * (count * step - distance) >= -1real * step,
            2real * distance >= 3real * step,
            step > 0real,
    ;
    assert(scale <= 2real * step) by (nonlinear_arith)
        requires
            count * scale <= 2real * (count * step),
            count > 0real,
    ;
    assert(scale * bins <= 2real * width) by (nonlinear_arith)
        requires
            scale <= 2real * step,
            step * bins == width,
            bins >= 3real,
    ;
    // What the steps fall short of the width is at most one of them.
    if step > scale {
        let gap = step - scale;
        assert(2real * (count * gap) <= step) by (nonlinear_arith)
            requires
                gap == step - scale,
                count * scale == distance,
                2real * (count * step - distance) <= step,
        ;
        assert(2real * (distance * gap) <= scale * step) by (nonlinear_arith)
            requires
                distance == count * scale,
                2real * (count * gap) <= step,
                scale > 0real,
        ;
        assert((step * bins) * gap <= scale * step) by (nonlinear_arith)
            requires
                2real * (distance * gap) <= scale * step,
                2real * distance >= step * bins,
                gap > 0real,
        ;
        assert(bins * gap <= scale) by (nonlinear_arith)
            requires
                (step * bins) * gap <= scale * step,
                step > 0real,
        ;
        assert(width <= scale * bins + scale) by (nonlinear_arith)
            requires
                bins * gap <= scale,
                gap == step - scale,
                step * bins == width,
        ;
    } else {
        assert(width <= scale * bins + scale) by (nonlinear_arith)
            requires
                step <= scale,
                step * bins == width,
                bins >= 3real,
                scale > 0real,
        ;
    }
}

/// A scale that a whole number of which makes up a distance is at most one and a
/// half steps.
proof fn lemma_narrow(step: real, distance: real, count: real, scale: real)
    requires
        step > 0real,
        distance >= 0real,
        reals::is_whole(count),
        count != 0real,
        -1real * step <= 2real * (count * step - distance) <= step,
        count * scale == distance,
    ensures
        scale > 0real,
        2real * scale <= 3real * step,
{
    let k = choose|k: int| #[trigger] reals::equals(count, k);
    if k < 0 {
        assert(count <= -1real);
        assert(false) by (nonlinear_arith)
            requires
                count <= -1real,
                2real * (count * step - distance) >= -1real * step,
                step > 0real,
                distance >= 0real,
        ;
    }
    assert(count >= 1real);
    assert(distance > 0real) by (nonlinear_arith)
        requires
            count >= 1real,
            2real * (count * step - distance) <= step,
            step > 0real,
    ;
    assert(scale > 0real) by (nonlinear_arith)
        requires
            count * scale == distance,
            distance > 0real,
            count >= 1real,
    ;
    assert(2real * (count * scale) <= 3real * (count * step)) by (nonlinear_arith)
        requires
            count * scale == distance,
            2real * (count * step - distance) >= -1real * step,
            count >= 1real,
            step > 0real,
    ;
    assert(2real * scale <= 3real * step) by (nonlinear_arith)
        requires
            2real * (count * scale) <= 3real * (count * step),
            count >= 1real,
    ;
}

proof fn lemma_minimum<T, A: Arithmetic<T>>(
    arithmetic: &A,
    n: Reals<T>,
    values: Seq<T>,
    count: nat,
    minimum: T,
)
    requires
        reals::exact(arithmetic, n),
        n.all(values),
        count <= values.len(),
        affine::minimum_of(arithmetic, values, count, minimum),
    ensures
        count > 0 ==> n.is(minimum),
        count == 0 ==> call_ensures(A::highest, (arithmetic,), minimum),
        forall|i: int| 0 <= i < count ==> n.of(#[trigger] values[i]) >= n.of(minimum),
        count > 0 ==> exists|i: int|
            0 <= i < count && n.of(#[trigger] values[i]) == n.of(minimum),
    decreases count,
{
    if count > 0 {
        let before = choose|before: T|
            {
                &&& affine::minimum_of(arithmetic, values, (count - 1) as nat, before)
                &&& #[trigger] call_ensures(
                    A::minimum,
                    (arithmetic, before, values[count - 1]),
                    minimum,
                )
            };
        lemma_minimum(arithmetic, n, values, (count - 1) as nat, before);
        assert(n.is(values[count - 1]));
    }
}

/// The smallest scale: the single-precision number next to a ten-millionth.
pub open spec fn smallest_scale<T>(n: Reals<T>) -> real {
    (n.single)(0x33d6_bf95)
}

proof fn lemma_step<T, A: Arithmetic<T>>(
    arithmetic: &A,
    n: Reals<T>,
    minimum: T,
    maximum: T,
    bins: i32,
    step: T,
)
    requires
        reals::exact(arithmetic, n),
        n.is(minimum),
        n.is(maximum),
        n.of(minimum) <= n.of(maximum),
        bins > 0,
        smallest_scale(n) > 0real,
        affine::step_of(arithmetic, minimum, maximum, bins, step),
    ensures
        n.is(step),
        ({
            let width = n.of(maximum) - n.of(minimum);
            if width > bins as real * smallest_scale(n) {
                n.of(step) * bins as real == width
            } else {
                n.of(step) == smallest_scale(n)
            }
        }),
        n.of(step) > 0real,
{
    let (width, count, ratio, floor) = choose|width: T, count: T, ratio: T, floor: T|
        {
            &&& call_ensures(A::subtract, (arithmetic, maximum, minimum), width)
            &&& call_ensures(A::from_integer, (arithmetic, bins), count)
            &&& #[trigger] call_ensures(A::divide, (arithmetic, width, count), ratio)
            &&& call_ensures(
                A::from_bits,
                (arithmetic, affine::SMALLEST_SCALE_BITS),
                floor,
            )
            &&& #[trigger] call_ensures(A::maximum, (arithmetic, ratio, floor), step)
        };
    assert(affine::SMALLEST_SCALE_BITS == 0x33d6_bf95);
    assert(n.is(floor) && n.of(floor) == smallest_scale(n));
    let r = n.of(ratio);
    let f = n.of(floor);
    let b = bins as real;
    let w = n.of(width);
    assert(r * b == w);
    assert(w > b * f ==> r > f) by (nonlinear_arith)
        requires
            r * b == w,
            b > 0real,
    ;
    assert(w <= b * f ==> r <= f) by (nonlinear_arith)
        requires
            r * b == w,
            b > 0real,
    ;
}

proof fn lemma_adjusted<T, A: Arithmetic<T>>(
    arithmetic: &A,
    n: Reals<T>,
    edge: T,
    step: T,
    scale: T,
    bias: T,
) -> (count: real)
    requires
        reals::exact(arithmetic, n),
        n.is(edge),
        n.is(step),
        n.of(step) != 0real,
        affine::adjusted(arithmetic, edge, step, scale, bias),
    ensures
        n.is(scale),
        n.is(bias),
        reals::is_whole(count),
        reals::magnitude(2real * (count * n.of(step) - n.of(edge))) <= reals::magnitude(
            n.of(step),
        ),
        if count == 0real {
            n.of(bias) == 0real && n.of(scale) == n.of(step)
        } else {
            n.of(bias) == n.of(edge) && count * n.of(scale) == n.of(edge)
        },
{
    let (ratio, steps) = choose|ratio: T, steps: T|
        {
            &&& call_ensures(A::divide, (arithmetic, edge, step), ratio)
            &&& #[trigger] call_ensures(A::round, (arithmetic, ratio), steps)
            &&& {
                ||| {
                    &&& call_ensures(A::is_zero, (arithmetic, steps), true)
                    &&& scale == step
                    &&& call_ensures(A::zero, (arithmetic,), bias)
                }
                ||| {
                    &&& call_ensures(A::is_zero, (arithmetic, steps), false)
                    &&& call_ensures(A::divide, (arithmetic, edge, steps), scale)
                    &&& bias == edge
                }
            }
        };
    let r = n.of(ratio);
    let c = n.of(steps);
    let s = n.of(step);
    let e = n.of(edge);
    let off = c - r;
    assert(r * s == e);
    assert(2real * (c * s - e) == (2real * off) * s) by (nonlinear_arith)
        requires
            r * s == e,
            off == c - r,
    ;
    let twice = 2real * off;
    assert(reals::magnitude(twice * s) <= reals::magnitude(s)) by {
        assert(s > 0real ==> -1real * s <= twice * s && twice * s <= s) by (nonlinear_arith)
            requires
                -1real <= twice,
                twice <= 1real,
        ;
        assert(s < 0real ==> s <= twice * s && twice * s <= -1real * s) by (nonlinear_arith)
            requires
                -1real <= twice,
                twice <= 1real,
        ;
    }
    if c != 0real {
        let t = n.of(scale);
        assert(t * c == e);
        assert(c * t == t * c) by (nonlinear_arith);
    }
    c
}

/// The scale and the bias of a group span it.
proof fn lemma_spans<T, A: Arithmetic<T>>(
    arithmetic: &A,
    n: Reals<T>,
    minimum: T,
    maximum: T,
    bins: i32,
    scale: T,
    bias: T,
)
    requires
        reals::exact(arithmetic, n),
        n.is(minimum),
        n.is(maximum),
        n.of(minimum) <= n.of(maximum),
        bins >= 3,
        smallest_scale(n) > 0real,
        affine::span_parameters(arithmetic, minimum, maximum, bins, scale, bias),
    ensures
        n.is(scale),
        n.is(bias),
        n.of(scale) != 0real,
        spans(
            n.of(minimum),
            n.of(maximum),
            bins as real,
            smallest_scale(n),
            n.of(scale),
            n.of(bias),
        ),
{
    let (side, signed) = choose|side: bool, signed: T|
        {
            &&& affine::lower_side(arithmetic, minimum, maximum, side)
            &&& #[trigger] affine::signed_step(
                arithmetic,
                minimum,
                maximum,
                bins,
                side,
                signed,
            )
            &&& affine::adjusted(
                arithmetic,
                if side {
                    minimum
                } else {
                    maximum
                },
                signed,
                scale,
                bias,
            )
        };
    let low = n.of(minimum);
    let high = n.of(maximum);
    assert(side == (reals::magnitude(low) > reals::magnitude(high)));
    let step = if side {
        signed
    } else {
        choose|step: T|
            {
                &&& affine::step_of(arithmetic, minimum, maximum, bins, step)
                &&& #[trigger] call_ensures(A::negate, (arithmetic, step), signed)
            }
    };
    lemma_step(arithmetic, n, minimum, maximum, bins, step);
    let s = n.of(step);
    let edge = if side {
        minimum
    } else {
        maximum
    };
    let count = lemma_adjusted(arithmetic, n, edge, signed, scale, bias);
    let width = high - low;
    let b = bins as real;
    let t = n.of(scale);
    let flipped = -count;
    if side {
        // The edge lies below zero, and the steps lead up from it.
        assert(n.of(signed) == s && low < 0real);
        assert(count * s == -(flipped * s) && count * t == -(flipped * t)) by (nonlinear_arith)
            requires
                flipped == -count,
        ;
        if width > b * smallest_scale(n) {
            if count == 0real {
                assert(2real * (-low) >= width);
                assert(2real * (-low) <= s) by (nonlinear_arith)
                    requires
                        reals::magnitude(2real * (count * s - low)) <= s,
                        count == 0real,
                        low < 0real,
                ;
                assert(false) by (nonlinear_arith)
                    requires
                        2real * (-low) <= s,
                        2real * (-low) >= s * b,
                        b >= 3real,
                        s > 0real,
                ;
            }
            lemma_wide(b, s, width, -low, flipped, t);
        } else if count != 0real {
            lemma_whole_opposite(count);
            lemma_narrow(s, -low, flipped, t);
        } else {
            assert(count * s == 0real) by (nonlinear_arith)
                requires
                    count == 0real,
            ;
        }
    } else {
        // The steps lead down from the upper edge.
        assert(n.of(signed) == -s);
        assert(count * (-s) == flipped * s && count * t == flipped * (-t)) by (nonlinear_arith)
            requires
                flipped == -count,
        ;
        if width > b * smallest_scale(n) {
            assert(b * smallest_scale(n) > 0real) by (nonlinear_arith)
                requires
                    b >= 3real,
                    smallest_scale(n) > 0real,
            ;
            assert(high >= 0real && 2real * high >= width);
            if count == 0real {
                assert(flipped * s == 0real) by (nonlinear_arith)
                    requires
                        flipped == 0real,
                ;
                assert(2real * high <= s);
                assert(false) by (nonlinear_arith)
                    requires
                        2real * high <= s,
                        2real * high >= s * b,
                        b >= 3real,
                        s > 0real,
                ;
            }
            lemma_wide(b, s, width, high, flipped, -t);
        } else if count != 0real {
            if high >= 0real {
                lemma_whole_opposite(count);
                lemma_narrow(s, high, flipped, -t);
            } else {
                // All numbers of the group are one and the same, below zero.
                assert(low == high);
                assert(count * s == -(flipped * s) && count * (-t) == -(count * t))
                    by (nonlinear_arith)
                    requires
                        flipped == -count,
                ;
                lemma_narrow(s, -high, count, -t);
            }
        } else {
            assert(flipped * s == 0real) by (nonlinear_arith)
                requires
                    flipped == 0real,
            ;
        }
    }
}

proof fn lemma_whole_opposite(x: real)
    requires
        reals::is_whole(x),
    ensures
        reals::is_whole(-x),
{
    let k = choose|k: int| #[trigger] reals::equals(x, k);
    assert(reals::equals(-x, -k));
}

/// What a number of a group comes to is near the number.
pub open spec fn is_near(
    low: real,
    high: real,
    bins: real,
    smallest: real,
    scale: real,
    error: real,
) -> bool {
    if high - low > bins * smallest {
        reals::magnitude(error) <= reals::magnitude(scale)
    } else {
        reals::magnitude(error) <= bins * smallest
    }
}

/// The step that a number falls on, counted from an edge.
proof fn lemma_counted(bins: real, scale: real, distance: real, ratio: real, number: real)
    requires
        bins >= 3real,
        scale > 0real,
        distance >= 0real,
        ratio * scale == distance,
        0real <= number <= bins,
        2real * number <= 2real * ratio + 1real,
        number < bins ==> 2real * number >= 2real * ratio - 1real,
    ensures
        2real * (number * scale - distance) <= scale,
        number < bins ==> 2real * (number * scale - distance) >= -1real * scale,
        number == bins ==> number * scale - distance >= bins * scale - distance,
{
    assert(2real * (number * scale - distance) <= scale) by (nonlinear_arith)
        requires
            ratio * scale == distance,
            2real * number <= 2real * ratio + 1real,
            scale > 0real,
    ;
    assert(number < bins ==> 2real * (number * scale - distance) >= -1real * scale)
        by (nonlinear_arith)
        requires
            ratio * scale == distance,
            number < bins ==> 2real * number >= 2real * ratio - 1real,
            scale > 0real,
    ;
}

proof fn lemma_number<T, A: Arithmetic<T>>(
    arithmetic: &A,
    n: Reals<T>,
    value: T,
    scale: T,
    bias: T,
    bins: i32,
    number: u32,
) -> (ratio: real)
    requires
        reals::exact(arithmetic, n),
        n.is(value),
        n.is(scale),
        n.is(bias),
        n.of(scale) != 0real,
        bins >= 3,
        affine::step_number(arithmetic, value, scale, bias, bins, number),
    ensures
        ratio * n.of(scale) == n.of(value) - n.of(bias),
        0 <= number <= bins,
        ratio >= 0real ==> 2real * number as real <= 2real * ratio + 1real,
        number < bins ==> 2real * number as real >= 2real * ratio - 1real,
        -1real <= 2real * ratio <= 1real ==> number <= 1,
        ratio < 0real ==> number == 0,
{
    let (difference, quotient, rounded, count) = choose|
        difference: T,
        quotient: T,
        rounded: T,
        count: u32,
    |
        {
            &&& call_ensures(A::subtract, (arithmetic, value, bias), difference)
            &&& #[trigger] call_ensures(A::divide, (arithmetic, difference, scale), quotient)
            &&& #[trigger] call_ensures(A::round, (arithmetic, quotient), rounded)
            &&& #[trigger] call_ensures(A::to_count, (arithmetic, rounded), count)
            &&& number == if count <= bins {
                count
            } else {
                bins as u32
            }
        };
    let ratio = n.of(quotient);
    let u = n.of(rounded);
    let k = choose|k: int| #[trigger] reals::equals(u, k);
    assert(reals::is_nearest(u, count));
    if 0real < u && u < u32::MAX as real {
        assert(count as int == k);
    }
    ratio
}

/// A number of a group is read back near to where it was.
proof fn lemma_read_back<T, A: Arithmetic<T>>(
    arithmetic: &A,
    n: Reals<T>,
    low: real,
    high: real,
    value: T,
    scale: T,
    bias: T,
    bins: i32,
    number: u32,
)
    requires
        reals::exact(arithmetic, n),
        n.is(value),
        n.is(scale),
        n.is(bias),
        n.of(scale) != 0real,
        bins >= 3,
        low <= n.of(value) <= high,
        smallest_scale(n) > 0real,
        spans(low, high, bins as real, smallest_scale(n), n.of(scale), n.of(bias)),
        affine::step_number(arithmetic, value, scale, bias, bins, number),
    ensures
        number <= bins,
        is_near(
            low,
            high,
            bins as real,
            smallest_scale(n),
            n.of(scale),
            number as real * n.of(scale) + n.of(bias) - n.of(value),
        ),
{
    let ratio = lemma_number(arithmetic, n, value, scale, bias, bins, number);
    let t = n.of(scale);
    let x = n.of(value);
    let c = number as real;
    let b = bins as real;
    let small = smallest_scale(n);
    assert(small <= b * small && 3real * small <= b * small) by (nonlinear_arith)
        requires
            b >= 3real,
            small > 0real,
    ;
    if starts_at_an_edge(low, high, t, n.of(bias)) {
        let step = reals::magnitude(t);
        let distance = if t > 0real {
            x - low
        } else {
            high - x
        };
        assert(ratio * step == distance) by (nonlinear_arith)
            requires
                t > 0real ==> step == t && ratio * t == distance,
                t < 0real ==> step == -t && ratio * t == -distance,
                t != 0real,
        ;
        assert(ratio >= 0real) by (nonlinear_arith)
            requires
                ratio * step == distance,
                distance >= 0real,
                step > 0real,
        ;
        lemma_counted(b, step, distance, ratio, c);
        let error = c * step - distance;
        assert(t > 0real ==> c * t == c * step);
        assert(t < 0real ==> c * t == -(c * step)) by (nonlinear_arith)
            requires
                t < 0real ==> step == -t,
        ;
        assert(reals::magnitude(c * t + n.of(bias) - x) == reals::magnitude(error));
        assert(c * step >= 0real) by (nonlinear_arith)
            requires
                c >= 0real,
                step > 0real,
        ;
        if number == bins {
            assert(c * step == step * b) by (nonlinear_arith)
                requires
                    c == b,
            ;
        }
    } else {
        assert(c == 0real || c == 1real) by {
            assert(-1real <= 2real * ratio <= 1real) by (nonlinear_arith)
                requires
                    ratio * t == x,
                    t == small || t == -small,
                    small > 0real,
                    -small <= 2real * x,
                    2real * x <= small,
            ;
        }
        assert(c * t == 0real || c * t == t) by (nonlinear_arith)
            requires
                c == 0real || c == 1real,
        ;
    }
}

/// Words side by side, as one number: the first word holds the lowest bits.
pub open spec fn joined(words: Seq<u32>) -> nat
    decreases words.len(),
{
    if words.len() == 0 {
        0
    } else {
        words[0] as nat + 4_294_967_296 * joined(words.drop_first())
    }
}

/// Number `at` of numbers of `bits` bits that stand side by side in words.
pub open spec fn packed_number(words: Seq<u32>, bits: nat, at: nat) -> nat {
    (joined(words) / power2::pow2(bits * at)) % power2::pow2(bits)
}

proof fn lemma_joined(words: Seq<u32>)
    ensures
        joined(words) == packing::digits_value(words, 4_294_967_296),
    decreases words.len(),
{
    if words.len() == 0 {
    } else if words.len() == 1 {
        assert(words.drop_first() =~= seq![]);
        assert(words.drop_last() =~= seq![]);
        power::lemma_pow0(4_294_967_296);
        reveal_with_fuel(packing::digits_value, 2);
        reveal_with_fuel(joined, 2);
        assert(words.last() as nat * 1 == words.last());
    } else {
        let rest = words.drop_first();
        let front = words.drop_last();
        let middle = rest.drop_last();
        assert(front.drop_first() =~= middle);
        lemma_joined(rest);
        lemma_joined(front);
        lemma_joined(middle);
        let unit = power::pow(4_294_967_296, (rest.len() - 1) as nat);
        power::lemma_pow_positive(4_294_967_296, (rest.len() - 1) as nat);
        reveal(power::pow);
        assert(power::pow(4_294_967_296, (words.len() - 1) as nat) == 4_294_967_296 * unit);
        let last = words.last() as int;
        assert(rest.last() == words.last() && front[0] == words[0]);
        assert(last * (4_294_967_296 * unit) == 4_294_967_296 * (last * unit)) by (nonlinear_arith);
        assert((last * unit) >= 0) by (nonlinear_arith)
            requires
                last >= 0,
                unit > 0,
        ;
    }
}

/// Packed numbers are read at their place among the bits of the words.
proof fn lemma_packed(words: Seq<u32>, numbers: Seq<u32>, bits: nat, at: int)
    requires
        packing::holds(words, numbers, bits),
        packing::all_below(numbers, power2::pow2(bits)),
        0 <= at < numbers.len(),
    ensures
        packed_number(words, bits, at as nat) == numbers[at],
{
    laws::law_packed_numbers_can_be_read_back(words, numbers, bits, at);
    lemma_joined(words);
    packing::lemma_pow2_power(bits, at as nat);
}

/// The number that a weight of a matrix in a file stands for.
pub open spec fn weight_number<T>(
    n: Reals<T>,
    file: Seq<u8>,
    descriptor: Descriptor,
    output: int,
    input: int,
) -> real {
    values::term_number(n, weight_term(file, descriptor, output, input))
}

/// A weight of a matrix in a file.
pub open spec fn weight_term(
    file: Seq<u8>,
    descriptor: Descriptor,
    output: int,
    input: int,
) -> crate::model::term::Term {
    blocks::term_at(
        descriptor.value_type,
        file.subrange(
            descriptor.byte_offset as int,
            (descriptor.byte_offset + descriptor.byte_len) as int,
        ),
        output * descriptor.shape[0] + input,
    )
}

/// `low` and `high` are inputs of a group with the least and the greatest weight,
/// and all weights of the group are finite.
pub open spec fn are_extremes<T>(
    n: Reals<T>,
    file: Seq<u8>,
    descriptor: Descriptor,
    output: int,
    group: int,
    size: int,
    low: int,
    high: int,
) -> bool {
    &&& group * size <= low < group * size + size
    &&& group * size <= high < group * size + size
    &&& forall|input: int|
        group * size <= input < group * size + size ==> values::finite_term(
            #[trigger] weight_term(file, descriptor, output, input),
        ) && weight_number(n, file, descriptor, output, low) <= weight_number(
            n,
            file,
            descriptor,
            output,
            input,
        ) <= weight_number(n, file, descriptor, output, high)
}

/// A weight that is converted to affine layout is read back near to where it was:
/// its number times the scale of its group, plus the bias, is at most one step
/// off. Scales are no larger than twice what the numbers can count.
///
/// In a group whose weights lie closer together than the smallest scale can tell
/// apart, it is off by no more than such a group can be wide.
#[verifier::rlimit(40)]
pub proof fn law_affine_weights_are_read_back<T: Copy, A: Arithmetic<T>>(
    arithmetic: &A,
    n: Reals<T>,
    model: &GgufModel,
    name: &str,
    size: usize,
    bits: usize,
    source: ModelSource<'_>,
    descriptor: Descriptor,
    result: Result<AffineQuantizedMatrix<T>, ModelError>,
    output: int,
    group: int,
    place: int,
    low: int,
    high: int,
)
    requires
        reals::exact(arithmetic, n),
        smallest_scale(n) > 0real,
        call_ensures(
            GgufModel::load_affine_quantized::<T, A>,
            (model, name, size, bits, source, arithmetic),
            result,
        ),
        result is Ok,
        index::tensor_named(model@, name@) == Some(descriptor),
        0 <= output < descriptor.shape[1],
        0 <= group < descriptor.shape[0] as int / size as int,
        0 <= place < size,
        are_extremes(
            n,
            source.spec_bytes(),
            descriptor,
            output,
            group,
            size as int,
            low,
            high,
        ),
    ensures
        ({
            let matrix = result->Ok_0@;
            let groups = descriptor.shape[0] as int / size as int;
            let words = size as int * bits as int / 32;
            let at = output * groups + group;
            let file = source.spec_bytes();
            let bins = (power2::pow2(bits as nat) - 1) as real;
            let number = packed_number(
                matrix.packed.subrange(at * words, at * words + words),
                bits as nat,
                place as nat,
            );
            let scale = n.of(matrix.scales[at]);
            let value = weight_number(
                n,
                file,
                descriptor,
                output,
                group * size + place,
            );
            let lowest = weight_number(n, file, descriptor, output, low);
            let highest = weight_number(n, file, descriptor, output, high);
            &&& matrix.rows == descriptor.shape[1]
            &&& matrix.columns == descriptor.shape[0]
            &&& matrix.group_size == size
            &&& matrix.bits == bits
            &&& at < matrix.scales.len()
            &&& matrix.biases.len() == matrix.scales.len()
            &&& number <= power2::pow2(bits as nat) - 1
            &&& is_near(
                lowest,
                highest,
                bins,
                smallest_scale(n),
                scale,
                number as real * scale + n.of(matrix.biases[at]) - value,
            )
            &&& highest - lowest > bins * smallest_scale(n) ==> reals::magnitude(scale) * bins
                <= 2real * (highest - lowest)
        }),
{
    let matrix = result->Ok_0@;
    let file = source.spec_bytes();
    let code = descriptor.value_type;
    let data = file.subrange(
        descriptor.byte_offset as int,
        (descriptor.byte_offset + descriptor.byte_len) as int,
    );
    let length = size as int;
    let inputs = descriptor.shape[0] as int;
    let groups = inputs / length;
    let at = output * groups + group;
    let words = affine::group_words(size as nat, bits as nat);
    assert(affine::affine_fault(file.len(), descriptor, size as nat, bits as nat) is None);
    assert(affine::parameter_fault(size as nat, bits as nat) is None);
    dense::lemma_inside(output, group, descriptor.shape[1] as int, groups);
    assert(at < affine::group_count(descriptor, size as nat));
    let scale = matrix.scales[at];
    let bias = matrix.biases[at];
    let part = affine::words_of(matrix.packed, words, at);
    assert(affine::group_holds(
        arithmetic,
        code,
        data,
        size as nat,
        bits as nat,
        at,
        scale,
        bias,
        part,
    ));
    let found = choose|found: Seq<T>|
        {
            &&& found.len() == size
            &&& #[trigger] affine::weights_from(arithmetic, code, data, at * size as nat, found)
            &&& affine::group_converted(arithmetic, found, bits as nat, scale, bias, part)
        };
    // The weights of the group.
    assert(groups * length == inputs) by (nonlinear_arith)
        requires
            groups == inputs / length,
            inputs % length == 0,
            length > 0,
    ;
    assert(at * length == output * inputs + group * length) by (nonlinear_arith)
        requires
            at == output * groups + group,
            groups * length == inputs,
    ;
    assert forall|i: int| 0 <= i < length implies n.is(#[trigger] found[i]) && n.of(found[i])
        == weight_number(n, file, descriptor, output, group * length + i) by {
        let term = weight_term(file, descriptor, output, group * length + i);
        assert(values::finite_term(term));
        assert(term == blocks::term_at(code, data, at * size as nat + i));
        values::law_weights_are_decoded_to_their_numbers(arithmetic, n, term, found[i]);
    }
    assert(n.all(found));
    power2::lemma2_to64();
    let bins = affine::bins_of(bits as nat);
    assert(bins == power2::pow2(bits as nat) - 1 && bins >= 3);
    let (minimum, maximum) = choose|minimum: T, maximum: T|
        {
            &&& affine::minimum_of(arithmetic, found, found.len(), minimum)
            &&& rows::maximum_of(arithmetic, found, found.len(), maximum)
            &&& #[trigger] affine::span_parameters(
                arithmetic,
                minimum,
                maximum,
                bins,
                scale,
                bias,
            )
        };
    lemma_minimum(arithmetic, n, found, found.len(), minimum);
    meaning::lemma_maximum(arithmetic, n, found, found.len(), maximum);
    let lowest = weight_number(n, file, descriptor, output, low);
    let highest = weight_number(n, file, descriptor, output, high);
    lemma_extremes(
        arithmetic,
        n,
        file,
        descriptor,
        output,
        group,
        length,
        low,
        high,
        found,
        minimum,
        maximum,
    );
    lemma_spans(arithmetic, n, minimum, maximum, bins, scale, bias);
    let numbers = choose|numbers: Seq<u32>|
        {
            &&& affine::step_numbers(arithmetic, found, scale, bias, bins, numbers)
            &&& #[trigger] packing::holds(part, numbers, bits as nat)
        };
    assert forall|i: int| 0 <= i < numbers.len() implies #[trigger] numbers[i] < power2::pow2(
        bits as nat,
    ) by {
        assert(affine::step_number(arithmetic, found[i], scale, bias, bins, numbers[i]));
    }
    lemma_packed(part, numbers, bits as nat, place);
    assert(affine::step_number(arithmetic, found[place], scale, bias, bins, numbers[place]));
    assert(n.is(found[place]));
    lemma_read_back(
        arithmetic,
        n,
        lowest,
        highest,
        found[place],
        scale,
        bias,
        bins,
        numbers[place],
    );
}

/// The least and the greatest value of a group are those of its extreme weights.
proof fn lemma_extremes<T, A: Arithmetic<T>>(
    arithmetic: &A,
    n: Reals<T>,
    file: Seq<u8>,
    descriptor: Descriptor,
    output: int,
    group: int,
    size: int,
    low: int,
    high: int,
    found: Seq<T>,
    minimum: T,
    maximum: T,
)
    requires
        are_extremes(n, file, descriptor, output, group, size, low, high),
        found.len() == size,
        forall|i: int|
            0 <= i < size ==> n.of(#[trigger] found[i]) == weight_number(
                n,
                file,
                descriptor,
                output,
                group * size + i,
            ),
        forall|i: int| 0 <= i < size ==> n.of(#[trigger] found[i]) >= n.of(minimum),
        exists|i: int| 0 <= i < size && n.of(#[trigger] found[i]) == n.of(minimum),
        forall|i: int| 0 <= i < size ==> n.of(#[trigger] found[i]) <= n.of(maximum),
        exists|i: int| 0 <= i < size && n.of(#[trigger] found[i]) == n.of(maximum),
    ensures
        n.of(minimum) == weight_number(n, file, descriptor, output, low),
        n.of(maximum) == weight_number(n, file, descriptor, output, high),
{
    let a = low - group * size;
    let b = high - group * size;
    assert(n.of(found[a]) >= n.of(minimum) && n.of(found[b]) <= n.of(maximum));
    assert(group * size + a == low && group * size + b == high);
    let i = choose|i: int| 0 <= i < size && n.of(#[trigger] found[i]) == n.of(minimum);
    let j = choose|j: int| 0 <= j < size && n.of(#[trigger] found[j]) == n.of(maximum);
    let first = weight_term(file, descriptor, output, group * size + i);
    let second = weight_term(file, descriptor, output, group * size + j);
    assert(values::finite_term(first) && values::finite_term(second));
}

/// A matrix with finite weights is converted in groups of 32, 64 or 128, if they
/// fill its columns, to numbers of 2, 3, 4, 5, 6 or 8 bits. Nothing else is
/// converted.
pub proof fn law_matrices_are_converted<T: Copy, A: Arithmetic<T>>(
    arithmetic: &A,
    n: Reals<T>,
    model: &GgufModel,
    name: &str,
    size: usize,
    bits: usize,
    source: ModelSource<'_>,
    descriptor: Descriptor,
    result: Result<AffineQuantizedMatrix<T>, ModelError>,
)
    requires
        reals::exact(arithmetic, n),
        smallest_scale(n) > 0real,
        call_ensures(
            GgufModel::load_affine_quantized::<T, A>,
            (model, name, size, bits, source, arithmetic),
            result,
        ),
        index::tensor_named(model@, name@) == Some(descriptor),
        index::changed_fault(model@, source) is None,
        reading_laws::is_stored_matrix(source.spec_bytes(), descriptor),
        reading_laws::finite_matrix(
            reading_laws::stored_matrix(source.spec_bytes(), descriptor),
        ),
        descriptor.shape[0] * 8 <= usize::MAX,
    ensures
        result is Ok <==> {
            &&& size == 32 || size == 64 || size == 128
            &&& 2 <= bits <= 8 && bits != 7
            &&& descriptor.shape[0] as int % size as int == 0
        },
{
    let file = source.spec_bytes();
    let code = descriptor.value_type;
    let data = reading_laws::bytes_of(file, descriptor);
    reading_laws::lemma_stored_matrix(file, descriptor);
    let rows = descriptor.shape[0] as int;
    let valid = {
        &&& size == 32 || size == 64 || size == 128
        &&& 2 <= bits <= 8 && bits != 7
        &&& rows % size as int == 0
    };
    if valid {
        assert(rows * bits <= rows * 8) by (nonlinear_arith)
            requires
                bits <= 8,
                rows >= 0,
        ;
        assert(affine::affine_fault(file.len(), descriptor, size as nat, bits as nat) is None);
        if let Err(error) = result {
            let groups = affine::group_count(descriptor, size as nat) as int;
            let group = choose|group: int| #[trigger]
                affine::conversion_fails::<T, A>(
                    arithmetic,
                    code,
                    data,
                    size as nat,
                    bits as nat,
                    groups,
                    group,
                    error@,
                );
            let columns = descriptor.shape[1] as int;
            let per_column = rows / size as int;
            assert((group + 1) * size <= columns * rows && 0 <= group * size) by (nonlinear_arith)
                requires
                    0 <= group < columns * per_column,
                    per_column == rows / size as int,
                    rows % size as int == 0,
                    size > 0,
            ;
            assert((group + 1) * size == group * size + size) by (nonlinear_arith);
            if affine::group_not_finite::<T, A>(arithmetic, code, data, size as nat, group) {
                let found = choose|found: Seq<T>|
                    {
                        &&& found.len() <= size
                        &&& #[trigger] affine::weights_from(
                            arithmetic,
                            code,
                            data,
                            group * size as nat,
                            found,
                        )
                        &&& dense::first_not_finite(arithmetic, found, found.len() - 1)
                    };
                let last = found.len() - 1;
                let term = blocks::term_at(code, data, group * size + last);
                assert(values::finite_term(term));
                values::law_weights_are_decoded_to_their_numbers(
                    arithmetic,
                    n,
                    term,
                    found[last],
                );
            } else {
                let found = choose|found: Seq<T>|
                    {
                        &&& found.len() == size
                        &&& #[trigger] affine::weights_from(
                            arithmetic,
                            code,
                            data,
                            group * size as nat,
                            found,
                        )
                        &&& affine::parameters_refused(arithmetic, found, bits as nat)
                    };
                assert forall|i: int| 0 <= i < found.len() implies n.is(#[trigger] found[i]) by {
                    assert(call_ensures(A::is_finite, (arithmetic, found[i]), true));
                }
                lemma_parameters(arithmetic, n, found, bits as nat);
            }
        }
    }
}

/// The parameters of a group of numbers are numbers.
proof fn lemma_parameters<T, A: Arithmetic<T>>(
    arithmetic: &A,
    n: Reals<T>,
    found: Seq<T>,
    bits: nat,
)
    requires
        reals::exact(arithmetic, n),
        smallest_scale(n) > 0real,
        n.all(found),
        found.len() > 0,
        2 <= bits <= 8,
    ensures
        !affine::parameters_refused(arithmetic, found, bits),
{
    if affine::parameters_refused(arithmetic, found, bits) {
        power2::lemma2_to64();
        let bins = affine::bins_of(bits);
        let (scale, bias) = choose|scale: T, bias: T|
            {
                &&& #[trigger] affine::group_parameters(arithmetic, found, bins, scale, bias)
                &&& (call_ensures(A::is_finite, (arithmetic, scale), false) || call_ensures(
                    A::is_finite,
                    (arithmetic, bias),
                    false,
                ))
            };
        let (minimum, maximum) = choose|minimum: T, maximum: T|
            {
                &&& affine::minimum_of(arithmetic, found, found.len(), minimum)
                &&& rows::maximum_of(arithmetic, found, found.len(), maximum)
                &&& #[trigger] affine::span_parameters(
                    arithmetic,
                    minimum,
                    maximum,
                    bins,
                    scale,
                    bias,
                )
            };
        lemma_minimum(arithmetic, n, found, found.len(), minimum);
        meaning::lemma_maximum(arithmetic, n, found, found.len(), maximum);
        assert(n.of(found[0]) >= n.of(minimum) && n.of(found[0]) <= n.of(maximum));
        lemma_spans(arithmetic, n, minimum, maximum, bins, scale, bias);
    }
}

} // verus!
