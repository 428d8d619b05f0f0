//! What rotary position embedding comes to, if values stand for real numbers.

use vstd::prelude::*;

use crate::tensor::arithmetic::Arithmetic;
use crate::tensor::dense;
use crate::tensor::dense::Tensor;
use crate::tensor::error::TensorError;
use crate::tensor::matrix;
use crate::tensor::meaning;
use crate::tensor::reals;
use crate::tensor::reals::Reals;
use crate::tensor::rotary;

verus! {

/// `frequency` is that of a pair in a head of `width` values: multiplied with
/// itself `width` times, it undoes the base multiplied with itself twice for each
/// pair before.
pub open spec fn is_frequency(base: real, width: nat, pair: nat, frequency: real) -> bool {
    &&& frequency > 0real
    &&& reals::repeated(frequency, width) * reals::repeated(base, 2 * pair) == 1real
}

proof fn lemma_power_of_zero<T>(n: Reals<T>, base: real)
    requires
        n.has_powers(),
        base > 0real,
    ensures
        n.pow(base, 0real) == 1real,
{
    assert(n.power_splits(base, 1real, 0real));
    assert(1real + 0real == 1real);
    let zero = n.pow(base, 0real);
    assert(n.pow(base, 1real) == base);
    assert(zero == 1real) by (nonlinear_arith)
        requires
            base == base * zero,
            base > 0real,
    ;
}

/// A power multiplied with itself is the power of a multiple.
proof fn lemma_repeated_power<T>(n: Reals<T>, base: real, exponent: real, count: nat)
    requires
        n.has_powers(),
        base > 0real,
    ensures
        reals::repeated(n.pow(base, exponent), count) == n.pow(base, (count as real) * exponent),
    decreases count,
{
    if count == 0 {
        lemma_power_of_zero(n, base);
        assert(0real * exponent == 0real) by (nonlinear_arith);
    } else {
        let less = (count - 1) as nat;
        lemma_repeated_power(n, base, exponent, less);
        let c = less as real;
        assert(n.power_splits(base, c * exponent, exponent));
        assert(c * exponent + exponent == (c + 1real) * exponent) by (nonlinear_arith);
        assert(c + 1real == count as real);
    }
}

proof fn lemma_frequency<T, A: Arithmetic<T>>(
    arithmetic: &A,
    n: Reals<T>,
    width: usize,
    pair: usize,
    position: T,
    base: T,
    angle: T,
)
    requires
        reals::exact(arithmetic, n),
        n.has_powers(),
        width > 0,
        n.is(position),
        n.is(base),
        n.of(base) > 0real,
        rotary::rotary_angle(arithmetic, width, pair, position, base, angle),
    ensures
        n.is(angle),
        exists|frequency: real| #[trigger]
            is_frequency(n.of(base), width as nat, pair as nat, frequency) && n.of(angle) == n.of(
                position,
            ) * frequency,
{
    let exponent = choose|exponent: T|
        {
            &&& #[trigger] rotary::rotary_exponent(arithmetic, width, pair, exponent)
            &&& exists|frequency: T|
                {
                    &&& #[trigger] call_ensures(A::power, (arithmetic, base, exponent), frequency)
                    &&& call_ensures(A::multiply, (arithmetic, position, frequency), angle)
                }
        };
    let (factor, number, length) = choose|factor: T, number: T, length: T|
        {
            &&& #[trigger] call_ensures(A::from_integer, (arithmetic, -2i32), factor)
            &&& #[trigger] call_ensures(A::from_count, (arithmetic, pair), number)
            &&& #[trigger] call_ensures(A::from_count, (arithmetic, width), length)
            &&& exists|product: T|
                {
                    &&& #[trigger] call_ensures(
                        A::multiply,
                        (arithmetic, factor, number),
                        product,
                    )
                    &&& call_ensures(A::divide, (arithmetic, product, length), exponent)
                }
        };
    let product = choose|product: T|
        {
            &&& #[trigger] call_ensures(A::multiply, (arithmetic, factor, number), product)
            &&& call_ensures(A::divide, (arithmetic, product, length), exponent)
        };
    let frequency = choose|frequency: T|
        {
            &&& #[trigger] call_ensures(A::power, (arithmetic, base, exponent), frequency)
            &&& call_ensures(A::multiply, (arithmetic, position, frequency), angle)
        };
    let b = n.of(base);
    let e = n.of(exponent);
    let w = width as real;
    let p = pair as real;
    assert(n.of(product) == -2real * p);
    assert(e * w == -2real * p);
    let f = n.pow(b, e);
    lemma_repeated_power(n, b, e, width as nat);
    assert((width as nat) as real * e == e * w) by (nonlinear_arith)
        requires
            w == (width as nat) as real,
    ;
    lemma_repeated_power(n, b, 1real, (2 * pair) as nat);
    let twice = (2 * pair) as nat as real;
    assert(twice * 1real == twice) by (nonlinear_arith);
    assert(n.pow(b, 1real) == b);
    assert(twice == 2real * p);
    assert(n.power_splits(b, e * w, twice));
    assert(e * w + twice == 0real);
    lemma_power_of_zero(n, b);
    assert(is_frequency(b, width as nat, pair as nat, f));
}

/// A pair of numbers is turned by the product of the position and the frequency
/// of the pair.
pub open spec fn is_turned<T>(
    n: Reals<T>,
    angle: real,
    before: (real, real),
    after: (real, real),
) -> bool {
    let sine = (n.sine)(angle);
    let cosine = (n.cosine)(angle);
    &&& after.0 == before.0 * cosine - before.1 * sine
    &&& after.1 == before.0 * sine + before.1 * cosine
}

proof fn lemma_turned_row<T, A: Arithmetic<T>>(
    arithmetic: &A,
    n: Reals<T>,
    row: Seq<T>,
    rotary: int,
    position: T,
    base: T,
    out: Seq<T>,
    pair: int,
)
    requires
        reals::exact(arithmetic, n),
        n.has_powers(),
        n.all(row),
        0 < row.len() <= usize::MAX,
        0 <= pair < rotary / 2,
        rotary <= row.len(),
        n.is(position),
        n.is(base),
        n.of(base) > 0real,
        rotary::row_turned(arithmetic, row, rotary, position, base, out),
    ensures
        n.is(out[2 * pair]),
        n.is(out[2 * pair + 1]),
        exists|frequency: real| #[trigger]
            is_frequency(n.of(base), row.len(), pair as nat, frequency) && is_turned(
                n,
                n.of(position) * frequency,
                (n.of(row[2 * pair]), n.of(row[2 * pair + 1])),
                (n.of(out[2 * pair]), n.of(out[2 * pair + 1])),
            ),
{
    let results = rotary::pair_of(out, pair);
    assert(rotary::pair_turned(arithmetic, row, pair, position, base, results));
    let angle = choose|angle: T|
        {
            &&& #[trigger] rotary::rotary_angle(
                arithmetic,
                row.len() as usize,
                pair as usize,
                position,
                base,
                angle,
            )
            &&& rotary::turned(arithmetic, angle, rotary::pair_of(row, pair), results)
        };
    lemma_frequency(
        arithmetic,
        n,
        row.len() as usize,
        pair as usize,
        position,
        base,
        angle,
    );
    let frequency = choose|frequency: real| #[trigger]
        is_frequency(n.of(base), row.len(), pair as nat, frequency) && n.of(angle) == n.of(position)
            * frequency;
    let x = row[2 * pair];
    let y = row[2 * pair + 1];
    assert(n.is(x) && n.is(y));
    let waves = choose|waves: (T, T)|
        {
            &&& #[trigger] call_ensures(A::sine_cosine, (arithmetic, angle), waves)
            &&& rotary::product_difference(arithmetic, x, waves.1, y, waves.0, results.0)
            &&& rotary::product_sum(arithmetic, x, waves.0, y, waves.1, results.1)
        };
    assert(n.of(results.0) == n.of(x) * n.of(waves.1) - n.of(y) * n.of(waves.0));
    assert(n.of(results.1) == n.of(x) * n.of(waves.0) + n.of(y) * n.of(waves.1));
    assert(is_turned(
        n,
        n.of(position) * frequency,
        (n.of(x), n.of(y)),
        (n.of(results.0), n.of(results.1)),
    ));
}

/// The leading pairs of each head are turned by the position times the frequency
/// of the pair, and what follows them is kept.
pub proof fn law_rotary_embedding_turns_pairs<T: Copy, A: Arithmetic<T>>(
    arithmetic: &A,
    n: Reals<T>,
    tensor: &Tensor<T>,
    rotary: usize,
    position: T,
    base: T,
    result: Result<Tensor<T>, TensorError>,
    head: int,
)
    requires
        reals::exact(arithmetic, n),
        n.has_powers(),
        meaning::numeric(n, tensor),
        tensor@.shape.len() == 2,
        tensor@.shape[1] % 2 == 0,
        0 < rotary <= tensor@.shape[1],
        rotary % 2 == 0,
        n.is(position),
        n.is(base),
        n.of(base) > 0real,
        call_ensures(
            Tensor::<T>::rotary_embedding::<A>,
            (tensor, rotary, position, base, arithmetic),
            result,
        ),
        0 <= head < tensor@.shape[0],
    ensures
        meaning::yields(n, result, tensor@.shape, tensor@.data.len()),
        forall|pair: int|
            0 <= pair < rotary / 2 ==> #[trigger] pair_is_turned(
                n,
                tensor@.data,
                result->Ok_0@.data,
                tensor@.shape[1] as int,
                head,
                pair,
                n.of(position),
                n.of(base),
            ),
        forall|i: int|
            rotary <= i < tensor@.shape[1] ==> result->Ok_0@.data[#[trigger] (head
                * tensor@.shape[1] + i)] == tensor@.data[head * tensor@.shape[1] + i],
{
    let contents = tensor@;
    let heads = contents.shape[0] as int;
    let width = contents.shape[1] as int;
    dense::lemma_matrix_count(contents.shape);
    let data = choose|data: Seq<T>| #[trigger]
        rotary::heads_turned(
            arithmetic,
            contents,
            rotary as int,
            position,
            base,
            data,
        ) && dense::checked(
            arithmetic,
            contents.shape,
            data,
            "rotary_embedding"@,
            dense::answer_of(result),
        );
    assert forall|h: int| 0 <= h < heads implies n.all(
        #[trigger] matrix::row_of(contents.data, width, h),
    ) by {
        assert forall|k: int| 0 <= k < width implies n.is(
            #[trigger] matrix::row_of(contents.data, width, h)[k],
        ) by {
            dense::lemma_inside(h, k, heads, width);
        }
    }
    assert forall|i: int| 0 <= i < data.len() implies n.is(#[trigger] data[i]) by {
        meaning::lemma_place_of(i, heads, width);
        let h = i / width;
        let k = i % width;
        let row = matrix::row_of(contents.data, width, h);
        let out = matrix::row_of(data, width, h);
        assert(n.all(row));
        assert(rotary::row_turned(arithmetic, row, rotary as int, position, base, out));
        if k < rotary {
            lemma_turned_row(arithmetic, n, row, rotary as int, position, base, out, k / 2);
            assert(n.is(out[k]));
        } else {
            assert(out[k] == row[k]);
            assert(n.is(row[k]));
        }
    }
    let row = matrix::row_of(contents.data, width, head);
    let out = matrix::row_of(data, width, head);
    assert(n.all(row));
    assert forall|pair: int| 0 <= pair < rotary / 2 implies #[trigger] pair_is_turned(
        n,
        contents.data,
        data,
        width,
        head,
        pair,
        n.of(position),
        n.of(base),
    ) by {
        lemma_turned_row(arithmetic, n, row, rotary as int, position, base, out, pair);
    }
    assert forall|i: int| rotary <= i < width implies data[#[trigger] (head * width + i)]
        == contents.data[head * width + i] by {
        assert(out[i] == row[i]);
    }
}

/// A pair of a head is turned by the position times its frequency.
pub open spec fn pair_is_turned<T>(
    n: Reals<T>,
    before: Seq<T>,
    after: Seq<T>,
    width: int,
    head: int,
    pair: int,
    position: real,
    base: real,
) -> bool {
    let at = head * width + 2 * pair;
    exists|frequency: real| #[trigger]
        is_frequency(base, width as nat, pair as nat, frequency) && is_turned(
            n,
            position * frequency,
            (n.of(before[at]), n.of(before[at + 1])),
            (n.of(after[at]), n.of(after[at + 1])),
        )
}

proof fn lemma_repeated_grows(x: real, y: real, count: nat)
    requires
        0real < x < y,
    ensures
        0real < reals::repeated(x, count) <= reals::repeated(y, count),
        count > 0 ==> reals::repeated(x, count) < reals::repeated(y, count),
    decreases count,
{
    if count > 0 {
        lemma_repeated_grows(x, y, (count - 1) as nat);
        let a = reals::repeated(x, (count - 1) as nat);
        let b = reals::repeated(y, (count - 1) as nat);
        assert(0real < a * x && a * x < b * y) by (nonlinear_arith)
            requires
                0real < a,
                a <= b,
                0real < x,
                x < y,
        ;
    }
}

/// The first pair has frequency one, and for a base above one the frequencies
/// fall from pair to pair. A pair has no other frequency.
pub proof fn law_frequencies_fall(
    base: real,
    width: nat,
    pair: nat,
    frequency: real,
    other: real,
    next: real,
)
    requires
        base > 0real,
        width > 0,
        is_frequency(base, width, pair, frequency),
        is_frequency(base, width, pair, other),
        is_frequency(base, width, pair + 1, next),
    ensures
        other == frequency,
        pair == 0 ==> frequency == 1real,
        base > 1real ==> next < frequency,
        base == 1real ==> next == frequency,
        base < 1real ==> next > frequency,
{
    let f = reals::repeated(frequency, width);
    let g = reals::repeated(other, width);
    let h = reals::repeated(next, width);
    let b = reals::repeated(base, 2 * pair);
    reveal_with_fuel(reals::repeated, 3);
    let c = reals::repeated(base, 2 * (pair + 1));
    assert(2 * (pair + 1) - 1 == 2 * pair + 1);
    assert(c == b * base * base);
    lemma_repeated_grows(base, base + 1real, 2 * pair);
    if frequency < other {
        lemma_repeated_grows(frequency, other, width);
    } else if other < frequency {
        lemma_repeated_grows(other, frequency, width);
    }
    assert(f == g) by (nonlinear_arith)
        requires
            f * b == 1real,
            g * b == 1real,
            b > 0real,
    ;
    if pair == 0 {
        lemma_repeated_one(width);
        if frequency < 1real {
            lemma_repeated_grows(frequency, 1real, width);
        } else if frequency > 1real {
            lemma_repeated_grows(1real, frequency, width);
        }
    }
    assert(h * base * base == f) by (nonlinear_arith)
        requires
            f * b == 1real,
            h * (b * base * base) == 1real,
            b > 0real,
    ;
    lemma_repeated_grows(next, next + 1real, width);
    if next < frequency {
        lemma_repeated_grows(next, frequency, width);
    } else if next > frequency {
        lemma_repeated_grows(frequency, next, width);
    }
    assert(base > 1real ==> h < h * base * base) by (nonlinear_arith)
        requires
            h > 0real,
    ;
    assert(0real < base < 1real ==> h > h * base * base) by (nonlinear_arith)
        requires
            h > 0real,
    ;
    assert(base == 1real ==> h == h * base * base) by (nonlinear_arith);
}

proof fn lemma_repeated_one(count: nat)
    ensures
        reals::repeated(1real, count) == 1real,
    decreases count,
{
    if count > 0 {
        lemma_repeated_one((count - 1) as nat);
    }
}

} // verus!
