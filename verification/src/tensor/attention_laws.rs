//! What attention comes to, if values stand for real numbers.

use vstd::prelude::*;

use crate::tensor::arithmetic::Arithmetic;
use crate::tensor::attention;
use crate::tensor::dense;
use crate::tensor::dense::{Contents, Tensor};
use crate::tensor::error::TensorError;
use crate::tensor::laws;
use crate::tensor::matrix;
use crate::tensor::meaning;
use crate::tensor::reals;
use crate::tensor::reals::Reals;
use crate::tensor::rows;
use crate::tensor::shape;

verus! {

/// The place of a feature in a tensor of batches, heads, positions and features.
pub open spec fn place(
    shape: Seq<usize>,
    batch: int,
    head: int,
    position: int,
    feature: int,
) -> int {
    ((batch * shape[1] + head) * shape[2] + position) * shape[3] + feature
}

/// Key head `key_head` serves query head `head`: the query heads are dealt out to
/// the key heads in order, in groups of equal size.
pub open spec fn serves(queries: Seq<usize>, keys: Seq<usize>, key_head: int, head: int) -> bool {
    let size = queries[1] as int / keys[1] as int;
    key_head * size <= head < (key_head + 1) * size
}

/// The number of keys that a query at `position` sees: all of them, or those up to
/// its own position, where the last query stands at the last key.
pub open spec fn visible(
    queries: Seq<usize>,
    keys: Seq<usize>,
    causal: bool,
    position: int,
) -> int {
    if causal {
        keys[2] - (queries[2] - 1 - position)
    } else {
        keys[2] as int
    }
}

/// The scaled product of a query and a key.
pub open spec fn score<T>(
    n: Reals<T>,
    queries: Contents<T>,
    keys: Contents<T>,
    scale: real,
    batch: int,
    head: int,
    position: int,
    key_head: int,
    key: int,
) -> real {
    reals::sum(
        |f: int|
            n.of(queries.data[place(queries.shape, batch, head, position, f)]) * n.of(
                keys.data[place(keys.shape, batch, key_head, key, f)],
            ),
        queries.shape[3] as nat,
    ) * scale
}

/// The scores of the keys that a query sees.
pub open spec fn scores<T>(
    n: Reals<T>,
    queries: Contents<T>,
    keys: Contents<T>,
    scale: real,
    causal: bool,
    batch: int,
    head: int,
    position: int,
    key_head: int,
) -> Seq<real> {
    Seq::new(
        visible(queries.shape, keys.shape, causal, position) as nat,
        |key: int| score(n, queries, keys, scale, batch, head, position, key_head, key),
    )
}

/// Queries, keys and values whose shapes go together.
pub open spec fn shapes_agree(
    queries: Seq<usize>,
    keys: Seq<usize>,
    values: Seq<usize>,
) -> bool {
    &&& queries.len() == 4
    &&& keys.len() == 4
    &&& values.len() == 4
    &&& queries[0] == keys[0]
    &&& keys[0] == values[0]
    &&& keys[1] == values[1]
    &&& keys[2] == values[2]
    &&& queries[3] == keys[3]
    &&& queries[1] as int % keys[1] as int == 0
    &&& queries[2] <= keys[2]
}

proof fn lemma_scores<T, A: Arithmetic<T>>(
    arithmetic: &A,
    n: Reals<T>,
    query: Seq<T>,
    keys: Seq<Seq<T>>,
    scale: T,
    found: Seq<T>,
)
    requires
        reals::exact(arithmetic, n),
        n.all(query),
        forall|k: int|
            0 <= k < keys.len() ==> n.all(#[trigger] keys[k]) && keys[k].len() == query.len(),
        n.is(scale),
        attention::scores_of(arithmetic, query, keys, scale, found),
    ensures
        n.all(found),
        forall|k: int|
            0 <= k < found.len() ==> n.of(#[trigger] found[k]) == reals::sum(
                |f: int| n.of(query[f]) * n.of(keys[k][f]),
                query.len(),
            ) * n.of(scale),
{
    assert forall|k: int| 0 <= k < found.len() implies n.is(#[trigger] found[k]) && n.of(found[k])
        == reals::sum(|f: int| n.of(query[f]) * n.of(keys[k][f]), query.len()) * n.of(scale) by {
        assert(attention::score_of(arithmetic, query, keys[k], scale, found[k]));
        let dot = choose|dot: T|
            {
                &&& matrix::dot_product(arithmetic, query, keys[k], query.len(), dot)
                &&& #[trigger] call_ensures(A::multiply, (arithmetic, dot, scale), found[k])
            };
        assert(n.all(keys[k]));
        meaning::lemma_dot(arithmetic, n, query, keys[k], query.len(), dot);
    }
}

/// Shifted exponentials of scores are positive numbers, and so is their sum.
proof fn lemma_exponents<T, A: Arithmetic<T>>(
    arithmetic: &A,
    n: Reals<T>,
    found: Seq<T>,
    maximum: T,
    exponents: Seq<T>,
    total: T,
)
    requires
        reals::exact(arithmetic, n),
        n.has_exponential(),
        n.all(found),
        found.len() > 0,
        rows::maximum_of(arithmetic, found, found.len(), maximum),
        rows::shifted_exponentials(arithmetic, found, maximum, exponents),
        attention::total_of(arithmetic, exponents, exponents.len(), total),
    ensures
        n.is(maximum),
        forall|k: int| 0 <= k < found.len() ==> n.of(#[trigger] found[k]) <= n.of(maximum),
        n.is(total),
        n.of(total) == reals::sum(|k: int| n.of(exponents[k]), exponents.len()),
        n.of(total) > 0real,
{
    meaning::lemma_maximum(arithmetic, n, found, found.len(), maximum);
    let term = |k: int| n.of(exponents[k]);
    assert forall|k: int| 0 <= k < exponents.len() implies n.is(#[trigger] exponents[k]) && n.of(
        exponents[k],
    ) > 0real by {
        assert(rows::shifted_exponential(arithmetic, found[k], maximum, exponents[k]));
        assert(n.is(found[k]));
    }
    assert forall|k: int| 0 <= k < exponents.len() implies #[trigger] term(k) > 0real by {
        assert(n.is(exponents[k]));
    }
    meaning::lemma_sum_of(arithmetic, n, exponents, exponents.len(), total);
    reals::lemma_sum_positive(term, exponents.len());
}

/// Numbers have scores and shares.
proof fn lemma_row_succeeds<T, A: Arithmetic<T>>(
    arithmetic: &A,
    n: Reals<T>,
    query: Seq<T>,
    keys: Seq<Seq<T>>,
    scale: T,
)
    requires
        reals::exact(arithmetic, n),
        n.has_exponential(),
        n.all(query),
        keys.len() > 0,
        forall|k: int|
            0 <= k < keys.len() ==> n.all(#[trigger] keys[k]) && keys[k].len() == query.len(),
        n.is(scale),
    ensures
        !attention::row_fails(arithmetic, query, keys, scale),
{
    if attention::row_fails(arithmetic, query, keys, scale) {
        let found = choose|found: Seq<T>|
            {
                &&& #[trigger] attention::scores_of(arithmetic, query, keys, scale, found)
                &&& {
                    ||| dense::first_not_finite(arithmetic, found, found.len() - 1)
                    ||| {
                        &&& found.len() == keys.len()
                        &&& dense::finite_before(arithmetic, found, found.len() as int)
                        &&& attention::total_refused(arithmetic, found)
                    }
                }
            };
        lemma_scores(arithmetic, n, query, keys, scale, found);
        if dense::first_not_finite(arithmetic, found, found.len() - 1) {
            assert(n.is(found[found.len() - 1]));
        } else {
            let (exponents, total) = choose|exponents: Seq<T>, total: T|
                {
                    &&& #[trigger] attention::exponents_of(arithmetic, found, exponents, total)
                    &&& (call_ensures(A::is_finite, (arithmetic, total), false) || call_ensures(
                        A::is_positive,
                        (arithmetic, total),
                        false,
                    ))
                };
            let maximum = choose|maximum: T|
                {
                    &&& #[trigger] rows::maximum_of(arithmetic, found, found.len(), maximum)
                    &&& rows::shifted_exponentials(arithmetic, found, maximum, exponents)
                    &&& attention::total_of(arithmetic, exponents, exponents.len(), total)
                };
            lemma_exponents(arithmetic, n, found, maximum, exponents, total);
        }
    }
}

/// The scaled products of a query and some keys.
pub open spec fn row_scores<T>(
    n: Reals<T>,
    query: Seq<T>,
    keys: Seq<Seq<T>>,
    scale: real,
) -> Seq<real> {
    Seq::new(
        keys.len(),
        |k: int| reals::sum(|f: int| n.of(query[f]) * n.of(keys[k][f]), query.len()) * scale,
    )
}

/// `out` holds, at each place, the numbers of the values there, each times its
/// share.
pub open spec fn is_mixture<T>(
    n: Reals<T>,
    shares: Seq<real>,
    values: Seq<Seq<T>>,
    out: Seq<T>,
) -> bool {
    forall|place: int|
        0 <= place < out.len() ==> n.of(#[trigger] out[place]) == reals::sum(
            |k: int| shares[k] * n.of(values[k][place]),
            values.len(),
        )
}

proof fn lemma_attended_row<T, A: Arithmetic<T>>(
    arithmetic: &A,
    n: Reals<T>,
    query: Seq<T>,
    keys: Seq<Seq<T>>,
    values: Seq<Seq<T>>,
    scale: T,
    out: Seq<T>,
)
    requires
        reals::exact(arithmetic, n),
        n.has_exponential(),
        n.all(query),
        keys.len() > 0,
        values.len() == keys.len(),
        forall|k: int|
            0 <= k < keys.len() ==> n.all(#[trigger] keys[k]) && keys[k].len() == query.len(),
        forall|k: int|
            0 <= k < values.len() ==> n.all(#[trigger] values[k]) && values[k].len() == out.len(),
        n.is(scale),
        attention::row_attended(arithmetic, query, keys, values, scale, out),
    ensures
        n.all(out),
        exists|shares: Seq<real>|
            {
                &&& #[trigger] meaning::are_shares(
                    n,
                    row_scores(n, query, keys, n.of(scale)),
                    shares,
                )
                &&& is_mixture(n, shares, values, out)
            },
{
    let (found, weights) = choose|found: Seq<T>, weights: Seq<T>|
        {
            &&& #[trigger] attention::scores_of(arithmetic, query, keys, scale, found)
            &&& found.len() == keys.len()
            &&& dense::finite_before(arithmetic, found, found.len() as int)
            &&& #[trigger] attention::weights_of(arithmetic, found, weights)
            &&& forall|place: int|
                0 <= place < out.len() ==> matrix::dot_product(
                    arithmetic,
                    weights,
                    attention::place_of(values, place),
                    values.len(),
                    #[trigger] out[place],
                )
        };
    lemma_scores(arithmetic, n, query, keys, scale, found);
    let (exponents, total) = choose|exponents: Seq<T>, total: T|
        {
            &&& #[trigger] attention::exponents_of(arithmetic, found, exponents, total)
            &&& weights.len() == found.len()
            &&& forall|k: int|
                0 <= k < weights.len() ==> call_ensures(
                    A::divide,
                    (arithmetic, exponents[k], total),
                    #[trigger] weights[k],
                )
        };
    let maximum = choose|maximum: T|
        {
            &&& #[trigger] rows::maximum_of(arithmetic, found, found.len(), maximum)
            &&& rows::shifted_exponentials(arithmetic, found, maximum, exponents)
            &&& attention::total_of(arithmetic, exponents, exponents.len(), total)
        };
    lemma_exponents(arithmetic, n, found, maximum, exponents, total);
    meaning::lemma_shares(arithmetic, n, found, maximum, exponents, total, weights);
    let expected = row_scores(n, query, keys, n.of(scale));
    assert forall|k: int| 0 <= k < keys.len() implies #[trigger] expected[k] == meaning::numbers(
        n,
        found,
    )[k] by {
        assert(n.is(found[k]));
    }
    assert(expected =~= meaning::numbers(n, found));
    let shares = meaning::numbers(n, weights);
    assert forall|place: int| 0 <= place < out.len() implies n.is(#[trigger] out[place]) && n.of(
        out[place],
    ) == reals::sum(|k: int| shares[k] * n.of(values[k][place]), values.len()) by {
        let column = attention::place_of(values, place);
        assert forall|k: int| 0 <= k < column.len() implies n.is(#[trigger] column[k]) by {
            assert(n.all(values[k]));
            assert(n.is(values[k][place]));
        }
        meaning::lemma_dot(arithmetic, n, weights, column, values.len(), out[place]);
        reals::lemma_same_sum(
            |k: int| n.of(weights[k]) * n.of(column[k]),
            |k: int| shares[k] * n.of(values[k][place]),
            values.len(),
        );
    }
    assert(meaning::are_shares(n, expected, shares) && is_mixture(n, shares, values, out));
}

/// The rows of a tensor of rank four.
proof fn lemma_numeric_rows<T>(n: Reals<T>, contents: Contents<T>, start: int, count: int)
    requires
        dense::valid_contents(contents),
        n.all(contents.data),
        contents.shape.len() == 4,
        0 <= start,
        0 <= count,
        start + count <= attention::query_rows(contents.shape),
    ensures
        ({
            let rows = attention::rows_from(
                contents.data,
                contents.shape[3] as int,
                start,
                count,
            );
            forall|k: int|
                0 <= k < rows.len() ==> n.all(#[trigger] rows[k]) && rows[k].len()
                    == contents.shape[3]
        }),
{
    let width = contents.shape[3] as int;
    let rows = attention::rows_from(contents.data, width, start, count);
    attention::lemma_row_total(contents.shape);
    assert forall|k: int| 0 <= k < rows.len() implies n.all(#[trigger] rows[k]) && rows[k].len()
        == width by {
        assert forall|f: int| 0 <= f < width implies n.is(#[trigger] rows[k][f]) by {
            dense::lemma_inside(start + k, f, attention::query_rows(contents.shape), width);
        }
    }
}

/// What a query row reads stands for numbers.
proof fn lemma_numeric_reads<T>(
    n: Reals<T>,
    queries: Contents<T>,
    keys: Contents<T>,
    values: Contents<T>,
    causal: bool,
    row: int,
)
    requires
        dense::valid_contents(queries),
        dense::valid_contents(keys),
        dense::valid_contents(values),
        n.all(queries.data),
        n.all(keys.data),
        n.all(values.data),
        attention::attention_fits(queries.shape, keys.shape, values.shape),
        0 <= row < attention::query_rows(queries.shape),
    ensures
        ({
            let query = matrix::row_of(queries.data, queries.shape[3] as int, row);
            let key_rows = attention::keys_of(queries, keys, causal, row);
            let value_rows = attention::values_of(queries, keys, values, causal, row);
            &&& n.all(query)
            &&& key_rows.len() > 0
            &&& value_rows.len() == key_rows.len()
            &&& forall|k: int|
                0 <= k < key_rows.len() ==> n.all(#[trigger] key_rows[k]) && key_rows[k].len()
                    == query.len()
            &&& forall|k: int|
                0 <= k < value_rows.len() ==> n.all(#[trigger] value_rows[k])
                    && value_rows[k].len() == values.shape[3]
        }),
{
    attention::lemma_key_rows(queries.shape, keys.shape, causal, row);
    let start = attention::key_start(queries.shape, keys.shape, row);
    let count = attention::keys_read(queries.shape, keys.shape, causal, row);
    lemma_numeric_rows(n, keys, start, count);
    lemma_numeric_rows(n, values, start, count);
    lemma_numeric_rows(n, queries, row, 1);
    let own = attention::rows_from(queries.data, queries.shape[3] as int, row, 1);
    assert(own[0] == matrix::row_of(queries.data, queries.shape[3] as int, row));
    assert(n.all(own[0]));
}

/// Attention gives, for each batch, head and position, the mixture of the values
/// of the key head that serves the query head. The shares of the values are those
/// of the scores of the keys that the query sees.
#[verifier::rlimit(30)]
pub proof fn law_attention_mixes_values_by_the_scores_of_keys<T: Copy, A: Arithmetic<T>>(
    arithmetic: &A,
    n: Reals<T>,
    queries: &Tensor<T>,
    keys: &Tensor<T>,
    values: &Tensor<T>,
    scale: T,
    causal: bool,
    result: Result<Tensor<T>, TensorError>,
    batch: int,
    head: int,
    position: int,
    key_head: int,
)
    requires
        reals::exact(arithmetic, n),
        n.has_exponential(),
        meaning::numeric(n, queries),
        meaning::numeric(n, keys),
        meaning::numeric(n, values),
        n.is(scale),
        shapes_agree(queries@.shape, keys@.shape, values@.shape),
        queries@.shape[0] * queries@.shape[1] * queries@.shape[2] * values@.shape[3] <= usize::MAX,
        call_ensures(
            Tensor::<T>::scaled_dot_product_attention::<A>,
            (queries, keys, values, scale, causal, arithmetic),
            result,
        ),
        0 <= batch < queries@.shape[0],
        0 <= head < queries@.shape[1],
        0 <= position < queries@.shape[2],
        0 <= key_head,
        serves(queries@.shape, keys@.shape, key_head, head),
    ensures
        ({
            let shape = seq![
                queries@.shape[0],
                queries@.shape[1],
                queries@.shape[2],
                values@.shape[3],
            ];
            &&& meaning::yields(
                n,
                result,
                shape,
                (queries@.shape[0] * queries@.shape[1] * queries@.shape[2]
                    * values@.shape[3]) as nat,
            )
            &&& exists|shares: Seq<real>|
                {
                    &&& #[trigger] meaning::are_shares(
                        n,
                        scores(
                            n,
                            queries@,
                            keys@,
                            n.of(scale),
                            causal,
                            batch,
                            head,
                            position,
                            key_head,
                        ),
                        shares,
                    )
                    &&& forall|f: int|
                        0 <= f < values@.shape[3] ==> n.of(
                            result->Ok_0@.data[#[trigger] place(shape, batch, head, position, f)],
                        ) == reals::sum(
                            |k: int|
                                shares[k] * n.of(
                                    values@.data[place(values@.shape, batch, key_head, k, f)],
                                ),
                            shares.len(),
                        )
                }
        }),
{
    let q = queries@;
    let k = keys@;
    let v = values@;
    let shape = seq![q.shape[0], q.shape[1], q.shape[2], v.shape[3]];
    let width = v.shape[3] as int;
    attention::lemma_row_total(q.shape);
    attention::lemma_row_total(v.shape);
    attention::lemma_row_total(k.shape);
    let total = attention::query_rows(q.shape);
    assert(shape::element_count_of(shape) == total * width) by {
        assert(shape::nonzero(shape)) by {
            assert forall|i: int| 0 <= i < 4 implies shape[i] != 0 by {
                assert(q.shape.contains(q.shape[0]) && q.shape.contains(q.shape[1])
                    && q.shape.contains(q.shape[2]));
            }
        }
        attention::lemma_row_total(shape);
    }
    assert(q.shape[1] % k.shape[1] == 0);
    assert forall|row: int| 0 <= row < total implies !(#[trigger] attention::attention_stops(
        arithmetic,
        q,
        k,
        v,
        scale,
        causal,
        row,
    )) by {
        lemma_numeric_reads(n, q, k, v, causal, row);
        lemma_row_succeeds(
            arithmetic,
            n,
            matrix::row_of(q.data, q.shape[3] as int, row),
            attention::keys_of(q, k, causal, row),
            scale,
        );
    }
    let data = choose|data: Seq<T>| #[trigger]
        attention::rows_attended(arithmetic, q, k, v, scale, causal, data, total)
            && dense::checked(
            arithmetic,
            shape,
            data,
            "scaled_dot_product_attention"@,
            dense::answer_of(result),
        );
    assert forall|i: int| 0 <= i < data.len() implies n.is(#[trigger] data[i]) by {
        meaning::lemma_place_of(i, total, width);
        let row = i / width;
        lemma_numeric_reads(n, q, k, v, causal, row);
        let out = matrix::row_of(data, width, row);
        lemma_attended_row(
            arithmetic,
            n,
            matrix::row_of(q.data, q.shape[3] as int, row),
            attention::keys_of(q, k, causal, row),
            attention::values_of(q, k, v, causal, row),
            scale,
            out,
        );
        assert(n.is(out[i % width]));
    }
    lemma_place_attended(
        arithmetic,
        n,
        q,
        k,
        v,
        scale,
        causal,
        data,
        batch,
        head,
        position,
        key_head,
    );
}

/// The quotient of a number that lies between two multiples.
proof fn lemma_quotient(number: int, size: int, multiple: int)
    requires
        0 < size,
        0 <= multiple,
        multiple * size <= number < (multiple + 1) * size,
    ensures
        number / size == multiple,
{
    assert((multiple + 1) * size == multiple * size + size) by (nonlinear_arith);
    let rest = number - multiple * size;
    dense::lemma_split(multiple, rest, size);
}

#[verifier::rlimit(40)]
proof fn lemma_place_attended<T, A: Arithmetic<T>>(
    arithmetic: &A,
    n: Reals<T>,
    q: Contents<T>,
    k: Contents<T>,
    v: Contents<T>,
    scale: T,
    causal: bool,
    data: Seq<T>,
    batch: int,
    head: int,
    position: int,
    key_head: int,
)
    requires
        reals::exact(arithmetic, n),
        n.has_exponential(),
        dense::valid_contents(q),
        dense::valid_contents(k),
        dense::valid_contents(v),
        n.all(q.data),
        n.all(k.data),
        n.all(v.data),
        n.is(scale),
        attention::attention_fits(q.shape, k.shape, v.shape),
        attention::rows_attended(
            arithmetic,
            q,
            k,
            v,
            scale,
            causal,
            data,
            attention::query_rows(q.shape),
        ),
        0 <= batch < q.shape[0],
        0 <= head < q.shape[1],
        0 <= position < q.shape[2],
        0 <= key_head,
        serves(q.shape, k.shape, key_head, head),
    ensures
        ({
            let shape = seq![q.shape[0], q.shape[1], q.shape[2], v.shape[3]];
            exists|shares: Seq<real>|
                {
                    &&& #[trigger] meaning::are_shares(
                        n,
                        scores(n, q, k, n.of(scale), causal, batch, head, position, key_head),
                        shares,
                    )
                    &&& forall|f: int|
                        0 <= f < v.shape[3] ==> n.of(
                            data[#[trigger] place(shape, batch, head, position, f)],
                        ) == reals::sum(
                            |i: int|
                                shares[i] * n.of(
                                    v.data[place(v.shape, batch, key_head, i, f)],
                                ),
                            shares.len(),
                        )
                }
        }),
{
    let heads = q.shape[1] as int;
    let length = q.shape[2] as int;
    let width = v.shape[3] as int;
    let row = (batch * heads + head) * length + position;
    dense::lemma_inside(batch, head, q.shape[0] as int, heads);
    dense::lemma_inside(batch * heads + head, position, q.shape[0] * heads, length);
    laws::lemma_row_parts(batch, head, position, heads, length);
    attention::lemma_key_rows(q.shape, k.shape, causal, row);
    lemma_quotient(head, heads / k.shape[1] as int, key_head);
    let start = (batch * k.shape[1] + key_head) * k.shape[2];
    assert(attention::key_start(q.shape, k.shape, row) == start);
    assert(row % length == position) by {
        dense::lemma_split(batch * heads + head, position, length);
    }
    let count = visible(q.shape, k.shape, causal, position);
    assert(attention::keys_read(q.shape, k.shape, causal, row) == count);
    lemma_numeric_reads(n, q, k, v, causal, row);
    let query = matrix::row_of(q.data, q.shape[3] as int, row);
    let key_rows = attention::keys_of(q, k, causal, row);
    let value_rows = attention::values_of(q, k, v, causal, row);
    let out = matrix::row_of(data, width, row);
    lemma_attended_row(arithmetic, n, query, key_rows, value_rows, scale, out);
    let found = row_scores(n, query, key_rows, n.of(scale));
    let shares = choose|shares: Seq<real>|
        {
            &&& #[trigger] meaning::are_shares(n, found, shares)
            &&& is_mixture(n, shares, value_rows, out)
        };
    let expected = scores(n, q, k, n.of(scale), causal, batch, head, position, key_head);
    assert forall|i: int| 0 <= i < count implies #[trigger] found[i] == expected[i] by {
        reals::lemma_same_sum(
            |f: int| n.of(query[f]) * n.of(key_rows[i][f]),
            |f: int|
                n.of(q.data[place(q.shape, batch, head, position, f)]) * n.of(
                    k.data[place(k.shape, batch, key_head, i, f)],
                ),
            q.shape[3] as nat,
        );
    }
    assert(found =~= expected);
    let shape = seq![q.shape[0], q.shape[1], q.shape[2], v.shape[3]];
    assert forall|f: int| 0 <= f < width implies n.of(
        data[#[trigger] place(shape, batch, head, position, f)],
    ) == reals::sum(
        |i: int| shares[i] * n.of(v.data[place(v.shape, batch, key_head, i, f)]),
        shares.len(),
    ) by {
        assert(out[f] == data[place(shape, batch, head, position, f)]);
        reals::lemma_same_sum(
            |i: int| shares[i] * n.of(value_rows[i][f]),
            |i: int| shares[i] * n.of(v.data[place(v.shape, batch, key_head, i, f)]),
            value_rows.len(),
        );
    }
}

} // verus!
