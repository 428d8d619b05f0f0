//! Scaled dot-product attention.

use vstd::prelude::*;

use crate::tensor::arithmetic::Arithmetic;
use crate::tensor::dense;
use crate::tensor::dense::{Contents, Tensor};
use crate::tensor::error::{TensorError, TensorFault};
use crate::tensor::matrix;
use crate::tensor::rows;
use crate::tensor::shape;

verus! {

/// `value` is the sum, from zero and from left to right, of the first `count`
/// values.
pub open spec fn total_of<T, A: Arithmetic<T>>(
    arithmetic: &A,
    values: Seq<T>,
    count: nat,
    value: T,
) -> bool
    decreases count,
{
    if count == 0 {
        call_ensures(A::zero, (arithmetic,), value)
    } else {
        exists|before: T|
            {
                &&& total_of(arithmetic, values, (count - 1) as nat, before)
                &&& #[trigger] call_ensures(
                    A::add,
                    (arithmetic, before, values[count - 1]),
                    value,
                )
            }
    }
}

/// `score` is the scaled product of a query and a key.
pub open spec fn score_of<T, A: Arithmetic<T>>(
    arithmetic: &A,
    query: Seq<T>,
    key: Seq<T>,
    scale: T,
    score: T,
) -> bool {
    exists|dot: T|
        {
            &&& matrix::dot_product(arithmetic, query, key, query.len(), dot)
            &&& #[trigger] call_ensures(A::multiply, (arithmetic, dot, scale), score)
        }
}

/// `scores` are those of the leading keys.
pub open spec fn scores_of<T, A: Arithmetic<T>>(
    arithmetic: &A,
    query: Seq<T>,
    keys: Seq<Seq<T>>,
    scale: T,
    scores: Seq<T>,
) -> bool {
    &&& scores.len() <= keys.len()
    &&& forall|k: int|
        0 <= k < scores.len() ==> score_of(
            arithmetic,
            query,
            keys[k],
            scale,
            #[trigger] scores[k],
        )
}

/// `exponents` and `total` are the shifted exponentials of the scores and their
/// sum.
pub open spec fn exponents_of<T, A: Arithmetic<T>>(
    arithmetic: &A,
    scores: Seq<T>,
    exponents: Seq<T>,
    total: T,
) -> bool {
    exists|maximum: T|
        {
            &&& #[trigger] rows::maximum_of(arithmetic, scores, scores.len(), maximum)
            &&& rows::shifted_exponentials(arithmetic, scores, maximum, exponents)
            &&& total_of(arithmetic, exponents, exponents.len(), total)
        }
}

/// `weights` are the shares of the scores.
pub open spec fn weights_of<T, A: Arithmetic<T>>(
    arithmetic: &A,
    scores: Seq<T>,
    weights: Seq<T>,
) -> bool {
    exists|exponents: Seq<T>, total: T|
        {
            &&& #[trigger] exponents_of(arithmetic, scores, exponents, total)
            &&& call_ensures(A::is_finite, (arithmetic, total), true)
            &&& call_ensures(A::is_positive, (arithmetic, total), true)
            &&& weights.len() == scores.len()
            &&& forall|k: int|
                0 <= k < weights.len() ==> call_ensures(
                    A::divide,
                    (arithmetic, exponents[k], total),
                    #[trigger] weights[k],
                )
        }
}

/// The sum of the shifted exponentials cannot be divided by.
pub open spec fn total_refused<T, A: Arithmetic<T>>(arithmetic: &A, scores: Seq<T>) -> bool {
    exists|exponents: Seq<T>, total: T|
        {
            &&& #[trigger] exponents_of(arithmetic, scores, exponents, total)
            &&& (call_ensures(A::is_finite, (arithmetic, total), false) || call_ensures(
                A::is_positive,
                (arithmetic, total),
                false,
            ))
        }
}

/// The values at one place of some rows.
pub open spec fn place_of<T>(rows: Seq<Seq<T>>, place: int) -> Seq<T> {
    Seq::new(rows.len(), |k: int| rows[k][place])
}

/// `out` is the sum of the value rows, weighted with the shares of their
/// scores.
pub open spec fn row_attended<T, A: Arithmetic<T>>(
    arithmetic: &A,
    query: Seq<T>,
    keys: Seq<Seq<T>>,
    values: Seq<Seq<T>>,
    scale: T,
    out: Seq<T>,
) -> bool {
    exists|scores: Seq<T>, weights: Seq<T>|
        {
            &&& #[trigger] scores_of(arithmetic, query, keys, scale, scores)
            &&& scores.len() == keys.len()
            &&& dense::finite_before(arithmetic, scores, scores.len() as int)
            &&& #[trigger] weights_of(arithmetic, scores, weights)
            &&& forall|place: int|
                0 <= place < out.len() ==> matrix::dot_product(
                    arithmetic,
                    weights,
                    place_of(values, place),
                    values.len(),
                    #[trigger] out[place],
                )
        }
}

/// A score is not finite, or the scores have no shares.
pub open spec fn row_fails<T, A: Arithmetic<T>>(
    arithmetic: &A,
    query: Seq<T>,
    keys: Seq<Seq<T>>,
    scale: T,
) -> bool {
    exists|scores: Seq<T>|
        {
            &&& #[trigger] scores_of(arithmetic, query, keys, scale, scores)
            &&& {
                ||| dense::first_not_finite(arithmetic, scores, scores.len() - 1)
                ||| {
                    &&& scores.len() == keys.len()
                    &&& dense::finite_before(arithmetic, scores, scores.len() as int)
                    &&& total_refused(arithmetic, scores)
                }
            }
        }
}

/// Whether queries, keys and values of given shapes go together.
pub open spec fn attention_fits(
    queries: Seq<usize>,
    keys: Seq<usize>,
    values: Seq<usize>,
) -> bool {
    &&& queries.len() == 4
    &&& keys.len() == 4
    &&& values.len() == 4
    &&& queries[0] == keys[0]
    &&& queries[0] == values[0]
    &&& queries[3] == keys[3]
    &&& keys[1] == values[1]
    &&& keys[2] == values[2]
    &&& queries[1] % keys[1] == 0
    &&& queries[2] <= keys[2]
}

/// The number of query rows.
pub open spec fn query_rows(queries: Seq<usize>) -> int {
    queries[0] * queries[1] * queries[2]
}

/// The first of the key rows that query row `row` reads: those of its batch
/// and of the key head that its own head is grouped under.
pub open spec fn key_start(queries: Seq<usize>, keys: Seq<usize>, row: int) -> int {
    let batch = row / (queries[1] * queries[2]);
    let head = (row / queries[2] as int) % queries[1] as int;
    let repeats = queries[1] as int / keys[1] as int;
    (batch * keys[1] + head / repeats) * keys[2]
}

/// The number of key rows that query row `row` reads: all of them, or those up
/// to its own position if later ones are masked.
pub open spec fn keys_read(
    queries: Seq<usize>,
    keys: Seq<usize>,
    causal: bool,
    row: int,
) -> int {
    if causal {
        keys[2] - queries[2] + row % queries[2] as int + 1
    } else {
        keys[2] as int
    }
}

/// `count` rows from `start` on.
pub open spec fn rows_from<T>(data: Seq<T>, width: int, start: int, count: int) -> Seq<Seq<T>> {
    Seq::new(count as nat, |k: int| matrix::row_of(data, width, start + k))
}

/// The keys that a query row reads.
pub open spec fn keys_of<T>(
    queries: Contents<T>,
    keys: Contents<T>,
    causal: bool,
    row: int,
) -> Seq<Seq<T>> {
    rows_from(
        keys.data,
        keys.shape[3] as int,
        key_start(queries.shape, keys.shape, row),
        keys_read(queries.shape, keys.shape, causal, row),
    )
}

/// The values that a query row reads.
pub open spec fn values_of<T>(
    queries: Contents<T>,
    keys: Contents<T>,
    values: Contents<T>,
    causal: bool,
    row: int,
) -> Seq<Seq<T>> {
    rows_from(
        values.data,
        values.shape[3] as int,
        key_start(queries.shape, keys.shape, row),
        keys_read(queries.shape, keys.shape, causal, row),
    )
}

/// The rows of `data` before `count` are those of the attention.
pub open spec fn rows_attended<T, A: Arithmetic<T>>(
    arithmetic: &A,
    queries: Contents<T>,
    keys: Contents<T>,
    values: Contents<T>,
    scale: T,
    causal: bool,
    data: Seq<T>,
    count: int,
) -> bool {
    let width = values.shape[3] as int;
    &&& data.len() == count * width
    &&& forall|row: int|
        0 <= row < count ==> row_attended(
            arithmetic,
            matrix::row_of(queries.data, queries.shape[3] as int, row),
            keys_of(queries, keys, causal, row),
            values_of(queries, keys, values, causal, row),
            scale,
            #[trigger] matrix::row_of(data, width, row),
        )
}

/// Query row `row` is the first that has no attention.
pub open spec fn attention_stops<T, A: Arithmetic<T>>(
    arithmetic: &A,
    queries: Contents<T>,
    keys: Contents<T>,
    values: Contents<T>,
    scale: T,
    causal: bool,
    row: int,
) -> bool {
    &&& 0 <= row < query_rows(queries.shape)
    &&& exists|data: Seq<T>| #[trigger]
        rows_attended(arithmetic, queries, keys, values, scale, causal, data, row)
    &&& row_fails(
        arithmetic,
        matrix::row_of(queries.data, queries.shape[3] as int, row),
        keys_of(queries, keys, causal, row),
        scale,
    )
}

/// Row `row` of a matrix, as part of its values.
proof fn lemma_row<T>(data: Seq<T>, width: int, row: int)
    requires
        0 <= row,
        0 < width,
        row * width + width <= data.len(),
    ensures
        0 <= row * width,
        matrix::row_of(data, width, row) == data.subrange(row * width, row * width + width),
{
    assert(0 <= row * width) by (nonlinear_arith)
        requires
            0 <= row,
            0 < width,
    ;
    assert(matrix::row_of(data, width, row) =~= data.subrange(row * width, row * width + width));
}

/// The product of two rows.
fn multiply_rows<T: Copy, A: Arithmetic<T>>(
    arithmetic: &A,
    left: &Vec<T>,
    left_start: usize,
    right: &Vec<T>,
    right_start: usize,
    width: usize,
) -> (dot: T)
    requires
        left_start + width <= left@.len(),
        right_start + width <= right@.len(),
    ensures
        matrix::dot_product(
            arithmetic,
            left@.subrange(left_start as int, left_start + width),
            right@.subrange(right_start as int, right_start + width),
            width as nat,
            dot,
        ),
{
    let left_len: usize = left.len();
    let right_len: usize = right.len();
    let ghost l = left@.subrange(left_start as int, left_start + width);
    let ghost r = right@.subrange(right_start as int, right_start + width);
    let mut dot = arithmetic.zero();
    let mut i: usize = 0;
    while i < width
        invariant
            i <= width,
            left_len == left@.len(),
            right_len == right@.len(),
            left_start + width <= left_len,
            right_start + width <= right_len,
            l == left@.subrange(left_start as int, left_start + width),
            r == right@.subrange(right_start as int, right_start + width),
            matrix::dot_product(arithmetic, l, r, i as nat, dot),
        decreases width - i,
    {
        let product = arithmetic.multiply(left[left_start + i], right[right_start + i]);
        let next = arithmetic.add(dot, product);
        proof {
            assert(l[i as int] == left@[left_start + i]);
            assert(r[i as int] == right@[right_start + i]);
            matrix::lemma_dot_step(arithmetic, l, r, i as nat, dot, product, next);
        }
        dot = next;
        i += 1;
    }
    dot
}

/// The shares of scores, if there are any.
fn share<T: Copy, A: Arithmetic<T>>(arithmetic: &A, scores: &Vec<T>, maximum: T) -> (weights:
    Option<Vec<T>>)
    requires
        rows::maximum_of(arithmetic, scores@, scores@.len(), maximum),
    ensures
        match weights {
            Some(weights) => weights_of(arithmetic, scores@, weights@),
            None => total_refused(arithmetic, scores@),
        },
{
    let mut exponents: Vec<T> = Vec::new();
    let mut i: usize = 0;
    while i < scores.len()
        invariant
            i <= scores@.len(),
            exponents@.len() == i,
            forall|k: int|
                0 <= k < i ==> rows::shifted_exponential(
                    arithmetic,
                    scores@[k],
                    maximum,
                    #[trigger] exponents@[k],
                ),
        decreases scores@.len() - i,
    {
        let difference = arithmetic.subtract(scores[i], maximum);
        let exponent = arithmetic.exponential(difference);
        assert(rows::shifted_exponential(arithmetic, scores@[i as int], maximum, exponent));
        exponents.push(exponent);
        i += 1;
    }
    let mut total = arithmetic.zero();
    let mut k: usize = 0;
    while k < exponents.len()
        invariant
            k <= exponents@.len(),
            total_of(arithmetic, exponents@, k as nat, total),
        decreases exponents@.len() - k,
    {
        let next = arithmetic.add(total, exponents[k]);
        assert(total_of(arithmetic, exponents@, (k + 1) as nat, next));
        total = next;
        k += 1;
    }
    assert(exponents_of(arithmetic, scores@, exponents@, total));
    if !arithmetic.is_finite(total) {
        return None;
    }
    if !arithmetic.is_positive(total) {
        return None;
    }
    let mut weights: Vec<T> = Vec::new();
    let mut n: usize = 0;
    while n < exponents.len()
        invariant
            n <= exponents@.len(),
            weights@.len() == n,
            forall|j: int|
                0 <= j < n ==> call_ensures(
                    A::divide,
                    (arithmetic, exponents@[j], total),
                    #[trigger] weights@[j],
                ),
        decreases exponents@.len() - n,
    {
        weights.push(arithmetic.divide(exponents[n], total));
        n += 1;
    }
    Some(weights)
}

/// The weighted sum of value rows.
fn mix<T: Copy, A: Arithmetic<T>>(
    arithmetic: &A,
    weights: &Vec<T>,
    values: &Vec<T>,
    first: usize,
    width: usize,
    Ghost(rows): Ghost<Seq<Seq<T>>>,
) -> (out: Vec<T>)
    requires
        width > 0,
        rows.len() == weights@.len(),
        (first + rows.len()) * width <= values@.len(),
        forall|k: int|
            0 <= k < rows.len() ==> #[trigger] rows[k] == matrix::row_of(
                values@,
                width as int,
                first + k,
            ),
    ensures
        out@.len() == width,
        forall|place: int|
            0 <= place < width ==> matrix::dot_product(
                arithmetic,
                weights@,
                place_of(rows, place),
                rows.len(),
                #[trigger] out@[place],
            ),
{
    let total: usize = values.len();
    let zero = arithmetic.zero();
    let mut out: Vec<T> = Vec::new();
    let mut filled: usize = 0;
    while filled < width
        invariant
            filled <= width,
            out@.len() == filled,
            forall|i: int| 0 <= i < filled ==> #[trigger] out@[i] == zero,
        decreases width - filled,
    {
        out.push(zero);
        filled += 1;
    }
    let mut k: usize = 0;
    while k < weights.len()
        invariant
            k <= weights@.len(),
            width > 0,
            total == values@.len(),
            rows.len() == weights@.len(),
            (first + rows.len()) * width <= total,
            forall|k: int|
                0 <= k < rows.len() ==> #[trigger] rows[k] == matrix::row_of(
                    values@,
                    width as int,
                    first + k,
                ),
            out@.len() == width,
            forall|place: int|
                0 <= place < width ==> matrix::dot_product(
                    arithmetic,
                    weights@,
                    place_of(rows, place),
                    k as nat,
                    #[trigger] out@[place],
                ),
        decreases weights@.len() - k,
    {
        let weight = weights[k];
        let ghost start = (first + k) * width;
        proof {
            assert(start + width <= (first + rows.len()) * width) by (nonlinear_arith)
                requires
                    start == (first + k) * width,
                    k + 1 <= rows.len(),
                    width > 0,
            ;
            assert(0 <= start) by (nonlinear_arith)
                requires
                    start == (first + k) * width,
                    0 <= first + k,
                    width > 0,
            ;
            assert(first + k <= start) by (nonlinear_arith)
                requires
                    start == (first + k) * width,
                    0 <= first + k,
                    width > 0,
            ;
        }
        let row: usize = first + k;
        let at: usize = row * width;
        let mut place: usize = 0;
        while place < width
            invariant
                place <= width,
                k < weights@.len(),
                weight == weights@[k as int],
                row == first + k,
                at == row * width,
                at + width <= total,
                total == values@.len(),
                rows.len() == weights@.len(),
                rows[k as int] == matrix::row_of(values@, width as int, row as int),
                out@.len() == width,
                forall|p: int|
                    0 <= p < width ==> matrix::dot_product(
                        arithmetic,
                        weights@,
                        place_of(rows, p),
                        if p < place {
                            (k + 1) as nat
                        } else {
                            k as nat
                        },
                        #[trigger] out@[p],
                    ),
            decreases width - place,
        {
            let product = arithmetic.multiply(weight, values[at + place]);
            let before = out[place];
            let after = arithmetic.add(before, product);
            proof {
                let column = place_of(rows, place as int);
                assert(column[k as int] == values@[at + place]);
                matrix::lemma_dot_step(
                    arithmetic,
                    weights@,
                    column,
                    k as nat,
                    before,
                    product,
                    after,
                );
            }
            out.set(place, after);
            place += 1;
        }
        k += 1;
    }
    out
}

/// The attention of one query row, if it has any.
fn attend_row<T: Copy, A: Arithmetic<T>>(
    arithmetic: &A,
    queries: &Vec<T>,
    row: usize,
    width: usize,
    keys: &Vec<T>,
    values: &Vec<T>,
    value_width: usize,
    first: usize,
    count: usize,
    scale: T,
) -> (out: Option<Vec<T>>)
    requires
        width > 0,
        value_width > 0,
        row * width + width <= queries@.len(),
        (first + count) * width <= keys@.len(),
        (first + count) * value_width <= values@.len(),
    ensures
        match out {
            Some(out) => {
                &&& out@.len() == value_width
                &&& row_attended(
                    arithmetic,
                    matrix::row_of(queries@, width as int, row as int),
                    rows_from(keys@, width as int, first as int, count as int),
                    rows_from(values@, value_width as int, first as int, count as int),
                    scale,
                    out@,
                )
            },
            None => row_fails(
                arithmetic,
                matrix::row_of(queries@, width as int, row as int),
                rows_from(keys@, width as int, first as int, count as int),
                scale,
            ),
        },
{
    assert(queries.len() == queries@.len());
    let key_len: usize = keys.len();
    let ghost query = matrix::row_of(queries@, width as int, row as int);
    let ghost key_rows = rows_from(keys@, width as int, first as int, count as int);
    proof {
        lemma_row(queries@, width as int, row as int);
    }
    let query_start: usize = row * width;
    let mut scores: Vec<T> = Vec::new();
    let mut maximum = arithmetic.lowest();
    let mut k: usize = 0;
    while k < count
        invariant
            k <= count,
            width > 0,
            key_len == keys@.len(),
            (first + count) * width <= key_len,
            query_start + width <= queries@.len(),
            query == queries@.subrange(query_start as int, query_start + width),
            query == matrix::row_of(queries@, width as int, row as int),
            key_rows == rows_from(keys@, width as int, first as int, count as int),
            scores@.len() == k,
            scores_of(arithmetic, query, key_rows, scale, scores@),
            dense::finite_before(arithmetic, scores@, k as int),
            rows::maximum_of(arithmetic, scores@, k as nat, maximum),
        decreases count - k,
    {
        proof {
            assert((first + k) * width + width <= (first + count) * width) by (nonlinear_arith)
                requires
                    k + 1 <= count,
                    width > 0,
            ;
            lemma_row(keys@, width as int, first + k);
            assert(first + k <= (first + k) * width) by (nonlinear_arith)
                requires
                    width > 0,
            ;
        }
        let at: usize = first + k;
        let start: usize = at * width;
        let dot = multiply_rows(arithmetic, queries, query_start, keys, start, width);
        let score = arithmetic.multiply(dot, scale);
        let ghost before = scores@;
        assert(key_rows[k as int] == keys@.subrange(start as int, start + width));
        assert(score_of(arithmetic, query, key_rows[k as int], scale, score));
        scores.push(score);
        assert(scores_of(arithmetic, query, key_rows, scale, scores@));
        if !arithmetic.is_finite(score) {
            assert(dense::first_not_finite(arithmetic, scores@, scores@.len() - 1));
            return None;
        }
        let next = arithmetic.maximum(maximum, score);
        proof {
            lemma_maximum_extends(arithmetic, before, scores@, k as nat, maximum);
            assert(rows::maximum_of(arithmetic, scores@, (k + 1) as nat, next));
        }
        maximum = next;
        k += 1;
    }
    match share(arithmetic, &scores, maximum) {
        None => None,
        Some(weights) => {
            let ghost value_rows = rows_from(
                values@,
                value_width as int,
                first as int,
                count as int,
            );
            let out = mix(arithmetic, &weights, values, first, value_width, Ghost(value_rows));
            assert(row_attended(arithmetic, query, key_rows, value_rows, scale, out@));
            Some(out)
        },
    }
}

/// The largest of some values does not depend on what follows them.
proof fn lemma_maximum_extends<T, A: Arithmetic<T>>(
    arithmetic: &A,
    before: Seq<T>,
    after: Seq<T>,
    count: nat,
    maximum: T,
)
    requires
        count <= before.len(),
        before.is_prefix_of(after),
        rows::maximum_of(arithmetic, before, count, maximum),
    ensures
        rows::maximum_of(arithmetic, after, count, maximum),
    decreases count,
{
    if count > 0 {
        assert(before[count - 1] == after[count - 1]);
        let less = choose|less: T|
            {
                &&& rows::maximum_of(arithmetic, before, (count - 1) as nat, less)
                &&& #[trigger] call_ensures(
                    A::maximum,
                    (arithmetic, less, before[count - 1]),
                    maximum,
                )
            };
        lemma_maximum_extends(arithmetic, before, after, (count - 1) as nat, less);
    }
}

/// What a query row reads lies inside the keys and the values.
pub(crate) proof fn lemma_key_rows(queries: Seq<usize>, keys: Seq<usize>, causal: bool, row: int)
    requires
        queries.len() == 4,
        keys.len() == 4,
        shape::nonzero(queries),
        shape::nonzero(keys),
        queries[0] == keys[0],
        queries[1] % keys[1] == 0,
        queries[2] <= keys[2],
        0 <= row < query_rows(queries),
    ensures
        queries[1] * queries[2] > 0,
        queries[1] / keys[1] > 0,
        0 <= row / (queries[1] * queries[2]) < keys[0],
        0 <= (row / queries[2] as int) % queries[1] as int / (queries[1] as int / keys[1] as int)
            < keys[1],
        0 <= key_start(queries, keys, row),
        0 < keys_read(queries, keys, causal, row) <= keys[2],
        key_start(queries, keys, row) + keys_read(queries, keys, causal, row) <= keys[0] * keys[1]
            * keys[2],
{
    assert(queries.contains(queries[0]) && queries.contains(queries[1]) && queries.contains(
        queries[2],
    ));
    assert(keys.contains(keys[0]) && keys.contains(keys[1]) && keys.contains(keys[2]));
    let heads = queries[1] as int;
    let length = queries[2] as int;
    let key_heads = keys[1] as int;
    let key_length = keys[2] as int;
    let batches = keys[0] as int;
    let batch = row / (heads * length);
    let head = (row / length) % heads;
    let repeats = heads / key_heads;
    assert(heads * length > 0) by (nonlinear_arith)
        requires
            heads > 0,
            length > 0,
    ;
    assert(0 <= batch < batches) by (nonlinear_arith)
        requires
            batch == row / (heads * length),
            heads * length > 0,
            0 <= row < batches * heads * length,
    ;
    assert(heads == repeats * key_heads && repeats > 0) by (nonlinear_arith)
        requires
            repeats == heads / key_heads,
            heads % key_heads == 0,
            heads > 0,
            key_heads > 0,
    ;
    let key_head = head / repeats;
    assert(0 <= head < heads) by (nonlinear_arith)
        requires
            head == (row / length) % heads,
            heads > 0,
    ;
    assert(0 <= key_head < key_heads) by (nonlinear_arith)
        requires
            key_head == head / repeats,
            0 <= head < repeats * key_heads,
            repeats > 0,
    ;
    let base = batch * key_heads + key_head;
    dense::lemma_inside(batch, key_head, batches, key_heads);
    assert(base * key_length + key_length <= batches * key_heads * key_length) by (nonlinear_arith)
        requires
            base + 1 <= batches * key_heads,
            key_length > 0,
    ;
    assert(0 <= base * key_length) by (nonlinear_arith)
        requires
            0 <= base,
            key_length > 0,
    ;
    assert(0 <= row % length < length);
}

/// A tensor of rank four has as many values as rows times their width.
pub(crate) proof fn lemma_row_total(shape: Seq<usize>)
    requires
        shape.len() == 4,
        shape::nonzero(shape),
    ensures
        shape::element_count_of(shape) == query_rows(shape) * shape[3],
        query_rows(shape) > 0,
        shape[3] > 0,
        query_rows(shape) <= shape::element_count_of(shape),
{
    reveal_with_fuel(shape::element_count_of, 5);
    let three = shape.drop_last();
    let two = three.drop_last();
    let one = two.drop_last();
    assert(one.drop_last() =~= seq![]);
    assert(one.last() == shape[0] && two.last() == shape[1] && three.last() == shape[2]);
    assert(1 * shape[0] as nat == shape[0]);
    shape::lemma_nonzero_drop_last(shape);
    shape::lemma_element_count_positive(three);
    let rows = query_rows(shape);
    let width = shape[3] as int;
    assert(rows <= rows * width) by (nonlinear_arith)
        requires
            rows > 0,
            width > 0,
    ;
}

/// How queries, keys and values that go together are answered.
pub open spec fn attention_answer<T, A: Arithmetic<T>>(
    arithmetic: &A,
    queries: Contents<T>,
    keys: Contents<T>,
    values: Contents<T>,
    scale: T,
    causal: bool,
    answer: Result<Contents<T>, TensorFault>,
) -> bool {
    let shape = seq![queries.shape[0], queries.shape[1], queries.shape[2], values.shape[3]];
    if shape::element_count_of(shape) > usize::MAX {
        answer == Err::<Contents<T>, TensorFault>(TensorFault::ElementCountOverflow)
    } else {
        ||| exists|row: int| #[trigger]
            attention_stops(arithmetic, queries, keys, values, scale, causal, row) && answer
                == Err::<Contents<T>, TensorFault>(
                TensorFault::NonFiniteOutput {
                    operation: "scaled_dot_product_attention"@,
                    index: (row * queries.shape[3]) as nat,
                },
            )
        ||| exists|data: Seq<T>| #[trigger]
            rows_attended(
                arithmetic,
                queries,
                keys,
                values,
                scale,
                causal,
                data,
                query_rows(queries.shape),
            ) && dense::checked(
                arithmetic,
                shape,
                data,
                "scaled_dot_product_attention"@,
                answer,
            )
    }
}

/// The first of the inputs that are not finite is reported.
pub open spec fn inputs_refused<T, A: Arithmetic<T>>(
    arithmetic: &A,
    queries: Contents<T>,
    keys: Contents<T>,
    values: Contents<T>,
    fault: TensorFault,
) -> bool {
    ||| dense::inputs_checked(arithmetic, queries.data, Some(fault))
    ||| {
        &&& dense::inputs_checked(arithmetic, queries.data, None)
        &&& dense::inputs_checked(arithmetic, keys.data, Some(fault))
    }
    ||| {
        &&& dense::inputs_checked(arithmetic, queries.data, None)
        &&& dense::inputs_checked(arithmetic, keys.data, None)
        &&& dense::inputs_checked(arithmetic, values.data, Some(fault))
    }
}

impl<T: Copy> Tensor<T> {
    /// Applies scaled dot-product attention: `self` holds the queries, each
    /// tensor has the dimensions batch, head, position and feature.
    ///
    /// Query heads may be grouped over fewer key and value heads. If `causal`,
    /// a query reads keys up to its own position, counted from the end of the
    /// keys.
    pub fn scaled_dot_product_attention<A: Arithmetic<T>>(
        &self,
        keys: &Self,
        values: &Self,
        scale: T,
        causal: bool,
        arithmetic: &A,
    ) -> (result: Result<Self, TensorError>)
        ensures
            ({
                ||| {
                    &&& call_ensures(A::is_finite, (arithmetic, scale), false)
                    &&& dense::answer_of(result) == Err::<Contents<T>, TensorFault>(
                        TensorFault::InvalidScale,
                    )
                }
                ||| {
                    &&& call_ensures(A::is_finite, (arithmetic, scale), true)
                    &&& !attention_fits(self@.shape, keys@.shape, values@.shape)
                    &&& dense::answer_of(result) == Err::<Contents<T>, TensorFault>(
                        TensorFault::AttentionShapeMismatch {
                            queries: self@.shape,
                            keys: keys@.shape,
                            values: values@.shape,
                        },
                    )
                }
                ||| {
                    &&& call_ensures(A::is_finite, (arithmetic, scale), true)
                    &&& attention_fits(self@.shape, keys@.shape, values@.shape)
                    &&& exists|fault: TensorFault| #[trigger]
                        inputs_refused(arithmetic, self@, keys@, values@, fault)
                            && dense::answer_of(result) == Err::<Contents<T>, TensorFault>(fault)
                }
                ||| {
                    &&& call_ensures(A::is_finite, (arithmetic, scale), true)
                    &&& attention_fits(self@.shape, keys@.shape, values@.shape)
                    &&& dense::inputs_checked(arithmetic, self@.data, None)
                    &&& dense::inputs_checked(arithmetic, keys@.data, None)
                    &&& dense::inputs_checked(arithmetic, values@.data, None)
                    &&& attention_answer(
                        arithmetic,
                        self@,
                        keys@,
                        values@,
                        scale,
                        causal,
                        dense::answer_of(result),
                    )
                }
            }),
    {
        if !arithmetic.is_finite(scale) {
            return Err(TensorError::InvalidScale);
        }
        if !shapes_fit(self.dimensions(), keys.dimensions(), values.dimensions()) {
            return Err(
                TensorError::AttentionShapeMismatch {
                    queries: dense::copy_shape(self.dimensions()),
                    keys: dense::copy_shape(keys.dimensions()),
                    values: dense::copy_shape(values.dimensions()),
                },
            );
        }
        if let Err(error) = self.validate_finite(arithmetic) {
            assert(inputs_refused(arithmetic, self@, keys@, values@, error@));
            return Err(error);
        }
        if let Err(error) = keys.validate_finite(arithmetic) {
            assert(inputs_refused(arithmetic, self@, keys@, values@, error@));
            return Err(error);
        }
        if let Err(error) = values.validate_finite(arithmetic) {
            assert(inputs_refused(arithmetic, self@, keys@, values@, error@));
            return Err(error);
        }
        attend(arithmetic, self, keys, values, scale, causal)
    }
}

/// Tests whether queries, keys and values go together.
fn shapes_fit(queries: &Vec<usize>, keys: &Vec<usize>, values: &Vec<usize>) -> (fit: bool)
    requires
        shape::nonzero(queries@),
        shape::nonzero(keys@),
        shape::nonzero(values@),
    ensures
        fit == attention_fits(queries@, keys@, values@),
{
    if queries.len() != 4 || keys.len() != 4 || values.len() != 4 {
        return false;
    }
    assert(keys@.contains(keys@[1]));
    queries[0] == keys[0] && queries[0] == values[0] && queries[3] == keys[3] && keys[1]
        == values[1] && keys[2] == values[2] && queries[1] % keys[1] == 0 && queries[2] <= keys[2]
}

/// A row that is appended leaves those before it as they are.
proof fn lemma_row_appended<T>(data: Seq<T>, out: Seq<T>, width: int, count: int)
    requires
        width > 0,
        count >= 0,
        data.len() == count * width,
        out.len() == width,
    ensures
        (data + out).len() == (count + 1) * width,
        matrix::row_of(data + out, width, count) == out,
        forall|row: int|
            0 <= row < count ==> #[trigger] matrix::row_of(data + out, width, row)
                == matrix::row_of(data, width, row),
{
    assert((count + 1) * width == count * width + width) by (nonlinear_arith);
    assert(matrix::row_of(data + out, width, count) =~= out);
    assert forall|row: int| 0 <= row < count implies #[trigger] matrix::row_of(
        data + out,
        width,
        row,
    ) == matrix::row_of(data, width, row) by {
        assert(row * width + width <= count * width && 0 <= row * width) by (nonlinear_arith)
            requires
                0 <= row < count,
                width > 0,
        ;
        assert(matrix::row_of(data + out, width, row) =~= matrix::row_of(data, width, row));
    }
}

/// The attention of queries, keys and values that go together.
fn attend<T: Copy, A: Arithmetic<T>>(
    arithmetic: &A,
    queries: &Tensor<T>,
    keys: &Tensor<T>,
    values: &Tensor<T>,
    scale: T,
    causal: bool,
) -> (result: Result<Tensor<T>, TensorError>)
    requires
        attention_fits(queries@.shape, keys@.shape, values@.shape),
    ensures
        attention_answer(
            arithmetic,
            queries@,
            keys@,
            values@,
            scale,
            causal,
            dense::answer_of(result),
        ),
{
    let query_shape = queries.dimensions();
    let key_shape = keys.dimensions();
    let value_shape = values.dimensions();
    let query_data = queries.values();
    let key_data = keys.values();
    let value_data = values.values();
    let query_len: usize = query_data.len();
    let key_len: usize = key_data.len();
    let value_len: usize = value_data.len();
    proof {
        lemma_row_total(queries@.shape);
        lemma_row_total(keys@.shape);
        lemma_row_total(values@.shape);
        assert(queries@.shape.contains(queries@.shape[0]));
        assert(queries@.shape.contains(queries@.shape[1]));
        assert(queries@.shape.contains(queries@.shape[2]));
    }
    let batches: usize = query_shape[0];
    let heads: usize = query_shape[1];
    let length: usize = query_shape[2];
    let width: usize = query_shape[3];
    let key_heads: usize = key_shape[1];
    let key_length: usize = key_shape[2];
    let value_width: usize = value_shape[3];
    let mut shape: Vec<usize> = Vec::new();
    shape.push(batches);
    shape.push(heads);
    shape.push(length);
    shape.push(value_width);
    let ghost expected = seq![
        queries@.shape[0],
        queries@.shape[1],
        queries@.shape[2],
        values@.shape[3],
    ];
    assert(shape@ =~= expected);
    assert(shape::nonzero(shape@));
    if let Err(error) = shape::element_count(shape.as_slice()) {
        return Err(error);
    }
    proof {
        lemma_row_total(shape@);
    }
    let ghost total = query_rows(queries@.shape);
    proof {
        assert(0 < heads * length <= batches * heads * length && batches * heads <= batches * heads
            * length) by (nonlinear_arith)
            requires
                batches > 0,
                heads > 0,
                length > 0,
        ;
    }
    let rows: usize = query_len / width;
    proof {
        vstd::arithmetic::div_mod::lemma_div_multiples_vanish(total, width as int);
        vstd::arithmetic::mul::lemma_mul_is_commutative(total, width as int);
        assert(rows == total);
    }
    let plane: usize = heads * length;
    let repeats: usize = heads / key_heads;
    let mut data: Vec<T> = Vec::new();
    let mut row: usize = 0;
    while row < rows
        invariant
            row <= rows,
            rows == total,
            expected == seq![
                queries@.shape[0],
                queries@.shape[1],
                queries@.shape[2],
                values@.shape[3],
            ],
            shape::element_count_of(expected) <= usize::MAX,
            total == query_rows(queries@.shape),
            attention_fits(queries@.shape, keys@.shape, values@.shape),
            dense::valid_contents(queries@),
            dense::valid_contents(keys@),
            dense::valid_contents(values@),
            query_data@ == queries@.data,
            key_data@ == keys@.data,
            value_data@ == values@.data,
            query_len == query_data@.len(),
            key_len == key_data@.len(),
            value_len == value_data@.len(),
            heads == queries@.shape[1],
            length == queries@.shape[2],
            width == queries@.shape[3],
            key_heads == keys@.shape[1],
            key_length == keys@.shape[2],
            value_width == values@.shape[3],
            length > 0,
            width > 0,
            value_width > 0,
            plane == heads * length,
            repeats == heads / key_heads,
            rows_attended(
                arithmetic,
                queries@,
                keys@,
                values@,
                scale,
                causal,
                data@,
                row as int,
            ),
        decreases rows - row,
    {
        let ghost start = key_start(queries@.shape, keys@.shape, row as int);
        let ghost reads = keys_read(queries@.shape, keys@.shape, causal, row as int);
        proof {
            lemma_key_rows(queries@.shape, keys@.shape, causal, row as int);
            lemma_row_total(queries@.shape);
            lemma_row_total(keys@.shape);
            lemma_row_total(values@.shape);
            lemma_reach(
                row as int / plane as int,
                (row as int / length as int) % heads as int / repeats as int,
                keys@.shape[0] as int,
                key_heads as int,
                key_length as int,
                query_rows(keys@.shape),
            );
        }
        let batch: usize = row / plane;
        let key_head: usize = (row / length) % heads / repeats;
        let first: usize = (batch * key_heads + key_head) * key_length;
        let read: usize = if causal {
            key_length - length + row % length + 1
        } else {
            key_length
        };
        proof {
            assert(first == start);
            assert(read == reads);
            let key_rows = query_rows(keys@.shape);
            assert((first + read) * width <= key_rows * width) by (nonlinear_arith)
                requires
                    first + read <= key_rows,
                    width > 0,
            ;
            assert((first + read) * value_width <= key_rows * value_width) by (nonlinear_arith)
                requires
                    first + read <= key_rows,
                    value_width > 0,
            ;
            assert(row * width + width <= total * width) by (nonlinear_arith)
                requires
                    row + 1 <= total,
                    width > 0,
            ;
            assert(0 <= row * width) by (nonlinear_arith)
                requires
                    0 <= row,
                    width > 0,
            ;
        }
        match attend_row(
            arithmetic,
            query_data,
            row,
            width,
            key_data,
            value_data,
            value_width,
            first,
            read,
            scale,
        ) {
            None => {
                assert(attention_stops(
                    arithmetic,
                    queries@,
                    keys@,
                    values@,
                    scale,
                    causal,
                    row as int,
                ));
                return Err(
                    TensorError::NonFiniteOutput {
                        operation: "scaled_dot_product_attention",
                        index: row * width,
                    },
                );
            },
            Some(out) => {
                let mut out = out;
                let ghost before = data@;
                let ghost added = out@;
                data.append(&mut out);
                proof {
                    lemma_row_appended(before, added, value_width as int, row as int);
                    assert(data@ =~= before + added);
                }
            },
        }
        row += 1;
    }
    assert(data@.len() == total * value_width);
    dense::checked_output(arithmetic, shape, data, "scaled_dot_product_attention")
}

/// The place of a head lies inside the places of all heads.
proof fn lemma_reach(
    batch: int,
    head: int,
    batches: int,
    heads: int,
    length: int,
    rows: int,
)
    requires
        0 <= batch < batches,
        0 <= head < heads,
        0 < length,
        rows == batches * heads * length,
    ensures
        0 <= batch * heads,
        batch * heads + head <= rows,
        0 <= (batch * heads + head) * length <= rows,
{
    dense::lemma_inside(batch, head, batches, heads);
    let base = batch * heads + head;
    assert(base <= base * length && base * length <= rows) by (nonlinear_arith)
        requires
            0 <= base < batches * heads,
            0 < length,
            rows == batches * heads * length,
    ;
}

} // verus!
