//! How blocks of weights are written, and that the weights read from them are
//! those that were written.

use vstd::prelude::*;

use crate::bytes;
use crate::model::blocks;
use crate::model::half;
use crate::model::term::Term;
use crate::tensor::dense;

verus! {

/// A number of two bytes, the lower one first.
pub open spec fn pair_bytes(number: u16) -> Seq<u8> {
    seq![(number % 256) as u8, (number / 256) as u8]
}

/// A number of four bytes, the lowest one first.
pub open spec fn word_bytes(number: u32) -> Seq<u8> {
    seq![
        (number % 256) as u8,
        ((number / 256) % 256) as u8,
        ((number / 65_536) % 256) as u8,
        (number / 16_777_216) as u8,
    ]
}

/// Two numbers of four bits in each byte: a byte's upper number comes `stride`
/// numbers behind its lower one.
#[verifier::opaque]
pub open spec fn nibbles(values: Seq<u8>, stride: int) -> Seq<u8> {
    Seq::new(
        values.len() / 2,
        |j: int|
            {
                let first = (j / stride) * (2 * stride) + j % stride;
                (values[first] + 16 * values[first + stride]) as u8
            },
    )
}

/// Four numbers of two bits in each byte, `stride` numbers apart.
#[verifier::opaque]
pub open spec fn quarters(values: Seq<u8>, stride: int) -> Seq<u8> {
    Seq::new(
        values.len() / 4,
        |j: int|
            {
                let first = (j / stride) * (4 * stride) + j % stride;
                (values[first] + 4 * values[first + stride] + 16 * values[first + 2 * stride] + 64
                    * values[first + 3 * stride]) as u8
            },
    )
}

/// Eight numbers of one bit in each byte, `stride` numbers apart.
#[verifier::opaque]
pub open spec fn single_bits(values: Seq<u8>, stride: int) -> Seq<u8> {
    Seq::new(
        values.len() / 8,
        |j: int|
            {
                let first = (j / stride) * (8 * stride) + j % stride;
                (values[first] + 2 * values[first + stride] + 4 * values[first + 2 * stride] + 8
                    * values[first + 3 * stride] + 16 * values[first + 4 * stride] + 32
                    * values[first + 5 * stride] + 64 * values[first + 6 * stride] + 128
                    * values[first + 7 * stride]) as u8
            },
    )
}

/// A signed number in one byte.
#[verifier::opaque]
pub open spec fn signed_bytes(values: Seq<i8>) -> Seq<u8> {
    Seq::new(
        values.len(),
        |j: int|
            if values[j] >= 0 {
                values[j] as u8
            } else {
                (256 + values[j]) as u8
            },
    )
}

/// `count` numbers below a bound.
pub open spec fn numbers_below(values: Seq<u8>, count: nat, bound: int) -> bool {
    &&& values.len() == count
    &&& forall|i: int| 0 <= i < count ==> #[trigger] values[i] < bound
}

/// The remainders of numbers.
#[verifier::opaque]
pub open spec fn lower_parts(values: Seq<u8>, base: int) -> Seq<u8> {
    Seq::new(values.len(), |i: int| (values[i] as int % base) as u8)
}

/// The quotients of numbers.
#[verifier::opaque]
pub open spec fn upper_parts(values: Seq<u8>, base: int) -> Seq<u8> {
    Seq::new(values.len(), |i: int| (values[i] as int / base) as u8)
}

/// Block number `number` of some blocks of equal length.
pub open spec fn stands(data: Seq<u8>, number: int, block: Seq<u8>) -> bool {
    let start = number * block.len();
    &&& 0 <= number
    &&& start + block.len() <= data.len()
    &&& data.subrange(start, start + block.len()) == block
}

proof fn lemma_place(data: Seq<u8>, number: int, block: Seq<u8>, k: int)
    requires
        stands(data, number, block),
        0 <= k < block.len(),
    ensures
        data[number * block.len() + k] == block[k],
{
    let start = number * block.len();
    assert(data.subrange(start, start + block.len())[k] == data[start + k]);
}

proof fn lemma_pair(number: u16)
    ensures
        pair_bytes(number)[0] + 256 * pair_bytes(number)[1] == number,
        pair_bytes(number).len() == 2,
{
}

proof fn lemma_half(data: Seq<u8>, at: int, number: u16)
    requires
        data[at] == pair_bytes(number)[0],
        data[at + 1] == pair_bytes(number)[1],
    ensures
        blocks::half_at(data, at) == half::single_of(number) as u32,
{
    lemma_pair(number);
}

/// Number `chunk * stride + lane` of the bytes holds numbers `lane`, `stride`
/// apart, of chunk `chunk`.
proof fn lemma_byte(chunk: int, lane: int, stride: int, per: int, length: int)
    requires
        0 <= chunk,
        0 <= lane < stride,
        0 < per,
        (chunk + 1) * (per * stride) <= length,
    ensures
        0 <= chunk * stride + lane,
        (chunk * stride + lane) / stride == chunk,
        (chunk * stride + lane) % stride == lane,
        chunk * stride + lane < length / per,
        0 <= chunk * (per * stride),
        chunk * (per * stride) + (per * stride) <= length,
{
    dense::lemma_split(chunk, lane, stride);
    assert(0 <= chunk * stride && 0 <= chunk * (per * stride)) by (nonlinear_arith)
        requires
            0 <= chunk,
            0 < stride,
            0 < per,
    ;
    assert((chunk + 1) * (per * stride) == per * ((chunk + 1) * stride)) by (nonlinear_arith);
    assert((chunk + 1) * stride == chunk * stride + stride) by (nonlinear_arith);
    assert((chunk + 1) * (per * stride) == chunk * (per * stride) + per * stride)
        by (nonlinear_arith);
    let end = (chunk + 1) * stride;
    assert(end <= length / per) by (nonlinear_arith)
        requires
            per * end <= length,
            per > 0,
    ;
}

proof fn lemma_nibbles(values: Seq<u8>, stride: int, chunk: int, field: int, lane: int)
    requires
        numbers_below(values, values.len(), 16),
        0 <= chunk,
        0 <= field < 2,
        0 <= lane < stride,
        (chunk + 1) * (2 * stride) <= values.len(),
    ensures
        nibbles(values, stride).len() == values.len() / 2,
        0 <= chunk * stride + lane < values.len() / 2,
        blocks::nibble(nibbles(values, stride)[chunk * stride + lane], field == 1)
            == values[chunk * (2 * stride) + field * stride + lane],
{
    reveal(nibbles);
    lemma_byte(chunk, lane, stride, 2, values.len() as int);
    let first = chunk * (2 * stride) + lane;
    let low = values[first];
    let high = values[first + stride];
    assert(low < 16 && high < 16);
    assert(nibbles(values, stride)[chunk * stride + lane] == low + 16 * high);
    assert(0 * stride == 0 && 1 * stride == stride);
}

proof fn lemma_quarters(values: Seq<u8>, stride: int, chunk: int, field: int, lane: int)
    requires
        numbers_below(values, values.len(), 4),
        0 <= chunk,
        0 <= field < 4,
        0 <= lane < stride,
        (chunk + 1) * (4 * stride) <= values.len(),
    ensures
        quarters(values, stride).len() == values.len() / 4,
        0 <= chunk * stride + lane < values.len() / 4,
        blocks::bit_pair(quarters(values, stride)[chunk * stride + lane], field * 2)
            == values[chunk * (4 * stride) + field * stride + lane],
{
    reveal(quarters);
    lemma_byte(chunk, lane, stride, 4, values.len() as int);
    let first = chunk * (4 * stride) + lane;
    let a = values[first];
    let b = values[first + stride];
    let c = values[first + 2 * stride];
    let d = values[first + 3 * stride];
    assert(a < 4 && b < 4 && c < 4 && d < 4);
    assert(quarters(values, stride)[chunk * stride + lane] == a + 4 * b + 16 * c + 64 * d);
    assert(0 * stride == 0 && 1 * stride == stride);
}

proof fn lemma_single_bits(values: Seq<u8>, stride: int, chunk: int, field: int, lane: int)
    requires
        numbers_below(values, values.len(), 2),
        0 <= chunk,
        0 <= field < 8,
        0 <= lane < stride,
        (chunk + 1) * (8 * stride) <= values.len(),
    ensures
        single_bits(values, stride).len() == values.len() / 8,
        0 <= chunk * stride + lane < values.len() / 8,
        blocks::bit(single_bits(values, stride)[chunk * stride + lane], field)
            == values[chunk * (8 * stride) + field * stride + lane],
{
    reveal(single_bits);
    lemma_byte(chunk, lane, stride, 8, values.len() as int);
    let first = chunk * (8 * stride) + lane;
    let a = values[first];
    let b = values[first + stride];
    let c = values[first + 2 * stride];
    let d = values[first + 3 * stride];
    let e = values[first + 4 * stride];
    let f = values[first + 5 * stride];
    let g = values[first + 6 * stride];
    let h = values[first + 7 * stride];
    assert(a < 2 && b < 2 && c < 2 && d < 2 && e < 2 && f < 2 && g < 2 && h < 2);
    let byte = single_bits(values, stride)[chunk * stride + lane];
    assert(0 * stride == 0 && 1 * stride == stride);
    lemma_sum_of_bits(
        byte,
        (a as int, b as int, c as int, d as int),
        (e as int, f as int, g as int, h as int),
        field,
    );
}

proof fn lemma_sum_of_bits(
    byte: u8,
    low: (int, int, int, int),
    high: (int, int, int, int),
    field: int,
)
    requires
        0 <= low.0 < 2,
        0 <= low.1 < 2,
        0 <= low.2 < 2,
        0 <= low.3 < 2,
        0 <= high.0 < 2,
        0 <= high.1 < 2,
        0 <= high.2 < 2,
        0 <= high.3 < 2,
        byte == low.0 + 2 * low.1 + 4 * low.2 + 8 * low.3 + 16 * high.0 + 32 * high.1 + 64 * high.2
            + 128 * high.3,
        0 <= field < 8,
    ensures
        blocks::bit(byte, field) == if field == 0 {
            low.0
        } else if field == 1 {
            low.1
        } else if field == 2 {
            low.2
        } else if field == 3 {
            low.3
        } else if field == 4 {
            high.0
        } else if field == 5 {
            high.1
        } else if field == 6 {
            high.2
        } else {
            high.3
        },
{
    let (a, b, c, d) = (low.0 as u8, low.1 as u8, low.2 as u8, low.3 as u8);
    let (e, f, g, h) = (high.0 as u8, high.1 as u8, high.2 as u8, high.3 as u8);
    assert(byte % 2 == a && (byte / 2) % 2 == b && (byte / 4) % 2 == c && (byte / 8) % 2 == d
        && (byte / 16) % 2 == e && (byte / 32) % 2 == f && (byte / 64) % 2 == g && (byte / 128) % 2
        == h) by (bit_vector)
        requires
            a < 2,
            b < 2,
            c < 2,
            d < 2,
            e < 2,
            f < 2,
            g < 2,
            h < 2,
            byte == a + 2 * b + 4 * c + 8 * d + 16 * e + 32 * f + 64 * g + 128 * h,
    ;
}

/// Weight number `i` of block number `number`.
proof fn lemma_weight(code: u32, data: Seq<u8>, number: int, i: int, layout: (nat, nat))
    requires
        blocks::layout_of(code) == Some(layout),
        0 <= number,
        0 <= i < layout.0,
    ensures
        blocks::term_at(code, data, number * layout.0 + i) == blocks::block_term(
            code,
            data,
            number * layout.1,
            i,
        ),
{
    dense::lemma_split(number, i, layout.0 as int);
}

/// A block of Q4_0: a half-precision scale, and the weights raised by eight.
pub open spec fn q4_0_block(scale: u16, weights: Seq<u8>) -> Seq<u8> {
    pair_bytes(scale) + nibbles(weights, 16)
}

/// Weights written to a block of Q4_0 are read from it, less eight.
#[verifier::spinoff_prover]
#[verifier::rlimit(40)]
pub proof fn law_q4_0_weights_are_read_back(
    data: Seq<u8>,
    number: int,
    scale: u16,
    weights: Seq<u8>,
    i: int,
)
    requires
        numbers_below(weights, 32, 16),
        stands(data, number, q4_0_block(scale, weights)),
        0 <= i < 32,
    ensures
        q4_0_block(scale, weights).len() == 18,
        blocks::term_at(2, data, number * 32 + i) == (Term::Centered {
            quantized: (weights[i] - 8) as i32,
            scale: half::single_of(scale) as u32,
        }),
{
    let block = q4_0_block(scale, weights);
    let at = number * 18;
    lemma_nibbles(weights, 16, 0, i / 16, i % 16);
    assert(block.len() == 18);
    lemma_place(data, number, block, 0);
    lemma_place(data, number, block, 1);
    lemma_place(data, number, block, 2 + i % 16);
    lemma_half(data, at, scale);
    lemma_weight(2, data, number, i, (32, 18));
    assert(blocks::block_term(2, data, at, i) == blocks::q4_0_at(data, at, i)) by {
        reveal(blocks::block_term);
    }
}

/// The parts of numbers, and that both together make up the numbers.
proof fn lemma_parts(values: Seq<u8>, base: int, bound: int)
    requires
        numbers_below(values, values.len(), base * bound),
        (base == 16 && (bound == 2 || bound == 4)) || (base == 4 && bound == 2),
    ensures
        numbers_below(lower_parts(values, base), values.len(), base),
        numbers_below(upper_parts(values, base), values.len(), bound),
        forall|i: int|
            0 <= i < values.len() ==> (#[trigger] lower_parts(values, base)[i]) + base * upper_parts(
                values,
                base,
            )[i] == values[i],
{
    reveal(lower_parts);
    reveal(upper_parts);
    if base == 16 {
        assert forall|i: int| 0 <= i < values.len() implies (#[trigger] lower_parts(values, 16)[i])
            + 16 * upper_parts(values, 16)[i] == values[i] && lower_parts(values, 16)[i] < 16
            && upper_parts(values, 16)[i] < bound by {
            assert(values[i] < 16 * bound);
        }
        assert forall|i: int| 0 <= i < values.len() implies #[trigger] upper_parts(values, 16)[i]
            < bound by {
            assert(values[i] < 16 * bound);
        }
    } else {
        assert forall|i: int| 0 <= i < values.len() implies (#[trigger] lower_parts(values, 4)[i])
            + 4 * upper_parts(values, 4)[i] == values[i] && lower_parts(values, 4)[i] < 4 by {}
        assert forall|i: int| 0 <= i < values.len() implies #[trigger] upper_parts(values, 4)[i]
            < 2 by {
            assert(values[i] < 4 * bound);
        }
    }
}

proof fn lemma_signed(values: Seq<i8>, i: int)
    requires
        0 <= i < values.len(),
    ensures
        signed_bytes(values).len() == values.len(),
        blocks::signed(signed_bytes(values)[i]) == values[i],
{
    reveal(signed_bytes);
    vstd::arithmetic::power2::lemma2_to64();
}

/// Eight scales and eight minimums of six bits each, in twelve bytes: the upper
/// bits of the second half of each stand above the first half.
#[verifier::opaque]
pub open spec fn six_bit_pairs(scales: Seq<u8>, minimums: Seq<u8>) -> Seq<u8> {
    Seq::new(
        12,
        |j: int|
            if j < 4 {
                (scales[j] + 64 * (scales[j + 4] as int / 16)) as u8
            } else if j < 8 {
                (minimums[j - 4] + 64 * (minimums[j] as int / 16)) as u8
            } else {
                (scales[j - 4] as int % 16 + 16 * (minimums[j - 4] as int % 16)) as u8
            },
    )
}

proof fn lemma_six_bit_pairs(
    data: Seq<u8>,
    at: int,
    scales: Seq<u8>,
    minimums: Seq<u8>,
    group: int,
)
    requires
        numbers_below(scales, 8, 64),
        numbers_below(minimums, 8, 64),
        0 <= group < 8,
        0 <= at,
        at + 12 <= data.len(),
        data.subrange(at, at + 12) == six_bit_pairs(scales, minimums),
    ensures
        blocks::k_scale(data, at, group) == scales[group],
        blocks::k_minimum(data, at, group) == minimums[group],
{
    let part = data.subrange(at, at + 12);
    assert(part[group + 4] == data[at + group + 4]);
    assert(part[group] == data[at + group]);
    if group < 4 {
        lemma_six_bits(scales, minimums, group);
    } else {
        assert(part[group - 4] == data[at + group - 4]);
        lemma_six_bits(scales, minimums, group - 4);
        lemma_six_bits(scales, minimums, group);
    }
}

/// What the bytes of six-bit numbers hold.
proof fn lemma_six_bits(scales: Seq<u8>, minimums: Seq<u8>, group: int)
    requires
        numbers_below(scales, 8, 64),
        numbers_below(minimums, 8, 64),
        0 <= group < 8,
    ensures
        ({
            let packed = six_bit_pairs(scales, minimums);
            if group < 4 {
                &&& packed[group] as int % 64 == scales[group]
                &&& packed[group] as int / 64 == scales[group + 4] as int / 16
                &&& packed[group + 4] as int % 64 == minimums[group]
                &&& packed[group + 4] as int / 64 == minimums[group + 4] as int / 16
            } else {
                &&& packed[group + 4] as int % 16 == scales[group] as int % 16
                &&& packed[group + 4] as int / 16 == minimums[group] as int % 16
            }
        }),
{
    reveal(six_bit_pairs);
    assert(scales[group] < 64 && minimums[group] < 64);
    if group < 4 {
        assert(scales[group + 4] < 64 && minimums[group + 4] < 64);
        let a = scales[group] as int;
        let b = scales[group + 4] as int / 16;
        let c = minimums[group] as int;
        let d = minimums[group + 4] as int / 16;
        assert(six_bit_pairs(scales, minimums)[group] == a + 64 * b);
        assert(six_bit_pairs(scales, minimums)[group + 4] == c + 64 * d);
    } else {
        let a = scales[group] as int % 16;
        let b = minimums[group] as int % 16;
        assert(six_bit_pairs(scales, minimums)[group + 4] == a + 16 * b);
    }
}

proof fn lemma_word(data: Seq<u8>, at: int, number: u32)
    requires
        0 <= at,
        at + 4 <= data.len(),
        data[at] == word_bytes(number)[0],
        data[at + 1] == word_bytes(number)[1],
        data[at + 2] == word_bytes(number)[2],
        data[at + 3] == word_bytes(number)[3],
    ensures
        bytes::le_value(data.subrange(at, at + 4)) == number,
{
    let part = data.subrange(at, at + 4);
    assert(part =~= word_bytes(number));
    reveal_with_fuel(bytes::le_value, 5);
    let one = part.drop_first();
    let two = one.drop_first();
    let three = two.drop_first();
    assert(one[0] == part[1] && two[0] == part[2] && three[0] == part[3]);
    assert(three.drop_first() =~= seq![]);
}

/// A block of Q4_1: a half-precision scale and minimum, and the weights.
pub open spec fn q4_1_block(scale: u16, minimum: u16, weights: Seq<u8>) -> Seq<u8> {
    pair_bytes(scale) + pair_bytes(minimum) + nibbles(weights, 16)
}

/// Weights written to a block of Q4_1 are read from it.
#[verifier::spinoff_prover]
#[verifier::rlimit(40)]
pub proof fn law_q4_1_weights_are_read_back(
    data: Seq<u8>,
    number: int,
    scale: u16,
    minimum: u16,
    weights: Seq<u8>,
    i: int,
)
    requires
        numbers_below(weights, 32, 16),
        stands(data, number, q4_1_block(scale, minimum, weights)),
        0 <= i < 32,
    ensures
        q4_1_block(scale, minimum, weights).len() == 20,
        blocks::term_at(3, data, number * 32 + i) == (Term::Raised {
            scale: half::single_of(scale) as u32,
            quantized: weights[i] as i32,
            minimum: half::single_of(minimum) as u32,
        }),
{
    let block = q4_1_block(scale, minimum, weights);
    let at = number * 20;
    lemma_nibbles(weights, 16, 0, i / 16, i % 16);
    assert(block.len() == 20);
    lemma_place(data, number, block, 0);
    assert(block[0] == pair_bytes(scale)[0]);
    lemma_place(data, number, block, 1);
    assert(block[1] == pair_bytes(scale)[1]);
    lemma_place(data, number, block, 2);
    assert(block[2] == pair_bytes(minimum)[0]);
    lemma_place(data, number, block, 3);
    assert(block[3] == pair_bytes(minimum)[1]);
    lemma_place(data, number, block, 4 + i % 16);
    assert(block[4 + i % 16] == nibbles(weights, 16)[i % 16]);
    lemma_half(data, at, scale);
    lemma_half(data, at + 2, minimum);
    lemma_weight(3, data, number, i, (32, 20));
    assert(blocks::block_term(3, data, at, i) == blocks::q4_1_at(data, at, i)) by {
        reveal(blocks::block_term);
    }
}

/// A block of Q5_0: a half-precision scale, the fifth bits of the weights, raised by
/// sixteen, and their lower bits.
pub open spec fn q5_0_block(scale: u16, weights: Seq<u8>) -> Seq<u8> {
    pair_bytes(scale) + single_bits(upper_parts(weights, 16), 1) + nibbles(
        lower_parts(weights, 16),
        16,
    )
}

/// Weights written to a block of Q5_0 are read from it, less sixteen.
#[verifier::spinoff_prover]
#[verifier::rlimit(40)]
pub proof fn law_q5_0_weights_are_read_back(
    data: Seq<u8>,
    number: int,
    scale: u16,
    weights: Seq<u8>,
    i: int,
)
    requires
        numbers_below(weights, 32, 32),
        stands(data, number, q5_0_block(scale, weights)),
        0 <= i < 32,
    ensures
        q5_0_block(scale, weights).len() == 22,
        blocks::term_at(6, data, number * 32 + i) == (Term::Centered {
            quantized: (weights[i] - 16) as i32,
            scale: half::single_of(scale) as u32,
        }),
{
    let block = q5_0_block(scale, weights);
    let at = number * 22;
    lemma_parts(weights, 16, 2);
    lemma_single_bits(upper_parts(weights, 16), 1, i / 8, i % 8, 0);
    lemma_nibbles(lower_parts(weights, 16), 16, 0, i / 16, i % 16);
    assert(block.len() == 22);
    lemma_place(data, number, block, 0);
    assert(block[0] == pair_bytes(scale)[0]);
    lemma_place(data, number, block, 1);
    assert(block[1] == pair_bytes(scale)[1]);
    lemma_place(data, number, block, 2 + i / 8);
    assert(block[2 + i / 8] == single_bits(upper_parts(weights, 16), 1)[i / 8]);
    lemma_place(data, number, block, 6 + i % 16);
    assert(block[6 + i % 16] == nibbles(lower_parts(weights, 16), 16)[i % 16]);
    lemma_half(data, at, scale);
    assert(lower_parts(weights, 16)[i] + 16 * upper_parts(weights, 16)[i] == weights[i]);
    lemma_weight(6, data, number, i, (32, 22));
    assert(blocks::block_term(6, data, at, i) == blocks::q5_0_at(data, at, i)) by {
        reveal(blocks::block_term);
    }
}

/// A block of Q5_1: a half-precision scale and minimum, the fifth bits of the
/// weights and their lower bits.
pub open spec fn q5_1_block(scale: u16, minimum: u16, weights: Seq<u8>) -> Seq<u8> {
    pair_bytes(scale) + pair_bytes(minimum) + single_bits(upper_parts(weights, 16), 1) + nibbles(
        lower_parts(weights, 16),
        16,
    )
}

/// Weights written to a block of Q5_1 are read from it.
#[verifier::spinoff_prover]
#[verifier::rlimit(40)]
pub proof fn law_q5_1_weights_are_read_back(
    data: Seq<u8>,
    number: int,
    scale: u16,
    minimum: u16,
    weights: Seq<u8>,
    i: int,
)
    requires
        numbers_below(weights, 32, 32),
        stands(data, number, q5_1_block(scale, minimum, weights)),
        0 <= i < 32,
    ensures
        q5_1_block(scale, minimum, weights).len() == 24,
        blocks::term_at(7, data, number * 32 + i) == (Term::Raised {
            scale: half::single_of(scale) as u32,
            quantized: weights[i] as i32,
            minimum: half::single_of(minimum) as u32,
        }),
{
    let block = q5_1_block(scale, minimum, weights);
    let at = number * 24;
    lemma_parts(weights, 16, 2);
    lemma_single_bits(upper_parts(weights, 16), 1, i / 8, i % 8, 0);
    lemma_nibbles(lower_parts(weights, 16), 16, 0, i / 16, i % 16);
    assert(block.len() == 24);
    lemma_place(data, number, block, 0);
    assert(block[0] == pair_bytes(scale)[0]);
    lemma_place(data, number, block, 1);
    assert(block[1] == pair_bytes(scale)[1]);
    lemma_place(data, number, block, 2);
    assert(block[2] == pair_bytes(minimum)[0]);
    lemma_place(data, number, block, 3);
    assert(block[3] == pair_bytes(minimum)[1]);
    lemma_place(data, number, block, 4 + i / 8);
    assert(block[4 + i / 8] == single_bits(upper_parts(weights, 16), 1)[i / 8]);
    lemma_place(data, number, block, 8 + i % 16);
    assert(block[8 + i % 16] == nibbles(lower_parts(weights, 16), 16)[i % 16]);
    lemma_half(data, at, scale);
    lemma_half(data, at + 2, minimum);
    assert(lower_parts(weights, 16)[i] + 16 * upper_parts(weights, 16)[i] == weights[i]);
    lemma_weight(7, data, number, i, (32, 24));
    assert(blocks::block_term(7, data, at, i) == blocks::q5_1_at(data, at, i)) by {
        reveal(blocks::block_term);
    }
}

/// A block of Q8_0: a half-precision scale, and the weights.
pub open spec fn q8_0_block(scale: u16, weights: Seq<i8>) -> Seq<u8> {
    pair_bytes(scale) + signed_bytes(weights)
}

/// Weights written to a block of Q8_0 are read from it.
#[verifier::spinoff_prover]
#[verifier::rlimit(40)]
pub proof fn law_q8_0_weights_are_read_back(
    data: Seq<u8>,
    number: int,
    scale: u16,
    weights: Seq<i8>,
    i: int,
)
    requires
        weights.len() == 32,
        stands(data, number, q8_0_block(scale, weights)),
        0 <= i < 32,
    ensures
        q8_0_block(scale, weights).len() == 34,
        blocks::term_at(8, data, number * 32 + i) == (Term::Centered {
            quantized: weights[i] as i32,
            scale: half::single_of(scale) as u32,
        }),
{
    let block = q8_0_block(scale, weights);
    let at = number * 34;
    lemma_signed(weights, i);
    assert(block.len() == 34);
    lemma_place(data, number, block, 0);
    assert(block[0] == pair_bytes(scale)[0]);
    lemma_place(data, number, block, 1);
    assert(block[1] == pair_bytes(scale)[1]);
    lemma_place(data, number, block, 2 + i);
    assert(block[2 + i] == signed_bytes(weights)[i]);
    lemma_half(data, at, scale);
    lemma_weight(8, data, number, i, (32, 34));
    assert(blocks::block_term(8, data, at, i) == blocks::q8_0_at(data, at, i)) by {
        reveal(blocks::block_term);
    }
}

proof fn lemma_group_pairs(scales: Seq<u8>, minimums: Seq<u8>, group: int)
    requires
        numbers_below(scales, 16, 16),
        numbers_below(minimums, 16, 16),
        0 <= group < 16,
    ensures
        nibbles(scales + minimums, 16).len() == 16,
        blocks::nibble(nibbles(scales + minimums, 16)[group], false) == scales[group],
        blocks::nibble(nibbles(scales + minimums, 16)[group], true) == minimums[group],
{
    let both = scales + minimums;
    assert(numbers_below(both, 32, 16));
    lemma_nibbles(both, 16, 0, 0, group);
    lemma_nibbles(both, 16, 0, 1, group);
    assert(both[group] == scales[group] && both[16 + group] == minimums[group]);
}

/// A block of Q2_K: the scales and the minimums of sixteen groups, the weights, and
/// what scales and minimums are multiplied with.
pub open spec fn q2_k_block(scale: u16, minimum: u16, scales: Seq<u8>, minimums: Seq<u8>, weights: Seq<u8>) -> Seq<u8> {
    nibbles(scales + minimums, 16) + quarters(weights, 32) + pair_bytes(scale) + pair_bytes(minimum)
}

/// Weights written to a block of Q2_K are read from it, with the scale and the
/// minimum of their group.
#[verifier::spinoff_prover]
#[verifier::rlimit(40)]
pub proof fn law_q2_k_weights_are_read_back(
    data: Seq<u8>,
    number: int,
    scale: u16,
    minimum: u16,
    scales: Seq<u8>,
    minimums: Seq<u8>,
    weights: Seq<u8>,
    i: int,
)
    requires
        numbers_below(scales, 16, 16),
        numbers_below(minimums, 16, 16),
        numbers_below(weights, 256, 4),
        stands(data, number, q2_k_block(scale, minimum, scales, minimums, weights)),
        0 <= i < 256,
    ensures
        q2_k_block(scale, minimum, scales, minimums, weights).len() == 84,
        blocks::term_at(10, data, number * 256 + i) == (Term::GroupedLess {
            scale: half::single_of(scale) as u32,
            group: scales[i / 16] as i32,
            quantized: weights[i] as i32,
            minimum: half::single_of(minimum) as u32,
            group_minimum: minimums[i / 16] as i32,
        }),
{
    let block = q2_k_block(scale, minimum, scales, minimums, weights);
    let at = number * 84;
    let groups = nibbles(scales + minimums, 16);
    lemma_group_pairs(scales, minimums, i / 16);
    lemma_quarters(weights, 32, i / 128, (i / 32) % 4, i % 32);
    assert(block.len() == 84);
    lemma_place(data, number, block, i / 16);
    assert(block[i / 16] == groups[i / 16]);
    lemma_place(data, number, block, 16 + (i / 128) * 32 + i % 32);
    assert(block[16 + (i / 128) * 32 + i % 32] == quarters(weights, 32)[(i / 128) * 32 + i % 32]);
    lemma_place(data, number, block, 80);
    assert(block[80] == pair_bytes(scale)[0]);
    lemma_place(data, number, block, 81);
    assert(block[81] == pair_bytes(scale)[1]);
    lemma_place(data, number, block, 82);
    assert(block[82] == pair_bytes(minimum)[0]);
    lemma_place(data, number, block, 83);
    assert(block[83] == pair_bytes(minimum)[1]);
    lemma_half(data, at + 80, scale);
    lemma_half(data, at + 82, minimum);
    assert((i / 16) / 8 == i / 128 && ((i / 16) % 2) * 16 + i % 16 == i % 32 && ((i / 16) % 8) / 2
        == (i / 32) % 4);
    lemma_weight(10, data, number, i, (256, 84));
    assert(blocks::block_term(10, data, at, i) == blocks::q2_k_at(data, at, i)) by {
        reveal(blocks::block_term);
    }
}

/// A block of Q3_K: the third bits of the weights, raised by four, their lower bits,
/// the scales of sixteen groups, raised by 32, and what they are multiplied with.
pub open spec fn q3_k_block(scale: u16, scales: Seq<u8>, weights: Seq<u8>) -> Seq<u8> {
    single_bits(upper_parts(weights, 4), 32) + quarters(lower_parts(weights, 4), 32) + nibbles(
        lower_parts(scales, 16),
        8,
    ) + quarters(upper_parts(scales, 16), 1) + pair_bytes(scale)
}

/// Weights written to a block of Q3_K are read from it, less four, with the scale of
/// their group, less 32.
#[verifier::spinoff_prover]
#[verifier::rlimit(40)]
pub proof fn law_q3_k_weights_are_read_back(
    data: Seq<u8>,
    number: int,
    scale: u16,
    scales: Seq<u8>,
    weights: Seq<u8>,
    i: int,
)
    requires
        numbers_below(scales, 16, 64),
        numbers_below(weights, 256, 8),
        stands(data, number, q3_k_block(scale, scales, weights)),
        0 <= i < 256,
    ensures
        q3_k_block(scale, scales, weights).len() == 110,
        blocks::term_at(11, data, number * 256 + i) == (Term::Grouped {
            scale: half::single_of(scale) as u32,
            group: (scales[i / 16] - 32) as i32,
            quantized: (weights[i] - 4) as i32,
        }),
{
    let block = q3_k_block(scale, scales, weights);
    let at = number * 110;
    lemma_parts(weights, 4, 2);
    lemma_parts(scales, 16, 4);
    let group = i / 16;
    lemma_single_bits(upper_parts(weights, 4), 32, 0, i / 32, i % 32);
    lemma_quarters(lower_parts(weights, 4), 32, i / 128, (i / 32) % 4, i % 32);
    lemma_nibbles(lower_parts(scales, 16), 8, 0, group / 8, group % 8);
    lemma_quarters(upper_parts(scales, 16), 1, group / 4, group % 4, 0);
    assert(block.len() == 110);
    lemma_place(data, number, block, i % 32);
    assert(block[i % 32] == single_bits(upper_parts(weights, 4), 32)[i % 32]);
    lemma_place(data, number, block, 32 + (i / 128) * 32 + i % 32);
    assert(block[32 + (i / 128) * 32 + i % 32] == quarters(lower_parts(weights, 4), 32)[(i / 128) * 32 + i % 32]);
    lemma_place(data, number, block, 96 + group % 8);
    assert(block[96 + group % 8] == nibbles(lower_parts(scales, 16), 8)[group % 8]);
    lemma_place(data, number, block, 104 + group / 4);
    assert(block[104 + group / 4] == quarters(upper_parts(scales, 16), 1)[group / 4]);
    lemma_place(data, number, block, 108);
    assert(block[108] == pair_bytes(scale)[0]);
    lemma_place(data, number, block, 109);
    assert(block[109] == pair_bytes(scale)[1]);
    lemma_half(data, at + 108, scale);
    assert(lower_parts(weights, 4)[i] + 4 * upper_parts(weights, 4)[i] == weights[i]);
    assert(lower_parts(scales, 16)[group] + 16 * upper_parts(scales, 16)[group] == scales[group]);
    lemma_weight(11, data, number, i, (256, 110));
    assert(blocks::block_term(11, data, at, i) == blocks::q3_k_at(data, at, i)) by {
        reveal(blocks::block_term);
    }
}

/// A block of Q4_K: what scales and minimums are multiplied with, the scales and the
/// minimums of eight groups, and the weights.
pub open spec fn q4_k_block(scale: u16, minimum: u16, scales: Seq<u8>, minimums: Seq<u8>, weights: Seq<u8>) -> Seq<u8> {
    pair_bytes(scale) + pair_bytes(minimum) + six_bit_pairs(scales, minimums) + nibbles(weights, 32)
}

/// Weights written to a block of Q4_K are read from it, with the scale and the
/// minimum of their group.
#[verifier::spinoff_prover]
#[verifier::rlimit(40)]
pub proof fn law_q4_k_weights_are_read_back(
    data: Seq<u8>,
    number: int,
    scale: u16,
    minimum: u16,
    scales: Seq<u8>,
    minimums: Seq<u8>,
    weights: Seq<u8>,
    i: int,
)
    requires
        numbers_below(scales, 8, 64),
        numbers_below(minimums, 8, 64),
        numbers_below(weights, 256, 16),
        stands(data, number, q4_k_block(scale, minimum, scales, minimums, weights)),
        0 <= i < 256,
    ensures
        q4_k_block(scale, minimum, scales, minimums, weights).len() == 144,
        blocks::term_at(12, data, number * 256 + i) == (Term::GroupedLess {
            scale: half::single_of(scale) as u32,
            group: scales[i / 32] as i32,
            quantized: weights[i] as i32,
            minimum: half::single_of(minimum) as u32,
            group_minimum: minimums[i / 32] as i32,
        }),
{
    let block = q4_k_block(scale, minimum, scales, minimums, weights);
    let at = number * 144;
    assert(six_bit_pairs(scales, minimums).len() == 12) by {
        reveal(six_bit_pairs);
    };
    lemma_nibbles(weights, 32, i / 64, (i / 32) % 2, i % 32);
    assert(block.len() == 144);
    lemma_place(data, number, block, 0);
    assert(block[0] == pair_bytes(scale)[0]);
    lemma_place(data, number, block, 1);
    assert(block[1] == pair_bytes(scale)[1]);
    lemma_place(data, number, block, 2);
    assert(block[2] == pair_bytes(minimum)[0]);
    lemma_place(data, number, block, 3);
    assert(block[3] == pair_bytes(minimum)[1]);
    lemma_place(data, number, block, 16 + (i / 64) * 32 + i % 32);
    assert(block[16 + (i / 64) * 32 + i % 32] == nibbles(weights, 32)[(i / 64) * 32 + i % 32]);
    lemma_half(data, at, scale);
    lemma_half(data, at + 2, minimum);
    let packed = six_bit_pairs(scales, minimums);
    assert forall|j: int| 0 <= j < 12 implies #[trigger] data.subrange(at + 4, at + 16)[j]
        == packed[j] by {
        lemma_place(data, number, block, 4 + j);
        assert(block[4 + j] == packed[j]);
    }
    assert(data.subrange(at + 4, at + 16) =~= packed);
    lemma_six_bit_pairs(data, at + 4, scales, minimums, i / 32);
    lemma_weight(12, data, number, i, (256, 144));
    assert(blocks::block_term(12, data, at, i) == blocks::q4_k_at(data, at, i)) by {
        reveal(blocks::block_term);
    }
}

/// A block of Q5_K: as one of Q4_K, with the fifth bits of the weights before their
/// lower bits.
pub open spec fn q5_k_block(scale: u16, minimum: u16, scales: Seq<u8>, minimums: Seq<u8>, weights: Seq<u8>) -> Seq<u8> {
    pair_bytes(scale) + pair_bytes(minimum) + six_bit_pairs(scales, minimums) + single_bits(
        upper_parts(weights, 16),
        32,
    ) + nibbles(lower_parts(weights, 16), 32)
}

/// Weights written to a block of Q5_K are read from it, with the scale and the
/// minimum of their group.
#[verifier::spinoff_prover]
#[verifier::rlimit(40)]
pub proof fn law_q5_k_weights_are_read_back(
    data: Seq<u8>,
    number: int,
    scale: u16,
    minimum: u16,
    scales: Seq<u8>,
    minimums: Seq<u8>,
    weights: Seq<u8>,
    i: int,
)
    requires
        numbers_below(scales, 8, 64),
        numbers_below(minimums, 8, 64),
        numbers_below(weights, 256, 32),
        stands(data, number, q5_k_block(scale, minimum, scales, minimums, weights)),
        0 <= i < 256,
    ensures
        q5_k_block(scale, minimum, scales, minimums, weights).len() == 176,
        blocks::term_at(13, data, number * 256 + i) == (Term::GroupedLess {
            scale: half::single_of(scale) as u32,
            group: scales[i / 32] as i32,
            quantized: weights[i] as i32,
            minimum: half::single_of(minimum) as u32,
            group_minimum: minimums[i / 32] as i32,
        }),
{
    let block = q5_k_block(scale, minimum, scales, minimums, weights);
    let at = number * 176;
    assert(six_bit_pairs(scales, minimums).len() == 12) by {
        reveal(six_bit_pairs);
    };
    lemma_parts(weights, 16, 2);
    lemma_single_bits(upper_parts(weights, 16), 32, 0, i / 32, i % 32);
    lemma_nibbles(lower_parts(weights, 16), 32, i / 64, (i / 32) % 2, i % 32);
    assert(block.len() == 176);
    lemma_place(data, number, block, 0);
    assert(block[0] == pair_bytes(scale)[0]);
    lemma_place(data, number, block, 1);
    assert(block[1] == pair_bytes(scale)[1]);
    lemma_place(data, number, block, 2);
    assert(block[2] == pair_bytes(minimum)[0]);
    lemma_place(data, number, block, 3);
    assert(block[3] == pair_bytes(minimum)[1]);
    lemma_place(data, number, block, 16 + i % 32);
    assert(block[16 + i % 32] == single_bits(upper_parts(weights, 16), 32)[i % 32]);
    lemma_place(data, number, block, 48 + (i / 64) * 32 + i % 32);
    assert(block[48 + (i / 64) * 32 + i % 32] == nibbles(lower_parts(weights, 16), 32)[(i / 64) * 32 + i % 32]);
    lemma_half(data, at, scale);
    lemma_half(data, at + 2, minimum);
    assert(lower_parts(weights, 16)[i] + 16 * upper_parts(weights, 16)[i] == weights[i]);
    let packed = six_bit_pairs(scales, minimums);
    assert forall|j: int| 0 <= j < 12 implies #[trigger] data.subrange(at + 4, at + 16)[j]
        == packed[j] by {
        lemma_place(data, number, block, 4 + j);
        assert(block[4 + j] == packed[j]);
    }
    assert(data.subrange(at + 4, at + 16) =~= packed);
    lemma_six_bit_pairs(data, at + 4, scales, minimums, i / 32);
    lemma_weight(13, data, number, i, (256, 176));
    assert(blocks::block_term(13, data, at, i) == blocks::q5_k_at(data, at, i)) by {
        reveal(blocks::block_term);
    }
}

/// A block of Q6_K: the four lower and the two upper bits of the weights, raised by
/// 32, the scales of sixteen groups, and what they are multiplied with.
pub open spec fn q6_k_block(scale: u16, scales: Seq<i8>, weights: Seq<u8>) -> Seq<u8> {
    nibbles(lower_parts(weights, 16), 64) + quarters(upper_parts(weights, 16), 32) + signed_bytes(
        scales,
    ) + pair_bytes(scale)
}

/// Weights written to a block of Q6_K are read from it, less 32, with the scale of
/// their group.
#[verifier::spinoff_prover]
#[verifier::rlimit(40)]
pub proof fn law_q6_k_weights_are_read_back(
    data: Seq<u8>,
    number: int,
    scale: u16,
    scales: Seq<i8>,
    weights: Seq<u8>,
    i: int,
)
    requires
        scales.len() == 16,
        numbers_below(weights, 256, 64),
        stands(data, number, q6_k_block(scale, scales, weights)),
        0 <= i < 256,
    ensures
        q6_k_block(scale, scales, weights).len() == 210,
        blocks::term_at(14, data, number * 256 + i) == (Term::Grouped {
            scale: half::single_of(scale) as u32,
            group: scales[i / 16] as i32,
            quantized: (weights[i] - 32) as i32,
        }),
{
    let block = q6_k_block(scale, scales, weights);
    let at = number * 210;
    lemma_parts(weights, 16, 4);
    lemma_nibbles(lower_parts(weights, 16), 64, i / 128, (i / 64) % 2, i % 64);
    lemma_quarters(upper_parts(weights, 16), 32, i / 128, (i / 32) % 4, i % 32);
    lemma_signed(scales, i / 16);
    assert(block.len() == 210);
    lemma_place(data, number, block, (i / 128) * 64 + i % 64);
    assert(block[(i / 128) * 64 + i % 64] == nibbles(lower_parts(weights, 16), 64)[(i / 128) * 64 + i % 64]);
    lemma_place(data, number, block, 128 + (i / 128) * 32 + i % 32);
    assert(block[128 + (i / 128) * 32 + i % 32] == quarters(upper_parts(weights, 16), 32)[(i / 128) * 32 + i % 32]);
    lemma_place(data, number, block, 192 + i / 16);
    assert(block[192 + i / 16] == signed_bytes(scales)[i / 16]);
    lemma_place(data, number, block, 208);
    assert(block[208] == pair_bytes(scale)[0]);
    lemma_place(data, number, block, 209);
    assert(block[209] == pair_bytes(scale)[1]);
    lemma_half(data, at + 208, scale);
    assert(lower_parts(weights, 16)[i] + 16 * upper_parts(weights, 16)[i] == weights[i]);
    lemma_weight(14, data, number, i, (256, 210));
    assert(blocks::block_term(14, data, at, i) == blocks::q6_k_at(data, at, i)) by {
        reveal(blocks::block_term);
    }
}

/// A block of Q8_K: a single-precision scale, the weights, and sixteen sums that go
/// unread.
pub open spec fn q8_k_block(scale: u32, weights: Seq<i8>, sums: Seq<u8>) -> Seq<u8> {
    word_bytes(scale) + signed_bytes(weights) + sums
}

/// Weights written to a block of Q8_K are read from it.
#[verifier::spinoff_prover]
#[verifier::rlimit(40)]
pub proof fn law_q8_k_weights_are_read_back(
    data: Seq<u8>,
    number: int,
    scale: u32,
    weights: Seq<i8>,
    sums: Seq<u8>,
    i: int,
)
    requires
        weights.len() == 256,
        sums.len() == 32,
        stands(data, number, q8_k_block(scale, weights, sums)),
        0 <= i < 256,
    ensures
        q8_k_block(scale, weights, sums).len() == 292,
        blocks::term_at(15, data, number * 256 + i) == (Term::Scaled { scale, quantized: weights[i] as i32 }),
{
    let block = q8_k_block(scale, weights, sums);
    let at = number * 292;
    lemma_signed(weights, i);
    assert(block.len() == 292);
    lemma_place(data, number, block, 0);
    assert(block[0] == word_bytes(scale)[0]);
    lemma_place(data, number, block, 1);
    assert(block[1] == word_bytes(scale)[1]);
    lemma_place(data, number, block, 2);
    assert(block[2] == word_bytes(scale)[2]);
    lemma_place(data, number, block, 3);
    assert(block[3] == word_bytes(scale)[3]);
    lemma_place(data, number, block, 4 + i);
    assert(block[4 + i] == signed_bytes(weights)[i]);
    lemma_word(data, at, scale);
    lemma_weight(15, data, number, i, (256, 292));
    assert(blocks::block_term(15, data, at, i) == blocks::q8_k_at(data, at, i)) by {
        reveal(blocks::block_term);
    }
}

/// Single-precision numbers stand one behind the other.
pub proof fn law_f32_weights_are_read_back(data: Seq<u8>, number: int, bits: u32)
    requires
        stands(data, number, word_bytes(bits)),
    ensures
        blocks::term_at(0, data, number) == (Term::Plain { bits }),
{
    let block = word_bytes(bits);
    let at = number * 4;
    assert(block.len() == 4);
    lemma_place(data, number, block, 0);
    lemma_place(data, number, block, 1);
    lemma_place(data, number, block, 2);
    lemma_place(data, number, block, 3);
    lemma_word(data, at, bits);
    lemma_weight(0, data, number, 0, (1, 4));
    reveal(blocks::block_term);
}

/// Half-precision numbers stand one behind the other.
pub proof fn law_f16_weights_are_read_back(data: Seq<u8>, number: int, bits: u16)
    requires
        stands(data, number, pair_bytes(bits)),
    ensures
        blocks::term_at(1, data, number) == (Term::Plain { bits: half::single_of(bits) as u32 }),
{
    let block = pair_bytes(bits);
    let at = number * 2;
    lemma_pair(bits);
    lemma_place(data, number, block, 0);
    lemma_place(data, number, block, 1);
    lemma_half(data, at, bits);
    lemma_weight(1, data, number, 0, (1, 2));
    assert(blocks::block_term(1, data, at, 0) == blocks::f16_at(data, at)) by {
        reveal(blocks::block_term);
    }
}

/// The upper halves of single-precision numbers stand one behind the other.
pub proof fn law_bf16_weights_are_read_back(data: Seq<u8>, number: int, bits: u16)
    requires
        stands(data, number, pair_bytes(bits)),
    ensures
        blocks::term_at(30, data, number) == (Term::Plain { bits: (bits * 65_536) as u32 }),
{
    let block = pair_bytes(bits);
    lemma_pair(bits);
    lemma_place(data, number, block, 0);
    lemma_place(data, number, block, 1);
    lemma_weight(30, data, number, 0, (1, 2));
    reveal(blocks::block_term);
}

} // verus!
