//! Matrices in affine layout: packed integers with one scale and one bias for
//! each group of weights.

use vstd::arithmetic::power2;
use vstd::prelude::*;

use crate::gguf::types::TensorType;
use crate::model::blocks;
use crate::model::decode;
use crate::model::descriptor;
use crate::model::descriptor::{Descriptor, TensorDescriptor};
use crate::model::error;
use crate::model::error::{ModelError, ModelFault};
use crate::model::matrix;
use crate::model::packing;
use crate::model::term;
use crate::tensor::arithmetic::Arithmetic;
use crate::tensor::dense;
use crate::tensor::rows;
use crate::text;

verus! {

/// The bits of the single-precision number next to a ten-millionth, below
/// which no scale starts.
pub const SMALLEST_SCALE_BITS: u32 = 0x33d6_bf95;

/// `value` is the least of the first `count` values.
pub open spec fn minimum_of<T, A: Arithmetic<T>>(
    arithmetic: &A,
    values: Seq<T>,
    count: nat,
    value: T,
) -> bool
    decreases count,
{
    if count == 0 {
        call_ensures(A::highest, (arithmetic,), value)
    } else {
        exists|before: T|
            {
                &&& minimum_of(arithmetic, values, (count - 1) as nat, before)
                &&& #[trigger] call_ensures(
                    A::minimum,
                    (arithmetic, before, values[count - 1]),
                    value,
                )
            }
    }
}

/// `scale` is the length of one of `bins` steps between two values, but not
/// below the smallest scale.
pub open spec fn step_of<T, A: Arithmetic<T>>(
    arithmetic: &A,
    minimum: T,
    maximum: T,
    bins: i32,
    scale: T,
) -> bool {
    exists|width: T, count: T, ratio: T, floor: T|
        {
            &&& call_ensures(A::subtract, (arithmetic, maximum, minimum), width)
            &&& call_ensures(A::from_integer, (arithmetic, bins), count)
            &&& #[trigger] call_ensures(A::divide, (arithmetic, width, count), ratio)
            &&& call_ensures(A::from_bits, (arithmetic, SMALLEST_SCALE_BITS), floor)
            &&& #[trigger] call_ensures(A::maximum, (arithmetic, ratio, floor), scale)
        }
}

/// `side` tells whether the minimum is farther from zero than the maximum.
pub open spec fn lower_side<T, A: Arithmetic<T>>(
    arithmetic: &A,
    minimum: T,
    maximum: T,
    side: bool,
) -> bool {
    exists|low: T, high: T|
        {
            &&& call_ensures(A::absolute, (arithmetic, minimum), low)
            &&& call_ensures(A::absolute, (arithmetic, maximum), high)
            &&& #[trigger] call_ensures(A::exceeds, (arithmetic, low, high), side)
        }
}

/// `scale` is a step towards zero, seen from the side farther from it.
pub open spec fn signed_step<T, A: Arithmetic<T>>(
    arithmetic: &A,
    minimum: T,
    maximum: T,
    bins: i32,
    side: bool,
    scale: T,
) -> bool {
    if side {
        step_of(arithmetic, minimum, maximum, bins, scale)
    } else {
        exists|step: T|
            {
                &&& step_of(arithmetic, minimum, maximum, bins, step)
                &&& #[trigger] call_ensures(A::negate, (arithmetic, step), scale)
            }
    }
}

/// `scale` and `bias` are adjusted so that a whole number of steps lies between
/// the edge and zero.
pub open spec fn adjusted<T, A: Arithmetic<T>>(
    arithmetic: &A,
    edge: T,
    step: T,
    scale: T,
    bias: T,
) -> bool {
    exists|ratio: T, count: T|
        {
            &&& call_ensures(A::divide, (arithmetic, edge, step), ratio)
            &&& #[trigger] call_ensures(A::round, (arithmetic, ratio), count)
            &&& {
                ||| {
                    &&& call_ensures(A::is_zero, (arithmetic, count), true)
                    &&& scale == step
                    &&& call_ensures(A::zero, (arithmetic,), bias)
                }
                ||| {
                    &&& call_ensures(A::is_zero, (arithmetic, count), false)
                    &&& call_ensures(A::divide, (arithmetic, edge, count), scale)
                    &&& bias == edge
                }
            }
        }
}

/// `scale` and `bias` are those of a group whose values lie between two given
/// ones.
pub open spec fn span_parameters<T, A: Arithmetic<T>>(
    arithmetic: &A,
    minimum: T,
    maximum: T,
    bins: i32,
    scale: T,
    bias: T,
) -> bool {
    exists|side: bool, step: T|
        {
            &&& lower_side(arithmetic, minimum, maximum, side)
            &&& #[trigger] signed_step(arithmetic, minimum, maximum, bins, side, step)
            &&& adjusted(
                arithmetic,
                if side {
                    minimum
                } else {
                    maximum
                },
                step,
                scale,
                bias,
            )
        }
}

/// `scale` and `bias` are those of a group of values.
pub open spec fn group_parameters<T, A: Arithmetic<T>>(
    arithmetic: &A,
    values: Seq<T>,
    bins: i32,
    scale: T,
    bias: T,
) -> bool {
    exists|minimum: T, maximum: T|
        {
            &&& minimum_of(arithmetic, values, values.len(), minimum)
            &&& rows::maximum_of(arithmetic, values, values.len(), maximum)
            &&& #[trigger] span_parameters(arithmetic, minimum, maximum, bins, scale, bias)
        }
}

/// `number` is the step that a value falls on, from zero to `bins`.
pub open spec fn step_number<T, A: Arithmetic<T>>(
    arithmetic: &A,
    value: T,
    scale: T,
    bias: T,
    bins: i32,
    number: u32,
) -> bool {
    exists|difference: T, ratio: T, rounded: T, count: u32|
        {
            &&& call_ensures(A::subtract, (arithmetic, value, bias), difference)
            &&& #[trigger] call_ensures(A::divide, (arithmetic, difference, scale), ratio)
            &&& #[trigger] call_ensures(A::round, (arithmetic, ratio), rounded)
            &&& #[trigger] call_ensures(A::to_count, (arithmetic, rounded), count)
            &&& number == if count <= bins {
                count
            } else {
                bins as u32
            }
        }
}

/// `numbers` are the steps that some values fall on.
pub open spec fn step_numbers<T, A: Arithmetic<T>>(
    arithmetic: &A,
    values: Seq<T>,
    scale: T,
    bias: T,
    bins: i32,
    numbers: Seq<u32>,
) -> bool {
    &&& numbers.len() == values.len()
    &&& forall|i: int|
        0 <= i < values.len() ==> step_number(
            arithmetic,
            values[i],
            scale,
            bias,
            bins,
            #[trigger] numbers[i],
        )
}

/// `values` are weights from number `first` on.
pub open spec fn weights_from<T, A: Arithmetic<T>>(
    arithmetic: &A,
    code: u32,
    data: Seq<u8>,
    first: int,
    values: Seq<T>,
) -> bool {
    forall|i: int|
        0 <= i < values.len() ==> term::term_value(
            arithmetic,
            blocks::term_at(code, data, first + i),
            #[trigger] values[i],
        )
}

/// The number of steps that `bits` bits can count.
pub open spec fn bins_of(bits: nat) -> i32 {
    (power2::pow2(bits) - 1) as i32
}

/// A group of weights in affine layout.
pub open spec fn group_converted<T, A: Arithmetic<T>>(
    arithmetic: &A,
    values: Seq<T>,
    bits: nat,
    scale: T,
    bias: T,
    words: Seq<u32>,
) -> bool {
    &&& dense::finite_before(arithmetic, values, values.len() as int)
    &&& group_parameters(arithmetic, values, bins_of(bits), scale, bias)
    &&& call_ensures(A::is_finite, (arithmetic, scale), true)
    &&& call_ensures(A::is_finite, (arithmetic, bias), true)
    &&& exists|numbers: Seq<u32>|
        {
            &&& step_numbers(arithmetic, values, scale, bias, bins_of(bits), numbers)
            &&& #[trigger] packing::holds(words, numbers, bits)
        }
}

/// A matrix in affine layout, in row-major orientation with one row for each
/// output. The packed weights hold the lowest bits first; scales and biases
/// hold one value for each group of inputs.
#[derive(Debug, PartialEq)]
pub struct AffineQuantizedMatrix<T> {
    rows: usize,
    columns: usize,
    group_size: usize,
    bits: usize,
    packed: Vec<u32>,
    scales: Vec<T>,
    biases: Vec<T>,
}

/// A matrix in affine layout, as a mathematical value.
#[verifier::ext_equal]
pub struct Affine<T> {
    pub rows: nat,
    pub columns: nat,
    pub group_size: nat,
    pub bits: nat,
    pub packed: Seq<u32>,
    pub scales: Seq<T>,
    pub biases: Seq<T>,
}

impl<T> View for AffineQuantizedMatrix<T> {
    type V = Affine<T>;

    closed spec fn view(&self) -> Affine<T> {
        Affine {
            rows: self.rows as nat,
            columns: self.columns as nat,
            group_size: self.group_size as nat,
            bits: self.bits as nat,
            packed: self.packed@,
            scales: self.scales@,
            biases: self.biases@,
        }
    }
}

impl<T: Copy> Clone for AffineQuantizedMatrix<T> {
    fn clone(&self) -> (copy: Self)
        ensures
            copy@ == self@,
    {
        AffineQuantizedMatrix {
            rows: self.rows,
            columns: self.columns,
            group_size: self.group_size,
            bits: self.bits,
            packed: dense::copy_values(&self.packed),
            scales: dense::copy_values(&self.scales),
            biases: dense::copy_values(&self.biases),
        }
    }
}

impl<T> AffineQuantizedMatrix<T> {
    /// Number of output rows in the matrix.
    pub fn rows(&self) -> (rows: usize)
        ensures
            rows == self@.rows,
    {
        self.rows
    }

    /// Number of input columns in the matrix.
    pub fn columns(&self) -> (columns: usize)
        ensures
            columns == self@.columns,
    {
        self.columns
    }

    /// Number of input values covered by one affine scale and bias.
    pub fn group_size(&self) -> (group_size: usize)
        ensures
            group_size == self@.group_size,
    {
        self.group_size
    }

    /// Number of bits used for each packed value.
    pub fn bits(&self) -> (bits: usize)
        ensures
            bits == self@.bits,
    {
        self.bits
    }

    /// Returns the packed weights in row-major `[rows, columns * bits / 32]` layout.
    pub fn packed(&self) -> (packed: &[u32])
        ensures
            packed@ == self@.packed,
    {
        self.packed.as_slice()
    }

    /// Returns the scales in row-major `[rows, columns / group_size]` layout.
    pub fn scales(&self) -> (scales: &[T])
        ensures
            scales@ == self@.scales,
    {
        self.scales.as_slice()
    }

    /// Returns the biases in row-major `[rows, columns / group_size]` layout.
    pub fn biases(&self) -> (biases: &[T])
        ensures
            biases@ == self@.biases,
    {
        self.biases.as_slice()
    }
}

/// Why affine parameters are not supported.
pub open spec fn parameter_fault(group_size: nat, bits: nat) -> Option<ModelFault> {
    if !(group_size == 32 || group_size == 64 || group_size == 128) {
        Some(ModelFault::Shape("MLX affine group size must be 32, 64, or 128"@))
    } else if !(bits == 2 || bits == 3 || bits == 4 || bits == 5 || bits == 6 || bits == 8) {
        Some(ModelFault::Shape("MLX affine bit width must be 2, 3, 4, 5, 6, or 8"@))
    } else {
        None
    }
}

/// Checks affine parameters.
pub(crate) fn validate_affine_quantization(group_size: usize, bits: usize) -> (result: Result<
    (),
    ModelError,
>)
    ensures
        match result {
            Ok(()) => parameter_fault(group_size as nat, bits as nat) is None,
            Err(error) => parameter_fault(group_size as nat, bits as nat) == Some(error@),
        },
{
    if !(group_size == 32 || group_size == 64 || group_size == 128) {
        return Err(error::shape_error("MLX affine group size must be 32, 64, or 128"));
    }
    if !(bits == 2 || bits == 3 || bits == 4 || bits == 5 || bits == 6 || bits == 8) {
        return Err(error::shape_error("MLX affine bit width must be 2, 3, 4, 5, 6, or 8"));
    }
    Ok(())
}

/// Whether a tensor can be converted to affine layout.
pub open spec fn is_candidate(descriptor: Descriptor, group_size: nat) -> bool {
    &&& descriptor.shape.len() == 2
    &&& blocks::quantized_layout(descriptor.value_type) is Some
    &&& descriptor.shape[0] as nat % group_size == 0
}

/// Tests whether a tensor can be converted to affine layout.
pub(crate) fn affine_quantized_candidate(descriptor: &TensorDescriptor, group_size: usize) -> (candidate:
    bool)
    requires
        group_size > 0,
    ensures
        candidate == is_candidate(descriptor@, group_size as nat),
{
    descriptor.shape().len() == 2 && blocks::quantized_block_layout(
        descriptor.value_type().raw(),
    ).is_some() && descriptor.shape()[0] % group_size == 0
}

/// The weights of a group, up to the first one that is not finite.
fn read_group<T: Copy, A: Arithmetic<T>>(
    arithmetic: &A,
    value_type: TensorType,
    data: &[u8],
    group: usize,
    size: usize,
    Ghost(total): Ghost<nat>,
) -> (values: Option<Vec<T>>)
    requires
        blocks::quantized_layout(value_type.code()) is Some,
        group * size + size <= total,
        total <= usize::MAX,
        forall|i: nat| i < total ==> (#[trigger] decode::place_fault(
            value_type.code(),
            data@.len(),
            i,
        )) is None,
    ensures
        match values {
            Some(values) => {
                &&& values@.len() == size
                &&& weights_from(arithmetic, value_type.code(), data@, group * size, values@)
                &&& dense::finite_before(arithmetic, values@, size as int)
            },
            None => group_not_finite::<T, A>(
                arithmetic,
                value_type.code(),
                data@,
                size as nat,
                group as int,
            ),
        },
{
    assert(0 <= group * size) by (nonlinear_arith)
        requires
            0 <= group,
            0 <= size,
    ;
    let first: usize = group * size;
    let mut values: Vec<T> = Vec::new();
    let mut offset: usize = 0;
    while offset < size
        invariant
            offset <= size,
            first == group * size,
            blocks::quantized_layout(value_type.code()) is Some,
            first + size <= total,
            total <= usize::MAX,
            forall|i: nat| i < total ==> (#[trigger] decode::place_fault(
                value_type.code(),
                data@.len(),
                i,
            )) is None,
            values@.len() == offset,
            weights_from(arithmetic, value_type.code(), data@, first as int, values@),
            dense::finite_before(arithmetic, values@, offset as int),
        decreases size - offset,
    {
        assert(decode::place_fault(
            value_type.code(),
            data@.len(),
            (first + offset) as nat,
        ) is None);
        match decode::quantized_value_at(value_type, data, first + offset, arithmetic) {
            Ok(value) => {
                values.push(value);
                if !arithmetic.is_finite(value) {
                    assert(dense::first_not_finite(arithmetic, values@, values@.len() - 1));
                    assert(weights_from(
                        arithmetic,
                        value_type.code(),
                        data@,
                        group as int * size as nat,
                        values@,
                    ));
                    return None;
                }
            },
            Err(_) => {},
        }
        offset += 1;
    }
    Some(values)
}

/// The least and the greatest value of a group.
fn find_span<T: Copy, A: Arithmetic<T>>(arithmetic: &A, values: &Vec<T>) -> (span: (T, T))
    ensures
        minimum_of(arithmetic, values@, values@.len(), span.0),
        rows::maximum_of(arithmetic, values@, values@.len(), span.1),
{
    let mut minimum = arithmetic.highest();
    let mut maximum = arithmetic.lowest();
    let mut i: usize = 0;
    while i < values.len()
        invariant
            i <= values@.len(),
            minimum_of(arithmetic, values@, i as nat, minimum),
            rows::maximum_of(arithmetic, values@, i as nat, maximum),
        decreases values@.len() - i,
    {
        let less = arithmetic.minimum(minimum, values[i]);
        assert(minimum_of(arithmetic, values@, (i + 1) as nat, less));
        let more = arithmetic.maximum(maximum, values[i]);
        assert(rows::maximum_of(arithmetic, values@, (i + 1) as nat, more));
        minimum = less;
        maximum = more;
        i += 1;
    }
    (minimum, maximum)
}

/// Computes the scale and the bias of a group whose values lie between two
/// given ones.
fn find_parameters<T: Copy, A: Arithmetic<T>>(
    arithmetic: &A,
    minimum: T,
    maximum: T,
    bins: i32,
) -> (parameters: (T, T))
    ensures
        span_parameters(arithmetic, minimum, maximum, bins, parameters.0, parameters.1),
{
    let width = arithmetic.subtract(maximum, minimum);
    let count = arithmetic.from_integer(bins);
    let ratio = arithmetic.divide(width, count);
    let floor = arithmetic.from_bits(SMALLEST_SCALE_BITS);
    let scale = arithmetic.maximum(ratio, floor);
    assert(step_of(arithmetic, minimum, maximum, bins, scale));
    let low = arithmetic.absolute(minimum);
    let high = arithmetic.absolute(maximum);
    let side = arithmetic.exceeds(low, high);
    assert(lower_side(arithmetic, minimum, maximum, side));
    let (edge, step) = if side {
        (minimum, scale)
    } else {
        (maximum, arithmetic.negate(scale))
    };
    assert(signed_step(arithmetic, minimum, maximum, bins, side, step));
    let quotient = arithmetic.divide(edge, step);
    let steps = arithmetic.round(quotient);
    let zero = arithmetic.is_zero(steps);
    let bias = if zero {
        arithmetic.zero()
    } else {
        edge
    };
    let adjusted_scale = if zero {
        step
    } else {
        arithmetic.divide(edge, steps)
    };
    assert(adjusted(arithmetic, edge, step, adjusted_scale, bias));
    (adjusted_scale, bias)
}

/// Finds the steps that the values of a group fall on.
fn number_steps<T: Copy, A: Arithmetic<T>>(
    arithmetic: &A,
    values: &Vec<T>,
    scale: T,
    bias: T,
    bins: i32,
) -> (numbers: Vec<u32>)
    requires
        0 <= bins,
    ensures
        step_numbers(arithmetic, values@, scale, bias, bins, numbers@),
        packing::all_below(numbers@, (bins + 1) as nat),
{
    let mut numbers: Vec<u32> = Vec::new();
    let mut i: usize = 0;
    while i < values.len()
        invariant
            i <= values@.len(),
            0 <= bins,
            numbers@.len() == i,
            forall|k: int|
                0 <= k < i ==> step_number(
                    arithmetic,
                    values@[k],
                    scale,
                    bias,
                    bins,
                    #[trigger] numbers@[k],
                ),
            packing::all_below(numbers@, (bins + 1) as nat),
        decreases values@.len() - i,
    {
        let difference = arithmetic.subtract(values[i], bias);
        let ratio = arithmetic.divide(difference, scale);
        let rounded = arithmetic.round(ratio);
        let count: u32 = arithmetic.to_count(rounded);
        let number: u32 = if count <= bins as u32 {
            count
        } else {
            bins as u32
        };
        assert(step_number(arithmetic, values@[i as int], scale, bias, bins, number));
        numbers.push(number);
        i += 1;
    }
    numbers
}

/// The number of steps that `bits` bits can count.
fn count_bins(bits: usize) -> (bins: i32)
    requires
        parameter_fault(32, bits as nat) is None,
    ensures
        bins == bins_of(bits as nat),
        bins + 1 == power2::pow2(bits as nat),
        0 < bins <= 255,
{
    proof {
        power2::lemma2_to64();
    }
    match bits {
        2 => 3,
        3 => 7,
        4 => 15,
        5 => 31,
        6 => 63,
        _ => 255,
    }
}

/// A group of weights, as parts of a matrix in affine layout.
struct Group<T> {
    scale: T,
    bias: T,
    words: Vec<u32>,
}

/// Converts a group of finite weights, if its parameters are finite.
fn convert_group<T: Copy, A: Arithmetic<T>>(
    arithmetic: &A,
    values: &Vec<T>,
    bits: usize,
) -> (group: Option<Group<T>>)
    requires
        parameter_fault(values@.len(), bits as nat) is None,
        dense::finite_before(arithmetic, values@, values@.len() as int),
    ensures
        match group {
            Some(group) => group_converted(
                arithmetic,
                values@,
                bits as nat,
                group.scale,
                group.bias,
                group.words@,
            ),
            None => parameters_refused(arithmetic, values@, bits as nat),
        },
{
    let bins: i32 = count_bins(bits);
    let (minimum, maximum) = find_span(arithmetic, values);
    let (scale, bias) = find_parameters(arithmetic, minimum, maximum, bins);
    assert(group_parameters(arithmetic, values@, bins, scale, bias));
    if !arithmetic.is_finite(scale) {
        return None;
    }
    if !arithmetic.is_finite(bias) {
        return None;
    }
    let numbers = number_steps(arithmetic, values, scale, bias, bins);
    proof {
        let length = values@.len();
        assert((length * bits) % 32 == 0) by {
            assert(length == 32 || length == 64 || length == 128);
            assert((32 * bits) % 32 == 0 && (64 * bits) % 32 == 0 && (128 * bits) % 32 == 0);
        }
    }
    let words = packing::pack(&numbers, bits, (bins + 1) as u64);
    Some(Group { scale, bias, words })
}

/// The scale or the bias of a group is not finite.
pub open spec fn parameters_refused<T, A: Arithmetic<T>>(
    arithmetic: &A,
    values: Seq<T>,
    bits: nat,
) -> bool {
    &&& dense::finite_before(arithmetic, values, values.len() as int)
    &&& exists|scale: T, bias: T|
        {
            &&& #[trigger] group_parameters(arithmetic, values, bins_of(bits), scale, bias)
            &&& (call_ensures(A::is_finite, (arithmetic, scale), false) || call_ensures(
                A::is_finite,
                (arithmetic, bias),
                false,
            ))
        }
}

/// Group `group` of a matrix, whose weights are stored in `data`, has the given
/// parts.
pub open spec fn group_holds<T, A: Arithmetic<T>>(
    arithmetic: &A,
    code: u32,
    data: Seq<u8>,
    group_size: nat,
    bits: nat,
    group: int,
    scale: T,
    bias: T,
    words: Seq<u32>,
) -> bool {
    exists|values: Seq<T>|
        {
            &&& values.len() == group_size
            &&& #[trigger] weights_from(arithmetic, code, data, group * group_size, values)
            &&& group_converted(arithmetic, values, bits, scale, bias, words)
        }
}

/// The number of words that a group is packed into.
pub open spec fn group_words(group_size: nat, bits: nat) -> nat {
    (group_size * bits) / 32
}

/// The words of one group.
pub open spec fn words_of(packed: Seq<u32>, words: nat, group: int) -> Seq<u32> {
    packed.subrange(group * words, group * words + words)
}

/// The first `count` groups of a matrix have been converted.
pub open spec fn groups_hold<T, A: Arithmetic<T>>(
    arithmetic: &A,
    code: u32,
    data: Seq<u8>,
    group_size: nat,
    bits: nat,
    count: int,
    packed: Seq<u32>,
    scales: Seq<T>,
    biases: Seq<T>,
) -> bool {
    let words = group_words(group_size, bits);
    &&& scales.len() == count
    &&& biases.len() == count
    &&& packed.len() == count * words
    &&& forall|group: int|
        0 <= group < count ==> group_holds(
            arithmetic,
            code,
            data,
            group_size,
            bits,
            group,
            #[trigger] scales[group],
            biases[group],
            words_of(packed, words, group),
        )
}

/// A weight of a group is not finite.
pub open spec fn group_not_finite<T, A: Arithmetic<T>>(
    arithmetic: &A,
    code: u32,
    data: Seq<u8>,
    group_size: nat,
    group: int,
) -> bool {
    exists|values: Seq<T>|
        {
            &&& values.len() <= group_size
            &&& #[trigger] weights_from(arithmetic, code, data, group * group_size, values)
            &&& dense::first_not_finite(arithmetic, values, values.len() - 1)
        }
}

/// The parameters of a group are not finite.
pub open spec fn group_refused<T, A: Arithmetic<T>>(
    arithmetic: &A,
    code: u32,
    data: Seq<u8>,
    group_size: nat,
    bits: nat,
    group: int,
) -> bool {
    exists|values: Seq<T>|
        {
            &&& values.len() == group_size
            &&& #[trigger] weights_from(arithmetic, code, data, group * group_size, values)
            &&& parameters_refused(arithmetic, values, bits)
        }
}

/// `group` is the first that cannot be converted, and `fault` says why.
pub open spec fn conversion_fails<T, A: Arithmetic<T>>(
    arithmetic: &A,
    code: u32,
    data: Seq<u8>,
    group_size: nat,
    bits: nat,
    groups: int,
    group: int,
    fault: ModelFault,
) -> bool {
    &&& 0 <= group < groups
    &&& exists|packed: Seq<u32>, scales: Seq<T>, biases: Seq<T>| #[trigger]
        groups_hold(
            arithmetic,
            code,
            data,
            group_size,
            bits,
            group,
            packed,
            scales,
            biases,
        )
    &&& {
        ||| {
            &&& group_not_finite::<T, A>(arithmetic, code, data, group_size, group)
            &&& fault == ModelFault::Shape("quantized matrix contains a non-finite value"@)
        }
        ||| {
            &&& group_refused::<T, A>(arithmetic, code, data, group_size, bits, group)
            &&& fault == ModelFault::Shape("MLX affine parameters are non-finite"@)
        }
    }
}

/// Why a tensor in a file cannot be converted to affine layout.
pub open spec fn affine_fault(
    file: nat,
    descriptor: Descriptor,
    group_size: nat,
    bits: nat,
) -> Option<ModelFault> {
    if parameter_fault(group_size, bits) is Some {
        parameter_fault(group_size, bits)
    } else if descriptor.shape.len() != 2 {
        Some(
            ModelFault::Shape(
                "MLX affine quantization requires a rank-2 matrix, got "@ + text::number_list(
                    descriptor.shape.map_values(|v: usize| v as nat),
                ),
            ),
        )
    } else if descriptor.shape[0] as nat % group_size != 0 {
        Some(
            ModelFault::Shape(
                "MLX affine input dimension "@ + text::decimal(descriptor.shape[0] as nat)
                    + " is not divisible by group size "@ + text::decimal(group_size),
            ),
        )
    } else {
        let storage = matrix::storage_fault(
            descriptor,
            "quantized matrix rows must be a multiple of "@,
        );
        let range = descriptor::range_fault(descriptor.byte_offset, descriptor.byte_len, file);
        if storage is Some {
            storage
        } else if range is Some {
            range
        } else if descriptor.shape[0] * bits > usize::MAX {
            Some(ModelFault::Shape("MLX packed matrix shape overflows"@))
        } else {
            None
        }
    }
}

/// The number of groups in a matrix.
pub open spec fn group_count(descriptor: Descriptor, group_size: nat) -> nat {
    descriptor.shape[1] as nat * (descriptor.shape[0] as nat / group_size)
}

/// How a request to convert a tensor in a file is answered.
pub open spec fn affine_answer<T, A: Arithmetic<T>>(
    arithmetic: &A,
    file: Seq<u8>,
    descriptor: Descriptor,
    group_size: nat,
    bits: nat,
    result: Result<AffineQuantizedMatrix<T>, ModelError>,
) -> bool {
    let data = descriptor::range_of(file, descriptor.byte_offset, descriptor.byte_len);
    match affine_fault(file.len(), descriptor, group_size, bits) {
        Some(fault) => result matches Err(error) && error@ == fault,
        None => match result {
            Ok(matrix) => {
                &&& matrix@.rows == descriptor.shape[1]
                &&& matrix@.columns == descriptor.shape[0]
                &&& matrix@.group_size == group_size
                &&& matrix@.bits == bits
                &&& groups_hold(
                    arithmetic,
                    descriptor.value_type,
                    data,
                    group_size,
                    bits,
                    group_count(descriptor, group_size) as int,
                    matrix@.packed,
                    matrix@.scales,
                    matrix@.biases,
                )
            },
            Err(error) => exists|group: int| #[trigger]
                conversion_fails::<T, A>(
                    arithmetic,
                    descriptor.value_type,
                    data,
                    group_size,
                    bits,
                    group_count(descriptor, group_size) as int,
                    group,
                    error@,
                ),
        },
    }
}

/// Every weight of a matrix lies inside its bytes.
proof fn lemma_places(code: u32, rows: nat, columns: nat, length: nat, index: nat)
    requires
        blocks::quantized_layout(code) matches Some(layout) && rows % layout.0 == 0
            && descriptor::matrix_bytes(rows, columns, layout) == Some(length),
        index < rows * columns,
    ensures
        decode::place_fault(code, length, index) is None,
{
    let layout = blocks::quantized_layout(code)->0;
    assert(blocks::layout_of(code) == Some(layout));
    let values = layout.0 as int;
    let size = layout.1 as int;
    let total = (rows * columns) as int;
    let per_column = rows as int / values;
    assert(total % values == 0) by {
        assert(rows as int == per_column * values) by (nonlinear_arith)
            requires
                per_column == rows as int / values,
                rows as int % values == 0,
                values > 0,
        ;
        assert(total == (per_column * columns) * values) by (nonlinear_arith)
            requires
                total == rows * columns,
                rows as int == per_column * values,
        ;
        vstd::arithmetic::div_mod::lemma_mod_multiples_basic(per_column * columns as int, values);
    }
    let block = index as int / values;
    let blocks = total / values;
    assert(block < blocks) by (nonlinear_arith)
        requires
            block == index as int / values,
            blocks == total / values,
            total % values == 0,
            index < total,
            values > 0,
    ;
    assert(block * size + size <= blocks * size && 0 <= block * size) by (nonlinear_arith)
        requires
            0 <= block < blocks,
            size > 0,
    ;
}

/// A group that is appended leaves those before it as they are.
proof fn lemma_group_appended(
    packed: Seq<u32>,
    added: Seq<u32>,
    words: nat,
    count: int,
)
    requires
        0 <= count,
        packed.len() == count * words,
        added.len() == words,
    ensures
        (packed + added).len() == (count + 1) * words,
        words_of(packed + added, words, count) == added,
        forall|group: int|
            0 <= group < count ==> #[trigger] words_of(packed + added, words, group) == words_of(
                packed,
                words,
                group,
            ),
{
    assert((count + 1) * words == count * words + words) by (nonlinear_arith);
    assert(words_of(packed + added, words, count) =~= added);
    assert forall|group: int| 0 <= group < count implies #[trigger] words_of(
        packed + added,
        words,
        group,
    ) == words_of(packed, words, group) by {
        assert(0 <= group * words && group * words + words <= count * words) by (nonlinear_arith)
            requires
                0 <= group < count,
        ;
        assert(words_of(packed + added, words, group) =~= words_of(packed, words, group));
    }
}

/// Converts a quantized matrix in a file to affine layout, one group at a
/// time.
pub(crate) fn materialize_affine_quantized<T: Copy, A: Arithmetic<T>>(
    file: &[u8],
    descriptor: &TensorDescriptor,
    group_size: usize,
    bits: usize,
    arithmetic: &A,
) -> (result: Result<AffineQuantizedMatrix<T>, ModelError>)
    ensures
        affine_answer(
            arithmetic,
            file@,
            descriptor@,
            group_size as nat,
            bits as nat,
            result,
        ),
{
    validate_affine_quantization(group_size, bits)?;
    if descriptor.shape().len() != 2 {
        return Err(
            error::listed_shape_error(
                "MLX affine quantization requires a rank-2 matrix, got ",
                descriptor.shape(),
            ),
        );
    }
    let input: usize = descriptor.shape()[0];
    if input % group_size != 0 {
        let error = error::compared_shape_error(
            "MLX affine input dimension ",
            input as u64,
            " is not divisible by group size ",
            group_size as u64,
            "",
        );
        proof {
            reveal_strlit("");
            let text = "MLX affine input dimension "@ + text::decimal(input as nat)
                + " is not divisible by group size "@ + text::decimal(group_size as nat);
            assert(text + ""@ =~= text);
        }
        return Err(error);
    }
    let length: usize = matrix::check_storage(
        descriptor,
        "quantized matrix rows must be a multiple of ",
    )?;
    let data = descriptor::tensor_range(file, descriptor.byte_offset(), length)?;
    if input.checked_mul(bits).is_none() {
        return Err(error::shape_error("MLX packed matrix shape overflows"));
    }
    convert(data, descriptor, group_size, bits, arithmetic, Ghost(file@))
}

/// Converts the bytes of a quantized matrix to affine layout.
fn convert<T: Copy, A: Arithmetic<T>>(
    data: &[u8],
    descriptor: &TensorDescriptor,
    group_size: usize,
    bits: usize,
    arithmetic: &A,
    Ghost(file): Ghost<Seq<u8>>,
) -> (result: Result<AffineQuantizedMatrix<T>, ModelError>)
    requires
        affine_fault(file.len(), descriptor@, group_size as nat, bits as nat) is None,
        data@ == descriptor::range_of(file, descriptor@.byte_offset, descriptor@.byte_len),
    ensures
        affine_answer(arithmetic, file, descriptor@, group_size as nat, bits as nat, result),
{
    let input: usize = descriptor.shape()[0];
    let output: usize = descriptor.shape()[1];
    let value_type = descriptor.value_type();
    let ghost code = descriptor@.value_type;
    let ghost elements = (input * output) as nat;
    let ghost words = group_words(group_size as nat, bits as nat);
    let ghost total = group_count(descriptor@, group_size as nat);
    let groups_in_row: usize = input / group_size;
    proof {
        assert(data@.len() == descriptor@.byte_len);
        assert(input == groups_in_row * group_size) by (nonlinear_arith)
            requires
                groups_in_row == input as int / group_size as int,
                input as int % group_size as int == 0,
                group_size > 0,
        ;
        assert(total * group_size == elements) by (nonlinear_arith)
            requires
                total == output * groups_in_row,
                input == groups_in_row * group_size,
                elements == input * output,
        ;
        assert(total <= elements) by (nonlinear_arith)
            requires
                total * group_size == elements,
                group_size > 0,
        ;
        assert forall|i: nat| i < elements implies (#[trigger] decode::place_fault(
            code,
            data@.len(),
            i,
        )) is None by {
            lemma_places(code, input as nat, output as nat, data@.len(), i);
        }
    }
    let groups: usize = output * groups_in_row;
    let mut packed: Vec<u32> = Vec::new();
    let mut scales: Vec<T> = Vec::new();
    let mut biases: Vec<T> = Vec::new();
    let mut group: usize = 0;
    assert(packed@.len() == 0 * words);
    while group < groups
        invariant
            group <= groups,
            groups == total,
            total == group_count(descriptor@, group_size as nat),
            total * group_size == elements,
            elements <= usize::MAX,
            parameter_fault(group_size as nat, bits as nat) is None,
            affine_fault(file.len(), descriptor@, group_size as nat, bits as nat) is None,
            data@ == descriptor::range_of(file, descriptor@.byte_offset, descriptor@.byte_len),
            blocks::quantized_layout(code) is Some,
            code == descriptor@.value_type,
            code == value_type.code(),
            words == group_words(group_size as nat, bits as nat),
            forall|i: nat| i < elements ==> (#[trigger] decode::place_fault(
                code,
                data@.len(),
                i,
            )) is None,
            groups_hold(
                arithmetic,
                code,
                data@,
                group_size as nat,
                bits as nat,
                group as int,
                packed@,
                scales@,
                biases@,
            ),
        decreases groups - group,
    {
        proof {
            assert(group * group_size + group_size <= total * group_size) by (nonlinear_arith)
                requires
                    group + 1 <= total,
                    group_size > 0,
            ;
        }
        let values: Vec<T> = match read_group(
            arithmetic,
            value_type,
            data,
            group,
            group_size,
            Ghost(elements),
        ) {
            Some(values) => values,
            None => {
                let error = error::shape_error("quantized matrix contains a non-finite value");
                assert(conversion_fails::<T, A>(
                    arithmetic,
                    code,
                    data@,
                    group_size as nat,
                    bits as nat,
                    total as int,
                    group as int,
                    error@,
                ));
                return Err(error);
            },
        };
        match convert_group(arithmetic, &values, bits) {
            None => {
                let error = error::shape_error("MLX affine parameters are non-finite");
                assert(weights_from(
                    arithmetic,
                    code,
                    data@,
                    group as int * group_size as nat,
                    values@,
                ));
                assert(group_refused::<T, A>(
                    arithmetic,
                    code,
                    data@,
                    group_size as nat,
                    bits as nat,
                    group as int,
                ));
                assert(conversion_fails::<T, A>(
                    arithmetic,
                    code,
                    data@,
                    group_size as nat,
                    bits as nat,
                    total as int,
                    group as int,
                    error@,
                ));
                return Err(error);
            },
            Some(converted) => {
                let ghost before = packed@;
                let ghost added = converted.words@;
                let ghost earlier_scales = scales@;
                let ghost earlier_biases = biases@;
                proof {
                    assert(weights_from(
                        arithmetic,
                        code,
                        data@,
                        group as int * group_size as nat,
                        values@,
                    ));
                    assert(group_holds(
                        arithmetic,
                        code,
                        data@,
                        group_size as nat,
                        bits as nat,
                        group as int,
                        converted.scale,
                        converted.bias,
                        added,
                    ));
                    lemma_group_appended(before, added, words, group as int);
                }
                let mut converted_words = converted.words;
                packed.append(&mut converted_words);
                scales.push(converted.scale);
                biases.push(converted.bias);
                proof {
                    assert(packed@ =~= before + added);
                    assert forall|g: int| 0 <= g < group + 1 implies group_holds(
                        arithmetic,
                        code,
                        data@,
                        group_size as nat,
                        bits as nat,
                        g,
                        #[trigger] scales@[g],
                        biases@[g],
                        words_of(packed@, words, g),
                    ) by {
                        if g < group {
                            assert(scales@[g] == earlier_scales[g]);
                            assert(biases@[g] == earlier_biases[g]);
                        }
                    }
                }
            },
        }
        group += 1;
    }
    Ok(
        AffineQuantizedMatrix {
            rows: output,
            columns: input,
            group_size,
            bits,
            packed,
            scales,
            biases,
        },
    )
}

} // verus!
