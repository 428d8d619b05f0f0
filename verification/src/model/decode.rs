//! The weights of stored tensors.

use vstd::prelude::*;
use vstd::string::*;

use crate::gguf::types;
use crate::gguf::types::TensorType;
use crate::model::blocks;
use crate::model::error;
use crate::model::error::{ModelError, ModelFault};
use crate::model::term;
use crate::tensor::arithmetic::Arithmetic;
use crate::tensor::dense;
use crate::text;

verus! {

/// Why stored bytes cannot be decoded.
pub open spec fn decode_fault(code: u32, length: nat) -> Option<ModelFault> {
    match blocks::layout_of(code) {
        None => Some(
            ModelFault::UnsupportedTensorType { name: "<unknown>"@, value_type: code },
        ),
        Some(layout) => if length % layout.1 == 0 {
            None
        } else if blocks::quantized_layout(code) is None {
            Some(
                ModelFault::Shape(
                    types::tensor_type_name(code) + " tensor byte length is not aligned"@,
                ),
            )
        } else {
            Some(
                ModelFault::Shape(
                    types::tensor_type_name(code) + " tensor byte length is not block aligned"@,
                ),
            )
        },
    }
}

/// The number of weights in stored bytes.
pub open spec fn weight_count(code: u32, length: nat) -> nat {
    let layout = blocks::layout_of(code)->0;
    (length / layout.1) * layout.0
}

/// `values` are the weights that are stored in `data`.
pub open spec fn decoded<T, A: Arithmetic<T>>(
    arithmetic: &A,
    code: u32,
    data: Seq<u8>,
    values: Seq<T>,
) -> bool {
    &&& values.len() == weight_count(code, data.len())
    &&& forall|i: int|
        0 <= i < values.len() ==> term::term_value(
            arithmetic,
            blocks::term_at(code, data, i),
            #[trigger] values[i],
        )
}

/// How an attempt to decode stored bytes is answered.
pub open spec fn decode_answer<T, A: Arithmetic<T>>(
    arithmetic: &A,
    code: u32,
    data: Seq<u8>,
    result: Result<Vec<T>, ModelError>,
) -> bool {
    match result {
        Ok(values) => {
            &&& decode_fault(code, data.len()) is None
            &&& decoded(arithmetic, code, data, values@)
        },
        Err(error) => decode_fault(code, data.len()) == Some(error@),
    }
}

/// A reason that starts with the name of a type.
fn named_shape_error(value_type: TensorType, reason: &str) -> (error: ModelError)
    ensures
        error@ == ModelFault::Shape(types::tensor_type_name(value_type.code()) + reason@),
{
    let mut text = String::new();
    text.append(value_type.name());
    text.append(reason);
    assert(text@ =~= types::tensor_type_name(value_type.code()) + reason@);
    ModelError::Shape(text)
}

/// Decodes all weights of a tensor.
pub fn decode_values<T: Copy, A: Arithmetic<T>>(
    value_type: TensorType,
    data: &[u8],
    arithmetic: &A,
) -> (result: Result<Vec<T>, ModelError>)
    ensures
        decode_answer(arithmetic, value_type.code(), data@, result),
{
    let code: u32 = value_type.raw();
    let (per_block, block_bytes) = match blocks::block_layout(code) {
        Some(layout) => layout,
        None => {
            return Err(
                ModelError::UnsupportedTensorType { name: text::owned("<unknown>"), value_type },
            );
        },
    };
    let total: usize = data.len();
    if total % block_bytes != 0 {
        if blocks::quantized_block_layout(code).is_none() {
            return Err(named_shape_error(value_type, " tensor byte length is not aligned"));
        }
        return Err(named_shape_error(value_type, " tensor byte length is not block aligned"));
    }
    let count: usize = total / block_bytes;
    let mut values: Vec<T> = Vec::new();
    let mut block: usize = 0;
    while block < count
        invariant
            block <= count,
            total == data@.len(),
            count * block_bytes == total,
            blocks::layout_of(code) == Some((per_block as nat, block_bytes as nat)),
            values@.len() == block * per_block,
            forall|i: int|
                0 <= i < values@.len() ==> term::term_value(
                    arithmetic,
                    blocks::term_at(code, data@, i),
                    #[trigger] values@[i],
                ),
        decreases count - block,
    {
        let ghost at = block * block_bytes;
        proof {
            assert(at + block_bytes <= count * block_bytes) by (nonlinear_arith)
                requires
                    at == block * block_bytes,
                    block + 1 <= count,
                    block_bytes > 0,
            ;
        }
        let start: usize = block * block_bytes;
        let mut offset: usize = 0;
        while offset < per_block
            invariant
                offset <= per_block,
                total == data@.len(),
                start == block * block_bytes,
                start + block_bytes <= total,
                blocks::layout_of(code) == Some((per_block as nat, block_bytes as nat)),
                values@.len() == block * per_block + offset,
                forall|i: int|
                    0 <= i < values@.len() ==> term::term_value(
                        arithmetic,
                        blocks::term_at(code, data@, i),
                        #[trigger] values@[i],
                    ),
            decreases per_block - offset,
        {
            let stored = blocks::read_term(code, data, start, offset);
            let value = term::evaluate(arithmetic, stored);
            proof {
                dense::lemma_split(block as int, offset as int, per_block as int);
                assert(stored == blocks::term_at(code, data@, values@.len() as int));
            }
            values.push(value);
            offset += 1;
        }
        assert((block + 1) * per_block == block * per_block + per_block) by (nonlinear_arith);
        block += 1;
    }
    Ok(values)
}

/// Why a weight cannot be read.
pub open spec fn place_fault(code: u32, length: nat, index: nat) -> Option<ModelFault> {
    let layout = blocks::layout_of(code)->0;
    let start = (index / layout.0) * layout.1;
    if start > usize::MAX {
        Some(ModelFault::Shape(types::tensor_type_name(code) + " index overflows"@))
    } else if start + layout.1 > usize::MAX {
        Some(ModelFault::Shape(types::tensor_type_name(code) + " block range overflows"@))
    } else if start + layout.1 > length {
        Some(ModelFault::Shape(types::tensor_type_name(code) + " block is outside the tensor"@))
    } else {
        None
    }
}

/// Decodes one weight of a quantized tensor.
pub fn quantized_value_at<T: Copy, A: Arithmetic<T>>(
    value_type: TensorType,
    data: &[u8],
    index: usize,
    arithmetic: &A,
) -> (result: Result<T, ModelError>)
    requires
        blocks::quantized_layout(value_type.code()) is Some,
    ensures
        match result {
            Ok(value) => {
                &&& place_fault(value_type.code(), data@.len(), index as nat) is None
                &&& term::term_value(
                    arithmetic,
                    blocks::term_at(value_type.code(), data@, index as int),
                    value,
                )
            },
            Err(error) => place_fault(value_type.code(), data@.len(), index as nat) == Some(
                error@,
            ),
        },
{
    let code: u32 = value_type.raw();
    let (per_block, block_bytes) = match blocks::block_layout(code) {
        Some(layout) => layout,
        None => {
            return Err(named_shape_error(value_type, " index overflows"));
        },
    };
    let start: usize = match (index / per_block).checked_mul(block_bytes) {
        Some(start) => start,
        None => {
            return Err(named_shape_error(value_type, " index overflows"));
        },
    };
    let end: usize = match start.checked_add(block_bytes) {
        Some(end) => end,
        None => {
            return Err(named_shape_error(value_type, " block range overflows"));
        },
    };
    if end > data.len() {
        return Err(named_shape_error(value_type, " block is outside the tensor"));
    }
    Ok(term::evaluate(arithmetic, blocks::read_term(code, data, start, index % per_block)))
}

} // verus!
