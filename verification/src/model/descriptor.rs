//! Tensors in the index of a model.

use vstd::prelude::*;
use vstd::string::*;

use crate::gguf::types::TensorType;
use crate::model::blocks;
use crate::model::error;
use crate::model::error::{ModelError, ModelFault};
use crate::tensor::dense;
use crate::text;

verus! {

/// An indexed tensor in a validated GGUF model.
#[derive(Debug, PartialEq, Eq)]
pub struct TensorDescriptor {
    pub(crate) name: String,
    pub(crate) shape: Vec<usize>,
    pub(crate) value_type: TensorType,
    pub(crate) byte_offset: u64,
    pub(crate) byte_len: u64,
}

/// An indexed tensor, as a mathematical value.
#[verifier::ext_equal]
pub struct Descriptor {
    pub name: Seq<char>,
    pub shape: Seq<usize>,
    pub value_type: u32,
    pub byte_offset: nat,
    pub byte_len: nat,
}

impl View for TensorDescriptor {
    type V = Descriptor;

    closed spec fn view(&self) -> Descriptor {
        Descriptor {
            name: self.name@,
            shape: self.shape@,
            value_type: self.value_type.code(),
            byte_offset: self.byte_offset as nat,
            byte_len: self.byte_len as nat,
        }
    }
}

impl Clone for TensorDescriptor {
    fn clone(&self) -> (copy: Self)
        ensures
            copy@ == self@,
    {
        TensorDescriptor {
            name: text::owned(self.name.as_str()),
            shape: dense::copy_shape(&self.shape),
            value_type: self.value_type,
            byte_offset: self.byte_offset,
            byte_len: self.byte_len,
        }
    }
}

impl TensorDescriptor {
    pub(crate) fn new(
        name: &str,
        shape: Vec<usize>,
        value_type: TensorType,
        byte_offset: u64,
        byte_len: u64,
    ) -> (descriptor: Self)
        ensures
            descriptor@ == (Descriptor {
                name: name@,
                shape: shape@,
                value_type: value_type.code(),
                byte_offset: byte_offset as nat,
                byte_len: byte_len as nat,
            }),
    {
        TensorDescriptor { name: text::owned(name), shape, value_type, byte_offset, byte_len }
    }

    /// Returns the GGUF tensor name.
    pub fn name(&self) -> (name: &str)
        ensures
            name@ == self@.name,
    {
        self.name.as_str()
    }

    /// Returns the logical tensor shape.
    pub fn shape(&self) -> (shape: &[usize])
        ensures
            shape@ == self@.shape,
    {
        self.shape.as_slice()
    }

    /// Returns the GGML storage type.
    pub fn value_type(&self) -> (value_type: TensorType)
        ensures
            value_type.code() == self@.value_type,
    {
        self.value_type
    }

    /// Returns the absolute file offset of the tensor bytes.
    pub fn byte_offset(&self) -> (offset: u64)
        ensures
            offset == self@.byte_offset,
    {
        self.byte_offset
    }

    /// Returns the encoded tensor byte length.
    pub fn byte_len(&self) -> (length: u64)
        ensures
            length == self@.byte_len,
    {
        self.byte_len
    }
}

/// Why a tensor with a given offset and length has no bytes in a file.
pub open spec fn range_fault(offset: nat, length: nat, file: nat) -> Option<ModelFault> {
    if offset > usize::MAX {
        Some(ModelFault::Shape("tensor offset exceeds usize"@))
    } else if offset + length > usize::MAX {
        Some(ModelFault::Shape("tensor range overflows usize"@))
    } else if offset + length > file {
        Some(ModelFault::Parse("tensor range is outside the file"@))
    } else {
        None
    }
}

/// The bytes of a tensor in a file.
pub open spec fn range_of(file: Seq<u8>, offset: nat, length: nat) -> Seq<u8> {
    file.subrange(offset as int, (offset + length) as int)
}

/// Finds the bytes of a tensor in a file.
pub(crate) fn tensor_range(file: &[u8], offset: u64, length: usize) -> (result: Result<
    &[u8],
    ModelError,
>)
    ensures
        match result {
            Ok(data) => {
                &&& range_fault(offset as nat, length as nat, file@.len()) is None
                &&& data@ == range_of(file@, offset as nat, length as nat)
            },
            Err(error) => range_fault(offset as nat, length as nat, file@.len()) == Some(error@),
        },
{
    if offset > usize::MAX as u64 {
        return Err(error::shape_error("tensor offset exceeds usize"));
    }
    let start: usize = offset as usize;
    match start.checked_add(length) {
        None => Err(error::shape_error("tensor range overflows usize")),
        Some(end) => if end > file.len() {
            Err(ModelError::Parse(text::owned("tensor range is outside the file")))
        } else {
            Ok(&file[start..end])
        },
    }
}

/// The number of bytes that a matrix takes, unless the machine cannot count
/// them.
pub open spec fn matrix_bytes(rows: nat, columns: nat, layout: (nat, nat)) -> Option<nat> {
    let blocks = (rows * columns) / layout.0;
    if rows * columns > usize::MAX || blocks * layout.1 > usize::MAX {
        None
    } else {
        Some(blocks * layout.1)
    }
}

/// Counts the bytes that a matrix takes.
pub(crate) fn count_matrix_bytes(rows: usize, columns: usize, layout: (usize, usize)) -> (count:
    Option<usize>)
    requires
        layout.0 > 0,
    ensures
        match count {
            Some(count) => matrix_bytes(
                rows as nat,
                columns as nat,
                (layout.0 as nat, layout.1 as nat),
            ) == Some(count as nat),
            None => matrix_bytes(
                rows as nat,
                columns as nat,
                (layout.0 as nat, layout.1 as nat),
            ) is None,
        },
{
    match rows.checked_mul(columns) {
        None => None,
        Some(elements) => (elements / layout.0).checked_mul(layout.1),
    }
}

} // verus!
