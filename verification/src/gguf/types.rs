//! The values a GGUF file holds.

use vstd::prelude::*;
use vstd::string::*;

use crate::bytes;

verus! {

/// The type of one metadata value.
#[derive(Debug, Clone, Copy, PartialEq, Eq, Structural)]
pub enum MetadataType {
    U8,
    I8,
    U16,
    I16,
    U32,
    I32,
    F32,
    Bool,
    String,
    Array,
    U64,
    I64,
    F64,
}

/// The metadata type with a given code.
pub open spec fn metadata_type_of(code: u32) -> Option<MetadataType> {
    match code {
        0 => Some(MetadataType::U8),
        1 => Some(MetadataType::I8),
        2 => Some(MetadataType::U16),
        3 => Some(MetadataType::I16),
        4 => Some(MetadataType::U32),
        5 => Some(MetadataType::I32),
        6 => Some(MetadataType::F32),
        7 => Some(MetadataType::Bool),
        8 => Some(MetadataType::String),
        9 => Some(MetadataType::Array),
        10 => Some(MetadataType::U64),
        11 => Some(MetadataType::I64),
        12 => Some(MetadataType::F64),
        _ => None,
    }
}

/// The code of a metadata type.
pub open spec fn metadata_type_code(value_type: MetadataType) -> u32 {
    match value_type {
        MetadataType::U8 => 0,
        MetadataType::I8 => 1,
        MetadataType::U16 => 2,
        MetadataType::I16 => 3,
        MetadataType::U32 => 4,
        MetadataType::I32 => 5,
        MetadataType::F32 => 6,
        MetadataType::Bool => 7,
        MetadataType::String => 8,
        MetadataType::Array => 9,
        MetadataType::U64 => 10,
        MetadataType::I64 => 11,
        MetadataType::F64 => 12,
    }
}

/// Every metadata type is found under its own code.
pub proof fn law_metadata_type_codes(value_type: MetadataType, code: u32)
    ensures
        metadata_type_of(metadata_type_code(value_type)) == Some(value_type),
        metadata_type_of(code) == Some(value_type) <==> code == metadata_type_code(value_type),
{
}

impl vstd::std_specs::convert::TryFromSpecImpl<u32> for MetadataType {
    open spec fn obeys_try_from_spec() -> bool {
        true
    }

    open spec fn try_from_spec(code: u32) -> Result<Self, ()> {
        match metadata_type_of(code) {
            Some(value_type) => Ok(value_type),
            None => Err(()),
        }
    }
}

impl TryFrom<u32> for MetadataType {
    type Error = ();

    fn try_from(code: u32) -> (result: Result<Self, ()>) {
        match code {
            0 => Ok(MetadataType::U8),
            1 => Ok(MetadataType::I8),
            2 => Ok(MetadataType::U16),
            3 => Ok(MetadataType::I16),
            4 => Ok(MetadataType::U32),
            5 => Ok(MetadataType::I32),
            6 => Ok(MetadataType::F32),
            7 => Ok(MetadataType::Bool),
            8 => Ok(MetadataType::String),
            9 => Ok(MetadataType::Array),
            10 => Ok(MetadataType::U64),
            11 => Ok(MetadataType::I64),
            12 => Ok(MetadataType::F64),
            _ => Err(()),
        }
    }
}

/// The number of bytes that a value of fixed width occupies.
pub open spec fn fixed_width_of(value_type: MetadataType) -> Option<nat> {
    match value_type {
        MetadataType::U8 | MetadataType::I8 | MetadataType::Bool => Some(1),
        MetadataType::U16 | MetadataType::I16 => Some(2),
        MetadataType::U32 | MetadataType::I32 | MetadataType::F32 => Some(4),
        MetadataType::U64 | MetadataType::I64 | MetadataType::F64 => Some(8),
        MetadataType::String | MetadataType::Array => None,
    }
}

impl MetadataType {
    /// The code that stands for this type in a file.
    pub fn code(self) -> (code: u32)
        ensures
            code == metadata_type_code(self),
    {
        match self {
            MetadataType::U8 => 0,
            MetadataType::I8 => 1,
            MetadataType::U16 => 2,
            MetadataType::I16 => 3,
            MetadataType::U32 => 4,
            MetadataType::I32 => 5,
            MetadataType::F32 => 6,
            MetadataType::Bool => 7,
            MetadataType::String => 8,
            MetadataType::Array => 9,
            MetadataType::U64 => 10,
            MetadataType::I64 => 11,
            MetadataType::F64 => 12,
        }
    }

    pub(crate) fn fixed_width(self) -> (width: Option<usize>)
        ensures
            match width {
                Some(width) => fixed_width_of(self) == Some(width as nat) && 1 <= width <= 8,
                None => fixed_width_of(self) is None,
            },
    {
        match self {
            MetadataType::U8 | MetadataType::I8 | MetadataType::Bool => Some(1),
            MetadataType::U16 | MetadataType::I16 => Some(2),
            MetadataType::U32 | MetadataType::I32 | MetadataType::F32 => Some(4),
            MetadataType::U64 | MetadataType::I64 | MetadataType::F64 => Some(8),
            MetadataType::String | MetadataType::Array => None,
        }
    }
}

/// One metadata scalar. Floating-point values are held by their IEEE 754 bits.
#[derive(Debug, Clone, Copy, PartialEq)]
pub enum ScalarValue<'a> {
    U8(u8),
    I8(i8),
    U16(u16),
    I16(i16),
    U32(u32),
    I32(i32),
    F32(u32),
    Bool(bool),
    String(&'a str),
    U64(u64),
    I64(i64),
    F64(u64),
}

/// One metadata scalar, as a mathematical value.
#[verifier::ext_equal]
pub enum Scalar {
    U8(u8),
    I8(i8),
    U16(u16),
    I16(i16),
    U32(u32),
    I32(i32),
    F32(u32),
    Bool(bool),
    String(Seq<char>),
    U64(u64),
    I64(i64),
    F64(u64),
}

impl<'a> View for ScalarValue<'a> {
    type V = Scalar;

    open spec fn view(&self) -> Scalar {
        match *self {
            ScalarValue::U8(value) => Scalar::U8(value),
            ScalarValue::I8(value) => Scalar::I8(value),
            ScalarValue::U16(value) => Scalar::U16(value),
            ScalarValue::I16(value) => Scalar::I16(value),
            ScalarValue::U32(value) => Scalar::U32(value),
            ScalarValue::I32(value) => Scalar::I32(value),
            ScalarValue::F32(bits) => Scalar::F32(bits),
            ScalarValue::Bool(value) => Scalar::Bool(value),
            ScalarValue::String(value) => Scalar::String(value@),
            ScalarValue::U64(value) => Scalar::U64(value),
            ScalarValue::I64(value) => Scalar::I64(value),
            ScalarValue::F64(bits) => Scalar::F64(bits),
        }
    }
}

/// The type of a scalar.
pub open spec fn scalar_type(value: Scalar) -> MetadataType {
    match value {
        Scalar::U8(_) => MetadataType::U8,
        Scalar::I8(_) => MetadataType::I8,
        Scalar::U16(_) => MetadataType::U16,
        Scalar::I16(_) => MetadataType::I16,
        Scalar::U32(_) => MetadataType::U32,
        Scalar::I32(_) => MetadataType::I32,
        Scalar::F32(_) => MetadataType::F32,
        Scalar::Bool(_) => MetadataType::Bool,
        Scalar::String(_) => MetadataType::String,
        Scalar::U64(_) => MetadataType::U64,
        Scalar::I64(_) => MetadataType::I64,
        Scalar::F64(_) => MetadataType::F64,
    }
}

/// The scalar of fixed width that `bytes` encode, if the type has a fixed width.
pub open spec fn fixed_scalar(value_type: MetadataType, bytes: Seq<u8>) -> Scalar {
    let value = bytes::le_value(bytes);
    match value_type {
        MetadataType::U8 => Scalar::U8(value as u8),
        MetadataType::I8 => Scalar::I8(bytes::signed(value, 8) as i8),
        MetadataType::U16 => Scalar::U16(value as u16),
        MetadataType::I16 => Scalar::I16(bytes::signed(value, 16) as i16),
        MetadataType::U32 => Scalar::U32(value as u32),
        MetadataType::I32 => Scalar::I32(bytes::signed(value, 32) as i32),
        MetadataType::F32 => Scalar::F32(value as u32),
        MetadataType::Bool => Scalar::Bool(value != 0),
        MetadataType::U64 => Scalar::U64(value as u64),
        MetadataType::I64 => Scalar::I64(bytes::signed(value, 64) as i64),
        MetadataType::F64 => Scalar::F64(value as u64),
        MetadataType::String | MetadataType::Array => arbitrary(),
    }
}

/// Decodes a scalar of fixed width.
pub(crate) fn decode_scalar<'a>(value_type: MetadataType, bytes: &[u8]) -> (value: ScalarValue<'a>)
    requires
        fixed_width_of(value_type) == Some(bytes@.len()),
    ensures
        value@ == fixed_scalar(value_type, bytes@),
{
    let value = bytes::read_le(bytes);
    match value_type {
        MetadataType::U8 => ScalarValue::U8(value as u8),
        MetadataType::I8 => ScalarValue::I8(bytes::signed_byte(value as u8)),
        MetadataType::U16 => ScalarValue::U16(value as u16),
        MetadataType::I16 => {
            let half: u16 = value as u16;
            assert(half < 0x8000 ==> half as i16 == half) by (bit_vector);
            assert(half >= 0x8000 ==> half as i16 == half - 0x1_0000) by (bit_vector);
            ScalarValue::I16(half as i16)
        },
        MetadataType::U32 => ScalarValue::U32(value as u32),
        MetadataType::I32 => {
            let word: u32 = value as u32;
            assert(word < 0x8000_0000 ==> word as i32 == word) by (bit_vector);
            assert(word >= 0x8000_0000 ==> word as i32 == word - 0x1_0000_0000) by (bit_vector);
            ScalarValue::I32(word as i32)
        },
        MetadataType::F32 => ScalarValue::F32(value as u32),
        MetadataType::Bool => ScalarValue::Bool(value != 0),
        MetadataType::U64 => ScalarValue::U64(value),
        MetadataType::I64 => {
            assert(value < 0x8000_0000_0000_0000 ==> value as i64 == value) by (bit_vector);
            assert(value >= 0x8000_0000_0000_0000 ==> value as i64 == value
                - 0x1_0000_0000_0000_0000) by (bit_vector);
            ScalarValue::I64(value as i64)
        },
        _ => ScalarValue::F64(value),
    }
}

/// A metadata value: a scalar or an array of scalars of one type.
#[derive(Debug, PartialEq)]
pub enum MetadataValue<'a> {
    Scalar(ScalarValue<'a>),
    Array(MetadataArray<'a>),
}

/// A metadata value, as a mathematical value.
#[verifier::ext_equal]
pub enum Value {
    Scalar(Scalar),
    Array { element_type: MetadataType, items: Seq<Scalar> },
}

impl<'a> View for MetadataValue<'a> {
    type V = Value;

    open spec fn view(&self) -> Value {
        match *self {
            MetadataValue::Scalar(value) => Value::Scalar(value@),
            MetadataValue::Array(array) => Value::Array {
                element_type: array.spec_element_type(),
                items: array@,
            },
        }
    }
}

impl<'a> Clone for MetadataValue<'a> {
    fn clone(&self) -> (copy: Self)
        ensures
            copy@ == self@,
    {
        match self {
            MetadataValue::Scalar(value) => MetadataValue::Scalar(*value),
            MetadataValue::Array(array) => MetadataValue::Array(array.clone()),
        }
    }
}

/// The type of a metadata value.
pub open spec fn value_type_of(value: Value) -> MetadataType {
    match value {
        Value::Scalar(value) => scalar_type(value),
        Value::Array { .. } => MetadataType::Array,
    }
}

impl<'a> MetadataValue<'a> {
    /// Returns the type of this value.
    pub fn value_type(&self) -> (value_type: MetadataType)
        ensures
            value_type == value_type_of(self@),
    {
        match self {
            MetadataValue::Scalar(ScalarValue::U8(_)) => MetadataType::U8,
            MetadataValue::Scalar(ScalarValue::I8(_)) => MetadataType::I8,
            MetadataValue::Scalar(ScalarValue::U16(_)) => MetadataType::U16,
            MetadataValue::Scalar(ScalarValue::I16(_)) => MetadataType::I16,
            MetadataValue::Scalar(ScalarValue::U32(_)) => MetadataType::U32,
            MetadataValue::Scalar(ScalarValue::I32(_)) => MetadataType::I32,
            MetadataValue::Scalar(ScalarValue::F32(_)) => MetadataType::F32,
            MetadataValue::Scalar(ScalarValue::Bool(_)) => MetadataType::Bool,
            MetadataValue::Scalar(ScalarValue::String(_)) => MetadataType::String,
            MetadataValue::Scalar(ScalarValue::U64(_)) => MetadataType::U64,
            MetadataValue::Scalar(ScalarValue::I64(_)) => MetadataType::I64,
            MetadataValue::Scalar(ScalarValue::F64(_)) => MetadataType::F64,
            MetadataValue::Array(_) => MetadataType::Array,
        }
    }
}

/// An array of metadata scalars of one type.
#[derive(Debug, PartialEq)]
pub struct MetadataArray<'a> {
    element_type: MetadataType,
    len: usize,
    storage: ArrayStorage<'a>,
}

#[derive(Debug, PartialEq)]
pub(crate) enum ArrayStorage<'a> {
    Fixed(&'a [u8]),
    Strings(Vec<&'a str>),
}

impl<'a> Clone for MetadataArray<'a> {
    fn clone(&self) -> (copy: Self)
        ensures
            copy@ == self@,
            copy.spec_element_type() == self.spec_element_type(),
    {
        proof {
            use_type_invariant(self);
        }
        let storage = match &self.storage {
            ArrayStorage::Fixed(bytes) => ArrayStorage::Fixed(*bytes),
            ArrayStorage::Strings(values) => {
                let mut copies: Vec<&'a str> = Vec::new();
                let mut i: usize = 0;
                while i < values.len()
                    invariant
                        i <= values@.len(),
                        copies@ == values@.take(i as int),
                    decreases values@.len() - i,
                {
                    copies.push(values[i]);
                    i += 1;
                }
                assert(copies@ =~= values@);
                ArrayStorage::Strings(copies)
            },
        };
        MetadataArray { element_type: self.element_type, len: self.len, storage }
    }
}

/// The items of an array of scalars of fixed width, in file order.
pub open spec fn fixed_items(element_type: MetadataType, len: nat, bytes: Seq<u8>) -> Seq<Scalar> {
    let width = fixed_width_of(element_type)->0 as int;
    Seq::new(
        len,
        |i: int| fixed_scalar(element_type, bytes.subrange(i * width, (i + 1) * width)),
    )
}

impl<'a> View for MetadataArray<'a> {
    type V = Seq<Scalar>;

    closed spec fn view(&self) -> Seq<Scalar> {
        match self.storage {
            ArrayStorage::Fixed(bytes) => fixed_items(
                self.element_type,
                self.len as nat,
                bytes@,
            ),
            ArrayStorage::Strings(values) => values@.map_values(
                |value: &'a str| Scalar::String(value@),
            ),
        }
    }
}

impl<'a> MetadataArray<'a> {
    #[verifier::type_invariant]
    spec fn well_formed(self) -> bool {
        match self.storage {
            ArrayStorage::Fixed(bytes) => {
                &&& fixed_width_of(self.element_type) is Some
                &&& bytes@.len() == self.len * fixed_width_of(self.element_type)->0
            },
            ArrayStorage::Strings(values) => {
                &&& self.element_type == MetadataType::String
                &&& values@.len() == self.len
            },
        }
    }

    /// The type of this array's items.
    pub closed spec fn spec_element_type(&self) -> MetadataType {
        self.element_type
    }

    pub(crate) fn fixed(element_type: MetadataType, len: usize, bytes: &'a [u8]) -> (array: Self)
        requires
            fixed_width_of(element_type) is Some,
            bytes@.len() == len * fixed_width_of(element_type)->0,
        ensures
            array.spec_element_type() == element_type,
            array@ == fixed_items(element_type, len as nat, bytes@),
    {
        MetadataArray { element_type, len, storage: ArrayStorage::Fixed(bytes) }
    }

    pub(crate) fn strings(values: Vec<&'a str>) -> (array: Self)
        ensures
            array.spec_element_type() == MetadataType::String,
            array@ == values@.map_values(|value: &'a str| Scalar::String(value@)),
    {
        MetadataArray {
            element_type: MetadataType::String,
            len: values.len(),
            storage: ArrayStorage::Strings(values),
        }
    }

    /// Returns the type of this array's items.
    pub fn element_type(&self) -> (element_type: MetadataType)
        ensures
            element_type == self.spec_element_type(),
    {
        self.element_type
    }

    /// Returns the number of items.
    pub fn len(&self) -> (len: usize)
        ensures
            len == self@.len(),
    {
        proof {
            use_type_invariant(self);
        }
        self.len
    }

    /// Returns whether the array has no items.
    pub fn is_empty(&self) -> (empty: bool)
        ensures
            empty == (self@.len() == 0),
    {
        proof {
            use_type_invariant(self);
        }
        self.len == 0
    }

    /// Returns the item at `index`.
    pub fn get(&self, index: usize) -> (item: Option<ScalarValue<'a>>)
        ensures
            match item {
                Some(item) => {
                    &&& index < self@.len()
                    &&& item@ == self@[index as int]
                    &&& scalar_type(item@) == self.spec_element_type()
                },
                None => index >= self@.len(),
            },
    {
        proof {
            use_type_invariant(self);
        }
        if index >= self.len {
            return None;
        }
        match &self.storage {
            ArrayStorage::Strings(values) => Some(ScalarValue::String(values[index])),
            ArrayStorage::Fixed(bytes) => Some(decode_fixed(self.element_type, bytes, index)),
        }
    }
}

/// Decodes the item at `index` of an array of scalars of fixed width.
fn decode_fixed<'a>(value_type: MetadataType, bytes: &[u8], index: usize) -> (value: ScalarValue<'a>)
    requires
        fixed_width_of(value_type) is Some,
        (index + 1) * fixed_width_of(value_type)->0 <= bytes@.len(),
    ensures
        value@ == fixed_scalar(
            value_type,
            bytes@.subrange(
                index * fixed_width_of(value_type)->0,
                (index + 1) * fixed_width_of(value_type)->0,
            ),
        ),
{
    let width: usize = match value_type.fixed_width() {
        Some(width) => width,
        None => 0,
    };
    assert(fixed_width_of(value_type) == Some(width as nat));
    assert((index + 1) * width == index * width + width) by (nonlinear_arith);
    assert(index * width >= 0) by (nonlinear_arith);
    assert(bytes.len() == bytes@.len());
    let start: usize = index * width;
    decode_scalar(value_type, &bytes[start..start + width])
}

/// One metadata entry.
#[derive(Debug, PartialEq)]
pub struct MetadataEntry<'a> {
    pub key: &'a str,
    pub value: MetadataValue<'a>,
}

/// One metadata entry, as a mathematical value.
#[verifier::ext_equal]
pub struct Entry {
    pub key: Seq<char>,
    pub value: Value,
}

impl<'a> View for MetadataEntry<'a> {
    type V = Entry;

    open spec fn view(&self) -> Entry {
        Entry { key: self.key@, value: self.value@ }
    }
}

impl<'a> Clone for MetadataEntry<'a> {
    fn clone(&self) -> (copy: Self)
        ensures
            copy@ == self@,
    {
        MetadataEntry { key: self.key, value: self.value.clone() }
    }
}

/// A supported tensor storage type.
#[derive(Debug, Clone, Copy, PartialEq, Eq, Structural, Hash)]
pub struct TensorType(u32);

/// The codes that stand for a supported tensor type.
pub open spec fn is_tensor_type(code: u32) -> bool {
    code < 43 && !(code == 4 || code == 5 || code == 31 || code == 32 || code == 33 || code == 36
        || code == 37 || code == 38)
}

/// Number of logical elements that one stored block represents.
pub open spec fn block_size_of(code: u32) -> nat {
    match code {
        0 | 1 | 24 | 25 | 26 | 27 | 28 | 30 => 1,
        2 | 3 | 6 | 7 | 8 | 9 | 20 | 39 => 32,
        10 | 11 | 12 | 13 | 14 | 15 | 16 | 17 | 18 | 19 | 21 | 22 | 23 | 29 | 34 | 35 => 256,
        40 | 42 => 64,
        41 => 128,
        _ => 0,
    }
}

/// Number of stored bytes that one block occupies.
pub open spec fn type_size_of(code: u32) -> nat {
    match code {
        0 | 26 => 4,
        1 | 25 | 30 => 2,
        2 | 20 | 41 | 42 => 18,
        3 => 20,
        6 => 22,
        7 => 24,
        8 => 34,
        9 | 40 => 36,
        10 => 84,
        11 | 21 => 110,
        12 => 144,
        13 => 176,
        14 => 210,
        15 => 292,
        16 | 35 => 66,
        17 => 74,
        18 => 98,
        19 => 50,
        22 => 82,
        23 => 136,
        24 => 1,
        27 | 28 => 8,
        29 => 56,
        34 => 54,
        39 => 17,
        _ => 0,
    }
}

/// The name of a supported tensor type.
pub open spec fn tensor_type_name(code: u32) -> Seq<char> {
    match code {
        0 => "F32"@,
        1 => "F16"@,
        2 => "Q4_0"@,
        3 => "Q4_1"@,
        6 => "Q5_0"@,
        7 => "Q5_1"@,
        8 => "Q8_0"@,
        9 => "Q8_1"@,
        10 => "Q2_K"@,
        11 => "Q3_K"@,
        12 => "Q4_K"@,
        13 => "Q5_K"@,
        14 => "Q6_K"@,
        15 => "Q8_K"@,
        16 => "IQ2_XXS"@,
        17 => "IQ2_XS"@,
        18 => "IQ3_XXS"@,
        19 => "IQ1_S"@,
        20 => "IQ4_NL"@,
        21 => "IQ3_S"@,
        22 => "IQ2_S"@,
        23 => "IQ4_XS"@,
        24 => "I8"@,
        25 => "I16"@,
        26 => "I32"@,
        27 => "I64"@,
        28 => "F64"@,
        29 => "IQ1_M"@,
        30 => "BF16"@,
        34 => "TQ1_0"@,
        35 => "TQ2_0"@,
        39 => "MXFP4"@,
        40 => "NVFP4"@,
        41 => "Q1_0"@,
        42 => "Q2_0"@,
        _ => ""@,
    }
}

impl TensorType {
    /// One more than the largest code in use.
    pub const COUNT: u32 = 43;

    #[verifier::type_invariant]
    spec fn well_formed(self) -> bool {
        is_tensor_type(self.0)
    }

    /// The code that stands for this type in a file.
    pub closed spec fn code(self) -> u32 {
        self.0
    }

    /// Returns the code that stands for this type in a file.
    pub fn raw(self) -> (code: u32)
        ensures
            code == self.code(),
            is_tensor_type(code),
    {
        proof {
            use_type_invariant(&self);
        }
        self.0
    }

    /// Returns the name of this type.
    pub fn name(self) -> (name: &'static str)
        ensures
            name@ == tensor_type_name(self.code()),
    {
        proof {
            use_type_invariant(&self);
        }
        match self.0 {
            0 => "F32",
            1 => "F16",
            2 => "Q4_0",
            3 => "Q4_1",
            6 => "Q5_0",
            7 => "Q5_1",
            8 => "Q8_0",
            9 => "Q8_1",
            10 => "Q2_K",
            11 => "Q3_K",
            12 => "Q4_K",
            13 => "Q5_K",
            14 => "Q6_K",
            15 => "Q8_K",
            16 => "IQ2_XXS",
            17 => "IQ2_XS",
            18 => "IQ3_XXS",
            19 => "IQ1_S",
            20 => "IQ4_NL",
            21 => "IQ3_S",
            22 => "IQ2_S",
            23 => "IQ4_XS",
            24 => "I8",
            25 => "I16",
            26 => "I32",
            27 => "I64",
            28 => "F64",
            29 => "IQ1_M",
            30 => "BF16",
            34 => "TQ1_0",
            35 => "TQ2_0",
            39 => "MXFP4",
            40 => "NVFP4",
            41 => "Q1_0",
            42 => "Q2_0",
            _ => "",
        }
    }

    /// Number of logical elements represented by one stored block.
    pub fn block_size(self) -> (size: u64)
        ensures
            size == block_size_of(self.code()),
            size >= 1,
    {
        proof {
            use_type_invariant(&self);
        }
        match self.0 {
            0 | 1 | 24 | 25 | 26 | 27 | 28 | 30 => 1,
            2 | 3 | 6 | 7 | 8 | 9 | 20 | 39 => 32,
            10 | 11 | 12 | 13 | 14 | 15 | 16 | 17 | 18 | 19 | 21 | 22 | 23 | 29 | 34 | 35 => 256,
            40 | 42 => 64,
            41 => 128,
            _ => 0,
        }
    }

    /// Number of stored bytes occupied by one block.
    pub fn type_size(self) -> (size: u64)
        ensures
            size == type_size_of(self.code()),
            1 <= size <= 292,
    {
        proof {
            use_type_invariant(&self);
        }
        match self.0 {
            0 | 26 => 4,
            1 | 25 | 30 => 2,
            2 | 20 | 41 | 42 => 18,
            3 => 20,
            6 => 22,
            7 => 24,
            8 => 34,
            9 | 40 => 36,
            10 => 84,
            11 | 21 => 110,
            12 => 144,
            13 => 176,
            14 => 210,
            15 => 292,
            16 | 35 => 66,
            17 => 74,
            18 => 98,
            19 => 50,
            22 => 82,
            23 => 136,
            24 => 1,
            27 | 28 => 8,
            29 => 56,
            34 => 54,
            39 => 17,
            _ => 0,
        }
    }

    /// Returns the tensor type with a given code.
    pub fn from_code(code: u32) -> (result: Option<Self>)
        ensures
            match result {
                Some(value_type) => is_tensor_type(code) && value_type.code() == code,
                None => !is_tensor_type(code),
            },
    {
        if code >= 43 || code == 4 || code == 5 || code == 31 || code == 32 || code == 33 || code
            == 36 || code == 37 || code == 38 {
            None
        } else {
            Some(TensorType(code))
        }
    }
}

impl vstd::std_specs::convert::TryFromSpecImpl<u32> for TensorType {
    open spec fn obeys_try_from_spec() -> bool {
        true
    }

    closed spec fn try_from_spec(code: u32) -> Result<Self, ()> {
        if is_tensor_type(code) {
            Ok(TensorType(code))
        } else {
            Err(())
        }
    }
}

impl TryFrom<u32> for TensorType {
    type Error = ();

    fn try_from(code: u32) -> (result: Result<Self, ()>)
        ensures
            match result {
                Ok(value_type) => is_tensor_type(code) && value_type.code() == code,
                Err(()) => !is_tensor_type(code),
            },
    {
        match TensorType::from_code(code) {
            Some(value_type) => Ok(value_type),
            None => Err(()),
        }
    }
}

/// One row of the tensor table.
#[derive(Debug, PartialEq, Eq)]
pub struct TensorInfo<'a> {
    pub name: &'a str,
    pub dimensions: [u64; 4],
    pub dimension_count: u32,
    pub value_type: TensorType,
    pub offset: u64,
    pub byte_len: u64,
}

/// One row of the tensor table, as a mathematical value.
#[verifier::ext_equal]
pub struct Tensor {
    pub name: Seq<char>,
    pub shape: Seq<u64>,
    pub value_type: u32,
    pub offset: nat,
    pub byte_len: nat,
}

impl<'a> View for TensorInfo<'a> {
    type V = Tensor;

    open spec fn view(&self) -> Tensor {
        Tensor {
            name: self.name@,
            shape: self.dimensions@.take(self.dimension_count as int),
            value_type: self.value_type.code(),
            offset: self.offset as nat,
            byte_len: self.byte_len as nat,
        }
    }
}

impl<'a> Clone for TensorInfo<'a> {
    fn clone(&self) -> (copy: Self)
        ensures
            copy == *self,
    {
        TensorInfo {
            name: self.name,
            dimensions: self.dimensions,
            dimension_count: self.dimension_count,
            value_type: self.value_type,
            offset: self.offset,
            byte_len: self.byte_len,
        }
    }
}

impl<'a> TensorInfo<'a> {
    /// At most four dimensions are in use, and the others are one.
    pub open spec fn well_formed(self) -> bool {
        &&& self.dimension_count <= 4
        &&& forall|i: int| self.dimension_count <= i < 4 ==> #[trigger] self.dimensions@[i] == 1
    }

    /// Returns the tensor's dimensions.
    pub fn shape(&self) -> (shape: &[u64])
        requires
            self.dimension_count <= 4,
        ensures
            shape@ == self@.shape,
    {
        let shape = &self.dimensions[0..self.dimension_count as usize];
        assert(shape@ =~= self@.shape);
        shape
    }
}

} // verus!
