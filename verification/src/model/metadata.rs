//! Metadata of a model.

use vstd::prelude::*;

use crate::gguf::types::{Entry, MetadataArray, MetadataType, MetadataValue, Scalar, ScalarValue, Value};
use crate::model::error::{ModelError, ModelFault};
use crate::model::half;
use crate::model::index;
use crate::model::index::{GgufModel, ModelSource};
use crate::text;

verus! {

/// An owned scalar GGUF metadata value. Floating-point values are held by
/// their IEEE 754 bits.
#[derive(Debug, PartialEq)]
pub enum MetadataScalar {
    U8(u8),
    I8(i8),
    U16(u16),
    I16(i16),
    U32(u32),
    I32(i32),
    F32(u32),
    Bool(bool),
    String(String),
    U64(u64),
    I64(i64),
    F64(u64),
}

impl View for MetadataScalar {
    type V = Scalar;

    open spec fn view(&self) -> Scalar {
        match *self {
            MetadataScalar::U8(value) => Scalar::U8(value),
            MetadataScalar::I8(value) => Scalar::I8(value),
            MetadataScalar::U16(value) => Scalar::U16(value),
            MetadataScalar::I16(value) => Scalar::I16(value),
            MetadataScalar::U32(value) => Scalar::U32(value),
            MetadataScalar::I32(value) => Scalar::I32(value),
            MetadataScalar::F32(bits) => Scalar::F32(bits),
            MetadataScalar::Bool(value) => Scalar::Bool(value),
            MetadataScalar::String(value) => Scalar::String(value@),
            MetadataScalar::U64(value) => Scalar::U64(value),
            MetadataScalar::I64(value) => Scalar::I64(value),
            MetadataScalar::F64(bits) => Scalar::F64(bits),
        }
    }
}

impl Clone for MetadataScalar {
    fn clone(&self) -> (copy: Self)
        ensures
            copy@ == self@,
    {
        match self {
            MetadataScalar::U8(value) => MetadataScalar::U8(*value),
            MetadataScalar::I8(value) => MetadataScalar::I8(*value),
            MetadataScalar::U16(value) => MetadataScalar::U16(*value),
            MetadataScalar::I16(value) => MetadataScalar::I16(*value),
            MetadataScalar::U32(value) => MetadataScalar::U32(*value),
            MetadataScalar::I32(value) => MetadataScalar::I32(*value),
            MetadataScalar::F32(bits) => MetadataScalar::F32(*bits),
            MetadataScalar::Bool(value) => MetadataScalar::Bool(*value),
            MetadataScalar::String(value) => MetadataScalar::String(text::owned(value.as_str())),
            MetadataScalar::U64(value) => MetadataScalar::U64(*value),
            MetadataScalar::I64(value) => MetadataScalar::I64(*value),
            MetadataScalar::F64(bits) => MetadataScalar::F64(*bits),
        }
    }
}

/// Copies a scalar out of a file.
fn owned_scalar(value: ScalarValue<'_>) -> (scalar: MetadataScalar)
    ensures
        scalar@ == value@,
{
    match value {
        ScalarValue::U8(value) => MetadataScalar::U8(value),
        ScalarValue::I8(value) => MetadataScalar::I8(value),
        ScalarValue::U16(value) => MetadataScalar::U16(value),
        ScalarValue::I16(value) => MetadataScalar::I16(value),
        ScalarValue::U32(value) => MetadataScalar::U32(value),
        ScalarValue::I32(value) => MetadataScalar::I32(value),
        ScalarValue::F32(bits) => MetadataScalar::F32(bits),
        ScalarValue::Bool(value) => MetadataScalar::Bool(value),
        ScalarValue::String(value) => MetadataScalar::String(text::owned(value)),
        ScalarValue::U64(value) => MetadataScalar::U64(value),
        ScalarValue::I64(value) => MetadataScalar::I64(value),
        ScalarValue::F64(bits) => MetadataScalar::F64(bits),
    }
}

/// The scalar with a given key, which may be missing.
pub open spec fn scalar_entry(entries: Seq<Entry>, key: Seq<char>) -> Result<
    Option<Scalar>,
    ModelFault,
> {
    match index::value_of(entries, key) {
        None => Ok(None),
        Some(Value::Scalar(value)) => Ok(Some(value)),
        Some(_) => Err(ModelFault::MetadataArray(key)),
    }
}

/// A scalar that may be missing, as a mathematical value.
pub open spec fn optional_scalar(scalar: Option<MetadataScalar>) -> Option<Scalar> {
    match scalar {
        Some(scalar) => Some(scalar@),
        None => None,
    }
}

/// The scalars with the first `count` keys are `scalars`.
pub open spec fn scalars_read(
    entries: Seq<Entry>,
    keys: Seq<&str>,
    count: int,
    scalars: Seq<Option<MetadataScalar>>,
) -> bool {
    &&& scalars.len() == count
    &&& forall|i: int|
        0 <= i < count ==> scalar_entry(entries, keys[i]@) == Ok::<Option<Scalar>, ModelFault>(
            optional_scalar(#[trigger] scalars[i]),
        )
}

/// The first key whose value is no scalar gives `fault`.
pub open spec fn scalars_refused(
    entries: Seq<Entry>,
    keys: Seq<&str>,
    fault: ModelFault,
) -> bool {
    exists|at: int|
        {
            &&& 0 <= at < keys.len()
            &&& scalar_entry(entries, (#[trigger] keys[at])@) == Err::<
                Option<Scalar>,
                ModelFault,
            >(fault)
            &&& forall|i: int|
                0 <= i < at ==> scalar_entry(entries, (#[trigger] keys[i])@) is Ok
        }
}

/// The name of a type, as it stands in its declaration.
pub open spec fn declared_name(value_type: MetadataType) -> Seq<char> {
    match value_type {
        MetadataType::U8 => "U8"@,
        MetadataType::I8 => "I8"@,
        MetadataType::U16 => "U16"@,
        MetadataType::I16 => "I16"@,
        MetadataType::U32 => "U32"@,
        MetadataType::I32 => "I32"@,
        MetadataType::F32 => "F32"@,
        MetadataType::Bool => "Bool"@,
        MetadataType::String => "String"@,
        MetadataType::Array => "Array"@,
        MetadataType::U64 => "U64"@,
        MetadataType::I64 => "I64"@,
        MetadataType::F64 => "F64"@,
    }
}

pub(crate) fn name_type(value_type: MetadataType) -> (name: &'static str)
    ensures
        name@ == declared_name(value_type),
{
    match value_type {
        MetadataType::U8 => "U8",
        MetadataType::I8 => "I8",
        MetadataType::U16 => "U16",
        MetadataType::I16 => "I16",
        MetadataType::U32 => "U32",
        MetadataType::I32 => "I32",
        MetadataType::F32 => "F32",
        MetadataType::Bool => "Bool",
        MetadataType::String => "String",
        MetadataType::Array => "Array",
        MetadataType::U64 => "U64",
        MetadataType::I64 => "I64",
        MetadataType::F64 => "F64",
    }
}

/// The items of the array with a given key, which may be missing.
pub open spec fn array_entry(
    entries: Seq<Entry>,
    key: Seq<char>,
    expected: MetadataType,
    limit: nat,
) -> Result<Option<Seq<Scalar>>, ModelFault> {
    match index::value_of(entries, key) {
        None => Ok(None),
        Some(Value::Scalar(_)) => Err(ModelFault::MetadataArray(key)),
        Some(Value::Array { element_type, items }) => if element_type != expected {
            Err(
                ModelFault::MetadataArrayType {
                    key,
                    expected: declared_name(expected),
                    actual: declared_name(element_type),
                },
            )
        } else if items.len() > limit {
            Err(ModelFault::MetadataArrayLimit { key, len: items.len(), max: limit })
        } else {
            Ok(Some(items))
        },
    }
}

/// Checks the array with a given key.
fn check_array<'a, 'b>(
    value: Option<&'b MetadataValue<'a>>,
    key: &str,
    expected: MetadataType,
    limit: u64,
    Ghost(entries): Ghost<Seq<Entry>>,
) -> (result: Result<Option<&'b MetadataArray<'a>>, ModelError>)
    requires
        match value {
            Some(value) => index::value_of(entries, key@) == Some(value@),
            None => index::value_of(entries, key@) is None,
        },
    ensures
        match result {
            Ok(Some(array)) => {
                &&& array_entry(entries, key@, expected, limit as nat) == Ok::<
                    Option<Seq<Scalar>>,
                    ModelFault,
                >(Some(array@))
                &&& array.spec_element_type() == expected
            },
            Ok(None) => array_entry(entries, key@, expected, limit as nat) == Ok::<
                Option<Seq<Scalar>>,
                ModelFault,
            >(None),
            Err(error) => array_entry(entries, key@, expected, limit as nat) == Err::<
                Option<Seq<Scalar>>,
                ModelFault,
            >(error@),
        },
{
    match value {
        None => Ok(None),
        Some(MetadataValue::Scalar(_)) => Err(ModelError::MetadataArray(text::owned(key))),
        Some(MetadataValue::Array(array)) => {
            let element_type = array.element_type();
            if element_type != expected {
                return Err(
                    ModelError::MetadataArrayType {
                        key: text::owned(key),
                        expected: name_type(expected),
                        actual: text::owned(name_type(element_type)),
                    },
                );
            }
            let len: usize = array.len();
            if len as u64 > limit {
                return Err(
                    ModelError::MetadataArrayLimit { key: text::owned(key), len, max: limit },
                );
            }
            Ok(Some(array))
        },
    }
}

/// The texts of an array.
pub open spec fn texts_of(items: Seq<Scalar>) -> Seq<Seq<char>> {
    items.map_values(|item: Scalar| item->String_0)
}

/// The bits of an array of single-precision numbers.
pub open spec fn bits_of(items: Seq<Scalar>) -> Seq<u32> {
    items.map_values(|item: Scalar| item->F32_0)
}

/// All single-precision numbers are finite.
pub open spec fn all_finite(bits: Seq<u32>) -> bool {
    forall|i: int|
        0 <= i < bits.len() ==> half::is_finite_single(#[trigger] bits[i] as nat)
}

/// A value that is not finite.
pub open spec fn not_finite_fault(key: Seq<char>) -> ModelFault {
    ModelFault::Parse("GGUF metadata "@ + key + " contains a non-finite value"@)
}

impl GgufModel {
    /// Reads one scalar metadata value while enforcing the model digest.
    ///
    /// Array metadata is rejected here: arrays are read through the bounded
    /// functions below.
    pub fn metadata_scalar(&self, key: &str, source: ModelSource<'_>) -> (result: Result<
        Option<MetadataScalar>,
        ModelError,
    >)
        ensures
            match index::metadata_of(self@, source) {
                Err(fault) => result matches Err(error) && error@ == fault,
                Ok(entries) => match result {
                    Ok(scalar) => scalar_entry(entries, key@) == Ok::<Option<Scalar>, ModelFault>(
                        optional_scalar(scalar),
                    ),
                    Err(error) => scalar_entry(entries, key@) == Err::<
                        Option<Scalar>,
                        ModelFault,
                    >(error@),
                },
            },
    {
        let gguf = self.validated_gguf(source)?;
        match index::find_value(&gguf, key) {
            None => Ok(None),
            Some(MetadataValue::Scalar(value)) => Ok(Some(owned_scalar(*value))),
            Some(MetadataValue::Array(_)) => Err(ModelError::MetadataArray(text::owned(key))),
        }
    }

    /// Reads several scalar metadata values while enforcing the model digest
    /// only once. Returned values preserve the order of `keys`.
    pub fn metadata_scalars(&self, keys: &[&str], source: ModelSource<'_>) -> (result: Result<
        Vec<Option<MetadataScalar>>,
        ModelError,
    >)
        ensures
            match index::metadata_of(self@, source) {
                Err(fault) => result matches Err(error) && error@ == fault,
                Ok(entries) => match result {
                    Ok(scalars) => scalars_read(
                        entries,
                        keys@,
                        keys@.len() as int,
                        scalars@,
                    ),
                    Err(error) => scalars_refused(entries, keys@, error@),
                },
            },
    {
        let gguf = self.validated_gguf(source)?;
        let ghost entries = gguf@.metadata;
        let mut scalars: Vec<Option<MetadataScalar>> = Vec::new();
        let mut i: usize = 0;
        while i < keys.len()
            invariant
                i <= keys@.len(),
                entries == gguf@.metadata,
                index::metadata_of(self@, source) == Ok::<Seq<Entry>, ModelFault>(entries),
                scalars_read(entries, keys@, i as int, scalars@),
            decreases keys@.len() - i,
        {
            let key = keys[i];
            match index::find_value(&gguf, key) {
                None => {
                    scalars.push(None);
                },
                Some(MetadataValue::Scalar(value)) => {
                    scalars.push(Some(owned_scalar(*value)));
                },
                Some(MetadataValue::Array(_)) => {
                    let error = ModelError::MetadataArray(text::owned(key));
                    assert(scalars_refused(entries, keys@, error@)) by {
                        assert forall|k: int| 0 <= k < i implies scalar_entry(
                            entries,
                            (#[trigger] keys@[k])@,
                        ) is Ok by {
                            assert(scalar_entry(entries, keys@[k]@) == Ok::<
                                Option<Scalar>,
                                ModelFault,
                            >(optional_scalar(scalars@[k])));
                        }
                        assert(scalar_entry(entries, keys@[i as int]@) == Err::<
                            Option<Scalar>,
                            ModelFault,
                        >(error@));
                    }
                    return Err(error);
                },
            }
            i += 1;
        }
        Ok(scalars)
    }

    /// Reads a bounded string array from GGUF metadata while enforcing the
    /// model digest.
    pub fn metadata_string_array(
        &self,
        key: &str,
        max_elements: u64,
        source: ModelSource<'_>,
    ) -> (result: Result<Option<Vec<String>>, ModelError>)
        ensures
            match index::metadata_of(self@, source) {
                Err(fault) => result matches Err(error) && error@ == fault,
                Ok(entries) => match array_entry(
                    entries,
                    key@,
                    MetadataType::String,
                    max_elements as nat,
                ) {
                    Err(fault) => result matches Err(error) && error@ == fault,
                    Ok(None) => result matches Ok(None),
                    Ok(Some(items)) => result matches Ok(Some(texts)) && texts@.map_values(
                        |text: String| text@,
                    ) == texts_of(items),
                },
            },
    {
        let gguf = self.validated_gguf(source)?;
        let value = index::find_value(&gguf, key);
        let array = match check_array(
            value,
            key,
            MetadataType::String,
            max_elements,
            Ghost(gguf@.metadata),
        )? {
            Some(array) => array,
            None => {
                return Ok(None);
            },
        };
        let len: usize = array.len();
        let mut texts: Vec<String> = Vec::new();
        let mut i: usize = 0;
        while i < len
            invariant
                i <= len,
                len == array@.len(),
                array.spec_element_type() == MetadataType::String,
                texts@.len() == i,
                forall|k: int| 0 <= k < i ==> (#[trigger] texts@[k])@ == array@[k]->String_0,
            decreases len - i,
        {
            if let Some(ScalarValue::String(text)) = array.get(i) {
                texts.push(text::owned(text));
            }
            i += 1;
        }
        assert(texts@.map_values(|text: String| text@) =~= texts_of(array@));
        Ok(Some(texts))
    }

    /// Reads a bounded F32 metadata array, by the bits of its values, while
    /// enforcing the model digest.
    pub fn metadata_f32_array(
        &self,
        key: &str,
        max_elements: u64,
        source: ModelSource<'_>,
    ) -> (result: Result<Option<Vec<u32>>, ModelError>)
        ensures
            match index::metadata_of(self@, source) {
                Err(fault) => result matches Err(error) && error@ == fault,
                Ok(entries) => match array_entry(
                    entries,
                    key@,
                    MetadataType::F32,
                    max_elements as nat,
                ) {
                    Err(fault) => result matches Err(error) && error@ == fault,
                    Ok(None) => result matches Ok(None),
                    Ok(Some(items)) => if all_finite(bits_of(items)) {
                        result matches Ok(Some(bits)) && bits@ == bits_of(items)
                    } else {
                        result matches Err(error) && error@ == not_finite_fault(key@)
                    },
                },
            },
    {
        let gguf = self.validated_gguf(source)?;
        let value = index::find_value(&gguf, key);
        let array = match check_array(
            value,
            key,
            MetadataType::F32,
            max_elements,
            Ghost(gguf@.metadata),
        )? {
            Some(array) => array,
            None => {
                return Ok(None);
            },
        };
        let len: usize = array.len();
        let mut values: Vec<u32> = Vec::new();
        let mut i: usize = 0;
        while i < len
            invariant
                i <= len,
                len == array@.len(),
                array.spec_element_type() == MetadataType::F32,
                index::metadata_of(self@, source) == Ok::<Seq<Entry>, ModelFault>(
                    gguf@.metadata,
                ),
                array_entry(
                    gguf@.metadata,
                    key@,
                    MetadataType::F32,
                    max_elements as nat,
                ) == Ok::<Option<Seq<Scalar>>, ModelFault>(Some(array@)),
                values@.len() == i,
                forall|k: int|
                    0 <= k < i ==> #[trigger] values@[k] == array@[k]->F32_0
                        && half::is_finite_single(values@[k] as nat),
            decreases len - i,
        {
            if let Some(ScalarValue::F32(bits)) = array.get(i) {
                if (bits / 8_388_608) % 256 == 255 {
                    assert(bits_of(array@)[i as int] == bits);
                    assert(!all_finite(bits_of(array@)));
                    return Err(
                        ModelError::Parse(
                            index::named("GGUF metadata ", key, " contains a non-finite value"),
                        ),
                    );
                }
                values.push(bits);
            }
            i += 1;
        }
        assert(values@ =~= bits_of(array@));
        Ok(Some(values))
    }
}

} // verus!
