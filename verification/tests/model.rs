use std::path::PathBuf;

use ggml::model::decode::{decode_values, quantized_value_at};
use ggml::model::error::ModelError;
use ggml::model::half::f16_to_f32;
use ggml::model::index::{GgufModel, ModelSource, DEFAULT_MODEL_BYTE_LIMIT};
use ggml::model::metadata::MetadataScalar;
use ggml::model::quantized::LoadedTensor;
use ggml::tensor::arithmetic::Arithmetic;

struct Floats;

impl Arithmetic<f32> for Floats {
    fn zero(&self) -> f32 {
        0.0
    }

    fn empty_sum(&self) -> f32 {
        std::iter::empty::<f32>().sum()
    }

    fn one(&self) -> f32 {
        1.0
    }

    fn lowest(&self) -> f32 {
        f32::NEG_INFINITY
    }

    fn highest(&self) -> f32 {
        f32::INFINITY
    }

    fn from_count(&self, count: usize) -> f32 {
        count as f32
    }

    fn from_integer(&self, value: i32) -> f32 {
        value as f32
    }

    fn from_bits(&self, bits: u32) -> f32 {
        f32::from_bits(bits)
    }

    fn to_count(&self, value: f32) -> u32 {
        value as u32
    }

    fn add(&self, left: f32, right: f32) -> f32 {
        left + right
    }

    fn subtract(&self, left: f32, right: f32) -> f32 {
        left - right
    }

    fn multiply(&self, left: f32, right: f32) -> f32 {
        left * right
    }

    fn divide(&self, left: f32, right: f32) -> f32 {
        left / right
    }

    fn negate(&self, value: f32) -> f32 {
        -value
    }

    fn absolute(&self, value: f32) -> f32 {
        value.abs()
    }

    fn round(&self, value: f32) -> f32 {
        value.round()
    }

    fn maximum(&self, left: f32, right: f32) -> f32 {
        left.max(right)
    }

    fn minimum(&self, left: f32, right: f32) -> f32 {
        left.min(right)
    }

    fn exponential(&self, value: f32) -> f32 {
        value.exp()
    }

    fn square_root(&self, value: f32) -> f32 {
        value.sqrt()
    }

    fn reciprocal(&self, value: f32) -> f32 {
        value.recip()
    }

    fn power(&self, base: f32, exponent: f32) -> f32 {
        base.powf(exponent)
    }

    fn sine_cosine(&self, angle: f32) -> (f32, f32) {
        angle.sin_cos()
    }

    fn is_finite(&self, value: f32) -> bool {
        value.is_finite()
    }

    fn is_negative(&self, value: f32) -> bool {
        value < 0.0
    }

    fn is_positive(&self, value: f32) -> bool {
        value > 0.0
    }

    fn is_zero(&self, value: f32) -> bool {
        value == 0.0
    }

    fn exceeds(&self, left: f32, right: f32) -> bool {
        left > right
    }
}

fn push_string(bytes: &mut Vec<u8>, value: &str) {
    bytes.extend_from_slice(&(value.len() as u64).to_le_bytes());
    bytes.extend_from_slice(value.as_bytes());
}

fn fixture(value_type: u32, shape: &[u64], tensor_bytes: &[u8]) -> Vec<u8> {
    let mut bytes = Vec::new();
    bytes.extend_from_slice(b"GGUF");
    bytes.extend_from_slice(&3_u32.to_le_bytes());
    bytes.extend_from_slice(&1_u64.to_le_bytes());
    bytes.extend_from_slice(&2_u64.to_le_bytes());
    push_string(&mut bytes, "general.architecture");
    bytes.extend_from_slice(&8_u32.to_le_bytes());
    push_string(&mut bytes, "llama");
    push_string(&mut bytes, "general.name");
    bytes.extend_from_slice(&8_u32.to_le_bytes());
    push_string(&mut bytes, "fixture");
    push_string(&mut bytes, "probe.tensor");
    bytes.extend_from_slice(&u32::try_from(shape.len()).unwrap().to_le_bytes());
    for dimension in shape {
        bytes.extend_from_slice(&dimension.to_le_bytes());
    }
    bytes.extend_from_slice(&value_type.to_le_bytes());
    bytes.extend_from_slice(&0_u64.to_le_bytes());
    while bytes.len() % 32 != 0 {
        bytes.push(0);
    }
    bytes.extend_from_slice(tensor_bytes);
    while bytes.len() % 32 != 0 {
        bytes.push(0);
    }
    bytes
}

fn f32_fixture(value_type: u32, tensor_bytes: &[u8]) -> Vec<u8> {
    fixture(value_type, &[2, 2], tensor_bytes)
}

fn open(bytes: &[u8]) -> Result<GgufModel, ModelError> {
    GgufModel::open(
        PathBuf::from("model.gguf"),
        DEFAULT_MODEL_BYTE_LIMIT,
        ModelSource::Bytes(bytes),
    )
}

fn assert_quantized_matmul_matches_materialized(
    value_type: u32,
    rows: u64,
    columns: u64,
    tensor_bytes: &[u8],
) {
    let rows = usize::try_from(rows).unwrap();
    let columns = usize::try_from(columns).unwrap();
    let input = (0..rows)
        .map(|index| f32::from(u8::try_from(index % 17).unwrap()) - 8.0)
        .collect::<Vec<_>>();
    let bytes = fixture(
        value_type,
        &[
            u64::try_from(rows).unwrap(),
            u64::try_from(columns).unwrap(),
        ],
        tensor_bytes,
    );
    let model = open(&bytes).unwrap();
    let materialized = model.load_f32("probe.tensor", ModelSource::Bytes(&bytes), &Floats).unwrap();
    let expected = materialized
        .data()
        .chunks(rows)
        .map(|column| {
            column
                .iter()
                .zip(&input)
                .map(|(weight, value)| weight * value)
                .sum::<f32>()
        })
        .collect::<Vec<_>>();
    assert_eq!(expected.len(), columns);
    assert_eq!(
        model.matmul_f32_quantized("probe.tensor", &input, ModelSource::Bytes(&bytes), &Floats).unwrap(),
        expected
    );
}

fn patterned_bytes(length: usize, seed: u8) -> Vec<u8> {
    (0..length)
        .map(|index| u8::try_from((index * 37 + usize::from(seed) * 13) % 256).unwrap())
        .collect()
}

#[test]
fn indexes_and_loads_f32_tensor() {
    let values = [1.0_f32, -2.0, 3.5, 7.25];
    let encoded = values
        .iter()
        .flat_map(|value| value.to_le_bytes())
        .collect::<Vec<_>>();
    let bytes = f32_fixture(0, &encoded);
    let model = open(&bytes).unwrap();
    assert_eq!(model.architecture(), Some("llama"));
    assert_eq!(model.name(), Some("fixture"));
    assert_eq!(
        model.metadata_scalar("general.name", ModelSource::Bytes(&bytes)).unwrap(),
        Some(MetadataScalar::String("fixture".to_owned()))
    );
    assert_eq!(
        model
            .metadata_scalars(&["general.architecture", "general.name", "missing"], ModelSource::Bytes(&bytes))
            .unwrap(),
        vec![
            Some(MetadataScalar::String("llama".to_owned())),
            Some(MetadataScalar::String("fixture".to_owned())),
            None,
        ]
    );
    assert_eq!(model.tensors().len(), 1);
    assert_eq!(model.tensor("probe.tensor").unwrap().shape(), &[2, 2]);
    assert_eq!(model.load_f32("probe.tensor", ModelSource::Bytes(&bytes), &Floats).unwrap().data(), &values);
    let batched = model
        .load_f32_many(&["probe.tensor", "probe.tensor"], ModelSource::Bytes(&bytes), &Floats)
        .unwrap();
    assert_eq!(batched.len(), 2);
    assert_eq!(batched[0].data(), &values);
    assert_eq!(batched[1].data(), &values);
}

#[test]
fn materializes_f16_tensor() {
    let encoded = [0x00, 0x3c, 0x00, 0xc0, 0x00, 0x40, 0x00, 0x44];
    let bytes = f32_fixture(1, &encoded);
    let model = open(&bytes).unwrap();
    assert_eq!(
        model.load_f32("probe.tensor", ModelSource::Bytes(&bytes), &Floats).unwrap().data(),
        &[1.0, -2.0, 2.0, 4.0]
    );
}

#[test]
fn materializes_bf16_tensor() {
    let encoded = [
        0x80, 0x3f, // 1.0
        0x20, 0xc0, // -2.5
        0x00, 0x00, // 0.0
        0x48, 0x41, // 12.5
    ];
    let bytes = f32_fixture(30, &encoded);
    let model = open(&bytes).unwrap();
    assert_eq!(
        model.load_f32("probe.tensor", ModelSource::Bytes(&bytes), &Floats).unwrap().data(),
        &[1.0, -2.5, 0.0, 12.5]
    );
}

#[test]
fn materializes_q4_0_tensor() {
    let mut encoded = vec![0x00, 0x3c];
    encoded.extend(std::iter::repeat_n(0x78, 16));
    let bytes = fixture(2, &[32], &encoded);
    let model = open(&bytes).unwrap();
    let values = model.load_f32("probe.tensor", ModelSource::Bytes(&bytes), &Floats).unwrap();
    assert_eq!(&values.data()[..16], &[0.0; 16]);
    assert_eq!(&values.data()[16..], &[-1.0; 16]);
}

#[test]
fn materializes_q4_1_tensor() {
    let mut encoded = vec![0x00, 0x3c, 0x00, 0x3c];
    encoded.extend(std::iter::repeat_n(0x00, 16));
    let bytes = fixture(3, &[32], &encoded);
    let model = open(&bytes).unwrap();
    assert_eq!(model.load_f32("probe.tensor", ModelSource::Bytes(&bytes), &Floats).unwrap().data(), &[1.0; 32]);
}

#[test]
fn materializes_q8_0_tensor() {
    let mut encoded = vec![0x00, 0x3c];
    encoded.extend((0_u8..32).map(|value| value.wrapping_add(0x80)));
    let bytes = fixture(8, &[32], &encoded);
    let model = open(&bytes).unwrap();
    let values = model.load_f32("probe.tensor", ModelSource::Bytes(&bytes), &Floats).unwrap();
    assert_eq!(values.data()[0].to_bits(), (-128.0_f32).to_bits());
    assert_eq!(values.data()[1].to_bits(), (-127.0_f32).to_bits());
    assert_eq!(values.data()[31].to_bits(), (-97.0_f32).to_bits());
}

#[test]
fn multiplies_q4_0_matrix_without_materializing_f32_values() {
    let mut encoded = vec![0x00, 0x3c];
    encoded.extend(std::iter::repeat_n(0x99, 16));
    encoded.extend([0x00, 0x3c]);
    encoded.extend(std::iter::repeat_n(0xaa, 16));
    let bytes = fixture(2, &[32, 2], &encoded);
    let model = open(&bytes).unwrap();
    assert_eq!(
        model
            .matmul_f32_quantized("probe.tensor", &[1.0; 32], ModelSource::Bytes(&bytes), &Floats)
            .unwrap(),
        &[32.0, 64.0]
    );
}

#[test]
fn loads_quantized_matrix_for_columns_and_direct_products() {
    let mut encoded = vec![0x00, 0x3c];
    encoded.extend(std::iter::repeat_n(0x99, 16));
    encoded.extend([0x00, 0x3c]);
    encoded.extend(std::iter::repeat_n(0xaa, 16));
    let bytes = fixture(2, &[32, 2], &encoded);
    let model = open(&bytes).unwrap();
    let matrix = model.load_quantized("probe.tensor", ModelSource::Bytes(&bytes)).unwrap();
    assert_eq!(matrix.rows(), 32);
    assert_eq!(matrix.columns(), 2);
    assert_eq!(matrix.value_type().raw(), 2);
    assert_eq!(matrix.column(0, &Floats).unwrap(), vec![1.0; 32]);
    assert_eq!(matrix.column(1, &Floats).unwrap(), vec![2.0; 32]);
    assert_eq!(matrix.matmul_f32(&[1.0; 32], &Floats).unwrap(), &[32.0, 64.0]);
    let batched = model
        .load_quantized_many(&["probe.tensor", "probe.tensor"], ModelSource::Bytes(&bytes))
        .unwrap();
    assert_eq!(batched, vec![matrix.clone(), matrix]);
}

#[test]
fn converts_q4_0_matrix_directly_to_mlx_affine_layout() {
    let mut encoded = vec![0x00, 0x3c];
    encoded.extend((0_u8..16).map(|value| value | (value << 4)));
    let bytes = fixture(2, &[32, 1], &encoded);
    let model = open(&bytes).unwrap();
    let quantized = model.load_affine_quantized("probe.tensor", 32, 4, ModelSource::Bytes(&bytes), &Floats).unwrap();
    assert_eq!(quantized.rows(), 1);
    assert_eq!(quantized.columns(), 32);
    assert_eq!(quantized.group_size(), 32);
    assert_eq!(quantized.bits(), 4);
    assert_eq!(quantized.scales(), &[1.0]);
    assert_eq!(quantized.biases(), &[-8.0]);
    assert_eq!(
        quantized.packed(),
        &[0x7654_3210, 0xfedc_ba98, 0x7654_3210, 0xfedc_ba98]
    );

    let names = ["probe.tensor"];
    let mut observed = None;
    model
        .for_each_tensor(
            &names,
            32,
            4,
            ModelSource::Bytes(&bytes),
            |_: &str, tensor| {
                observed = Some(tensor);
                Ok::<(), ModelError>(())
            },
            &Floats,
        )
        .unwrap();
    assert!(matches!(observed, Some(LoadedTensor::AffineQuantized(_))));
}

#[test]
fn rejects_unsupported_mlx_affine_parameters() {
    let mut encoded = vec![0x00, 0x3c];
    encoded.extend(std::iter::repeat_n(0, 16));
    let bytes = fixture(2, &[32, 1], &encoded);
    let model = open(&bytes).unwrap();
    assert!(matches!(
        model.load_affine_quantized("probe.tensor", 16, 4, ModelSource::Bytes(&bytes), &Floats),
        Err(ModelError::Shape(_))
    ));
    assert!(matches!(
        model.load_affine_quantized("probe.tensor", 32, 7, ModelSource::Bytes(&bytes), &Floats),
        Err(ModelError::Shape(_))
    ));
}

#[test]
fn multiplies_q8_0_matrix_without_materializing_f32_values() {
    let mut encoded = vec![0x00, 0x3c];
    encoded.extend((-16_i8..16_i8).map(|value| value.to_ne_bytes()[0]));
    encoded.extend([0x00, 0x3c]);
    encoded.extend((16_i8..48_i8).map(|value| value.to_ne_bytes()[0]));
    let bytes = fixture(8, &[32, 2], &encoded);
    let model = open(&bytes).unwrap();
    assert_eq!(
        model
            .matmul_f32_quantized("probe.tensor", &[1.0; 32], ModelSource::Bytes(&bytes), &Floats)
            .unwrap(),
        &[-16.0, 1008.0]
    );
}

#[test]
fn multiplies_q4_1_matrix_without_materializing_f32_values() {
    let mut encoded = vec![0x00, 0x3c, 0x00, 0x40];
    encoded.extend(std::iter::repeat_n(0x10, 16));
    let bytes = fixture(3, &[32, 1], &encoded);
    let model = open(&bytes).unwrap();
    assert_eq!(
        model
            .matmul_f32_quantized("probe.tensor", &[1.0; 32], ModelSource::Bytes(&bytes), &Floats)
            .unwrap(),
        &[80.0]
    );
}

#[test]
fn multiplies_q5_0_matrix_without_materializing_f32_values() {
    let mut encoded = vec![0x00, 0x3c, 0, 0, 0, 0];
    encoded.extend(std::iter::repeat_n(0x10, 16));
    let bytes = fixture(6, &[32, 1], &encoded);
    let model = open(&bytes).unwrap();
    assert_eq!(
        model
            .matmul_f32_quantized("probe.tensor", &[1.0; 32], ModelSource::Bytes(&bytes), &Floats)
            .unwrap(),
        &[-496.0]
    );
}

#[test]
fn multiplies_q5_1_matrix_without_materializing_f32_values() {
    let mut encoded = vec![0x00, 0x3c, 0x00, 0x40, 0, 0, 0, 0];
    encoded.extend(std::iter::repeat_n(0x10, 16));
    let bytes = fixture(7, &[32, 1], &encoded);
    let model = open(&bytes).unwrap();
    assert_eq!(
        model
            .matmul_f32_quantized("probe.tensor", &[1.0; 32], ModelSource::Bytes(&bytes), &Floats)
            .unwrap(),
        &[80.0]
    );
}

#[test]
fn multiplies_q4_k_matrix_without_materializing_f32_values() {
    let mut encoded = vec![0x00, 0x3c, 0x00, 0x00];
    encoded.extend([1, 1, 1, 1, 0, 0, 0, 0, 1, 1, 1, 1]);
    encoded.extend(std::iter::repeat_n(0x10, 128));
    let bytes = fixture(12, &[256, 1], &encoded);
    let model = open(&bytes).unwrap();
    assert_eq!(
        model
            .matmul_f32_quantized("probe.tensor", &[1.0; 256], ModelSource::Bytes(&bytes), &Floats)
            .unwrap(),
        &[128.0]
    );
}

#[test]
fn multiplies_q2_k_matrix_with_materialized_parity() {
    let mut block = patterned_bytes(84, 7);
    block[80..82].copy_from_slice(&0x3c00_u16.to_le_bytes());
    block[82..84].copy_from_slice(&0x3c00_u16.to_le_bytes());
    let mut encoded = block.clone();
    encoded.extend(patterned_bytes(84, 19));
    encoded[164..166].copy_from_slice(&0x3c00_u16.to_le_bytes());
    encoded[166..168].copy_from_slice(&0x3c00_u16.to_le_bytes());
    assert_quantized_matmul_matches_materialized(10, 256, 2, &encoded);
}

#[test]
fn multiplies_q3_k_matrix_with_materialized_parity() {
    let mut block = patterned_bytes(110, 11);
    block[108..110].copy_from_slice(&0x3c00_u16.to_le_bytes());
    let mut encoded = block.clone();
    encoded.extend(patterned_bytes(110, 23));
    encoded[218..220].copy_from_slice(&0x3c00_u16.to_le_bytes());
    assert_quantized_matmul_matches_materialized(11, 256, 2, &encoded);
}

#[test]
fn multiplies_q5_k_matrix_with_materialized_parity() {
    let mut block = patterned_bytes(176, 13);
    block[0..2].copy_from_slice(&0x3c00_u16.to_le_bytes());
    block[2..4].copy_from_slice(&0x3c00_u16.to_le_bytes());
    let mut encoded = block.clone();
    encoded.extend(patterned_bytes(176, 29));
    encoded[176..178].copy_from_slice(&0x3c00_u16.to_le_bytes());
    encoded[178..180].copy_from_slice(&0x3c00_u16.to_le_bytes());
    assert_quantized_matmul_matches_materialized(13, 256, 2, &encoded);
}

#[test]
fn multiplies_q6_k_matrix_with_materialized_parity() {
    let mut block = patterned_bytes(210, 17);
    block[208..210].copy_from_slice(&0x3c00_u16.to_le_bytes());
    let mut encoded = block.clone();
    encoded.extend(patterned_bytes(210, 31));
    encoded[418..420].copy_from_slice(&0x3c00_u16.to_le_bytes());
    assert_quantized_matmul_matches_materialized(14, 256, 2, &encoded);
}

#[test]
fn multiplies_q8_k_matrix_with_materialized_parity() {
    let mut block = patterned_bytes(292, 19);
    block[..4].copy_from_slice(&1.0_f32.to_le_bytes());
    let mut encoded = block.clone();
    encoded.extend(patterned_bytes(292, 37));
    encoded[292..296].copy_from_slice(&1.0_f32.to_le_bytes());
    assert_quantized_matmul_matches_materialized(15, 256, 2, &encoded);
}

#[test]
fn rejects_unsupported_quantized_matmul_inputs() {
    let encoded = vec![0_u8; 32 * 4];
    let bytes = fixture(0, &[32, 1], &encoded);
    let model = open(&bytes).unwrap();
    assert!(matches!(
        model.matmul_f32_quantized("probe.tensor", &[1.0; 32], ModelSource::Bytes(&bytes), &Floats),
        Err(ModelError::UnsupportedTensorType { .. })
    ));
}

#[test]
fn rejects_non_finite_quantized_matmul_values() {
    let mut encoded = vec![0_u8; 292];
    encoded[..4].copy_from_slice(&f32::INFINITY.to_le_bytes());
    let bytes = fixture(15, &[256, 1], &encoded);
    let model = open(&bytes).unwrap();
    assert!(matches!(
        model.matmul_f32_quantized("probe.tensor", &[1.0; 256], ModelSource::Bytes(&bytes), &Floats),
        Err(ModelError::Shape(_))
    ));
}

#[test]
fn rejects_non_finite_quantized_matmul_input() {
    let bytes = fixture(10, &[256, 1], &[0; 84]);
    let model = open(&bytes).unwrap();
    assert!(matches!(
        model.matmul_f32_quantized("probe.tensor", &[f32::NAN; 256], ModelSource::Bytes(&bytes), &Floats),
        Err(ModelError::Shape(_))
    ));
}

#[test]
fn materializes_q8_k_tensor() {
    let mut encoded = 1.0_f32.to_le_bytes().to_vec();
    encoded.extend((0_u8..=255).map(|value| value.wrapping_add(0x80)));
    encoded.extend(std::iter::repeat_n(0_u8, 32));
    let bytes = fixture(15, &[256], &encoded);
    let model = open(&bytes).unwrap();
    let values = model.load_f32("probe.tensor", ModelSource::Bytes(&bytes), &Floats).unwrap();
    assert_eq!(values.data()[0].to_bits(), (-128.0_f32).to_bits());
    assert_eq!(values.data()[1].to_bits(), (-127.0_f32).to_bits());
    assert_eq!(values.data()[255].to_bits(), 127.0_f32.to_bits());
}

#[test]
fn materializes_q5_0_tensor() {
    let mut encoded = vec![0x00, 0x3c];
    encoded.extend([0, 0, 0, 0]);
    encoded.extend(std::iter::repeat_n(0x00, 16));
    let bytes = fixture(6, &[32], &encoded);
    let model = open(&bytes).unwrap();
    assert_eq!(model.load_f32("probe.tensor", ModelSource::Bytes(&bytes), &Floats).unwrap().data(), &[-16.0; 32]);
}

#[test]
fn materializes_q5_1_tensor() {
    let mut encoded = vec![0x00, 0x3c, 0x00, 0x3c];
    encoded.extend([0, 0, 0, 0]);
    encoded.extend(std::iter::repeat_n(0x00, 16));
    let bytes = fixture(7, &[32], &encoded);
    let model = open(&bytes).unwrap();
    assert_eq!(model.load_f32("probe.tensor", ModelSource::Bytes(&bytes), &Floats).unwrap().data(), &[1.0; 32]);
}

#[test]
fn materializes_q4_k_tensor() {
    let mut encoded = vec![0x00, 0x3c, 0x00, 0x00];
    encoded.extend([1, 1, 1, 1, 0, 0, 0, 0, 1, 1, 1, 1]);
    encoded.extend(std::iter::repeat_n(0x10, 128));
    let bytes = fixture(12, &[256], &encoded);
    let model = open(&bytes).unwrap();
    let values = model.load_f32("probe.tensor", ModelSource::Bytes(&bytes), &Floats).unwrap();
    for group in 0..8 {
        let start = group * 32;
        let expected: f32 = if group % 2 == 0 { 0.0 } else { 1.0 };
        assert!(
            values.data()[start..start + 32]
                .iter()
                .all(|value| value.to_bits() == expected.to_bits())
        );
    }
}

#[test]
fn materializes_q5_k_tensor() {
    let mut encoded = vec![0x00, 0x3c, 0x00, 0x3c];
    encoded.extend([1, 1, 1, 1, 0, 0, 0, 0, 1, 1, 1, 1]);
    encoded.extend(std::iter::repeat_n(0, 32));
    encoded.extend(std::iter::repeat_n(0x10, 128));
    let bytes = fixture(13, &[256], &encoded);
    let model = open(&bytes).unwrap();
    let values = model.load_f32("probe.tensor", ModelSource::Bytes(&bytes), &Floats).unwrap();
    for group in 0..8 {
        let start = group * 32;
        let expected: f32 = if group % 2 == 0 { 0.0 } else { 1.0 };
        assert!(
            values.data()[start..start + 32]
                .iter()
                .all(|value| value.to_bits() == expected.to_bits())
        );
    }
}

#[test]
fn materializes_q2_k_tensor() {
    let mut encoded = vec![1_u8; 16];
    encoded.extend(std::iter::repeat_n(0x55, 64));
    encoded.extend([0x00, 0x3c, 0x00, 0x00]);
    let bytes = fixture(10, &[256], &encoded);
    let model = open(&bytes).unwrap();
    assert_eq!(model.load_f32("probe.tensor", ModelSource::Bytes(&bytes), &Floats).unwrap().data(), &[1.0; 256]);
}

#[test]
fn materializes_q3_k_tensor() {
    let mut encoded = vec![0_u8; 32];
    encoded.extend(std::iter::repeat_n(0, 64));
    encoded.extend(std::iter::repeat_n(0x11, 8));
    encoded.extend(std::iter::repeat_n(0xaa, 4));
    encoded.extend([0x00, 0x3c]);
    let bytes = fixture(11, &[256], &encoded);
    let model = open(&bytes).unwrap();
    assert_eq!(model.load_f32("probe.tensor", ModelSource::Bytes(&bytes), &Floats).unwrap().data(), &[-4.0; 256]);
}

#[test]
fn materializes_q6_k_tensor() {
    let mut encoded = vec![0_u8; 210];
    encoded[192..208].fill(1);
    encoded[208..210].copy_from_slice(&0x3c00_u16.to_le_bytes());
    let bytes = fixture(14, &[256], &encoded);
    let model = open(&bytes).unwrap();
    assert_eq!(
        model.load_f32("probe.tensor", ModelSource::Bytes(&bytes), &Floats).unwrap().data(),
        &[-32.0; 256]
    );
}

#[test]
fn rejects_unsupported_tensor_materialization() {
    let bytes = fixture(16, &[256], &[0; 66]);
    let model = open(&bytes).unwrap();
    assert!(matches!(
        model.load_f32("probe.tensor", ModelSource::Bytes(&bytes), &Floats),
        Err(ModelError::UnsupportedTensorType { .. })
    ));
}

#[test]
fn detects_same_length_model_rewrite() {
    let bytes = f32_fixture(0, &[0; 16]);
    let model = open(&bytes).unwrap();
    let mut changed = bytes;
    *changed.last_mut().unwrap() ^= 1;
    assert!(matches!(
        model.load_f32("probe.tensor", ModelSource::Bytes(&changed), &Floats),
        Err(ModelError::ContentChanged)
    ));
}

/// A file with metadata of the given entries and no tensors.
fn metadata_fixture(entries: &[(&str, u32, Vec<u8>)]) -> Vec<u8> {
    let mut bytes = Vec::new();
    bytes.extend_from_slice(b"GGUF");
    bytes.extend_from_slice(&3_u32.to_le_bytes());
    bytes.extend_from_slice(&0_u64.to_le_bytes());
    bytes.extend_from_slice(&(entries.len() as u64).to_le_bytes());
    for (key, value_type, value) in entries {
        push_string(&mut bytes, key);
        bytes.extend_from_slice(&value_type.to_le_bytes());
        bytes.extend_from_slice(value);
    }
    bytes
}

fn string_value(value: &str) -> Vec<u8> {
    let mut bytes = Vec::new();
    push_string(&mut bytes, value);
    bytes
}

fn array_value(value_type: u32, elements: &[Vec<u8>]) -> Vec<u8> {
    let mut bytes = value_type.to_le_bytes().to_vec();
    bytes.extend_from_slice(&(elements.len() as u64).to_le_bytes());
    bytes.extend(elements.concat());
    bytes
}

/// The number that `bits` bits of the words hold behind `index` others.
fn unpack(words: &[u32], bits: usize, index: usize) -> u32 {
    (0..bits)
        .map(|bit| {
            let place = index * bits + bit;
            (words[place / 32] >> (place % 32) & 1) << bit
        })
        .sum()
}

#[test]
fn converts_half_precision_numbers() {
    let cases = [
        (0x0000_u16, 0.0_f32),
        (0x8000, -0.0),
        (0x3c00, 1.0),
        (0xc000, -2.0),
        (0x7bff, 65504.0),
        (0x0001, 5.960_464_5e-8),
        (0x03ff, 6.097_555e-5),
        (0x0400, 6.103_515_6e-5),
        (0x7c00, f32::INFINITY),
        (0xfc00, f32::NEG_INFINITY),
    ];
    for (half, single) in cases {
        assert_eq!(f16_to_f32(half), single.to_bits());
    }
    assert!(f32::from_bits(f16_to_f32(0x7e01)).is_nan());
}

#[test]
fn reads_metadata_scalars_of_each_type() {
    let bytes = metadata_fixture(&[
        ("a", 0, vec![200]),
        ("b", 1, vec![200]),
        ("c", 2, 60_000_u16.to_le_bytes().to_vec()),
        ("d", 3, (-3_i16).to_le_bytes().to_vec()),
        ("e", 4, 70_000_u32.to_le_bytes().to_vec()),
        ("f", 5, (-70_000_i32).to_le_bytes().to_vec()),
        ("g", 6, 1.5_f32.to_le_bytes().to_vec()),
        ("h", 7, vec![1]),
        ("i", 10, u64::MAX.to_le_bytes().to_vec()),
        ("j", 11, i64::MIN.to_le_bytes().to_vec()),
        ("k", 12, 2.5_f64.to_le_bytes().to_vec()),
        ("l", 9, array_value(0, &[vec![1]])),
    ]);
    let model = open(&bytes).unwrap();
    assert_eq!(model.architecture(), None);
    assert_eq!(model.name(), None);
    let expected = [
        ("a", MetadataScalar::U8(200)),
        ("b", MetadataScalar::I8(-56)),
        ("c", MetadataScalar::U16(60_000)),
        ("d", MetadataScalar::I16(-3)),
        ("e", MetadataScalar::U32(70_000)),
        ("f", MetadataScalar::I32(-70_000)),
        ("g", MetadataScalar::F32(1.5_f32.to_bits())),
        ("h", MetadataScalar::Bool(true)),
        ("i", MetadataScalar::U64(u64::MAX)),
        ("j", MetadataScalar::I64(i64::MIN)),
        ("k", MetadataScalar::F64(2.5_f64.to_bits())),
    ];
    for (key, value) in expected {
        assert_eq!(
            model.metadata_scalar(key, ModelSource::Bytes(&bytes)).unwrap(),
            Some(value)
        );
    }
    assert!(matches!(
        model.metadata_scalar("l", ModelSource::Bytes(&bytes)),
        Err(ModelError::MetadataArray(key)) if key == "l"
    ));
    assert!(matches!(
        model.metadata_scalars(&["a", "l"], ModelSource::Bytes(&bytes)),
        Err(ModelError::MetadataArray(key)) if key == "l"
    ));
}

#[test]
fn reads_metadata_arrays_within_their_limits() {
    let bytes = metadata_fixture(&[
        ("words", 9, array_value(8, &[string_value("a"), string_value("bc")])),
        (
            "scores",
            9,
            array_value(6, &[1.0_f32.to_le_bytes().to_vec(), (-0.5_f32).to_le_bytes().to_vec()]),
        ),
        ("count", 4, 2_u32.to_le_bytes().to_vec()),
    ]);
    let model = open(&bytes).unwrap();
    assert_eq!(
        model.metadata_string_array("words", 2, ModelSource::Bytes(&bytes)).unwrap(),
        Some(vec!["a".to_owned(), "bc".to_owned()])
    );
    assert_eq!(
        model.metadata_f32_array("scores", 2, ModelSource::Bytes(&bytes)).unwrap(),
        Some(vec![1.0_f32.to_bits(), (-0.5_f32).to_bits()])
    );
    assert_eq!(
        model.metadata_string_array("missing", 2, ModelSource::Bytes(&bytes)).unwrap(),
        None
    );
    let error = model
        .metadata_string_array("words", 1, ModelSource::Bytes(&bytes))
        .unwrap_err();
    assert!(matches!(error, ModelError::MetadataArrayLimit { len: 2, max: 1, .. }));
    assert_eq!(
        error.message(),
        "GGUF metadata words array has 2 elements, exceeding limit 1"
    );
    assert!(matches!(
        model.metadata_f32_array("words", 2, ModelSource::Bytes(&bytes)),
        Err(ModelError::MetadataArrayType { .. })
    ));
    assert!(matches!(
        model.metadata_string_array("count", 2, ModelSource::Bytes(&bytes)),
        Err(ModelError::MetadataArray(key)) if key == "count"
    ));
}

#[test]
fn refuses_sources_that_are_no_model() {
    let bytes = f32_fixture(0, &[0; 16]);
    assert!(matches!(
        GgufModel::open(PathBuf::from("model.gguf"), 0, ModelSource::Bytes(&bytes)),
        Err(ModelError::InvalidLimit)
    ));
    let error = GgufModel::open(
        PathBuf::from("model.gguf"),
        1,
        ModelSource::Unreadable("no such file".to_owned()),
    )
    .unwrap_err();
    assert_eq!(error.message(), "could not read GGUF model: no such file");
    let error = GgufModel::open(PathBuf::from("model.gguf"), 1, ModelSource::NotRegular).unwrap_err();
    assert_eq!(
        error.message(),
        "could not read GGUF model: model path is not a regular file"
    );
    assert!(matches!(open(b"GGML"), Err(ModelError::Parse(_))));
    let unnamed = metadata_fixture(&[("general.name", 4, 1_u32.to_le_bytes().to_vec())]);
    assert!(matches!(
        open(&unnamed),
        Err(ModelError::InvalidUtf8Metadata("general.name"))
    ));
    assert!(matches!(
        open(&fixture(0, &[0], &[])),
        Err(ModelError::Shape(reason)) if reason == "tensor probe.tensor has a zero dimension"
    ));
}

#[test]
fn describes_the_indexed_file() {
    let bytes = f32_fixture(0, &[0; 16]);
    let model = open(&bytes).unwrap();
    assert_eq!(model.path(), &PathBuf::from("model.gguf"));
    assert_eq!(model.file_size(), bytes.len() as u64);
    assert_eq!(model.max_file_bytes(), DEFAULT_MODEL_BYTE_LIMIT);
    assert_eq!(model.digest_hex().len(), 64);
    let tensor = model.tensor("probe.tensor").unwrap();
    assert_eq!(tensor.name(), "probe.tensor");
    assert_eq!(tensor.value_type().raw(), 0);
    assert_eq!(tensor.byte_len(), 16);
    assert_eq!(tensor.byte_offset() + 32, bytes.len() as u64);
    assert!(model.tensor("missing").is_none());
    assert_eq!(model.clone(), model);
    let empty = metadata_fixture(&[]);
    assert_ne!(open(&empty).unwrap().digest_hex(), model.digest_hex());
}

#[test]
fn digests_are_those_of_the_whole_file() {
    let bytes = metadata_fixture(&[]);
    let digest = <sha2::Sha256 as sha2::Digest>::digest(&bytes);
    let expected: String = digest.iter().map(|byte| format!("{byte:02x}")).collect();
    assert_eq!(open(&bytes).unwrap().digest_hex(), expected);
}

#[test]
fn refuses_names_that_no_tensor_has() {
    let bytes = f32_fixture(0, &[0; 16]);
    let model = open(&bytes).unwrap();
    let error = model
        .load_f32_many::<f32, Floats>(&["probe.tensor", "x", "y"], ModelSource::Bytes(&bytes), &Floats)
        .unwrap_err();
    assert_eq!(error.message(), "GGUF tensor not found: x");
    assert!(matches!(
        model.load_quantized("x", ModelSource::Bytes(&bytes)),
        Err(ModelError::TensorNotFound(name)) if name == "x"
    ));
    assert!(matches!(
        model.matmul_f32_quantized("x", &[1.0_f32], ModelSource::Bytes(&bytes), &Floats),
        Err(ModelError::TensorNotFound(name)) if name == "x"
    ));
}

#[test]
fn refuses_matrices_that_are_not_quantized_by_rows() {
    let bytes = f32_fixture(0, &[0; 16]);
    let model = open(&bytes).unwrap();
    let error = model
        .load_quantized("probe.tensor", ModelSource::Bytes(&bytes))
        .unwrap_err();
    assert_eq!(
        error.message(),
        "tensor probe.tensor uses unsupported storage type F32"
    );
    let mut encoded = vec![0x00, 0x3c];
    encoded.extend([0; 16]);
    let bytes = fixture(2, &[32], &encoded);
    assert!(matches!(
        open(&bytes).unwrap().load_quantized("probe.tensor", ModelSource::Bytes(&bytes)),
        Err(ModelError::Shape(_))
    ));
}

#[test]
fn refuses_inputs_and_columns_that_do_not_fit_a_matrix() {
    let mut encoded = vec![0x00, 0x3c];
    encoded.extend([0x99; 16]);
    let bytes = fixture(2, &[32, 1], &encoded);
    let matrix = open(&bytes)
        .unwrap()
        .load_quantized("probe.tensor", ModelSource::Bytes(&bytes))
        .unwrap();
    assert!(matches!(matrix.column::<f32, Floats>(1, &Floats), Err(ModelError::Shape(_))));
    assert!(matches!(matrix.matmul_f32(&[1.0; 31], &Floats), Err(ModelError::Shape(_))));
    assert!(matches!(
        matrix.matmul_f32(&[f32::INFINITY; 32], &Floats),
        Err(ModelError::Shape(_))
    ));
}

#[test]
fn columns_are_parts_of_the_materialized_matrix() {
    let mut encoded = Vec::new();
    for seed in 0..3 {
        let mut block = patterned_bytes(34, seed);
        block[..2].copy_from_slice(&0x3c00_u16.to_le_bytes());
        encoded.extend(block);
    }
    let bytes = fixture(8, &[32, 3], &encoded);
    let model = open(&bytes).unwrap();
    let matrix = model.load_quantized("probe.tensor", ModelSource::Bytes(&bytes)).unwrap();
    let values = model
        .load_f32("probe.tensor", ModelSource::Bytes(&bytes), &Floats)
        .unwrap();
    for column in 0..3 {
        assert_eq!(
            matrix.column(column, &Floats).unwrap(),
            values.data()[column * 32..(column + 1) * 32]
        );
    }
}

#[test]
fn packs_affine_numbers_that_can_be_read_back() {
    let mut encoded = 1.0_f32.to_le_bytes().to_vec();
    encoded.extend((0_u8..=255).map(|value| value.wrapping_mul(29)));
    encoded.extend([0; 32]);
    let bytes = fixture(15, &[256, 1], &encoded);
    let model = open(&bytes).unwrap();
    let values = model
        .load_f32("probe.tensor", ModelSource::Bytes(&bytes), &Floats)
        .unwrap();
    for bits in [2, 3, 4, 5, 6, 8] {
        let matrix = model
            .load_affine_quantized("probe.tensor", 64, bits, ModelSource::Bytes(&bytes), &Floats)
            .unwrap();
        assert_eq!(matrix.packed().len(), 256 * bits / 32);
        assert_eq!(matrix.scales().len(), 4);
        assert_eq!(matrix.biases().len(), 4);
        assert_eq!(matrix.clone(), matrix);
        for (index, value) in values.data().iter().enumerate() {
            let scale = matrix.scales()[index / 64];
            let bias = matrix.biases()[index / 64];
            let number = unpack(matrix.packed(), bits, index) as f32;
            let steps = ((1 << bits) - 1) as f32;
            let expected = ((value - bias) / scale).round().clamp(0.0, steps);
            assert_eq!(number, expected);
        }
    }
}

#[test]
fn visits_tensors_in_the_order_of_their_names() {
    let values = [1.0_f32, 2.0, 3.0, 4.0];
    let encoded = values.iter().flat_map(|value| value.to_le_bytes()).collect::<Vec<_>>();
    let bytes = f32_fixture(0, &encoded);
    let model = open(&bytes).unwrap();
    let mut seen = Vec::new();
    model
        .for_each_f32(
            &["probe.tensor", "probe.tensor"],
            ModelSource::Bytes(&bytes),
            |name: &str, tensor| {
                seen.push((name.to_owned(), tensor));
                Ok::<(), ModelError>(())
            },
            &Floats,
        )
        .unwrap();
    assert_eq!(seen.len(), 2);
    assert_eq!(seen[0].0, "probe.tensor");
    assert_eq!(seen[1].1.data(), &values);
    let mut calls = 0;
    let stopped = model.for_each_tensor(
        &["probe.tensor", "probe.tensor"],
        32,
        4,
        ModelSource::Bytes(&bytes),
        |_: &str, tensor: LoadedTensor<f32>| {
            calls += 1;
            assert!(matches!(tensor, LoadedTensor::F32(_)));
            Err(ModelError::InvalidLimit)
        },
        &Floats,
    );
    assert!(matches!(stopped, Err(ModelError::InvalidLimit)));
    assert_eq!(calls, 1);
    assert!(matches!(
        model.for_each_tensor(
            &["probe.tensor"],
            31,
            4,
            ModelSource::Bytes(&bytes),
            |_: &str, _: LoadedTensor<f32>| Ok::<(), ModelError>(()),
            &Floats,
        ),
        Err(ModelError::Shape(_))
    ));
}

#[test]
fn decodes_values_of_raw_data() {
    let kind = |code: u32| {
        let bytes = fixture(code, &[32], &[0; 256]);
        open(&bytes).unwrap().tensors()[0].value_type()
    };
    let mut encoded = vec![0x00, 0x40];
    encoded.extend([0x97; 16]);
    let values: Vec<f32> = decode_values(kind(2), &encoded, &Floats).unwrap();
    assert_eq!(values[0], -2.0);
    assert_eq!(values[31], 2.0);
    for (index, value) in values.iter().enumerate() {
        assert_eq!(
            quantized_value_at::<f32, Floats>(kind(2), &encoded, index, &Floats).unwrap(),
            *value
        );
    }
    assert!(matches!(
        decode_values::<f32, Floats>(kind(2), &encoded[..17], &Floats),
        Err(ModelError::Shape(_))
    ));
}

#[test]
fn model_errors_describe_themselves() {
    assert_eq!(
        ModelError::InvalidLimit.message(),
        "model mapping limit must be greater than zero"
    );
    assert_eq!(
        ModelError::ContentChanged.message(),
        "GGUF model bytes changed after the model was opened"
    );
    assert_eq!(
        ModelError::InvalidUtf8Metadata("general.name").message(),
        "GGUF metadata general.name is not a UTF-8 string"
    );
    assert_eq!(
        ModelError::MetadataArray("key".to_owned()).message(),
        "GGUF metadata key is an array, not a scalar"
    );
    assert_eq!(
        ModelError::MetadataArrayType {
            key: "key".to_owned(),
            expected: "String",
            actual: "U8".to_owned(),
        }
        .message(),
        "GGUF metadata key array has element type U8, expected String"
    );
}

#[test]
fn direct_and_loaded_products_are_the_same() {
    let mut encoded = Vec::new();
    for seed in 0..3 {
        let mut block = patterned_bytes(34, seed);
        block[..2].copy_from_slice(&0x3c00_u16.to_le_bytes());
        encoded.extend(block);
    }
    let bytes = fixture(8, &[32, 3], &encoded);
    let model = open(&bytes).unwrap();
    let matrix = model.load_quantized("probe.tensor", ModelSource::Bytes(&bytes)).unwrap();
    let input: Vec<f32> = (0..32).map(|value| 0.25 * value as f32 - 3.0).collect();
    let direct = model
        .matmul_f32_quantized("probe.tensor", &input, ModelSource::Bytes(&bytes), &Floats)
        .unwrap();
    assert_eq!(direct, matrix.matmul_f32(&input, &Floats).unwrap());
    assert_eq!(direct.len(), matrix.columns());
    assert!(direct.iter().all(|value| value.is_finite()));
    for refused in [vec![1.0; 31], vec![f32::NAN; 32], vec![f32::MAX; 32]] {
        assert!(model
            .matmul_f32_quantized("probe.tensor", &refused, ModelSource::Bytes(&bytes), &Floats)
            .is_err());
        assert!(matrix.matmul_f32(&refused, &Floats).is_err());
    }
}
