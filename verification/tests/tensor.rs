use ggml::tensor::arithmetic::Arithmetic;
use ggml::tensor::dense::Tensor;
use ggml::tensor::error::TensorError;

struct Floats;

impl Arithmetic<f32> for Floats {
    fn zero(&self) -> f32 {
        0.0
    }

    fn empty_sum(&self) -> f32 {
        std::iter::empty::<f32>().sum()
    }

    fn one(&self) -> f32 {
        1.0
    }

    fn lowest(&self) -> f32 {
        f32::NEG_INFINITY
    }

    fn highest(&self) -> f32 {
        f32::INFINITY
    }

    fn from_count(&self, count: usize) -> f32 {
        count as f32
    }

    fn from_integer(&self, value: i32) -> f32 {
        value as f32
    }

    fn from_bits(&self, bits: u32) -> f32 {
        f32::from_bits(bits)
    }

    fn to_count(&self, value: f32) -> u32 {
        value as u32
    }

    fn add(&self, left: f32, right: f32) -> f32 {
        left + right
    }

    fn subtract(&self, left: f32, right: f32) -> f32 {
        left - right
    }

    fn multiply(&self, left: f32, right: f32) -> f32 {
        left * right
    }

    fn divide(&self, left: f32, right: f32) -> f32 {
        left / right
    }

    fn negate(&self, value: f32) -> f32 {
        -value
    }

    fn absolute(&self, value: f32) -> f32 {
        value.abs()
    }

    fn round(&self, value: f32) -> f32 {
        value.round()
    }

    fn maximum(&self, left: f32, right: f32) -> f32 {
        left.max(right)
    }

    fn minimum(&self, left: f32, right: f32) -> f32 {
        left.min(right)
    }

    fn exponential(&self, value: f32) -> f32 {
        value.exp()
    }

    fn square_root(&self, value: f32) -> f32 {
        value.sqrt()
    }

    fn reciprocal(&self, value: f32) -> f32 {
        value.recip()
    }

    fn power(&self, base: f32, exponent: f32) -> f32 {
        base.powf(exponent)
    }

    fn sine_cosine(&self, angle: f32) -> (f32, f32) {
        angle.sin_cos()
    }

    fn is_finite(&self, value: f32) -> bool {
        value.is_finite()
    }

    fn is_negative(&self, value: f32) -> bool {
        value < 0.0
    }

    fn is_positive(&self, value: f32) -> bool {
        value > 0.0
    }

    fn is_zero(&self, value: f32) -> bool {
        value == 0.0
    }

    fn exceeds(&self, left: f32, right: f32) -> bool {
        left > right
    }
}

#[test]
fn constructs_and_reshapes_row_major_data() {
    let tensor = Tensor::from_data(vec![2, 2], vec![1.0, 2.0, 3.0, 4.0])
        .unwrap()
        .reshape(vec![4])
        .unwrap();
    assert_eq!(tensor.shape(), &[4]);
    assert_eq!(tensor.data(), &[1.0, 2.0, 3.0, 4.0]);
}

#[test]
fn transposes_rank_two_data() {
    let tensor = Tensor::from_data(vec![2, 3], vec![1.0, 2.0, 3.0, 4.0, 5.0, 6.0])
        .unwrap()
        .transpose_2d(&Floats)
        .unwrap();
    assert_eq!(tensor.shape(), &[3, 2]);
    assert_eq!(tensor.data(), &[1.0, 4.0, 2.0, 5.0, 3.0, 6.0]);
}

#[test]
fn broadcasts_singleton_dimensions() {
    let tensor = Tensor::from_data(vec![2, 1], vec![1.0, 2.0])
        .unwrap()
        .broadcast_to(vec![2, 3], &Floats)
        .unwrap();
    assert_eq!(tensor.data(), &[1.0, 1.0, 1.0, 2.0, 2.0, 2.0]);
}

#[test]
fn rejects_shape_data_mismatch_and_zero_dimensions() {
    assert_eq!(
        Tensor::from_data(vec![2, 2], vec![1.0_f32, 2.0]).unwrap_err(),
        TensorError::DataLength {
            expected: 4,
            actual: 2
        }
    );
    assert_eq!(
        Tensor::zeros(vec![2, 0], &Floats).unwrap_err(),
        TensorError::ZeroDimension
    );
}

#[test]
fn matrix_multiplication_is_row_major() {
    let left = Tensor::from_data(vec![2, 3], vec![1.0, 2.0, 3.0, 4.0, 5.0, 6.0]).unwrap();
    let right = Tensor::from_data(vec![3, 2], vec![7.0, 8.0, 9.0, 10.0, 11.0, 12.0]).unwrap();
    let result = left.matmul(&right, &Floats).unwrap();
    assert_eq!(result.shape(), &[2, 2]);
    assert_eq!(result.data(), &[58.0, 64.0, 139.0, 154.0]);
}

#[test]
fn elementwise_ops_require_identical_shapes() {
    let left = Tensor::from_data(vec![2], vec![1.0, 2.0]).unwrap();
    let right = Tensor::from_data(vec![1, 2], vec![3.0, 4.0]).unwrap();
    assert!(matches!(
        left.add(&right, &Floats),
        Err(TensorError::ShapeMismatch { .. })
    ));
}

#[test]
fn rms_norm_normalizes_each_row() {
    let tensor = Tensor::from_data(vec![2, 2], vec![3.0, 4.0, 0.0, 5.0]).unwrap();
    let normalized = tensor.rms_norm(0.0, &Floats).unwrap();
    let expected_scale = 12.5_f32.sqrt().recip();
    assert!((normalized.data()[0] - 3.0 * expected_scale).abs() < 1e-6);
    assert!((normalized.data()[1] - 4.0 * expected_scale).abs() < 1e-6);
    assert_eq!(normalized.data()[2].to_bits(), 0.0_f32.to_bits());
    assert!((normalized.data()[3] - 5.0 * expected_scale).abs() < 1e-6);
}

#[test]
fn weighted_rms_norm_applies_a_final_dimension_vector() {
    let tensor = Tensor::from_data(vec![2, 2], vec![1.0, 2.0, 3.0, 4.0]).unwrap();
    let weight = Tensor::from_data(vec![2], vec![2.0, 3.0]).unwrap();
    let normalized = tensor.rms_norm_with_weight(&weight, 0.0, &Floats).unwrap();
    let expected = [
        2.0 / 2.5_f32.sqrt(),
        6.0 / 2.5_f32.sqrt(),
        6.0 / 12.5_f32.sqrt(),
        12.0 / 12.5_f32.sqrt(),
    ];
    for (actual, expected) in normalized.data().iter().zip(expected) {
        assert!((actual - expected).abs() < 1e-6);
    }
}

#[test]
fn softmax_is_stable_and_normalized() {
    let tensor =
        Tensor::from_data(vec![2, 3], vec![1000.0, 1001.0, 1002.0, -1000.0, -1001.0, -1002.0]).unwrap();
    let probabilities = tensor.softmax_last_dim(&Floats).unwrap();
    assert_eq!(probabilities.data().len() % 3, 0);
    for row in probabilities.data().chunks(3) {
        assert!((row.iter().sum::<f32>() - 1.0).abs() < 1e-6);
    }
    assert!(probabilities.data().iter().all(|value| value.is_finite()));
}

#[test]
fn attention_supports_grouped_heads_and_causal_prefixes() {
    let queries = Tensor::from_data(vec![1, 2, 2, 1], vec![0.0; 4]).unwrap();
    let keys = Tensor::from_data(vec![1, 1, 3, 1], vec![0.0; 3]).unwrap();
    let values = Tensor::from_data(vec![1, 1, 3, 1], vec![1.0, 3.0, 5.0]).unwrap();
    let output = queries
        .scaled_dot_product_attention(&keys, &values, 1.0, true, &Floats)
        .unwrap();
    assert_eq!(output.shape(), &[1, 2, 2, 1]);
    assert_eq!(output.data(), &[2.0, 3.0, 2.0, 3.0]);
}

#[test]
fn attention_rejects_incompatible_shapes_and_scale() {
    let queries = Tensor::from_data(vec![1, 1, 1, 2], vec![0.0, 0.0]).unwrap();
    let keys = Tensor::from_data(vec![1, 1, 1, 1], vec![0.0]).unwrap();
    let values = Tensor::from_data(vec![1, 1, 1, 1], vec![0.0]).unwrap();
    assert!(matches!(
        queries.scaled_dot_product_attention(&keys, &values, 1.0, false, &Floats),
        Err(TensorError::AttentionShapeMismatch { .. })
    ));
    assert_eq!(
        queries.scaled_dot_product_attention(&queries, &values, f32::NAN, false, &Floats),
        Err(TensorError::InvalidScale)
    );
}

#[test]
fn rejects_non_finite_results() {
    let tensor = Tensor::from_data(vec![1], vec![f32::MAX]).unwrap();
    assert_eq!(
        tensor.scale(2.0, &Floats).unwrap_err(),
        TensorError::NonFiniteOutput {
            operation: "scale",
            index: 0
        }
    );
}

fn tensor(shape: &[usize], data: &[f32]) -> Tensor<f32> {
    Tensor::from_data(shape.to_vec(), data.to_vec()).unwrap()
}

#[test]
fn transposing_twice_gives_the_matrix_back() {
    let matrix = tensor(&[2, 3], &[1.0, 2.0, 3.0, 4.0, 5.0, 6.0]);
    let twice = matrix.transpose_2d(&Floats).unwrap().transpose_2d(&Floats).unwrap();
    assert_eq!(twice, matrix);
    assert_eq!(
        tensor(&[2], &[1.0, 2.0]).transpose_2d(&Floats).unwrap_err(),
        TensorError::RankMismatch { expected: 2, actual: 1 }
    );
}

#[test]
fn broadcasts_align_axes_at_the_right() {
    let row = tensor(&[3], &[1.0, 2.0, 3.0]);
    let wide = row.broadcast_to(vec![2, 2, 3], &Floats).unwrap();
    assert_eq!(wide.shape(), &[2, 2, 3]);
    assert_eq!(wide.data(), [1.0, 2.0, 3.0].repeat(4).as_slice());
    let stepped = row
        .broadcast_to(vec![1, 3], &Floats)
        .unwrap()
        .broadcast_to(vec![2, 3], &Floats)
        .unwrap();
    assert_eq!(stepped, row.broadcast_to(vec![2, 3], &Floats).unwrap());
    assert_eq!(row.broadcast_to(vec![3], &Floats).unwrap(), row);
    assert_eq!(
        row.broadcast_to(vec![3, 2], &Floats).unwrap_err(),
        TensorError::ShapeMismatch { left: vec![3], right: vec![3, 2] }
    );
    assert_eq!(
        row.broadcast_to(vec![usize::MAX, 2, 3], &Floats).unwrap_err(),
        TensorError::ElementCountOverflow
    );
}

#[test]
fn elementwise_operations_apply_to_each_value() {
    let left = tensor(&[3], &[1.0, 2.0, 3.0]);
    let right = tensor(&[3], &[4.0, 5.0, 6.0]);
    assert_eq!(left.add(&right, &Floats).unwrap().data(), &[5.0, 7.0, 9.0]);
    assert_eq!(left.mul(&right, &Floats).unwrap().data(), &[4.0, 10.0, 18.0]);
    assert_eq!(left.scale(-2.0, &Floats).unwrap().data(), &[-2.0, -4.0, -6.0]);
    let silu = left.silu(&Floats).unwrap();
    assert_eq!(silu.data()[0], 1.0 / (1.0 + (-1.0_f32).exp()));
}

#[test]
fn reports_the_first_value_that_is_not_finite() {
    let left = tensor(&[2], &[1.0, f32::NAN]);
    assert_eq!(
        left.validate_finite(&Floats).unwrap_err(),
        TensorError::NonFiniteInput { index: 1 }
    );
    assert!(matches!(
        left.add(&left, &Floats),
        Err(TensorError::NonFiniteOutput { operation: "add", index: 1 })
    ));
    assert_eq!(
        left.softmax_last_dim(&Floats).unwrap_err(),
        TensorError::NonFiniteInput { index: 1 }
    );
    assert!(tensor(&[1], &[1.0]).validate_finite(&Floats).is_ok());
}

#[test]
fn multiplies_matrices_across_tiles() {
    let size = 37;
    let identity: Vec<f32> = (0..size * size)
        .map(|index| if index / size == index % size { 1.0 } else { 0.0 })
        .collect();
    let values: Vec<f32> = (0..size * size).map(|index| index as f32).collect();
    let left = tensor(&[size, size], &identity);
    let right = tensor(&[size, size], &values);
    assert_eq!(left.matmul(&right, &Floats).unwrap(), right);
    assert_eq!(right.matmul(&left, &Floats).unwrap(), right);
    assert_eq!(
        left.matmul(&tensor(&[1, 2], &[1.0, 2.0]), &Floats).unwrap_err(),
        TensorError::MatrixShapeMismatch { left: vec![size, size], right: vec![1, 2] }
    );
    assert_eq!(
        tensor(&[2], &[1.0, 2.0]).matmul(&left, &Floats).unwrap_err(),
        TensorError::RankMismatch { expected: 2, actual: 1 }
    );
}

#[test]
fn norms_refuse_invalid_epsilons_and_weights() {
    let row = tensor(&[1, 2], &[1.0, 2.0]);
    assert_eq!(row.rms_norm(-1.0, &Floats).unwrap_err(), TensorError::InvalidEpsilon);
    assert_eq!(
        row.rms_norm_with_weight(&tensor(&[3], &[1.0; 3]), 0.0, &Floats).unwrap_err(),
        TensorError::ShapeMismatch { left: vec![3], right: vec![2] }
    );
    let scalar = Tensor::scalar(2.0_f32);
    assert_eq!(scalar.rank(), 0);
    assert!(scalar.rms_norm(0.0, &Floats).is_err());
}

#[test]
fn rotates_leading_pairs_only() {
    let heads = tensor(&[1, 4], &[1.0, 0.0, 5.0, 6.0]);
    let rotated = heads.rotary_embedding(2, 1.0, 10_000.0, &Floats).unwrap();
    assert!((rotated.data()[0] - 1.0_f32.cos()).abs() < 1e-6);
    assert!((rotated.data()[1] - 1.0_f32.sin()).abs() < 1e-6);
    assert_eq!(&rotated.data()[2..], &[5.0, 6.0]);
    assert_eq!(heads.rotary_embedding(4, 0.0, 10_000.0, &Floats).unwrap(), heads);
    assert_eq!(
        heads.rotary_embedding(3, 0.0, 10_000.0, &Floats).unwrap_err(),
        TensorError::RotaryShapeMismatch { shape: vec![1, 4] }
    );
    assert_eq!(
        heads.rotary_embedding(2, f32::NAN, 10_000.0, &Floats).unwrap_err(),
        TensorError::InvalidPosition
    );
    assert_eq!(
        heads.rotary_embedding(2, 0.0, 0.0, &Floats).unwrap_err(),
        TensorError::InvalidFrequencyBase
    );
}

#[test]
fn attention_needs_a_value_for_each_key() {
    let queries = tensor(&[1, 1, 1, 1], &[0.0]);
    let keys = tensor(&[1, 1, 2, 1], &[0.0, 0.0]);
    let values = tensor(&[1, 1, 1, 1], &[1.0]);
    assert_eq!(
        queries
            .scaled_dot_product_attention(&keys, &values, 1.0, false, &Floats)
            .unwrap_err(),
        TensorError::AttentionShapeMismatch {
            queries: vec![1, 1, 1, 1],
            keys: vec![1, 1, 2, 1],
            values: vec![1, 1, 1, 1],
        }
    );
}

#[test]
fn attention_weighs_values_by_their_scores() {
    let queries = tensor(&[1, 1, 1, 2], &[1.0, 2.0]);
    let keys = tensor(&[1, 1, 2, 2], &[1.0, 0.0, 0.0, 1.0]);
    let values = tensor(&[1, 1, 2, 3], &[1.0, 2.0, 3.0, 4.0, 5.0, 6.0]);
    let output = queries
        .scaled_dot_product_attention(&keys, &values, 1.0, false, &Floats)
        .unwrap();
    let first = (1.0_f32 - 2.0).exp();
    let share = first / (first + 1.0);
    for (place, actual) in output.data().iter().enumerate() {
        let low = values.data()[place];
        let high = values.data()[place + 3];
        assert!((actual - (share * low + (1.0 - share) * high)).abs() < 1e-5);
    }
    let large = tensor(&[1, 1, 1, 2], &[f32::MAX, f32::MAX]);
    assert_eq!(
        large
            .scaled_dot_product_attention(&large, &large, 1.0, false, &Floats)
            .unwrap_err(),
        TensorError::NonFiniteOutput { operation: "scaled_dot_product_attention", index: 0 }
    );
}

#[test]
fn causal_attention_with_one_query_reads_all_keys() {
    let queries = tensor(&[1, 1, 1, 1], &[0.0]);
    let keys = tensor(&[1, 1, 4, 1], &[0.0; 4]);
    let values = tensor(&[1, 1, 4, 1], &[1.0, 2.0, 3.0, 6.0]);
    let causal = queries
        .scaled_dot_product_attention(&keys, &values, 1.0, true, &Floats)
        .unwrap();
    let open = queries
        .scaled_dot_product_attention(&keys, &values, 1.0, false, &Floats)
        .unwrap();
    assert_eq!(causal, open);
    assert_eq!(causal.data(), &[3.0]);
}

#[test]
fn tensors_hand_out_their_parts() {
    let matrix = tensor(&[2, 2], &[1.0, 2.0, 3.0, 4.0]);
    assert_eq!(matrix.rank(), 2);
    assert_eq!(matrix.len(), 4);
    assert!(!matrix.is_empty());
    assert_eq!(matrix.get_flat(3), Some(4.0));
    assert_eq!(matrix.get_flat(4), None);
    assert_eq!(matrix.clone().into_data(), vec![1.0, 2.0, 3.0, 4.0]);
    assert_eq!(Tensor::zeros(vec![2], &Floats).unwrap().data(), &[0.0, 0.0]);
    assert_eq!(
        matrix.reshape(vec![3]).unwrap_err(),
        TensorError::DataLength { expected: 3, actual: 4 }
    );
}

#[test]
fn tensor_errors_describe_themselves() {
    assert_eq!(
        TensorError::ShapeMismatch { left: vec![1, 2], right: vec![3] }.message(),
        "tensor shapes differ: [1, 2] and [3]"
    );
    assert_eq!(
        TensorError::NonFiniteOutput { operation: "scale", index: 12 }.message(),
        "tensor operation scale produced a non-finite value at index 12"
    );
}
