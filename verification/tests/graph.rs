use ggml::graph::builder::Graph;
use ggml::graph::error::GraphError;
use ggml::graph::node::{BinaryKernel, Kernels, UnaryKernel};
use ggml::tensor::arithmetic::Arithmetic;
use ggml::tensor::dense::Tensor;
use ggml::tensor::error::TensorError;

struct Floats;

impl Arithmetic<f32> for Floats {
    fn zero(&self) -> f32 {
        0.0
    }

    fn empty_sum(&self) -> f32 {
        std::iter::empty::<f32>().sum()
    }

    fn one(&self) -> f32 {
        1.0
    }

    fn lowest(&self) -> f32 {
        f32::NEG_INFINITY
    }

    fn highest(&self) -> f32 {
        f32::INFINITY
    }

    fn from_count(&self, count: usize) -> f32 {
        count as f32
    }

    fn from_integer(&self, value: i32) -> f32 {
        value as f32
    }

    fn from_bits(&self, bits: u32) -> f32 {
        f32::from_bits(bits)
    }

    fn to_count(&self, value: f32) -> u32 {
        value as u32
    }

    fn add(&self, left: f32, right: f32) -> f32 {
        left + right
    }

    fn subtract(&self, left: f32, right: f32) -> f32 {
        left - right
    }

    fn multiply(&self, left: f32, right: f32) -> f32 {
        left * right
    }

    fn divide(&self, left: f32, right: f32) -> f32 {
        left / right
    }

    fn negate(&self, value: f32) -> f32 {
        -value
    }

    fn absolute(&self, value: f32) -> f32 {
        value.abs()
    }

    fn round(&self, value: f32) -> f32 {
        value.round()
    }

    fn maximum(&self, left: f32, right: f32) -> f32 {
        left.max(right)
    }

    fn minimum(&self, left: f32, right: f32) -> f32 {
        left.min(right)
    }

    fn exponential(&self, value: f32) -> f32 {
        value.exp()
    }

    fn square_root(&self, value: f32) -> f32 {
        value.sqrt()
    }

    fn reciprocal(&self, value: f32) -> f32 {
        value.recip()
    }

    fn power(&self, base: f32, exponent: f32) -> f32 {
        base.powf(exponent)
    }

    fn sine_cosine(&self, angle: f32) -> (f32, f32) {
        angle.sin_cos()
    }

    fn is_finite(&self, value: f32) -> bool {
        value.is_finite()
    }

    fn is_negative(&self, value: f32) -> bool {
        value < 0.0
    }

    fn is_positive(&self, value: f32) -> bool {
        value > 0.0
    }

    fn is_zero(&self, value: f32) -> bool {
        value == 0.0
    }

    fn exceeds(&self, left: f32, right: f32) -> bool {
        left > right
    }
}

#[derive(Debug, Clone, Copy)]
enum RotaryScaling {
    Linear { factor: f32 },
}

struct PlainKernels;

/// The coordinates of the value at `index` of a row-major tensor.
fn coordinates(shape: &[usize], index: usize) -> Vec<usize> {
    let mut rest = index;
    let mut places = vec![0; shape.len()];
    for axis in (0..shape.len()).rev() {
        places[axis] = rest % shape[axis];
        rest /= shape[axis];
    }
    places
}

/// The index of the value at `places` of a row-major tensor.
fn flat_index(shape: &[usize], places: &[usize]) -> usize {
    shape.iter().zip(places).fold(0, |index, (size, place)| index * size + place)
}

/// A tensor of the given shape whose values are found by their coordinates.
fn tabulate(shape: Vec<usize>, value: impl Fn(&[usize]) -> f32) -> Result<Tensor<f32>, TensorError> {
    let count: usize = shape.iter().product();
    let data = (0..count).map(|index| value(&coordinates(&shape, index))).collect();
    Tensor::from_data(shape, data)
}

fn map(input: &Tensor<f32>, function: impl Fn(f32) -> f32) -> Result<Tensor<f32>, TensorError> {
    Tensor::from_data(input.shape().to_vec(), input.data().iter().map(|value| function(*value)).collect())
}

fn zip(
    left: &Tensor<f32>,
    right: &Tensor<f32>,
    function: impl Fn(f32, f32) -> f32,
) -> Result<Tensor<f32>, TensorError> {
    let shape = left.shape().to_vec();
    let wide = right.broadcast_to(shape.clone(), &Floats)?;
    let pairs = left.data().iter().zip(wide.data());
    Tensor::from_data(shape, pairs.map(|(left, right)| function(*left, *right)).collect())
}

/// The values along `axis` through `places`.
fn line(input: &Tensor<f32>, axis: usize, places: &[usize]) -> Vec<f32> {
    let mut places = places.to_vec();
    (0..input.shape()[axis])
        .map(|place| {
            places[axis] = place;
            input.data()[flat_index(input.shape(), &places)]
        })
        .collect()
}

fn reduce(
    input: &Tensor<f32>,
    axis: usize,
    keepdims: bool,
    function: impl Fn(Vec<f32>) -> f32,
) -> Result<Tensor<f32>, TensorError> {
    let mut kept = input.shape().to_vec();
    kept[axis] = 1;
    let reduced = tabulate(kept.clone(), |places| function(line(input, axis, places)))?;
    if keepdims {
        return Ok(reduced);
    }
    kept.remove(axis);
    reduced.reshape(kept)
}

fn mean(values: Vec<f32>) -> f32 {
    values.iter().sum::<f32>() / values.len() as f32
}

fn sum(values: Vec<f32>) -> f32 {
    values.iter().sum()
}

impl Kernels<f32, RotaryScaling> for PlainKernels {
    fn apply_one(
        &self,
        kernel: &UnaryKernel<f32, RotaryScaling>,
        input: &Tensor<f32>,
    ) -> Result<Tensor<f32>, TensorError> {
        let shape = input.shape();
        let last = shape.len() - 1;
        match kernel {
            UnaryKernel::Permute(axes) => {
                tabulate(axes.iter().map(|axis| shape[*axis]).collect(), |places| {
                    let mut source = vec![0; shape.len()];
                    for (place, axis) in places.iter().zip(axes) {
                        source[*axis] = *place;
                    }
                    input.data()[flat_index(shape, &source)]
                })
            }
            UnaryKernel::Slice { starts, ends, axes, strides } => {
                let mut sizes = shape.to_vec();
                for (index, axis) in axes.iter().enumerate() {
                    sizes[*axis] = (ends[index] - starts[index]).div_ceil(strides[index]);
                }
                tabulate(sizes, |places| {
                    let mut source = places.to_vec();
                    for (index, axis) in axes.iter().enumerate() {
                        source[*axis] = starts[index] + places[*axis] * strides[index];
                    }
                    input.data()[flat_index(shape, &source)]
                })
            }
            UnaryKernel::GatherRows(rows) => {
                let mut sizes = shape.to_vec();
                sizes[0] = rows.len();
                tabulate(sizes, |places| {
                    let mut source = places.to_vec();
                    source[0] = rows[places[0]];
                    input.data()[flat_index(shape, &source)]
                })
            }
            UnaryKernel::Negate => map(input, |value| -value),
            UnaryKernel::Absolute => map(input, f32::abs),
            UnaryKernel::Square => map(input, |value| value * value),
            UnaryKernel::SquareRoot => map(input, f32::sqrt),
            UnaryKernel::Reciprocal => map(input, f32::recip),
            UnaryKernel::Rsqrt => map(input, |value| value.sqrt().recip()),
            UnaryKernel::Exponential => map(input, f32::exp),
            UnaryKernel::Logarithm => map(input, f32::ln),
            UnaryKernel::Sine => map(input, f32::sin),
            UnaryKernel::Cosine => map(input, f32::cos),
            UnaryKernel::Tanh => map(input, f32::tanh),
            UnaryKernel::Sigmoid => map(input, |value| 1.0 / (1.0 + (-value).exp())),
            UnaryKernel::SumLastDim => reduce(input, last, true, sum),
            UnaryKernel::MeanLastDim => reduce(input, last, true, mean),
            UnaryKernel::Sum { axis, keepdims } => reduce(input, *axis, *keepdims, sum),
            UnaryKernel::Mean { axis, keepdims } => reduce(input, *axis, *keepdims, mean),
            UnaryKernel::Cumsum { axis, reverse } => tabulate(shape.to_vec(), |places| {
                let values = line(input, *axis, places);
                if *reverse {
                    values[places[*axis]..].iter().sum()
                } else {
                    values[..=places[*axis]].iter().sum()
                }
            }),
            UnaryKernel::Softmax { axis } => tabulate(shape.to_vec(), |places| {
                let values = line(input, *axis, places);
                let total: f32 = values.iter().map(|value| value.exp()).sum();
                values[places[*axis]].exp() / total
            }),
            UnaryKernel::Clamp { minimum, maximum } => {
                map(input, |value| value.clamp(*minimum, *maximum))
            }
            UnaryKernel::Rotary { rotary_dimension, position, frequency_base, scaling } => {
                let RotaryScaling::Linear { factor } = scaling;
                input.rotary_embedding(*rotary_dimension, *position / *factor, *frequency_base, &Floats)
            }
        }
    }

    fn apply_two(
        &self,
        kernel: &BinaryKernel,
        left: &Tensor<f32>,
        right: &Tensor<f32>,
    ) -> Result<Tensor<f32>, TensorError> {
        match kernel {
            BinaryKernel::Maximum => zip(left, right, f32::max),
            BinaryKernel::Minimum => zip(left, right, f32::min),
            BinaryKernel::Subtract => zip(left, right, |left, right| left - right),
            BinaryKernel::Divide => zip(left, right, |left, right| left / right),
            BinaryKernel::SliceUpdate { starts, ends, axes, strides } => {
                tabulate(left.shape().to_vec(), |places| {
                    let mut source = places.to_vec();
                    for (index, axis) in axes.iter().enumerate() {
                        let place = places[*axis];
                        if place < starts[index]
                            || place >= ends[index]
                            || (place - starts[index]) % strides[index] != 0
                        {
                            return left.data()[flat_index(left.shape(), places)];
                        }
                        source[*axis] = (place - starts[index]) / strides[index];
                    }
                    right.data()[flat_index(right.shape(), &source)]
                })
            }
            BinaryKernel::Concatenate { axis } => {
                let mut sizes = left.shape().to_vec();
                sizes[*axis] += right.shape()[*axis];
                tabulate(sizes, |places| {
                    let border = left.shape()[*axis];
                    let mut source = places.to_vec();
                    if places[*axis] < border {
                        return left.data()[flat_index(left.shape(), places)];
                    }
                    source[*axis] -= border;
                    right.data()[flat_index(right.shape(), &source)]
                })
            }
        }
    }
}

fn empty_graph() -> Graph<f32, RotaryScaling> {
    Graph::new()
}

#[test]
fn evaluates_shared_linear_graph() {
    let mut graph = empty_graph();
    let input = graph.input(vec![2, 2]).unwrap();
    let weights = graph.constant(Tensor::from_data(vec![2, 2], vec![2.0, 0.0, 0.0, 2.0]).unwrap());
    let projected = graph.matmul(input, weights).unwrap();
    let residual = graph.add(projected, input).unwrap();
    let output = graph.silu(residual).unwrap();
    let result = graph
        .evaluate(
            &[Tensor::from_data(vec![2, 2], vec![1.0, 2.0, 3.0, 4.0]).unwrap()],
            &[output],
            &Floats,
            &PlainKernels,
        )
        .unwrap();
    assert_eq!(result[0].shape(), &[2, 2]);
    assert!(result[0].data().iter().all(|value| value.is_finite()));
    assert_eq!(graph.len(), 5);
}

#[test]
fn evaluates_broadcasted_minimum_and_maximum() {
    let mut graph = empty_graph();
    let input = graph.input(vec![2, 2]).unwrap();
    let bound = graph.constant(Tensor::from_data(vec![2], vec![0.0, 3.0]).unwrap());
    let lower = graph.minimum(input, bound).unwrap();
    let upper = graph.maximum(input, bound).unwrap();
    let result = graph
        .evaluate(
            &[Tensor::from_data(vec![2, 2], vec![-1.0, 2.0, 4.0, 5.0]).unwrap()],
            &[lower, upper],
            &Floats,
            &PlainKernels,
        )
        .unwrap();
    assert_eq!(result[0].data(), &[-1.0, 2.0, 0.0, 3.0]);
    assert_eq!(result[1].data(), &[0.0, 3.0, 4.0, 5.0]);
}

#[test]
fn evaluates_attention_graph_with_causal_grouped_heads() {
    let mut graph = empty_graph();
    let queries = graph.input(vec![1, 2, 2, 1]).unwrap();
    let keys = graph.input(vec![1, 1, 3, 1]).unwrap();
    let values = graph.input(vec![1, 1, 3, 1]).unwrap();
    let attention = graph
        .scaled_dot_product_attention(queries, keys, values, 1.0, true)
        .unwrap();
    let result = graph
        .evaluate(
            &[
                Tensor::from_data(vec![1, 2, 2, 1], vec![0.0; 4]).unwrap(),
                Tensor::from_data(vec![1, 1, 3, 1], vec![0.0; 3]).unwrap(),
                Tensor::from_data(vec![1, 1, 3, 1], vec![1.0, 3.0, 5.0]).unwrap(),
            ],
            &[attention],
            &Floats,
            &PlainKernels,
        )
        .unwrap();
    assert_eq!(result[0].data(), &[2.0, 3.0, 2.0, 3.0]);
}

#[test]
fn evaluates_rotary_embedding_graph() {
    let mut graph = empty_graph();
    let input = graph.input(vec![2, 2]).unwrap();
    let rotated = graph.rotary_embedding(input, 2, 1.0, 10_000.0).unwrap();
    let result = graph
        .evaluate(
            &[Tensor::from_data(vec![2, 2], vec![1.0, 0.0, 0.0, 1.0]).unwrap()],
            &[rotated],
            &Floats,
            &PlainKernels,
        )
        .unwrap();
    assert!((result[0].data()[0] - 0.540_302_3).abs() < 1.0e-5);
    assert!((result[0].data()[1] - 0.841_470_96).abs() < 1.0e-5);
    assert!((result[0].data()[2] + 0.841_470_96).abs() < 1.0e-5);
    assert!((result[0].data()[3] - 0.540_302_3).abs() < 1.0e-5);
}

#[test]
fn evaluates_scaled_rotary_embedding_graph() {
    let mut graph = empty_graph();
    let input = graph.input(vec![1, 2]).unwrap();
    let rotated = graph
        .rotary_embedding_with_scaling(
            input,
            2,
            0.0,
            10_000.0,
            RotaryScaling::Linear { factor: 2.0 },
        )
        .unwrap();
    let result = graph
        .evaluate(
            &[Tensor::from_data(vec![1, 2], vec![1.0, 0.0]).unwrap()],
            &[rotated],
            &Floats,
            &PlainKernels,
        )
        .unwrap();
    assert_eq!(result[0].data(), &[1.0, 0.0]);
}

#[test]
fn evaluates_weighted_rms_norm_graph() {
    let mut graph = empty_graph();
    let input = graph.input(vec![2, 2]).unwrap();
    let weight = graph.constant(Tensor::from_data(vec![2], vec![2.0, 3.0]).unwrap());
    let normalized = graph.rms_norm_with_weight(input, weight, 0.0).unwrap();
    let result = graph
        .evaluate(
            &[Tensor::from_data(vec![2, 2], vec![1.0, 1.0, 1.0, 1.0]).unwrap()],
            &[normalized],
            &Floats,
            &PlainKernels,
        )
        .unwrap();
    assert!((result[0].data()[0] - 2.0).abs() < 1.0e-6);
    assert!((result[0].data()[1] - 3.0).abs() < 1.0e-6);
    assert!((result[0].data()[2] - 2.0).abs() < 1.0e-6);
    assert!((result[0].data()[3] - 3.0).abs() < 1.0e-6);
}

#[test]
fn evaluates_embedding_row_gather_graph() {
    let mut graph = empty_graph();
    let table = graph.input(vec![3, 2]).unwrap();
    let gathered = graph.gather_rows(table, vec![2, 0]).unwrap();
    let result = graph
        .evaluate(
            &[Tensor::from_data(vec![3, 2], vec![1.0, 2.0, 3.0, 4.0, 5.0, 6.0]).unwrap()],
            &[gathered],
            &Floats,
            &PlainKernels,
        )
        .unwrap();
    assert_eq!(result[0].shape(), &[2, 2]);
    assert_eq!(result[0].data(), &[5.0, 6.0, 1.0, 2.0]);
}

#[test]
fn evaluates_concatenation_graph() {
    let mut graph = empty_graph();
    let left = graph.input(vec![2, 1]).unwrap();
    let right = graph.input(vec![2, 2]).unwrap();
    let joined = graph.concatenate(left, right, 1).unwrap();
    let result = graph
        .evaluate(
            &[
                Tensor::from_data(vec![2, 1], vec![1.0, 2.0]).unwrap(),
                Tensor::from_data(vec![2, 2], vec![3.0, 4.0, 5.0, 6.0]).unwrap(),
            ],
            &[joined],
            &Floats,
            &PlainKernels,
        )
        .unwrap();
    assert_eq!(result[0].shape(), &[2, 3]);
    assert_eq!(result[0].data(), &[1.0, 3.0, 4.0, 2.0, 5.0, 6.0]);
}

#[test]
fn evaluates_arbitrary_permutation_graph() {
    let mut graph = empty_graph();
    let input = graph.input(vec![2, 3, 2]).unwrap();
    let permuted = graph.permute(input, vec![2, 0, 1]).unwrap();
    let result = graph
        .evaluate(
            &[Tensor::from_data(
                vec![2, 3, 2],
                (0..12).map(|value| value as f32).collect::<Vec<_>>(),
            )
            .unwrap()],
            &[permuted],
            &Floats,
            &PlainKernels,
        )
        .unwrap();
    assert_eq!(result[0].shape(), &[2, 2, 3]);
    assert_eq!(result[0].data()[..6], [0.0, 2.0, 4.0, 6.0, 8.0, 10.0]);
}

#[test]
fn evaluates_strided_slice_and_update_graph() {
    let mut graph = empty_graph();
    let input = graph.input(vec![2, 3]).unwrap();
    let sliced = graph.slice(input, vec![0], vec![3], vec![1], vec![2]).unwrap();
    let update = graph.constant(Tensor::from_data(vec![2, 2], vec![9.0, 8.0, 7.0, 6.0]).unwrap());
    let updated = graph
        .slice_update(input, update, vec![1], vec![3], vec![1], vec![1])
        .unwrap();
    let result = graph
        .evaluate(
            &[Tensor::from_data(vec![2, 3], vec![1.0, 2.0, 3.0, 4.0, 5.0, 6.0]).unwrap()],
            &[sliced, updated],
            &Floats,
            &PlainKernels,
        )
        .unwrap();
    assert_eq!(result[0].shape(), &[2, 2]);
    assert_eq!(result[0].data(), &[1.0, 3.0, 4.0, 6.0]);
    assert_eq!(result[1].data(), &[1.0, 9.0, 8.0, 4.0, 7.0, 6.0]);
}

#[test]
fn evaluates_trigonometric_graph_nodes() {
    let mut graph = empty_graph();
    let input = graph.input(vec![3]).unwrap();
    let sine = graph.sine(input).unwrap();
    let cosine = graph.cosine(input).unwrap();
    let result = graph
        .evaluate(
            &[Tensor::from_data(
                vec![3],
                vec![0.0, std::f32::consts::FRAC_PI_2, std::f32::consts::PI],
            )
            .unwrap()],
            &[sine, cosine],
            &Floats,
            &PlainKernels,
        )
        .unwrap();
    assert!((result[0].data()[1] - 1.0).abs() < 1.0e-6);
    assert!(result[0].data()[2].abs() < 1.0e-6);
    assert!(result[1].data()[1].abs() < 1.0e-6);
    assert!((result[1].data()[2] + 1.0).abs() < 1.0e-6);
}

#[test]
fn evaluates_reciprocal_graph_nodes() {
    let mut graph = empty_graph();
    let input = graph.input(vec![3]).unwrap();
    let reciprocal = graph.reciprocal(input).unwrap();
    let rsqrt = graph.rsqrt(input).unwrap();
    let result = graph
        .evaluate(
            &[Tensor::from_data(vec![3], vec![0.25, 1.0, 4.0]).unwrap()],
            &[reciprocal, rsqrt],
            &Floats,
            &PlainKernels,
        )
        .unwrap();
    assert_eq!(result[0].data(), &[4.0, 1.0, 0.25]);
    assert_eq!(result[1].data(), &[2.0, 1.0, 0.5]);
}

#[test]
fn evaluates_axis_reductions_with_and_without_keepdims() {
    let mut graph = empty_graph();
    let input = graph.input(vec![2, 3]).unwrap();
    let sums = graph.sum(input, 0, false).unwrap();
    let means = graph.mean(input, 1, true).unwrap();
    let result = graph
        .evaluate(
            &[Tensor::from_data(vec![2, 3], vec![1.0, 2.0, 3.0, 4.0, 5.0, 6.0]).unwrap()],
            &[sums, means],
            &Floats,
            &PlainKernels,
        )
        .unwrap();
    assert_eq!(result[0].shape(), &[3]);
    assert_eq!(result[0].data(), &[5.0, 7.0, 9.0]);
    assert_eq!(result[1].shape(), &[2, 1]);
    assert_eq!(result[1].data(), &[2.0, 5.0]);
}

#[test]
fn evaluates_cumulative_sum_nodes() {
    let mut graph = empty_graph();
    let input = graph.input(vec![2, 3]).unwrap();
    let forward = graph.cumsum(input, 1, false).unwrap();
    let reverse = graph.cumsum(input, 0, true).unwrap();
    let result = graph
        .evaluate(
            &[Tensor::from_data(vec![2, 3], vec![1.0, 2.0, 3.0, 4.0, 5.0, 6.0]).unwrap()],
            &[forward, reverse],
            &Floats,
            &PlainKernels,
        )
        .unwrap();
    assert_eq!(result[0].data(), &[1.0, 3.0, 6.0, 4.0, 9.0, 15.0]);
    assert_eq!(result[1].data(), &[5.0, 7.0, 9.0, 4.0, 5.0, 6.0]);
}

#[test]
fn evaluates_axis_softmax_nodes() {
    let mut graph = empty_graph();
    let input = graph.input(vec![2, 2]).unwrap();
    let output = graph.softmax(input, 0).unwrap();
    let result = graph
        .evaluate(
            &[Tensor::from_data(vec![2, 2], vec![1.0, 2.0, 3.0, 4.0]).unwrap()],
            &[output],
            &Floats,
            &PlainKernels,
        )
        .unwrap();
    assert!((result[0].data()[0] + result[0].data()[2] - 1.0).abs() < 1.0e-6);
    assert!((result[0].data()[1] + result[0].data()[3] - 1.0).abs() < 1.0e-6);
}

#[test]
fn validates_input_shapes_and_outputs() {
    let mut graph = empty_graph();
    let input = graph.input(vec![2]).unwrap();
    assert_eq!(
        graph.evaluate(&[Tensor::from_data(vec![1], vec![1.0]).unwrap()], &[input], &Floats, &PlainKernels),
        Err(GraphError::InputShape {
            index: 0,
            expected: vec![2],
            actual: vec![1],
        })
    );
    assert_eq!(
        graph.evaluate(&[Tensor::from_data(vec![2], vec![1.0, 2.0]).unwrap()], &[], &Floats, &PlainKernels),
        Err(GraphError::NoOutputs)
    );
}

fn tensor(shape: &[usize], data: &[f32]) -> Tensor<f32> {
    Tensor::from_data(shape.to_vec(), data.to_vec()).unwrap()
}

fn results(graph: &Graph<f32, RotaryScaling>, inputs: &[Tensor<f32>], output: ggml::graph::node::ValueId) -> Vec<f32> {
    let mut tensors = graph.evaluate(inputs, &[output], &Floats, &PlainKernels).unwrap();
    tensors.remove(0).into_data()
}

#[test]
fn evaluates_elementwise_nodes() {
    let mut graph = empty_graph();
    assert!(graph.is_empty());
    let left = graph.input(vec![2]).unwrap();
    let right = graph.input(vec![2]).unwrap();
    let inputs = [tensor(&[2], &[4.0, 9.0]), tensor(&[2], &[2.0, -3.0])];
    let difference = graph.subtract(left, right).unwrap();
    let product = graph.multiply(left, right).unwrap();
    let quotient = graph.divide(left, right).unwrap();
    let scaled = graph.scale(left, 0.5).unwrap();
    let negated = graph.negate(right).unwrap();
    let absolute = graph.absolute(right).unwrap();
    let square = graph.square(right).unwrap();
    let root = graph.square_root(left).unwrap();
    let clamped = graph.clamp(left, 5.0, 6.0, &Floats).unwrap();
    assert_eq!(results(&graph, &inputs, difference), [2.0, 12.0]);
    assert_eq!(results(&graph, &inputs, product), [8.0, -27.0]);
    assert_eq!(results(&graph, &inputs, quotient), [2.0, -3.0]);
    assert_eq!(results(&graph, &inputs, scaled), [2.0, 4.5]);
    assert_eq!(results(&graph, &inputs, negated), [-2.0, 3.0]);
    assert_eq!(results(&graph, &inputs, absolute), [2.0, 3.0]);
    assert_eq!(results(&graph, &inputs, square), [4.0, 9.0]);
    assert_eq!(results(&graph, &inputs, root), [2.0, 3.0]);
    assert_eq!(results(&graph, &inputs, clamped), [5.0, 6.0]);
}

#[test]
fn evaluates_transcendental_nodes() {
    let mut graph = empty_graph();
    let input = graph.input(vec![1]).unwrap();
    let inputs = [tensor(&[1], &[1.0])];
    let exponential = graph.exponential(input).unwrap();
    let logarithm = graph.logarithm(exponential).unwrap();
    let tanh = graph.tanh(input).unwrap();
    let sigmoid = graph.sigmoid(input).unwrap();
    assert_eq!(results(&graph, &inputs, exponential), [1.0_f32.exp()]);
    assert!((results(&graph, &inputs, logarithm)[0] - 1.0).abs() < 1.0e-6);
    assert_eq!(results(&graph, &inputs, tanh), [1.0_f32.tanh()]);
    assert_eq!(results(&graph, &inputs, sigmoid), [1.0 / (1.0 + (-1.0_f32).exp())]);
}

#[test]
fn evaluates_shape_nodes() {
    let mut graph = empty_graph();
    let input = graph.input(vec![2, 2]).unwrap();
    let inputs = [tensor(&[2, 2], &[1.0, 2.0, 3.0, 4.0])];
    let transposed = graph.transpose_2d(input).unwrap();
    let row = graph.reshape(input, vec![1, 4]).unwrap();
    let wide = graph.broadcast_to(row, vec![2, 4]).unwrap();
    let sums = graph.sum_last_dim(input).unwrap();
    let means = graph.mean_last_dim(input).unwrap();
    let shares = graph.softmax_last_dim(input).unwrap();
    let norm = graph.rms_norm(input, 0.0).unwrap();
    assert_eq!(results(&graph, &inputs, transposed), [1.0, 3.0, 2.0, 4.0]);
    assert_eq!(results(&graph, &inputs, wide), [1.0, 2.0, 3.0, 4.0, 1.0, 2.0, 3.0, 4.0]);
    assert_eq!(results(&graph, &inputs, sums), [3.0, 7.0]);
    assert_eq!(results(&graph, &inputs, means), [1.5, 3.5]);
    assert!((results(&graph, &inputs, shares)[..2].iter().sum::<f32>() - 1.0).abs() < 1.0e-6);
    assert!((results(&graph, &inputs, norm)[0] - 1.0 / 2.5_f32.sqrt()).abs() < 1.0e-6);
}

#[test]
fn refuses_handles_of_other_graphs() {
    let mut larger = empty_graph();
    larger.input(vec![1]).unwrap();
    let foreign = larger.input(vec![1]).unwrap();
    assert_eq!(foreign.index(), 1);
    let mut graph = empty_graph();
    let input = graph.input(vec![1]).unwrap();
    assert_eq!(graph.add(input, foreign), Err(GraphError::InvalidValue(foreign)));
    assert_eq!(graph.silu(foreign), Err(GraphError::InvalidValue(foreign)));
    assert_eq!(graph.len(), 1);
    assert_eq!(
        graph.evaluate(&[tensor(&[1], &[1.0])], &[foreign], &Floats, &PlainKernels),
        Err(GraphError::InvalidValue(foreign))
    );
    assert_eq!(GraphError::InvalidValue(foreign).message(), "graph value 1 is invalid");
}

#[test]
fn refuses_a_wrong_number_of_inputs() {
    let mut graph = empty_graph();
    let input = graph.input(vec![1]).unwrap();
    assert_eq!(
        graph.evaluate(&[], &[input], &Floats, &PlainKernels),
        Err(GraphError::InputCount { expected: 1, actual: 0 })
    );
    assert_eq!(
        GraphError::InputCount { expected: 1, actual: 0 }.message(),
        "graph received 0 inputs, expected 1"
    );
}

#[test]
fn refuses_shapes_without_values() {
    let mut graph = empty_graph();
    assert_eq!(
        graph.input(vec![2, 0]),
        Err(GraphError::Tensor(TensorError::ZeroDimension))
    );
    assert!(graph.is_empty());
}

#[test]
fn passes_on_failures_of_the_tensor_engine() {
    let mut graph = empty_graph();
    let left = graph.constant(tensor(&[2], &[1.0, 2.0]));
    let right = graph.constant(tensor(&[3], &[1.0, 2.0, 3.0]));
    let total = graph.add(left, right).unwrap();
    assert_eq!(
        graph.evaluate(&[], &[total], &Floats, &PlainKernels),
        Err(GraphError::Tensor(TensorError::ShapeMismatch { left: vec![2], right: vec![3] }))
    );
}

#[test]
fn growing_a_graph_keeps_its_results() {
    let mut graph = empty_graph();
    let input = graph.input(vec![2]).unwrap();
    let doubled = graph.add(input, input).unwrap();
    let inputs = [tensor(&[2], &[1.0, 2.0])];
    let before = results(&graph, &inputs, doubled);
    let copy = graph.clone();
    graph.negate(doubled).unwrap();
    assert_eq!(results(&graph, &inputs, doubled), before);
    assert_eq!(results(&copy, &inputs, doubled), before);
    let outputs = graph.evaluate(&inputs, &[doubled, doubled], &Floats, &PlainKernels).unwrap();
    assert_eq!(outputs[0], outputs[1]);
    assert_eq!(Graph::<f32, RotaryScaling>::default().len(), 0);
}

#[test]
fn refuses_clamp_bounds_that_are_not_finite_or_inverted() {
    let mut graph = empty_graph();
    let input = graph.input(vec![2]).unwrap();
    for (minimum, maximum) in [
        (2.0, 1.0),
        (f32::NAN, 1.0),
        (0.0, f32::NAN),
        (f32::NEG_INFINITY, 1.0),
        (0.0, f32::INFINITY),
    ] {
        let error = graph.clamp(input, minimum, maximum, &Floats).unwrap_err();
        assert_eq!(error, GraphError::InvalidBounds);
        assert_eq!(error.message(), "graph clamp bounds must be finite and in order");
    }
    assert_eq!(graph.len(), 1);
    assert!(graph.clamp(input, 1.0, 1.0, &Floats).is_ok());
    let mut other = empty_graph();
    assert_eq!(
        other.clamp(input, 2.0, 1.0, &Floats),
        Err(GraphError::InvalidValue(input))
    );
}
