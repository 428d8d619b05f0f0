//! Tensors that own their values in row-major order.

use vstd::prelude::*;

use crate::tensor::arithmetic::Arithmetic;
use crate::tensor::error::{TensorError, TensorFault};
use crate::tensor::shape;

verus! {

/// An owned row-major tensor.
#[derive(Debug, PartialEq)]
pub struct Tensor<T> {
    shape: Vec<usize>,
    data: Vec<T>,
}

/// A tensor, as a mathematical value.
#[verifier::ext_equal]
pub struct Contents<T> {
    pub shape: Seq<usize>,
    pub data: Seq<T>,
}

impl<T> View for Tensor<T> {
    type V = Contents<T>;

    closed spec fn view(&self) -> Contents<T> {
        Contents { shape: self.shape@, data: self.data@ }
    }
}

/// The answer of an operation, as a mathematical value.
pub open spec fn answer_of<T>(result: Result<Tensor<T>, TensorError>) -> Result<
    Contents<T>,
    TensorFault,
> {
    match result {
        Ok(tensor) => Ok(tensor@),
        Err(error) => Err(error@),
    }
}

/// A shape without zero dimensions, and one value for each element.
pub open spec fn valid_contents<T>(contents: Contents<T>) -> bool {
    &&& shape::nonzero(contents.shape)
    &&& shape::element_count_of(contents.shape) == contents.data.len()
}

/// The first `count` values are finite.
pub open spec fn finite_before<T, A: Arithmetic<T>>(
    arithmetic: &A,
    data: Seq<T>,
    count: int,
) -> bool {
    forall|i: int|
        0 <= i < count ==> call_ensures(A::is_finite, (arithmetic, #[trigger] data[i]), true)
}

/// The value at `index` is the first that is not finite.
pub open spec fn first_not_finite<T, A: Arithmetic<T>>(
    arithmetic: &A,
    data: Seq<T>,
    index: int,
) -> bool {
    &&& 0 <= index < data.len()
    &&& finite_before(arithmetic, data, index)
    &&& call_ensures(A::is_finite, (arithmetic, data[index]), false)
}

/// `answer` is the tensor of `shape` and `data`, if all values are finite, and
/// names the first one that is not otherwise.
pub open spec fn checked<T, A: Arithmetic<T>>(
    arithmetic: &A,
    shape: Seq<usize>,
    data: Seq<T>,
    operation: Seq<char>,
    answer: Result<Contents<T>, TensorFault>,
) -> bool {
    match answer {
        Ok(contents) => {
            &&& contents == (Contents { shape, data })
            &&& finite_before(arithmetic, data, data.len() as int)
        },
        Err(fault) => exists|index: int| #[trigger]
            first_not_finite(arithmetic, data, index) && fault == (TensorFault::NonFiniteOutput {
                operation,
                index: index as nat,
            }),
    }
}

/// All values are finite, or `fault` names the first one that is not.
pub open spec fn inputs_checked<T, A: Arithmetic<T>>(
    arithmetic: &A,
    data: Seq<T>,
    fault: Option<TensorFault>,
) -> bool {
    match fault {
        None => finite_before(arithmetic, data, data.len() as int),
        Some(fault) => exists|index: int| #[trigger]
            first_not_finite(arithmetic, data, index) && fault == (TensorFault::NonFiniteInput {
                index: index as nat,
            }),
    }
}

/// Why data of a given length cannot fill a shape.
pub open spec fn length_fault(shape: Seq<usize>, length: nat) -> Option<TensorFault> {
    match shape::shape_fault(shape) {
        Some(fault) => Some(fault),
        None => if shape::element_count_of(shape) != length {
            Some(
                TensorFault::DataLength {
                    expected: shape::element_count_of(shape),
                    actual: length,
                },
            )
        } else {
            None
        },
    }
}

/// Finds the first value that is not finite.
fn find_not_finite<T: Copy, A: Arithmetic<T>>(arithmetic: &A, data: &Vec<T>) -> (found: Option<
    usize,
>)
    ensures
        match found {
            None => finite_before(arithmetic, data@, data@.len() as int),
            Some(index) => first_not_finite(arithmetic, data@, index as int),
        },
{
    let mut i: usize = 0;
    while i < data.len()
        invariant
            i <= data@.len(),
            finite_before(arithmetic, data@, i as int),
        decreases data@.len() - i,
    {
        if !arithmetic.is_finite(data[i]) {
            return Some(i);
        }
        i += 1;
    }
    None
}

/// Makes a tensor of values that an operation has computed.
pub(crate) fn checked_output<T: Copy, A: Arithmetic<T>>(
    arithmetic: &A,
    shape: Vec<usize>,
    data: Vec<T>,
    operation: &'static str,
) -> (result: Result<Tensor<T>, TensorError>)
    requires
        valid_contents(Contents { shape: shape@, data: data@ }),
    ensures
        checked(arithmetic, shape@, data@, operation@, answer_of(result)),
{
    match find_not_finite(arithmetic, &data) {
        Some(index) => Err(TensorError::NonFiniteOutput { operation, index }),
        None => Ok(Tensor { shape, data }),
    }
}

/// Copies a shape.
pub(crate) fn copy_shape(shape: &Vec<usize>) -> (copy: Vec<usize>)
    ensures
        copy@ == shape@,
{
    let mut copy: Vec<usize> = Vec::new();
    let mut i: usize = 0;
    while i < shape.len()
        invariant
            i <= shape@.len(),
            copy@ == shape@.take(i as int),
        decreases shape@.len() - i,
    {
        copy.push(shape[i]);
        i += 1;
    }
    assert(copy@ =~= shape@);
    copy
}

/// Tests two shapes for equality.
pub(crate) fn same_shape(left: &Vec<usize>, right: &Vec<usize>) -> (same: bool)
    ensures
        same == (left@ == right@),
{
    if left.len() != right.len() {
        return false;
    }
    let mut i: usize = 0;
    while i < left.len()
        invariant
            i <= left@.len(),
            left@.len() == right@.len(),
            forall|j: int| 0 <= j < i ==> left@[j] == right@[j],
        decreases left@.len() - i,
    {
        if left[i] != right[i] {
            return false;
        }
        i += 1;
    }
    assert(left@ =~= right@);
    true
}

/// Copies values one by one.
pub(crate) fn copy_values<T: Copy>(values: &Vec<T>) -> (copy: Vec<T>)
    ensures
        copy@ == values@,
{
    let mut copy: Vec<T> = Vec::new();
    let mut i: usize = 0;
    while i < values.len()
        invariant
            i <= values@.len(),
            copy@ == values@.take(i as int),
        decreases values@.len() - i,
    {
        copy.push(values[i]);
        i += 1;
    }
    assert(copy@ =~= values@);
    copy
}

impl<T: Copy> Clone for Tensor<T> {
    fn clone(&self) -> (copy: Self)
        ensures
            copy@ == self@,
    {
        proof {
            use_type_invariant(self);
        }
        Tensor { shape: copy_shape(&self.shape), data: copy_values(&self.data) }
    }
}

/// The values of a rank-2 tensor in the order of its transpose.
pub open spec fn transposed<T>(contents: Contents<T>) -> Seq<T> {
    let rows = contents.shape[0] as int;
    let columns = contents.shape[1] as int;
    Seq::new((columns * rows) as nat, |i: int| contents.data[(i % rows) * columns + i / rows])
}

/// The values of a tensor broadcast to another shape.
pub open spec fn broadcast<T>(contents: Contents<T>, target: Seq<usize>) -> Seq<T> {
    Seq::new(
        shape::element_count_of(target),
        |i: int| contents.data[shape::source_index(contents.shape, target, i as nat) as int],
    )
}

impl<T> Tensor<T> {
    #[verifier::type_invariant]
    spec fn well_formed(self) -> bool {
        valid_contents(self@)
    }
}

impl<T: Copy> Tensor<T> {
    /// Creates a tensor from a shape and row-major values.
    ///
    /// An empty shape represents a scalar and therefore requires exactly one
    /// value. Non-scalar dimensions must be nonzero.
    pub fn from_data(shape: Vec<usize>, data: Vec<T>) -> (result: Result<Self, TensorError>)
        ensures
            answer_of(result) == match length_fault(shape@, data@.len()) {
                Some(fault) => Err(fault),
                None => Ok(Contents { shape: shape@, data: data@ }),
            },
    {
        match shape::validate_shape(shape.as_slice()) {
            Ok(()) => {},
            Err(error) => {
                return Err(error);
            },
        }
        let expected: usize = match shape::element_count(shape.as_slice()) {
            Ok(expected) => expected,
            Err(error) => {
                return Err(error);
            },
        };
        if data.len() != expected {
            return Err(TensorError::DataLength { expected, actual: data.len() });
        }
        Ok(Tensor { shape, data })
    }

    /// Creates a zero-filled tensor with the requested shape.
    pub fn zeros<A: Arithmetic<T>>(shape: Vec<usize>, arithmetic: &A) -> (result: Result<
        Self,
        TensorError,
    >)
        ensures
            match shape::shape_fault(shape@) {
                Some(fault) => answer_of(result) == Err::<Contents<T>, TensorFault>(fault),
                None => exists|zero: T| #[trigger]
                    call_ensures(A::zero, (arithmetic,), zero) && answer_of(result) == Ok::<
                        Contents<T>,
                        TensorFault,
                    >(
                        Contents {
                            shape: shape@,
                            data: Seq::new(shape::element_count_of(shape@), |i: int| zero),
                        },
                    ),
            },
    {
        match shape::validate_shape(shape.as_slice()) {
            Ok(()) => {},
            Err(error) => {
                return Err(error);
            },
        }
        let count: usize = match shape::element_count(shape.as_slice()) {
            Ok(count) => count,
            Err(error) => {
                return Err(error);
            },
        };
        let zero = arithmetic.zero();
        let mut data: Vec<T> = Vec::new();
        let mut i: usize = 0;
        while i < count
            invariant
                i <= count,
                data@ == Seq::new(i as nat, |k: int| zero),
            decreases count - i,
        {
            data.push(zero);
            i += 1;
            assert(data@ =~= Seq::new(i as nat, |k: int| zero));
        }
        Ok(Tensor { shape, data })
    }

    /// Creates a scalar tensor.
    pub fn scalar(value: T) -> (tensor: Self)
        ensures
            tensor@ == (Contents { shape: seq![], data: seq![value] }),
    {
        let shape: Vec<usize> = Vec::new();
        let mut data: Vec<T> = Vec::new();
        data.push(value);
        assert(shape@ =~= seq![]);
        assert(data@ =~= seq![value]);
        Tensor { shape, data }
    }

    /// Returns the tensor shape.
    pub fn shape(&self) -> (shape: &[usize])
        ensures
            shape@ == self@.shape,
            shape::nonzero(shape@),
            shape::element_count_of(shape@) == self@.data.len(),
    {
        proof {
            use_type_invariant(self);
        }
        self.shape.as_slice()
    }

    pub(crate) fn dimensions(&self) -> (shape: &Vec<usize>)
        ensures
            shape@ == self@.shape,
            valid_contents(self@),
    {
        proof {
            use_type_invariant(self);
        }
        &self.shape
    }

    pub(crate) fn values(&self) -> (data: &Vec<T>)
        ensures
            data@ == self@.data,
            valid_contents(self@),
    {
        proof {
            use_type_invariant(self);
        }
        &self.data
    }

    /// Returns the tensor rank.
    pub fn rank(&self) -> (rank: usize)
        ensures
            rank == self@.shape.len(),
    {
        self.shape.len()
    }

    /// Returns the number of logical elements.
    pub fn len(&self) -> (len: usize)
        ensures
            len == self@.data.len(),
            len == shape::element_count_of(self@.shape),
    {
        proof {
            use_type_invariant(self);
        }
        self.data.len()
    }

    /// Returns whether the tensor has no elements.
    pub fn is_empty(&self) -> (empty: bool)
        ensures
            empty == (self@.data.len() == 0),
    {
        self.data.len() == 0
    }

    /// Returns an immutable view of row-major tensor data.
    pub fn data(&self) -> (data: &[T])
        ensures
            data@ == self@.data,
    {
        self.data.as_slice()
    }

    /// Consumes the tensor and returns its row-major data.
    pub fn into_data(self) -> (data: Vec<T>)
        ensures
            data@ == self@.data,
    {
        self.data
    }

    /// Returns the value at a flat row-major index.
    pub fn get_flat(&self, index: usize) -> (value: Option<T>)
        ensures
            value == if index < self@.data.len() {
                Some(self@.data[index as int])
            } else {
                None
            },
    {
        if index < self.data.len() {
            Some(self.data[index])
        } else {
            None
        }
    }

    /// Reshapes the tensor without moving or changing its values.
    pub fn reshape(self, shape: Vec<usize>) -> (result: Result<Self, TensorError>)
        ensures
            answer_of(result) == match length_fault(shape@, self@.data.len()) {
                Some(fault) => Err(fault),
                None => Ok(Contents { shape: shape@, data: self@.data }),
            },
    {
        Self::from_data(shape, self.data)
    }

    /// Transposes a rank-2 tensor by copying its values into row-major order.
    pub fn transpose_2d<A: Arithmetic<T>>(&self, arithmetic: &A) -> (result: Result<
        Self,
        TensorError,
    >)
        ensures
            if self@.shape.len() != 2 {
                answer_of(result) == Err::<Contents<T>, TensorFault>(
                    TensorFault::RankMismatch { expected: 2, actual: self@.shape.len() },
                )
            } else {
                checked(
                    arithmetic,
                    seq![self@.shape[1], self@.shape[0]],
                    transposed(self@),
                    "transpose"@,
                    answer_of(result),
                )
            },
    {
        proof {
            use_type_invariant(self);
        }
        if self.shape.len() != 2 {
            return Err(TensorError::RankMismatch { expected: 2, actual: self.shape.len() });
        }
        let rows: usize = self.shape[0];
        let columns: usize = self.shape[1];
        proof {
            lemma_matrix_count(self.shape@);
        }
        let total: usize = self.data.len();
        let mut result: Vec<T> = Vec::new();
        let mut column: usize = 0;
        while column < columns
            invariant
                column <= columns,
                total == self.data@.len(),
                self.data@.len() == rows * columns,
                rows > 0,
                result@.len() == column * rows,
                forall|i: int|
                    0 <= i < column * rows ==> #[trigger] result@[i] == self.data@[(i % rows as int)
                        * columns + i / rows as int],
            decreases columns - column,
        {
            let mut row: usize = 0;
            assert(column * rows + 0 == column * rows);
            while row < rows
                invariant
                    row <= rows,
                    column < columns,
                    total == self.data@.len(),
                    self.data@.len() == rows * columns,
                    rows > 0,
                    result@.len() == column * rows + row,
                    forall|i: int|
                        0 <= i < column * rows + row ==> #[trigger] result@[i] == self.data@[(i
                            % rows as int) * columns + i / rows as int],
                decreases rows - row,
            {
                proof {
                    lemma_inside(row as int, column as int, rows as int, columns as int);
                    lemma_split(column as int, row as int, rows as int);
                }
                result.push(self.data[row * columns + column]);
                row += 1;
            }
            assert(column * rows + rows == (column + 1) * rows) by (nonlinear_arith);
            column += 1;
        }
        let mut shape: Vec<usize> = Vec::new();
        shape.push(columns);
        shape.push(rows);
        proof {
            assert(shape@ =~= seq![columns, rows]);
            assert(columns * rows == rows * columns) by (nonlinear_arith);
            lemma_matrix_count(shape@);
            assert(result@ =~= transposed(self@));
            assert forall|i: int| 0 <= i < 2 implies shape@[i] != 0 by {
                assert(self.shape@[0] != 0);
                assert(self.shape@[1] != 0);
            }
        }
        checked_output(arithmetic, shape, result, "transpose")
    }

    /// Broadcasts this tensor to a larger, right-aligned shape by copying
    /// values. A source dimension must equal the destination dimension or be
    /// one.
    pub fn broadcast_to<A: Arithmetic<T>>(&self, shape: Vec<usize>, arithmetic: &A) -> (result:
        Result<Self, TensorError>)
        ensures
            if !shape::nonzero(shape@) {
                answer_of(result) == Err::<Contents<T>, TensorFault>(TensorFault::ZeroDimension)
            } else if !shape::broadcasts(self@.shape, shape@) {
                answer_of(result) == Err::<Contents<T>, TensorFault>(
                    TensorFault::ShapeMismatch { left: self@.shape, right: shape@ },
                )
            } else if shape::element_count_of(shape@) > usize::MAX {
                answer_of(result) == Err::<Contents<T>, TensorFault>(
                    TensorFault::ElementCountOverflow,
                )
            } else {
                checked(
                    arithmetic,
                    shape@,
                    broadcast(self@, shape@),
                    "broadcast"@,
                    answer_of(result),
                )
            },
    {
        proof {
            use_type_invariant(self);
        }
        match shape::validate_shape(shape.as_slice()) {
            Ok(()) => {},
            Err(error) => {
                return Err(error);
            },
        }
        if shape.len() < self.shape.len() {
            return Err(
                TensorError::ShapeMismatch { left: copy_shape(&self.shape), right: shape },
            );
        }
        let offset: usize = shape.len() - self.shape.len();
        let mut axis: usize = 0;
        while axis < self.shape.len()
            invariant
                axis <= self.shape@.len(),
                offset + self.shape@.len() == shape@.len(),
                shape@.len() <= usize::MAX,
                forall|i: int|
                    0 <= i < axis ==> #[trigger] self.shape@[i] == 1 || self.shape@[i]
                        == shape@[shape@.len() - self.shape@.len() + i],
                shape::nonzero(shape@),
            decreases self.shape@.len() - axis,
        {
            if self.shape[axis] != shape[offset + axis] && self.shape[axis] != 1 {
                assert(!shape::broadcasts(self.shape@, shape@)) by {
                    assert(self.shape@[axis as int] != 1);
                }
                return Err(
                    TensorError::ShapeMismatch { left: copy_shape(&self.shape), right: shape },
                );
            }
            axis += 1;
        }
        assert(shape::broadcasts(self.shape@, shape@));
        let count: usize = match shape::element_count(shape.as_slice()) {
            Ok(count) => count,
            Err(error) => {
                return Err(error);
            },
        };
        let mut coordinates: Vec<usize> = Vec::new();
        let mut filled: usize = 0;
        while filled < shape.len()
            invariant
                filled <= shape@.len(),
                coordinates@.len() == filled,
                forall|i: int| 0 <= i < filled ==> #[trigger] coordinates@[i] == 0,
            decreases shape@.len() - filled,
        {
            coordinates.push(0);
            filled += 1;
        }
        proof {
            shape::lemma_all_zero(coordinates@, shape@);
            assert forall|i: int| 0 <= i < shape@.len() implies #[trigger] coordinates@[i]
                < shape@[i] by {
                assert(shape@[i] != 0);
            }
        }
        let total: usize = self.data.len();
        let mut result: Vec<T> = Vec::new();
        let mut index: usize = 0;
        while index < count
            invariant
                index <= count,
                count == shape::element_count_of(shape@),
                shape::nonzero(shape@),
                valid_contents(self@),
                total == self.data@.len(),
                shape::broadcasts(self.shape@, shape@),
                shape::coordinates_fit(coordinates@, shape@),
                index < count ==> shape::flat_index(coordinates@, shape@) == index,
                result@.len() == index,
                forall|i: int|
                    0 <= i < index ==> #[trigger] result@[i] == self.data@[shape::source_index(
                        self.shape@,
                        shape@,
                        i as nat,
                    ) as int],
            decreases count - index,
        {
            let source: usize = shape::source_of(
                self.shape.as_slice(),
                shape.as_slice(),
                &coordinates,
            );
            proof {
                shape::lemma_source_index_bound(self.shape@, shape@, index as nat);
            }
            result.push(self.data[source]);
            shape::increment_index(&mut coordinates, shape.as_slice());
            index += 1;
        }
        assert(result@ =~= broadcast(self@, shape@));
        checked_output(arithmetic, shape, result, "broadcast")
    }

    /// Checks every value for finiteness.
    pub fn validate_finite<A: Arithmetic<T>>(&self, arithmetic: &A) -> (result: Result<
        (),
        TensorError,
    >)
        ensures
            inputs_checked(
                arithmetic,
                self@.data,
                match result {
                    Ok(()) => None,
                    Err(error) => Some(error@),
                },
            ),
    {
        match find_not_finite(arithmetic, &self.data) {
            Some(index) => Err(TensorError::NonFiniteInput { index }),
            None => Ok(()),
        }
    }
}

/// A matrix has as many elements as rows times columns.
pub(crate) proof fn lemma_matrix_count(shape: Seq<usize>)
    requires
        shape.len() == 2,
    ensures
        shape::element_count_of(shape) == shape[0] * shape[1],
        shape::nonzero(shape) ==> shape[0] > 0 && shape[1] > 0,
{
    reveal_with_fuel(shape::element_count_of, 3);
    assert(shape.drop_last().drop_last() =~= seq![]);
    assert(1 * shape[0] as nat == shape[0]);
    assert(shape.contains(shape[0]) && shape.contains(shape[1]));
}

/// An element lies inside its matrix.
pub(crate) proof fn lemma_inside(row: int, column: int, rows: int, columns: int)
    requires
        0 <= row < rows,
        0 <= column < columns,
    ensures
        0 <= row * columns,
        row * columns + column < rows * columns,
        0 <= row * columns + column,
{
    assert(row * columns + column < rows * columns) by (nonlinear_arith)
        requires
            0 <= row < rows,
            0 <= column < columns,
    ;
    assert(0 <= row * columns) by (nonlinear_arith)
        requires
            0 <= row,
            0 < columns,
    ;
}

/// A flat index falls apart into its outer and inner coordinate.
pub(crate) proof fn lemma_split(outer: int, inner: int, length: int)
    requires
        0 <= outer,
        0 <= inner < length,
    ensures
        (outer * length + inner) / length == outer,
        (outer * length + inner) % length == inner,
{
    vstd::arithmetic::div_mod::lemma_fundamental_div_mod_converse(
        outer * length + inner,
        length,
        outer,
        inner,
    );
}

} // verus!
