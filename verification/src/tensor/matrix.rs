//! Products of matrices.

use vstd::prelude::*;

use crate::tensor::arithmetic::Arithmetic;
use crate::tensor::dense;
use crate::tensor::dense::{Contents, Tensor};
use crate::tensor::error::{TensorError, TensorFault};

verus! {

/// `value` is the sum, from zero and from left to right, of the products of the
/// first `count` values at equal places.
pub open spec fn dot_product<T, A: Arithmetic<T>>(
    arithmetic: &A,
    left: Seq<T>,
    right: Seq<T>,
    count: nat,
    value: T,
) -> bool
    decreases count,
{
    if count == 0 {
        call_ensures(A::zero, (arithmetic,), value)
    } else {
        let last = count - 1;
        exists|before: T, product: T|
            {
                &&& dot_product(arithmetic, left, right, last as nat, before)
                &&& call_ensures(A::multiply, (arithmetic, left[last], right[last]), product)
                &&& #[trigger] call_ensures(A::add, (arithmetic, before, product), value)
            }
    }
}

/// One more product is added.
pub(crate) proof fn lemma_dot_step<T, A: Arithmetic<T>>(
    arithmetic: &A,
    left: Seq<T>,
    right: Seq<T>,
    count: nat,
    before: T,
    product: T,
    value: T,
)
    requires
        dot_product(arithmetic, left, right, count, before),
        call_ensures(
            A::multiply,
            (arithmetic, left[count as int], right[count as int]),
            product,
        ),
        call_ensures(A::add, (arithmetic, before, product), value),
    ensures
        dot_product(arithmetic, left, right, count + 1, value),
{
}

/// Row `row` of a matrix with `columns` columns.
pub open spec fn row_of<T>(data: Seq<T>, columns: int, row: int) -> Seq<T> {
    Seq::new(columns as nat, |i: int| data[row * columns + i])
}

/// Column `column` of a matrix with `rows` rows and `columns` columns.
pub open spec fn column_of<T>(data: Seq<T>, rows: int, columns: int, column: int) -> Seq<T> {
    Seq::new(rows as nat, |i: int| data[i * columns + column])
}

/// The value in a given row and column.
pub open spec fn cell<T>(data: Seq<T>, columns: int, row: int, column: int) -> T {
    data[row * columns + column]
}

/// The value in a given row and column is the product of that row and column,
/// as far as the first `count` inner values go.
pub open spec fn cell_holds<T, A: Arithmetic<T>>(
    arithmetic: &A,
    left: Contents<T>,
    right: Contents<T>,
    row: int,
    column: int,
    count: nat,
    value: T,
) -> bool {
    let inner = left.shape[1] as int;
    let columns = right.shape[1] as int;
    dot_product(
        arithmetic,
        row_of(left.data, inner, row),
        column_of(right.data, inner, columns, column),
        count,
        value,
    )
}

/// `data` is the product of two matrices.
pub open spec fn matrix_product<T, A: Arithmetic<T>>(
    arithmetic: &A,
    left: Contents<T>,
    right: Contents<T>,
    data: Seq<T>,
) -> bool {
    let columns = right.shape[1] as int;
    &&& data.len() == left.shape[0] * columns
    &&& forall|row: int, column: int|
        0 <= row < left.shape[0] && 0 <= column < columns ==> cell_holds(
            arithmetic,
            left,
            right,
            row,
            column,
            left.shape[1] as nat,
            #[trigger] cell(data, columns, row, column),
        )
}

/// Why two tensors cannot be multiplied as matrices.
pub open spec fn product_fault<T>(left: Contents<T>, right: Contents<T>) -> Option<TensorFault> {
    if left.shape.len() != 2 {
        Some(TensorFault::RankMismatch { expected: 2, actual: left.shape.len() })
    } else if right.shape.len() != 2 {
        Some(TensorFault::RankMismatch { expected: 2, actual: right.shape.len() })
    } else if left.shape[1] != right.shape[0] {
        Some(TensorFault::MatrixShapeMismatch { left: left.shape, right: right.shape })
    } else if left.shape[0] * right.shape[1] > usize::MAX {
        Some(TensorFault::ElementCountOverflow)
    } else {
        None
    }
}

/// Part of a matrix product: the rows, the inner values and the columns that
/// are under way.
#[derive(Clone, Copy)]
struct Tile {
    row_start: usize,
    row_end: usize,
    inner_start: usize,
    inner_end: usize,
    column_start: usize,
    column_end: usize,
}

impl Tile {
    spec fn covers(self, row: int, column: int) -> bool {
        &&& self.row_start <= row < self.row_end
        &&& self.column_start <= column < self.column_end
    }
}

/// Edge length of a tile.
const TILE: usize = 32;

/// Where the tile that starts at `start` ends.
fn tile_end(start: usize, length: usize) -> (end: usize)
    requires
        start < length,
    ensures
        start < end <= length,
{
    if length - start > TILE {
        start + TILE
    } else {
        length
    }
}

/// Two cells at different places do not share a value.
proof fn lemma_cells_apart(row: int, column: int, other_row: int, other: int, columns: int)
    requires
        0 <= row,
        0 <= other_row,
        0 <= column < columns,
        0 <= other < columns,
    ensures
        row * columns + column == other_row * columns + other ==> row == other_row && column
            == other,
{
    dense::lemma_split(row, column, columns);
    dense::lemma_split(other_row, other, columns);
}

/// Adds the products of a tile to the cells that it covers.
fn multiply_tile<T: Copy, A: Arithmetic<T>>(
    arithmetic: &A,
    lhs: &Tensor<T>,
    rhs: &Tensor<T>,
    tile: Tile,
    result: &mut Vec<T>,
)
    requires
        product_fault(lhs@, rhs@) is None,
        tile.row_start <= tile.row_end <= lhs@.shape[0],
        tile.inner_start <= tile.inner_end <= lhs@.shape[1],
        tile.column_start <= tile.column_end <= rhs@.shape[1],
        old(result)@.len() == lhs@.shape[0] * rhs@.shape[1],
        forall|row: int, column: int|
            tile.covers(row, column) ==> cell_holds(
                arithmetic,
                lhs@,
                rhs@,
                row,
                column,
                tile.inner_start as nat,
                #[trigger] cell(old(result)@, rhs@.shape[1] as int, row, column),
            ),
    ensures
        final(result)@.len() == old(result)@.len(),
        forall|row: int, column: int|
            0 <= row < lhs@.shape[0] && 0 <= column < rhs@.shape[1] ==> {
                let value = #[trigger] cell(final(result)@, rhs@.shape[1] as int, row, column);
                if tile.covers(row, column) {
                    cell_holds(
                        arithmetic,
                        lhs@,
                        rhs@,
                        row,
                        column,
                        tile.inner_end as nat,
                        value,
                    )
                } else {
                    value == cell(old(result)@, rhs@.shape[1] as int, row, column)
                }
            },
{
    let left = lhs.values();
    let right = rhs.values();
    let rows: usize = lhs.dimensions()[0];
    let inner: usize = lhs.dimensions()[1];
    let columns: usize = rhs.dimensions()[1];
    let left_len: usize = left.len();
    let right_len: usize = right.len();
    let result_len: usize = result.len();
    proof {
        dense::lemma_matrix_count(lhs@.shape);
        dense::lemma_matrix_count(rhs@.shape);
    }
    let mut row: usize = tile.row_start;
    while row < tile.row_end
        invariant
            tile.row_start <= row <= tile.row_end <= rows,
            tile.inner_start <= tile.inner_end <= inner,
            tile.column_start <= tile.column_end <= columns,
            rows == lhs@.shape[0],
            inner == lhs@.shape[1],
            columns == rhs@.shape[1],
            left@ == lhs@.data,
            right@ == rhs@.data,
            left_len == left@.len() == rows * inner,
            right_len == right@.len() == inner * columns,
            result_len == result@.len() == rows * columns,
            forall|r: int, c: int|
                0 <= r < rows && 0 <= c < columns ==> {
                    let value = #[trigger] cell(result@, columns as int, r, c);
                    if tile.covers(r, c) {
                        cell_holds(
                            arithmetic,
                            lhs@,
                            rhs@,
                            r,
                            c,
                            if r < row {
                                tile.inner_end as nat
                            } else {
                                tile.inner_start as nat
                            },
                            value,
                        )
                    } else {
                        value == cell(old(result)@, columns as int, r, c)
                    }
                },
        decreases tile.row_end - row,
    {
        let mut index: usize = tile.inner_start;
        while index < tile.inner_end
            invariant
                tile.row_start <= row < tile.row_end <= rows,
                tile.inner_start <= index <= tile.inner_end <= inner,
                tile.column_start <= tile.column_end <= columns,
                rows == lhs@.shape[0],
                inner == lhs@.shape[1],
                columns == rhs@.shape[1],
                left@ == lhs@.data,
                right@ == rhs@.data,
                left_len == left@.len() == rows * inner,
                right_len == right@.len() == inner * columns,
                result_len == result@.len() == rows * columns,
                forall|r: int, c: int|
                    0 <= r < rows && 0 <= c < columns ==> {
                        let value = #[trigger] cell(result@, columns as int, r, c);
                        if tile.covers(r, c) {
                            cell_holds(
                                arithmetic,
                                lhs@,
                                rhs@,
                                r,
                                c,
                                if r < row {
                                    tile.inner_end as nat
                                } else if r == row {
                                    index as nat
                                } else {
                                    tile.inner_start as nat
                                },
                                value,
                            )
                        } else {
                            value == cell(old(result)@, columns as int, r, c)
                        }
                    },
            decreases tile.inner_end - index,
        {
            proof {
                dense::lemma_inside(row as int, index as int, rows as int, inner as int);
            }
            let factor = left[row * inner + index];
            let mut column: usize = tile.column_start;
            while column < tile.column_end
                invariant
                    tile.row_start <= row < tile.row_end <= rows,
                    tile.inner_start <= index < tile.inner_end <= inner,
                    tile.column_start <= column <= tile.column_end <= columns,
                    rows == lhs@.shape[0],
                    inner == lhs@.shape[1],
                    columns == rhs@.shape[1],
                    left@ == lhs@.data,
                    right@ == rhs@.data,
                    left_len == left@.len() == rows * inner,
                    right_len == right@.len() == inner * columns,
                    result_len == result@.len() == rows * columns,
                    factor == left@[row * inner + index],
                    forall|r: int, c: int|
                        0 <= r < rows && 0 <= c < columns ==> {
                            let value = #[trigger] cell(result@, columns as int, r, c);
                            if tile.covers(r, c) {
                                cell_holds(
                                    arithmetic,
                                    lhs@,
                                    rhs@,
                                    r,
                                    c,
                                    if r < row {
                                        tile.inner_end as nat
                                    } else if r == row {
                                        if c < column {
                                            (index + 1) as nat
                                        } else {
                                            index as nat
                                        }
                                    } else {
                                        tile.inner_start as nat
                                    },
                                    value,
                                )
                            } else {
                                value == cell(old(result)@, columns as int, r, c)
                            }
                        },
                decreases tile.column_end - column,
            {
                proof {
                    dense::lemma_inside(row as int, column as int, rows as int, columns as int);
                    dense::lemma_inside(index as int, column as int, inner as int, columns as int);
                }
                let place: usize = row * columns + column;
                let before = result[place];
                let product = arithmetic.multiply(factor, right[index * columns + column]);
                let after = arithmetic.add(before, product);
                let ghost earlier = result@;
                result.set(place, after);
                proof {
                    assert(before == cell(earlier, columns as int, row as int, column as int));
                    assert(cell_holds(
                        arithmetic,
                        lhs@,
                        rhs@,
                        row as int,
                        column as int,
                        (index + 1) as nat,
                        after,
                    )) by {
                        let l = row_of(lhs@.data, inner as int, row as int);
                        let r = column_of(
                            rhs@.data,
                            inner as int,
                            columns as int,
                            column as int,
                        );
                        assert(l[index as int] == factor);
                        assert(r[index as int] == right@[index * columns + column]);
                        lemma_dot_step(arithmetic, l, r, index as nat, before, product, after);
                    }
                    assert forall|r: int, c: int|
                        0 <= r < rows && 0 <= c < columns && !(r == row && c
                            == column) implies #[trigger] cell(result@, columns as int, r, c)
                        == cell(earlier, columns as int, r, c) by {
                        lemma_cells_apart(row as int, column as int, r, c, columns as int);
                        dense::lemma_inside(r, c, rows as int, columns as int);
                    }
                }
                column += 1;
            }
            index += 1;
        }
        row += 1;
    }
}

impl<T: Copy> Tensor<T> {
    /// Multiplies two row-major rank-2 matrices.
    pub fn matmul<A: Arithmetic<T>>(&self, rhs: &Self, arithmetic: &A) -> (result: Result<
        Self,
        TensorError,
    >)
        ensures
            match product_fault(self@, rhs@) {
                Some(fault) => dense::answer_of(result) == Err::<Contents<T>, TensorFault>(fault),
                None => exists|data: Seq<T>| #[trigger]
                    matrix_product(arithmetic, self@, rhs@, data) && dense::checked(
                        arithmetic,
                        seq![self@.shape[0], rhs@.shape[1]],
                        data,
                        "matmul"@,
                        dense::answer_of(result),
                    ),
            },
    {
        if self.rank() != 2 {
            return Err(TensorError::RankMismatch { expected: 2, actual: self.rank() });
        }
        if rhs.rank() != 2 {
            return Err(TensorError::RankMismatch { expected: 2, actual: rhs.rank() });
        }
        let rows: usize = self.dimensions()[0];
        let inner: usize = self.dimensions()[1];
        let columns: usize = rhs.dimensions()[1];
        if inner != rhs.dimensions()[0] {
            return Err(
                TensorError::MatrixShapeMismatch {
                    left: dense::copy_shape(self.dimensions()),
                    right: dense::copy_shape(rhs.dimensions()),
                },
            );
        }
        let count: usize = match rows.checked_mul(columns) {
            Some(count) => count,
            None => {
                return Err(TensorError::ElementCountOverflow);
            },
        };
        let zero = arithmetic.zero();
        let mut result: Vec<T> = Vec::new();
        let mut filled: usize = 0;
        while filled < count
            invariant
                filled <= count,
                result@.len() == filled,
                forall|i: int| 0 <= i < filled ==> #[trigger] result@[i] == zero,
            decreases count - filled,
        {
            result.push(zero);
            filled += 1;
        }
        proof {
            assert forall|r: int, c: int| 0 <= r < rows && 0 <= c < columns implies cell_holds(
                arithmetic,
                self@,
                rhs@,
                r,
                c,
                0,
                #[trigger] cell(result@, columns as int, r, c),
            ) by {
                dense::lemma_inside(r, c, rows as int, columns as int);
            }
        }
        let mut row_start: usize = 0;
        while row_start < rows
            invariant
                row_start <= rows,
                product_fault(self@, rhs@) is None,
                rows == self@.shape[0],
                inner == self@.shape[1],
                columns == rhs@.shape[1],
                result@.len() == rows * columns,
                forall|r: int, c: int|
                    0 <= r < rows && 0 <= c < columns ==> cell_holds(
                        arithmetic,
                        self@,
                        rhs@,
                        r,
                        c,
                        if r < row_start {
                            inner as nat
                        } else {
                            0
                        },
                        #[trigger] cell(result@, columns as int, r, c),
                    ),
            decreases rows - row_start,
        {
            let row_end: usize = tile_end(row_start, rows);
            let mut inner_start: usize = 0;
            while inner_start < inner
                invariant
                    inner_start <= inner,
                    row_start < row_end <= rows,
                    product_fault(self@, rhs@) is None,
                    rows == self@.shape[0],
                    inner == self@.shape[1],
                    columns == rhs@.shape[1],
                    result@.len() == rows * columns,
                    forall|r: int, c: int|
                        0 <= r < rows && 0 <= c < columns ==> cell_holds(
                            arithmetic,
                            self@,
                            rhs@,
                            r,
                            c,
                            if r < row_start {
                                inner as nat
                            } else if r < row_end {
                                inner_start as nat
                            } else {
                                0
                            },
                            #[trigger] cell(result@, columns as int, r, c),
                        ),
                decreases inner - inner_start,
            {
                let inner_end: usize = tile_end(inner_start, inner);
                let mut column_start: usize = 0;
                while column_start < columns
                    invariant
                        column_start <= columns,
                        inner_start < inner_end <= inner,
                        row_start < row_end <= rows,
                        product_fault(self@, rhs@) is None,
                        rows == self@.shape[0],
                        inner == self@.shape[1],
                        columns == rhs@.shape[1],
                        result@.len() == rows * columns,
                        forall|r: int, c: int|
                            0 <= r < rows && 0 <= c < columns ==> cell_holds(
                                arithmetic,
                                self@,
                                rhs@,
                                r,
                                c,
                                if r < row_start {
                                    inner as nat
                                } else if r < row_end {
                                    if c < column_start {
                                        inner_end as nat
                                    } else {
                                        inner_start as nat
                                    }
                                } else {
                                    0
                                },
                                #[trigger] cell(result@, columns as int, r, c),
                            ),
                    decreases columns - column_start,
                {
                    let column_end: usize = tile_end(column_start, columns);
                    let tile = Tile {
                        row_start,
                        row_end,
                        inner_start,
                        inner_end,
                        column_start,
                        column_end,
                    };
                    multiply_tile(arithmetic, self, rhs, tile, &mut result);
                    assert forall|r: int, c: int|
                        0 <= r < rows && 0 <= c < columns implies cell_holds(
                        arithmetic,
                        self@,
                        rhs@,
                        r,
                        c,
                        if r < row_start {
                            inner as nat
                        } else if r < row_end {
                            if c < column_end {
                                inner_end as nat
                            } else {
                                inner_start as nat
                            }
                        } else {
                            0
                        },
                        #[trigger] cell(result@, columns as int, r, c),
                    ) by {}
                    column_start = column_end;
                }
                inner_start = inner_end;
            }
            row_start = row_end;
        }
        let mut shape: Vec<usize> = Vec::new();
        shape.push(rows);
        shape.push(columns);
        proof {
            assert(shape@ =~= seq![rows, columns]);
            dense::lemma_matrix_count(shape@);
            dense::lemma_matrix_count(self@.shape);
            dense::lemma_matrix_count(rhs@.shape);
            assert(matrix_product(arithmetic, self@, rhs@, result@));
        }
        dense::checked_output(arithmetic, shape, result, "matmul")
    }
}

} // verus!
