//! Shapes, flat indices and coordinates.

use vstd::prelude::*;
use vstd::arithmetic::div_mod;

use crate::tensor::error::{TensorError, TensorFault};

verus! {

/// The number of elements of a tensor of a given shape.
pub open spec fn element_count_of(shape: Seq<usize>) -> nat
    decreases shape.len(),
{
    if shape.len() == 0 {
        1
    } else {
        element_count_of(shape.drop_last()) * shape.last() as nat
    }
}

/// Shapes have no zero dimension.
pub open spec fn nonzero(shape: Seq<usize>) -> bool {
    !shape.contains(0)
}

/// Why a shape cannot be that of a tensor.
pub open spec fn shape_fault(shape: Seq<usize>) -> Option<TensorFault> {
    if !nonzero(shape) {
        Some(TensorFault::ZeroDimension)
    } else if element_count_of(shape) > usize::MAX {
        Some(TensorFault::ElementCountOverflow)
    } else {
        None
    }
}

pub proof fn lemma_element_count_positive(shape: Seq<usize>)
    requires
        nonzero(shape),
    ensures
        element_count_of(shape) >= 1,
    decreases shape.len(),
{
    if shape.len() > 0 {
        assert(shape.last() != 0) by {
            assert(shape[shape.len() - 1] == shape.last());
        }
        lemma_nonzero_drop_last(shape);
        lemma_element_count_positive(shape.drop_last());
        let a = element_count_of(shape.drop_last());
        let b = shape.last() as nat;
        assert(a * b >= 1) by (nonlinear_arith)
            requires
                a >= 1,
                b >= 1,
        ;
    }
}

pub proof fn lemma_nonzero_drop_last(shape: Seq<usize>)
    requires
        nonzero(shape),
        shape.len() > 0,
    ensures
        nonzero(shape.drop_last()),
        shape.last() > 0,
{
    assert(shape[shape.len() - 1] == shape.last());
    assert forall|i: int| 0 <= i < shape.len() - 1 implies shape.drop_last()[i] != 0 by {
        assert(shape[i] == shape.drop_last()[i]);
    }
}

/// The leading dimensions of a shape hold no more elements than the shape.
pub proof fn lemma_element_count_prefix(shape: Seq<usize>, n: int)
    requires
        nonzero(shape),
        0 <= n <= shape.len(),
    ensures
        element_count_of(shape.take(n)) <= element_count_of(shape),
    decreases shape.len() - n,
{
    if n == shape.len() {
        assert(shape.take(n) =~= shape);
    } else {
        lemma_element_count_prefix(shape, n + 1);
        let longer = shape.take(n + 1);
        assert(longer.drop_last() =~= shape.take(n));
        assert(longer.last() == shape[n]);
        assert(shape[n] != 0);
        let a = element_count_of(shape.take(n));
        let b = shape[n] as nat;
        assert(a <= a * b) by (nonlinear_arith)
            requires
                b >= 1,
        ;
    }
}

/// Tests a shape for zero dimensions.
pub(crate) fn validate_shape(shape: &[usize]) -> (result: Result<(), TensorError>)
    ensures
        match result {
            Ok(()) => nonzero(shape@),
            Err(error) => !nonzero(shape@) && error@ == TensorFault::ZeroDimension,
        },
{
    let mut i: usize = 0;
    while i < shape.len()
        invariant
            i <= shape@.len(),
            forall|j: int| 0 <= j < i ==> shape@[j] != 0,
        decreases shape@.len() - i,
    {
        if shape[i] == 0 {
            assert(shape@[i as int] == 0);
            return Err(TensorError::ZeroDimension);
        }
        i += 1;
    }
    Ok(())
}

/// Counts the elements of a tensor of a given shape.
pub(crate) fn element_count(shape: &[usize]) -> (result: Result<usize, TensorError>)
    requires
        nonzero(shape@),
    ensures
        match result {
            Ok(count) => count == element_count_of(shape@),
            Err(error) => element_count_of(shape@) > usize::MAX && error@
                == TensorFault::ElementCountOverflow,
        },
{
    let mut count: usize = 1;
    let mut i: usize = 0;
    assert(shape@.take(0) =~= seq![]);
    while i < shape.len()
        invariant
            i <= shape@.len(),
            nonzero(shape@),
            count == element_count_of(shape@.take(i as int)),
        decreases shape@.len() - i,
    {
        proof {
            let longer = shape@.take(i + 1);
            assert(longer.drop_last() =~= shape@.take(i as int));
            assert(longer.last() == shape@[i as int]);
            lemma_element_count_prefix(shape@, i + 1);
        }
        match count.checked_mul(shape[i]) {
            Some(product) => {
                count = product;
            },
            None => {
                return Err(TensorError::ElementCountOverflow);
            },
        }
        i += 1;
    }
    assert(shape@.take(shape@.len() as int) =~= shape@);
    Ok(count)
}

/// The flat row-major index of an element with given coordinates.
pub open spec fn flat_index(coordinates: Seq<usize>, shape: Seq<usize>) -> nat
    decreases coordinates.len(),
{
    if coordinates.len() == 0 || shape.len() == 0 {
        0
    } else {
        flat_index(coordinates.drop_last(), shape.drop_last()) * shape.last() as nat
            + coordinates.last() as nat
    }
}

/// Coordinates of an element of a tensor of a given shape.
pub open spec fn coordinates_fit(coordinates: Seq<usize>, shape: Seq<usize>) -> bool {
    &&& coordinates.len() == shape.len()
    &&& forall|i: int| 0 <= i < shape.len() ==> #[trigger] coordinates[i] < shape[i]
}

pub proof fn lemma_flat_index_bound(coordinates: Seq<usize>, shape: Seq<usize>)
    requires
        coordinates_fit(coordinates, shape),
    ensures
        flat_index(coordinates, shape) < element_count_of(shape),
    decreases shape.len(),
{
    if shape.len() > 0 {
        let c = coordinates.drop_last();
        let s = shape.drop_last();
        assert(coordinates_fit(c, s)) by {
            assert forall|i: int| 0 <= i < s.len() implies #[trigger] c[i] < s[i] by {
                assert(coordinates[i] < shape[i]);
            }
        }
        lemma_flat_index_bound(c, s);
        assert(coordinates[shape.len() - 1] < shape[shape.len() - 1]);
        let f = flat_index(c, s);
        let n = element_count_of(s);
        let d = shape.last() as nat;
        let x = coordinates.last() as nat;
        assert(f * d + x < n * d) by (nonlinear_arith)
            requires
                f < n,
                x < d,
        ;
    }
}

/// The flat index, in a tensor of shape `source`, of the element that stands at
/// flat index `index` of its broadcast to `target`. Axes are aligned at the
/// right; an axis of length one is repeated.
pub open spec fn source_index(source: Seq<usize>, target: Seq<usize>, index: nat) -> nat
    decreases source.len(),
{
    if source.len() == 0 || target.len() == 0 {
        0
    } else {
        let length = target.last() as nat;
        let outer = source_index(source.drop_last(), target.drop_last(), index / length);
        outer * source.last() as nat + if source.last() == 1 {
            0
        } else {
            index % length
        }
    }
}

/// Whether a tensor of shape `source` can be broadcast to `target`.
pub open spec fn broadcasts(source: Seq<usize>, target: Seq<usize>) -> bool {
    &&& source.len() <= target.len()
    &&& forall|axis: int|
        0 <= axis < source.len() ==> #[trigger] source[axis] == 1 || source[axis]
            == target[target.len() - source.len() + axis]
}

/// The source index, read off the coordinates of the target.
spec fn source_index_at(source: Seq<usize>, coordinates: Seq<usize>) -> nat
    decreases source.len(),
{
    if source.len() == 0 || coordinates.len() == 0 {
        0
    } else {
        source_index_at(source.drop_last(), coordinates.drop_last()) * source.last() as nat
            + if source.last() == 1 {
            0
        } else {
            coordinates.last() as nat
        }
    }
}

proof fn lemma_source_index_at(
    source: Seq<usize>,
    target: Seq<usize>,
    coordinates: Seq<usize>,
)
    requires
        coordinates_fit(coordinates, target),
        source.len() <= target.len(),
    ensures
        source_index_at(source, coordinates) == source_index(
            source,
            target,
            flat_index(coordinates, target),
        ),
    decreases source.len(),
{
    if source.len() > 0 {
        let c = coordinates.drop_last();
        let t = target.drop_last();
        assert(coordinates_fit(c, t)) by {
            assert forall|i: int| 0 <= i < t.len() implies #[trigger] c[i] < t[i] by {
                assert(coordinates[i] < target[i]);
            }
        }
        lemma_source_index_at(source.drop_last(), t, c);
        let outer = flat_index(c, t);
        let d = target.last() as nat;
        let x = coordinates.last() as nat;
        assert(coordinates[target.len() - 1] < target[target.len() - 1]);
        div_mod::lemma_fundamental_div_mod_converse(
            (outer * d + x) as int,
            d as int,
            outer as int,
            x as int,
        );
    }
}

/// The source index lies inside the source.
pub proof fn lemma_source_index_bound(source: Seq<usize>, target: Seq<usize>, index: nat)
    requires
        broadcasts(source, target),
        nonzero(source),
        nonzero(target),
        index < element_count_of(target),
    ensures
        source_index(source, target, index) < element_count_of(source),
    decreases source.len(),
{
    if source.len() > 0 {
        let s = source.drop_last();
        let t = target.drop_last();
        lemma_nonzero_drop_last(source);
        lemma_nonzero_drop_last(target);
        assert(broadcasts(s, t)) by {
            assert forall|axis: int| 0 <= axis < s.len() implies #[trigger] s[axis] == 1 || s[axis]
                == t[t.len() - s.len() + axis] by {
                assert(source[axis] == 1 || source[axis] == target[target.len() - source.len()
                    + axis]);
            }
        }
        let d = target.last() as nat;
        let n = element_count_of(t);
        assert(index / d < n) by (nonlinear_arith)
            requires
                index < n * d,
                d > 0,
        ;
        lemma_source_index_bound(s, t, index / d);
        let outer = source_index(s, t, index / d);
        let m = element_count_of(s);
        let e = source.last() as nat;
        assert(source[source.len() - 1] == 1 || source[source.len() - 1] == target[target.len()
            - 1]);
        let x: nat = if e == 1 {
            0
        } else {
            index % d
        };
        assert(outer * e + x < m * e) by (nonlinear_arith)
            requires
                outer < m,
                x < e,
        ;
    }
}

/// Counts the coordinates on by one element.
pub(crate) fn increment_index(index: &mut Vec<usize>, shape: &[usize])
    requires
        coordinates_fit(old(index)@, shape@),
    ensures
        coordinates_fit(final(index)@, shape@),
        flat_index(final(index)@, shape@) == if flat_index(old(index)@, shape@) + 1
            == element_count_of(shape@) {
            0
        } else {
            flat_index(old(index)@, shape@) + 1
        },
{
    let ghost start = index@;
    let mut axis: usize = index.len();
    while axis > 0
        invariant
            axis <= shape@.len(),
            index@.len() == shape@.len(),
            start == old(index)@,
            coordinates_fit(start, shape@),
            coordinates_fit(index@, shape@),
            forall|i: int| 0 <= i < axis ==> index@[i] == start[i],
            forall|i: int| axis <= i < shape@.len() ==> index@[i] == 0,
            forall|i: int| axis <= i < shape@.len() ==> start[i] == shape@[i] - 1,
        decreases axis,
    {
        axis = axis - 1;
        let next: usize = index[axis] + 1;
        if next < shape[axis] {
            index.set(axis, next);
            proof {
                lemma_carry(start, index@, shape@, axis as int, shape@.len() as int);
                lemma_flat_index_bound(index@, shape@);
            }
            return;
        }
        index.set(axis, 0);
    }
    proof {
        lemma_all_zero(index@, shape@);
        lemma_all_last(start, shape@);
    }
}

/// Coordinates that are all zero stand for the first element.
pub proof fn lemma_all_zero(coordinates: Seq<usize>, shape: Seq<usize>)
    requires
        coordinates.len() == shape.len(),
        forall|i: int| 0 <= i < shape.len() ==> #[trigger] coordinates[i] == 0,
    ensures
        flat_index(coordinates, shape) == 0,
    decreases shape.len(),
{
    if shape.len() > 0 {
        let c = coordinates.drop_last();
        assert forall|i: int| 0 <= i < shape.len() - 1 implies #[trigger] c[i] == 0 by {
            assert(coordinates[i] == 0);
        }
        lemma_all_zero(c, shape.drop_last());
        assert(coordinates[shape.len() - 1] == 0);
        assert(0 * shape.last() as nat == 0);
    }
}

/// The largest coordinates stand for the last element.
proof fn lemma_all_last(coordinates: Seq<usize>, shape: Seq<usize>)
    requires
        coordinates.len() == shape.len(),
        forall|i: int| 0 <= i < shape.len() ==> #[trigger] coordinates[i] == shape[i] - 1,
    ensures
        flat_index(coordinates, shape) + 1 == element_count_of(shape),
    decreases shape.len(),
{
    if shape.len() > 0 {
        let c = coordinates.drop_last();
        let s = shape.drop_last();
        assert forall|i: int| 0 <= i < s.len() implies #[trigger] c[i] == s[i] - 1 by {
            assert(coordinates[i] == shape[i] - 1);
        }
        lemma_all_last(c, s);
        assert(coordinates[shape.len() - 1] == shape[shape.len() - 1] - 1);
        let f = flat_index(c, s);
        let d = shape.last() as nat;
        assert(f * d + (d - 1) + 1 == (f + 1) * d) by (nonlinear_arith);
    }
}

/// One axis counts on and the axes behind it start over.
proof fn lemma_carry(
    before: Seq<usize>,
    after: Seq<usize>,
    shape: Seq<usize>,
    axis: int,
    n: int,
)
    requires
        coordinates_fit(before, shape),
        coordinates_fit(after, shape),
        0 <= axis < n <= shape.len(),
        forall|i: int| 0 <= i < axis ==> after[i] == before[i],
        after[axis] == before[axis] + 1,
        forall|i: int| axis < i < shape.len() ==> after[i] == 0,
        forall|i: int| axis < i < shape.len() ==> before[i] == shape[i] - 1,
    ensures
        flat_index(after.take(n), shape.take(n)) == flat_index(before.take(n), shape.take(n)) + 1,
        n == shape.len() ==> flat_index(after, shape) == flat_index(before, shape) + 1,
    decreases n,
{
    let a = after.take(n);
    let b = before.take(n);
    let s = shape.take(n);
    assert(a.drop_last() =~= after.take(n - 1));
    assert(b.drop_last() =~= before.take(n - 1));
    assert(s.drop_last() =~= shape.take(n - 1));
    if n == shape.len() {
        assert(a =~= after);
        assert(b =~= before);
        assert(s =~= shape);
    }
    if axis == n - 1 {
        assert(a.drop_last() =~= b.drop_last());
    } else {
        lemma_carry(before, after, shape, axis, n - 1);
        let f = flat_index(b.drop_last(), s.drop_last());
        let d = s.last() as nat;
        assert((f + 1) * d == f * d + (d - 1) + 1) by (nonlinear_arith);
    }
}

/// Finds the source of the element with given coordinates.
pub(crate) fn source_of(source: &[usize], target: &[usize], coordinates: &Vec<usize>) -> (index:
    usize)
    requires
        coordinates_fit(coordinates@, target@),
        broadcasts(source@, target@),
        nonzero(source@),
        nonzero(target@),
        element_count_of(source@) <= usize::MAX,
    ensures
        index == source_index(source@, target@, flat_index(coordinates@, target@)),
{
    let rank: usize = coordinates.len();
    let offset: usize = rank - source.len();
    let mut index: usize = 0;
    let mut axis: usize = 0;
    assert(source@.take(0) =~= seq![]);
    while axis < source.len()
        invariant
            axis <= source@.len(),
            rank == coordinates@.len(),
            offset + source@.len() == rank,
            coordinates_fit(coordinates@, target@),
            broadcasts(source@, target@),
            nonzero(source@),
            element_count_of(source@) <= usize::MAX,
            index == source_index_at(
                source@.take(axis as int),
                coordinates@.take(offset + axis),
            ),
            index < element_count_of(source@.take(axis as int)),
        decreases source@.len() - axis,
    {
        let length: usize = source[axis];
        proof {
            let s = source@.take(axis + 1);
            let c = coordinates@.take(offset + axis + 1);
            assert(s.drop_last() =~= source@.take(axis as int));
            assert(c.drop_last() =~= coordinates@.take(offset + axis));
            assert(s.last() == length);
            assert(c.last() == coordinates@[offset + axis]);
            lemma_element_count_prefix(source@, axis + 1);
            assert(source@[axis as int] == 1 || source@[axis as int] == target@[target@.len()
                - source@.len() + axis]);
            assert(coordinates@[offset + axis] < target@[offset + axis]);
            assert(source@[axis as int] != 0);
            let m = element_count_of(source@.take(axis as int));
            let x: nat = if length == 1 {
                0
            } else {
                coordinates@[offset + axis] as nat
            };
            assert(index * length + x < m * length) by (nonlinear_arith)
                requires
                    index < m,
                    x < length,
            ;
            assert(index * length >= 0) by (nonlinear_arith);
        }
        let coordinate: usize = if length == 1 {
            0
        } else {
            coordinates[offset + axis]
        };
        index = index * length + coordinate;
        axis += 1;
    }
    proof {
        assert(source@.take(source@.len() as int) =~= source@);
        assert(coordinates@.take(coordinates@.len() as int) =~= coordinates@);
        lemma_source_index_at(source@, target@, coordinates@);
    }
    index
}

} // verus!
