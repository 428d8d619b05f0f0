//! Where values stand in tensors, by coordinates.

use vstd::prelude::*;

use crate::tensor::arithmetic::Arithmetic;
use crate::tensor::dense;
use crate::tensor::dense::Tensor;
use crate::tensor::error::TensorError;
use crate::tensor::meaning;
use crate::tensor::reals;
use crate::tensor::reals::Reals;
use crate::tensor::shape;

verus! {

/// The product of all dimensions.
pub open spec fn volume(shape: Seq<usize>) -> nat
    decreases shape.len(),
{
    if shape.len() == 0 {
        1
    } else {
        shape[0] as nat * volume(shape.drop_first())
    }
}

/// The place of the value at given coordinates: one step along an axis passes all
/// values of the axes behind it.
pub open spec fn place(coordinates: Seq<usize>, shape: Seq<usize>) -> nat
    decreases shape.len(),
{
    if shape.len() == 0 {
        0
    } else {
        coordinates[0] as nat * volume(shape.drop_first()) + place(
            coordinates.drop_first(),
            shape.drop_first(),
        )
    }
}

/// Coordinates within a shape.
pub open spec fn inside(coordinates: Seq<usize>, shape: Seq<usize>) -> bool {
    &&& coordinates.len() == shape.len()
    &&& forall|axis: int| 0 <= axis < shape.len() ==> #[trigger] coordinates[axis] < shape[axis]
}

/// The coordinates of the value of a tensor of shape `source` that is repeated at
/// coordinates of a larger tensor. Axes are matched from the last one on.
pub open spec fn repeated_from(source: Seq<usize>, coordinates: Seq<usize>) -> Seq<usize> {
    Seq::new(
        source.len(),
        |axis: int|
            if source[axis] == 1 {
                0usize
            } else {
                coordinates[coordinates.len() - source.len() + axis]
            },
    )
}

/// Each axis, matched from the last one on, has the same length in both shapes, or
/// is one long in the first.
pub open spec fn stretches(source: Seq<usize>, target: Seq<usize>) -> bool {
    &&& source.len() <= target.len()
    &&& forall|back: int|
        0 < back <= source.len() ==> #[trigger] source[source.len() - back] == 1 || source[source.len()
            - back] == target[target.len() - back]
}

pub(crate) proof fn lemma_volume(shape: Seq<usize>)
    ensures
        volume(shape) == shape::element_count_of(shape),
    decreases shape.len(),
{
    if shape.len() == 1 {
        assert(shape.drop_first() =~= seq![]);
        assert(shape.drop_last() =~= seq![]);
        reveal_with_fuel(volume, 2);
        reveal_with_fuel(shape::element_count_of, 2);
        assert(shape[0] as nat * 1 == 1 * shape[0] as nat);
    } else if shape.len() > 1 {
        let rest = shape.drop_first();
        let front = shape.drop_last();
        assert(rest.drop_last() =~= front.drop_first());
        lemma_volume(rest);
        lemma_volume(front);
        lemma_volume(rest.drop_last());
        let first = shape[0] as nat;
        let last = shape.last() as nat;
        let middle = volume(rest.drop_last());
        assert(first * (middle * last) == (first * middle) * last) by (nonlinear_arith);
        assert(front[0] == shape[0] && rest.last() == shape.last());
    }
}

proof fn lemma_place(coordinates: Seq<usize>, shape: Seq<usize>)
    requires
        coordinates.len() == shape.len(),
    ensures
        place(coordinates, shape) == shape::flat_index(coordinates, shape),
    decreases shape.len(),
{
    if shape.len() == 1 {
        assert(shape.drop_first() =~= seq![]);
        assert(shape.drop_last() =~= seq![]);
        reveal_with_fuel(place, 2);
        reveal_with_fuel(volume, 2);
        reveal_with_fuel(shape::flat_index, 2);
        assert(coordinates[0] as nat * 1 == coordinates[0] as nat);
        assert(0 * shape.last() as nat == 0);
    } else if shape.len() > 1 {
        let rest = shape.drop_first();
        let front = shape.drop_last();
        let inner = coordinates.drop_first();
        let outer = coordinates.drop_last();
        assert(rest.drop_last() =~= front.drop_first());
        assert(inner.drop_last() =~= outer.drop_first());
        lemma_place(inner, rest);
        lemma_place(outer, front);
        lemma_place(inner.drop_last(), rest.drop_last());
        lemma_volume(rest);
        lemma_volume(rest.drop_last());
        let c = coordinates[0] as nat;
        let last = shape.last() as nat;
        let volume = volume(rest.drop_last());
        let middle = place(inner.drop_last(), rest.drop_last());
        assert(front[0] == shape[0] && rest.last() == shape.last());
        assert(outer[0] == coordinates[0] && inner.last() == coordinates.last());
        assert((c * volume + middle) * last == c * (volume * last) + middle * last)
            by (nonlinear_arith);
    }
}

/// Coordinates lie inside a tensor.
pub proof fn lemma_place_inside(coordinates: Seq<usize>, shape: Seq<usize>)
    requires
        inside(coordinates, shape),
    ensures
        place(coordinates, shape) < volume(shape),
        volume(shape) == shape::element_count_of(shape),
{
    lemma_place(coordinates, shape);
    lemma_volume(shape);
    assert(shape::coordinates_fit(coordinates, shape));
    shape::lemma_flat_index_bound(coordinates, shape);
}

proof fn lemma_source(source: Seq<usize>, target: Seq<usize>, coordinates: Seq<usize>)
    requires
        source.len() <= target.len(),
        inside(coordinates, target),
    ensures
        shape::source_index(source, target, shape::flat_index(coordinates, target))
            == shape::flat_index(repeated_from(source, coordinates), source),
    decreases source.len(),
{
    if source.len() > 0 {
        let s = source.drop_last();
        let t = target.drop_last();
        let c = coordinates.drop_last();
        assert(inside(c, t)) by {
            assert forall|axis: int| 0 <= axis < t.len() implies #[trigger] c[axis] < t[axis] by {
                assert(coordinates[axis] < target[axis]);
            }
        }
        lemma_source(s, t, c);
        let pulled = repeated_from(source, coordinates);
        assert(pulled.drop_last() =~= repeated_from(s, c));
        let d = target.last() as int;
        let x = coordinates.last() as int;
        let outer = shape::flat_index(c, t) as int;
        assert(coordinates[target.len() - 1] < target[target.len() - 1]);
        assert((outer * d + x) / d == outer && (outer * d + x) % d == x) by (nonlinear_arith)
            requires
                0 <= x < d,
                outer >= 0,
        ;
    }
}

/// A tensor is broadcast to a shape that it stretches to, and to no other. Each
/// value of the result is the one of the tensor at the same coordinates, where axes
/// of length one count as repeated.
pub proof fn law_broadcast_repeats_along_axes<T: Copy, A: Arithmetic<T>>(
    arithmetic: &A,
    n: Reals<T>,
    tensor: &Tensor<T>,
    target: Vec<usize>,
    result: Result<Tensor<T>, TensorError>,
    coordinates: Seq<usize>,
)
    requires
        reals::exact(arithmetic, n),
        meaning::numeric(n, tensor),
        volume(target@) <= usize::MAX,
        call_ensures(
            Tensor::<T>::broadcast_to::<A>,
            (tensor, target, arithmetic),
            result,
        ),
    ensures
        result is Ok <==> !target@.contains(0) && stretches(tensor@.shape, target@),
        result matches Ok(larger) ==> {
            &&& larger@.shape == target@
            &&& larger@.data.len() == volume(target@)
            &&& inside(coordinates, target@) ==> larger@.data[place(coordinates, target@) as int]
                == tensor@.data[place(
                repeated_from(tensor@.shape, coordinates),
                tensor@.shape,
            ) as int]
        },
{
    let source = tensor@.shape;
    lemma_volume(target@);
    assert(stretches(source, target@) <==> shape::broadcasts(source, target@)) by {
        if stretches(source, target@) {
            assert forall|axis: int| 0 <= axis < source.len() implies #[trigger] source[axis] == 1
                || source[axis] == target@[target@.len() - source.len() + axis] by {
                let back = source.len() - axis;
                assert(source[source.len() - back] == source[axis]);
            }
        }
        if shape::broadcasts(source, target@) {
            assert forall|back: int| 0 < back <= source.len() implies #[trigger] source[source.len()
                - back] == 1 || source[source.len() - back] == target@[target@.len() - back] by {
                let axis = source.len() - back;
                assert(source[axis] == 1 || source[axis] == target@[target@.len() - source.len()
                    + axis]);
            }
        }
    }
    if shape::nonzero(target@) && shape::broadcasts(source, target@) {
        let data = dense::broadcast(tensor@, target@);
        assert forall|i: int| 0 <= i < data.len() implies n.is(#[trigger] data[i]) by {
            shape::lemma_source_index_bound(source, target@, i as nat);
        }
        if inside(coordinates, target@) {
            lemma_source(source, target@, coordinates);
            lemma_place(coordinates, target@);
            lemma_place(repeated_from(source, coordinates), source);
            lemma_place_inside(coordinates, target@);
        }
    }
}

} // verus!
