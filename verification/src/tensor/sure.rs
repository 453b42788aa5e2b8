//! Runs on the cpu, in single precision, that are sure to succeed.

use crate::shape::{elem_count, fits, lemma_row_major, row_major};
use crate::tensor::run::{mapped, multiplied, paired, reshaped, stored, transposed, Run};
use crate::tensor::view::{
    in_rows, lemma_rows_are_readable, single_on_cpu, slices_along, Op, TensorView,
};
use vstd::prelude::*;

verus! {

/// There are slices along each dim.
pub open spec fn nonempty(dims: Seq<usize>) -> bool {
    forall|i: int| 0 <= i < dims.len() ==> #[trigger] dims[i] > 0
}

/// Numbers in single precision on the cpu, stored row by row.
pub open spec fn tidy_view(x: TensorView) -> bool {
    &&& single_on_cpu(x)
    &&& in_rows(x)
    &&& fits(x.dims)
    &&& nonempty(x.dims)
}

/// A run that is sure to succeed and gives numbers in single precision on the
/// cpu, stored row by row.
pub open spec fn tidy(x: Run) -> bool {
    x.sure && tidy_view(x.view)
}

/// The number of elements of a tensor with slices along each dim.
pub proof fn lemma_nonempty_count(dims: Seq<usize>)
    requires
        nonempty(dims),
    ensures
        elem_count(dims) > 0,
    decreases dims.len(),
{
    if dims.len() > 0 {
        assert(nonempty(dims.drop_last())) by {
            assert forall|i: int| 0 <= i < dims.len() - 1 implies #[trigger] dims.drop_last()[i]
                > 0 by {
                assert(dims[i] > 0);
            }
        }
        lemma_nonempty_count(dims.drop_last());
        let n = elem_count(dims.drop_last());
        let d = dims.last() as int;
        assert(dims[dims.len() - 1] > 0);
        assert(n * d > 0) by (nonlinear_arith)
            requires
                n > 0,
                d > 0,
        ;
    }
}

/// The number of elements of a tensor with three dims.
pub proof fn lemma_count3(a: usize, b: usize, c: usize)
    ensures
        elem_count(seq![a, b, c]) == a * b * c,
{
    reveal_with_fuel(elem_count, 4);
    assert(seq![a, b, c].drop_last() =~= seq![a, b]);
    assert(seq![a, b].drop_last() =~= seq![a]);
    assert(seq![a].drop_last() =~= Seq::<usize>::empty());
}

/// The number of elements of a tensor with four dims.
pub proof fn lemma_count4(a: usize, b: usize, c: usize, d: usize)
    ensures
        elem_count(seq![a, b, c, d]) == a * b * c * d,
{
    lemma_count3(a, b, c);
    assert(seq![a, b, c, d].drop_last() =~= seq![a, b, c]);
}

/// A tensor just made is stored row by row.
pub proof fn lemma_fresh(x: Run)
    requires
        x.sure,
        single_on_cpu(x.view),
        x.view.strides == row_major(x.dims()),
        fits(x.dims()),
        nonempty(x.dims()),
    ensures
        tidy(x),
{
    lemma_row_major(x.dims());
}

/// Operations on each element, or each row, of a tensor.
pub proof fn lemma_tidy_mapped(op: Op, x: Run)
    requires
        tidy(x),
        !(op is SortLastDim),
    ensures
        tidy(mapped(op, x)),
        mapped(op, x).dims() == x.dims(),
{
    lemma_nonempty_count(x.dims());
    lemma_fresh(mapped(op, x));
}

/// Operations on the elements of two tensors.
pub proof fn lemma_tidy_paired(op: Op, x: Run, y: Run)
    requires
        tidy(x),
        tidy(y),
        x.dims() == y.dims(),
        !(op is RmsNorm),
    ensures
        tidy(paired(op, x, y)),
        paired(op, x, y).dims() == x.dims(),
{
    lemma_nonempty_count(x.dims());
    lemma_fresh(paired(op, x, y));
}

/// Other dims.
pub proof fn lemma_tidy_reshaped(x: Run, dims: Seq<usize>)
    requires
        x.sure,
        single_on_cpu(x.view),
        elem_count(x.dims()) == elem_count(dims),
        fits(dims),
        nonempty(dims),
    ensures
        tidy(reshaped(x, dims)),
{
    lemma_fresh(reshaped(x, dims));
}

/// Storing row by row.
pub proof fn lemma_tidy_stored(x: Run)
    requires
        x.sure,
        single_on_cpu(x.view),
        fits(x.dims()),
        nonempty(x.dims()),
    ensures
        tidy(stored(x)),
        stored(x).dims() == x.dims(),
{
    lemma_row_major(x.dims());
}

/// The product with a tensor of matrices.
pub proof fn lemma_tidy_product(x: Run, y: Run)
    requires
        tidy(x),
        tidy(y),
        x.dims().len() == 4,
        y.dims().len() == 4,
        x.dims()[0] == y.dims()[0],
        x.dims()[1] == y.dims()[1],
        x.dims()[3] == y.dims()[2],
        multiplied(x, y).sound,
    ensures
        tidy(multiplied(x, y)),
        multiplied(x, y).dims() == x.dims().update(3, y.dims()[3]),
{
    lemma_rows_are_readable(x.view);
    lemma_rows_are_readable(y.view);
    assert(x.dims().take(2) =~= y.dims().take(2));
    lemma_fresh(multiplied(x, y));
}

/// The product with a tensor of matrices whose rows and columns are exchanged.
pub proof fn lemma_tidy_scores(x: Run, y: Run)
    requires
        tidy(x),
        tidy(y),
        x.dims().len() == 4,
        y.dims().len() == 4,
        x.dims()[0] == y.dims()[0],
        x.dims()[1] == y.dims()[1],
        x.dims()[3] == y.dims()[3],
        multiplied(x, transposed(y, 2, 3)).sound,
    ensures
        tidy(multiplied(x, transposed(y, 2, 3))),
        multiplied(x, transposed(y, 2, 3)).dims() == x.dims().update(3, y.dims()[2]),
{
    lemma_rows_are_readable(x.view);
    lemma_rows_are_readable(y.view);
    let t = transposed(y, 2, 3);
    assert(x.dims().take(2) =~= t.dims().take(2));
    lemma_fresh(multiplied(x, t));
}

/// Several copies of a tensor along its third dim.
pub proof fn lemma_slices_of_copies(x: TensorView, dim: usize, n: nat)
    ensures
        slices_along(Seq::new(n, |i: int| x), dim) == n * x.dims[dim as int],
    decreases n,
{
    let parts = Seq::new(n, |i: int| x);
    let d = x.dims[dim as int] as int;
    if n == 0 {
        assert(0 * d == 0) by (nonlinear_arith);
    } else {
        lemma_slices_of_copies(x, dim, (n - 1) as nat);
        assert(parts.drop_last() =~= Seq::new((n - 1) as nat, |i: int| x));
        assert((n - 1) * d + d == n * d) by (nonlinear_arith);
    }
}

} // verus!
