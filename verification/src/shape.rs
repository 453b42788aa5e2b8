//! Dimensions of tensors and their products.

use vstd::prelude::*;

verus! {

/// The number of elements of a tensor with these dims.
pub open spec fn elem_count(dims: Seq<usize>) -> int
    decreases dims.len(),
{
    if dims.len() == 0 {
        1
    } else {
        elem_count(dims.drop_last()) * dims.last()
    }
}

/// The product of the dims that are not 0.
pub open spec fn nonzero_product(dims: Seq<usize>) -> int
    decreases dims.len(),
{
    if dims.len() == 0 {
        1
    } else if dims.last() == 0 {
        nonzero_product(dims.drop_last())
    } else {
        nonzero_product(dims.drop_last()) * dims.last()
    }
}

/// The product of the dims behind dim `i`: the stride of dim `i` where the
/// elements are stored row by row.
pub open spec fn row_major_stride(dims: Seq<usize>, i: int) -> int {
    elem_count(dims.skip(i + 1))
}

/// The strides of a tensor just made: its elements are stored row by row.
pub open spec fn row_major(dims: Seq<usize>) -> Seq<usize> {
    Seq::new(dims.len(), |i: int| row_major_stride(dims, i) as usize)
}

/// The elements are stored row by row without gaps. The stride of a dim with at
/// most one slice does not matter.
pub open spec fn rowwise(dims: Seq<usize>, strides: Seq<usize>) -> bool {
    &&& strides.len() == dims.len()
    &&& forall|i: int|
        0 <= i < dims.len() && dims[i] > 1 ==> #[trigger] strides[i] == row_major_stride(dims, i)
}

/// Every product of some of the dims is a `usize`.
pub open spec fn fits(dims: Seq<usize>) -> bool {
    nonzero_product(dims) <= usize::MAX
}

pub proof fn lemma_nonzero_product_positive(dims: Seq<usize>)
    ensures
        nonzero_product(dims) >= 1,
    decreases dims.len(),
{
    if dims.len() > 0 {
        lemma_nonzero_product_positive(dims.drop_last());
        if dims.last() != 0 {
            let p = nonzero_product(dims.drop_last());
            let d = dims.last() as int;
            assert(p * d >= 1) by (nonlinear_arith)
                requires
                    p >= 1,
                    d >= 1,
            ;
        }
    }
}

/// The dims but the last fit where all of them do.
pub proof fn lemma_fits_prefix(dims: Seq<usize>)
    requires
        dims.len() > 0,
        fits(dims),
    ensures
        fits(dims.drop_last()),
        nonzero_product(dims.drop_last()) <= nonzero_product(dims),
{
    lemma_nonzero_product_positive(dims.drop_last());
    if dims.last() != 0 {
        let p = nonzero_product(dims.drop_last());
        let d = dims.last() as int;
        assert(p <= p * d) by (nonlinear_arith)
            requires
                p >= 1,
                d >= 1,
        ;
    }
}

/// The count of elements is at most the product of the dims that are not 0.
pub proof fn lemma_elem_count_bound(dims: Seq<usize>)
    ensures
        0 <= elem_count(dims) <= nonzero_product(dims),
    decreases dims.len(),
{
    if dims.len() > 0 {
        lemma_elem_count_bound(dims.drop_last());
        lemma_nonzero_product_positive(dims);
        lemma_nonzero_product_positive(dims.drop_last());
        let e = elem_count(dims.drop_last());
        let p = nonzero_product(dims.drop_last());
        let d = dims.last() as int;
        assert(0 <= e * d) by (nonlinear_arith)
            requires
                e >= 0,
                d >= 0,
        ;
        if d == 0 {
            assert(e * d == 0) by (nonlinear_arith)
                requires
                    d == 0,
            ;
        } else {
            assert(e * d <= p * d) by (nonlinear_arith)
                requires
                    e <= p,
                    d >= 0,
            ;
        }
    }
}

/// The number of elements.
pub fn count_elems(dims: &Vec<usize>) -> (n: usize)
    requires
        fits(dims@),
    ensures
        n == elem_count(dims@),
{
    let mut n: usize = 1;
    let mut i: usize = 0;
    assert(dims@.take(0) =~= Seq::<usize>::empty());
    while i < dims.len()
        invariant
            i <= dims.len(),
            fits(dims@),
            n == elem_count(dims@.take(i as int)),
        decreases dims.len() - i,
    {
        proof {
            let next = dims@.take(i + 1);
            assert(next.drop_last() =~= dims@.take(i as int));
            lemma_fits_take(dims@, i + 1);
            lemma_elem_count_bound(next);
        }
        n = n * dims[i];
        i = i + 1;
    }
    assert(dims@.take(dims.len() as int) =~= dims@);
    n
}

/// Leading dims fit where all of them do.
pub proof fn lemma_fits_take(dims: Seq<usize>, n: int)
    requires
        0 <= n <= dims.len(),
        fits(dims),
    ensures
        fits(dims.take(n)),
        nonzero_product(dims.take(n)) <= nonzero_product(dims),
    decreases dims.len(),
{
    if n == dims.len() {
        assert(dims.take(n) =~= dims);
    } else {
        lemma_fits_prefix(dims);
        lemma_fits_take(dims.drop_last(), n);
        assert(dims.drop_last().take(n) =~= dims.take(n));
    }
}

/// Whether every product of some of the dims is a `usize`.
pub fn fits_usize(dims: &Vec<usize>) -> (r: bool)
    ensures
        r == fits(dims@),
{
    let mut p: usize = 1;
    let mut i: usize = 0;
    assert(dims@.take(0) =~= Seq::<usize>::empty());
    while i < dims.len()
        invariant
            i <= dims.len(),
            p == nonzero_product(dims@.take(i as int)),
        decreases dims.len() - i,
    {
        let ghost next = dims@.take(i + 1);
        proof {
            assert(next.drop_last() =~= dims@.take(i as int));
            assert(next.last() == dims@[i as int]);
        }
        if dims[i] != 0 {
            match p.checked_mul(dims[i]) {
                Some(q) => {
                    p = q;
                },
                None => {
                    proof {
                        if fits(dims@) {
                            lemma_fits_take(dims@, i + 1);
                        }
                    }
                    return false;
                },
            }
        }
        i = i + 1;
    }
    assert(dims@.take(dims.len() as int) =~= dims@);
    true
}

/// Trailing dims fit where all of them do.
pub proof fn lemma_fits_skip(dims: Seq<usize>, n: int)
    requires
        0 <= n <= dims.len(),
        fits(dims),
    ensures
        fits(dims.skip(n)),
        nonzero_product(dims.skip(n)) <= nonzero_product(dims),
    decreases dims.len(),
{
    if n == dims.len() {
        lemma_nonzero_product_positive(dims);
        assert(dims.skip(n) =~= Seq::<usize>::empty());
    } else {
        lemma_fits_prefix(dims);
        lemma_fits_skip(dims.drop_last(), n);
        assert(dims.drop_last().skip(n) =~= dims.skip(n).drop_last());
        let p = nonzero_product(dims.drop_last());
        let q = nonzero_product(dims.drop_last().skip(n));
        let d = dims.last() as int;
        assert(q * d <= p * d) by (nonlinear_arith)
            requires
                q <= p,
                d >= 0,
        ;
    }
}

/// The number of elements is that of a slice along the first dim, times the
/// number of these.
pub proof fn lemma_count_from_first(dims: Seq<usize>)
    requires
        dims.len() > 0,
    ensures
        elem_count(dims) == dims[0] * elem_count(dims.skip(1)),
    decreases dims.len(),
{
    if dims.len() == 1 {
        assert(dims.drop_last() =~= Seq::<usize>::empty());
        assert(dims.skip(1) =~= Seq::<usize>::empty());
        reveal_with_fuel(elem_count, 2);
    } else {
        lemma_count_from_first(dims.drop_last());
        assert(dims.drop_last().skip(1) =~= dims.skip(1).drop_last());
        let rest = elem_count(dims.skip(1).drop_last());
        let first = dims[0] as int;
        let last = dims.last() as int;
        assert((first * rest) * last == first * (rest * last)) by (nonlinear_arith);
    }
}

/// A stride is that of the next dim, times the number of slices along it; the
/// last one is 1.
pub proof fn lemma_stride(dims: Seq<usize>, i: int)
    requires
        0 <= i < dims.len(),
    ensures
        i + 1 < dims.len() ==> row_major_stride(dims, i) == dims[i + 1] * row_major_stride(
            dims,
            i + 1,
        ),
        i + 1 == dims.len() ==> row_major_stride(dims, i) == 1,
{
    if i + 1 < dims.len() {
        lemma_count_from_first(dims.skip(i + 1));
        assert(dims.skip(i + 1).skip(1) =~= dims.skip(i + 2));
    } else {
        assert(dims.skip(i + 1) =~= Seq::<usize>::empty());
    }
}

/// The elements of a tensor just made are stored row by row.
pub proof fn lemma_row_major(dims: Seq<usize>)
    requires
        fits(dims),
    ensures
        rowwise(dims, row_major(dims)),
        forall|i: int|
            0 <= i < dims.len() ==> #[trigger] row_major(dims)[i] == row_major_stride(dims, i),
{
    assert forall|i: int| 0 <= i < dims.len() implies #[trigger] row_major(dims)[i]
        == row_major_stride(dims, i) by {
        lemma_fits_skip(dims, i + 1);
        lemma_elem_count_bound(dims.skip(i + 1));
    }
}

/// The number of elements of a row.
pub proof fn lemma_row_count(n: usize)
    ensures
        elem_count(seq![n]) == n,
{
    reveal_with_fuel(elem_count, 2);
    assert(seq![n].drop_last() =~= Seq::<usize>::empty());
}

/// The number of elements of a matrix.
pub proof fn lemma_matrix_count(rows: usize, columns: usize)
    ensures
        elem_count(seq![rows, columns]) == rows * columns,
{
    lemma_row_count(rows);
    assert(seq![rows, columns].drop_last() =~= seq![rows]);
}

} // verus!
