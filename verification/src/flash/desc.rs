//! What the planning reads of a tensor.

use crate::shape::{
    count_elems, elem_count, fits, fits_usize, lemma_elem_count_bound, lemma_fits_take,
    lemma_nonzero_product_positive, nonzero_product, row_major_stride,
};
use candle_core::DType;
use vstd::prelude::*;

verus! {

/// Where a tensor is stored; the number tells apart the devices of a kind.
#[derive(Clone, Copy, Debug, PartialEq, Eq, Structural)]
pub enum Placement {
    Cpu,
    Cuda(usize),
    Metal(usize),
}

/// Shape, layout, element type and place of a tensor.
#[derive(Debug)]
pub struct TensorDesc {
    pub dims: Vec<usize>,
    pub strides: Vec<usize>,
    pub start_offset: usize,
    pub dtype: DType,
    pub placement: Placement,
}

impl Clone for TensorDesc {
    fn clone(&self) -> (r: Self)
        ensures
            r.same_as(self),
    {
        TensorDesc {
            dims: self.dims.clone(),
            strides: self.strides.clone(),
            start_offset: self.start_offset,
            dtype: self.dtype,
            placement: self.placement,
        }
    }
}

impl TensorDesc {
    /// The two describe the same tensor.
    pub open spec fn same_as(&self, other: &TensorDesc) -> bool {
        &&& self.dims@ == other.dims@
        &&& self.strides@ == other.strides@
        &&& self.start_offset == other.start_offset
        &&& self.dtype == other.dtype
        &&& self.placement == other.placement
    }

    /// There is a stride for each dim, and the offsets are `usize` values.
    pub open spec fn well_formed(&self) -> bool {
        &&& self.strides@.len() == self.dims@.len()
        &&& fits(self.dims@)
        &&& self.start_offset + elem_count(self.dims@) <= usize::MAX
    }

    /// The elements are stored row by row without gaps. The stride of a dim
    /// with at most one element does not matter.
    pub open spec fn contiguous(&self) -> bool {
        forall|i: int|
            0 <= i < self.dims@.len() && self.dims@[i] > 1 ==> #[trigger] self.strides@[i]
                == row_major_stride(self.dims@, i)
    }

    /// The last dim is stored without gaps.
    pub open spec fn last_dim_contiguous(&self) -> bool {
        self.strides@.len() > 0 && self.strides@.last() == 1
    }

    /// Whether there is a stride for each dim and the offsets are `usize`
    /// values.
    pub fn is_well_formed(&self) -> (r: bool)
        ensures
            r == self.well_formed(),
    {
        self.strides.len() == self.dims.len() && fits_usize(&self.dims)
            && self.start_offset.checked_add(count_elems(&self.dims)).is_some()
    }

    pub open spec fn on_cuda(&self) -> bool {
        self.placement is Cuda
    }

    /// Whether the tensor is on a cuda device.
    pub fn is_on_cuda(&self) -> (r: bool)
        ensures
            r == self.on_cuda(),
    {
        match self.placement {
            Placement::Cuda(_) => true,
            _ => false,
        }
    }

    /// The dims other than 0 behind a dim fit, as all of them do.
    proof fn lemma_skip_fits(dims: Seq<usize>, i: int)
        requires
            fits(dims),
            0 <= i <= dims.len(),
        ensures
            fits(dims.skip(i)),
            nonzero_product(dims.skip(i)) <= nonzero_product(dims),
        decreases dims.len(),
    {
        lemma_nonzero_product_positive(dims);
        if i == dims.len() {
            assert(dims.skip(i) =~= Seq::<usize>::empty());
        } else {
            let front = dims.drop_last();
            assert(front =~= dims.take(dims.len() - 1));
            lemma_fits_take(dims, dims.len() - 1);
            Self::lemma_skip_fits(front, i);
            assert(dims.skip(i).drop_last() =~= front.skip(i));
            let a = nonzero_product(front.skip(i));
            let b = nonzero_product(front);
            let d = dims.last() as int;
            assert(a * d <= b * d) by (nonlinear_arith)
                requires
                    a <= b,
                    d >= 0,
            ;
        }
    }

    /// Whether the last dim is stored without gaps.
    pub fn has_contiguous_last_dim(&self) -> (r: bool)
        ensures
            r == self.last_dim_contiguous(),
    {
        let n = self.strides.len();
        n > 0 && self.strides[n - 1] == 1
    }

    /// The stretch of the storage that a contiguous tensor takes, from its
    /// first element to behind its last.
    pub fn contiguous_offsets(&self) -> (r: Option<(usize, usize)>)
        requires
            self.well_formed(),
        ensures
            match r {
                Some((start, end)) => {
                    &&& self.contiguous()
                    &&& start == self.start_offset
                    &&& end == self.start_offset + elem_count(self.dims@)
                },
                None => !self.contiguous(),
            },
    {
        let mut acc: usize = 1;
        let mut i: usize = self.dims.len();
        assert(self.dims@.skip(self.dims@.len() as int) =~= Seq::<usize>::empty());
        while i > 0
            invariant
                i <= self.dims.len(),
                self.well_formed(),
                acc == elem_count(self.dims@.skip(i as int)),
                forall|j: int|
                    i <= j < self.dims@.len() && self.dims@[j] > 1 ==> #[trigger] self.strides@[j]
                        == row_major_stride(self.dims@, j),
            decreases i,
        {
            let ghost at = i - 1;
            assert(self.strides@[at] == self.strides[at as int]);
            assert(row_major_stride(self.dims@, at) == acc);
            if self.dims[i - 1] > 1 && self.strides[i - 1] != acc {
                return None;
            }
            proof {
                Self::lemma_skip_fits(self.dims@, at);
                lemma_elem_count_bound(self.dims@.skip(at));
                lemma_first_factor(self.dims@.skip(at));
                assert(self.dims@.skip(at).skip(1) =~= self.dims@.skip(i as int));
                vstd::arithmetic::mul::lemma_mul_is_commutative(
                    acc as int,
                    self.dims@[at] as int,
                );
            }
            acc = acc * self.dims[i - 1];
            i = i - 1;
        }
        assert(self.dims@.skip(0) =~= self.dims@);
        Some((self.start_offset, self.start_offset + count_elems(&self.dims)))
    }
}

/// The first dim is a factor of the count of elements.
pub proof fn lemma_first_factor(dims: Seq<usize>)
    requires
        dims.len() > 0,
    ensures
        elem_count(dims) == dims[0] * elem_count(dims.skip(1)),
    decreases dims.len(),
{
    if dims.len() == 1 {
        assert(dims.skip(1) =~= Seq::<usize>::empty());
        assert(dims.drop_last() =~= Seq::<usize>::empty());
        reveal_with_fuel(elem_count, 2);
    } else {
        let front = dims.drop_last();
        lemma_first_factor(front);
        assert(dims.skip(1).drop_last() =~= front.skip(1));
        let a = dims[0] as int;
        let b = elem_count(front.skip(1));
        let c = dims.last() as int;
        assert((a * b) * c == a * (b * c)) by (nonlinear_arith);
    }
}

} // verus!
