//! What the attention layers of the models share.

use crate::error::ModelError;
use crate::nn::RotaryView;
use crate::shape::{elem_count, fits, lemma_stride, row_major_stride};
use crate::tensor::ops;
use crate::tensor::raw::tensor_view;
use crate::tensor::run::{
    broadcast, converted, ends, given, joined, narrowed, refused, reshaped, rotated, run_of,
    squeezed, stored, transposed, Run,
};
use crate::tensor::sure::{
    lemma_count4, lemma_fresh, lemma_nonempty_count, lemma_tidy_reshaped, lemma_tidy_stored,
    nonempty, tidy, tidy_view,
};
use crate::tensor::view;
use crate::tensor::view::{
    broadcast_dims, broadcast_sure, cat_sure, in_rows, single_on_cpu, slices_along, Op, TensorView,
};
use candle_core::Tensor;
use vstd::prelude::*;

verus! {

/// Kept keys and values.
pub type Kept = Option<(TensorView, TensorView)>;

/// A projection split into heads: (batch, heads, sequence, head).
pub open spec fn heads(x: Run, batch: usize, len: usize, n: usize, head_dim: usize) -> Run {
    stored(transposed(reshaped(x, seq![batch, len, n, head_dim]), 1, 2))
}

/// Heads rotated by their positions, which start at `offset`.
pub open spec fn rotate(r: RotaryView, x: Run, offset: usize, len: usize) -> Run {
    rotated(x, narrowed(given(r.cos), 0, offset, len), narrowed(given(r.sin), 0, offset, len))
}

/// What is known of an optional mask.
pub open spec fn mask_view(mask: Option<&Tensor>) -> Option<TensorView> {
    match mask {
        Some(m) => Some(tensor_view(*m)),
        None => None,
    }
}

/// What is known of an optional mask.
pub open spec fn mask_view_of(mask: Option<Tensor>) -> Option<TensorView> {
    match mask {
        Some(m) => Some(tensor_view(m)),
        None => None,
    }
}

/// What is known of the outcome of a run for an optional mask.
pub open spec fn run_view(mask: Option<Run>) -> Option<TensorView> {
    match mask {
        Some(m) => Some(m.view),
        None => None,
    }
}

/// Each step towards an optional mask is one that the operations take.
pub open spec fn mask_sound(mask: Option<Run>) -> bool {
    mask is Some ==> mask->0.sound
}

/// Each step towards an optional mask is taken, and sure to succeed.
pub open spec fn mask_certain(mask: Option<Run>) -> bool {
    mask is Some ==> mask->0.certain()
}

/// What is known of kept keys and values.
pub open spec fn kept_view(kept: Option<(Tensor, Tensor)>) -> Kept {
    match kept {
        Some((k, v)) => Some((tensor_view(k), tensor_view(v))),
        None => None,
    }
}

/// The kept keys and values are of `n` positions.
pub open spec fn holds(kept: Kept, n: int) -> bool {
    match kept {
        Some((k, v)) => {
            &&& k.dims.len() == 4
            &&& v.dims.len() == 4
            &&& k.dims[2] == n
            &&& v.dims[2] == n
        },
        None => false,
    }
}

/// Nothing kept by any of `n` layers.
pub open spec fn no_kept(n: nat) -> Seq<Kept> {
    Seq::new(n, |i: int| None::<(TensorView, TensorView)>)
}

/// The keys and values of a call, behind the kept ones unless the sequence
/// starts afresh at offset 0.
pub open spec fn appended(kept: Kept, k: Run, v: Run, offset: usize) -> (Run, Run) {
    match kept {
        Some((kc, vc)) => if offset > 0 {
            (joined(given(kc), k, 2), joined(given(vc), v, 2))
        } else {
            (k, v)
        },
        None => (k, v),
    }
}

/// Attention scores with the mask added.
pub open spec fn masked_scores(s: Run, mask: Option<TensorView>) -> Run {
    match mask {
        Some(m) => broadcast(Op::BroadcastAdd, s, converted(given(m), s.dtype())),
        None => s,
    }
}

/// The last position of a residual.
pub open spec fn last_position(xs: Run, seq_len: usize) -> Run {
    squeezed(narrowed(xs, 1, (seq_len - 1) as usize, 1), 1)
}

/// The last position of a residual.
pub fn take_last(xs: &Tensor, seq_len: usize) -> (r: Result<Tensor, ModelError>)
    requires
        seq_len > 0,
    ensures
        ends(r, last_position(run_of(*xs), seq_len)),
{
    ops::squeeze(&ops::narrow(xs, 1, seq_len - 1, 1)?, 1)
}

/// The keys and values of a call, behind the kept ones unless the sequence
/// starts afresh at offset 0.
pub fn append_kept(kept: &Option<(Tensor, Tensor)>, k: Tensor, v: Tensor, offset: usize) -> (r:
    Result<(Tensor, Tensor), ModelError>)
    ensures
        ({
            let (keys, values) = appended(kept_view(*kept), run_of(k), run_of(v), offset);
            match r {
                Ok((k, v)) => ends(Ok(k), keys) && ends(Ok(v), values),
                Err(e) => {
                    &&& refused(e, keys.sound && values.sound)
                    &&& !(keys.certain() && values.certain())
                },
            }
        }),
        kept is None || offset == 0 ==> r is Ok,
{
    match kept {
        Some((k_cache, v_cache)) => if offset > 0 {
            let k = ops::join(k_cache, &k, 2)?;
            let v = ops::join(v_cache, &v, 2)?;
            Ok((k, v))
        } else {
            Ok((k, v))
        },
        None => Ok((k, v)),
    }
}

/// Attention scores with the mask added.
pub fn add_mask(s: Tensor, mask: Option<&Tensor>) -> (r: Result<Tensor, ModelError>)
    ensures
        ends(r, masked_scores(run_of(s), mask_view(mask))),
        mask is None ==> r is Ok,
{
    match mask {
        Some(m) => {
            let m = ops::to_dtype(m, ops::dtype(&s))?;
            ops::broadcast_add(&s, &m)
        },
        None => Ok(s),
    }
}

/// A projection split into heads: (batch, heads, sequence, head).
pub fn split_heads(x: &Tensor, b_sz: usize, seq_len: usize, n: usize, head_dim: usize) -> (r:
    Result<Tensor, ModelError>)
    ensures
        ends(r, heads(run_of(*x), b_sz, seq_len, n, head_dim)),
{
    let x = ops::reshape4(x, b_sz, seq_len, n, head_dim)?;
    ops::contiguous(&ops::transpose(&x, 1, 2)?)
}

/// The slices along a dim of two tensors, one behind the other.
pub proof fn lemma_joined_dim(x: TensorView, y: TensorView, dim: usize)
    requires
        dim < x.dims.len(),
        x.dims[dim as int] + y.dims[dim as int] <= usize::MAX,
    ensures
        view::joined(x, y, dim).dims[dim as int] == x.dims[dim as int] + y.dims[dim as int],
{
    let parts = seq![x, y];
    reveal_with_fuel(slices_along, 3);
    assert(parts.drop_last() =~= seq![x]);
    assert(seq![x].drop_last() =~= Seq::<TensorView>::empty());
}

/// Splitting a projection that is sure to come out into heads is sure to succeed.
pub proof fn heads_are_sure(x: Run, batch: usize, len: usize, n: usize, head_dim: usize)
    requires
        x.sure,
        single_on_cpu(x.view),
        elem_count(x.dims()) == batch * len * n * head_dim,
        nonempty(seq![batch, len, n, head_dim]),
        heads(x, batch, len, n, head_dim).sound,
    ensures
        tidy(heads(x, batch, len, n, head_dim)),
        heads(x, batch, len, n, head_dim).dims() == seq![batch, n, len, head_dim],
{
    let dims = seq![batch, len, n, head_dim];
    lemma_count4(batch, len, n, head_dim);
    lemma_tidy_reshaped(x, dims);
    let t = transposed(reshaped(x, dims), 1, 2);
    assert(t.dims() =~= seq![batch, n, len, head_dim]);
    assert(dims[0] > 0 && dims[1] > 0 && dims[2] > 0 && dims[3] > 0);
    lemma_tidy_stored(t);
}

/// The angles of a rotary embedding, on the cpu, for `len` positions of heads of
/// `head_dim` elements.
pub open spec fn turns(r: RotaryView, len: int, head_dim: usize) -> bool {
    &&& tidy_view(r.cos)
    &&& tidy_view(r.sin)
    &&& r.cos.dims == r.sin.dims
    &&& r.cos.dims.len() == 2
    &&& r.cos.dims[1] * 2 == head_dim
    &&& len <= r.cos.dims[0]
}

/// Rotating heads that are sure to come out is sure to succeed, where there are
/// angles for their positions.
pub proof fn rotations_are_sure(r: RotaryView, x: Run, offset: usize, len: usize)
    requires
        tidy(x),
        x.dims().len() == 4,
        x.dims()[2] == len,
        turns(r, offset + len, x.dims()[3]),
        rotate(r, x, offset, len).sound,
    ensures
        tidy(rotate(r, x, offset, len)),
        rotate(r, x, offset, len).dims() == x.dims(),
{
    lemma_narrowed_rows(r.cos, offset, len);
    lemma_narrowed_rows(r.sin, offset, len);
    lemma_fresh(rotate(r, x, offset, len));
}

/// Rows of a matrix are stored row by row where the matrix is.
proof fn lemma_narrowed_rows(x: TensorView, start: usize, len: usize)
    requires
        in_rows(x),
        x.dims.len() == 2,
        len <= x.dims[0],
    ensures
        in_rows(view::narrowed(x, 0, start, len)),
{
    let y = view::narrowed(x, 0, start, len);
    lemma_stride(x.dims, 0);
    lemma_stride(x.dims, 1);
    lemma_stride(y.dims, 0);
    lemma_stride(y.dims, 1);
    assert(x.dims[0] > 1 ==> x.strides[0] == row_major_stride(x.dims, 0));
    assert(x.dims[1] > 1 ==> x.strides[1] == row_major_stride(x.dims, 1));
}

/// Kept keys or values, on the cpu, of `offset` positions before those of `x`.
pub open spec fn precedes(kept: TensorView, x: Run, offset: usize) -> bool {
    tidy_view(kept) && kept.dims == x.dims().update(2, offset)
}

/// The kept keys and values go before those of a call, or the sequence starts
/// afresh.
pub open spec fn continues(kept: Kept, k: Run, v: Run, offset: usize) -> bool {
    offset > 0 ==> match kept {
        Some((kc, vc)) => precedes(kc, k, offset) && precedes(vc, v, offset),
        None => false,
    }
}

/// Keys and values that are sure to come out are sure to be put behind the kept
/// ones.
pub proof fn kept_are_sure(kept: Kept, k: Run, v: Run, offset: usize)
    requires
        tidy(k),
        tidy(v),
        k.dims().len() == 4,
        v.dims().len() == 4,
        continues(kept, k, v, offset),
        appended(kept, k, v, offset).0.sound,
        appended(kept, k, v, offset).1.sound,
    ensures
        tidy(appended(kept, k, v, offset).0),
        tidy(appended(kept, k, v, offset).1),
        appended(kept, k, v, offset).0.dims() == k.dims().update(
            2,
            (offset + k.dims()[2]) as usize,
        ),
        appended(kept, k, v, offset).1.dims() == v.dims().update(
            2,
            (offset + v.dims()[2]) as usize,
        ),
{
    if offset > 0 {
        if let Some((kc, vc)) = kept {
            lemma_tidy_joined(kc, k, offset);
            lemma_tidy_joined(vc, v, offset);
        }
    } else {
        assert(k.dims() =~= k.dims().update(2, k.dims()[2]));
        assert(v.dims() =~= v.dims().update(2, v.dims()[2]));
    }
}

proof fn lemma_tidy_joined(kept: TensorView, x: Run, offset: usize)
    requires
        tidy(x),
        x.dims().len() == 4,
        precedes(kept, x, offset),
        joined(given(kept), x, 2).sound,
    ensures
        tidy(joined(given(kept), x, 2)),
        joined(given(kept), x, 2).dims() == x.dims().update(2, (offset + x.dims()[2]) as usize),
{
    let parts = seq![kept, x.view];
    reveal_with_fuel(slices_along, 3);
    assert(parts.drop_last() =~= seq![kept]);
    assert(seq![kept].drop_last() =~= Seq::<TensorView>::empty());
    assert(slices_along(parts, 2) == offset + x.dims()[2]);
    let y = joined(given(kept), x, 2);
    assert(y.dims() =~= x.dims().update(2, (offset + x.dims()[2]) as usize));
    assert(kept.dims.update(2, 0) =~= x.dims().update(2, 0));
    assert(cat_sure(parts, 2)) by {
        assert(parts[0] == kept && parts[1] == x.view);
    }
    assert(y.dims()[0] == x.dims()[0] && y.dims()[1] == x.dims()[1] && y.dims()[3] == x.dims()[3]);
    lemma_fresh(y);
}

/// A mask, on the cpu, for `len` positions that see at most `width`.
pub open spec fn covers(mask: Option<TensorView>, len: usize, width: usize) -> bool {
    mask is Some ==> single_on_cpu(mask->0) && mask->0.dims == seq![1, 1, len, width]
}

/// Adding a mask to scores that are sure to come out is sure to succeed.
pub proof fn masks_are_sure(s: Run, mask: Option<TensorView>)
    requires
        tidy(s),
        s.dims().len() == 4,
        covers(mask, s.dims()[2], s.dims()[3]),
    ensures
        tidy(masked_scores(s, mask)),
        masked_scores(s, mask).dims() == s.dims(),
{
    if let Some(m) = mask {
        let y = masked_scores(s, mask);
        assert(broadcast_dims(s.dims(), m.dims) =~= s.dims());
        assert(broadcast_sure(s.view, view::converted(m, s.dtype()))) by {
            assert(m.dims[0] == 1 && m.dims[1] == 1 && m.dims[2] == s.dims()[2] && m.dims[3]
                == s.dims()[3]);
        }
        lemma_nonempty_count(s.dims());
        lemma_fresh(y);
    }
}

/// The dims of the last position of a residual.
pub proof fn lemma_last_dims(xs: Run, len: usize)
    requires
        xs.dims().len() == 3,
    ensures
        last_position(xs, len).dims() == seq![xs.dims()[0], xs.dims()[2]],
{
    let cut = narrowed(xs, 1, (len - 1) as usize, 1);
    assert(cut.dims()[1] == 1);
    assert(squeezed(cut, 1).dims() =~= seq![xs.dims()[0], xs.dims()[2]]);
}

/// Taking the last position of a residual that is sure to come out is sure to
/// succeed. With a single sequence, or a single position, what is taken is stored
/// row by row.
pub proof fn last_positions_are_sure(xs: Run, len: usize)
    requires
        tidy(xs),
        xs.dims().len() == 3,
        xs.dims()[1] == len,
        xs.dims()[0] == 1 || len == 1,
        fits(seq![xs.dims()[0], xs.dims()[2]]),
    ensures
        tidy(last_position(xs, len)),
        last_position(xs, len).dims() == seq![xs.dims()[0], xs.dims()[2]],
{
    let cut = narrowed(xs, 1, (len - 1) as usize, 1);
    let last = squeezed(cut, 1);
    assert(cut.dims()[1] == 1);
    assert(last.dims() =~= seq![xs.dims()[0], xs.dims()[2]]);
    lemma_stride(xs.dims(), 0);
    lemma_stride(xs.dims(), 1);
    lemma_stride(xs.dims(), 2);
    lemma_stride(last.dims(), 0);
    lemma_stride(last.dims(), 1);
    assert(last.view.strides[0] == xs.view.strides[0]);
    assert(last.view.strides[1] == xs.view.strides[2]);
    assert(xs.dims()[0] > 1 ==> xs.view.strides[0] == row_major_stride(xs.dims(), 0));
    assert(xs.dims()[2] > 1 ==> xs.view.strides[2] == row_major_stride(xs.dims(), 2));
}

} // verus!
