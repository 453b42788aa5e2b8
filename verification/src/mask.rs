//! Which earlier positions a position sees.

use crate::error::ModelError;
use crate::shape::{fits_usize, lemma_matrix_count};
use crate::tensor::ops;
use crate::tensor::raw::device_place;
use crate::tensor::run::{bytes, converted, ends, expanded, mapped, only_if, Run};
use crate::tensor::view::{Op, Place};
use candle_core::{DType, Device, Tensor};
use vstd::prelude::*;

verus! {

/// Position `i` of a sequence does not see position `j`: it comes later, or it
/// is a window or more away.
pub open spec fn masked(i: int, j: int, window: Option<usize>) -> bool {
    j > i || match window {
        Some(w) => i >= j + w,
        None => false,
    }
}

/// 0 where a position is not seen, 1 where it is.
pub open spec fn keep(i: int, j: int, window: Option<usize>) -> u8 {
    if masked(i, j, window) {
        0
    } else {
        1
    }
}

/// What position `i` sees of the first `width` positions.
pub open spec fn keep_row(i: int, width: nat, window: Option<usize>) -> Seq<u8> {
    Seq::new(width, |j: int| keep(i, j, window))
}

/// What `rows` positions from `offset` on see of the first `width` positions,
/// one row for each.
pub open spec fn keep_rows(offset: nat, rows: nat, width: nat, window: Option<usize>) -> Seq<u8>
    decreases rows,
{
    if rows == 0 {
        Seq::empty()
    } else {
        keep_rows(offset, (rows - 1) as nat, width, window) + keep_row(
            offset + rows - 1,
            width,
            window,
        )
    }
}

/// The additive mask of `seq_len` positions from `offset` on, over them and all
/// positions before them: 0, the logarithm of 1, for what is seen, and minus
/// infinity, the logarithm of 0, for what is not.
pub open spec fn additive_mask(
    seq_len: usize,
    offset: usize,
    window: Option<usize>,
    place: Place,
) -> Run {
    let width = (seq_len + offset) as usize;
    let kept = bytes(
        keep_rows(offset as nat, seq_len as nat, width as nat, window),
        seq![seq_len, width],
        place,
    );
    let mask = mapped(Op::Log, converted(kept, DType::F32));
    expanded(
        only_if(mask, seq_len + offset <= usize::MAX),
        seq![1, 1, seq_len, width],
    )
}

/// What each of `seq_len` positions from `offset` on sees of them and of the
/// positions before them, row by row.
pub fn keep_mask(seq_len: usize, offset: usize, window: Option<usize>) -> (r: Vec<u8>)
    requires
        seq_len + offset <= usize::MAX,
    ensures
        r@ == keep_rows(offset as nat, seq_len as nat, (seq_len + offset) as nat, window),
{
    let width = seq_len + offset;
    let mut out: Vec<u8> = Vec::new();
    let mut i: usize = 0;
    while i < seq_len
        invariant
            i <= seq_len,
            width == seq_len + offset,
            out@ == keep_rows(offset as nat, i as nat, width as nat, window),
        decreases seq_len - i,
    {
        let at = offset + i;
        let ghost rows = out@;
        let ghost row = keep_row(at as int, width as nat, window);
        let mut j: usize = 0;
        assert(row.take(0) =~= Seq::<u8>::empty());
        while j < width
            invariant
                j <= width,
                row == keep_row(at as int, width as nat, window),
                out@ == rows + row.take(j as int),
            decreases width - j,
        {
            let beyond = match window {
                Some(w) => at >= w && at - w >= j,
                None => false,
            };
            let seen: u8 = if j > at || beyond {
                0
            } else {
                1
            };
            out.push(seen);
            j = j + 1;
            assert(out@ =~= rows + row.take(j as int));
        }
        assert(row.take(width as int) =~= row);
        i = i + 1;
    }
    out
}

/// The additive mask in single precision.
pub fn causal_mask(seq_len: usize, offset: usize, window: Option<usize>, device: &Device) -> (r:
    Result<Tensor, ModelError>)
    ensures
        ends(r, additive_mask(seq_len, offset, window, device_place(*device))),
        device_place(*device) == Place::Cpu && additive_mask(
            seq_len,
            offset,
            window,
            Place::Cpu,
        ).sound ==> r is Ok,
{
    let width = match seq_len.checked_add(offset) {
        Some(w) => w,
        None => return Err(ModelError::TooLarge),
    };
    if !fits_usize(&vec![seq_len, width]) {
        return Err(ModelError::TooLarge);
    }
    proof {
        lemma_rows_len(offset as nat, seq_len as nat, width as nat, window);
        lemma_matrix_count(seq_len, width);
    }
    let kept = ops::from_bytes2(&keep_mask(seq_len, offset, window), seq_len, width, device)?;
    let mask = ops::log(&ops::to_dtype(&kept, DType::F32)?)?;
    let dims = vec![1, 1, seq_len, width];
    assert(dims@ =~= seq![1, 1, seq_len, width]);
    assert(seq![seq_len, width].is_suffix_of(dims@)) by {
        assert(dims@.subrange(2, 4) =~= seq![seq_len, width]);
    }
    ops::expand(&mask, dims)
}

/// On the cpu a mask is sure to be made.
pub proof fn masks_are_sure_on_cpu(seq_len: usize, offset: usize, window: Option<usize>)
    requires
        additive_mask(seq_len, offset, window, Place::Cpu).sound,
    ensures
        additive_mask(seq_len, offset, window, Place::Cpu).certain(),
        converted(additive_mask(seq_len, offset, window, Place::Cpu), DType::F32).sure,
{
    let width = (seq_len + offset) as usize;
    lemma_rows_len(offset as nat, seq_len as nat, width as nat, window);
    lemma_matrix_count(seq_len, width);
    let dims = seq![1, 1, seq_len, width];
    assert(seq![seq_len, width].is_suffix_of(dims)) by {
        assert(dims.subrange(2, 4) =~= seq![seq_len, width]);
    }
}

/// The byte for a position and one that it may see: whether it sees it.
pub proof fn keep_at(offset: nat, rows: nat, width: nat, window: Option<usize>, i: int, j: int)
    requires
        0 <= i < rows,
        0 <= j < width,
    ensures
        keep_rows(offset, rows, width, window).len() == rows * width,
        0 <= i * width + j < rows * width,
        keep_rows(offset, rows, width, window)[i * width + j] == keep(offset + i, j, window),
    decreases rows,
{
    lemma_rows_len(offset, rows, width, window);
    lemma_rows_len(offset, (rows - 1) as nat, width, window);
    assert(0 <= i * width + j < rows * width && i * width <= (rows - 1) * width)
        by (nonlinear_arith)
        requires
            0 <= i < rows,
            0 <= j < width,
    ;
    if i < rows - 1 {
        keep_at(offset, (rows - 1) as nat, width, window, i, j);
        assert(i * width + j < (rows - 1) * width) by (nonlinear_arith)
            requires
                0 <= i < rows - 1,
                0 <= j < width,
        ;
    }
}

proof fn lemma_rows_len(offset: nat, rows: nat, width: nat, window: Option<usize>)
    ensures
        keep_rows(offset, rows, width, window).len() == rows * width,
    decreases rows,
{
    if rows > 0 {
        lemma_rows_len(offset, (rows - 1) as nat, width, window);
        assert((rows - 1) * width + width == rows * width) by (nonlinear_arith)
            requires
                rows > 0,
        ;
    } else {
        assert(0 * width == 0) by (nonlinear_arith);
    }
}

/// What a window lets a position see is seen without one too.
pub proof fn window_only_hides(i: int, j: int, window: usize)
    ensures
        masked(i, j, None) ==> masked(i, j, Some(window)),
        keep(i, j, Some(window)) <= keep(i, j, None),
{
}

/// A window as long as the sequence, with what comes before it, hides nothing.
pub proof fn long_window_is_causal(offset: nat, rows: nat, width: nat, window: usize)
    requires
        offset + rows <= window,
    ensures
        keep_rows(offset, rows, width, Some(window)) == keep_rows(offset, rows, width, None),
    decreases rows,
{
    if rows > 0 {
        long_window_is_causal(offset, (rows - 1) as nat, width, window);
        assert(keep_row(offset + rows - 1, width, Some(window)) =~= keep_row(
            offset + rows - 1,
            width,
            None,
        ));
    }
}

/// A position sees itself, under any window but an empty one, and exactly the
/// `window` positions that end with it.
pub proof fn window_length(i: int, j: int, window: usize)
    requires
        window > 0,
    ensures
        !masked(i, i, Some(window)),
        !masked(i, i, None),
        !masked(i, j, Some(window)) <==> i - window < j <= i,
{
}

/// A sequence fed in pieces sees what it sees fed as a whole: the rows of a
/// piece are the rows of the whole for its positions.
pub proof fn pieces_see_the_same(
    offset: nat,
    first: nat,
    rest: nat,
    width: nat,
    window: Option<usize>,
)
    ensures
        keep_rows(offset, first + rest, width, window) == keep_rows(offset, first, width, window)
            + keep_rows(offset + first, rest, width, window),
    decreases rest,
{
    let whole = keep_rows(offset, first + rest, width, window);
    let head = keep_rows(offset, first, width, window);
    if rest == 0 {
        assert(whole =~= head + keep_rows(offset + first, 0, width, window));
    } else {
        pieces_see_the_same(offset, first, (rest - 1) as nat, width, window);
        let row = keep_row(offset + first + rest - 1, width, window);
        let tail = keep_rows(offset + first, (rest - 1) as nat, width, window);
        assert((head + tail) + row =~= head + (tail + row));
    }
}

} // verus!
