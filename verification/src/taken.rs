//! Runs whose steps are all taken: where the dims agree, the products of dims are
//! `usize` values, and the tensors are in the same place.

use crate::attention::{appended, lemma_joined_dim, masked_scores, rotate, Kept};
use crate::dtype::float_type;
use crate::formula::readings;
use crate::mask::additive_mask;
use crate::mlp::{activated, fed, MlpView};
use crate::nn::{normed, repeat_heads, rotary_sound, through, NormView, RotaryView};
use crate::shape::{fits, lemma_matrix_count, nonzero_product};
use crate::tensor::raw::{qtensor_dims, qtensor_kind, qtensor_place};
use crate::tensor::run::{
    broadcast, converted, counted, embedded, given, in_pairs, joinable, joined, mapped, multiplied,
    narrowed, paired, reshaped, stored, transposed, Run,
};
use crate::tensor::sure::lemma_slices_of_copies;
use crate::tensor::view;
use crate::tensor::view::{broadcast_dims, slices_along, Op, Place, TensorView};
use candle_core::quantized::QTensor;
use candle_core::scalar::Scalar;
use candle_core::DType;
use vstd::prelude::*;

verus! {

/// A dim, or 1 where it is 0.
pub open spec fn at_least_one(d: int) -> int {
    if d == 0 {
        1
    } else {
        d
    }
}

/// A product grows with its factors.
pub proof fn lemma_product_bound(a: int, b: int, c: int, d: int)
    requires
        0 <= a <= c,
        0 <= b <= d,
    ensures
        0 <= a * b <= c * d,
{
    assert(0 <= a * b <= c * d) by (nonlinear_arith)
        requires
            0 <= a <= c,
            0 <= b <= d,
    ;
}

/// The product of up to four dims that are not 0.
pub proof fn lemma_nonzero_products(a: usize, b: usize, c: usize, d: usize)
    ensures
        nonzero_product(seq![a]) == at_least_one(a as int),
        nonzero_product(seq![a, b]) == at_least_one(a as int) * at_least_one(b as int),
        nonzero_product(seq![a, b, c]) == at_least_one(a as int) * at_least_one(b as int)
            * at_least_one(c as int),
        nonzero_product(seq![a, b, c, d]) == at_least_one(a as int) * at_least_one(b as int)
            * at_least_one(c as int) * at_least_one(d as int),
{
    reveal_with_fuel(nonzero_product, 5);
    assert(seq![a].drop_last() =~= Seq::<usize>::empty());
    assert(seq![a, b].drop_last() =~= seq![a]);
    assert(seq![a, b, c].drop_last() =~= seq![a, b]);
    assert(seq![a, b, c, d].drop_last() =~= seq![a, b, c]);
}

/// Dims below those of which the product is a `usize` fit, with the two in the middle
/// in either order, and with the last ones multiplied.
pub proof fn lemma_below(
    a: usize,
    b: usize,
    c: usize,
    d: usize,
    to_a: int,
    to_b: int,
    to_c: int,
    to_d: int,
)
    requires
        a <= to_a,
        b <= to_b,
        c <= to_c,
        d <= to_d,
        1 <= to_a,
        1 <= to_b,
        1 <= to_c,
        1 <= to_d,
        to_a * to_b * to_c * to_d <= usize::MAX,
    ensures
        fits(seq![a, b, c, d]),
        fits(seq![a, c, b, d]),
        b * d <= usize::MAX,
        fits(seq![a, c, (b * d) as usize]),
        fits(seq![c, d]),
        c * b <= usize::MAX,
{
    let (x, y, z, w) = (
        at_least_one(a as int),
        at_least_one(b as int),
        at_least_one(c as int),
        at_least_one(d as int),
    );
    lemma_nonzero_products(a, b, c, d);
    lemma_nonzero_products(a, c, b, d);
    lemma_product_bound(x, y, to_a, to_b);
    lemma_product_bound(x * y, z, to_a * to_b, to_c);
    lemma_product_bound(x * y * z, w, to_a * to_b * to_c, to_d);
    assert(x * z * y * w == x * y * z * w) by (nonlinear_arith);
    assert(y * w <= x * y * z * w && z * w <= x * y * z * w && z * y <= x * y * z * w && b * d
        <= y * w && c * b <= z * y) by (nonlinear_arith)
        requires
            x >= 1,
            y >= 1,
            z >= 1,
            w >= 1,
            0 <= b <= y,
            0 <= d <= w,
            0 <= c <= z,
    ;
    let bd = (b * d) as usize;
    lemma_nonzero_products(a, c, bd, 0);
    lemma_nonzero_products(c, d, 0, 0);
    assert(at_least_one(b * d) <= y * w) by (nonlinear_arith)
        requires
            b * d <= y * w,
            y >= 1,
            w >= 1,
    ;
    lemma_product_bound(x * z, at_least_one(b * d), x * z, y * w);
    assert((x * z) * (y * w) == x * y * z * w) by (nonlinear_arith);
}

/// A quantised matrix of `rows` rows for tensors of `columns` columns, in a place, whose
/// rows can be read there.
pub open spec fn takes_rows(
    q: QTensor,
    place: Place,
    dtype: DType,
    columns: usize,
    rows: usize,
) -> bool {
    &&& qtensor_dims(q) == seq![rows, columns]
    &&& rows > 0
    &&& fits(seq![rows, columns])
    &&& qtensor_place(q) == place
    &&& place == Place::Cpu && in_pairs(qtensor_kind(q)) ==> columns % 64 == 0
    &&& place == Place::Metal ==> dtype == DType::F32
}

/// A projection of a tensor that comes out is taken, where there is a matrix for it.
pub proof fn projections_are_taken(x: Run, q: QTensor, rows: usize)
    requires
        x.sound,
        x.dims().len() >= 2,
        fits(x.dims()),
        takes_rows(q, x.place(), x.dtype(), x.dims().last(), rows),
        fits(x.dims().update(x.dims().len() - 1, rows)),
    ensures
        through(x, q).sound,
        through(x, q).dims() == x.dims().update(x.dims().len() - 1, rows),
{
}

/// A normalisation of a tensor that comes out is taken.
pub proof fn norms_are_taken(x: Run, norm: NormView)
    requires
        x.sound,
        x.dims().len() > 0,
        fits(x.dims()),
        x.dims().last() != 0,
        fits(norm.weight.dims),
    ensures
        normed(x, norm).sound,
        normed(x, norm).dims() == x.dims(),
{
}

/// Tables of angles that can be taken for positions of heads of `rope` dims.
pub open spec fn tables_fit(r: RotaryView, rope: usize) -> bool {
    &&& r.cos.dims.len() == 2
    &&& r.sin.dims.len() == 2
    &&& r.cos.dims[1] * 2 == rope
    &&& r.sin.dims[1] * 2 == rope
}

/// A rotation of heads that come out is taken.
pub proof fn rotations_are_taken(r: RotaryView, x: Run, offset: usize, len: usize)
    requires
        x.sound,
        x.dims().len() == 4,
        fits(x.dims()),
        x.dims()[2] != 0,
        x.dims()[3] != 0,
        tables_fit(r, x.dims()[3]),
        fits(seq![len, x.dims()[3]]),
    ensures
        rotate(r, x, offset, len).sound,
        rotate(r, x, offset, len).dims() == x.dims(),
{
    let half = r.cos.dims[1];
    let c = narrowed(given(r.cos), 0, offset, len);
    let s = narrowed(given(r.sin), 0, offset, len);
    assert(c.dims() =~= seq![len, half]);
    assert(s.dims() =~= seq![len, half]);
    lemma_nonzero_products(len, half, 0, 0);
    lemma_nonzero_products(len, x.dims()[3], 0, 0);
    lemma_product_bound(
        at_least_one(len as int),
        at_least_one(half as int),
        at_least_one(len as int),
        at_least_one(x.dims()[3] as int),
    );
}

/// Putting tensors one behind the other is taken, where the outcome fits.
pub proof fn joins_are_taken(x: Run, y: Run, dim: usize)
    requires
        x.sound,
        y.sound,
        fits(x.dims()),
        fits(y.dims()),
        dim < x.dims().len(),
        dim < y.dims().len(),
        x.dims()[dim as int] + y.dims()[dim as int] <= usize::MAX,
        fits(
            x.dims().update(
                dim as int,
                (x.dims()[dim as int] + y.dims()[dim as int]) as usize,
            ),
        ),
    ensures
        joined(x, y, dim).sound,
        joined(x, y, dim).dims() == x.dims().update(
            dim as int,
            (x.dims()[dim as int] + y.dims()[dim as int]) as usize,
        ),
{
    lemma_joined_dim(x.view, y.view, dim);
    let parts = seq![x.view, y.view];
    reveal_with_fuel(slices_along, 3);
    assert(parts.drop_last() =~= seq![x.view]);
    assert(seq![x.view].drop_last() =~= Seq::<TensorView>::empty());
    assert(view::catenated(parts, dim).dims =~= x.dims().update(
        dim as int,
        (x.dims()[dim as int] + y.dims()[dim as int]) as usize,
    ));
    assert(joinable(parts, dim)) by {
        assert forall|i: int| 0 <= i < parts.len() implies fits(#[trigger] parts[i].dims)
            && dim < parts[i].dims.len() by {}
    }
}

/// Sharing heads is taken, where the outcome fits.
pub proof fn shares_are_taken(x: Run, n: usize, to: int)
    requires
        x.sound,
        x.dims().len() == 4,
        n > 0,
        1 <= x.dims()[0],
        1 <= x.dims()[1],
        1 <= x.dims()[2],
        1 <= x.dims()[3] <= to,
        x.dims()[0] * (x.dims()[1] * n) * x.dims()[2] * to <= usize::MAX,
    ensures
        repeat_heads(x, n).sound,
        repeat_heads(x, n).dims() == seq![
            x.dims()[0],
            (x.dims()[1] * n) as usize,
            x.dims()[2],
            x.dims()[3],
        ],
        fits(repeat_heads(x, n).dims()),
{
    let a = x.dims()[0];
    let b = x.dims()[1];
    let c = x.dims()[2];
    let d = x.dims()[3];
    assert(x.dims() =~= seq![a, b, c, d]);
    assert(b * n >= 1 && b <= b * n && n <= b * n) by (nonlinear_arith)
        requires
            b >= 1,
            n >= 1,
    ;
    assert(b * n <= usize::MAX) by {
        lemma_product_bound(1, b * n, a as int, b * n);
        lemma_product_bound(b * n, 1, a * (b * n), c as int);
        lemma_product_bound(b * n, 1, a * (b * n) * c, to);
    }
    lemma_below(a, (b * n) as usize, c, d, a as int, b * n, c as int, to);
    lemma_below(a, b, c, d, a as int, b * n, c as int, to);
    if n != 1 {
        let parts = Seq::new(n as nat, |i: int| x.view);
        lemma_slices_of_copies(x.view, 2, n as nat);
        let cn = c * n;
        assert(n * c == cn) by (nonlinear_arith)
            requires
                cn == c * n,
        ;
        assert(a * b * cn * d == a * (b * n) * c * d) by (nonlinear_arith)
            requires
                cn == c * n,
        ;
        lemma_product_bound(a * (b * n) * c, d as int, a * (b * n) * c, to);
        assert(cn <= a * b * cn * d && cn >= 1) by (nonlinear_arith)
            requires
                cn == c * n,
                a >= 1,
                b >= 1,
                c >= 1,
                d >= 1,
                n >= 1,
        ;
        lemma_nonzero_products(a, b, cn as usize, d);
        assert(view::catenated(parts, 2).dims =~= seq![a, b, cn as usize, d]);
        assert(joinable(parts, 2)) by {
            assert forall|i: int| 0 <= i < parts.len() implies fits(#[trigger] parts[i].dims)
                && 2 < parts[i].dims.len() by {}
        }
    }
    assert(repeat_heads(x, n).dims() =~= seq![a, (b * n) as usize, c, d]);
}

/// Reading values is taken, where the scores and what is read fit.
pub proof fn readings_are_taken(
    q: Run,
    k: Run,
    v: Run,
    groups: usize,
    scale: Option<Scalar>,
    mask: Option<TensorView>,
    to: int,
)
    requires
        q.sound,
        k.sound,
        v.sound,
        q.dims().len() == 4,
        k.dims().len() == 4,
        v.dims() == k.dims(),
        q.dims()[0] == k.dims()[0],
        q.dims()[1] == k.dims()[1] * groups,
        q.dims()[3] == k.dims()[3],
        groups > 0,
        1 <= q.dims()[0],
        1 <= k.dims()[1],
        1 <= q.dims()[2] <= k.dims()[2],
        1 <= q.dims()[3] <= to,
        k.dims()[2] <= to,
        q.dims()[0] * q.dims()[1] * k.dims()[2] * to <= usize::MAX,
        float_type(q.dtype()),
        mask is Some ==> mask->0.dims == seq![1, 1, q.dims()[2], k.dims()[2]],
    ensures
        readings(q, k, v, groups, scale, mask).sound,
        readings(q, k, v, groups, scale, mask).dims() == q.dims(),
        readings(q, k, v, groups, scale, mask).dtype() == q.dtype(),
        fits(q.dims()),
{
    let a = q.dims()[0];
    let h = q.dims()[1];
    let l = q.dims()[2];
    let d = q.dims()[3];
    let t = k.dims()[2];
    assert(h >= 1) by (nonlinear_arith)
        requires
            h == k.dims()[1] * groups,
            1 <= k.dims()[1],
            groups >= 1,
    ;
    shares_are_taken(k, groups, to);
    shares_are_taken(v, groups, to);
    let keys = stored(repeat_heads(k, groups));
    let values = stored(repeat_heads(v, groups));
    let kt = transposed(keys, 2, 3);
    assert(kt.dims() =~= seq![a, h, d, t]);
    lemma_below(a, h, l, d, a as int, h as int, t as int, to);
    lemma_below(a, h, l, t, a as int, h as int, t as int, to);
    lemma_below(a, h, t, d, a as int, h as int, t as int, to);
    assert(fits(seq![a, h, d, t])) by {
        lemma_nonzero_products(a, h, d, t);
        lemma_nonzero_products(a, h, t, d);
        assert(a * h * d * t == a * h * t * d) by (nonlinear_arith);
    }
    assert(q.dims() =~= seq![a, h, l, d]);
    let s = multiplied(q, kt);
    assert(s.dims() =~= seq![a, h, l, t]);
    if let Some(m) = mask {
        let c = converted(given(m), q.dtype());
        assert(broadcast_dims(s.dims(), m.dims) =~= s.dims());
        lemma_below(1, 1, l, t, a as int, h as int, t as int, to);
        let sc = match scale {
            Some(x) => mapped(Op::MulScalar(x), s),
            None => s,
        };
        assert(broadcast(Op::BroadcastAdd, sc, c).sound);
        assert(masked_scores(sc, mask).dims() =~= s.dims());
    }
    let y = readings(q, k, v, groups, scale, mask);
    assert(y.dims() =~= q.dims());
}

/// Keys and values of a call, behind the kept ones, are taken, where they fit.
pub proof fn kept_are_taken(kept: Kept, k: Run, v: Run, offset: usize, to: int)
    requires
        k.sound,
        v.sound,
        k.dims().len() == 4,
        v.dims() == k.dims(),
        1 <= k.dims()[0],
        1 <= k.dims()[1],
        1 <= k.dims()[2],
        1 <= k.dims()[3] <= to,
        offset + k.dims()[2] <= usize::MAX,
        k.dims()[0] * k.dims()[1] * (offset + k.dims()[2]) * to <= usize::MAX,
        offset > 0 ==> kept is Some && ({
            let (kc, vc) = kept->0;
            &&& kc.dims == k.dims().update(2, offset)
            &&& vc.dims == v.dims().update(2, offset)
        }),
    ensures
        ({
            let (keys, values) = appended(kept, k, v, offset);
            let dims = k.dims().update(2, (offset + k.dims()[2]) as usize);
            &&& keys.sound && values.sound
            &&& keys.dims() == dims && values.dims() == dims
        }),
{
    let a = k.dims()[0];
    let g = k.dims()[1];
    let l = k.dims()[2];
    let d = k.dims()[3];
    let t = (offset + l) as usize;
    lemma_below(a, g, l, d, a as int, g as int, t as int, to);
    lemma_below(a, g, t, d, a as int, g as int, t as int, to);
    lemma_below(a, g, offset, d, a as int, g as int, t as int, to);
    assert(k.dims() =~= seq![a, g, l, d]);
    if offset > 0 {
        let (kc, vc) = kept->0;
        assert(kc.dims =~= seq![a, g, offset, d]);
        assert(vc.dims =~= seq![a, g, offset, d]);
        assert(kc.dims.update(2, (offset + l) as usize) =~= seq![a, g, t, d]);
        joins_are_taken(given(kc), k, 2);
        joins_are_taken(given(vc), v, 2);
    }
    let (keys, values) = appended(kept, k, v, offset);
    assert(keys.dims() =~= k.dims().update(2, t));
    assert(values.dims() =~= k.dims().update(2, t));
}

/// The matrices of a feedforward can be taken for rows of `hidden` numbers.
pub open spec fn feedforward_takes(
    w: MlpView,
    place: Place,
    dtype: DType,
    hidden: usize,
    inner: usize,
) -> bool {
    &&& takes_rows(w.gate, place, dtype, hidden, inner)
    &&& takes_rows(w.up, place, dtype, hidden, inner)
    &&& takes_rows(w.down, place, dtype, inner, hidden)
    &&& float_type(dtype)
}

/// A feedforward of a residual that comes out is taken.
pub proof fn feedforwards_are_taken(w: MlpView, x: Run, inner: usize)
    requires
        x.sound,
        x.dims().len() == 3,
        fits(x.dims()),
        feedforward_takes(w, x.place(), x.dtype(), x.dims()[2], inner),
        fits(seq![x.dims()[0], x.dims()[1], inner]),
    ensures
        fed(w, x).sound,
        fed(w, x).dims() == x.dims(),
{
    let dims = seq![x.dims()[0], x.dims()[1], inner];
    assert(x.dims().update(2, inner) =~= dims);
    projections_are_taken(x, w.gate, inner);
    projections_are_taken(x, w.up, inner);
    let y = paired(Op::Mul, activated(through(x, w.gate), w.act), through(x, w.up));
    assert(y.dims() =~= dims);
    assert(dims.update(2, x.dims()[2]) =~= x.dims());
    projections_are_taken(y, w.down, x.dims()[2]);
    assert(fed(w, x).dims() =~= x.dims());
}

/// A mask of positions that fit is taken.
pub proof fn masks_are_taken(
    seq_len: usize,
    offset: usize,
    window: Option<usize>,
    place: Place,
)
    requires
        seq_len + offset <= usize::MAX,
        fits(seq![seq_len, (seq_len + offset) as usize]),
    ensures
        additive_mask(seq_len, offset, window, place).sound,
        additive_mask(seq_len, offset, window, place).dims() == seq![
            1,
            1,
            seq_len,
            (seq_len + offset) as usize,
        ],
        converted(additive_mask(seq_len, offset, window, place), DType::F32).sound,
{
    let w = (seq_len + offset) as usize;
    lemma_nonzero_products(1, 1, seq_len, w);
    lemma_nonzero_products(seq_len, w, 0, 0);
    let m = at_least_one(seq_len as int);
    let n = at_least_one(w as int);
    assert(at_least_one(1) * at_least_one(1) * m * n == m * n) by (nonlinear_arith)
        requires
            at_least_one(1) == 1,
    ;
    let y = additive_mask(seq_len, offset, window, place);
    assert(y.dims() =~= seq![1, 1, seq_len, w]);
}

/// The embeddings of tokens are taken, where they fit.
pub proof fn embeddings_are_taken(table: TensorView, input: TensorView)
    requires
        table.dims.len() == 2,
        fits(table.dims),
        input.dims.len() == 2,
        1 <= input.dims[0],
        1 <= input.dims[1],
        1 <= table.dims[1],
        input.dims[0] * input.dims[1] * table.dims[1] <= usize::MAX,
    ensures
        embedded(given(table), given(input), table.dims[1]).sound,
        embedded(given(table), given(input), table.dims[1]).dims() == seq![
            input.dims[0],
            input.dims[1],
            table.dims[1],
        ],
        fits(seq![input.dims[0], input.dims[1], table.dims[1]]),
{
    let b = input.dims[0];
    let l = input.dims[1];
    let d = table.dims[1];
    assert(input.dims =~= seq![b, l]);
    lemma_matrix_count(b, l);
    assert(1 <= b * l <= b * l * d) by (nonlinear_arith)
        requires
            b >= 1,
            l >= 1,
            d >= 1,
    ;
    let n = (b * l) as usize;
    lemma_nonzero_products(b, l, d, 0);
    lemma_nonzero_products(n, d, 0, 0);
    assert(table.dims.update(0, n) =~= seq![n, d]);
    assert(input.dims.push(d) =~= seq![b, l, d]);
}

/// The tables of angles are taken, where they fit.
pub proof fn tables_are_taken(inv_freq: TensorView, dtype: DType, positions: u32, place: Place)
    requires
        inv_freq.dims.len() == 2,
        inv_freq.dims[0] == 1,
        1 <= inv_freq.dims[1],
        1 <= positions,
        positions * inv_freq.dims[1] <= usize::MAX,
    ensures
        rotary_sound(inv_freq, dtype, positions, place),
{
    let n = positions as usize;
    let d = inv_freq.dims[1];
    lemma_nonzero_products(n, 1, 0, 0);
    lemma_nonzero_products(1, d, 0, 0);
    lemma_nonzero_products(n, d, 0, 0);
    assert(inv_freq.dims =~= seq![1, d]);
    let t = reshaped(converted(counted(positions, place), DType::F32), seq![n, 1]);
    assert(counted(positions, place).dims() =~= seq![n]);
    let a = multiplied(t, stored(given(inv_freq)));
    assert(a.dims() =~= seq![n, d]);
    assert(at_least_one(1) * at_least_one(d as int) == d && at_least_one(n as int) * at_least_one(
        d as int,
    ) == positions * d && at_least_one(n as int) * at_least_one(1) == n) by (nonlinear_arith)
        requires
            at_least_one(1) == 1,
            at_least_one(d as int) == d,
            at_least_one(n as int) == positions,
            n == positions,
    ;
    assert(d <= positions * d) by (nonlinear_arith)
        requires
            positions >= 1,
            d >= 1,
    ;
    assert(t.sound);
    assert(stored(given(inv_freq)).sound);
    assert(a.sound);
}

} // verus!
