//! What the layers compute, number by number.

use crate::attention::{appended, heads, last_position, masked_scores, rotate, Kept};
use crate::mask::{additive_mask, keep_at, keep_rows};
use crate::mlp::{activated, fed, Gate, MlpView};
use crate::nn::{
    norm_of, normed, repeat_heads, rotary_of, through, unscaled_norm, NormView, RotaryView,
};
use crate::tensor::element::{
    cast, element, element_added, element_broadcast, element_bytes, element_converted,
    element_counted, element_dequantized, element_embedded, element_expanded, element_joined,
    element_mapped, element_multiplied, element_narrowed, element_normed, element_product,
    element_projected, element_reduced, element_repeated, element_reshaped, element_rotated,
    element_softmax, element_squeezed, element_stored, element_transposed, laid_over, lemma_nth1,
    lemma_nth2, lemma_nth3, lemma_nth4, minus, one, over, plus, row, swapped, times, valid, weights,
    Num,
};
use crate::tensor::raw::{qtensor_dims, qtensor_place};
use crate::tensor::run::{
    broadcast, bytes, converted, counted, dequantized, embedded, given, joined, mapped, multiplied,
    narrowed, paired, reduced, repeated, reshaped, stored, transposed, Run,
};
use crate::tensor::sure::lemma_slices_of_copies;
use crate::tensor::view::{broadcast_dims, Op, Place, TensorView};
use candle_core::quantized::QTensor;
use candle_core::scalar::Scalar;
use candle_core::DType;
use vstd::prelude::*;

verus! {

/// Row `l` of sequence `b`.
pub open spec fn row3(x: Run, b: int, l: int) -> Seq<Num> {
    Seq::new(x.dims()[2] as nat, |j: int| x.at3(b, l, j))
}

/// The rows of sequence `b`.
pub open spec fn rows3(x: Run, b: int) -> Seq<Seq<Num>> {
    Seq::new(x.dims()[1] as nat, |l: int| row3(x, b, l))
}

/// Row `t` of a matrix.
pub open spec fn row2(x: Run, t: int) -> Seq<Num> {
    Seq::new(x.dims()[1] as nat, |j: int| x.at2(t, j))
}

/// The rows of a matrix.
pub open spec fn rows2(x: Run) -> Seq<Seq<Num>> {
    Seq::new(x.dims()[0] as nat, |t: int| row2(x, t))
}

/// The numbers of head `h` of sequence `b` at position `l`.
pub open spec fn row4(x: Run, b: int, h: int, l: int) -> Seq<Num> {
    Seq::new(x.dims()[3] as nat, |j: int| x.at4(b, h, l, j))
}

/// The product of a row with row `o` of a quantised matrix.
pub open spec fn against(q: QTensor, o: int, r: Seq<Num>) -> Num {
    Num::Dot(r, weights(q, o, r.len()))
}

/// The products of a row with each of `n` rows of a quantised matrix.
pub open spec fn projection(q: QTensor, n: nat, r: Seq<Num>) -> Seq<Num> {
    Seq::new(n, |o: int| against(q, o, r))
}

/// A row over the root of its mean square, times the weights.
pub open spec fn scaled(norm: NormView, r: Seq<Num>) -> Seq<Num> {
    Seq::new(
        r.len(),
        |j: int| Num::Normed(norm.eps, r, j, Box::new(element(norm.weight, seq![j]))),
    )
}

/// The same with the weights that a quantised tensor holds.
pub open spec fn scaled_by(q: QTensor, eps: Scalar, r: Seq<Num>) -> Seq<Num> {
    Seq::new(r.len(), |j: int| Num::Normed(eps, r, j, Box::new(Num::Weight(q, seq![j]))))
}

/// The sums of the numbers of two rows.
pub open spec fn sums(a: Seq<Num>, b: Seq<Num>) -> Seq<Num> {
    Seq::new(a.len(), |j: int| plus(a[j], b[j]))
}

/// The activation of a number.
pub open spec fn act(gate: Gate, a: Num) -> Num {
    match gate {
        Gate::Gelu => one(Op::Gelu, a),
        Gate::Silu => one(Op::Silu, a),
    }
}

/// A gated feedforward of a row: the projection by `down` of the products of the
/// activated projection by `gate` and the projection by `up`.
pub open spec fn feedforward(
    gate: QTensor,
    up: QTensor,
    down: QTensor,
    g: Gate,
    inner: nat,
    n: nat,
    r: Seq<Num>,
) -> Seq<Num> {
    projection(
        down,
        n,
        Seq::new(inner, |j: int| times(act(g, against(gate, j, r)), against(up, j, r))),
    )
}

/// A row over the root of its mean square, in single precision and back.
pub open spec fn unscaled(r: Seq<Num>, dtype: DType, eps: Scalar) -> Seq<Num> {
    let f = Seq::new(r.len(), |j: int| cast(r[j], dtype, DType::F32));
    let mean = Num::Mean(Seq::new(r.len(), |j: int| one(Op::Sqr, f[j])));
    let root = one(Op::Sqrt, one(Op::AddScalar(eps), mean));
    Seq::new(r.len(), |j: int| cast(over(f[j], root), DType::F32, dtype))
}

/// The row of element (t, o).
pub proof fn lemma_row2(x: Run, t: int, o: int)
    requires
        x.dims().len() == 2,
    ensures
        row(x.view, seq![t, o]) == row2(x, t),
{
    let r = row(x.view, seq![t, o]);
    assert forall|j: int| 0 <= j < r.len() implies #[trigger] r[j] == row2(x, t)[j] by {
        assert(seq![t, o].update(1, j) =~= seq![t, j]);
    }
    assert(r =~= row2(x, t));
}

/// The row of element (b, l, o).
pub proof fn lemma_row3(x: Run, b: int, l: int, o: int)
    requires
        x.dims().len() == 3,
    ensures
        row(x.view, seq![b, l, o]) == row3(x, b, l),
{
    let r = row(x.view, seq![b, l, o]);
    assert forall|j: int| 0 <= j < r.len() implies #[trigger] r[j] == row3(x, b, l)[j] by {
        assert(seq![b, l, o].update(2, j) =~= seq![b, l, j]);
    }
    assert(r =~= row3(x, b, l));
}

/// The row of element (b, h, l, o).
pub proof fn lemma_row4(x: Run, b: int, h: int, l: int, o: int)
    requires
        x.dims().len() == 4,
    ensures
        row(x.view, seq![b, h, l, o]) == row4(x, b, h, l),
{
    let r = row(x.view, seq![b, h, l, o]);
    assert forall|j: int| 0 <= j < r.len() implies #[trigger] r[j] == row4(x, b, h, l)[j] by {
        assert(seq![b, h, l, o].update(3, j) =~= seq![b, h, l, j]);
    }
    assert(r =~= row4(x, b, h, l));
}

/// A projection of a residual is the projection of each of its rows.
pub proof fn projections_by_row(x: Run, q: QTensor, b: int, l: int)
    requires
        x.dims().len() == 3,
    ensures
        row3(through(x, q), b, l) == projection(q, qtensor_dims(q)[0] as nat, row3(x, b, l)),
{
    let y = through(x, q);
    assert forall|o: int| 0 <= o < y.dims()[2] implies #[trigger] y.at3(b, l, o) == against(
        q,
        o,
        row3(x, b, l),
    ) by {
        element_projected(x.view, q, qtensor_dims(q)[0], seq![b, l, o]);
        lemma_row3(x, b, l, o);
    }
    assert(row3(y, b, l) =~= projection(q, qtensor_dims(q)[0] as nat, row3(x, b, l)));
}

/// A projection of a matrix is the projection of each of its rows.
pub proof fn matrix_projections_by_row(x: Run, q: QTensor, t: int)
    requires
        x.dims().len() == 2,
    ensures
        row2(through(x, q), t) == projection(q, qtensor_dims(q)[0] as nat, row2(x, t)),
{
    let y = through(x, q);
    assert forall|o: int| 0 <= o < y.dims()[1] implies #[trigger] y.at2(t, o) == against(
        q,
        o,
        row2(x, t),
    ) by {
        element_projected(x.view, q, qtensor_dims(q)[0], seq![t, o]);
        lemma_row2(x, t, o);
    }
    assert(row2(y, t) =~= projection(q, qtensor_dims(q)[0] as nat, row2(x, t)));
}

/// A normalisation is that of each row by itself.
pub proof fn norms_by_row(x: Run, norm: NormView, b: int, l: int)
    requires
        x.dims().len() == 3,
    ensures
        row3(normed(x, norm), b, l) == scaled(norm, row3(x, b, l)),
{
    let y = normed(x, norm);
    assert forall|o: int| 0 <= o < y.dims()[2] implies #[trigger] y.at3(b, l, o)
        == Num::Normed(
        norm.eps,
        row3(x, b, l),
        o,
        Box::new(element(norm.weight, seq![o])),
    ) by {
        element_normed(norm.eps, x.view, norm.weight, seq![b, l, o]);
        lemma_row3(x, b, l, o);
    }
    assert(row3(y, b, l) =~= scaled(norm, row3(x, b, l)));
}

/// A normalisation of a matrix is that of each row by itself.
pub proof fn matrix_norms_by_row(x: Run, norm: NormView, t: int)
    requires
        x.dims().len() == 2,
    ensures
        row2(normed(x, norm), t) == scaled(norm, row2(x, t)),
{
    let y = normed(x, norm);
    assert forall|o: int| 0 <= o < y.dims()[1] implies #[trigger] y.at2(t, o)
        == Num::Normed(norm.eps, row2(x, t), o, Box::new(element(norm.weight, seq![o]))) by {
        element_normed(norm.eps, x.view, norm.weight, seq![t, o]);
        lemma_row2(x, t, o);
    }
    assert(row2(y, t) =~= scaled(norm, row2(x, t)));
}

/// A normalisation of heads is that of each head at each position by itself.
pub proof fn head_norms_by_row(x: Run, norm: NormView, b: int, h: int, l: int)
    requires
        x.dims().len() == 4,
    ensures
        row4(normed(x, norm), b, h, l) == scaled(norm, row4(x, b, h, l)),
{
    let y = normed(x, norm);
    assert forall|o: int| 0 <= o < y.dims()[3] implies #[trigger] y.at4(b, h, l, o)
        == Num::Normed(
        norm.eps,
        row4(x, b, h, l),
        o,
        Box::new(element(norm.weight, seq![o])),
    ) by {
        element_normed(norm.eps, x.view, norm.weight, seq![b, h, l, o]);
        lemma_row4(x, b, h, l, o);
    }
    assert(row4(y, b, h, l) =~= scaled(norm, row4(x, b, h, l)));
}

/// A feedforward is the gated feedforward of each row by itself: the activation is
/// that of the projection by `gate`.
pub proof fn feedforwards_by_row(w: MlpView, x: Run, b: int, l: int)
    requires
        x.dims().len() == 3,
        qtensor_dims(w.up)[0] == qtensor_dims(w.gate)[0],
    ensures
        row3(fed(w, x), b, l) == feedforward(
            w.gate,
            w.up,
            w.down,
            w.act,
            qtensor_dims(w.gate)[0] as nat,
            qtensor_dims(w.down)[0] as nat,
            row3(x, b, l),
        ),
{
    let g = through(x, w.gate);
    let u = through(x, w.up);
    let a = activated(g, w.act);
    let y = paired(Op::Mul, a, u);
    let r = row3(x, b, l);
    let inner = qtensor_dims(w.gate)[0] as nat;
    projections_by_row(x, w.gate, b, l);
    projections_by_row(x, w.up, b, l);
    assert forall|j: int| 0 <= j < inner implies #[trigger] y.at3(b, l, j) == times(
        act(w.act, against(w.gate, j, r)),
        against(w.up, j, r),
    ) by {
        element_multiplied(a.view, u.view, seq![b, l, j]);
        element_mapped(Op::Gelu, g.view, seq![b, l, j]);
        element_mapped(Op::Silu, g.view, seq![b, l, j]);
        assert(row3(g, b, l)[j] == g.at3(b, l, j));
        assert(row3(u, b, l)[j] == u.at3(b, l, j));
    }
    projections_by_row(y, w.down, b, l);
    assert(row3(y, b, l) =~= Seq::new(
        inner,
        |j: int| times(act(w.act, against(w.gate, j, r)), against(w.up, j, r)),
    ));
}

/// A row whose two halves are rotated against each other by angles.
pub open spec fn turned(v: Seq<Num>, cos: Seq<Num>, sin: Seq<Num>) -> Seq<Num> {
    let half = v.len() as int / 2;
    Seq::new(
        v.len(),
        |e: int|
            {
                let i = e % half;
                if e < half {
                    minus(times(v[i], cos[i]), times(v[i + half], sin[i]))
                } else {
                    plus(times(v[i], sin[i]), times(v[i + half], cos[i]))
                }
            },
    )
}

/// Row `p` of a table.
pub open spec fn table_row(t: TensorView, p: int) -> Seq<Num> {
    Seq::new(t.dims[1] as nat, |i: int| element(t, seq![p, i]))
}

/// The row of a mask for position `l`, in an element type.
pub open spec fn mask_row(mask: Option<TensorView>, l: int, dtype: DType) -> Option<Seq<Num>> {
    match mask {
        Some(m) => Some(
            Seq::new(
                m.dims[3] as nat,
                |t: int| cast(element(m, seq![0, 0, l, t]), m.dtype, dtype),
            ),
        ),
        None => None,
    }
}

/// The score of a query for a key: their product, scaled, with the mask added.
pub open spec fn score(q: Seq<Num>, k: Seq<Num>, scale: Option<Scalar>, mask: Option<Num>) -> Num {
    let s = Num::Dot(q, k);
    let s = match scale {
        Some(c) => one(Op::MulScalar(c), s),
        None => s,
    };
    match mask {
        Some(m) => plus(s, m),
        None => s,
    }
}

/// The scores of a query for keys.
pub open spec fn scores(
    q: Seq<Num>,
    keys: Seq<Seq<Num>>,
    scale: Option<Scalar>,
    mask: Option<Seq<Num>>,
) -> Seq<Num> {
    Seq::new(
        keys.len(),
        |t: int|
            score(
                q,
                keys[t],
                scale,
                match mask {
                    Some(m) => Some(m[t]),
                    None => None,
                },
            ),
    )
}

/// What a query reads from values: their mean, weighted by the softmax of its scores
/// for the keys.
pub open spec fn reading(
    q: Seq<Num>,
    keys: Seq<Seq<Num>>,
    values: Seq<Seq<Num>>,
    scale: Option<Scalar>,
    mask: Option<Seq<Num>>,
) -> Seq<Num> {
    let s = scores(q, keys, scale, mask);
    Seq::new(
        q.len(),
        |e: int|
            Num::Dot(
                Seq::new(keys.len(), |t: int| Num::InRow(Op::SoftmaxLastDim, s, t)),
                Seq::new(keys.len(), |t: int| values[t][e]),
            ),
    )
}

/// The rows of a head of a sequence.
pub open spec fn rows4(x: Run, b: int, h: int) -> Seq<Seq<Num>> {
    Seq::new(x.dims()[2] as nat, |t: int| row4(x, b, h, t))
}

/// Head `h` at position `l` holds the numbers of row `l` from `h * head_dim` on.
pub proof fn heads_by_row(
    x: Run,
    batch: usize,
    len: usize,
    n: usize,
    head_dim: usize,
    b: int,
    h: int,
    l: int,
)
    requires
        n * head_dim <= usize::MAX,
        x.dims() == seq![batch, len, (n * head_dim) as usize],
        0 <= b < batch,
        0 <= h < n,
        0 <= l < len,
    ensures
        row4(heads(x, batch, len, n, head_dim), b, h, l) == row3(x, b, l).subrange(
            h * head_dim,
            h * head_dim + head_dim,
        ),
{
    let dims = seq![batch, len, n, head_dim];
    let y = reshaped(x, dims);
    let t = transposed(y, 1, 2);
    let z = heads(x, batch, len, n, head_dim);
    assert(z.dims() =~= seq![batch, n, len, head_dim]);
    assert(0 <= h * head_dim && h * head_dim + head_dim <= n * head_dim) by (nonlinear_arith)
        requires
            0 <= h < n,
            0 <= head_dim,
    ;
    assert forall|e: int| 0 <= e < head_dim implies #[trigger] z.at4(b, h, l, e) == x.at3(
        b,
        l,
        h * head_dim + e,
    ) by {
        element_stored(t.view, seq![b, h, l, e]);
        element_transposed(y.view, 1, 2, seq![b, h, l, e]);
        assert(swapped(seq![b, h, l, e], 1, 2) =~= seq![b, l, h, e]);
        lemma_split_columns(b, l, len as int, n as int, head_dim as int, h, e);
        lemma_nth4(batch, len, n, head_dim, b, l, h, e);
        lemma_nth3(batch, len, (n * head_dim) as usize, b, l, h * head_dim + e);
        let source = seq![b, l, h * head_dim + e];
        assert(valid(x.dims(), source));
        element_reshaped(x.view, dims, seq![b, l, h, e], source);
    }
    assert(row4(z, b, h, l) =~= row3(x, b, l).subrange(h * head_dim, h * head_dim + head_dim));
}

/// The number of an element is the same where the columns are split.
pub proof fn lemma_split_columns(b: int, l: int, len: int, n: int, d: int, h: int, e: int)
    ensures
        (b * len + l) * (n * d) + (h * d + e) == ((b * len + l) * n + h) * d + e,
{
    let r = b * len + l;
    assert(r * (n * d) + (h * d + e) == (r * n + h) * d + e) by (nonlinear_arith);
}

/// Head `h` of repeated heads is head `h / n`.
pub proof fn repeated_heads_by_row(x: Run, n: usize, b: int, h: int, t: int)
    requires
        x.dims().len() == 4,
        n > 0,
        repeat_heads(x, n).sound,
        0 <= b < x.dims()[0],
        0 <= h < x.dims()[1] * n,
        0 <= t < x.dims()[2],
    ensures
        row4(repeat_heads(x, n), b, h, t) == row4(x, b, h / n as int, t),
{
    let g = h / n as int;
    let r = h % n as int;
    vstd::arithmetic::div_mod::lemma_fundamental_div_mod(h, n as int);
    assert(0 <= r < n && h == g * n + r) by (nonlinear_arith)
        requires
            n > 0,
            r == h % n as int,
            h == n * g + r,
    ;
    let heads = x.dims()[1] as int;
    assert(0 <= g < heads) by (nonlinear_arith)
        requires
            0 <= h < heads * n,
            h == g * n + r,
            0 <= r < n,
    ;
    if n == 1 {
        assert(g == h);
    } else {
        let bs = x.dims()[0];
        let hs = x.dims()[1];
        let ls = x.dims()[2];
        let ds = x.dims()[3];
        let parts = Seq::new(n as nat, |i: int| x.view);
        let copies = repeated(x, 2, n as nat);
        let z = repeat_heads(x, n);
        let dims = seq![bs, (hs * n) as usize, ls, ds];
        lemma_slices_of_copies(x.view, 2, n as nat);
        assert(n * ls == ls * n) by (nonlinear_arith);
        assert(copies.dims() =~= seq![bs, hs, (ls * n) as usize, ds]);
        assert forall|e: int| 0 <= e < ds implies #[trigger] z.at4(b, h, t, e) == x.at4(
            b,
            g,
            t,
            e,
        ) by {
            let slice = r * ls + t;
            let source = seq![b, g, slice, e];
            assert(0 <= slice < ls * n) by (nonlinear_arith)
                requires
                    0 <= r < n,
                    0 <= t < ls,
                    slice == r * ls + t,
            ;
            lemma_nth4(bs, (hs * n) as usize, ls, ds, b, h, t, e);
            lemma_nth4(bs, hs, (ls * n) as usize, ds, b, g, slice, e);
            assert((b * (hs * n) + h) * ls + t == (b * hs + g) * (ls * n) + slice)
                by (nonlinear_arith)
                requires
                    h == g * n + r,
                    slice == r * ls + t,
            ;
            assert(valid(copies.dims(), source));
            element_reshaped(copies.view, dims, seq![b, h, t, e], source);
            element_repeated(x.view, 2, n as nat, r, t, source);
            assert(source.update(2, t) =~= seq![b, g, t, e]);
        }
        assert(row4(z, b, h, t) =~= row4(x, b, g, t));
    }
}

/// Heads are rotated by the angles of their positions.
pub proof fn rotations_by_row(
    r: RotaryView,
    x: Run,
    offset: usize,
    len: usize,
    b: int,
    h: int,
    l: int,
)
    requires
        x.dims().len() == 4,
        r.cos.dims.len() == 2,
        r.sin.dims.len() == 2,
        r.cos.dims[1] * 2 == x.dims()[3],
        r.sin.dims[1] * 2 == x.dims()[3],
    ensures
        row4(rotate(r, x, offset, len), b, h, l) == turned(
            row4(x, b, h, l),
            table_row(r.cos, offset + l),
            table_row(r.sin, offset + l),
        ),
{
    let c = narrowed(given(r.cos), 0, offset, len);
    let s = narrowed(given(r.sin), 0, offset, len);
    let y = rotate(r, x, offset, len);
    let v = row4(x, b, h, l);
    let half = x.dims()[3] as int / 2;
    let want = turned(v, table_row(r.cos, offset + l), table_row(r.sin, offset + l));
    assert forall|e: int| 0 <= e < x.dims()[3] implies #[trigger] y.at4(b, h, l, e) == want[e] by {
        let at = seq![b, h, l, e];
        element_rotated(x.view, c.view, s.view, at);
        let i = e % half;
        assert(0 <= i < half);
        assert(at.update(3, i) =~= seq![b, h, l, i]);
        assert(at.update(3, i + half) =~= seq![b, h, l, i + half]);
        element_narrowed(r.cos, 0, offset, len, seq![l, i]);
        element_narrowed(r.sin, 0, offset, len, seq![l, i]);
        assert(seq![l, i].update(0, l + offset) =~= seq![offset + l, i]);
        assert(v[i] == x.at4(b, h, l, i));
        assert(v[i + half] == x.at4(b, h, l, i + half));
    }
    assert(row4(y, b, h, l) =~= want);
}

/// A normalisation without weights is that of each head at each position by itself.
pub proof fn unscaled_norms_by_row(x: Run, eps: Scalar, b: int, h: int, l: int)
    requires
        x.dims().len() == 4,
        0 <= b < x.dims()[0],
        0 <= h < x.dims()[1],
        0 <= l < x.dims()[2],
    ensures
        row4(unscaled_norm(x, eps), b, h, l) == unscaled(row4(x, b, h, l), x.dtype(), eps),
{
    let f = converted(x, DType::F32);
    let sq = mapped(Op::Sqr, f);
    let mean = reduced(Op::MeanKeepdim(3), sq, 3);
    let sum = mapped(Op::AddScalar(eps), mean);
    let rms = mapped(Op::Sqrt, sum);
    let q = broadcast(Op::BroadcastDiv, f, rms);
    let y = unscaled_norm(x, eps);
    let r = row4(x, b, h, l);
    let want = unscaled(r, x.dtype(), eps);
    assert(broadcast_dims(f.dims(), rms.dims()) =~= x.dims());
    let m = seq![b, h, l, 0int];
    let squares = Seq::new(
        r.len(),
        |j: int| one(Op::Sqr, cast(r[j], x.dtype(), DType::F32)),
    );
    assert(mean.at(m) == Num::Mean(squares)) by {
        element_reduced(sq.view, 3, m);
        let s = Seq::new(sq.dims()[3] as nat, |j: int| element(sq.view, m.update(3, j)));
        assert forall|j: int| 0 <= j < s.len() implies #[trigger] s[j] == squares[j] by {
            assert(m.update(3, j) =~= seq![b, h, l, j]);
            element_mapped(Op::Sqr, f.view, seq![b, h, l, j]);
            element_converted(x.view, DType::F32, seq![b, h, l, j]);
            assert(r[j] == x.at4(b, h, l, j));
        }
        assert(s =~= squares);
    }
    element_mapped(Op::AddScalar(eps), mean.view, m);
    element_mapped(Op::Sqrt, sum.view, m);
    assert forall|e: int| 0 <= e < x.dims()[3] implies #[trigger] y.at4(b, h, l, e) == want[e] by {
        let at = seq![b, h, l, e];
        element_converted(q.view, x.dtype(), at);
        element_broadcast(Op::BroadcastDiv, f.view, rms.view, at);
        assert(laid_over(f.dims(), at) =~= at);
        assert(laid_over(rms.dims(), at) =~= m);
        element_converted(x.view, DType::F32, at);
        assert(r[e] == x.at4(b, h, l, e));
        let ff = Seq::new(r.len(), |j: int| cast(r[j], x.dtype(), DType::F32));
        assert(Seq::new(r.len(), |j: int| one(Op::Sqr, ff[j])) =~= squares);
    }
    assert(row4(y, b, h, l) =~= want);
}

/// The kept keys, where there are any.
pub open spec fn kept_keys(kept: Kept) -> TensorView {
    let (k, v) = kept->0;
    k
}

/// The kept values, where there are any.
pub open spec fn kept_values(kept: Kept) -> TensorView {
    let (k, v) = kept->0;
    v
}

/// Positions before those of a call are the kept ones; those of the call come behind
/// them.
pub proof fn appended_by_row(kept: Kept, k: Run, v: Run, offset: usize, b: int, h: int, t: int)
    requires
        k.dims().len() == 4,
        v.dims().len() == 4,
        0 <= t,
        offset > 0 ==> kept is Some,
        offset > 0 ==> ({
            let (kc, vc) = kept->0;
            &&& kc.dims == k.dims().update(2, offset)
            &&& vc.dims == v.dims().update(2, offset)
        }),
    ensures
        ({
            let (keys, values) = appended(kept, k, v, offset);
            &&& t < offset ==> {
                let (kc, vc) = kept->0;
                &&& row4(keys, b, h, t) == row4(given(kc), b, h, t)
                &&& row4(values, b, h, t) == row4(given(vc), b, h, t)
            }
            &&& t >= offset ==> {
                &&& row4(keys, b, h, t) == row4(k, b, h, t - offset)
                &&& row4(values, b, h, t) == row4(v, b, h, t - offset)
            }
        }),
{
    if offset > 0 {
        let (kc, vc) = kept->0;
        lemma_joined_row(kc, k, b, h, t);
        lemma_joined_row(vc, v, b, h, t);
    }
}

proof fn lemma_joined_row(kept: TensorView, x: Run, b: int, h: int, t: int)
    requires
        x.dims().len() == 4,
        kept.dims.len() == 4,
        kept.dims[3] == x.dims()[3],
        0 <= t,
    ensures
        row4(joined(given(kept), x, 2), b, h, t) == if t < kept.dims[2] {
            row4(given(kept), b, h, t)
        } else {
            row4(x, b, h, t - kept.dims[2])
        },
{
    let y = joined(given(kept), x, 2);
    let want = if t < kept.dims[2] {
        row4(given(kept), b, h, t)
    } else {
        row4(x, b, h, t - kept.dims[2])
    };
    assert forall|e: int| 0 <= e < x.dims()[3] implies #[trigger] y.at4(b, h, t, e) == want[e] by {
        let at = seq![b, h, t, e];
        element_joined(kept, x.view, 2, at);
        assert(at.update(2, t - kept.dims[2]) =~= seq![b, h, t - kept.dims[2], e]);
    }
    assert(row4(y, b, h, t) =~= want);
}

/// The scores of a query with the mask added.
pub proof fn masks_by_row(s: Run, mask: Option<TensorView>, b: int, h: int, l: int, t: int)
    requires
        s.dims().len() == 4,
        mask is Some ==> mask->0.dims == seq![1, 1, s.dims()[2], s.dims()[3]],
        0 <= b < s.dims()[0],
        0 <= h < s.dims()[1],
        0 <= l < s.dims()[2],
        0 <= t < s.dims()[3],
    ensures
        masked_scores(s, mask).dims() == s.dims(),
        masked_scores(s, mask).at4(b, h, l, t) == match mask_row(mask, l, s.dtype()) {
            Some(m) => plus(s.at4(b, h, l, t), m[t]),
            None => s.at4(b, h, l, t),
        },
{
    if let Some(m) = mask {
        let c = converted(given(m), s.dtype());
        let at = seq![b, h, l, t];
        assert(broadcast_dims(s.dims(), m.dims) =~= s.dims());
        element_broadcast(Op::BroadcastAdd, s.view, c.view, at);
        assert(laid_over(s.dims(), at) =~= at);
        assert(laid_over(c.dims(), at) =~= seq![0, 0, l, t]);
        element_converted(m, s.dtype(), seq![0, 0, l, t]);
    }
}

/// The numbers of a row in another element type.
pub open spec fn cast_row(v: Seq<Num>, from: DType, to: DType) -> Seq<Num> {
    Seq::new(v.len(), |e: int| cast(v[e], from, to))
}

/// Heads in another element type.
pub proof fn converted_by_row(x: Run, dtype: DType, b: int, h: int, l: int)
    ensures
        row4(converted(x, dtype), b, h, l) == cast_row(row4(x, b, h, l), x.dtype(), dtype),
{
    let y = converted(x, dtype);
    assert forall|e: int| 0 <= e < x.dims()[3] implies #[trigger] y.at4(b, h, l, e) == cast(
        x.at4(b, h, l, e),
        x.dtype(),
        dtype,
    ) by {
        element_converted(x.view, dtype, seq![b, h, l, e]);
    }
    assert(row4(y, b, h, l) =~= cast_row(row4(x, b, h, l), x.dtype(), dtype));
}

/// Storing heads row by row keeps their numbers.
pub proof fn stored_by_row(x: Run, b: int, h: int, l: int)
    ensures
        row4(stored(x), b, h, l) == row4(x, b, h, l),
{
    let y = stored(x);
    assert forall|e: int| 0 <= e < x.dims()[3] implies #[trigger] y.at4(b, h, l, e) == x.at4(
        b,
        h,
        l,
        e,
    ) by {
        element_stored(x.view, seq![b, h, l, e]);
    }
    assert(row4(y, b, h, l) =~= row4(x, b, h, l));
}

/// Rows with the heads of a position one behind the other: number `h * head_dim + e`
/// of row `l` is number `e` of head `h`.
pub proof fn flattened_by_row(x: Run, b: int, l: int)
    requires
        x.dims().len() == 4,
        x.dims()[1] * x.dims()[3] <= usize::MAX,
        x.dims()[3] > 0,
        0 <= b < x.dims()[0],
        0 <= l < x.dims()[2],
    ensures
        ({
            let d = x.dims()[3] as int;
            let width = (x.dims()[1] * x.dims()[3]) as usize;
            row3(reshaped(transposed(x, 1, 2), seq![x.dims()[0], x.dims()[2], width]), b, l)
                == Seq::new(width as nat, |i: int| row4(x, b, i / d, l)[i % d])
        }),
{
    let n = x.dims()[1];
    let len = x.dims()[2];
    let d = x.dims()[3];
    let width = (n * d) as usize;
    let t = transposed(x, 1, 2);
    let dims = seq![x.dims()[0], len, width];
    let y = reshaped(t, dims);
    let want = Seq::new(width as nat, |i: int| row4(x, b, i / d as int, l)[i % d as int]);
    assert(t.dims() =~= seq![x.dims()[0], len, n, d]);
    assert forall|i: int| 0 <= i < width implies #[trigger] y.at3(b, l, i) == want[i] by {
        let h = i / d as int;
        let e = i % d as int;
        lemma_place(i, n as int, d as int);
        let source = seq![b, l, h, e];
        lemma_nth3(x.dims()[0], len, width, b, l, i);
        lemma_nth4(x.dims()[0], len, n, d, b, l, h, e);
        lemma_split_columns(b, l, len as int, n as int, d as int, h, e);
        assert(valid(t.dims(), source));
        element_reshaped(t.view, dims, seq![b, l, i], source);
        element_transposed(x.view, 1, 2, source);
        assert(swapped(source, 1, 2) =~= seq![b, h, l, e]);
        assert(row4(x, b, h, l)[e] == x.at4(b, h, l, e));
    }
    assert(row3(y, b, l) =~= want);
}

/// A number below `n * d` is `h * d + e` for an `h` below `n` and an `e` below `d`.
pub proof fn lemma_place(i: int, n: int, d: int)
    requires
        0 <= i < n * d,
        d > 0,
    ensures
        0 <= i / d < n,
        0 <= i % d < d,
        i == (i / d) * d + i % d,
{
    vstd::arithmetic::div_mod::lemma_fundamental_div_mod(i, d);
    let h = i / d;
    let e = i % d;
    assert(i == h * d + e && 0 <= h < n) by (nonlinear_arith)
        requires
            i == d * h + e,
            0 <= e < d,
            0 <= i < n * d,
    ;
}

/// What queries read from values by keys, whose heads are shared by `groups` heads of
/// queries each.
pub open spec fn readings(
    q: Run,
    k: Run,
    v: Run,
    groups: usize,
    scale: Option<Scalar>,
    mask: Option<TensorView>,
) -> Run {
    let keys = stored(repeat_heads(k, groups));
    let values = stored(repeat_heads(v, groups));
    let s = multiplied(q, transposed(keys, 2, 3));
    let s = match scale {
        Some(c) => mapped(Op::MulScalar(c), s),
        None => s,
    };
    multiplied(mapped(Op::SoftmaxLastDim, masked_scores(s, mask)), values)
}

/// The dims of heads that are shared.
proof fn lemma_repeated_dims(x: Run, groups: usize)
    requires
        x.dims().len() == 4,
        x.dims()[1] * groups <= usize::MAX,
    ensures
        repeat_heads(x, groups).dims() == seq![
            x.dims()[0],
            (x.dims()[1] * groups) as usize,
            x.dims()[2],
            x.dims()[3],
        ],
{
    assert(groups == 1 ==> x.dims()[1] * groups == x.dims()[1]);
    assert(repeat_heads(x, groups).dims() =~= seq![
        x.dims()[0],
        (x.dims()[1] * groups) as usize,
        x.dims()[2],
        x.dims()[3],
    ]);
}

/// What head `h` at position `l` reads: from the keys and values of head
/// `h / groups` of its own sequence, all of them but what the mask takes away.
pub proof fn readings_by_row(
    q: Run,
    k: Run,
    v: Run,
    groups: usize,
    scale: Option<Scalar>,
    mask: Option<TensorView>,
    b: int,
    h: int,
    l: int,
)
    requires
        q.dims().len() == 4,
        k.dims().len() == 4,
        v.dims() == k.dims(),
        q.dims()[0] == k.dims()[0],
        q.dims()[1] == k.dims()[1] * groups,
        q.dims()[3] == k.dims()[3],
        groups > 0,
        mask is Some ==> mask->0.dims == seq![1, 1, q.dims()[2], k.dims()[2]],
        repeat_heads(k, groups).sound,
        repeat_heads(v, groups).sound,
        0 <= b < q.dims()[0],
        0 <= h < q.dims()[1],
        0 <= l < q.dims()[2],
    ensures
        readings(q, k, v, groups, scale, mask).dims() == q.dims(),
        row4(readings(q, k, v, groups, scale, mask), b, h, l) == reading(
            row4(q, b, h, l),
            rows4(k, b, h / groups as int),
            rows4(v, b, h / groups as int),
            scale,
            mask_row(mask, l, q.dtype()),
        ),
{
    let g = h / groups as int;
    let len = q.dims()[2];
    let all = k.dims()[2];
    let keys = stored(repeat_heads(k, groups));
    let values = stored(repeat_heads(v, groups));
    lemma_repeated_dims(k, groups);
    lemma_repeated_dims(v, groups);
    let turned_keys = transposed(keys, 2, 3);
    let plain = multiplied(q, turned_keys);
    let s = match scale {
        Some(c) => mapped(Op::MulScalar(c), plain),
        None => plain,
    };
    let masked = masked_scores(s, mask);
    let probs = mapped(Op::SoftmaxLastDim, masked);
    let y = multiplied(probs, values);
    assert(plain.dims() =~= seq![q.dims()[0], q.dims()[1], len, all]);
    let qr = row4(q, b, h, l);
    let kr = rows4(k, b, g);
    let vr = rows4(v, b, g);
    let mr = mask_row(mask, l, q.dtype());
    let sr = scores(qr, kr, scale, mr);
    assert forall|t: int| 0 <= t < all implies #[trigger] masked.at4(b, h, l, t) == sr[t] by {
        let at = seq![b, h, l, t];
        element_product(q.view, turned_keys.view, at);
        lemma_row4(q, b, h, l, t);
        repeated_heads_by_row(k, groups, b, h, t);
        stored_by_row(repeat_heads(k, groups), b, h, t);
        let column = Seq::new(
            q.dims().last() as nat,
            |j: int| element(turned_keys.view, at.update(2, j)),
        );
        assert forall|j: int| 0 <= j < column.len() implies #[trigger] column[j] == kr[t][j] by {
            element_transposed(keys.view, 2, 3, at.update(2, j));
            assert(swapped(at.update(2, j), 2, 3) =~= seq![b, h, t, j]);
            assert(row4(keys, b, h, t)[j] == keys.at4(b, h, t, j));
        }
        assert(column =~= kr[t]);
        assert(plain.at4(b, h, l, t) == Num::Dot(qr, kr[t]));
        if let Some(c) = scale {
            element_mapped(Op::MulScalar(c), plain.view, at);
        }
        masks_by_row(s, mask, b, h, l, t);
    }
    assert(masked.dims() == s.dims()) by {
        if let Some(m) = mask {
            assert(broadcast_dims(s.dims(), m.dims) =~= s.dims());
        }
    }
    assert forall|e: int| 0 <= e < q.dims()[3] implies #[trigger] y.at4(b, h, l, e)
        == reading(qr, kr, vr, scale, mr)[e] by {
        let at = seq![b, h, l, e];
        element_product(probs.view, values.view, at);
        lemma_row4(probs, b, h, l, e);
        let pr = row4(probs, b, h, l);
        let want = Seq::new(kr.len(), |t: int| Num::InRow(Op::SoftmaxLastDim, sr, t));
        assert forall|t: int| 0 <= t < all implies #[trigger] pr[t] == want[t] by {
            element_softmax(masked.view, seq![b, h, l, t]);
            lemma_row4(masked, b, h, l, t);
            assert(row4(masked, b, h, l) =~= sr);
        }
        assert(pr =~= want);
        let column = Seq::new(
            probs.dims().last() as nat,
            |t: int| element(values.view, at.update(2, t)),
        );
        let read = Seq::new(kr.len(), |t: int| vr[t][e]);
        assert forall|t: int| 0 <= t < all implies #[trigger] column[t] == read[t] by {
            assert(at.update(2, t) =~= seq![b, h, t, e]);
            repeated_heads_by_row(v, groups, b, h, t);
            stored_by_row(repeat_heads(v, groups), b, h, t);
            assert(row4(values, b, h, t)[e] == values.at4(b, h, t, e));
        }
        assert(column =~= read);
    }
    assert(y.dims() =~= q.dims());
    assert(row4(y, b, h, l) =~= reading(qr, kr, vr, scale, mr));
}

/// A normalisation of a matrix without weights is that of each row by itself.
pub proof fn matrix_unscaled_norms_by_row(x: Run, eps: Scalar, t: int)
    requires
        x.dims().len() == 2,
        0 <= t < x.dims()[0],
    ensures
        unscaled_norm(x, eps).dims() == x.dims(),
        row2(unscaled_norm(x, eps), t) == unscaled(row2(x, t), x.dtype(), eps),
{
    let f = converted(x, DType::F32);
    let sq = mapped(Op::Sqr, f);
    let mean = reduced(Op::MeanKeepdim(1), sq, 1);
    let sum = mapped(Op::AddScalar(eps), mean);
    let rms = mapped(Op::Sqrt, sum);
    let q = broadcast(Op::BroadcastDiv, f, rms);
    let y = unscaled_norm(x, eps);
    let r = row2(x, t);
    let want = unscaled(r, x.dtype(), eps);
    assert(broadcast_dims(f.dims(), rms.dims()) =~= x.dims());
    let m = seq![t, 0int];
    let squares = Seq::new(
        r.len(),
        |j: int| one(Op::Sqr, cast(r[j], x.dtype(), DType::F32)),
    );
    assert(mean.at(m) == Num::Mean(squares)) by {
        element_reduced(sq.view, 1, m);
        let s = Seq::new(sq.dims()[1] as nat, |j: int| element(sq.view, m.update(1, j)));
        assert forall|j: int| 0 <= j < s.len() implies #[trigger] s[j] == squares[j] by {
            assert(m.update(1, j) =~= seq![t, j]);
            element_mapped(Op::Sqr, f.view, seq![t, j]);
            element_converted(x.view, DType::F32, seq![t, j]);
            assert(r[j] == x.at2(t, j));
        }
        assert(s =~= squares);
    }
    element_mapped(Op::AddScalar(eps), mean.view, m);
    element_mapped(Op::Sqrt, sum.view, m);
    assert forall|e: int| 0 <= e < x.dims()[1] implies #[trigger] y.at2(t, e) == want[e] by {
        let at = seq![t, e];
        element_converted(q.view, x.dtype(), at);
        element_broadcast(Op::BroadcastDiv, f.view, rms.view, at);
        assert(laid_over(f.dims(), at) =~= at);
        assert(laid_over(rms.dims(), at) =~= m);
        element_converted(x.view, DType::F32, at);
        assert(r[e] == x.at2(t, e));
        let ff = Seq::new(r.len(), |j: int| cast(r[j], x.dtype(), DType::F32));
        assert(Seq::new(r.len(), |j: int| one(Op::Sqr, ff[j])) =~= squares);
    }
    assert(row2(y, t) =~= want);
}

/// A matrix in another element type.
pub proof fn matrix_converted_by_row(x: Run, dtype: DType, t: int)
    ensures
        row2(converted(x, dtype), t) == cast_row(row2(x, t), x.dtype(), dtype),
{
    let y = converted(x, dtype);
    assert forall|e: int| 0 <= e < x.dims()[1] implies #[trigger] y.at2(t, e) == cast(
        x.at2(t, e),
        x.dtype(),
        dtype,
    ) by {
        element_converted(x.view, dtype, seq![t, e]);
    }
    assert(row2(y, t) =~= cast_row(row2(x, t), x.dtype(), dtype));
}

/// The rows of all sequences.
pub open spec fn all_rows(x: Run) -> Seq<Seq<Seq<Num>>> {
    Seq::new(x.dims()[0] as nat, |b: int| rows3(x, b))
}

/// The rows of all sequences, one sequence behind the other.
pub open spec fn one_behind_the_other(all: Seq<Seq<Seq<Num>>>, len: int) -> Seq<Seq<Num>> {
    Seq::new((all.len() * len) as nat, |t: int| all[t / len][t % len])
}

/// The normalisation with the weights of a quantised tensor.
pub proof fn norms_in_file(q: QTensor, eps: Scalar, r: Seq<Num>)
    ensures
        scaled(norm_of(q, eps), r) == scaled_by(q, eps, r),
{
    assert forall|j: int| 0 <= j < r.len() implies #[trigger] scaled(norm_of(q, eps), r)[j]
        == scaled_by(q, eps, r)[j] by {
        element_dequantized(q, qtensor_dims(q), qtensor_place(q), seq![j]);
    }
    assert(scaled(norm_of(q, eps), r) =~= scaled_by(q, eps, r));
}

/// The sum of two residuals is the sum of their rows.
pub proof fn sums_by_row(x: Run, y: Run, b: int, l: int)
    requires
        y.dims()[2] == x.dims()[2],
    ensures
        row3(paired(Op::Add, x, y), b, l) == sums(row3(x, b, l), row3(y, b, l)),
{
    let z = paired(Op::Add, x, y);
    assert forall|j: int| 0 <= j < x.dims()[2] implies #[trigger] z.at3(b, l, j) == plus(
        x.at3(b, l, j),
        y.at3(b, l, j),
    ) by {
        element_added(x.view, y.view, seq![b, l, j]);
    }
    assert(row3(z, b, l) =~= sums(row3(x, b, l), row3(y, b, l)));
}

/// A normalisation with the weights of a quantised tensor, for each row of a sequence.
pub proof fn file_norms_by_row(x: Run, q: QTensor, eps: Scalar, b: int)
    requires
        x.dims().len() == 3,
    ensures
        rows3(normed(x, norm_of(q, eps)), b) == Seq::new(
            x.dims()[1] as nat,
            |l: int| scaled_by(q, eps, row3(x, b, l)),
        ),
{
    let y = normed(x, norm_of(q, eps));
    let want = Seq::new(x.dims()[1] as nat, |l: int| scaled_by(q, eps, row3(x, b, l)));
    assert forall|l: int| 0 <= l < x.dims()[1] implies #[trigger] row3(y, b, l) == want[l] by {
        norms_by_row(x, norm_of(q, eps), b, l);
        norms_in_file(q, eps, row3(x, b, l));
    }
    assert(rows3(y, b) =~= want);
}

/// Position `p` sees position `t`: it is the same or an earlier one, and less than a
/// window away.
pub open spec fn sees(p: int, t: int, window: Option<usize>) -> bool {
    t <= p && match window {
        Some(w) => p < t + w,
        None => true,
    }
}

/// What a mask adds to the score of position `p` for position `t`: the logarithm of 1
/// where it sees it, that of 0 where it does not.
pub open spec fn mask_number(p: int, t: int, window: Option<usize>) -> Num {
    let seen: u8 = if sees(p, t, window) {
        1
    } else {
        0
    };
    one(Op::Log, cast(Num::Byte(seen), DType::U8, DType::F32))
}

/// A mask holds, for each position of a call, what is added for each position up to
/// the last one of the call.
pub proof fn masks_by_position(
    seq_len: usize,
    offset: usize,
    window: Option<usize>,
    place: Place,
    l: int,
    t: int,
)
    requires
        seq_len + offset <= usize::MAX,
        0 <= l < seq_len,
        0 <= t < seq_len + offset,
    ensures
        additive_mask(seq_len, offset, window, place).dtype() == DType::F32,
        additive_mask(seq_len, offset, window, place).dims() == seq![
            1,
            1,
            seq_len,
            (seq_len + offset) as usize,
        ],
        additive_mask(seq_len, offset, window, place).at4(0, 0, l, t) == mask_number(
            offset + l,
            t,
            window,
        ),
{
    let width = (seq_len + offset) as usize;
    let data = keep_rows(offset as nat, seq_len as nat, width as nat, window);
    let dims = seq![seq_len, width];
    let kept = bytes(data, dims, place);
    let f = converted(kept, DType::F32);
    let m = mapped(Op::Log, f);
    let at = seq![0, 0, l, t];
    element_expanded(m.view, seq![1, 1, seq_len, width], at);
    assert(laid_over(dims, at) =~= seq![l, t]);
    element_mapped(Op::Log, f.view, seq![l, t]);
    element_converted(kept.view, DType::F32, seq![l, t]);
    element_bytes(data, dims, place, seq![l, t]);
    lemma_nth2(seq_len, width, l, t);
    keep_at(offset as nat, seq_len as nat, width as nat, window, l, t);
}

/// The angle of position `p` for an inverse frequency: their product.
pub open spec fn angle(inv_freq: TensorView, p: int, i: int) -> Num {
    Num::Dot(
        seq![cast(Num::Whole(p), DType::U32, DType::F32)],
        seq![element(inv_freq, seq![0, i])],
    )
}

/// The tables of a rotary embedding hold the cosines and sines of the angles of each
/// position.
pub proof fn tables_by_position(
    inv_freq: TensorView,
    dtype: DType,
    positions: u32,
    place: Place,
    p: int,
    i: int,
)
    requires
        inv_freq.dims.len() == 2,
        inv_freq.dims[0] == 1,
        0 <= p < positions,
        0 <= i < inv_freq.dims[1],
    ensures
        ({
            let r = rotary_of(inv_freq, dtype, positions, place);
            &&& r.cos.dims == seq![positions as usize, inv_freq.dims[1]]
            &&& r.sin.dims == r.cos.dims
            &&& table_row(r.cos, p)[i] == cast(
                one(Op::Cos, angle(inv_freq, p, i)),
                DType::F32,
                dtype,
            )
            &&& table_row(r.sin, p)[i] == cast(
                one(Op::Sin, angle(inv_freq, p, i)),
                DType::F32,
                dtype,
            )
        }),
{
    let c = counted(positions, place);
    let f = converted(c, DType::F32);
    let n = positions as usize;
    let t = reshaped(f, seq![n, 1]);
    let s = stored(given(inv_freq));
    let a = multiplied(t, s);
    let at = seq![p, i];
    assert(a.dims() =~= seq![n, inv_freq.dims[1]]);
    element_product(t.view, s.view, at);
    assert(row(t.view, at) =~= seq![cast(Num::Whole(p), DType::U32, DType::F32)]) by {
        assert(at.update(1, 0) =~= seq![p, 0]);
        lemma_nth1(n, p);
        lemma_nth2(n, 1, p, 0);
        assert(valid(f.dims(), seq![p]));
        element_reshaped(f.view, seq![n, 1], seq![p, 0], seq![p]);
        element_converted(c.view, DType::F32, seq![p]);
        element_counted(positions, place, seq![p]);
    }
    let column = Seq::new(t.dims().last() as nat, |j: int| element(s.view, at.update(0, j)));
    assert(column =~= seq![element(inv_freq, seq![0, i])]) by {
        assert(at.update(0, 0) =~= seq![0, i]);
        element_stored(inv_freq, seq![0, i]);
    }
    assert(a.at2(p, i) == angle(inv_freq, p, i));
    element_mapped(Op::Cos, a.view, at);
    element_mapped(Op::Sin, a.view, at);
    element_converted(mapped(Op::Cos, a).view, dtype, at);
    element_converted(mapped(Op::Sin, a).view, dtype, at);
}

/// The row of a token in a table of `n` rows of `hidden` numbers.
pub open spec fn embedding(q: QTensor, n: nat, hidden: nat, token: Num) -> Seq<Num> {
    Seq::new(
        hidden,
        |c: int|
            Num::Pick(Seq::new(n, |j: int| Num::Weight(q, seq![j, c])), Box::new(token)),
    )
}

/// The embedding of each token is its row of the table.
pub proof fn embeddings_by_row(
    q: QTensor,
    place: Place,
    input: TensorView,
    hidden: usize,
    b: int,
    l: int,
)
    requires
        input.dims.len() == 2,
    ensures
        ({
            let x = embedded(dequantized(q, place), given(input), hidden);
            &&& x.dims() == seq![input.dims[0], input.dims[1], hidden]
            &&& row3(x, b, l) == embedding(
                q,
                qtensor_dims(q)[0] as nat,
                hidden as nat,
                element(input, seq![b, l]),
            )
        }),
{
    let t = dequantized(q, place);
    let x = embedded(t, given(input), hidden);
    let token = element(input, seq![b, l]);
    let n = qtensor_dims(q)[0] as nat;
    let want = embedding(q, n, hidden as nat, token);
    assert(x.dims() =~= seq![input.dims[0], input.dims[1], hidden]);
    assert forall|c: int| 0 <= c < hidden implies #[trigger] x.at3(b, l, c) == want[c] by {
        let at = seq![b, l, c];
        element_embedded(t.view, input, hidden, at);
        assert(at.drop_last() =~= seq![b, l]);
        let s = Seq::new(t.dims()[0] as nat, |j: int| element(t.view, seq![j, at.last()]));
        let w = Seq::new(n, |j: int| Num::Weight(q, seq![j, c]));
        assert forall|j: int| 0 <= j < n implies #[trigger] s[j] == w[j] by {
            element_dequantized(q, qtensor_dims(q), place, seq![j, c]);
        }
        assert(s =~= w);
    }
    assert(row3(x, b, l) =~= want);
}

/// The last position of a residual holds the last row of each sequence.
pub proof fn last_rows(x: Run, len: usize, b: int)
    requires
        x.dims().len() == 3,
        len > 0,
    ensures
        last_position(x, len).dims() == seq![x.dims()[0], x.dims()[2]],
        row2(last_position(x, len), b) == row3(x, b, len - 1),
{
    let cut = narrowed(x, 1, (len - 1) as usize, 1);
    let y = last_position(x, len);
    assert(y.dims() =~= seq![x.dims()[0], x.dims()[2]]);
    assert forall|j: int| 0 <= j < x.dims()[2] implies #[trigger] y.at2(b, j) == x.at3(
        b,
        len - 1,
        j,
    ) by {
        element_squeezed(cut.view, 1, seq![b, j]);
        let at = seq![b, j].insert(1, 0);
        assert(at =~= seq![b, 0, j]);
        element_narrowed(x.view, 1, (len - 1) as usize, 1, at);
        assert(at.update(1, len - 1) =~= seq![b, len - 1, j]);
    }
    assert(row2(y, b) =~= row3(x, b, len - 1));
}

} // verus!
