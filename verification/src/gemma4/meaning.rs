//! What the attention of a layer computes, number by number.

use crate::attention::{lemma_joined_dim, Kept};
use crate::formula::{
    against, appended_by_row, cast_row, converted_by_row, flattened_by_row, head_norms_by_row,
    heads_by_row, kept_keys, kept_values, lemma_place, mask_row, projection, projections_by_row,
    reading, readings, readings_by_row, rotations_by_row, row3, row4, rows3, rows4, scaled,
    stored_by_row, table_row, turned, unscaled, unscaled_norms_by_row,
};
use crate::gemma4::attention::{
    all_keys_values, attended, attention_shaped, heads_of, kept_after, new_keys, new_values,
    plain_queries, queries, raw_keys, raw_values, read_values, AttentionView,
};
use crate::nn::{normed, repeat_heads, through, unscaled_norm, RotaryView};
use crate::tensor::element::{cast, element_converted, Num};
use crate::tensor::raw::qtensor_dims;
use crate::tensor::run::{converted, given, joined, reshaped, stored, transposed, Run};
use crate::tensor::view::{broadcast_dims, TensorView};
use candle_core::quantized::QTensor;
use candle_core::DType;
use vstd::prelude::*;

verus! {

/// A head rotated by the angles of position `p`.
pub open spec fn positioned(r: RotaryView, v: Seq<Num>, p: int) -> Seq<Num> {
    turned(v, table_row(r.cos, p), table_row(r.sin, p))
}

/// What is projected for head `h` of `head_dim` numbers: the products with as many
/// rows of a matrix.
pub open spec fn head(q: QTensor, d: int, r: Seq<Num>, h: int) -> Seq<Num> {
    Seq::new(d as nat, |e: int| against(q, h * d + e, r))
}

/// The query of head `h` for a row at position `p`.
pub open spec fn query(w: AttentionView, r: Seq<Num>, dtype: DType, h: int, p: int) -> Seq<Num> {
    let plain = head(w.q, w.head_dim as int, r, h);
    positioned(w.rotary, cast_row(scaled(w.q_norm, plain), dtype, w.dtype), p)
}

/// The key of head `g` for a row at position `p`.
pub open spec fn key(w: AttentionView, r: Seq<Num>, dtype: DType, g: int, p: int) -> Seq<Num> {
    let plain = head(w.k, w.head_dim as int, r, g);
    positioned(w.rotary, cast_row(scaled(w.k_norm, plain), dtype, w.dtype), p)
}

/// The value of head `g` for a row: not rotated, normalised without weights. Without a
/// projection of their own the values are projected as the keys are.
pub open spec fn value(w: AttentionView, r: Seq<Num>, dtype: DType, g: int) -> Seq<Num> {
    let q = match w.v {
        Some(v) => v,
        None => w.k,
    };
    cast_row(unscaled(head(q, w.head_dim as int, r, g), dtype, w.eps), dtype, w.dtype)
}

/// The keys of head `g` of sequence `b`: those kept, then those of the positions of a
/// call from `offset` on.
pub open spec fn keys(
    w: AttentionView,
    rows: Seq<Seq<Num>>,
    dtype: DType,
    offset: usize,
    kept: Kept,
    b: int,
    g: int,
) -> Seq<Seq<Num>> {
    Seq::new(
        (offset + rows.len()) as nat,
        |t: int|
            if t < offset {
                row4(given(kept_keys(kept)), b, g, t)
            } else {
                key(w, rows[t - offset], dtype, g, t)
            },
    )
}

/// The values of head `g` of sequence `b`.
pub open spec fn values(
    w: AttentionView,
    rows: Seq<Seq<Num>>,
    dtype: DType,
    offset: usize,
    kept: Kept,
    b: int,
    g: int,
) -> Seq<Seq<Num>> {
    Seq::new(
        (offset + rows.len()) as nat,
        |t: int|
            if t < offset {
                row4(given(kept_values(kept)), b, g, t)
            } else {
                value(w, rows[t - offset], dtype, g)
            },
    )
}

/// What attention makes of position `l` of sequence `b`, given the rows of its
/// positions: each head reads its values, and all heads are projected.
pub open spec fn output(
    w: AttentionView,
    rows: Seq<Seq<Num>>,
    dtype: DType,
    mask: Option<TensorView>,
    offset: usize,
    kept: Kept,
    b: int,
    l: int,
) -> Seq<Num> {
    let d = w.head_dim as int;
    let inner = Seq::new(
        (w.n_head * w.head_dim) as nat,
        |i: int|
            {
                let h = i / d;
                let g = h / w.groups as int;
                let read = reading(
                    query(w, rows[l], dtype, h, offset + l),
                    keys(w, rows, dtype, offset, kept, b, g),
                    values(w, rows, dtype, offset, kept, b, g),
                    None,
                    mask_row(mask, l, w.dtype),
                );
                cast(read[i % d], w.dtype, dtype)
            },
    );
    projection(w.o, rows[l].len(), inner)
}

/// What a call of attention is asked for: rows of as many numbers as the layer takes,
/// angles for the heads, and the keys and values of the positions before.
pub open spec fn asked(
    w: AttentionView,
    x: Run,
    mask: Option<TensorView>,
    offset: usize,
    kept: Kept,
) -> bool {
    &&& x.dims().len() == 3
    &&& attention_shaped(w, x.dims()[2])
    &&& w.groups > 0
    &&& offset + x.dims()[1] <= usize::MAX
    &&& w.rotary.cos.dims.len() == 2
    &&& w.rotary.sin.dims.len() == 2
    &&& w.rotary.cos.dims[1] * 2 == w.head_dim
    &&& w.rotary.sin.dims[1] * 2 == w.head_dim
    &&& offset > 0 ==> kept is Some && kept_keys(kept).dims == seq![
        x.dims()[0],
        w.n_kv_head,
        offset,
        w.head_dim,
    ] && kept_values(kept).dims == kept_keys(kept).dims
    &&& mask is Some ==> mask->0.dims == seq![
        1,
        1,
        x.dims()[1],
        (offset + x.dims()[1]) as usize,
    ]
    &&& attended(w, x, mask, offset, kept).sound
}

/// A projection split into heads, row by row.
proof fn lemma_heads_of_by_row(
    w: AttentionView,
    x: Run,
    weight: QTensor,
    n: usize,
    b: int,
    h: int,
    l: int,
)
    requires
        x.dims().len() == 3,
        n * w.head_dim <= usize::MAX,
        qtensor_dims(weight) == seq![(n * w.head_dim) as usize, x.dims()[2]],
        0 <= b < x.dims()[0],
        0 <= l < x.dims()[1],
        0 <= h < n,
    ensures
        heads_of(w, x, through(x, weight), n).dims() == seq![
            x.dims()[0],
            n,
            x.dims()[1],
            w.head_dim,
        ],
        row4(heads_of(w, x, through(x, weight), n), b, h, l) == head(
            weight,
            w.head_dim as int,
            row3(x, b, l),
            h,
        ),
{
    let d = w.head_dim;
    let y = through(x, weight);
    let z = heads_of(w, x, y, n);
    assert(y.dims() =~= seq![x.dims()[0], x.dims()[1], (n * d) as usize]);
    heads_by_row(y, x.dims()[0], x.dims()[1], n, d, b, h, l);
    projections_by_row(x, weight, b, l);
    assert(0 <= h * d && h * d + d <= n * d) by (nonlinear_arith)
        requires
            0 <= h < n,
            0 <= d,
    ;
    assert(z.dims() =~= seq![x.dims()[0], n, x.dims()[1], d]);
    assert(row4(z, b, h, l) =~= head(weight, d as int, row3(x, b, l), h));
}

/// The queries of a position are those of its row.
pub proof fn queries_by_row(w: AttentionView, x: Run, offset: usize, b: int, h: int, l: int)
    requires
        x.dims().len() == 3,
        attention_shaped(w, x.dims()[2]),
        w.rotary.cos.dims.len() == 2,
        w.rotary.sin.dims.len() == 2,
        w.rotary.cos.dims[1] * 2 == w.head_dim,
        w.rotary.sin.dims[1] * 2 == w.head_dim,
        0 <= b < x.dims()[0],
        0 <= l < x.dims()[1],
        0 <= h < w.n_head,
    ensures
        queries(w, x, offset).dims() == seq![x.dims()[0], w.n_head, x.dims()[1], w.head_dim],
        row4(queries(w, x, offset), b, h, l) == query(
            w,
            row3(x, b, l),
            x.dtype(),
            h,
            offset + l,
        ),
{
    let y = heads_of(w, x, through(x, w.q), w.n_head);
    let n = normed(y, w.q_norm);
    let c = plain_queries(w, x);
    lemma_heads_of_by_row(w, x, w.q, w.n_head, b, h, l);
    head_norms_by_row(y, w.q_norm, b, h, l);
    converted_by_row(n, w.dtype, b, h, l);
    stored_by_row(c, b, h, l);
    rotations_by_row(w.rotary, stored(c), offset, c.dims()[2], b, h, l);
}

/// The keys of a call are those of the rows of its positions, and so are the values.
pub proof fn new_keys_values_by_row(
    w: AttentionView,
    x: Run,
    offset: usize,
    b: int,
    g: int,
    l: int,
)
    requires
        x.dims().len() == 3,
        attention_shaped(w, x.dims()[2]),
        w.rotary.cos.dims.len() == 2,
        w.rotary.sin.dims.len() == 2,
        w.rotary.cos.dims[1] * 2 == w.head_dim,
        w.rotary.sin.dims[1] * 2 == w.head_dim,
        0 <= b < x.dims()[0],
        0 <= l < x.dims()[1],
        0 <= g < w.n_kv_head,
    ensures
        row4(new_keys(w, x, offset), b, g, l) == key(
            w,
            row3(x, b, l),
            x.dtype(),
            g,
            offset + l,
        ),
        row4(new_values(w, x), b, g, l) == value(w, row3(x, b, l), x.dtype(), g),
{
    let k = heads_of(w, x, raw_keys(w, x), w.n_kv_head);
    let n = normed(k, w.k_norm);
    let c = converted(n, w.dtype);
    lemma_heads_of_by_row(w, x, w.k, w.n_kv_head, b, g, l);
    head_norms_by_row(k, w.k_norm, b, g, l);
    converted_by_row(n, w.dtype, b, g, l);
    stored_by_row(c, b, g, l);
    rotations_by_row(w.rotary, stored(c), offset, plain_queries(w, x).dims()[2], b, g, l);
    let v = heads_of(w, x, raw_values(w, x), w.n_kv_head);
    if let Some(q) = w.v {
        lemma_heads_of_by_row(w, x, q, w.n_kv_head, b, g, l);
    }
    unscaled_norms_by_row(v, w.eps, b, g, l);
    converted_by_row(unscaled_norm(v, w.eps), w.dtype, b, g, l);
}

/// The dims of the keys and values of a call, with those kept.
proof fn lemma_all_dims(
    w: AttentionView,
    x: Run,
    mask: Option<TensorView>,
    offset: usize,
    kept: Kept,
)
    requires
        asked(w, x, mask, offset, kept),
    ensures
        ({
            let (k, v) = all_keys_values(w, x, offset, kept);
            let dims = seq![
                x.dims()[0],
                w.n_kv_head,
                (offset + x.dims()[1]) as usize,
                w.head_dim,
            ];
            &&& k.dims() == dims
            &&& v.dims() == dims
            &&& new_keys(w, x, offset).dims() == dims.update(2, x.dims()[1])
            &&& new_values(w, x).dims() == dims.update(2, x.dims()[1])
        }),
{
    let dims = seq![x.dims()[0], w.n_kv_head, (offset + x.dims()[1]) as usize, w.head_dim];
    let nk = new_keys(w, x, offset);
    let nv = new_values(w, x);
    let raw = heads_of(w, x, raw_values(w, x), w.n_kv_head);
    assert(nk.dims() =~= dims.update(2, x.dims()[1]));
    assert(raw.dims() =~= dims.update(2, x.dims()[1]));
    assert(nv.dims() =~= broadcast_dims(raw.dims(), raw.dims().update(3, 1)));
    assert(nv.dims() =~= dims.update(2, x.dims()[1]));
    let (k, v) = all_keys_values(w, x, offset, kept);
    if offset > 0 {
        let (kc, vc) = kept->0;
        lemma_joined_dim(kc, nk.view, 2);
        lemma_joined_dim(vc, nv.view, 2);
        assert(k == joined(given(kc), nk, 2));
        assert(v == joined(given(vc), nv, 2));
    }
    assert(k.dims() =~= dims);
    assert(v.dims() =~= dims);
}

/// What is kept after a call: for each head of each sequence the keys and values kept
/// before it, then those of its positions, each from the row of that position.
pub proof fn kept_by_row(
    w: AttentionView,
    x: Run,
    mask: Option<TensorView>,
    offset: usize,
    kept: Kept,
    b: int,
    g: int,
)
    requires
        asked(w, x, mask, offset, kept),
        0 <= b < x.dims()[0],
        0 <= g < w.n_kv_head,
    ensures
        ({
            let (k, v) = kept_after(w, x, offset, kept);
            &&& rows4(given(k), b, g) == keys(w, rows3(x, b), x.dtype(), offset, kept, b, g)
            &&& rows4(given(v), b, g) == values(w, rows3(x, b), x.dtype(), offset, kept, b, g)
        }),
{
    lemma_all_dims(w, x, mask, offset, kept);
    let (kv, vv) = kept_after(w, x, offset, kept);
    let (k, v) = all_keys_values(w, x, offset, kept);
    let nk = new_keys(w, x, offset);
    let nv = new_values(w, x);
    if offset > 0 {
        let (kc, vc) = kept->0;
        assert(kc.dims =~= nk.dims().update(2, offset));
        assert(vc.dims =~= nv.dims().update(2, offset));
    }
    let n = (offset + x.dims()[1]) as int;
    let ks = keys(w, rows3(x, b), x.dtype(), offset, kept, b, g);
    let vs = values(w, rows3(x, b), x.dtype(), offset, kept, b, g);
    assert forall|t: int| 0 <= t < n implies row4(given(kv), b, g, t) == #[trigger] ks[t]
        && row4(given(vv), b, g, t) == vs[t] by {
        appended_by_row(kept, nk, nv, offset, b, g, t);
        assert(row4(given(kv), b, g, t) =~= row4(k, b, g, t));
        assert(row4(given(vv), b, g, t) =~= row4(v, b, g, t));
        if t >= offset {
            new_keys_values_by_row(w, x, offset, b, g, t - offset);
        }
    }
    assert(rows4(given(kv), b, g) =~= ks);
    assert forall|t: int| 0 <= t < n implies row4(given(vv), b, g, t) == #[trigger] vs[t] by {
        assert(row4(given(kv), b, g, t) == ks[t]);
    }
    assert(rows4(given(vv), b, g) =~= vs);
}

/// Each row of the output is made from the row of its own position, and from the keys
/// and values of its own sequence: those kept and those of the positions of the call.
pub proof fn attention_by_row(
    w: AttentionView,
    x: Run,
    mask: Option<TensorView>,
    offset: usize,
    kept: Kept,
    b: int,
    l: int,
)
    requires
        asked(w, x, mask, offset, kept),
        0 <= b < x.dims()[0],
        0 <= l < x.dims()[1],
    ensures
        row3(attended(w, x, mask, offset, kept), b, l) == output(
            w,
            rows3(x, b),
            x.dtype(),
            mask,
            offset,
            kept,
            b,
            l,
        ),
{
    reveal(attended);
    let d = w.head_dim as int;
    let wide = (w.n_head * w.head_dim) as usize;
    let r = row3(x, b, l);
    let q = queries(w, x, offset);
    let (k, v) = all_keys_values(w, x, offset, kept);
    let (kv, vv) = kept_after(w, x, offset, kept);
    let ctx = read_values(w, q, k, v, mask);
    let flat = reshaped(transposed(ctx, 1, 2), seq![x.dims()[0], x.dims()[1], wide]);
    let c = converted(flat, x.dtype());
    lemma_all_dims(w, x, mask, offset, kept);
    let rows = rows3(x, b);
    assert(rows[l] == r);
    let inner = Seq::new(
        wide as nat,
        |i: int|
            {
                let h = i / d;
                let g = h / w.groups as int;
                let read = reading(
                    query(w, rows[l], x.dtype(), h, offset + l),
                    keys(w, rows, x.dtype(), offset, kept, b, g),
                    values(w, rows, x.dtype(), offset, kept, b, g),
                    None,
                    mask_row(mask, l, w.dtype),
                );
                cast(read[i % d], w.dtype, x.dtype())
            },
    );
    assert(w.n_head > 0) by {
        assert(w.n_kv_head * w.groups > 0) by (nonlinear_arith)
            requires
                w.n_kv_head > 0,
                w.groups > 0,
        ;
    }
    queries_by_row(w, x, offset, b, 0, l);
    assert(ctx == readings(q, k, v, w.groups, None, mask));
    assert(repeat_heads(k, w.groups).sound && repeat_heads(v, w.groups).sound);
    readings_by_row(q, k, v, w.groups, None, mask, b, 0, l);
    flattened_by_row(ctx, b, l);
    assert forall|i: int| 0 <= i < wide implies #[trigger] c.at3(b, l, i) == inner[i] by {
        let h = i / d;
        let g = h / w.groups as int;
        lemma_place(i, w.n_head as int, d);
        lemma_place(h, w.n_kv_head as int, w.groups as int);
        element_converted(flat.view, x.dtype(), seq![b, l, i]);
        assert(row3(flat, b, l)[i] == flat.at3(b, l, i));
        queries_by_row(w, x, offset, b, h, l);
        readings_by_row(q, k, v, w.groups, None, mask, b, h, l);
        kept_by_row(w, x, mask, offset, kept, b, g);
        assert(rows4(k, b, g) =~= rows4(given(kv), b, g)) by {
            assert forall|t: int| 0 <= t < k.dims()[2] implies row4(k, b, g, t) == #[trigger] row4(
                given(kv),
                b,
                g,
                t,
            ) by {
                assert(row4(given(kv), b, g, t) =~= row4(k, b, g, t));
            }
        }
        assert(rows4(v, b, g) =~= rows4(given(vv), b, g)) by {
            assert forall|t: int| 0 <= t < v.dims()[2] implies row4(v, b, g, t) == #[trigger] row4(
                given(vv),
                b,
                g,
                t,
            ) by {
                assert(row4(given(vv), b, g, t) =~= row4(v, b, g, t));
            }
        }
    }
    assert(row3(c, b, l) =~= inner);
    projections_by_row(c, w.o, b, l);
}

} // verus!
