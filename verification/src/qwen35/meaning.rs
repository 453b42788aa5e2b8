//! What gated attention computes, number by number.

use crate::attention::{lemma_joined_dim, rotate, Kept};
use crate::formula::{
    against, appended_by_row, cast_row, converted_by_row, flattened_by_row, head_norms_by_row,
    heads_by_row, kept_keys, kept_values, lemma_place, lemma_split_columns, mask_row, projection,
    projections_by_row, reading, readings, readings_by_row, rotations_by_row, row3, row4, rows3,
    rows4, scaled, stored_by_row, table_row, turned,
};
use crate::nn::{normed, repeat_heads, through, RotaryView};
use crate::qwen35::attention::{
    all_keys_values, attended, attention_shaped, context, gates, kept_after, kv_heads, new_keys,
    new_values, partial_rotation_keeps_dims, partly_rotated, queries, queries_and_gates,
    read_values, width, AttentionView,
};
use crate::tensor::element::{
    cast, element_converted, element_joined, element_mapped, element_multiplied, element_narrowed,
    element_reshaped, element_stored, element_transposed, lemma_nth3, lemma_nth4, one, swapped,
    times, valid, Num,
};
use crate::tensor::raw::qtensor_dims;
use crate::tensor::run::{
    converted, given, joined, mapped, narrowed, paired, reshaped, stored, transposed, Run,
};
use crate::tensor::view::{Op, TensorView};
use candle_core::quantized::QTensor;
use candle_core::DType;
use vstd::prelude::*;

verus! {

/// A head at position `p`: its first dims rotated by the angles of the position, the
/// others as they are.
pub open spec fn positioned(r: RotaryView, rope: int, v: Seq<Num>, p: int) -> Seq<Num> {
    turned(v.take(rope), table_row(r.cos, p), table_row(r.sin, p)) + v.skip(rope)
}

/// The query of head `h` for a row at position `p`: of the rows of the query matrix,
/// `2 * head_dim` for each head, the first `head_dim`.
pub open spec fn query(w: AttentionView, r: Seq<Num>, dtype: DType, h: int, p: int) -> Seq<Num> {
    let d = w.head_dim as int;
    let plain = Seq::new(d as nat, |e: int| against(w.q, h * (2 * d) + e, r));
    positioned(
        w.rotary,
        w.rope_dim as int,
        cast_row(scaled(w.q_norm, plain), dtype, w.dtype),
        p,
    )
}

/// What gates head `h` for a row: the other `head_dim` rows of the query matrix.
pub open spec fn gate(w: AttentionView, r: Seq<Num>, h: int) -> Seq<Num> {
    let d = w.head_dim as int;
    Seq::new(d as nat, |e: int| against(w.q, h * (2 * d) + d + e, r))
}

/// The key of head `g` for a row at position `p`.
pub open spec fn key(w: AttentionView, r: Seq<Num>, dtype: DType, g: int, p: int) -> Seq<Num> {
    let d = w.head_dim as int;
    let plain = Seq::new(d as nat, |e: int| against(w.k, g * d + e, r));
    positioned(
        w.rotary,
        w.rope_dim as int,
        cast_row(scaled(w.k_norm, plain), dtype, w.dtype),
        p,
    )
}

/// The value of head `g` for a row.
pub open spec fn value(w: AttentionView, r: Seq<Num>, dtype: DType, g: int) -> Seq<Num> {
    let d = w.head_dim as int;
    cast_row(Seq::new(d as nat, |e: int| against(w.v, g * d + e, r)), dtype, w.dtype)
}

/// The keys of head `g` of sequence `b`: those kept, then those of the positions of a
/// call from `offset` on.
pub open spec fn keys(
    w: AttentionView,
    rows: Seq<Seq<Num>>,
    dtype: DType,
    offset: usize,
    kept: Kept,
    b: int,
    g: int,
) -> Seq<Seq<Num>> {
    Seq::new(
        (offset + rows.len()) as nat,
        |t: int|
            if t < offset {
                row4(given(kept_keys(kept)), b, g, t)
            } else {
                key(w, rows[t - offset], dtype, g, t)
            },
    )
}

/// The values of head `g` of sequence `b`.
pub open spec fn values(
    w: AttentionView,
    rows: Seq<Seq<Num>>,
    dtype: DType,
    offset: usize,
    kept: Kept,
    b: int,
    g: int,
) -> Seq<Seq<Num>> {
    Seq::new(
        (offset + rows.len()) as nat,
        |t: int|
            if t < offset {
                row4(given(kept_values(kept)), b, g, t)
            } else {
                value(w, rows[t - offset], dtype, g)
            },
    )
}

/// What the layer makes of position `l` of sequence `b`, given the rows of its
/// positions: each head reads its values, times the sigmoid of its gate, and all heads
/// are projected.
pub open spec fn output(
    w: AttentionView,
    rows: Seq<Seq<Num>>,
    dtype: DType,
    mask: Option<TensorView>,
    offset: usize,
    kept: Kept,
    b: int,
    l: int,
) -> Seq<Num> {
    let d = w.head_dim as int;
    let inner = Seq::new(
        width(w) as nat,
        |i: int|
            {
                let h = i / d;
                let g = h / w.groups as int;
                let read = reading(
                    query(w, rows[l], dtype, h, offset + l),
                    keys(w, rows, dtype, offset, kept, b, g),
                    values(w, rows, dtype, offset, kept, b, g),
                    Some(w.scale),
                    mask_row(mask, l, w.dtype),
                );
                times(
                    cast(read[i % d], w.dtype, dtype),
                    one(Op::Sigmoid, gate(w, rows[l], h)[i % d]),
                )
            },
    );
    projection(w.o, rows[l].len(), inner)
}

/// What a call of attention is asked for: rows of as many numbers as the layer takes,
/// angles for the dims to rotate, and the keys and values of the positions before.
pub open spec fn asked(
    w: AttentionView,
    x: Run,
    mask: Option<TensorView>,
    offset: usize,
    kept: Kept,
) -> bool {
    &&& x.dims().len() == 3
    &&& attention_shaped(w, x.dims()[2])
    &&& w.groups > 0
    &&& offset + x.dims()[1] <= usize::MAX
    &&& w.rotary.cos.dims.len() == 2
    &&& w.rotary.sin.dims.len() == 2
    &&& w.rotary.cos.dims[1] * 2 == w.rope_dim
    &&& w.rotary.sin.dims[1] * 2 == w.rope_dim
    &&& offset > 0 ==> kept is Some && kept_keys(kept).dims == seq![
        x.dims()[0],
        w.num_kv_heads,
        offset,
        w.head_dim,
    ] && kept_values(kept).dims == kept_keys(kept).dims
    &&& mask is Some ==> mask->0.dims == seq![
        1,
        1,
        x.dims()[1],
        (offset + x.dims()[1]) as usize,
    ]
    &&& attended(w, x, mask, offset, kept).sound
}

/// Rotating a part of the dims of heads rotates that part of each head, by the angles
/// of its position.
pub proof fn partial_rotations_by_row(
    w: AttentionView,
    x: Run,
    offset: usize,
    b: int,
    h: int,
    l: int,
)
    requires
        x.dims().len() == 4,
        w.rope_dim <= x.dims()[3],
        w.rotary.cos.dims.len() == 2,
        w.rotary.sin.dims.len() == 2,
        w.rotary.cos.dims[1] * 2 == w.rope_dim,
        w.rotary.sin.dims[1] * 2 == w.rope_dim,
    ensures
        row4(partly_rotated(w, x, offset), b, h, l) == positioned(
            w.rotary,
            w.rope_dim as int,
            row4(x, b, h, l),
            offset + l,
        ),
{
    let rope = w.rope_dim;
    let rest = (x.dims()[3] - rope) as usize;
    let part = narrowed(x, 3, 0, rope);
    let front = stored(part);
    let turned_part = rotate(w.rotary, front, offset, x.dims()[2]);
    let passed = narrowed(x, 3, rope, rest);
    let y = partly_rotated(w, x, offset);
    let v = row4(x, b, h, l);
    let want = positioned(w.rotary, rope as int, v, offset + l);
    partial_rotation_keeps_dims(w, x, offset);
    rotations_by_row(w.rotary, front, offset, x.dims()[2], b, h, l);
    assert(row4(front, b, h, l) == v.take(rope as int)) by {
        stored_by_row(part, b, h, l);
        assert forall|e: int| 0 <= e < rope implies #[trigger] part.at4(b, h, l, e) == v[e] by {
            element_narrowed(x.view, 3, 0, rope, seq![b, h, l, e]);
            assert(seq![b, h, l, e].update(3, e + 0) =~= seq![b, h, l, e]);
            assert(v[e] == x.at4(b, h, l, e));
        }
        assert(row4(part, b, h, l) =~= v.take(rope as int));
    }
    assert forall|e: int| 0 <= e < x.dims()[3] implies #[trigger] y.at4(b, h, l, e) == want[e] by {
        let at = seq![b, h, l, e];
        element_joined(turned_part.view, passed.view, 3, at);
        if e < rope {
            assert(row4(turned_part, b, h, l)[e] == turned_part.at4(b, h, l, e));
        } else {
            let back = at.update(3, e - rope);
            element_narrowed(x.view, 3, rope, rest, back);
            assert(back.update(3, back[3] + rope) =~= at);
            assert(v[e] == x.at4(b, h, l, e));
        }
    }
    assert(row4(y, b, h, l) =~= want);
}

/// Number `e` of what is projected for head `h`: a product with row
/// `h * 2 * head_dim + e` of the query matrix.
pub proof fn queries_and_gates_by_row(w: AttentionView, x: Run, b: int, l: int, h: int, e: int)
    requires
        x.dims().len() == 3,
        attention_shaped(w, x.dims()[2]),
        0 <= b < x.dims()[0],
        0 <= l < x.dims()[1],
        0 <= h < w.num_heads,
        0 <= e < 2 * w.head_dim,
    ensures
        queries_and_gates(w, x).at4(b, l, h, e) == against(
            w.q,
            h * (2 * w.head_dim) + e,
            row3(x, b, l),
        ),
{
    let n = w.num_heads;
    let d = w.head_dim;
    assert(2 * d <= usize::MAX && n * (2 * d) == 2 * (n * d)) by (nonlinear_arith)
        requires
            2 * (n * d) <= usize::MAX,
            n > 0,
    ;
    let dd = (2 * d) as usize;
    let rows = (n * dd) as usize;
    let y = through(x, w.q);
    assert(y.dims() =~= seq![x.dims()[0], x.dims()[1], rows]);
    let dims = seq![x.dims()[0], x.dims()[1], n, dd];
    let i = h * dd + e;
    assert(0 <= i < n * dd) by (nonlinear_arith)
        requires
            0 <= h < n,
            0 <= e < dd,
            i == h * dd + e,
    ;
    let source = seq![b, l, i];
    lemma_nth4(x.dims()[0], x.dims()[1], n, dd, b, l, h, e);
    lemma_nth3(x.dims()[0], x.dims()[1], rows, b, l, i);
    lemma_split_columns(b, l, x.dims()[1] as int, n as int, dd as int, h, e);
    assert(valid(y.dims(), source));
    element_reshaped(y.view, dims, seq![b, l, h, e], source);
    projections_by_row(x, w.q, b, l);
    assert(row3(y, b, l)[i] == y.at3(b, l, i));
}

/// The queries of a position are those of its row.
pub proof fn queries_by_row(w: AttentionView, x: Run, offset: usize, b: int, h: int, l: int)
    requires
        x.dims().len() == 3,
        attention_shaped(w, x.dims()[2]),
        w.rotary.cos.dims.len() == 2,
        w.rotary.sin.dims.len() == 2,
        w.rotary.cos.dims[1] * 2 == w.rope_dim,
        w.rotary.sin.dims[1] * 2 == w.rope_dim,
        0 <= b < x.dims()[0],
        0 <= l < x.dims()[1],
        0 <= h < w.num_heads,
    ensures
        queries(w, x, offset).dims() == seq![x.dims()[0], w.num_heads, x.dims()[1], w.head_dim],
        row4(queries(w, x, offset), b, h, l) == query(
            w,
            row3(x, b, l),
            x.dtype(),
            h,
            offset + l,
        ),
{
    let d = w.head_dim as int;
    let r = row3(x, b, l);
    let qg = queries_and_gates(w, x);
    let cut = narrowed(qg, 3, 0, w.head_dim);
    let t = transposed(cut, 1, 2);
    let q = stored(t);
    let plain = Seq::new(d as nat, |e: int| against(w.q, h * (2 * d) + e, r));
    assert(q.dims() =~= seq![x.dims()[0], w.num_heads, x.dims()[1], w.head_dim]);
    assert forall|e: int| 0 <= e < d implies #[trigger] q.at4(b, h, l, e) == plain[e] by {
        element_stored(t.view, seq![b, h, l, e]);
        element_transposed(cut.view, 1, 2, seq![b, h, l, e]);
        assert(swapped(seq![b, h, l, e], 1, 2) =~= seq![b, l, h, e]);
        element_narrowed(qg.view, 3, 0, w.head_dim, seq![b, l, h, e]);
        assert(seq![b, l, h, e].update(3, e + 0) =~= seq![b, l, h, e]);
        queries_and_gates_by_row(w, x, b, l, h, e);
    }
    assert(row4(q, b, h, l) =~= plain);
    let n = normed(q, w.q_norm);
    let c = converted(n, w.dtype);
    head_norms_by_row(q, w.q_norm, b, h, l);
    converted_by_row(n, w.dtype, b, h, l);
    partial_rotation_keeps_dims(w, c, offset);
    partial_rotations_by_row(w, c, offset, b, h, l);
}

/// The gates of a position are those of its row, head by head.
pub proof fn gates_by_row(w: AttentionView, x: Run, b: int, l: int)
    requires
        x.dims().len() == 3,
        attention_shaped(w, x.dims()[2]),
        0 <= b < x.dims()[0],
        0 <= l < x.dims()[1],
    ensures
        row3(gates(w, x), b, l) == Seq::new(
            width(w) as nat,
            |i: int| gate(w, row3(x, b, l), i / w.head_dim as int)[i % w.head_dim as int],
        ),
{
    let n = w.num_heads;
    let d = w.head_dim;
    let r = row3(x, b, l);
    let qg = queries_and_gates(w, x);
    let rest = narrowed(qg, 3, d, d);
    let dims = seq![x.dims()[0], x.dims()[1], width(w)];
    let y = gates(w, x);
    let want = Seq::new(width(w) as nat, |i: int| gate(w, r, i / d as int)[i % d as int]);
    assert(rest.dims() =~= seq![x.dims()[0], x.dims()[1], n, d]);
    assert forall|i: int| 0 <= i < width(w) implies #[trigger] y.at3(b, l, i) == want[i] by {
        let h = i / d as int;
        let e = i % d as int;
        lemma_place(i, n as int, d as int);
        let source = seq![b, l, h, e];
        lemma_nth3(x.dims()[0], x.dims()[1], width(w), b, l, i);
        lemma_nth4(x.dims()[0], x.dims()[1], n, d, b, l, h, e);
        lemma_split_columns(b, l, x.dims()[1] as int, n as int, d as int, h, e);
        assert(valid(rest.dims(), source));
        element_reshaped(rest.view, dims, seq![b, l, i], source);
        element_narrowed(qg.view, 3, d, d, source);
        assert(source.update(3, e + d) =~= seq![b, l, h, e + d]);
        queries_and_gates_by_row(w, x, b, l, h, e + d);
    }
    assert(row3(y, b, l) =~= want);
}

/// The keys or values of a position before they are normalised or converted.
proof fn lemma_kv_heads_by_row(w: AttentionView, x: Run, weight: QTensor, b: int, g: int, l: int)
    requires
        x.dims().len() == 3,
        w.num_kv_heads * w.head_dim <= usize::MAX,
        qtensor_dims(weight) == seq![(w.num_kv_heads * w.head_dim) as usize, x.dims()[2]],
        0 <= b < x.dims()[0],
        0 <= l < x.dims()[1],
        0 <= g < w.num_kv_heads,
    ensures
        kv_heads(w, x, weight).dims() == seq![
            x.dims()[0],
            w.num_kv_heads,
            x.dims()[1],
            w.head_dim,
        ],
        row4(kv_heads(w, x, weight), b, g, l) == Seq::new(
            w.head_dim as nat,
            |e: int| against(weight, g * w.head_dim + e, row3(x, b, l)),
        ),
{
    let n = w.num_kv_heads;
    let d = w.head_dim;
    let y = through(x, weight);
    assert(y.dims() =~= seq![x.dims()[0], x.dims()[1], (n * d) as usize]);
    heads_by_row(y, x.dims()[0], x.dims()[1], n, d, b, g, l);
    projections_by_row(x, weight, b, l);
    assert(0 <= g * d && g * d + d <= n * d) by (nonlinear_arith)
        requires
            0 <= g < n,
            0 <= d,
    ;
    assert(kv_heads(w, x, weight).dims() =~= seq![x.dims()[0], n, x.dims()[1], d]);
    assert(row4(kv_heads(w, x, weight), b, g, l) =~= Seq::new(
        d as nat,
        |e: int| against(weight, g * d + e, row3(x, b, l)),
    ));
}

/// The keys of a call are those of the rows of its positions, and so are the values.
pub proof fn new_keys_values_by_row(
    w: AttentionView,
    x: Run,
    offset: usize,
    b: int,
    g: int,
    l: int,
)
    requires
        x.dims().len() == 3,
        attention_shaped(w, x.dims()[2]),
        w.rotary.cos.dims.len() == 2,
        w.rotary.sin.dims.len() == 2,
        w.rotary.cos.dims[1] * 2 == w.rope_dim,
        w.rotary.sin.dims[1] * 2 == w.rope_dim,
        0 <= b < x.dims()[0],
        0 <= l < x.dims()[1],
        0 <= g < w.num_kv_heads,
    ensures
        row4(new_keys(w, x, offset), b, g, l) == key(
            w,
            row3(x, b, l),
            x.dtype(),
            g,
            offset + l,
        ),
        row4(new_values(w, x), b, g, l) == value(w, row3(x, b, l), x.dtype(), g),
{
    let k = kv_heads(w, x, w.k);
    let v = kv_heads(w, x, w.v);
    lemma_kv_heads_by_row(w, x, w.k, b, g, l);
    lemma_kv_heads_by_row(w, x, w.v, b, g, l);
    let n = normed(k, w.k_norm);
    let c = converted(n, w.dtype);
    head_norms_by_row(k, w.k_norm, b, g, l);
    converted_by_row(n, w.dtype, b, g, l);
    partial_rotations_by_row(w, c, offset, b, g, l);
    converted_by_row(v, w.dtype, b, g, l);
}

/// The dims of the keys and values of a call, with those kept.
proof fn lemma_all_dims(
    w: AttentionView,
    x: Run,
    mask: Option<TensorView>,
    offset: usize,
    kept: Kept,
)
    requires
        asked(w, x, mask, offset, kept),
    ensures
        ({
            let (k, v) = all_keys_values(w, x, offset, kept);
            let dims = seq![
                x.dims()[0],
                w.num_kv_heads,
                (offset + x.dims()[1]) as usize,
                w.head_dim,
            ];
            &&& k.dims() == dims
            &&& v.dims() == dims
            &&& new_keys(w, x, offset).dims() == dims.update(2, x.dims()[1])
            &&& new_values(w, x).dims() == dims.update(2, x.dims()[1])
        }),
{
    let dims = seq![x.dims()[0], w.num_kv_heads, (offset + x.dims()[1]) as usize, w.head_dim];
    let nk = new_keys(w, x, offset);
    let nv = new_values(w, x);
    let c = converted(normed(kv_heads(w, x, w.k), w.k_norm), w.dtype);
    partial_rotation_keeps_dims(w, c, offset);
    assert(nk.dims() =~= dims.update(2, x.dims()[1]));
    assert(nv.dims() =~= dims.update(2, x.dims()[1]));
    let (k, v) = all_keys_values(w, x, offset, kept);
    if offset > 0 {
        let (kc, vc) = kept->0;
        lemma_joined_dim(kc, nk.view, 2);
        lemma_joined_dim(vc, nv.view, 2);
        assert(k == joined(given(kc), nk, 2));
        assert(v == joined(given(vc), nv, 2));
    }
    assert(k.dims() =~= dims);
    assert(v.dims() =~= dims);
}

/// What is kept after a call: for each head of each sequence the keys and values kept
/// before it, then those of its positions, each from the row of that position.
pub proof fn kept_by_row(
    w: AttentionView,
    x: Run,
    mask: Option<TensorView>,
    offset: usize,
    kept: Kept,
    b: int,
    g: int,
)
    requires
        asked(w, x, mask, offset, kept),
        0 <= b < x.dims()[0],
        0 <= g < w.num_kv_heads,
    ensures
        ({
            let (k, v) = kept_after(w, x, offset, kept);
            &&& rows4(given(k), b, g) == keys(w, rows3(x, b), x.dtype(), offset, kept, b, g)
            &&& rows4(given(v), b, g) == values(w, rows3(x, b), x.dtype(), offset, kept, b, g)
        }),
{
    lemma_all_dims(w, x, mask, offset, kept);
    let (kv, vv) = kept_after(w, x, offset, kept);
    let (k, v) = all_keys_values(w, x, offset, kept);
    let nk = new_keys(w, x, offset);
    let nv = new_values(w, x);
    if offset > 0 {
        let (kc, vc) = kept->0;
        assert(kc.dims =~= nk.dims().update(2, offset));
        assert(vc.dims =~= nv.dims().update(2, offset));
    }
    let n = (offset + x.dims()[1]) as int;
    assert forall|t: int| 0 <= t < n implies row4(given(kv), b, g, t) == #[trigger] keys(
        w,
        rows3(x, b),
        x.dtype(),
        offset,
        kept,
        b,
        g,
    )[t] && row4(given(vv), b, g, t) == values(w, rows3(x, b), x.dtype(), offset, kept, b, g)[t] by {
        appended_by_row(kept, nk, nv, offset, b, g, t);
        assert(row4(given(kv), b, g, t) =~= row4(k, b, g, t));
        assert(row4(given(vv), b, g, t) =~= row4(v, b, g, t));
        if t >= offset {
            new_keys_values_by_row(w, x, offset, b, g, t - offset);
        }
    }
    assert(rows4(given(kv), b, g) =~= keys(w, rows3(x, b), x.dtype(), offset, kept, b, g));
    assert forall|t: int| 0 <= t < n implies row4(given(vv), b, g, t) == #[trigger] values(
        w,
        rows3(x, b),
        x.dtype(),
        offset,
        kept,
        b,
        g,
    )[t] by {
        assert(row4(given(kv), b, g, t) == keys(w, rows3(x, b), x.dtype(), offset, kept, b, g)[t]);
    }
    assert(rows4(given(vv), b, g) =~= values(w, rows3(x, b), x.dtype(), offset, kept, b, g));
}

/// Each row of the output is made from the row of its own position, and from the keys
/// and values of its own sequence: those kept and those of the positions of the call.
/// Sequences do not mix, nor do heads with those of another gate.
pub proof fn attention_by_row(
    w: AttentionView,
    x: Run,
    mask: Option<TensorView>,
    offset: usize,
    kept: Kept,
    b: int,
    l: int,
)
    requires
        asked(w, x, mask, offset, kept),
        0 <= b < x.dims()[0],
        0 <= l < x.dims()[1],
    ensures
        row3(attended(w, x, mask, offset, kept), b, l) == output(
            w,
            rows3(x, b),
            x.dtype(),
            mask,
            offset,
            kept,
            b,
            l,
        ),
{
    reveal(attended);
    let d = w.head_dim as int;
    let r = row3(x, b, l);
    let q = queries(w, x, offset);
    let (k, v) = all_keys_values(w, x, offset, kept);
    let (kv, vv) = kept_after(w, x, offset, kept);
    let ctx = read_values(w, q, k, v, mask);
    let flat = reshaped(transposed(ctx, 1, 2), seq![x.dims()[0], x.dims()[1], width(w)]);
    let c = context(w, x, mask, offset, kept);
    let gs = gates(w, x);
    let sig = mapped(Op::Sigmoid, gs);
    let gated = paired(Op::Mul, c, sig);
    let mr = mask_row(mask, l, w.dtype);
    lemma_all_dims(w, x, mask, offset, kept);
    gates_by_row(w, x, b, l);
    let rows = rows3(x, b);
    assert(rows[l] == r);
    let inner = Seq::new(
        width(w) as nat,
        |i: int|
            {
                let h = i / d;
                let g = h / w.groups as int;
                let read = reading(
                    query(w, rows[l], x.dtype(), h, offset + l),
                    keys(w, rows, x.dtype(), offset, kept, b, g),
                    values(w, rows, x.dtype(), offset, kept, b, g),
                    Some(w.scale),
                    mr,
                );
                times(
                    cast(read[i % d], w.dtype, x.dtype()),
                    one(Op::Sigmoid, gate(w, rows[l], h)[i % d]),
                )
            },
    );
    assert(w.num_heads > 0) by {
        assert(w.num_kv_heads * w.groups > 0) by (nonlinear_arith)
            requires
                w.num_kv_heads > 0,
                w.groups > 0,
        ;
    }
    queries_by_row(w, x, offset, b, 0, l);
    assert(ctx == readings(q, k, v, w.groups, Some(w.scale), mask));
    assert(repeat_heads(k, w.groups).sound && repeat_heads(v, w.groups).sound);
    readings_by_row(q, k, v, w.groups, Some(w.scale), mask, b, 0, l);
    flattened_by_row(ctx, b, l);
    assert forall|i: int| 0 <= i < width(w) implies #[trigger] gated.at3(b, l, i) == inner[i] by {
        let h = i / d;
        let g = h / w.groups as int;
        lemma_place(i, w.num_heads as int, d);
        lemma_place(h, w.num_kv_heads as int, w.groups as int);
        element_multiplied(c.view, sig.view, seq![b, l, i]);
        element_mapped(Op::Sigmoid, gs.view, seq![b, l, i]);
        element_converted(flat.view, x.dtype(), seq![b, l, i]);
        assert(row3(gs, b, l)[i] == gs.at3(b, l, i));
        assert(row3(flat, b, l)[i] == flat.at3(b, l, i));
        queries_by_row(w, x, offset, b, h, l);
        readings_by_row(q, k, v, w.groups, Some(w.scale), mask, b, h, l);
        kept_by_row(w, x, mask, offset, kept, b, g);
        assert(rows4(k, b, g) =~= rows4(given(kv), b, g)) by {
            assert forall|t: int| 0 <= t < k.dims()[2] implies row4(k, b, g, t) == #[trigger] row4(
                given(kv),
                b,
                g,
                t,
            ) by {
                assert(row4(given(kv), b, g, t) =~= row4(k, b, g, t));
            }
        }
        assert(rows4(v, b, g) =~= rows4(given(vv), b, g)) by {
            assert forall|t: int| 0 <= t < v.dims()[2] implies row4(v, b, g, t) == #[trigger] row4(
                given(vv),
                b,
                g,
                t,
            ) by {
                assert(row4(given(vv), b, g, t) =~= row4(v, b, g, t));
            }
        }
    }
    assert(row3(gated, b, l) =~= inner);
    projections_by_row(gated, w.o, b, l);
}

} // verus!
