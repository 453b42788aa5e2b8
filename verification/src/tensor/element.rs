//! The elements of a tensor: how each of them is computed from the elements of
//! other tensors.
//!
//! What a number is depends on the machine in its last bits. What is stated is the
//! computation: a formula over single elements. It tells apart what goes where: which
//! elements are multiplied with each other, what is summed up, in which row and at
//! which index a result stands.

use crate::tensor::run::Run;
use crate::tensor::sure::lemma_slices_of_copies;
use crate::tensor::view;
use crate::tensor::view::{slices_along, Made, Op, TensorView};
use candle_core::quantized::QTensor;
use candle_core::scalar::Scalar;
use candle_core::DType;
use vstd::prelude::*;

verus! {

/// How two numbers are put together.
pub enum Sign {
    Plus,
    Minus,
    Times,
    Over,
}

/// How a number is computed.
pub enum Num {
    Byte(u8),
    Zero,
    Whole(int),
    /// A value of a quantised tensor.
    Weight(QTensor, Seq<int>),
    /// A number in another element type.
    To(DType, Box<Num>),
    /// An operation on one number.
    One(Op, Box<Num>),
    Two(Sign, Box<Num>, Box<Num>),
    /// The number at an index of what an operation makes of a row.
    InRow(Op, Seq<Num>, int),
    /// The number at an index of a row, over the root of the mean square of the row,
    /// `eps` added below the root, times a weight.
    Normed(Scalar, Seq<Num>, int, Box<Num>),
    Sum(Seq<Num>),
    Mean(Seq<Num>),
    /// The sum of the products of two rows.
    Dot(Seq<Num>, Seq<Num>),
    /// The number of a row at a computed index.
    Pick(Seq<Num>, Box<Num>),
    /// The number of the second row at the index at which the first one holds the
    /// given number.
    Beside(Seq<Num>, Seq<Num>, int),
    /// The sum of the products of a row with a row, at an index, of one of the matrices
    /// of a quantised tensor: that with a computed number. It is computed in an element
    /// type, for a sequence from its start on or for a single position.
    DotIn(QTensor, Box<Num>, int, Seq<Num>, DType, bool),
}

pub open spec fn two(sign: Sign, a: Num, b: Num) -> Num {
    Num::Two(sign, Box::new(a), Box::new(b))
}

pub open spec fn plus(a: Num, b: Num) -> Num {
    two(Sign::Plus, a, b)
}

pub open spec fn times(a: Num, b: Num) -> Num {
    two(Sign::Times, a, b)
}

pub open spec fn minus(a: Num, b: Num) -> Num {
    two(Sign::Minus, a, b)
}

pub open spec fn over(a: Num, b: Num) -> Num {
    two(Sign::Over, a, b)
}

pub open spec fn one(op: Op, a: Num) -> Num {
    Num::One(op, Box::new(a))
}

/// A number of an element type in another one.
pub open spec fn cast(a: Num, from: DType, to: DType) -> Num {
    if from == to {
        a
    } else {
        Num::To(to, Box::new(a))
    }
}

/// The number of an element among those of a tensor, row by row.
pub open spec fn nth(dims: Seq<usize>, at: Seq<int>) -> int
    decreases dims.len(),
{
    if dims.len() == 0 {
        0
    } else {
        nth(dims.drop_last(), at.drop_last()) * dims.last() + at.last()
    }
}

/// The element with a number among those of a tensor, row by row.
pub open spec fn index_of(dims: Seq<usize>, n: int) -> Seq<int>
    decreases dims.len(),
{
    if dims.len() == 0 {
        Seq::empty()
    } else {
        index_of(dims.drop_last(), n / dims.last() as int).push(n % dims.last() as int)
    }
}

/// Two entries exchanged.
pub open spec fn swapped(at: Seq<int>, i: int, j: int) -> Seq<int> {
    at.update(i, at[j]).update(j, at[i])
}

/// The part that a slice along a dim comes from.
pub open spec fn part_of(parts: Seq<TensorView>, dim: usize, slice: int) -> int
    decreases parts.len(),
{
    if parts.len() <= 1 {
        0
    } else if slice >= slices_along(parts.drop_last(), dim) {
        parts.len() - 1
    } else {
        part_of(parts.drop_last(), dim, slice)
    }
}

/// An index into a tensor laid over another one of the given rank.
pub open spec fn laid_over(dims: Seq<usize>, at: Seq<int>) -> Seq<int> {
    let added = at.len() - dims.len();
    Seq::new(
        dims.len(),
        |i: int|
            if dims[i] == 1 {
                0
            } else {
                at[i + added]
            },
    )
}

/// The sign of an operation on two numbers.
pub open spec fn sign_of(op: Op) -> Sign {
    match op {
        Op::Add => Sign::Plus,
        Op::BroadcastAdd => Sign::Plus,
        Op::BroadcastDiv => Sign::Over,
        _ => Sign::Times,
    }
}

/// How an element of a tensor is computed.
#[verifier::opaque]
pub open spec fn element(x: TensorView, at: Seq<int>) -> Num
    decreases x,
{
    match x.made {
        Made::Bytes(data) => Num::Byte(data[nth(x.dims, at)]),
        Made::Zeros => Num::Zero,
        Made::Count(_) => Num::Whole(at[0]),
        Made::Dequantized(q) => Num::Weight(q, at),
        Made::By(op, args) => if args.len() == 0 {
            Num::Zero
        } else {
            let a = args[0];
            let n = at.len() - 1;
            match op {
                Op::Reshape(dims) => element(a, index_of(a.dims, nth(dims, at))),
                Op::Transpose(i, j) => element(a, swapped(at, i as int, j as int)),
                Op::ToDtype(dtype) => cast(element(a, at), a.dtype, dtype),
                Op::Narrow(dim, start, _) => element(
                    a,
                    at.update(dim as int, at[dim as int] + start),
                ),
                Op::Squeeze(dim) => if a.dims[dim as int] == 1 {
                    element(a, at.insert(dim as int, 0))
                } else {
                    element(a, at)
                },
                Op::Cat(dim) => {
                    let p = part_of(args, dim, at[dim as int]);
                    if 0 <= p < args.len() {
                        element(
                            args[p],
                            at.update(
                                dim as int,
                                at[dim as int] - slices_along(args.take(p), dim),
                            ),
                        )
                    } else {
                        Num::Zero
                    }
                },
                Op::Expand(_) => element(a, laid_over(a.dims, at)),
                Op::SoftmaxLastDim => Num::InRow(
                    op,
                    Seq::new(a.dims[n] as nat, |j: int| element(a, at.update(n, j))),
                    at[n],
                ),
                Op::SortLastDim(_) => Num::InRow(
                    op,
                    Seq::new(a.dims[n] as nat, |j: int| element(a, at.update(n, j))),
                    at[n],
                ),
                Op::ArgSortLastDim(_) => Num::InRow(
                    op,
                    Seq::new(a.dims[n] as nat, |j: int| element(a, at.update(n, j))),
                    at[n],
                ),
                Op::SumKeepdim(dim) => Num::Sum(
                    Seq::new(
                        a.dims[dim as int] as nat,
                        |j: int| element(a, at.update(dim as int, j)),
                    ),
                ),
                Op::MeanKeepdim(dim) => Num::Mean(
                    Seq::new(
                        a.dims[dim as int] as nat,
                        |j: int| element(a, at.update(dim as int, j)),
                    ),
                ),
                Op::Sum(dim) => Num::Sum(
                    Seq::new(
                        a.dims[dim as int] as nat,
                        |j: int| element(a, at.insert(dim as int, j)),
                    ),
                ),
                Op::QMatMul(q) => Num::Dot(
                    Seq::new(a.dims[n] as nat, |j: int| element(a, at.update(n, j))),
                    Seq::new(a.dims[n] as nat, |j: int| Num::Weight(q, seq![at[n], j])),
                ),
                _ => if args.len() == 1 {
                    one(op, element(a, at))
                } else {
                    let b = args[1];
                    match op {
                        Op::Matmul => Num::Dot(
                            Seq::new(a.dims[n] as nat, |j: int| element(a, at.update(n, j))),
                            Seq::new(
                                a.dims[n] as nat,
                                |j: int| element(b, at.update(n - 1, j)),
                            ),
                        ),
                        Op::Linear => Num::Dot(
                            Seq::new(a.dims[n] as nat, |j: int| element(a, at.update(n, j))),
                            Seq::new(a.dims[n] as nat, |j: int| element(b, seq![at[n], j])),
                        ),
                        Op::RmsNorm(eps) => Num::Normed(
                            eps,
                            Seq::new(a.dims[n] as nat, |j: int| element(a, at.update(n, j))),
                            at[n],
                            Box::new(element(b, seq![at[n]])),
                        ),
                        Op::BroadcastAdd | Op::BroadcastMul | Op::BroadcastDiv => two(
                            sign_of(op),
                            element(a, laid_over(a.dims, at)),
                            element(b, laid_over(b.dims, at)),
                        ),
                        Op::IndexSelect(dim) => Num::Pick(
                            Seq::new(
                                a.dims[dim as int] as nat,
                                |j: int| element(a, at.update(dim as int, j)),
                            ),
                            Box::new(element(b, seq![at[dim as int]])),
                        ),
                        Op::Gather(dim) => Num::Pick(
                            Seq::new(
                                a.dims[dim as int] as nat,
                                |j: int| element(a, at.update(dim as int, j)),
                            ),
                            Box::new(element(b, at)),
                        ),
                        Op::Embedding(_) => Num::Pick(
                            Seq::new(a.dims[0] as nat, |j: int| element(a, seq![j, at[n]])),
                            Box::new(element(b, at.drop_last())),
                        ),
                        Op::Rope => if args.len() == 3 {
                            let half = a.dims[3] as int / 2;
                            let e = at[3] % half;
                            let cos = element(b, seq![at[2], e]);
                            let sin = element(args[2], seq![at[2], e]);
                            let low = element(a, at.update(3, e));
                            let high = element(a, at.update(3, e + half));
                            if at[3] < half {
                                minus(times(low, cos), times(high, sin))
                            } else {
                                plus(times(low, sin), times(high, cos))
                            }
                        } else {
                            Num::Zero
                        },
                        Op::MoeGemm { experts, topk, is_prefill, dtype } => if args.len() >= 3 {
                            let ids = args[2];
                            let pick = at[0];
                            let row = if args.len() == 4 {
                                pick
                            } else {
                                pick / topk as int
                            };
                            let expert = Num::Beside(
                                Seq::new(b.dims[0] as nat, |j: int| element(b, seq![j])),
                                Seq::new(b.dims[0] as nat, |j: int| element(ids, seq![j])),
                                pick,
                            );
                            let product = Num::DotIn(
                                experts,
                                Box::new(expert),
                                at[1],
                                Seq::new(a.dims[1] as nat, |j: int| element(a, seq![row, j])),
                                dtype,
                                is_prefill,
                            );
                            if args.len() == 4 {
                                let w = args[3];
                                times(product, element(w, index_of(w.dims, pick)))
                            } else {
                                product
                            }
                        } else {
                            Num::Zero
                        },
                        _ => two(sign_of(op), element(a, at), element(b, at)),
                    }
                },
            }
        },
    }
}

impl Run {
    /// How an element of what comes out is computed.
    pub open spec fn at(self, at: Seq<int>) -> Num {
        element(self.view, at)
    }

    /// How element (t, j) of a matrix is computed.
    pub open spec fn at2(self, t: int, j: int) -> Num {
        element(self.view, seq![t, j])
    }

    /// How element (b, l, j) is computed.
    pub open spec fn at3(self, b: int, l: int, j: int) -> Num {
        element(self.view, seq![b, l, j])
    }

    /// How element (b, h, l, e) is computed.
    pub open spec fn at4(self, b: int, h: int, l: int, e: int) -> Num {
        element(self.view, seq![b, h, l, e])
    }
}

/// An index into a tensor.
pub open spec fn valid(dims: Seq<usize>, at: Seq<int>) -> bool {
    at.len() == dims.len() && forall|i: int|
        0 <= i < dims.len() ==> 0 <= #[trigger] at[i] < dims[i]
}

/// The row of a tensor that an element stands in.
pub open spec fn row(x: TensorView, at: Seq<int>) -> Seq<Num> {
    Seq::new(x.dims.last() as nat, |j: int| element(x, at.update(at.len() - 1, j)))
}

/// A row of a quantised matrix.
pub open spec fn weights(q: QTensor, o: int, len: nat) -> Seq<Num> {
    Seq::new(len, |j: int| Num::Weight(q, seq![o, j]))
}

/// An operation on each number by itself.
pub open spec fn by_itself(op: Op) -> bool {
    match op {
        Op::MulScalar(_) | Op::AddScalar(_) | Op::DivScalar(_) => true,
        Op::Sqr | Op::Sqrt | Op::Sin | Op::Cos | Op::Tanh | Op::Log => true,
        Op::Gelu | Op::Silu | Op::Sigmoid => true,
        _ => false,
    }
}

/// An operation on single numbers acts on each element.
pub proof fn element_mapped(op: Op, x: TensorView, at: Seq<int>)
    requires
        by_itself(op),
    ensures
        element(view::mapped(op, x), at) == one(op, element(x, at)),
{
    reveal(element);
}

/// The softmax is that of each row.
pub proof fn element_softmax(x: TensorView, at: Seq<int>)
    requires
        at.len() == x.dims.len(),
        at.len() > 0,
    ensures
        element(view::mapped(Op::SoftmaxLastDim, x), at) == Num::InRow(
            Op::SoftmaxLastDim,
            row(x, at),
            at.last(),
        ),
{
    reveal_with_fuel(element, 2);
    let y = view::mapped(Op::SoftmaxLastDim, x);
    match element(y, at) {
        Num::InRow(_, s, _) => {
            assert(s =~= row(x, at));
        },
        _ => {},
    }
}

/// Rows are sorted each by itself, and so is the order of their elements.
pub proof fn element_sorted(x: TensorView, asc: bool, at: Seq<int>)
    requires
        at.len() == x.dims.len(),
        at.len() > 0,
    ensures
        element(view::sorted(x, asc), at) == Num::InRow(
            Op::SortLastDim(asc),
            row(x, at),
            at.last(),
        ),
        element(view::ordered_indexes(x, asc), at) == Num::InRow(
            Op::ArgSortLastDim(asc),
            row(x, at),
            at.last(),
        ),
{
    reveal_with_fuel(element, 2);
    match element(view::sorted(x, asc), at) {
        Num::InRow(_, s, _) => {
            assert(s =~= row(x, at));
        },
        _ => {},
    }
    match element(view::ordered_indexes(x, asc), at) {
        Num::InRow(_, s, _) => {
            assert(s =~= row(x, at));
        },
        _ => {},
    }
}

/// Rows are normalised each by itself, with the weight of the column.
pub proof fn element_normed(eps: Scalar, x: TensorView, y: TensorView, at: Seq<int>)
    requires
        at.len() == x.dims.len(),
        at.len() > 0,
    ensures
        element(view::paired(Op::RmsNorm(eps), x, y), at) == Num::Normed(
            eps,
            row(x, at),
            at.last(),
            Box::new(element(y, seq![at.last()])),
        ),
{
    reveal_with_fuel(element, 2);
    match element(view::paired(Op::RmsNorm(eps), x, y), at) {
        Num::Normed(_, s, _, _) => {
            assert(s =~= row(x, at));
        },
        _ => {},
    }
}

/// A sum adds elements at the same index.
pub proof fn element_added(x: TensorView, y: TensorView, at: Seq<int>)
    ensures
        element(view::paired(Op::Add, x, y), at) == plus(element(x, at), element(y, at)),
{
    reveal(element);
}

/// A product multiplies elements at the same index.
pub proof fn element_multiplied(x: TensorView, y: TensorView, at: Seq<int>)
    ensures
        element(view::paired(Op::Mul, x, y), at) == times(element(x, at), element(y, at)),
{
    reveal(element);
}

/// Storing a tensor row by row keeps its elements.
pub proof fn element_stored(x: TensorView, at: Seq<int>)
    ensures
        element(view::stored(x), at) == element(x, at),
{
    reveal(element);
}

/// Of a transposed tensor the two indexes are exchanged.
pub proof fn element_transposed(x: TensorView, i: usize, j: usize, at: Seq<int>)
    ensures
        element(view::transposed(x, i, j), at) == element(x, swapped(at, i as int, j as int)),
{
    reveal(element);
}

/// Each element is converted.
pub proof fn element_converted(x: TensorView, dtype: DType, at: Seq<int>)
    ensures
        element(view::converted(x, dtype), at) == cast(element(x, at), x.dtype, dtype),
{
    reveal(element);
}

/// The slices of a part are those from its start on.
pub proof fn element_narrowed(x: TensorView, dim: usize, start: usize, len: usize, at: Seq<int>)
    ensures
        element(view::narrowed(x, dim, start, len), at) == element(
            x,
            at.update(dim as int, at[dim as int] + start),
        ),
{
    reveal(element);
}

/// A dim of one slice is left out.
pub proof fn element_squeezed(x: TensorView, dim: usize, at: Seq<int>)
    requires
        x.dims[dim as int] == 1,
    ensures
        element(view::squeezed(x, dim), at) == element(x, at.insert(dim as int, 0)),
{
    reveal(element);
}

/// A dim of one slice stands for many.
pub proof fn element_expanded(x: TensorView, dims: Seq<usize>, at: Seq<int>)
    ensures
        element(view::expanded(x, dims), at) == element(x, laid_over(x.dims, at)),
{
    reveal(element);
}

/// An operation on tensors laid over each other acts on the elements that come to lie
/// on each other.
pub proof fn element_broadcast(op: Op, x: TensorView, y: TensorView, at: Seq<int>)
    requires
        op is BroadcastAdd || op is BroadcastMul || op is BroadcastDiv,
    ensures
        element(view::broadcast(op, x, y), at) == two(
            sign_of(op),
            element(x, laid_over(x.dims, at)),
            element(y, laid_over(y.dims, at)),
        ),
{
    reveal(element);
}

/// An element of a matrix product is the product of a row with a column.
pub proof fn element_product(x: TensorView, y: TensorView, at: Seq<int>)
    requires
        at.len() == x.dims.len(),
        at.len() >= 2,
    ensures
        element(view::multiplied(x, y), at) == Num::Dot(
            row(x, at),
            Seq::new(x.dims.last() as nat, |j: int| element(y, at.update(at.len() - 2, j))),
        ),
{
    reveal_with_fuel(element, 2);
    match element(view::multiplied(x, y), at) {
        Num::Dot(s, t) => {
            assert(s =~= row(x, at));
            assert(t =~= Seq::new(
                x.dims.last() as nat,
                |j: int| element(y, at.update(at.len() - 2, j)),
            ));
        },
        _ => {},
    }
}

/// A linear layer multiplies each row with the rows of its weights.
pub proof fn element_linear(x: TensorView, w: TensorView, at: Seq<int>)
    requires
        at.len() == x.dims.len(),
        at.len() == 2,
    ensures
        element(view::linear(x, w), at) == Num::Dot(
            row(x, at),
            Seq::new(x.dims.last() as nat, |j: int| element(w, seq![at[1], j])),
        ),
{
    reveal_with_fuel(element, 2);
    match element(view::linear(x, w), at) {
        Num::Dot(s, t) => {
            assert(s =~= row(x, at));
            assert(t =~= Seq::new(x.dims.last() as nat, |j: int| element(w, seq![at[1], j])));
        },
        _ => {},
    }
}

/// A projection multiplies each row with the rows of a quantised matrix.
pub proof fn element_projected(x: TensorView, q: QTensor, rows: usize, at: Seq<int>)
    requires
        at.len() == x.dims.len(),
        at.len() > 0,
    ensures
        element(view::projected(x, q, rows), at) == Num::Dot(
            row(x, at),
            weights(q, at.last(), x.dims.last() as nat),
        ),
{
    reveal_with_fuel(element, 2);
    match element(view::projected(x, q, rows), at) {
        Num::Dot(s, t) => {
            assert(s =~= row(x, at));
            assert(t =~= weights(q, at.last(), x.dims.last() as nat));
        },
        _ => {},
    }
}

/// A rotation turns the two halves of each row against each other.
pub proof fn element_rotated(x: TensorView, cos: TensorView, sin: TensorView, at: Seq<int>)
    ensures
        ({
            let half = x.dims[3] as int / 2;
            let e = at[3] % half;
            let low = element(x, at.update(3, e));
            let high = element(x, at.update(3, e + half));
            let c = element(cos, seq![at[2], e]);
            let s = element(sin, seq![at[2], e]);
            element(view::rotated(x, cos, sin), at) == if at[3] < half {
                minus(times(low, c), times(high, s))
            } else {
                plus(times(low, s), times(high, c))
            }
        }),
{
    reveal(element);
}

/// A dim is summed up, or averaged, to one slice.
pub proof fn element_reduced(x: TensorView, dim: usize, at: Seq<int>)
    ensures
        element(view::reduced(Op::SumKeepdim(dim), x, dim), at) == Num::Sum(
            Seq::new(
                x.dims[dim as int] as nat,
                |j: int| element(x, at.update(dim as int, j)),
            ),
        ),
        element(view::reduced(Op::MeanKeepdim(dim), x, dim), at) == Num::Mean(
            Seq::new(
                x.dims[dim as int] as nat,
                |j: int| element(x, at.update(dim as int, j)),
            ),
        ),
{
    reveal_with_fuel(element, 2);
    match element(view::reduced(Op::SumKeepdim(dim), x, dim), at) {
        Num::Sum(s) => {
            assert(s =~= Seq::new(
                x.dims[dim as int] as nat,
                |j: int| element(x, at.update(dim as int, j)),
            ));
        },
        _ => {},
    }
    match element(view::reduced(Op::MeanKeepdim(dim), x, dim), at) {
        Num::Mean(s) => {
            assert(s =~= Seq::new(
                x.dims[dim as int] as nat,
                |j: int| element(x, at.update(dim as int, j)),
            ));
        },
        _ => {},
    }
}

/// A dim is summed up and left out.
pub proof fn element_summed(x: TensorView, dim: usize, at: Seq<int>)
    ensures
        element(view::summed(x, dim), at) == Num::Sum(
            Seq::new(
                x.dims[dim as int] as nat,
                |j: int| element(x, at.insert(dim as int, j)),
            ),
        ),
{
    reveal_with_fuel(element, 2);
    match element(view::summed(x, dim), at) {
        Num::Sum(s) => {
            assert(s =~= Seq::new(
                x.dims[dim as int] as nat,
                |j: int| element(x, at.insert(dim as int, j)),
            ));
        },
        _ => {},
    }
}

/// Elements, or slices, are picked along a dim.
pub proof fn element_picked(x: TensorView, indexes: TensorView, dim: usize, at: Seq<int>)
    ensures
        element(view::gathered(x, indexes, dim), at) == Num::Pick(
            Seq::new(
                x.dims[dim as int] as nat,
                |j: int| element(x, at.update(dim as int, j)),
            ),
            Box::new(element(indexes, at)),
        ),
        element(view::selected(x, indexes, dim), at) == Num::Pick(
            Seq::new(
                x.dims[dim as int] as nat,
                |j: int| element(x, at.update(dim as int, j)),
            ),
            Box::new(element(indexes, seq![at[dim as int]])),
        ),
{
    reveal_with_fuel(element, 2);
    match element(view::gathered(x, indexes, dim), at) {
        Num::Pick(s, _) => {
            assert(s =~= Seq::new(
                x.dims[dim as int] as nat,
                |j: int| element(x, at.update(dim as int, j)),
            ));
        },
        _ => {},
    }
    match element(view::selected(x, indexes, dim), at) {
        Num::Pick(s, _) => {
            assert(s =~= Seq::new(
                x.dims[dim as int] as nat,
                |j: int| element(x, at.update(dim as int, j)),
            ));
        },
        _ => {},
    }
}

/// Indexes stand for rows of a table.
#[verifier::spinoff_prover]
#[verifier::rlimit(40)]
pub proof fn element_embedded(
    table: TensorView,
    indexes: TensorView,
    hidden: usize,
    at: Seq<int>,
)
    requires
        at.len() > 0,
    ensures
        element(view::embedded(table, indexes, hidden), at) == Num::Pick(
            Seq::new(table.dims[0] as nat, |j: int| element(table, seq![j, at.last()])),
            Box::new(element(indexes, at.drop_last())),
        ),
{
    reveal_with_fuel(element, 2);
    match element(view::embedded(table, indexes, hidden), at) {
        Num::Pick(s, _) => {
            assert(s =~= Seq::new(
                table.dims[0] as nat,
                |j: int| element(table, seq![j, at.last()]),
            ));
        },
        _ => {},
    }
}

/// The elements of a dequantised tensor are its values.
pub proof fn element_dequantized(q: QTensor, dims: Seq<usize>, place: view::Place, at: Seq<int>)
    ensures
        element(view::dequantized(q, dims, place), at) == Num::Weight(q, at),
{
    reveal(element);
}

/// Bytes are given row by row.
pub proof fn element_bytes(data: Seq<u8>, dims: Seq<usize>, place: view::Place, at: Seq<int>)
    ensures
        element(view::bytes(data, dims, place), at) == Num::Byte(data[nth(dims, at)]),
{
    reveal(element);
}

/// Zeros are zero.
pub proof fn element_zeros(dims: Seq<usize>, dtype: DType, place: view::Place, at: Seq<int>)
    ensures
        element(view::zeros(dims, dtype, place), at) == Num::Zero,
{
    reveal(element);
}

/// Numbers are counted from 0 on.
pub proof fn element_counted(n: u32, place: view::Place, at: Seq<int>)
    ensures
        element(view::counted(n, place), at) == Num::Whole(at[0]),
{
    reveal(element);
}

/// The index of the element with the number of a valid index is that index.
pub proof fn lemma_index_of_nth(dims: Seq<usize>, at: Seq<int>)
    requires
        valid(dims, at),
    ensures
        index_of(dims, nth(dims, at)) == at,
        nth(dims, at) >= 0,
    decreases dims.len(),
{
    if dims.len() == 0 {
        assert(at =~= Seq::<int>::empty());
    } else {
        let d = dims.last() as int;
        let n = nth(dims.drop_last(), at.drop_last());
        let r = at.last();
        assert(valid(dims.drop_last(), at.drop_last())) by {
            assert forall|i: int| 0 <= i < dims.len() - 1 implies 0 <= #[trigger] at.drop_last()[i]
                < dims.drop_last()[i] by {
                assert(0 <= at[i] < dims[i]);
            }
        }
        assert(0 <= at[dims.len() - 1] < dims[dims.len() - 1]);
        lemma_index_of_nth(dims.drop_last(), at.drop_last());
        vstd::arithmetic::div_mod::lemma_fundamental_div_mod_converse(n * d + r, d, n, r);
        assert(n * d >= 0) by (nonlinear_arith)
            requires
                n >= 0,
                d >= 0,
        ;
        assert(index_of(dims, nth(dims, at)) =~= at);
    }
}

/// A reshaped tensor holds the elements under the indexes with the same number.
pub proof fn element_reshaped(x: TensorView, dims: Seq<usize>, at: Seq<int>, source: Seq<int>)
    requires
        valid(x.dims, source),
        nth(x.dims, source) == nth(dims, at),
    ensures
        element(view::reshaped(x, dims), at) == element(x, source),
{
    reveal(element);
    lemma_index_of_nth(x.dims, source);
}

/// The number of an element in one dim.
pub proof fn lemma_nth1(a: usize, i: int)
    ensures
        nth(seq![a], seq![i]) == i,
{
    reveal_with_fuel(nth, 2);
    assert(seq![a].drop_last() =~= Seq::<usize>::empty());
}

/// The number of an element in two dims.
pub proof fn lemma_nth2(a: usize, b: usize, i: int, j: int)
    ensures
        nth(seq![a, b], seq![i, j]) == i * b + j,
{
    lemma_nth1(a, i);
    assert(seq![a, b].drop_last() =~= seq![a]);
    assert(seq![i, j].drop_last() =~= seq![i]);
}

/// The number of an element in three dims.
pub proof fn lemma_nth3(a: usize, b: usize, c: usize, i: int, j: int, k: int)
    ensures
        nth(seq![a, b, c], seq![i, j, k]) == (i * b + j) * c + k,
{
    lemma_nth2(a, b, i, j);
    assert(seq![a, b, c].drop_last() =~= seq![a, b]);
    assert(seq![i, j, k].drop_last() =~= seq![i, j]);
}

/// The number of an element in four dims.
pub proof fn lemma_nth4(
    a: usize,
    b: usize,
    c: usize,
    d: usize,
    i: int,
    j: int,
    k: int,
    l: int,
)
    ensures
        nth(seq![a, b, c, d], seq![i, j, k, l]) == ((i * b + j) * c + k) * d + l,
{
    lemma_nth3(a, b, c, i, j, k);
    assert(seq![a, b, c, d].drop_last() =~= seq![a, b, c]);
    assert(seq![i, j, k, l].drop_last() =~= seq![i, j, k]);
}

/// Of two tensors put one behind the other, the first holds the first slices.
pub proof fn element_joined(x: TensorView, y: TensorView, dim: usize, at: Seq<int>)
    requires
        dim < at.len(),
        0 <= at[dim as int],
    ensures
        element(view::joined(x, y, dim), at) == if at[dim as int] < x.dims[dim as int] {
            element(x, at)
        } else {
            element(y, at.update(dim as int, at[dim as int] - x.dims[dim as int]))
        },
{
    reveal(element);
    let parts = seq![x, y];
    reveal_with_fuel(part_of, 3);
    reveal_with_fuel(slices_along, 3);
    assert(parts.drop_last() =~= seq![x]);
    assert(seq![x].drop_last() =~= Seq::<TensorView>::empty());
    assert(parts.take(0) =~= Seq::<TensorView>::empty());
    assert(parts.take(1) =~= seq![x]);
    assert(at.update(dim as int, at[dim as int] - 0) =~= at);
}

/// Of several copies of a tensor, copy `r` holds the slices from `r` times their
/// number on.
pub proof fn element_repeated(
    x: TensorView,
    dim: usize,
    n: nat,
    r: int,
    slice: int,
    at: Seq<int>,
)
    requires
        dim < at.len(),
        0 <= r < n,
        0 <= slice < x.dims[dim as int],
        at[dim as int] == r * x.dims[dim as int] + slice,
    ensures
        element(view::repeated(x, dim, n), at) == element(x, at.update(dim as int, slice)),
{
    reveal(element);
    let parts = Seq::new(n, |i: int| x);
    lemma_part_of_copies(x, dim, n, r, slice);
    lemma_slices_of_copies(x, dim, r as nat);
    assert(parts.take(r) =~= Seq::new(r as nat, |i: int| x));
    assert(parts[r] == x);
}

proof fn lemma_part_of_copies(x: TensorView, dim: usize, n: nat, r: int, slice: int)
    requires
        0 <= r < n,
        0 <= slice < x.dims[dim as int],
    ensures
        part_of(Seq::new(n, |i: int| x), dim, r * x.dims[dim as int] + slice) == r,
    decreases n,
{
    let parts = Seq::new(n, |i: int| x);
    let d = x.dims[dim as int] as int;
    if n > 1 {
        let fewer = Seq::new((n - 1) as nat, |i: int| x);
        assert(parts.drop_last() =~= fewer);
        lemma_slices_of_copies(x, dim, (n - 1) as nat);
        if r < n - 1 {
            assert(r * d + slice < (n - 1) * d) by (nonlinear_arith)
                requires
                    r < n - 1,
                    0 <= slice < d,
            ;
            lemma_part_of_copies(x, dim, (n - 1) as nat, r, slice);
        } else {
            assert(r * d + slice >= (n - 1) * d);
        }
    }
}

/// The elements of a tensor in one dim.
pub open spec fn listed(x: TensorView) -> Seq<Num> {
    Seq::new(x.dims[0] as nat, |j: int| element(x, seq![j]))
}

/// The product of row `row` of `x` with row `o` of the matrix of an expert.
pub open spec fn expert_product(
    x: TensorView,
    experts: QTensor,
    expert: Num,
    row: int,
    o: int,
    dtype: DType,
    is_prefill: bool,
) -> Num {
    Num::DotIn(
        experts,
        Box::new(expert),
        o,
        Seq::new(x.dims[1] as nat, |j: int| element(x, seq![row, j])),
        dtype,
        is_prefill,
    )
}

/// The product for a pick of an expert: with the matrix of the expert that stands
/// where the pick stands among `token_ids`. Without weights the rows are those of the
/// tokens, `topk` picks for each; with weights they are those of the picks, and each
/// is scaled by the weight of the pick.
#[verifier::spinoff_prover]
#[verifier::rlimit(80)]
pub proof fn element_picked_product(
    x: TensorView,
    experts: QTensor,
    rows: usize,
    weights: Option<TensorView>,
    token_ids: TensorView,
    expert_ids: TensorView,
    topk: usize,
    is_prefill: bool,
    dtype: DType,
    pick: int,
    o: int,
)
    requires
        expert_ids.dims == token_ids.dims,
    ensures
        ({
            let y = view::expert_products(
                x,
                experts,
                rows,
                weights,
                token_ids,
                expert_ids,
                topk,
                is_prefill,
                dtype,
            );
            let expert = Num::Beside(listed(token_ids), listed(expert_ids), pick);
            element(y, seq![pick, o]) == match weights {
                Some(w) => times(
                    expert_product(x, experts, expert, pick, o, dtype, is_prefill),
                    element(w, index_of(w.dims, pick)),
                ),
                None => expert_product(
                    x,
                    experts,
                    expert,
                    pick / topk as int,
                    o,
                    dtype,
                    is_prefill,
                ),
            }
        }),
{
    reveal_with_fuel(element, 2);
    let y = view::expert_products(
        x,
        experts,
        rows,
        weights,
        token_ids,
        expert_ids,
        topk,
        is_prefill,
        dtype,
    );
    let at = seq![pick, o];
    let row = match weights {
        Some(_) => pick,
        None => pick / topk as int,
    };
    let t = Seq::new(token_ids.dims[0] as nat, |j: int| element(token_ids, seq![j]));
    let e = Seq::new(token_ids.dims[0] as nat, |j: int| element(expert_ids, seq![j]));
    assert(t =~= listed(token_ids));
    assert(e =~= listed(expert_ids));
    let a = Seq::new(x.dims[1] as nat, |j: int| element(x, seq![row, j]));
    let product = match element(y, at) {
        Num::Two(_, p, _) => *p,
        p => p,
    };
    match product {
        Num::DotIn(_, expert, _, r, _, _) => {
            assert(r =~= a);
            match *expert {
                Num::Beside(f, s, _) => {
                    assert(f =~= t);
                    assert(s =~= e);
                },
                _ => {},
            }
        },
        _ => {},
    }
}

} // verus!
