use candle_attention::flash::desc::{Placement, TensorDesc};
use candle_attention::flash::error::{FlashError, Operand};
use candle_attention::flash::params::MhaParams;
use candle_attention::flash::varlen::{
    flash_attn_varlen, flash_attn_varlen_alibi, flash_attn_varlen_alibi_windowed,
    flash_attn_varlen_alibi_windowed_softcap, flash_attn_varlen_paged_windowed,
    flash_attn_varlen_windowed, FlashAttnVarLen, VarLenCall,
};
use candle_core::DType;

fn desc(dims: &[usize], dtype: DType) -> TensorDesc {
    let mut strides = vec![1; dims.len()];
    for i in (0..dims.len().saturating_sub(1)).rev() {
        strides[i] = strides[i + 1] * dims[i + 1];
    }
    TensorDesc {
        dims: dims.to_vec(),
        strides,
        start_offset: 0,
        dtype,
        placement: Placement::Cuda(0),
    }
}

fn half(dims: &[usize]) -> TensorDesc {
    desc(dims, DType::F16)
}

fn lens(n: usize) -> TensorDesc {
    desc(&[n], DType::U32)
}

fn scale() -> u32 {
    0.5f32.to_bits()
}

fn plain() -> FlashAttnVarLen {
    FlashAttnVarLen {
        softmax_scale: scale(),
        max_seqlen_q: 7,
        max_seqlen_k: 200,
        seqlens_q: lens(4),
        seqlens_k: lens(4),
        block_table: None,
        mm_prefix_ranges: None,
        page_block_size: None,
        alibi_slopes: None,
        window_size_left: None,
        window_size_right: None,
        softcap: None,
    }
}

fn paged() -> FlashAttnVarLen {
    FlashAttnVarLen {
        block_table: Some(desc(&[3, 5], DType::U32)),
        page_block_size: Some(64),
        ..plain()
    }
}

fn run(op: &FlashAttnVarLen, q: &TensorDesc, k: &TensorDesc, v: &TensorDesc) -> FlashError {
    op.forward(q, k, v).unwrap_err()
}

fn q() -> TensorDesc {
    half(&[12, 4, 64])
}

fn kv() -> TensorDesc {
    half(&[300, 2, 64])
}

fn pages() -> TensorDesc {
    half(&[9, 64, 2, 64])
}

fn params(call: Result<VarLenCall, FlashError>) -> MhaParams {
    call.unwrap().params
}

#[test]
fn parameters_of_a_varlen_launch() {
    let mut sq = lens(4);
    sq.start_offset = 2;
    let call = flash_attn_varlen(&q(), &kv(), &kv(), &sq, &lens(4), 7, 200, scale(), true).unwrap();
    assert_eq!(
        call.params,
        MhaParams {
            q_batch_stride: 0,
            k_batch_stride: 0,
            v_batch_stride: 0,
            o_batch_stride: 0,
            alibi_slopes_batch_stride: 0,
            q_row_stride: 256,
            k_row_stride: 128,
            v_row_stride: 128,
            o_row_stride: 256,
            q_head_stride: 64,
            k_head_stride: 64,
            v_head_stride: 64,
            o_head_stride: 64,
            b: 3,
            h: 4,
            h_k: 2,
            d: 64,
            d_rounded: 64,
            softmax_scale: scale(),
            seqlen_q: 7,
            seqlen_k: 200,
            seqlen_q_rounded: 128,
            seqlen_k_rounded: 256,
            total_q: 12,
            is_bf16: 0,
            is_causal: 1,
            unpadded_lse: 1,
            window_size_left: 200,
            window_size_right: 0,
            softcap: 0,
            block_table_batch_stride: 0,
            page_block_size: 0,
            mm_prefix_range_batch_stride: 0,
            max_mm_prefix_ranges: 0,
            num_splits: 1,
            force_split_kernel: 0,
        }
    );
    assert_eq!(call.seqlens_q, (2, 6));
    assert_eq!(call.seqlens_k, (0, 4));
    assert_eq!(call.out_dims, vec![12, 4, 64]);
    assert_eq!(call.out_len, 12 * 4 * 64);
    assert_eq!(call.lse_len, 48);
    assert_eq!(call.block_table_offset, None);
}

#[test]
fn parameters_of_a_paged_launch() {
    let mut table = desc(&[3, 5], DType::I32);
    table.start_offset = 4;
    let mut ranges = desc(&[3, 6, 2], DType::I32);
    ranges.start_offset = 8;
    let cap = 30f32.to_bits();
    let call = flash_attn_varlen_paged_windowed(
        &q(),
        &pages(),
        &pages(),
        &lens(4),
        &lens(4),
        &table,
        Some(&ranges),
        7,
        200,
        scale(),
        None,
        Some(0),
        64,
        Some(cap),
    )
    .unwrap();
    let p = call.params;
    assert_eq!((p.k_batch_stride, p.v_batch_stride), (64 * 128, 64 * 128));
    assert_eq!((p.k_row_stride, p.k_head_stride), (128, 64));
    assert_eq!(p.block_table_batch_stride, 5);
    assert_eq!(p.page_block_size, 64);
    assert_eq!(p.mm_prefix_range_batch_stride, 12);
    assert_eq!(p.max_mm_prefix_ranges, 6);
    assert_eq!(p.softcap, cap);
    assert_eq!(p.h_k, 2);
    // With prefix ranges a causal window becomes a local one.
    assert_eq!(
        (p.is_causal, p.window_size_left, p.window_size_right),
        (0, 200, 0)
    );
    assert_eq!(p.num_splits, 1);
    assert_eq!(call.block_table_offset, Some(4));
    assert_eq!(call.mm_prefix_ranges_offset, Some(8));

    let call = flash_attn_varlen_paged_windowed(
        &q(),
        &pages(),
        &pages(),
        &lens(4),
        &lens(4),
        &table,
        None,
        7,
        200,
        scale(),
        None,
        Some(0),
        64,
        None,
    )
    .unwrap();
    assert_eq!(call.params.is_causal, 1);
    assert_eq!(call.params.max_mm_prefix_ranges, 0);
}

#[test]
fn rows_of_a_block_table_may_lie_apart() {
    // The first five columns of a table of nine.
    let mut table = desc(&[3, 5], DType::U32);
    table.strides = vec![9, 1];
    table.start_offset = 2;
    let call = flash_attn_varlen_paged_windowed(
        &q(),
        &pages(),
        &pages(),
        &lens(4),
        &lens(4),
        &table,
        None,
        7,
        200,
        scale(),
        None,
        Some(0),
        64,
        None,
    )
    .unwrap();
    assert_eq!(call.params.block_table_batch_stride, 9);
    assert_eq!(call.block_table_offset, Some(2));
}

#[test]
fn variants_agree() {
    let (q, k) = (q(), kv());
    let (sq, sk) = (lens(4), lens(4));
    let mut slopes = desc(&[4], DType::F32);
    slopes.start_offset = 1;
    let causal = params(flash_attn_varlen(&q, &k, &k, &sq, &sk, 7, 200, scale(), true));
    let window = params(flash_attn_varlen_windowed(
        &q,
        &k,
        &k,
        &sq,
        &sk,
        7,
        200,
        scale(),
        None,
        Some(0),
    ));
    assert_eq!(causal, window);
    let alibi =
        flash_attn_varlen_alibi(&q, &k, &k, &slopes, &sq, &sk, 7, 200, scale(), true).unwrap();
    assert_eq!(alibi.params, causal);
    assert_eq!(alibi.alibi_offset, Some(1));
    let alibi = flash_attn_varlen_alibi_windowed(
        &q,
        &k,
        &k,
        &slopes,
        &sq,
        &sk,
        7,
        200,
        scale(),
        Some(3),
        None,
    )
    .unwrap();
    assert_eq!(
        (
            alibi.params.window_size_left,
            alibi.params.window_size_right
        ),
        (3, 200)
    );
    let cap = 20f32.to_bits();
    let capped = flash_attn_varlen_alibi_windowed_softcap(
        &q,
        &k,
        &k,
        None,
        &sq,
        &sk,
        7,
        200,
        scale(),
        None,
        Some(0),
        cap,
    )
    .unwrap();
    assert_eq!(
        capped.params,
        MhaParams {
            softcap: cap,
            ..causal
        }
    );
    assert_eq!(capped.alibi_offset, None);
}

#[test]
fn varlen_refuses_lengths() {
    let mut op = plain();
    op.seqlens_q.placement = Placement::Cpu;
    assert_eq!(
        run(&op, &q(), &kv(), &kv()),
        FlashError::NotCuda(Operand::SeqlensQ)
    );
    let mut op = plain();
    op.seqlens_q.dtype = DType::I32;
    assert_eq!(
        run(&op, &q(), &kv(), &kv()),
        FlashError::UnexpectedDType {
            operand: Operand::SeqlensQ,
            expected: DType::U32,
            got: DType::I32
        }
    );
    let mut op = plain();
    op.seqlens_k.strides = vec![2];
    assert_eq!(
        run(&op, &q(), &kv(), &kv()),
        FlashError::NotContiguous(Operand::SeqlensK)
    );
    // The stride of a single element does not matter.
    let mut op = plain();
    op.seqlens_q = desc(&[1], DType::U32);
    op.seqlens_q.strides = vec![2];
    assert_eq!(run(&op, &q(), &kv(), &kv()), FlashError::TooFewSeqlens(1));
    let mut op = plain();
    op.seqlens_q = desc(&[2, 2], DType::U32);
    assert_eq!(
        run(&op, &q(), &kv(), &kv()),
        FlashError::UnexpectedNumDims {
            operand: Operand::SeqlensQ,
            wanted: 1,
            rank: 2
        }
    );
    let mut op = plain();
    op.seqlens_k = desc(&[2, 2], DType::U32);
    assert_eq!(
        run(&op, &q(), &kv(), &kv()),
        FlashError::UnexpectedNumDims {
            operand: Operand::SeqlensK,
            wanted: 1,
            rank: 2
        }
    );
    let mut op = plain();
    op.seqlens_k = lens(5);
    assert_eq!(
        run(&op, &q(), &kv(), &kv()),
        FlashError::SeqlensDiffer { q: 4, k: 5 }
    );
}

#[test]
fn varlen_refuses_shapes() {
    let op = plain();
    assert_eq!(
        run(&op, &q(), &pages(), &pages()),
        FlashError::Rank { q: 3, k: 4, v: 4 }
    );
    assert_eq!(
        run(&op, &q(), &half(&[300, 2, 32]), &kv()),
        FlashError::ShapeMismatch(Operand::Q, Operand::K)
    );
    assert_eq!(
        run(&op, &q(), &kv(), &half(&[301, 2, 64])),
        FlashError::ShapeMismatch(Operand::Q, Operand::V)
    );
    let mut gaps = kv();
    gaps.strides[2] = 3;
    assert_eq!(
        run(&op, &q(), &gaps, &kv()),
        FlashError::LastDimNotContiguous(Operand::K)
    );
    let large = half(&[12, 4, 520]);
    assert_eq!(
        run(&op, &large, &large, &large),
        FlashError::HeadTooLarge(520)
    );
    let odd = half(&[12, 4, 12]);
    assert_eq!(run(&op, &odd, &odd, &odd), FlashError::HeadNotMultiple(12));
    let three = half(&[300, 3, 64]);
    assert_eq!(
        run(&op, &q(), &three, &three),
        FlashError::HeadCounts { q: 4, kv: 3 }
    );
    let single = desc(&[12, 4, 64], DType::F32);
    assert_eq!(
        run(&op, &single, &single, &single),
        FlashError::UnsupportedDType(DType::F32)
    );
    let brain = desc(&[300, 2, 64], DType::BF16);
    assert_eq!(
        run(&op, &q(), &brain, &kv()),
        FlashError::UnexpectedDType {
            operand: Operand::K,
            expected: DType::F16,
            got: DType::BF16
        }
    );
}

#[test]
fn varlen_refuses_pages() {
    assert_eq!(
        run(&paged(), &q(), &kv(), &pages()),
        FlashError::PagedRank { k: 3, v: 4 }
    );
    assert_eq!(
        run(&paged(), &q(), &pages(), &half(&[8, 64, 2, 64])),
        FlashError::ShapeMismatch(Operand::K, Operand::V)
    );
    let narrow = half(&[9, 64, 2, 32]);
    assert_eq!(
        run(&paged(), &q(), &narrow, &narrow),
        FlashError::ShapeMismatch(Operand::Q, Operand::K)
    );
    let mut op = paged();
    op.page_block_size = None;
    assert_eq!(
        run(&op, &q(), &pages(), &pages()),
        FlashError::MissingPageBlockSize
    );
    let mut op = paged();
    op.page_block_size = Some(32);
    assert_eq!(
        run(&op, &q(), &pages(), &pages()),
        FlashError::PageBlockSizeMismatch { given: 32, k: 64 }
    );
    let mut op = paged();
    op.page_block_size = Some(48);
    let uneven = half(&[9, 48, 2, 64]);
    assert_eq!(
        run(&op, &q(), &uneven, &uneven),
        FlashError::PageBlockSizeNotMultiple(48)
    );
    let large_q = half(&[12, 4, 520]);
    let large = half(&[9, 64, 2, 520]);
    assert_eq!(
        run(&paged(), &large_q, &large, &large),
        FlashError::PagedHeadTooLarge(520)
    );
}

#[test]
fn varlen_refuses_block_tables() {
    let with = |t: TensorDesc| {
        let mut op = paged();
        op.block_table = Some(t);
        run(&op, &q(), &pages(), &pages())
    };
    let mut cpu = desc(&[3, 5], DType::U32);
    cpu.placement = Placement::Cpu;
    assert_eq!(with(cpu), FlashError::NotCuda(Operand::BlockTable));
    assert_eq!(
        with(desc(&[5], DType::U32)),
        FlashError::UnexpectedNumDims {
            operand: Operand::BlockTable,
            wanted: 2,
            rank: 1
        }
    );
    let mut gaps = desc(&[3, 5], DType::U32);
    gaps.strides = vec![10, 2];
    assert_eq!(
        with(gaps),
        FlashError::LastDimNotContiguous(Operand::BlockTable)
    );
    assert_eq!(
        with(desc(&[3, 5], DType::I64)),
        FlashError::BlockTableDType(DType::I64)
    );
}

#[test]
fn varlen_refuses_prefix_ranges() {
    let with = |t: TensorDesc| {
        let mut op = paged();
        op.mm_prefix_ranges = Some(t);
        run(&op, &q(), &pages(), &pages())
    };
    assert_eq!(
        with(desc(&[3, 6, 2], DType::U32)),
        FlashError::PrefixRangesDType(DType::U32)
    );
    let mut cpu = desc(&[3, 6, 2], DType::I32);
    cpu.placement = Placement::Cpu;
    assert_eq!(with(cpu), FlashError::NotCuda(Operand::MmPrefixRanges));
    assert_eq!(
        with(desc(&[3, 12], DType::I32)),
        FlashError::UnexpectedNumDims {
            operand: Operand::MmPrefixRanges,
            wanted: 3,
            rank: 2
        }
    );
    assert_eq!(
        with(desc(&[4, 6, 2], DType::I32)),
        FlashError::PrefixRangesShape { batch_size: 3 }
    );
    assert_eq!(
        with(desc(&[3, 6, 3], DType::I32)),
        FlashError::PrefixRangesShape { batch_size: 3 }
    );
    let mut gaps = desc(&[3, 6, 2], DType::I32);
    gaps.strides = vec![24, 4, 2];
    assert_eq!(
        with(gaps),
        FlashError::LastDimNotContiguous(Operand::MmPrefixRanges)
    );
}

#[test]
fn varlen_refuses_slopes_and_devices() {
    let mut op = plain();
    op.alibi_slopes = Some(desc(&[3], DType::F32));
    assert_eq!(
        run(&op, &q(), &kv(), &kv()),
        FlashError::AlibiShape {
            num_heads: 4,
            slopes: 3
        }
    );
    let mut cpu = q();
    cpu.placement = Placement::Cpu;
    assert_eq!(
        run(&plain(), &cpu, &kv(), &kv()),
        FlashError::DeviceMismatch(Operand::K)
    );
    let mut k = kv();
    k.placement = Placement::Cpu;
    assert_eq!(run(&plain(), &cpu, &k, &k), FlashError::NoCpuSupport);
}

#[test]
fn varlen_launches_that_can_be_planned() {
    assert!(plain().can_plan(&q(), &kv(), &kv()));
    assert!(paged().can_plan(&q(), &pages(), &pages()));
    let mut none = kv();
    none.dims[1] = 0;
    assert!(!plain().can_plan(&q(), &none, &none));
    let mut op = plain();
    op.max_seqlen_k = usize::MAX;
    assert!(!op.can_plan(&q(), &kv(), &kv()));
    // What is refused before can be planned: the plan is the reason.
    op.seqlens_q = lens(1);
    assert!(op.can_plan(&q(), &kv(), &kv()));
    assert_eq!(run(&op, &q(), &kv(), &kv()), FlashError::TooFewSeqlens(1));
}
