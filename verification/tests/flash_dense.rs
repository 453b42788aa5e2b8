use candle_attention::flash::dense::{
    flash_attn, flash_attn_alibi, flash_attn_alibi_windowed, flash_attn_alibi_windowed_softcap,
    flash_attn_windowed, FlashAttn,
};
use candle_attention::flash::desc::{Placement, TensorDesc};
use candle_attention::flash::error::{FlashError, Operand};
use candle_attention::flash::params::MhaParams;
use candle_core::DType;

fn desc(dims: &[usize], dtype: DType) -> TensorDesc {
    let mut strides = vec![1; dims.len()];
    for i in (0..dims.len().saturating_sub(1)).rev() {
        strides[i] = strides[i + 1] * dims[i + 1];
    }
    TensorDesc {
        dims: dims.to_vec(),
        strides,
        start_offset: 0,
        dtype,
        placement: Placement::Cuda(0),
    }
}

fn half(dims: &[usize]) -> TensorDesc {
    desc(dims, DType::F16)
}

fn scale() -> u32 {
    0.125f32.to_bits()
}

#[test]
fn parameters_of_a_causal_launch() {
    let mut q = half(&[2, 5, 8, 64]);
    q.start_offset = 7;
    let k = half(&[2, 300, 4, 64]);
    let mut v = half(&[2, 300, 4, 64]);
    // The values as a transposed (2, 4, 300, 64) tensor.
    v.strides = vec![4 * 300 * 64, 64, 300 * 64, 1];
    let call = flash_attn(&q, &k, &v, scale(), true).unwrap();
    assert_eq!(
        call.params,
        MhaParams {
            q_batch_stride: 5 * 8 * 64,
            k_batch_stride: 300 * 4 * 64,
            v_batch_stride: 300 * 4 * 64,
            o_batch_stride: 5 * 8 * 64,
            alibi_slopes_batch_stride: 0,
            q_row_stride: 8 * 64,
            k_row_stride: 4 * 64,
            v_row_stride: 64,
            o_row_stride: 8 * 64,
            q_head_stride: 64,
            k_head_stride: 64,
            v_head_stride: 300 * 64,
            o_head_stride: 64,
            b: 2,
            h: 8,
            h_k: 4,
            d: 64,
            d_rounded: 64,
            softmax_scale: scale(),
            seqlen_q: 5,
            seqlen_k: 300,
            seqlen_q_rounded: 128,
            seqlen_k_rounded: 384,
            total_q: 10,
            is_bf16: 0,
            is_causal: 1,
            unpadded_lse: 0,
            window_size_left: 300,
            window_size_right: 0,
            softcap: 0,
            block_table_batch_stride: 0,
            page_block_size: -1,
            mm_prefix_range_batch_stride: 0,
            max_mm_prefix_ranges: 0,
            num_splits: 1,
            force_split_kernel: 0,
        }
    );
    assert_eq!(call.q_offset, 7);
    assert_eq!(call.k_offset, 0);
    assert_eq!(call.alibi_offset, None);
    assert_eq!(call.out_dims, vec![2, 5, 8, 64]);
    assert_eq!(call.out_len, 2 * 5 * 8 * 64);
    assert_eq!(call.lse_len, 2 * 8 * 5);
    assert!(call.accum.is_none());
}

#[test]
fn causal_is_the_window_without_left_and_with_zero_right() {
    let q = half(&[1, 4, 2, 32]);
    let k = half(&[1, 9, 2, 32]);
    let a = flash_attn(&q, &k, &k, scale(), true).unwrap();
    let b = flash_attn_windowed(&q, &k, &k, scale(), None, Some(0)).unwrap();
    assert_eq!(a.params, b.params);
    let c = flash_attn(&q, &k, &k, scale(), false).unwrap();
    let d = flash_attn_windowed(&q, &k, &k, scale(), None, None).unwrap();
    assert_eq!(c.params, d.params);
    assert_eq!(
        (c.params.window_size_left, c.params.window_size_right),
        (-1, -1)
    );
    assert_eq!(c.params.is_causal, 0);
}

#[test]
fn windows() {
    let q = half(&[1, 4, 2, 32]);
    let k = half(&[1, 9, 2, 32]);
    let cases = [
        (Some(3), Some(2), 3, 2, 0),
        (Some(3), None, 3, 9, 0),
        (None, Some(2), 9, 2, 0),
        (Some(9), Some(0), 9, 0, 0),
        // A limit beyond the keys is no limit.
        (Some(10), Some(0), 9, 0, 1),
        (Some(10), Some(11), -1, -1, 0),
        (Some(10), None, -1, -1, 0),
    ];
    for (left, right, l, r, causal) in cases {
        let p = flash_attn_windowed(&q, &k, &k, scale(), left, right)
            .unwrap()
            .params;
        assert_eq!(
            (p.window_size_left, p.window_size_right, p.is_causal),
            (l, r, causal),
            "{left:?} {right:?}"
        );
    }
}

#[test]
fn bf16_alibi_and_softcap() {
    let q = desc(&[1, 4, 6, 32], DType::BF16);
    let k = desc(&[1, 9, 3, 32], DType::BF16);
    let mut slopes = desc(&[6], DType::F32);
    slopes.start_offset = 3;
    let call = flash_attn_alibi(&q, &k, &k, &slopes, scale(), false).unwrap();
    assert_eq!(call.alibi_offset, Some(3));
    assert_eq!(call.params.is_bf16, 1);
    assert_eq!(call.params.softcap, 0);
    let call =
        flash_attn_alibi_windowed(&q, &k, &k, &slopes, scale(), Some(1), Some(2)).unwrap();
    assert_eq!(call.params.window_size_left, 1);
    assert_eq!(call.params.window_size_right, 2);
    let cap = 50f32.to_bits();
    let call =
        flash_attn_alibi_windowed_softcap(&q, &k, &k, None, scale(), None, Some(0), cap).unwrap();
    assert_eq!(call.params.softcap, cap);
    assert_eq!(call.alibi_offset, None);
    let call = flash_attn_alibi_windowed_softcap(
        &q,
        &k,
        &k,
        Some(&slopes),
        scale(),
        None,
        Some(0),
        cap,
    )
    .unwrap();
    assert_eq!(call.alibi_offset, Some(3));
}

#[test]
fn splits_of_a_decode_step() {
    let q = half(&[1, 1, 8, 128]);
    let k = half(&[1, 8192, 8, 128]);
    let call = flash_attn(&q, &k, &k, scale(), true).unwrap();
    assert!(call.may_split());
    let before = call.params;
    let call = call.split(108);
    assert_eq!(call.params.num_splits, 24);
    assert_eq!(
        call.params,
        MhaParams {
            num_splits: 24,
            ..before
        }
    );
    let accum = call.accum.unwrap();
    assert_eq!((accum.lse_len, accum.out_len), (24 * 8, 24 * 8 * 128));

    let q = half(&[1, 1, 8, 96]);
    let k = half(&[1, 8192, 8, 96]);
    let call = flash_attn(&q, &k, &k, scale(), true).unwrap();
    assert!(!call.may_split());
    let call = call.split(108);
    assert_eq!(call.params.num_splits, 1);
    assert!(call.accum.is_none());
}

#[test]
fn head_sizes_are_rounded_to_32() {
    let q = half(&[1, 1, 1, 40]);
    let p = flash_attn(&q, &q, &q, scale(), false).unwrap().params;
    assert_eq!((p.d, p.d_rounded), (40, 64));
}

fn refused(q: &TensorDesc, k: &TensorDesc, v: &TensorDesc) -> FlashError {
    flash_attn(q, k, v, scale(), false).unwrap_err()
}

#[test]
fn refused_places_and_types() {
    let good = half(&[1, 4, 2, 32]);
    let mut other = good.clone();
    other.placement = Placement::Cuda(1);
    assert_eq!(
        refused(&good, &other, &good),
        FlashError::DeviceMismatch(Operand::K)
    );
    assert_eq!(
        refused(&good, &good, &other),
        FlashError::DeviceMismatch(Operand::V)
    );
    let mut cpu = good.clone();
    cpu.placement = Placement::Cpu;
    assert_eq!(refused(&cpu, &cpu, &cpu), FlashError::NoCpuSupport);
    let mut metal = good.clone();
    metal.placement = Placement::Metal(0);
    assert_eq!(
        refused(&metal, &metal, &metal),
        FlashError::NoMetalImplementation
    );
    let single = desc(&[1, 4, 2, 32], DType::F32);
    assert_eq!(
        refused(&single, &single, &single),
        FlashError::UnsupportedDType(DType::F32)
    );
    let brain = desc(&[1, 4, 2, 32], DType::BF16);
    assert_eq!(
        refused(&good, &brain, &good),
        FlashError::UnexpectedDType {
            operand: Operand::K,
            expected: DType::F16,
            got: DType::BF16
        }
    );
    assert_eq!(
        refused(&good, &good, &brain),
        FlashError::UnexpectedDType {
            operand: Operand::V,
            expected: DType::F16,
            got: DType::BF16
        }
    );
}

#[test]
fn refused_shapes() {
    let good = half(&[1, 4, 2, 32]);
    let flat = half(&[4, 2, 32]);
    assert_eq!(
        refused(&flat, &good, &good),
        FlashError::Rank { q: 3, k: 4, v: 4 }
    );
    let mut gaps = good.clone();
    gaps.strides[3] = 2;
    assert_eq!(
        refused(&gaps, &good, &good),
        FlashError::LastDimNotContiguous(Operand::Q)
    );
    assert_eq!(
        refused(&good, &gaps, &good),
        FlashError::LastDimNotContiguous(Operand::K)
    );
    assert_eq!(
        refused(&good, &good, &gaps),
        FlashError::LastDimNotContiguous(Operand::V)
    );
    assert_eq!(
        refused(&good, &half(&[2, 4, 2, 32]), &good),
        FlashError::ShapeMismatch(Operand::Q, Operand::K)
    );
    assert_eq!(
        refused(&good, &half(&[1, 4, 2, 64]), &good),
        FlashError::ShapeMismatch(Operand::Q, Operand::K)
    );
    assert_eq!(
        refused(&good, &good, &half(&[1, 5, 2, 32])),
        FlashError::ShapeMismatch(Operand::Q, Operand::V)
    );
    let large = half(&[1, 4, 2, 520]);
    assert_eq!(
        refused(&large, &large, &large),
        FlashError::HeadTooLarge(520)
    );
    let odd = half(&[1, 4, 2, 36]);
    assert_eq!(refused(&odd, &odd, &odd), FlashError::HeadNotMultiple(36));
    assert_eq!(
        refused(
            &half(&[1, 4, 3, 32]),
            &half(&[1, 4, 2, 32]),
            &half(&[1, 4, 2, 32])
        ),
        FlashError::HeadCounts { q: 3, kv: 2 }
    );
}

#[test]
fn refused_slopes() {
    let good = half(&[1, 4, 2, 32]);
    let with = |slopes: TensorDesc| {
        FlashAttn {
            softmax_scale: scale(),
            alibi_slopes: Some(slopes),
            window_size_left: None,
            window_size_right: None,
            softcap: None,
        }
        .forward(&good, &good, &good)
        .unwrap_err()
    };
    assert_eq!(
        with(desc(&[2], DType::F16)),
        FlashError::AlibiDType(DType::F16)
    );
    assert_eq!(
        with(desc(&[1, 2], DType::F32)),
        FlashError::UnexpectedNumDims {
            operand: Operand::AlibiSlopes,
            wanted: 1,
            rank: 2
        }
    );
    assert_eq!(
        with(desc(&[3], DType::F32)),
        FlashError::AlibiShape {
            num_heads: 2,
            slopes: 3
        }
    );
    let mut cpu = desc(&[2], DType::F32);
    cpu.placement = Placement::Cpu;
    assert_eq!(with(cpu), FlashError::NotCuda(Operand::AlibiSlopes));
}

fn plain() -> FlashAttn {
    FlashAttn {
        softmax_scale: scale(),
        alibi_slopes: None,
        window_size_left: None,
        window_size_right: None,
        softcap: None,
    }
}

#[test]
fn launches_that_can_be_planned() {
    let q = half(&[1, 5, 4, 64]);
    let k = half(&[1, 9, 2, 64]);
    assert!(plain().can_plan(&q, &k, &k));
    // Without k/v heads nothing can be said of their number.
    let none = half(&[1, 9, 0, 64]);
    assert!(!plain().can_plan(&q, &none, &none));
    // What is refused before can be planned: the plan is the reason.
    let wide = half(&[1, 9, 0, 72]);
    assert!(plain().can_plan(&q, &wide, &wide));
    assert_eq!(
        plain().forward(&q, &wide, &wide).unwrap_err(),
        FlashError::ShapeMismatch(Operand::Q, Operand::K)
    );
    // More positions than can be rounded up.
    let long = half(&[1, usize::MAX - 5, 1, 0]);
    assert!(!plain().can_plan(&long, &half(&[1, 9, 1, 0]), &half(&[1, 9, 1, 0])));
    // No tensor has these dims, or these strides.
    let huge = half(&[1 << 40, 1, 1, 8]);
    let mut odd = huge.clone();
    odd.dims = vec![1 << 40, 1 << 40, 1, 8];
    assert!(huge.is_well_formed() && !odd.is_well_formed());
    odd.dims = vec![1, 1, 8];
    assert!(!odd.is_well_formed());
    let mut far = half(&[2, 2]);
    far.start_offset = usize::MAX - 4;
    assert!(far.is_well_formed());
    far.start_offset = usize::MAX - 3;
    assert!(!far.is_well_formed());
}

#[test]
fn accumulators_that_can_be_counted() {
    let q = half(&[1, 1, 8, 64]);
    let k = half(&[1, 8192, 8, 64]);
    let call = flash_attn(&q, &k, &k, scale(), false).unwrap();
    assert!(call.sizes.can_split(64));
    assert!(!call.sizes.can_split(usize::MAX));
    let mut sizes = call.sizes;
    sizes.seqlen_q = usize::MAX / 64;
    sizes.batch_size = usize::MAX;
    assert!(!sizes.can_split(64));
    // Head sizes that never split do not count accumulators.
    sizes.head_size_rounded = 96;
    assert!(sizes.can_split(usize::MAX));
}
