use candle_attention::attention::{add_mask, append_kept, split_heads, take_last};
use candle_attention::error::ModelError;
use candle_attention::mask::{causal_mask, keep_mask};
use candle_attention::nn::{repeat_kv, rms_no_scale, QLinear, RmsNorm, Rotary};
use candle_attention::shape::{count_elems, fits_usize};
use candle_attention::text::name_of;
use candle_core::quantized::{GgmlDType, QTensor};
use candle_core::scalar::Scalar;
use candle_core::{DType, Device, Tensor};
use std::sync::Arc;

fn values(seed: f32, dims: &[usize]) -> Tensor {
    let n: usize = dims.iter().product();
    let v: Vec<f32> = (0..n).map(|i| (seed + i as f32 * 0.7).sin()).collect();
    Tensor::from_vec(v, dims.to_vec(), &Device::Cpu).unwrap()
}

fn flat(x: &Tensor) -> Vec<f32> {
    x.to_dtype(DType::F32)
        .unwrap()
        .flatten_all()
        .unwrap()
        .to_vec1()
        .unwrap()
}

fn close(a: &Tensor, b: &Tensor) {
    assert_eq!(a.dims(), b.dims());
    for (x, y) in flat(a).iter().zip(flat(b)) {
        assert!((x - y).abs() < 1e-4, "{x} {y}");
    }
}

fn quantized(x: &Tensor, kind: GgmlDType) -> Arc<QTensor> {
    Arc::new(QTensor::quantize(x, kind).unwrap())
}

#[test]
fn quantised_product() {
    let w = values(0.3, &[5, 32]);
    let x = values(1.1, &[2, 3, 32]);
    for kind in [GgmlDType::F32, GgmlDType::Q8_0] {
        let q = quantized(&w, kind);
        let want = x
            .reshape((6, 32))
            .unwrap()
            .matmul(&q.dequantize(&Device::Cpu).unwrap().t().unwrap())
            .unwrap()
            .reshape((2, 3, 5))
            .unwrap();
        let got = QLinear::new(q).unwrap().forward(&x).unwrap();
        assert_eq!(got.dims(), &[2, 3, 5]);
        for (a, b) in flat(&got).iter().zip(flat(&want)) {
            assert!((a - b).abs() < 0.1, "{a} {b}");
        }
    }
}

#[test]
fn quantised_product_refuses_what_does_not_fit() {
    let l = QLinear::new(quantized(&values(0.3, &[5, 32]), GgmlDType::F32)).unwrap();
    assert!(matches!(
        l.forward(&values(1.0, &[2, 3, 16])),
        Err(ModelError::Candle(_))
    ));
    assert!(matches!(
        l.forward(&values(1.0, &[32])),
        Err(ModelError::UnexpectedRank { .. })
    ));
    let flat_weight = QLinear::new(quantized(&values(0.3, &[32]), GgmlDType::F32)).unwrap();
    assert!(matches!(
        flat_weight.forward(&values(1.0, &[2, 32])),
        Err(ModelError::UnexpectedRank { .. })
    ));
}

#[test]
fn normalisation_with_weights() {
    let w = values(0.2, &[4]);
    let norm = RmsNorm::new(&quantized(&w, GgmlDType::F32), Scalar::from(1e-6f64)).unwrap();
    let x = values(2.0, &[3, 4]);
    let got = flat(&norm.forward(&x).unwrap());
    let (xs, ws) = (flat(&x), flat(&w));
    for row in 0..3 {
        let r = &xs[row * 4..row * 4 + 4];
        let rms = (r.iter().map(|v| v * v).sum::<f32>() / 4.0 + 1e-6).sqrt();
        for i in 0..4 {
            assert!((got[row * 4 + i] - r[i] / rms * ws[i]).abs() < 1e-5);
        }
    }
    let empty = Tensor::zeros((2, 0), DType::F32, &Device::Cpu).unwrap();
    assert!(matches!(norm.forward(&empty), Err(ModelError::EmptyDim)));
}

#[test]
fn normalisation_without_weights() {
    let x = values(2.0, &[2, 3]).to_dtype(DType::F64).unwrap();
    let got = rms_no_scale(&x, &Scalar::from(0.5f64)).unwrap();
    assert_eq!(got.dtype(), DType::F64);
    let (xs, ys) = (flat(&x), flat(&got));
    for row in 0..2 {
        let r = &xs[row * 3..row * 3 + 3];
        let rms = (r.iter().map(|v| v * v).sum::<f32>() / 3.0 + 0.5).sqrt();
        for i in 0..3 {
            assert!((ys[row * 3 + i] - r[i] / rms).abs() < 1e-5);
        }
    }
    let scalar = Tensor::new(1f32, &Device::Cpu).unwrap();
    assert!(matches!(
        rms_no_scale(&scalar, &Scalar::from(0.5f64)),
        Err(ModelError::EmptyDim)
    ));
}

#[test]
fn heads_are_repeated_one_by_one() {
    let x = values(0.1, &[1, 2, 3, 2]);
    let got = repeat_kv(x.clone(), 2).unwrap();
    assert_eq!(got.dims(), &[1, 4, 3, 2]);
    let h = |t: &Tensor, i: usize| flat(&t.narrow(1, i, 1).unwrap().contiguous().unwrap());
    assert_eq!(h(&got, 0), h(&x, 0));
    assert_eq!(h(&got, 1), h(&x, 0));
    assert_eq!(h(&got, 2), h(&x, 1));
    assert_eq!(h(&got, 3), h(&x, 1));
    close(&repeat_kv(x.clone(), 1).unwrap(), &x);
    assert!(repeat_kv(x.clone(), 0).is_err());
    assert!(matches!(
        repeat_kv(x, usize::MAX),
        Err(ModelError::TooLarge)
    ));
    assert!(matches!(
        repeat_kv(values(0.1, &[2, 3]), 2),
        Err(ModelError::UnexpectedRank {
            expected: 4,
            rank: 2
        })
    ));
}

#[test]
fn rotary_tables() {
    let inv = Tensor::new(&[[1f32, 0.25]], &Device::Cpu).unwrap();
    let r = Rotary::from_inv_freq(&inv, DType::F32, 5, &Device::Cpu).unwrap();
    let (cos, sin) = r.slice(2, 3).unwrap();
    assert_eq!(cos.dims(), &[3, 2]);
    let (cos, sin) = (flat(&cos), flat(&sin));
    for (row, pos) in [2f32, 3.0, 4.0].iter().enumerate() {
        for (col, f) in [1f32, 0.25].iter().enumerate() {
            assert!((cos[row * 2 + col] - (pos * f).cos()).abs() < 1e-6);
            assert!((sin[row * 2 + col] - (pos * f).sin()).abs() < 1e-6);
        }
    }
    assert!(matches!(r.slice(3, 3), Err(ModelError::Candle(_))));
    let half = Rotary::from_inv_freq(&inv, DType::F16, 5, &Device::Cpu).unwrap();
    assert_eq!(half.slice(0, 1).unwrap().0.dtype(), DType::F16);
}

#[test]
fn projections_are_split_into_heads() {
    let x = values(0.4, &[2, 3, 8]);
    let got = split_heads(&x, 2, 3, 2, 4).unwrap();
    let want = x.reshape((2, 3, 2, 4)).unwrap().transpose(1, 2).unwrap();
    close(&got, &want);
    assert!(got.is_contiguous());
    assert!(matches!(
        split_heads(&x, 2, 3, 3, 4),
        Err(ModelError::Candle(_))
    ));
    assert!(matches!(
        split_heads(&x, usize::MAX, 2, 1, 1),
        Err(ModelError::TooLarge)
    ));
}

#[test]
fn kept_keys_and_values_come_first() {
    let (kc, vc) = (values(0.1, &[1, 1, 2, 2]), values(0.2, &[1, 1, 2, 2]));
    let (k, v) = (values(0.3, &[1, 1, 3, 2]), values(0.4, &[1, 1, 3, 2]));
    let kept = Some((kc.clone(), vc.clone()));
    let (ka, va) = append_kept(&kept, k.clone(), v.clone(), 2).unwrap();
    close(&ka, &Tensor::cat(&[&kc, &k], 2).unwrap());
    close(&va, &Tensor::cat(&[&vc, &v], 2).unwrap());
    let (ka, va) = append_kept(&kept, k.clone(), v.clone(), 0).unwrap();
    close(&ka, &k);
    close(&va, &v);
    let (ka, _) = append_kept(&None, k.clone(), v, 9).unwrap();
    close(&ka, &k);
}

#[test]
fn masks_are_added_in_the_type_of_the_scores() {
    let s = values(0.5, &[1, 2, 2, 2]).to_dtype(DType::F64).unwrap();
    let m = Tensor::new(&[[0f32, f32::NEG_INFINITY], [0.0, 0.0]], &Device::Cpu).unwrap();
    let got = add_mask(s.clone(), Some(&m)).unwrap();
    assert_eq!(got.dtype(), DType::F64);
    let (a, b) = (flat(&got), flat(&s));
    for i in 0..8 {
        if i % 4 == 1 {
            assert_eq!(a[i], f32::NEG_INFINITY);
        } else {
            assert_eq!(a[i], b[i]);
        }
    }
    close(&add_mask(s.clone(), None).unwrap(), &s);
}

#[test]
fn the_last_position_is_taken() {
    let x = values(0.6, &[2, 3, 4]);
    let got = take_last(&x, 3).unwrap();
    assert_eq!(got.dims(), &[2, 4]);
    close(
        &got,
        &x.narrow(1, 2, 1).unwrap().squeeze(1).unwrap(),
    );
}

#[test]
fn causal_bytes() {
    assert_eq!(keep_mask(0, 0, None), Vec::<u8>::new());
    assert_eq!(keep_mask(0, 3, None), Vec::<u8>::new());
    assert_eq!(keep_mask(3, 0, None), vec![1, 0, 0, 1, 1, 0, 1, 1, 1]);
    assert_eq!(keep_mask(3, 0, Some(2)), vec![1, 0, 0, 1, 1, 0, 0, 1, 1]);
    assert_eq!(keep_mask(3, 0, Some(1)), vec![1, 0, 0, 0, 1, 0, 0, 0, 1]);
    assert_eq!(keep_mask(2, 0, Some(0)), vec![0, 0, 0, 0]);
    assert_eq!(keep_mask(3, 0, Some(3)), keep_mask(3, 0, None));
    assert_eq!(keep_mask(3, 0, Some(usize::MAX)), keep_mask(3, 0, None));
    assert_eq!(keep_mask(2, 2, None), vec![1, 1, 1, 0, 1, 1, 1, 1]);
    assert_eq!(keep_mask(2, 2, Some(3)), vec![1, 1, 1, 0, 0, 1, 1, 1]);
    assert_eq!(keep_mask(2, 2, Some(4)), keep_mask(2, 2, None));
}

#[test]
fn pieces_see_what_the_whole_sees() {
    for window in [None, Some(1), Some(2), Some(3), Some(9)] {
        let whole = keep_mask(6, 0, window);
        for first in 0..6 {
            let rest = keep_mask(6 - first, first, window);
            assert_eq!(rest, whole[first * 6..].to_vec());
        }
    }
}

#[test]
fn additive_masks() {
    let inf = f32::NEG_INFINITY;
    let m = causal_mask(2, 0, None, &Device::Cpu).unwrap();
    assert_eq!(m.dims(), &[1, 1, 2, 2]);
    assert_eq!(flat(&m), vec![0.0, inf, 0.0, 0.0]);
    let m = causal_mask(2, 3, None, &Device::Cpu).unwrap();
    assert_eq!(m.dims(), &[1, 1, 2, 5]);
    assert_eq!(
        flat(&m),
        vec![
            0.0, 0.0, 0.0, 0.0, inf, //
            0.0, 0.0, 0.0, 0.0, 0.0,
        ]
    );
    // The window reaches over what comes before the sequence.
    let m = causal_mask(2, 3, Some(2), &Device::Cpu).unwrap();
    assert_eq!(m.dims(), &[1, 1, 2, 5]);
    assert_eq!(
        flat(&m),
        vec![
            inf, inf, 0.0, 0.0, inf, //
            inf, inf, inf, 0.0, 0.0,
        ]
    );
    let m = causal_mask(3, 2, Some(1), &Device::Cpu).unwrap();
    assert_eq!(m.dims(), &[1, 1, 3, 5]);
    assert_eq!(
        flat(&m),
        vec![
            inf, inf, 0.0, inf, inf, //
            inf, inf, inf, 0.0, inf, //
            inf, inf, inf, inf, 0.0,
        ]
    );
    assert!(matches!(
        causal_mask(2, usize::MAX, None, &Device::Cpu),
        Err(ModelError::TooLarge)
    ));
    assert!(matches!(
        causal_mask(4, usize::MAX / 2, None, &Device::Cpu),
        Err(ModelError::TooLarge)
    ));
}

#[test]
fn names() {
    assert_eq!(name_of(0, ".attn_q.weight"), "blk.0.attn_q.weight");
    assert_eq!(name_of(1020, ".x"), "blk.1020.x");
    assert_eq!(
        name_of(usize::MAX, ""),
        format!("blk.{}", usize::MAX)
    );
}

#[test]
fn names_of_layers_differ() {
    for i in 0..120 {
        for j in 0..120 {
            assert_eq!(name_of(i, ".x") == name_of(j, ".x"), i == j);
        }
    }
}

#[test]
fn products_of_dims() {
    assert_eq!(count_elems(&vec![]), 1);
    assert_eq!(count_elems(&vec![2, 3, 4]), 24);
    assert_eq!(count_elems(&vec![2, 0, 4]), 0);
    assert!(fits_usize(&vec![usize::MAX, 0, 1]));
    assert!(!fits_usize(&vec![usize::MAX, 0, 2]));
    assert!(!fits_usize(&vec![1 << 40, 1 << 40]));
}

#[test]
fn blocks_that_are_read_in_pairs() {
    for kind in [GgmlDType::Q4_1, GgmlDType::Q5_0, GgmlDType::Q5_1] {
        let odd = QLinear::new(quantized(&values(0.3, &[3, 32]), kind)).unwrap();
        assert!(matches!(
            odd.forward(&values(1.0, &[2, 32])),
            Err(ModelError::OddBlocks)
        ));
        let q = quantized(&values(0.3, &[3, 64]), kind);
        let x = values(1.0, &[2, 64]);
        let want = x
            .matmul(&q.dequantize(&Device::Cpu).unwrap().t().unwrap())
            .unwrap();
        let got = QLinear::new(q).unwrap().forward(&x).unwrap();
        assert_eq!(got.dims(), &[2, 3]);
        for (a, b) in flat(&got).iter().zip(flat(&want)) {
            assert!((a - b).abs() < 0.2, "{a} {b}");
        }
    }
    let single = QLinear::new(quantized(&values(0.3, &[3, 32]), GgmlDType::Q4_0)).unwrap();
    assert_eq!(single.forward(&values(1.0, &[2, 32])).unwrap().dims(), &[2, 3]);
}

#[test]
fn projections_without_rows() {
    let none = Tensor::zeros((0, 32), DType::F32, &Device::Cpu).unwrap();
    for kind in [GgmlDType::F32, GgmlDType::F16, GgmlDType::BF16] {
        let l = QLinear::new(quantized(&none, kind)).unwrap();
        let got = l.forward(&values(1.0, &[2, 3, 32])).unwrap();
        assert_eq!(got.dims(), &[2, 3, 0]);
    }
    let l = QLinear::new(quantized(&none, GgmlDType::Q8_0)).unwrap();
    assert!(matches!(
        l.forward(&values(1.0, &[2, 3, 32])),
        Err(ModelError::EmptyDim)
    ));
}

#[test]
fn normalisation_of_a_row() {
    let x = Tensor::new(&[[3f32, -3.0]], &Device::Cpu).unwrap();
    let got = rms_no_scale(&x, &Scalar::from(16f64)).unwrap();
    close(&got, &Tensor::new(&[[0.6f32, -0.6]], &Device::Cpu).unwrap());
    // Columns, too, that do not lie one behind the other.
    let t = values(0.4, &[3, 2]).t().unwrap();
    close(
        &rms_no_scale(&t, &Scalar::from(16f64)).unwrap(),
        &rms_no_scale(&t.contiguous().unwrap(), &Scalar::from(16f64)).unwrap(),
    );
}

#[test]
fn angles_of_a_column() {
    let row = Tensor::new(&[[1f32, 0.25]], &Device::Cpu).unwrap();
    let every_second = Tensor::new(&[[1f32, 7.0], [0.25, 7.0]], &Device::Cpu)
        .unwrap()
        .t()
        .unwrap()
        .narrow(0, 0, 1)
        .unwrap();
    let a = Rotary::from_inv_freq(&row, DType::F32, 5, &Device::Cpu).unwrap();
    let b = Rotary::from_inv_freq(&every_second, DType::F32, 5, &Device::Cpu).unwrap();
    close(&a.slice(0, 5).unwrap().0, &b.slice(0, 5).unwrap().0);
}
