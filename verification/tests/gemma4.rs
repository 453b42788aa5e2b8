use candle_attention::error::ModelError;
use candle_attention::gemma4::attention::if_loaded;
use candle_attention::gemma4::config::{
    layer_kinds, proportional_exponents, tensor_names, Config,
};
use candle_attention::gemma4::model::{Floats, ModelWeights};
use candle_attention::gemma4::moe::Gemma4Moe;
use candle_attention::gguf::{Gguf, MetaValue, Real};
use candle_attention::nn::standard_exponents;
use candle_core::quantized::{GgmlDType, QTensor};
use candle_core::scalar::Scalar;
use candle_core::{DType, Device, Tensor, D};
use std::sync::Arc;

const EPS: f64 = 1e-5;
const HIDDEN: usize = 16;
const HEADS: usize = 4;
const SWA: usize = 8;
const FULL: usize = 16;
const VOCAB: usize = 11;

fn values(seed: f32, dims: &[usize]) -> Tensor {
    let n: usize = dims.iter().product();
    let v: Vec<f32> = (0..n)
        .map(|i| (seed * 1.3 + i as f32 * 0.77).sin() * 0.4)
        .collect();
    Tensor::from_vec(v, dims.to_vec(), &Device::Cpu).unwrap()
}

fn flat(x: &Tensor) -> Vec<f32> {
    x.flatten_all().unwrap().to_vec1().unwrap()
}

fn close(a: &Tensor, b: &Tensor) {
    assert_eq!(a.dims(), b.dims());
    for (x, y) in flat(a).iter().zip(flat(b)) {
        assert!((x - y).abs() < 1e-4, "{x} {y}");
    }
}

fn differ(a: &Tensor, b: &Tensor) -> bool {
    flat(a)
        .iter()
        .zip(flat(b))
        .any(|(x, y)| (x - y).abs() > 1e-4)
}

fn put(gg: &mut Gguf, name: &str, t: Tensor) {
    let q = QTensor::quantize(&t, GgmlDType::F32).unwrap();
    gg.tensors.push((name.to_string(), Arc::new(q)));
}

fn get(gg: &Gguf, name: &str) -> Tensor {
    let q = &gg.tensors.iter().find(|(n, _)| n == name).unwrap().1;
    q.dequantize(&Device::Cpu).unwrap()
}

fn set(gg: &mut Gguf, key: &str, v: MetaValue) {
    gg.metadata.retain(|(k, _)| k != key);
    gg.metadata.push((key.to_string(), v));
}

fn u32s(v: &[u32]) -> MetaValue {
    MetaValue::Array(v.iter().map(|x| MetaValue::U32(*x)).collect())
}

fn bools(v: &[bool]) -> MetaValue {
    MetaValue::Array(v.iter().map(|x| MetaValue::Bool(*x)).collect())
}

/// A sliding layer with values of its own, and a full one without.
fn metadata(window: u32) -> Gguf {
    let mut gg = Gguf {
        metadata: Vec::new(),
        tensors: Vec::new(),
    };
    for (k, v) in [
        ("attention.head_count", HEADS as u32),
        ("block_count", 2),
        ("embedding_length", HIDDEN as u32),
        ("attention.key_length", FULL as u32),
        ("attention.key_length_swa", SWA as u32),
        ("attention.sliding_window", window),
        ("context_length", 32),
        ("expert_feed_forward_length", 8),
        ("expert_used_count", 2),
    ] {
        set(&mut gg, &format!("gemma4.{k}"), MetaValue::U32(v));
    }
    set(&mut gg, "gemma4.attention.head_count_kv", u32s(&[2, 1]));
    set(
        &mut gg,
        "gemma4.attention.sliding_window_pattern",
        bools(&[true, false]),
    );
    gg
}

fn file(window: u32) -> Gguf {
    let mut gg = metadata(window);
    put(&mut gg, "token_embd.weight", values(1.0, &[VOCAB, HIDDEN]));
    put(&mut gg, "output_norm.weight", values(2.0, &[HIDDEN]));
    for i in 0..2 {
        let (d, kv) = if i == 0 { (SWA, 2) } else { (FULL, 1) };
        let s = 10.0 * (i + 1) as f32;
        let mut p = |name: &str, seed: f32, dims: &[usize]| {
            put(&mut gg, &format!("blk.{i}.{name}"), values(s + seed, dims))
        };
        p("attn_q.weight", 0.1, &[HEADS * d, HIDDEN]);
        p("attn_k.weight", 0.2, &[kv * d, HIDDEN]);
        if i == 0 {
            p("attn_v.weight", 0.3, &[kv * d, HIDDEN]);
        }
        p("attn_output.weight", 0.4, &[HIDDEN, HEADS * d]);
        p("attn_q_norm.weight", 0.5, &[d]);
        p("attn_k_norm.weight", 0.6, &[d]);
        p("ffn_gate.weight", 0.7, &[24, HIDDEN]);
        p("ffn_up.weight", 0.8, &[24, HIDDEN]);
        p("ffn_down.weight", 0.9, &[HIDDEN, 24]);
        p("attn_norm.weight", 1.0, &[HIDDEN]);
        p("post_attention_norm.weight", 1.1, &[HIDDEN]);
        p("ffn_norm.weight", 1.2, &[HIDDEN]);
        p("post_ffw_norm.weight", 1.3, &[HIDDEN]);
        p("layer_output_scale.weight", 1.4, &[1]);
    }
    gg
}

fn experts(gg: &mut Gguf, i: usize) {
    let mut p = |name: &str, seed: f32, dims: &[usize]| {
        put(gg, &format!("blk.{i}.{name}"), values(seed, dims))
    };
    p("ffn_gate_up_exps.weight", 0.1, &[5, 16, HIDDEN]);
    p("ffn_gate_inp.weight", 0.2, &[5, HIDDEN]);
    p("ffn_gate_inp.scale", 0.3, &[HIDDEN]);
    p("ffn_down_exps.scale", 0.4, &[5]);
    p("ffn_down_exps.weight", 0.5, &[5, HIDDEN, 8]);
    p("pre_ffw_norm_2.weight", 0.6, &[HIDDEN]);
    p("post_ffw_norm_1.weight", 0.7, &[HIDDEN]);
    p("post_ffw_norm_2.weight", 0.8, &[HIDDEN]);
}

fn row(freqs: Vec<f32>) -> Tensor {
    let n = freqs.len();
    Tensor::from_vec(freqs, (1, n), &Device::Cpu).unwrap()
}

fn frequencies(exponents: Vec<Option<usize>>, theta: f32, d: usize) -> Tensor {
    row(exponents
        .into_iter()
        .map(|e| match e {
            Some(e) => 1.0 / theta.powf(e as f32 / d as f32),
            None => 0.0,
        })
        .collect())
}

fn floats(softcap: Option<f64>) -> Floats {
    Floats {
        rms_norm_eps: Scalar::from(EPS),
        embedding_scale: Scalar::from((HIDDEN as f64).sqrt()),
        scalar_root_size: Scalar::from((HIDDEN as f64).powf(-0.5)),
        final_logit_softcapping: softcap.map(Scalar::from),
        sliding_inv_freq: frequencies(standard_exponents(SWA), 10_000.0, SWA),
        full_inv_freq: frequencies(proportional_exponents(FULL), 1_000_000.0, FULL),
    }
}

fn model(gg: &Gguf, softcap: Option<f64>) -> ModelWeights {
    match ModelWeights::from_gguf(gg, &floats(softcap), &Device::Cpu, DType::F32) {
        Ok(m) => m,
        Err(e) => panic!("{e:?}"),
    }
}

fn tokens(t: &[u32]) -> Tensor {
    Tensor::new(t, &Device::Cpu).unwrap().unsqueeze(0).unwrap()
}

fn norm(x: &Tensor, w: &Tensor) -> Tensor {
    candle_nn::ops::rms_norm(&x.contiguous().unwrap(), w, EPS as f32).unwrap()
}

fn lin(x: &Tensor, w: &Tensor) -> Tensor {
    x.broadcast_matmul(&w.t().unwrap()).unwrap()
}

/// A plain run over a whole sequence, without kept keys and values.
fn reference(gg: &Gguf, window: usize, t: &[u32], softcap: Option<f64>) -> Tensor {
    let n = t.len();
    let ids = Tensor::new(t, &Device::Cpu).unwrap();
    let mut x = (get(gg, "token_embd.weight").index_select(&ids, 0).unwrap()
        * (HIDDEN as f64).sqrt())
    .unwrap()
    .unsqueeze(0)
    .unwrap();
    for i in 0..2 {
        let w = |name: &str| get(gg, &format!("blk.{i}.{name}.weight"));
        let (d, kv) = if i == 0 { (SWA, 2) } else { (FULL, 1) };
        let h = norm(&x, &w("attn_norm"));
        let heads = |y: Tensor, c: usize| {
            y.reshape((1, n, c, d))
                .unwrap()
                .transpose(1, 2)
                .unwrap()
                .contiguous()
                .unwrap()
        };
        let q = heads(lin(&h, &w("attn_q")), HEADS);
        let k = heads(lin(&h, &w("attn_k")), kv);
        let v = if i == 0 {
            heads(lin(&h, &w("attn_v")), kv)
        } else {
            k.clone()
        };
        let q = norm(&q, &w("attn_q_norm"));
        let k = norm(&k, &w("attn_k_norm"));
        let rms = (v.sqr().unwrap().mean_keepdim(D::Minus1).unwrap() + EPS)
            .unwrap()
            .sqrt()
            .unwrap();
        let v = v.broadcast_div(&rms).unwrap();
        let inv = if i == 0 {
            let f = floats(None);
            f.sliding_inv_freq
        } else {
            floats(None).full_inv_freq
        };
        let pos: Vec<f32> = (0..n).map(|p| p as f32).collect();
        let angles = Tensor::from_vec(pos, (n, 1), &Device::Cpu)
            .unwrap()
            .matmul(&inv)
            .unwrap();
        let (cos, sin) = (angles.cos().unwrap(), angles.sin().unwrap());
        let q = candle_nn::rotary_emb::rope(&q, &cos, &sin).unwrap();
        let k = candle_nn::rotary_emb::rope(&k, &cos, &sin).unwrap();
        let each = |y: Tensor| {
            let parts: Vec<Tensor> = (0..HEADS)
                .map(|c| y.narrow(1, c / (HEADS / kv), 1).unwrap())
                .collect();
            Tensor::cat(&parts, 1).unwrap().contiguous().unwrap()
        };
        let (k, v) = (each(k), each(v));
        let s = q
            .matmul(&k.transpose(2, 3).unwrap().contiguous().unwrap())
            .unwrap();
        let hide: Vec<f32> = (0..n * n)
            .map(|p| {
                let (a, b) = (p / n, p % n);
                if b > a || (i == 0 && a >= b + window) {
                    f32::NEG_INFINITY
                } else {
                    0.0
                }
            })
            .collect();
        let s = s
            .broadcast_add(&Tensor::from_vec(hide, (n, n), &Device::Cpu).unwrap())
            .unwrap();
        let p = candle_nn::ops::softmax(&s, D::Minus1).unwrap();
        let c = p
            .matmul(&v)
            .unwrap()
            .transpose(1, 2)
            .unwrap()
            .reshape((1, n, HEADS * d))
            .unwrap();
        let h = norm(&lin(&c, &w("attn_output")), &w("post_attention_norm"));
        let y = (&x + h).unwrap();
        let h = norm(&y, &w("ffn_norm"));
        let gate = lin(&h, &w("ffn_gate")).gelu().unwrap();
        let h = lin(
            &(gate * lin(&h, &w("ffn_up"))).unwrap(),
            &w("ffn_down"),
        );
        let h = norm(&h, &w("post_ffw_norm"));
        x = (&y + h)
            .unwrap()
            .broadcast_mul(&w("layer_output_scale"))
            .unwrap();
    }
    let last = x.narrow(1, n - 1, 1).unwrap().squeeze(1).unwrap();
    let out = lin(
        &norm(&last, &get(gg, "output_norm.weight")),
        &get(gg, "token_embd.weight"),
    );
    match softcap {
        None => out,
        Some(sc) => ((out / sc).unwrap().tanh().unwrap() * sc).unwrap(),
    }
}

#[test]
fn gemma_logits_of_a_prompt() {
    let gg = file(2);
    let t = [3u32, 1, 4, 1, 5];
    let mut m = model(&gg, None);
    let got = m.forward(&tokens(&t), 0).unwrap();
    assert_eq!(got.dims(), &[1, VOCAB]);
    close(&got, &reference(&gg, 2, &t, None));
    assert!(differ(&got, &reference(&gg, 9, &t, None)));
}

#[test]
fn gemma_logits_are_capped() {
    let gg = file(2);
    let t = [3u32, 1, 4];
    let got = model(&gg, Some(0.5)).forward(&tokens(&t), 0).unwrap();
    close(&got, &reference(&gg, 2, &t, Some(0.5)));
    assert!(flat(&got).iter().all(|v| v.abs() < 0.5));
}

#[test]
fn gemma_own_output_projection() {
    let mut gg = file(2);
    let t = [3u32, 1];
    let tied = model(&gg, None).forward(&tokens(&t), 0).unwrap();
    put(&mut gg, "output.weight", values(7.0, &[4, HIDDEN]));
    let own = model(&gg, None).forward(&tokens(&t), 0).unwrap();
    assert_eq!(tied.dims(), &[1, VOCAB]);
    assert_eq!(own.dims(), &[1, 4]);
}

#[test]
fn gemma_goes_on_from_kept_keys_and_values() {
    let gg = file(16);
    let t = [3u32, 1, 4, 1, 5];
    let whole = reference(&gg, 16, &t, None);
    let mut m = model(&gg, None);
    m.forward(&tokens(&t[..3]), 0).unwrap();
    m.forward(&tokens(&t[3..4]), 3).unwrap();
    close(&m.forward(&tokens(&t[4..]), 4).unwrap(), &whole);
    // Several positions at once see all the kept ones.
    let mut m = model(&gg, None);
    m.forward(&tokens(&t[..2]), 0).unwrap();
    close(&m.forward(&tokens(&t[2..]), 2).unwrap(), &whole);
}

#[test]
fn gemma_window_reaches_over_kept_keys() {
    let gg = file(2);
    let t = [3u32, 1, 4, 1, 5, 9];
    let whole = reference(&gg, 2, &t, None);
    for first in 1..5 {
        let mut m = model(&gg, None);
        m.forward(&tokens(&t[..first]), 0).unwrap();
        close(&m.forward(&tokens(&t[first..]), first).unwrap(), &whole);
    }
    // The window does not act on a single position.
    let mut m = model(&gg, None);
    m.forward(&tokens(&t[..5]), 0).unwrap();
    assert!(differ(&m.forward(&tokens(&t[5..]), 5).unwrap(), &whole));
}

#[test]
fn gemma_output_equal_to_the_embeddings() {
    let t = [3u32, 1, 4];
    let tied = file(2);
    let mut own = file(2);
    put(&mut own, "output.weight", get(&tied, "token_embd.weight"));
    let (mut a, mut b) = (model(&tied, None), model(&own, None));
    for (at, part) in [(0, &t[..2]), (2, &t[2..])] {
        let x = a.forward(&tokens(part), at).unwrap();
        let y = b.forward(&tokens(part), at).unwrap();
        assert_eq!(flat(&x), flat(&y));
    }
    let mut none = file(2);
    none.tensors.retain(|(n, _)| n != "token_embd.weight");
    match ModelWeights::from_gguf(&none, &floats(None), &Device::Cpu, DType::F32) {
        Err(ModelError::MissingTensor(n)) => assert_eq!(n, "token_embd.weight"),
        _ => panic!("loaded"),
    }
}

#[test]
fn gemma_reads_its_settings_from_the_file() {
    let t = [3u32, 1, 4, 1];
    let gg = file(2);
    let own = model(&gg, None).forward(&tokens(&t), 0).unwrap();
    // The settings of another file have another window.
    let other = Config::read(&metadata(9)).unwrap();
    let mut m =
        match ModelWeights::with_config(&gg, &other, &floats(None), &Device::Cpu, DType::F32) {
            Ok(m) => m,
            Err(e) => panic!("{e:?}"),
        };
    let wide = m.forward(&tokens(&t), 0).unwrap();
    close(&own, &reference(&gg, 2, &t, None));
    close(&wide, &reference(&gg, 9, &t, None));
    assert!(differ(&own, &wide));
    let mut gg = file(2);
    gg.metadata.retain(|(k, _)| k != "gemma4.context_length");
    match ModelWeights::from_gguf(&gg, &floats(None), &Device::Cpu, DType::F32) {
        Err(ModelError::MissingKey(k)) => assert_eq!(k, "gemma4.context_length"),
        _ => panic!("loaded"),
    }
}

#[test]
fn gemma_loads_on_the_cpu() {
    let gg = file(2);
    for dtype in [DType::F32, DType::F16, DType::BF16, DType::F64] {
        assert!(ModelWeights::from_gguf(&gg, &floats(None), &Device::Cpu, dtype).is_ok());
    }
    // A table whose elements lie apart.
    let mut f = floats(None);
    let n = f.full_inv_freq.dim(1).unwrap();
    let column = f.full_inv_freq.reshape((n, 1)).unwrap();
    let pair = Tensor::cat(&[&column, &column], 1).unwrap();
    f.full_inv_freq = pair.narrow(1, 0, 1).unwrap().t().unwrap();
    assert!(!f.full_inv_freq.is_contiguous());
    let t = [3u32, 1, 4];
    let mut m = match ModelWeights::from_gguf(&gg, &f, &Device::Cpu, DType::F32) {
        Ok(m) => m,
        Err(e) => panic!("{e:?}"),
    };
    close(
        &m.forward(&tokens(&t), 0).unwrap(),
        &reference(&gg, 2, &t, None),
    );
}

#[test]
fn gemma_fresh_start_ignores_what_was_kept() {
    let gg = file(2);
    let t = [2u32, 7, 1];
    let mut m = model(&gg, None);
    let first = m.forward(&tokens(&t), 0).unwrap();
    m.forward(&tokens(&[9]), 3).unwrap();
    let again = m.forward(&tokens(&t), 0).unwrap();
    close(&first, &again);
    m.clear_kv_cache();
    close(&m.forward(&tokens(&t), 0).unwrap(), &first);
    // After clearing there is nothing to go on from.
    let on = m.forward(&tokens(&[9]), 3).unwrap();
    m.clear_kv_cache();
    assert!(differ(&m.forward(&tokens(&[9]), 3).unwrap(), &on));
}

#[test]
fn gemma_refuses_inputs() {
    let gg = file(2);
    let mut m = model(&gg, None);
    let line = Tensor::new(&[1u32, 2], &Device::Cpu).unwrap();
    assert!(matches!(
        m.forward(&line, 0),
        Err(ModelError::UnexpectedRank {
            expected: 2,
            rank: 1
        })
    ));
    let none = Tensor::zeros((1, 0), DType::U32, &Device::Cpu).unwrap();
    assert!(matches!(m.forward(&none, 0), Err(ModelError::EmptySequence)));
    // A token that is not in the table, and positions beyond the context.
    assert!(matches!(
        m.forward(&tokens(&[99]), 0),
        Err(ModelError::Candle(_))
    ));
    assert!(matches!(
        m.forward(&tokens(&[1]), 32),
        Err(ModelError::Candle(_))
    ));
}

#[test]
fn gemma_names_the_first_missing_tensor() {
    let all = file(2);
    let missing = |name: &str| {
        let mut gg = file(2);
        gg.tensors.retain(|(n, _)| n != name);
        match ModelWeights::from_gguf(&gg, &floats(None), &Device::Cpu, DType::F32) {
            Ok(_) => None,
            Err(ModelError::MissingTensor(n)) => Some(n),
            Err(e) => panic!("{e:?}"),
        }
    };
    for (name, _) in &all.tensors {
        if name == "blk.0.attn_v.weight" {
            assert_eq!(missing(name), None);
        } else {
            assert_eq!(missing(name).as_ref(), Some(name));
        }
    }
}

#[test]
fn gemma_looks_up_the_listed_names() {
    let names = tensor_names(2);
    assert_eq!(names.len(), 3 + 2 * 22);
    assert_eq!(names[0], "token_embd.weight");
    assert_eq!(names[3], "blk.0.attn_q.weight");
    assert_eq!(names[46], "blk.1.layer_output_scale.weight");
    let mut gg = file(2);
    experts(&mut gg, 1);
    for (n, _) in &gg.tensors {
        assert!(names.contains(n), "{n}");
    }
}

#[test]
fn gemma_settings() {
    let mut gg = metadata(7);
    let c = Config::read(&gg).unwrap();
    assert_eq!(
        (c.n_head, c.block_count, c.embedding_length, c.key_length),
        (4, 2, 16, 16)
    );
    assert_eq!(
        (c.key_length_swa, c.sliding_window, c.context_length),
        (8, 7, 32)
    );
    assert_eq!((c.moe_inter, c.num_experts_per_tok), (8, 2));
    assert_eq!(c.rms_norm_eps, Real::Double(1e-6f64.to_bits()));
    assert_eq!(c.rope_theta, Real::Double(1_000_000f64.to_bits()));
    assert_eq!(c.rope_theta_swa, Real::Double(10_000f64.to_bits()));
    assert_eq!(c.final_logit_softcapping, None);
    assert_eq!(c.head_count_kv, vec![2, 1]);
    assert_eq!(c.is_sliding, vec![true, false]);
    assert_eq!((c.head_dim_of(0), c.head_dim_of(1)), (8, 16));
    assert_eq!((c.kv_heads_of(0), c.kv_heads_of(1)), (2, 1));

    set(
        &mut gg,
        "gemma4.rope.freq_base",
        MetaValue::F32(5f32.to_bits()),
    );
    set(
        &mut gg,
        "gemma4.final_logit_softcapping",
        MetaValue::F32(30f32.to_bits()),
    );
    set(&mut gg, "gemma4.block_count", MetaValue::U32(8));
    set(
        &mut gg,
        "gemma4.attention.head_count_kv",
        MetaValue::Array(vec![
            MetaValue::U32(3),
            MetaValue::Bool(true),
            MetaValue::U32(4),
        ]),
    );
    let c = Config::read(&gg).unwrap();
    assert_eq!(c.rope_theta, Real::Single(5f32.to_bits()));
    assert_eq!(
        c.final_logit_softcapping,
        Some(Real::Single(30f32.to_bits()))
    );
    // Values of another type are passed over.
    assert_eq!(c.head_count_kv, vec![3, 4]);
    assert_eq!(
        c.is_sliding,
        vec![true, false, true, true, true, false, true, true]
    );
    assert_eq!((c.kv_heads_of(5), c.kv_heads_of(6)), (2, 8));
    // A softcap of another type, and arrays that are none, do not count.
    set(
        &mut gg,
        "gemma4.final_logit_softcapping",
        MetaValue::U32(30),
    );
    set(
        &mut gg,
        "gemma4.attention.head_count_kv",
        MetaValue::U32(4),
    );
    let c = Config::read(&gg).unwrap();
    assert_eq!(c.final_logit_softcapping, None);
    assert!(c.head_count_kv.is_empty());
}

#[test]
fn gemma_settings_that_cannot_be_read() {
    for key in [
        "attention.head_count",
        "block_count",
        "embedding_length",
        "attention.key_length",
        "attention.key_length_swa",
        "attention.sliding_window",
        "context_length",
        "expert_feed_forward_length",
        "expert_used_count",
    ] {
        let key = format!("gemma4.{key}");
        let mut gg = metadata(2);
        gg.metadata.retain(|(k, _)| *k != key);
        match Config::read(&gg).unwrap_err() {
            ModelError::MissingKey(k) => assert_eq!(k, key),
            e => panic!("{e:?}"),
        }
        set(&mut gg, &key, MetaValue::U64(3));
        match Config::read(&gg).unwrap_err() {
            ModelError::WrongType(k) => assert_eq!(k, key),
            e => panic!("{e:?}"),
        }
    }
    let mut gg = metadata(2);
    set(
        &mut gg,
        "gemma4.rope.freq_base_swa",
        MetaValue::F64(1f64.to_bits()),
    );
    match Config::read(&gg).unwrap_err() {
        ModelError::WrongType(k) => assert_eq!(k, "gemma4.rope.freq_base_swa"),
        e => panic!("{e:?}"),
    }
    let empty = Gguf {
        metadata: Vec::new(),
        tensors: Vec::new(),
    };
    match Config::read(&empty).unwrap_err() {
        ModelError::MissingKey(k) => assert_eq!(k, "gemma4.attention.head_count"),
        e => panic!("{e:?}"),
    }
}

#[test]
fn gemma_refuses_layers_without_keys() {
    let mut gg = file(2);
    set(
        &mut gg,
        "gemma4.attention.head_count_kv",
        u32s(&[2, 0]),
    );
    assert!(matches!(
        ModelWeights::from_gguf(&gg, &floats(None), &Device::Cpu, DType::F32),
        Err(ModelError::BadConfig)
    ));
}

#[test]
fn gemma_layer_kinds() {
    let kinds = layer_kinds(&vec![], 13);
    for (i, sliding) in kinds.iter().enumerate() {
        assert_eq!(*sliding, i != 5 && i != 11);
    }
    assert_eq!(layer_kinds(&vec![false, false, true], 2), vec![false, false]);
}

#[test]
fn gemma_exponents() {
    assert_eq!(standard_exponents(6), vec![Some(0), Some(2), Some(4)]);
    assert_eq!(standard_exponents(5), vec![Some(0), Some(2), Some(4)]);
    assert_eq!(standard_exponents(0), vec![]);
    assert_eq!(
        proportional_exponents(16),
        vec![
            Some(0),
            Some(2),
            None,
            None,
            None,
            None,
            None,
            None
        ]
    );
    assert_eq!(proportional_exponents(7), vec![None, None, None]);
}

#[test]
fn gemma_router_picks_the_largest_shares() {
    let mut gg = file(2);
    experts(&mut gg, 1);
    let root = (HIDDEN as f64).powf(-0.5);
    let moe = match Gemma4Moe::load(
        &gg,
        1,
        Scalar::from(root),
        Scalar::from(EPS),
        8,
        2,
        DType::F32,
        &Device::Cpu,
    ) {
        Ok(Some(m)) => m,
        _ => panic!("no experts"),
    };
    let x = values(3.3, &[3, HIDDEN]);
    let (idx, w) = moe.route(&x).unwrap();
    assert_eq!((idx.dims(), w.dims()), (&[3, 2][..], &[3, 2][..]));
    let idx: Vec<u32> = idx.flatten_all().unwrap().to_vec1().unwrap();
    let w = flat(&w);
    let (xs, scale) = (flat(&x), flat(&get(&gg, "blk.1.ffn_gate_inp.scale")));
    let proj = flat(&get(&gg, "blk.1.ffn_gate_inp.weight"));
    let per = flat(&get(&gg, "blk.1.ffn_down_exps.scale"));
    for t in 0..3 {
        let r = &xs[t * HIDDEN..(t + 1) * HIDDEN];
        let rms = (r.iter().map(|v| v * v).sum::<f32>() / HIDDEN as f32 + EPS as f32).sqrt();
        let h: Vec<f32> = (0..HIDDEN)
            .map(|i| r[i] / rms * scale[i] * root as f32)
            .collect();
        let s: Vec<f32> = (0..5)
            .map(|e| (0..HIDDEN).map(|i| h[i] * proj[e * HIDDEN + i]).sum())
            .collect();
        let total: f32 = s.iter().map(|v: &f32| v.exp()).sum();
        let p: Vec<f32> = s.iter().map(|v| v.exp() / total).collect();
        let mut order: Vec<usize> = (0..5).collect();
        order.sort_by(|a, b| p[*b].partial_cmp(&p[*a]).unwrap());
        let sum = p[order[0]] + p[order[1]];
        for k in 0..2 {
            let e = order[k];
            assert_eq!(idx[t * 2 + k] as usize, e);
            assert!((w[t * 2 + k] - p[e] / sum * per[e]).abs() < 1e-5);
        }
    }
}

#[test]
fn gemma_router_refuses_values_without_an_order() {
    let mut gg = file(2);
    experts(&mut gg, 0);
    let moe = match Gemma4Moe::load(
        &gg,
        0,
        Scalar::from(1f64),
        Scalar::from(EPS),
        8,
        2,
        DType::F32,
        &Device::Cpu,
    ) {
        Ok(Some(m)) => m,
        _ => panic!("no experts"),
    };
    let x = Tensor::full(f32::NAN, (1, HIDDEN), &Device::Cpu).unwrap();
    assert!(matches!(moe.route(&x), Err(ModelError::Unordered)));
}

#[test]
fn gemma_expert_outputs_are_added_up() {
    let mut gg = file(2);
    experts(&mut gg, 0);
    let moe = match Gemma4Moe::load(
        &gg,
        0,
        Scalar::from(1f64),
        Scalar::from(EPS),
        8,
        2,
        DType::F64,
        &Device::Cpu,
    ) {
        Ok(Some(m)) => m,
        _ => panic!("no experts"),
    };
    let x = values(0.1, &[3, HIDDEN]);
    let outputs = values(0.2, &[6, HIDDEN]);
    let got = moe.mix(&x, &outputs).unwrap();
    assert_eq!(got.dtype(), DType::F64);
    assert_eq!(got.dims(), &[3, HIDDEN]);
    let (o, g) = (flat(&outputs), flat(&got.to_dtype(DType::F32).unwrap()));
    for t in 0..3 {
        for i in 0..HIDDEN {
            let want = o[2 * t * HIDDEN + i] + o[(2 * t + 1) * HIDDEN + i];
            assert!((g[t * HIDDEN + i] - want).abs() < 1e-5);
        }
    }
    assert!(matches!(
        moe.mix(&x, &values(0.2, &[5, HIDDEN])),
        Err(ModelError::Uneven)
    ));
}

#[test]
fn gemma_experts_need_a_cuda_device() {
    let mut gg = file(2);
    experts(&mut gg, 0);
    let mut m = model(&gg, None);
    assert!(matches!(
        m.forward(&tokens(&[1, 2]), 0),
        Err(ModelError::Candle(_))
    ));
}

#[test]
fn gemma_experts_lack_a_tensor() {
    let mut gg = file(2);
    experts(&mut gg, 1);
    gg.tensors
        .retain(|(n, _)| n != "blk.1.ffn_down_exps.scale");
    match ModelWeights::from_gguf(&gg, &floats(None), &Device::Cpu, DType::F32) {
        Err(ModelError::MissingTensor(n)) => assert_eq!(n, "blk.1.ffn_down_exps.scale"),
        _ => panic!("loaded"),
    }
    let none = Gemma4Moe::load(
        &gg,
        0,
        Scalar::from(1f64),
        Scalar::from(EPS),
        8,
        2,
        DType::F32,
        &Device::Cpu,
    );
    assert!(matches!(none, Ok(None)));
}

#[test]
fn gemma_projection_that_is_not_there() {
    assert!(if_loaded(Err(ModelError::TooLarge)).is_none());
}

#[test]
fn gemma_reads_only_the_listed_tensors() {
    let t = [3u32, 1, 4];
    let gg = file(2);
    let plain = model(&gg, None).forward(&tokens(&t), 0).unwrap();
    let mut more = file(2);
    put(&mut more, "blk.2.attn_q.weight", values(5.0, &[3, 3]));
    put(&mut more, "blk.0.attn_q.bias", values(5.0, &[3]));
    let same = model(&more, None).forward(&tokens(&t), 0).unwrap();
    assert_eq!(flat(&plain), flat(&same));
    // The first tensor under a name counts.
    put(&mut more, "blk.0.attn_q.weight", values(9.0, &[3, 3]));
    let same = model(&more, None).forward(&tokens(&t), 0).unwrap();
    assert_eq!(flat(&plain), flat(&same));
}

#[test]
fn gemma_single_positions_of_several_sequences() {
    let gg = file(16);
    let (a, b) = ([3u32, 1, 4], [1u32, 5, 9]);
    let mut m = model(&gg, None);
    let mut last = None;
    for i in 0..3 {
        let both = Tensor::new(&[[a[i]], [b[i]]], &Device::Cpu).unwrap();
        last = Some(m.forward(&both, i).unwrap());
    }
    let last = last.unwrap();
    assert_eq!(last.dims(), &[2, VOCAB]);
    for (i, t) in [a, b].iter().enumerate() {
        let mut alone = model(&gg, None);
        close(
            &last.narrow(0, i, 1).unwrap(),
            &alone.forward(&tokens(t), 0).unwrap(),
        );
    }
}

#[test]
fn gemma_tokens_beyond_the_embeddings() {
    let gg = file(16);
    let mut m = model(&gg, None);
    assert!(matches!(
        m.forward(&tokens(&[VOCAB as u32]), 0),
        Err(ModelError::Candle(_))
    ));
    assert!(m.forward(&tokens(&[VOCAB as u32 - 1]), 0).is_ok());
}

#[test]
fn gemma_calls_within_the_context() {
    let gg = file(16);
    let mut m = model(&gg, None);
    for at in 0..32 {
        assert!(m.forward(&tokens(&[at as u32 % 7]), at).is_ok());
    }
    assert!(matches!(
        m.forward(&tokens(&[1]), 32),
        Err(ModelError::Candle(_))
    ));
}
