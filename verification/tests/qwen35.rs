use candle_attention::error::ModelError;
use candle_attention::gguf::{Gguf, MetaValue, Real};
use candle_attention::qwen35::config::{tensor_names, Config};
use candle_attention::qwen35::model::{Floats, ModelWeights};
use candle_core::quantized::{GgmlDType, QTensor};
use candle_core::scalar::Scalar;
use candle_core::{DType, Device, Tensor, D};
use std::sync::Arc;

const EPS: f64 = 1e-6;
const HIDDEN: usize = 12;
const HEADS: usize = 4;
const KV: usize = 2;
const DIM: usize = 8;
const ROPE: usize = 4;
const VOCAB: usize = 9;

fn values(seed: f32, dims: &[usize]) -> Tensor {
    let n: usize = dims.iter().product();
    let v: Vec<f32> = (0..n)
        .map(|i| (seed * 1.7 + i as f32 * 0.91).sin() * 0.5)
        .collect();
    Tensor::from_vec(v, dims.to_vec(), &Device::Cpu).unwrap()
}

fn flat(x: &Tensor) -> Vec<f32> {
    x.flatten_all().unwrap().to_vec1().unwrap()
}

fn close(a: &Tensor, b: &Tensor) {
    assert_eq!(a.dims(), b.dims());
    for (x, y) in flat(a).iter().zip(flat(b)) {
        assert!((x - y).abs() < 1e-4, "{x} {y}");
    }
}

fn put(gg: &mut Gguf, name: &str, t: Tensor) {
    let q = QTensor::quantize(&t, GgmlDType::F32).unwrap();
    gg.tensors.push((name.to_string(), Arc::new(q)));
}

fn get(gg: &Gguf, name: &str) -> Tensor {
    let q = &gg.tensors.iter().find(|(n, _)| n == name).unwrap().1;
    q.dequantize(&Device::Cpu).unwrap()
}

fn set(gg: &mut Gguf, key: &str, v: MetaValue) {
    gg.metadata.retain(|(k, _)| k != key);
    gg.metadata.push((key.to_string(), v));
}

fn metadata() -> Gguf {
    let mut gg = Gguf {
        metadata: Vec::new(),
        tensors: Vec::new(),
    };
    for (k, v) in [
        ("block_count", 4),
        ("attention.head_count", HEADS as u32),
        ("attention.head_count_kv", KV as u32),
        ("attention.key_length", DIM as u32),
        ("embedding_length", HIDDEN as u32),
        ("context_length", 20),
        ("full_attention_interval", 2),
        ("rope.dimension_count", ROPE as u32),
    ] {
        set(&mut gg, &format!("qwen35.{k}"), MetaValue::U32(v));
    }
    gg
}

fn file() -> Gguf {
    let mut gg = metadata();
    put(&mut gg, "token_embd.weight", values(1.0, &[VOCAB, HIDDEN]));
    put(&mut gg, "output_norm.weight", values(2.0, &[HIDDEN]));
    for i in 0..4 {
        let s = 10.0 * (i + 1) as f32;
        let mut p = |name: &str, seed: f32, dims: &[usize]| {
            put(
                &mut gg,
                &format!("blk.{i}.{name}.weight"),
                values(s + seed, dims),
            )
        };
        p("attn_norm", 0.1, &[HIDDEN]);
        p("post_attention_norm", 0.2, &[HIDDEN]);
        if i % 2 == 1 {
            p("attn_q", 0.3, &[HEADS * DIM * 2, HIDDEN]);
            p("attn_k", 0.4, &[KV * DIM, HIDDEN]);
            p("attn_v", 0.5, &[KV * DIM, HIDDEN]);
            p("attn_output", 0.6, &[HIDDEN, HEADS * DIM]);
            p("attn_q_norm", 0.7, &[DIM]);
            p("attn_k_norm", 0.8, &[DIM]);
        }
        p("ffn_gate", 0.9, &[20, HIDDEN]);
        p("ffn_up", 1.0, &[20, HIDDEN]);
        p("ffn_down", 1.1, &[HIDDEN, 20]);
    }
    gg
}

fn inv_freq() -> Tensor {
    let v: Vec<f32> = (0..ROPE / 2)
        .map(|i| 1.0 / 1e7f64.powf(2.0 * i as f64 / ROPE as f64) as f32)
        .collect();
    Tensor::from_vec(v, (1, ROPE / 2), &Device::Cpu).unwrap()
}

fn floats() -> Floats {
    Floats {
        rms_norm_eps: Scalar::from(EPS),
        attention_scale: Scalar::from(1.0 / (DIM as f64).sqrt()),
        inv_freq: inv_freq(),
    }
}

fn load(gg: &Gguf) -> Result<ModelWeights, ModelError> {
    ModelWeights::from_gguf(gg, &floats(), &Device::Cpu, DType::F32)
}

fn model(gg: &Gguf) -> ModelWeights {
    match load(gg) {
        Ok(m) => m,
        Err(e) => panic!("{e:?}"),
    }
}

fn tokens(t: &[u32]) -> Tensor {
    Tensor::new(t, &Device::Cpu).unwrap().unsqueeze(0).unwrap()
}

fn norm(x: &Tensor, w: &Tensor) -> Tensor {
    candle_nn::ops::rms_norm(&x.contiguous().unwrap(), w, EPS as f32).unwrap()
}

fn lin(x: &Tensor, w: &Tensor) -> Tensor {
    x.broadcast_matmul(&w.t().unwrap()).unwrap()
}

fn reference_layer(gg: &Gguf, i: usize, x: &Tensor) -> Tensor {
    let n = x.dim(1).unwrap();
    let w = |name: &str| get(gg, &format!("blk.{i}.{name}.weight"));
    let h = norm(x, &w("attn_norm"));
    let mixed = if i % 2 == 1 {
        let qg = lin(&h, &w("attn_q"))
            .reshape((1, n, HEADS, 2 * DIM))
            .unwrap();
        let q = qg
            .narrow(3, 0, DIM)
            .unwrap()
            .transpose(1, 2)
            .unwrap()
            .contiguous()
            .unwrap();
        let gate = qg
            .narrow(3, DIM, DIM)
            .unwrap()
            .reshape((1, n, HEADS * DIM))
            .unwrap();
        let heads = |y: Tensor| {
            y.reshape((1, n, KV, DIM))
                .unwrap()
                .transpose(1, 2)
                .unwrap()
                .contiguous()
                .unwrap()
        };
        let k = heads(lin(&h, &w("attn_k")));
        let v = heads(lin(&h, &w("attn_v")));
        let pos: Vec<f32> = (0..n).map(|p| p as f32).collect();
        let angles = Tensor::from_vec(pos, (n, 1), &Device::Cpu)
            .unwrap()
            .matmul(&inv_freq())
            .unwrap();
        let (cos, sin) = (angles.cos().unwrap(), angles.sin().unwrap());
        let turn = |y: Tensor| {
            let r = y.narrow(3, 0, ROPE).unwrap().contiguous().unwrap();
            let p = y.narrow(3, ROPE, DIM - ROPE).unwrap();
            let r = candle_nn::rotary_emb::rope(&r, &cos, &sin).unwrap();
            Tensor::cat(&[&r, &p], 3).unwrap()
        };
        let q = turn(norm(&q, &w("attn_q_norm")));
        let k = turn(norm(&k, &w("attn_k_norm")));
        let each = |y: Tensor| {
            let parts: Vec<Tensor> = (0..HEADS)
                .map(|c| y.narrow(1, c / (HEADS / KV), 1).unwrap())
                .collect();
            Tensor::cat(&parts, 1).unwrap().contiguous().unwrap()
        };
        let (k, v) = (each(k), each(v));
        let s = q
            .matmul(&k.transpose(2, 3).unwrap().contiguous().unwrap())
            .unwrap();
        let s = (s / (DIM as f64).sqrt()).unwrap();
        let hide: Vec<f32> = (0..n * n)
            .map(|p| {
                if p % n > p / n {
                    f32::NEG_INFINITY
                } else {
                    0.0
                }
            })
            .collect();
        let s = s
            .broadcast_add(&Tensor::from_vec(hide, (n, n), &Device::Cpu).unwrap())
            .unwrap();
        let c = candle_nn::ops::softmax(&s, D::Minus1)
            .unwrap()
            .matmul(&v)
            .unwrap()
            .transpose(1, 2)
            .unwrap()
            .reshape((1, n, HEADS * DIM))
            .unwrap();
        let c = (c * candle_nn::ops::sigmoid(&gate).unwrap()).unwrap();
        lin(&c, &w("attn_output"))
    } else {
        h.zeros_like().unwrap()
    };
    let y = (x + mixed).unwrap();
    let h = norm(&y, &w("post_attention_norm"));
    let gate = candle_nn::ops::silu(&lin(&h, &w("ffn_gate"))).unwrap();
    let h = lin(
        &(gate * lin(&h, &w("ffn_up"))).unwrap(),
        &w("ffn_down"),
    );
    (y + h).unwrap()
}

fn reference(gg: &Gguf, t: &[u32]) -> Tensor {
    let ids = Tensor::new(t, &Device::Cpu).unwrap();
    let mut x = get(gg, "token_embd.weight")
        .index_select(&ids, 0)
        .unwrap()
        .unsqueeze(0)
        .unwrap();
    for i in 0..4 {
        x = reference_layer(gg, i, &x);
    }
    let last = x.narrow(1, t.len() - 1, 1).unwrap().squeeze(1).unwrap();
    lin(
        &norm(&last, &get(gg, "output_norm.weight")),
        &get(gg, "token_embd.weight"),
    )
}

#[test]
fn qwen_logits_of_a_prompt() {
    let gg = file();
    let t = [3u32, 1, 4, 1];
    let got = model(&gg).forward(&tokens(&t), 0).unwrap();
    assert_eq!(got.dims(), &[1, VOCAB]);
    close(&got, &reference(&gg, &t));
}

#[test]
fn qwen_goes_on_from_kept_keys_and_values() {
    let gg = file();
    let t = [3u32, 1, 4, 1, 5];
    let whole = reference(&gg, &t);
    let mut m = model(&gg);
    m.forward(&tokens(&t[..2]), 0).unwrap();
    m.forward(&tokens(&t[2..3]), 2).unwrap();
    close(&m.forward(&tokens(&t[3..]), 3).unwrap(), &whole);
    // Offset 0 starts afresh, with or without clearing.
    close(&m.forward(&tokens(&t), 0).unwrap(), &whole);
    m.clear_kv_cache();
    close(&m.forward(&tokens(&t), 0).unwrap(), &whole);
}

#[test]
fn qwen_single_layers() {
    let gg = file();
    let x = values(0.3, &[1, 3, HIDDEN]);
    let mut m = model(&gg);
    for i in 0..4 {
        close(
            &m.debug_layer(&x, i, 0).unwrap(),
            &reference_layer(&gg, i, &x),
        );
    }
    // A layer without attention does not depend on the positions.
    close(
        &m.debug_layer(&x, 0, 7).unwrap(),
        &reference_layer(&gg, 0, &x),
    );
    assert!(matches!(
        m.debug_layer(&x, 4, 0),
        Err(ModelError::NoSuchLayer(4))
    ));
    let flat = values(0.3, &[3, HIDDEN]);
    assert!(matches!(
        m.debug_layer(&flat, 0, 0),
        Err(ModelError::UnexpectedRank {
            expected: 3,
            rank: 2
        })
    ));
}

#[test]
fn qwen_layers_one_by_one() {
    let gg = file();
    let t = [3u32, 1, 4, 1, 5];
    let (mut m, mut twin) = (model(&gg), model(&gg));
    for (at, part) in [(0, &t[..3]), (3, &t[3..])] {
        let ids = Tensor::new(part, &Device::Cpu).unwrap();
        let mut h = get(&gg, "token_embd.weight")
            .index_select(&ids, 0)
            .unwrap()
            .unsqueeze(0)
            .unwrap();
        for i in 0..4 {
            h = m.debug_layer(&h, i, at).unwrap();
            assert_eq!(h.dims(), &[1, part.len(), HIDDEN]);
        }
        let last = h.narrow(1, part.len() - 1, 1).unwrap().squeeze(1).unwrap();
        let logits = lin(
            &norm(&last, &get(&gg, "output_norm.weight")),
            &get(&gg, "token_embd.weight"),
        );
        close(&logits, &twin.forward(&tokens(part), at).unwrap());
    }
}

#[test]
fn qwen_refused_residuals_leave_what_was_kept() {
    let gg = file();
    let t = [3u32, 1, 4, 1];
    let mut m = model(&gg);
    m.forward(&tokens(&t[..2]), 0).unwrap();
    for dims in [&[3, HIDDEN][..], &[1, 1, 3, HIDDEN][..]] {
        assert!(matches!(
            m.debug_layer(&values(0.3, dims), 1, 0),
            Err(ModelError::UnexpectedRank { .. })
        ));
    }
    close(
        &m.forward(&tokens(&t[2..]), 2).unwrap(),
        &reference(&gg, &t),
    );
}

#[test]
fn qwen_output_equal_to_the_embeddings() {
    let tied = file();
    let mut own = file();
    put(&mut own, "output.weight", get(&tied, "token_embd.weight"));
    let t = [3u32, 1, 4];
    let a = model(&tied).forward(&tokens(&t), 0).unwrap();
    let b = model(&own).forward(&tokens(&t), 0).unwrap();
    assert_eq!(flat(&a), flat(&b));
}

#[test]
fn qwen_reads_its_settings_from_the_file() {
    let gg = file();
    let t = [3u32, 1, 4];
    let config = Config::read(&gg).unwrap();
    let mut m = match ModelWeights::with_config(&gg, &config, &floats(), &Device::Cpu, DType::F32) {
        Ok(m) => m,
        Err(e) => panic!("{e:?}"),
    };
    let a = m.forward(&tokens(&t), 0).unwrap();
    let b = model(&gg).forward(&tokens(&t), 0).unwrap();
    assert_eq!(flat(&a), flat(&b));
    let mut gg = file();
    set(&mut gg, "qwen35.block_count", MetaValue::U64(4));
    match load(&gg) {
        Err(ModelError::WrongType(k)) => assert_eq!(k, "qwen35.block_count"),
        _ => panic!("loaded"),
    }
    for dtype in [DType::F32, DType::F16, DType::BF16, DType::F64] {
        assert!(ModelWeights::from_gguf(&file(), &floats(), &Device::Cpu, dtype).is_ok());
    }
}

#[test]
fn qwen_own_output_projection() {
    let mut gg = file();
    put(&mut gg, "output.weight", values(7.0, &[5, HIDDEN]));
    let got = model(&gg).forward(&tokens(&[1]), 0).unwrap();
    assert_eq!(got.dims(), &[1, 5]);
}

#[test]
fn qwen_refuses_inputs() {
    let mut m = model(&file());
    let line = Tensor::new(&[1u32, 2], &Device::Cpu).unwrap();
    assert!(matches!(
        m.forward(&line, 0),
        Err(ModelError::UnexpectedRank {
            expected: 2,
            rank: 1
        })
    ));
    let none = Tensor::zeros((1, 0), DType::U32, &Device::Cpu).unwrap();
    assert!(matches!(m.forward(&none, 0), Err(ModelError::EmptySequence)));
    assert!(matches!(
        m.forward(&tokens(&[1]), 20),
        Err(ModelError::Candle(_))
    ));
}

#[test]
fn qwen_names_the_first_missing_tensor() {
    for (name, _) in &file().tensors {
        let mut gg = file();
        gg.tensors.retain(|(n, _)| n != name);
        match load(&gg) {
            Err(ModelError::MissingTensor(n)) => assert_eq!(&n, name),
            _ => panic!("loaded without {name}"),
        }
    }
}

#[test]
fn qwen_looks_up_the_listed_names() {
    let names = tensor_names(4);
    assert_eq!(names.len(), 3 + 4 * 11);
    assert_eq!(names[2], "output.weight");
    assert_eq!(names[3], "blk.0.attn_norm.weight");
    assert_eq!(names[46], "blk.3.ffn_down.weight");
    for (n, _) in &file().tensors {
        assert!(names.contains(n), "{n}");
    }
}

#[test]
fn qwen_settings() {
    let mut gg = metadata();
    let c = Config::read(&gg).unwrap();
    assert_eq!(
        (c.block_count, c.num_heads, c.num_kv_heads, c.head_dim),
        (4, 4, 2, 8)
    );
    assert_eq!(
        (
            c.embedding_length,
            c.context_length,
            c.full_attention_interval,
            c.rope_dim
        ),
        (12, 20, 2, 4)
    );
    assert_eq!(c.rms_norm_eps, Real::Double(1e-6f64.to_bits()));
    assert_eq!(c.rope_theta, Real::Double(1e7f64.to_bits()));
    set(
        &mut gg,
        "qwen35.attention.layer_norm_rms_epsilon",
        MetaValue::F32(1e-5f32.to_bits()),
    );
    let c = Config::read(&gg).unwrap();
    assert_eq!(c.rms_norm_eps, Real::Single(1e-5f32.to_bits()));
    set(
        &mut gg,
        "qwen35.attention.layer_norm_rms_epsilon",
        MetaValue::U32(1),
    );
    assert!(matches!(Config::read(&gg), Err(ModelError::WrongType(_))));
    for key in [
        "block_count",
        "attention.head_count",
        "attention.head_count_kv",
        "attention.key_length",
        "embedding_length",
        "context_length",
        "full_attention_interval",
        "rope.dimension_count",
    ] {
        let key = format!("qwen35.{key}");
        let mut gg = metadata();
        gg.metadata.retain(|(k, _)| *k != key);
        match Config::read(&gg).unwrap_err() {
            ModelError::MissingKey(k) => assert_eq!(k, key),
            e => panic!("{e:?}"),
        }
    }
}

#[test]
fn qwen_refuses_settings() {
    let mut gg = file();
    set(
        &mut gg,
        "qwen35.full_attention_interval",
        MetaValue::U32(0),
    );
    assert!(matches!(load(&gg), Err(ModelError::BadConfig)));
    let mut gg = file();
    set(
        &mut gg,
        "qwen35.attention.head_count_kv",
        MetaValue::U32(0),
    );
    assert!(matches!(load(&gg), Err(ModelError::BadConfig)));
    // Without any attention layer the heads do not matter.
    set(
        &mut gg,
        "qwen35.full_attention_interval",
        MetaValue::U32(9),
    );
    assert!(load(&gg).is_ok());
}

#[test]
fn qwen_single_positions_of_several_sequences() {
    let gg = file();
    let (a, b) = ([3u32, 1, 4], [1u32, 5, 2]);
    let mut m = model(&gg);
    let mut last = None;
    for i in 0..3 {
        let both = Tensor::new(&[[a[i]], [b[i]]], &Device::Cpu).unwrap();
        last = Some(m.forward(&both, i).unwrap());
    }
    let last = last.unwrap();
    assert_eq!(last.dims(), &[2, VOCAB]);
    for (i, t) in [a, b].iter().enumerate() {
        let mut alone = model(&gg);
        close(
            &last.narrow(0, i, 1).unwrap(),
            &alone.forward(&tokens(t), 0).unwrap(),
        );
    }
}

#[test]
fn qwen_tokens_beyond_the_embeddings() {
    let gg = file();
    let mut m = model(&gg);
    assert!(matches!(
        m.forward(&tokens(&[VOCAB as u32]), 0),
        Err(ModelError::Candle(_))
    ));
    assert!(m.forward(&tokens(&[VOCAB as u32 - 1]), 0).is_ok());
}

#[test]
fn qwen_calls_within_the_context() {
    let gg = file();
    let mut m = model(&gg);
    for at in 0..20 {
        assert!(m.forward(&tokens(&[at as u32 % 7]), at).is_ok());
    }
    assert!(matches!(
        m.forward(&tokens(&[1]), 20),
        Err(ModelError::Candle(_))
    ));
}
