//! The settings of a model, as its metadata gives them.

use crate::error::ModelError;
use crate::gguf::{
    first_error, has_number, has_real, is_key_error, number_error, number_under, real_at,
    real_error, real_under, u32_at, unread, Gguf, KeyError, MetaValue, Real,
};
use crate::text::{all_layer_names, layer_names, texts};
use vstd::prelude::*;
use vstd::string::StringExecFns;

verus! {

/// The bits of the epsilon of the normalisations where there is none in the
/// metadata: 1e-6 in double precision.
pub const DEFAULT_EPS: u64 = 0x3eb0_c6f7_a0b5_ed8d;

/// The bits of the base of the rotary embedding where there is none in the
/// metadata: 1e7 in double precision.
pub const DEFAULT_THETA: u64 = 0x4163_12d0_0000_0000;

/// The settings of a model.
#[derive(Debug)]
pub struct Config {
    pub block_count: usize,
    pub num_heads: usize,
    pub num_kv_heads: usize,
    pub head_dim: usize,
    pub embedding_length: usize,
    pub context_length: u32,
    pub full_attention_interval: usize,
    pub rope_dim: usize,
    pub rms_norm_eps: Real,
    pub rope_theta: Real,
}

/// The first reason for which the settings cannot be read.
pub open spec fn config_error(md: Seq<(String, MetaValue)>) -> Option<KeyError> {
    first_error(
        number_error(md, "qwen35.block_count"@),
        first_error(
            number_error(md, "qwen35.attention.head_count"@),
            first_error(
                number_error(md, "qwen35.attention.head_count_kv"@),
                first_error(
                    number_error(md, "qwen35.attention.key_length"@),
                    first_error(
                        number_error(md, "qwen35.embedding_length"@),
                        first_error(
                            number_error(md, "qwen35.context_length"@),
                            first_error(
                                number_error(md, "qwen35.full_attention_interval"@),
                                first_error(
                                    number_error(md, "qwen35.rope.dimension_count"@),
                                    first_error(
                                        real_error(
                                            md,
                                            "qwen35.attention.layer_norm_rms_epsilon"@,
                                        ),
                                        real_error(md, "qwen35.rope.freq_base"@),
                                    ),
                                ),
                            ),
                        ),
                    ),
                ),
            ),
        ),
    )
}

impl Config {
    /// The settings are those of the metadata.
    pub open spec fn reads(&self, md: Seq<(String, MetaValue)>) -> bool {
        &&& u32_at(md, "qwen35.block_count"@)->Ok_0 == self.block_count
        &&& u32_at(md, "qwen35.attention.head_count"@)->Ok_0 == self.num_heads
        &&& u32_at(md, "qwen35.attention.head_count_kv"@)->Ok_0 == self.num_kv_heads
        &&& u32_at(md, "qwen35.attention.key_length"@)->Ok_0 == self.head_dim
        &&& u32_at(md, "qwen35.embedding_length"@)->Ok_0 == self.embedding_length
        &&& u32_at(md, "qwen35.context_length"@)->Ok_0 == self.context_length
        &&& u32_at(md, "qwen35.full_attention_interval"@)->Ok_0 == self.full_attention_interval
        &&& u32_at(md, "qwen35.rope.dimension_count"@)->Ok_0 == self.rope_dim
        &&& real_at(md, "qwen35.attention.layer_norm_rms_epsilon"@, DEFAULT_EPS)->Ok_0
            == self.rms_norm_eps
        &&& real_at(md, "qwen35.rope.freq_base"@, DEFAULT_THETA)->Ok_0 == self.rope_theta
    }

    /// Layer `i` has attention.
    pub open spec fn attends(&self, i: int) -> bool {
        (i + 1) % self.full_attention_interval as int == 0
    }

    /// Reads the settings.
    pub fn read(gg: &Gguf) -> (r: Result<Config, ModelError>)
        ensures
            match r {
                Ok(c) => config_error(gg.metadata@) is None && c.reads(gg.metadata@),
                Err(e) => config_error(gg.metadata@) is Some && is_key_error(
                    e,
                    config_error(gg.metadata@)->0,
                ),
            },
    {
        let block_count = gg.read_u32("qwen35.block_count")? as usize;
        let num_heads = gg.read_u32("qwen35.attention.head_count")? as usize;
        let num_kv_heads = gg.read_u32("qwen35.attention.head_count_kv")? as usize;
        let head_dim = gg.read_u32("qwen35.attention.key_length")? as usize;
        let embedding_length = gg.read_u32("qwen35.embedding_length")? as usize;
        let context_length = gg.read_u32("qwen35.context_length")?;
        let full_attention_interval = gg.read_u32("qwen35.full_attention_interval")? as usize;
        let rope_dim = gg.read_u32("qwen35.rope.dimension_count")? as usize;
        let rms_norm_eps = gg.read_real("qwen35.attention.layer_norm_rms_epsilon", DEFAULT_EPS)?;
        let rope_theta = gg.read_real("qwen35.rope.freq_base", DEFAULT_THETA)?;
        Ok(
            Config {
                block_count,
                num_heads,
                num_kv_heads,
                head_dim,
                embedding_length,
                context_length,
                full_attention_interval,
                rope_dim,
                rms_norm_eps,
                rope_theta,
            },
        )
    }
}

/// What follows the layer in the names of the tensors of a layer.
pub open spec fn layer_suffixes() -> Seq<Seq<char>> {
    seq![
        ".attn_norm.weight"@,
        ".post_attention_norm.weight"@,
        ".attn_q.weight"@,
        ".attn_k.weight"@,
        ".attn_v.weight"@,
        ".attn_output.weight"@,
        ".attn_q_norm.weight"@,
        ".attn_k_norm.weight"@,
        ".ffn_gate.weight"@,
        ".ffn_up.weight"@,
        ".ffn_down.weight"@,
    ]
}

/// The names under which the tensors of a model of `block_count` layers are
/// looked up.
pub open spec fn model_names(block_count: nat) -> Seq<Seq<char>> {
    seq!["token_embd.weight"@, "output_norm.weight"@, "output.weight"@] + all_layer_names(
        layer_suffixes(),
        block_count,
    )
}

/// The names under which the tensors of a model of `block_count` layers are
/// looked up. Some of them may be missing.
pub fn tensor_names(block_count: usize) -> (r: Vec<String>)
    ensures
        texts(r@) == model_names(block_count as nat),
{
    let suffixes: Vec<&str> = vec![
        ".attn_norm.weight",
        ".post_attention_norm.weight",
        ".attn_q.weight",
        ".attn_k.weight",
        ".attn_v.weight",
        ".attn_output.weight",
        ".attn_q_norm.weight",
        ".attn_k_norm.weight",
        ".ffn_gate.weight",
        ".ffn_up.weight",
        ".ffn_down.weight",
    ];
    let mut names: Vec<String> = Vec::new();
    names.push(String::from_str("token_embd.weight"));
    names.push(String::from_str("output_norm.weight"));
    names.push(String::from_str("output.weight"));
    proof {
        assert(suffixes@.map_values(|s: &str| s@) =~= layer_suffixes());
        assert(texts(names@) =~= seq![
            "token_embd.weight"@,
            "output_norm.weight"@,
            "output.weight"@,
        ]);
    }
    layer_names(&suffixes, block_count, names)
}

/// Of any `full_attention_interval` layers in a row exactly the last has
/// attention where they start at a multiple of it.
pub proof fn one_attention_layer_in_each_run(c: &Config, run: int, i: int)
    requires
        c.full_attention_interval > 0,
        0 <= run,
        0 <= i < c.full_attention_interval,
    ensures
        c.attends(run * c.full_attention_interval + i) <==> i == c.full_attention_interval - 1,
{
    let n = c.full_attention_interval as int;
    assert((run * n + i + 1) % n == (i + 1) % n) by {
        vstd::arithmetic::div_mod::lemma_mod_multiples_vanish(run, i + 1, n);
        assert(n * run + (i + 1) == run * n + i + 1) by (nonlinear_arith);
    }
    if i == n - 1 {
        assert(n % n == 0) by {
            vstd::arithmetic::div_mod::lemma_mod_self_0(n);
        }
    } else {
        assert((i + 1) % n == i + 1) by {
            vstd::arithmetic::div_mod::lemma_small_mod((i + 1) as nat, n as nat);
        }
    }
}

/// The metadata fix the settings.
pub proof fn metadata_fix_settings(c: &Config, d: &Config, md: Seq<(String, MetaValue)>)
    requires
        c.reads(md),
        d.reads(md),
    ensures
        *c == *d,
{
}

/// Each setting is the value under its key.
pub proof fn settings_under_keys(c: &Config, md: Seq<(String, MetaValue)>)
    requires
        config_error(md) is None,
        c.reads(md),
    ensures
        number_under(md, "qwen35.block_count"@, c.block_count as int),
        number_under(md, "qwen35.attention.head_count"@, c.num_heads as int),
        number_under(md, "qwen35.attention.head_count_kv"@, c.num_kv_heads as int),
        number_under(md, "qwen35.attention.key_length"@, c.head_dim as int),
        number_under(md, "qwen35.embedding_length"@, c.embedding_length as int),
        number_under(md, "qwen35.context_length"@, c.context_length as int),
        number_under(md, "qwen35.full_attention_interval"@, c.full_attention_interval as int),
        number_under(md, "qwen35.rope.dimension_count"@, c.rope_dim as int),
        real_under(
            md,
            "qwen35.attention.layer_norm_rms_epsilon"@,
            0x3eb0_c6f7_a0b5_ed8d,
            c.rms_norm_eps,
        ),
        real_under(md, "qwen35.rope.freq_base"@, 0x4163_12d0_0000_0000, c.rope_theta),
{
}

/// The keys that have to be there, or may not be there with another type, in the order
/// in which they are read: the first 8 are those of numbers.
pub open spec fn read_keys() -> Seq<Seq<char>> {
    seq![
        "qwen35.block_count"@,
        "qwen35.attention.head_count"@,
        "qwen35.attention.head_count_kv"@,
        "qwen35.attention.key_length"@,
        "qwen35.embedding_length"@,
        "qwen35.context_length"@,
        "qwen35.full_attention_interval"@,
        "qwen35.rope.dimension_count"@,
        "qwen35.attention.layer_norm_rms_epsilon"@,
        "qwen35.rope.freq_base"@,
    ]
}

/// Key `i` can be read.
pub open spec fn readable(md: Seq<(String, MetaValue)>, i: int) -> bool {
    if i < 8 {
        has_number(md, read_keys()[i])
    } else {
        has_real(md, read_keys()[i])
    }
}

/// The settings can be read where each key can; otherwise the error is that of the
/// first key that cannot be read.
pub proof fn first_unreadable_key_is_named(md: Seq<(String, MetaValue)>)
    ensures
        match config_error(md) {
            None => forall|i: int| 0 <= i < read_keys().len() ==> #[trigger] readable(md, i),
            Some(e) => exists|i: int|
                {
                    &&& 0 <= i < read_keys().len()
                    &&& !#[trigger] readable(md, i)
                    &&& unread(md, read_keys()[i], e)
                    &&& forall|j: int| 0 <= j < i ==> #[trigger] readable(md, j)
                },
        },
{
    assert(read_keys().len() == 10);
    if !readable(md, 0) {
        assert(unread(md, read_keys()[0], config_error(md)->0));
    } else if !readable(md, 1) {
        assert(unread(md, read_keys()[1], config_error(md)->0));
    } else if !readable(md, 2) {
        assert(unread(md, read_keys()[2], config_error(md)->0));
    } else if !readable(md, 3) {
        assert(unread(md, read_keys()[3], config_error(md)->0));
    } else if !readable(md, 4) {
        assert(unread(md, read_keys()[4], config_error(md)->0));
    } else if !readable(md, 5) {
        assert(unread(md, read_keys()[5], config_error(md)->0));
    } else if !readable(md, 6) {
        assert(unread(md, read_keys()[6], config_error(md)->0));
    } else if !readable(md, 7) {
        assert(unread(md, read_keys()[7], config_error(md)->0));
    } else if !readable(md, 8) {
        assert(unread(md, read_keys()[8], config_error(md)->0));
    } else if !readable(md, 9) {
        assert(unread(md, read_keys()[9], config_error(md)->0));
    }
}

} // verus!
