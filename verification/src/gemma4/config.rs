//! The settings of a model, as its metadata gives them.

use crate::error::ModelError;
use crate::gguf::{
    array_at, bools_in, first_error, has_number, has_real, is_key_error, lookup, number_error,
    number_under, numbers_in, optional_real_at, real_at, real_error, real_under, u32_at, unread,
    Gguf, KeyError, MetaValue, Real,
};
use crate::text::{all_layer_names, layer_names, texts};
use vstd::prelude::*;
use vstd::string::StringExecFns;

verus! {

/// The bits of the epsilon of the normalisations where there is none in the
/// metadata: 1e-6 in double precision.
pub const DEFAULT_EPS: u64 = 0x3eb0_c6f7_a0b5_ed8d;

/// The bits of the base of the rotary embedding of full layers where there is
/// none in the metadata: 1e6 in double precision.
pub const DEFAULT_THETA: u64 = 0x412e_8480_0000_0000;

/// The bits of the base of the rotary embedding of sliding layers where there
/// is none in the metadata: 1e4 in double precision.
pub const DEFAULT_THETA_SWA: u64 = 0x40c3_8800_0000_0000;

/// The settings of a model.
#[derive(Debug)]
pub struct Config {
    pub n_head: usize,
    pub block_count: usize,
    pub embedding_length: usize,
    pub key_length: usize,
    pub key_length_swa: usize,
    pub sliding_window: usize,
    pub context_length: u32,
    pub moe_inter: usize,
    pub num_experts_per_tok: usize,
    pub rms_norm_eps: Real,
    pub rope_theta: Real,
    pub rope_theta_swa: Real,
    pub final_logit_softcapping: Option<Real>,
    /// The number of heads of keys and values of each layer.
    pub head_count_kv: Vec<usize>,
    /// Whether a layer is sliding; the others are full.
    pub is_sliding: Vec<bool>,
}

/// The first reason for which the settings cannot be read.
pub open spec fn config_error(md: Seq<(String, MetaValue)>) -> Option<KeyError> {
    first_error(
        number_error(md, "gemma4.attention.head_count"@),
        first_error(
            number_error(md, "gemma4.block_count"@),
            first_error(
                number_error(md, "gemma4.embedding_length"@),
                first_error(
                    number_error(md, "gemma4.attention.key_length"@),
                    first_error(
                        number_error(md, "gemma4.attention.key_length_swa"@),
                        first_error(
                            number_error(md, "gemma4.attention.sliding_window"@),
                            first_error(
                                number_error(md, "gemma4.context_length"@),
                                first_error(
                                    number_error(md, "gemma4.expert_feed_forward_length"@),
                                    first_error(
                                        number_error(md, "gemma4.expert_used_count"@),
                                        real_config_error(md),
                                    ),
                                ),
                            ),
                        ),
                    ),
                ),
            ),
        ),
    )
}

/// The first floating point setting that cannot be read.
pub open spec fn real_config_error(md: Seq<(String, MetaValue)>) -> Option<KeyError> {
    first_error(
        real_error(md, "gemma4.attention.layer_norm_rms_epsilon"@),
        first_error(
            real_error(md, "gemma4.rope.freq_base"@),
            real_error(md, "gemma4.rope.freq_base_swa"@),
        ),
    )
}

/// Whether layer `i` is sliding: as the pattern says, and beyond its end every
/// sixth layer is full.
pub open spec fn slides(pattern: Seq<bool>, i: int) -> bool {
    if i < pattern.len() {
        pattern[i]
    } else {
        (i + 1) % 6 != 0
    }
}

impl Config {
    /// There is a kind for each layer.
    pub open spec fn well_formed(&self) -> bool {
        self.is_sliding@.len() == self.block_count
    }

    /// The settings are those of the metadata.
    pub open spec fn reads(&self, md: Seq<(String, MetaValue)>) -> bool {
        &&& u32_at(md, "gemma4.attention.head_count"@)->Ok_0 == self.n_head
        &&& u32_at(md, "gemma4.block_count"@)->Ok_0 == self.block_count
        &&& u32_at(md, "gemma4.embedding_length"@)->Ok_0 == self.embedding_length
        &&& u32_at(md, "gemma4.attention.key_length"@)->Ok_0 == self.key_length
        &&& u32_at(md, "gemma4.attention.key_length_swa"@)->Ok_0 == self.key_length_swa
        &&& u32_at(md, "gemma4.attention.sliding_window"@)->Ok_0 == self.sliding_window
        &&& u32_at(md, "gemma4.context_length"@)->Ok_0 == self.context_length
        &&& u32_at(md, "gemma4.expert_feed_forward_length"@)->Ok_0 == self.moe_inter
        &&& u32_at(md, "gemma4.expert_used_count"@)->Ok_0 == self.num_experts_per_tok
        &&& real_at(md, "gemma4.attention.layer_norm_rms_epsilon"@, DEFAULT_EPS)->Ok_0
            == self.rms_norm_eps
        &&& real_at(md, "gemma4.rope.freq_base"@, DEFAULT_THETA)->Ok_0 == self.rope_theta
        &&& real_at(md, "gemma4.rope.freq_base_swa"@, DEFAULT_THETA_SWA)->Ok_0
            == self.rope_theta_swa
        &&& optional_real_at(md, "gemma4.final_logit_softcapping"@)
            == self.final_logit_softcapping
        &&& self.head_count_kv@ == numbers_in(array_at(md, "gemma4.attention.head_count_kv"@))
        &&& self.is_sliding@.len() == self.block_count
        &&& forall|i: int|
            0 <= i < self.block_count ==> #[trigger] self.is_sliding@[i] == slides(
                bools_in(array_at(md, "gemma4.attention.sliding_window_pattern"@)),
                i,
            )
    }

    /// The head size of layer `i`.
    pub open spec fn head_dim(&self, i: int) -> usize {
        if self.is_sliding@[i] {
            self.key_length_swa
        } else {
            self.key_length
        }
    }

    /// The number of heads of keys and values of layer `i`.
    pub open spec fn kv_heads(&self, i: int) -> usize {
        if i < self.head_count_kv@.len() {
            self.head_count_kv@[i]
        } else if self.is_sliding@[i] {
            8
        } else {
            2
        }
    }

    /// Reads the settings.
    pub fn read(gg: &Gguf) -> (r: Result<Config, ModelError>)
        ensures
            match r {
                Ok(c) => config_error(gg.metadata@) is None && c.reads(gg.metadata@)
                    && c.well_formed(),
                Err(e) => config_error(gg.metadata@) is Some && is_key_error(
                    e,
                    config_error(gg.metadata@)->0,
                ),
            },
    {
        let n_head = gg.read_u32("gemma4.attention.head_count")? as usize;
        let block_count = gg.read_u32("gemma4.block_count")? as usize;
        let embedding_length = gg.read_u32("gemma4.embedding_length")? as usize;
        let key_length = gg.read_u32("gemma4.attention.key_length")? as usize;
        let key_length_swa = gg.read_u32("gemma4.attention.key_length_swa")? as usize;
        let sliding_window = gg.read_u32("gemma4.attention.sliding_window")? as usize;
        let context_length = gg.read_u32("gemma4.context_length")?;
        let moe_inter = gg.read_u32("gemma4.expert_feed_forward_length")? as usize;
        let num_experts_per_tok = gg.read_u32("gemma4.expert_used_count")? as usize;
        let rms_norm_eps = gg.read_real("gemma4.attention.layer_norm_rms_epsilon", DEFAULT_EPS)?;
        let rope_theta = gg.read_real("gemma4.rope.freq_base", DEFAULT_THETA)?;
        let rope_theta_swa = gg.read_real("gemma4.rope.freq_base_swa", DEFAULT_THETA_SWA)?;
        let final_logit_softcapping = gg.read_optional_real("gemma4.final_logit_softcapping");
        let head_count_kv = gg.read_numbers("gemma4.attention.head_count_kv");
        let pattern = gg.read_bools("gemma4.attention.sliding_window_pattern");
        let is_sliding = layer_kinds(&pattern, block_count);
        Ok(
            Config {
                n_head,
                block_count,
                embedding_length,
                key_length,
                key_length_swa,
                sliding_window,
                context_length,
                moe_inter,
                num_experts_per_tok,
                rms_norm_eps,
                rope_theta,
                rope_theta_swa,
                final_logit_softcapping,
                head_count_kv,
                is_sliding,
            },
        )
    }

    /// The head size of layer `i`.
    pub fn head_dim_of(&self, i: usize) -> (r: usize)
        requires
            i < self.is_sliding@.len(),
        ensures
            r == self.head_dim(i as int),
    {
        if self.is_sliding[i] {
            self.key_length_swa
        } else {
            self.key_length
        }
    }

    /// The number of heads of keys and values of layer `i`.
    pub fn kv_heads_of(&self, i: usize) -> (r: usize)
        requires
            i < self.is_sliding@.len(),
        ensures
            r == self.kv_heads(i as int),
    {
        if i < self.head_count_kv.len() {
            self.head_count_kv[i]
        } else if self.is_sliding[i] {
            8
        } else {
            2
        }
    }
}

/// Whether each layer is sliding.
pub fn layer_kinds(pattern: &Vec<bool>, block_count: usize) -> (r: Vec<bool>)
    ensures
        r@.len() == block_count,
        forall|i: int| 0 <= i < block_count ==> #[trigger] r@[i] == slides(pattern@, i),
{
    let mut out: Vec<bool> = Vec::new();
    let mut i: usize = 0;
    while i < block_count
        invariant
            i <= block_count,
            out@.len() == i,
            forall|j: int| 0 <= j < i ==> #[trigger] out@[j] == slides(pattern@, j),
        decreases block_count - i,
    {
        let sliding = if i < pattern.len() {
            pattern[i]
        } else {
            (i + 1) % 6 != 0
        };
        out.push(sliding);
        i = i + 1;
    }
    out
}

/// The exponents of the inverse frequencies of a proportional rotary
/// embedding, over `head_dim`: a quarter of the head is rotated. None where the
/// frequency is 0, which leaves a dim as it is.
pub fn proportional_exponents(head_dim: usize) -> (r: Vec<Option<usize>>)
    ensures
        r@.len() == head_dim / 2,
        forall|i: int|
            0 <= i < r@.len() ==> #[trigger] r@[i] == (if i < head_dim / 8 {
                Some((2 * i) as usize)
            } else {
                None
            }),
{
    let mut out: Vec<Option<usize>> = Vec::new();
    let mut i: usize = 0;
    while i < head_dim / 2
        invariant
            i <= head_dim / 2,
            out@.len() == i,
            forall|j: int|
                0 <= j < i ==> #[trigger] out@[j] == (if j < head_dim / 8 {
                    Some((2 * j) as usize)
                } else {
                    None
                }),
        decreases head_dim / 2 - i,
    {
        if i < head_dim / 8 {
            out.push(Some(2 * i));
        } else {
            out.push(None);
        }
        i = i + 1;
    }
    out
}

/// What follows the layer in the names of the tensors of a layer.
pub open spec fn layer_suffixes() -> Seq<Seq<char>> {
    seq![
        ".attn_q.weight"@,
        ".attn_k.weight"@,
        ".attn_v.weight"@,
        ".attn_output.weight"@,
        ".attn_q_norm.weight"@,
        ".attn_k_norm.weight"@,
        ".ffn_gate.weight"@,
        ".ffn_up.weight"@,
        ".ffn_down.weight"@,
        ".attn_norm.weight"@,
        ".post_attention_norm.weight"@,
        ".ffn_norm.weight"@,
        ".post_ffw_norm.weight"@,
        ".ffn_gate_up_exps.weight"@,
        ".ffn_gate_inp.weight"@,
        ".ffn_gate_inp.scale"@,
        ".ffn_down_exps.scale"@,
        ".ffn_down_exps.weight"@,
        ".pre_ffw_norm_2.weight"@,
        ".post_ffw_norm_1.weight"@,
        ".post_ffw_norm_2.weight"@,
        ".layer_output_scale.weight"@,
    ]
}

/// The names under which the tensors of a model of `block_count` layers are
/// looked up.
pub open spec fn model_names(block_count: nat) -> Seq<Seq<char>> {
    seq!["token_embd.weight"@, "output_norm.weight"@, "output.weight"@] + all_layer_names(
        layer_suffixes(),
        block_count,
    )
}

/// The names under which the tensors of a model of `block_count` layers are
/// looked up. Some of them may be missing.
pub fn tensor_names(block_count: usize) -> (r: Vec<String>)
    ensures
        texts(r@) == model_names(block_count as nat),
{
    let suffixes: Vec<&str> = vec![
        ".attn_q.weight",
        ".attn_k.weight",
        ".attn_v.weight",
        ".attn_output.weight",
        ".attn_q_norm.weight",
        ".attn_k_norm.weight",
        ".ffn_gate.weight",
        ".ffn_up.weight",
        ".ffn_down.weight",
        ".attn_norm.weight",
        ".post_attention_norm.weight",
        ".ffn_norm.weight",
        ".post_ffw_norm.weight",
        ".ffn_gate_up_exps.weight",
        ".ffn_gate_inp.weight",
        ".ffn_gate_inp.scale",
        ".ffn_down_exps.scale",
        ".ffn_down_exps.weight",
        ".pre_ffw_norm_2.weight",
        ".post_ffw_norm_1.weight",
        ".post_ffw_norm_2.weight",
        ".layer_output_scale.weight",
    ];
    let mut names: Vec<String> = Vec::new();
    names.push(String::from_str("token_embd.weight"));
    names.push(String::from_str("output_norm.weight"));
    names.push(String::from_str("output.weight"));
    proof {
        assert(suffixes@.map_values(|s: &str| s@) =~= layer_suffixes());
        assert(texts(names@) =~= seq![
            "token_embd.weight"@,
            "output_norm.weight"@,
            "output.weight"@,
        ]);
    }
    layer_names(&suffixes, block_count, names)
}

/// Without a pattern every sixth layer is full, and no other.
pub proof fn every_sixth_layer_is_full(i: int)
    requires
        0 <= i,
    ensures
        slides(Seq::empty(), i) <==> (i + 1) % 6 != 0,
        !slides(Seq::empty(), 6 * i + 5),
{
}

/// The metadata fix the settings.
pub proof fn metadata_fix_settings(c: &Config, d: &Config, md: Seq<(String, MetaValue)>)
    requires
        c.reads(md),
        d.reads(md),
    ensures
        c.n_head == d.n_head,
        c.block_count == d.block_count,
        c.embedding_length == d.embedding_length,
        c.key_length == d.key_length,
        c.key_length_swa == d.key_length_swa,
        c.sliding_window == d.sliding_window,
        c.context_length == d.context_length,
        c.moe_inter == d.moe_inter,
        c.num_experts_per_tok == d.num_experts_per_tok,
        c.rms_norm_eps == d.rms_norm_eps,
        c.rope_theta == d.rope_theta,
        c.rope_theta_swa == d.rope_theta_swa,
        c.final_logit_softcapping == d.final_logit_softcapping,
        c.head_count_kv@ == d.head_count_kv@,
        c.is_sliding@ == d.is_sliding@,
{
    assert(c.is_sliding@ =~= d.is_sliding@);
}

/// Each setting is the value under its key.
pub proof fn settings_under_keys(c: &Config, md: Seq<(String, MetaValue)>)
    requires
        config_error(md) is None,
        c.reads(md),
    ensures
        number_under(md, "gemma4.attention.head_count"@, c.n_head as int),
        number_under(md, "gemma4.block_count"@, c.block_count as int),
        number_under(md, "gemma4.embedding_length"@, c.embedding_length as int),
        number_under(md, "gemma4.attention.key_length"@, c.key_length as int),
        number_under(md, "gemma4.attention.key_length_swa"@, c.key_length_swa as int),
        number_under(md, "gemma4.attention.sliding_window"@, c.sliding_window as int),
        number_under(md, "gemma4.context_length"@, c.context_length as int),
        number_under(md, "gemma4.expert_feed_forward_length"@, c.moe_inter as int),
        number_under(md, "gemma4.expert_used_count"@, c.num_experts_per_tok as int),
        real_under(
            md,
            "gemma4.attention.layer_norm_rms_epsilon"@,
            0x3eb0_c6f7_a0b5_ed8d,
            c.rms_norm_eps,
        ),
        real_under(md, "gemma4.rope.freq_base"@, 0x412e_8480_0000_0000, c.rope_theta),
        real_under(md, "gemma4.rope.freq_base_swa"@, 0x40c3_8800_0000_0000, c.rope_theta_swa),
        match c.final_logit_softcapping {
            Some(cap) => match lookup(md, "gemma4.final_logit_softcapping"@) {
                Some(MetaValue::F32(v)) => cap == Real::Single(v),
                _ => false,
            },
            None => match lookup(md, "gemma4.final_logit_softcapping"@) {
                Some(MetaValue::F32(_)) => false,
                _ => true,
            },
        },
        match lookup(md, "gemma4.attention.head_count_kv"@) {
            Some(MetaValue::Array(values)) => c.head_count_kv@ == numbers_in(values@),
            _ => c.head_count_kv@.len() == 0,
        },
        c.is_sliding@.len() == c.block_count,
        forall|i: int|
            0 <= i < c.block_count ==> #[trigger] c.is_sliding@[i] == match lookup(
                md,
                "gemma4.attention.sliding_window_pattern"@,
            ) {
                Some(MetaValue::Array(values)) if i < bools_in(values@).len() => bools_in(
                    values@,
                )[i],
                _ => (i + 1) % 6 != 0,
            },
{
}

/// The keys that have to be there, or may not be there with another type, in the order
/// in which they are read: the first 9 are those of numbers.
pub open spec fn read_keys() -> Seq<Seq<char>> {
    seq![
        "gemma4.attention.head_count"@,
        "gemma4.block_count"@,
        "gemma4.embedding_length"@,
        "gemma4.attention.key_length"@,
        "gemma4.attention.key_length_swa"@,
        "gemma4.attention.sliding_window"@,
        "gemma4.context_length"@,
        "gemma4.expert_feed_forward_length"@,
        "gemma4.expert_used_count"@,
        "gemma4.attention.layer_norm_rms_epsilon"@,
        "gemma4.rope.freq_base"@,
        "gemma4.rope.freq_base_swa"@,
    ]
}

/// Key `i` can be read.
pub open spec fn readable(md: Seq<(String, MetaValue)>, i: int) -> bool {
    if i < 9 {
        has_number(md, read_keys()[i])
    } else {
        has_real(md, read_keys()[i])
    }
}

/// The settings can be read where each key can; otherwise the error is that of the
/// first key that cannot be read.
pub proof fn first_unreadable_key_is_named(md: Seq<(String, MetaValue)>)
    ensures
        match config_error(md) {
            None => forall|i: int| 0 <= i < read_keys().len() ==> #[trigger] readable(md, i),
            Some(e) => exists|i: int|
                {
                    &&& 0 <= i < read_keys().len()
                    &&& !#[trigger] readable(md, i)
                    &&& unread(md, read_keys()[i], e)
                    &&& forall|j: int| 0 <= j < i ==> #[trigger] readable(md, j)
                },
        },
{
    assert(read_keys().len() == 12);
    if !readable(md, 0) {
        assert(unread(md, read_keys()[0], config_error(md)->0));
    } else if !readable(md, 1) {
        assert(unread(md, read_keys()[1], config_error(md)->0));
    } else if !readable(md, 2) {
        assert(unread(md, read_keys()[2], config_error(md)->0));
    } else if !readable(md, 3) {
        assert(unread(md, read_keys()[3], config_error(md)->0));
    } else if !readable(md, 4) {
        assert(unread(md, read_keys()[4], config_error(md)->0));
    } else if !readable(md, 5) {
        assert(unread(md, read_keys()[5], config_error(md)->0));
    } else if !readable(md, 6) {
        assert(unread(md, read_keys()[6], config_error(md)->0));
    } else if !readable(md, 7) {
        assert(unread(md, read_keys()[7], config_error(md)->0));
    } else if !readable(md, 8) {
        assert(unread(md, read_keys()[8], config_error(md)->0));
    } else if !readable(md, 9) {
        assert(unread(md, read_keys()[9], config_error(md)->0));
    } else if !readable(md, 10) {
        assert(unread(md, read_keys()[10], config_error(md)->0));
    } else if !readable(md, 11) {
        assert(unread(md, read_keys()[11], config_error(md)->0));
    }
}

} // verus!
