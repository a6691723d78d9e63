//! The `qwen35` model family: hybrid layers of gated linear attention, with a full-attention layer
//! every so often. Hyper-parameters come from a model file's metadata, and a model is the list of
//! the file's tensors that each layer takes.
use vstd::prelude::*;

use crate::gguf::{Gguf, MetaValue, Metadata};
use crate::gguf::{law_tensor_index, meta_str, meta_u64, tensor_index, TensorInfo};
use crate::text::{push_decimal, same_text};
use crate::text::{decimal, digits_value, law_decimal, law_decimal_injective};

verus! {

/// Where a floating-point parameter comes from: the family's default, or the number in the
/// metadata. A number that is held as 64 bits of floating point stays that way.
#[derive(Clone, Copy, Debug, PartialEq, Eq, Structural)]
pub enum FloatParam {
    Default,
    F64(u64),
    U64(u64),
    I64(i64),
}

/// Why a model cannot be set up.
#[derive(Debug)]
pub enum ModelError {
    /// The file is of another family.
    NotQwen35 { arch: String },
    /// A hyper-parameter is missing.
    MissingKey { key: String },
    /// A tensor is missing.
    MissingTensor { name: String },
    /// The feed-forward tensor that tells a layer's width is missing.
    MissingFfnUp { layer: usize },
}

/// Why a model cannot be set up, as plain values.
pub enum Fail {
    Arch(Seq<char>),
    Key(Seq<char>),
    Tensor(Seq<char>),
    FfnUp(nat),
}

impl View for ModelError {
    type V = Fail;

    open spec fn view(&self) -> Fail {
        match self {
            ModelError::NotQwen35 { arch } => Fail::Arch(arch@),
            ModelError::MissingKey { key } => Fail::Key(key@),
            ModelError::MissingTensor { name } => Fail::Tensor(name@),
            ModelError::MissingFfnUp { layer } => Fail::FfnUp(*layer as nat),
        }
    }
}

/// Each error tells what it is about: the family, the key, the tensor, or the layer.
pub proof fn law_errors(e: ModelError)
    ensures
        e@ is Arch <==> e is NotQwen35,
        e@ is Key <==> e is MissingKey,
        e@ is Tensor <==> e is MissingTensor,
        e@ is FfnUp <==> e is MissingFfnUp,
        e matches ModelError::NotQwen35 { arch } ==> e@ == Fail::Arch(arch@),
        e matches ModelError::MissingKey { key } ==> e@ == Fail::Key(key@),
        e matches ModelError::MissingTensor { name } ==> e@ == Fail::Tensor(name@),
        e matches ModelError::MissingFfnUp { layer } ==> e@ == Fail::FfnUp(layer as nat),
{
}

/// Hyper-parameters.
#[derive(Clone, Copy, Debug)]
pub struct Cfg {
    pub n_layer: usize,
    pub n_embd: usize,
    /// Read off the embedding's shape; 0 until then.
    pub vocab: usize,
    /// Default: 1e-6.
    pub eps: FloatParam,
    pub n_head: usize,
    pub n_kv: usize,
    /// Length of keys and of values.
    pub head_dim: usize,
    pub rope_dim: usize,
    /// Default: 1e7.
    pub rope_theta: FloatParam,
    pub rope_sections: [u32; 4],
    pub full_attn_interval: usize,
    /// Size of the convolution kernel.
    pub d_conv: usize,
    /// Length of a linear key.
    pub d_state: usize,
    /// Length of all linear values together.
    pub d_inner: usize,
    /// Number of linear key heads.
    pub n_group: usize,
    /// Number of linear value heads.
    pub dt_rank: usize,
}

/// Full name of a hyper-parameter.
pub open spec fn key_of(suffix: Seq<char>) -> Seq<char> {
    "qwen35."@ + suffix
}

/// The hyper-parameters that a file has to give, in the order in which they are looked for.
pub open spec fn required() -> Seq<Seq<char>> {
    seq![
        "block_count"@,
        "embedding_length"@,
        "attention.head_count"@,
        "attention.head_count_kv"@,
        "attention.key_length"@,
        "ssm.conv_kernel"@,
        "ssm.state_size"@,
        "ssm.inner_size"@,
        "ssm.group_count"@,
        "ssm.time_step_rank"@,
    ]
}

/// Position of the first required hyper-parameter from number `i` on that `m` does not give, or
/// their number.
pub open spec fn first_missing(m: Map<Seq<char>, MetaValue>, i: int) -> int
    decreases required().len() - i,
{
    if i < 0 || i >= required().len() {
        i
    } else if meta_u64(m, key_of(required()[i])) is None {
        i
    } else {
        first_missing(m, i + 1)
    }
}

/// The hyper-parameter `suffix` as a size.
pub open spec fn size_of_key(m: Map<Seq<char>, MetaValue>, suffix: Seq<char>) -> usize {
    meta_u64(m, key_of(suffix))->0 as usize
}

/// The hyper-parameter `suffix` as a size, or `default` where it is not given.
pub open spec fn size_or(m: Map<Seq<char>, MetaValue>, suffix: Seq<char>, default: u64) -> usize {
    match meta_u64(m, key_of(suffix)) {
        Some(v) => v as usize,
        None => default as usize,
    }
}

/// The floating-point hyper-parameter `suffix`.
pub open spec fn float_of_key(m: Map<Seq<char>, MetaValue>, suffix: Seq<char>) -> FloatParam {
    if m.contains_key(key_of(suffix)) {
        match m[key_of(suffix)] {
            MetaValue::F64(x) => FloatParam::F64(x),
            MetaValue::U64(x) => FloatParam::U64(x),
            MetaValue::I64(x) => FloatParam::I64(x),
            _ => FloatParam::Default,
        }
    } else {
        FloatParam::Default
    }
}

/// Section `i` of the rotary dimensions; what is not given, or no unsigned number, is 0.
pub open spec fn section(m: Map<Seq<char>, MetaValue>, i: int) -> u32 {
    if m.contains_key("qwen35.rope.dimension_sections"@) {
        match m["qwen35.rope.dimension_sections"@] {
            MetaValue::Arr(v) => if i < v@.len() {
                match v@[i].unsigned() {
                    Some(x) => x as u32,
                    None => 0,
                }
            } else {
                0
            },
            _ => 0,
        }
    } else {
        0
    }
}

/// The family that the file names; empty where it names none.
pub open spec fn arch_of(m: Map<Seq<char>, MetaValue>) -> Seq<char> {
    match meta_str(m, "general.architecture"@) {
        Some(s) => s,
        None => Seq::empty(),
    }
}

/// Whether `c` holds what `m` gives, but for the vocabulary.
pub open spec fn cfg_given(m: Map<Seq<char>, MetaValue>, c: Cfg) -> bool {
    &&& c.n_layer == size_of_key(m, "block_count"@)
    &&& c.n_embd == size_of_key(m, "embedding_length"@)
    &&& c.eps == float_of_key(m, "attention.layer_norm_rms_epsilon"@)
    &&& c.n_head == size_of_key(m, "attention.head_count"@)
    &&& c.n_kv == size_of_key(m, "attention.head_count_kv"@)
    &&& c.head_dim == size_of_key(m, "attention.key_length"@)
    &&& c.rope_dim == size_or(m, "rope.dimension_count"@, 64)
    &&& c.rope_theta == float_of_key(m, "rope.freq_base"@)
    &&& forall|i: int| 0 <= i < 4 ==> #[trigger] c.rope_sections@[i] == section(m, i)
    &&& c.full_attn_interval == size_or(m, "full_attention_interval"@, 4)
    &&& c.d_conv == size_of_key(m, "ssm.conv_kernel"@)
    &&& c.d_state == size_of_key(m, "ssm.state_size"@)
    &&& c.d_inner == size_of_key(m, "ssm.inner_size"@)
    &&& c.n_group == size_of_key(m, "ssm.group_count"@)
    &&& c.dt_rank == size_of_key(m, "ssm.time_step_rank"@)
}

/// Why `m` gives no hyper-parameters, where it does not.
pub open spec fn cfg_fail(m: Map<Seq<char>, MetaValue>) -> Option<Fail> {
    if arch_of(m) != "qwen35"@ {
        Some(Fail::Arch(arch_of(m)))
    } else if first_missing(m, 0) < required().len() {
        Some(Fail::Key(key_of(required()[first_missing(m, 0)])))
    } else {
        None
    }
}

/// The full names of the hyper-parameters.
proof fn lemma_keys()
    ensures
        key_of("block_count"@) == "qwen35.block_count"@,
        key_of("embedding_length"@) == "qwen35.embedding_length"@,
        key_of("attention.head_count"@) == "qwen35.attention.head_count"@,
        key_of("attention.head_count_kv"@) == "qwen35.attention.head_count_kv"@,
        key_of("attention.key_length"@) == "qwen35.attention.key_length"@,
        key_of("ssm.conv_kernel"@) == "qwen35.ssm.conv_kernel"@,
        key_of("ssm.state_size"@) == "qwen35.ssm.state_size"@,
        key_of("ssm.inner_size"@) == "qwen35.ssm.inner_size"@,
        key_of("ssm.group_count"@) == "qwen35.ssm.group_count"@,
        key_of("ssm.time_step_rank"@) == "qwen35.ssm.time_step_rank"@,
        key_of("rope.dimension_count"@) == "qwen35.rope.dimension_count"@,
        key_of("full_attention_interval"@) == "qwen35.full_attention_interval"@,
        key_of("attention.layer_norm_rms_epsilon"@) == "qwen35.attention.layer_norm_rms_epsilon"@,
        key_of("rope.freq_base"@) == "qwen35.rope.freq_base"@,
{
    reveal_strlit("qwen35.");
    reveal_strlit("block_count");
    reveal_strlit("qwen35.block_count");
    assert(key_of("block_count"@) =~= "qwen35.block_count"@);
    reveal_strlit("embedding_length");
    reveal_strlit("qwen35.embedding_length");
    assert(key_of("embedding_length"@) =~= "qwen35.embedding_length"@);
    reveal_strlit("attention.head_count");
    reveal_strlit("qwen35.attention.head_count");
    assert(key_of("attention.head_count"@) =~= "qwen35.attention.head_count"@);
    reveal_strlit("attention.head_count_kv");
    reveal_strlit("qwen35.attention.head_count_kv");
    assert(key_of("attention.head_count_kv"@) =~= "qwen35.attention.head_count_kv"@);
    reveal_strlit("attention.key_length");
    reveal_strlit("qwen35.attention.key_length");
    assert(key_of("attention.key_length"@) =~= "qwen35.attention.key_length"@);
    reveal_strlit("ssm.conv_kernel");
    reveal_strlit("qwen35.ssm.conv_kernel");
    assert(key_of("ssm.conv_kernel"@) =~= "qwen35.ssm.conv_kernel"@);
    reveal_strlit("ssm.state_size");
    reveal_strlit("qwen35.ssm.state_size");
    assert(key_of("ssm.state_size"@) =~= "qwen35.ssm.state_size"@);
    reveal_strlit("ssm.inner_size");
    reveal_strlit("qwen35.ssm.inner_size");
    assert(key_of("ssm.inner_size"@) =~= "qwen35.ssm.inner_size"@);
    reveal_strlit("ssm.group_count");
    reveal_strlit("qwen35.ssm.group_count");
    assert(key_of("ssm.group_count"@) =~= "qwen35.ssm.group_count"@);
    reveal_strlit("ssm.time_step_rank");
    reveal_strlit("qwen35.ssm.time_step_rank");
    assert(key_of("ssm.time_step_rank"@) =~= "qwen35.ssm.time_step_rank"@);
    reveal_strlit("rope.dimension_count");
    reveal_strlit("qwen35.rope.dimension_count");
    assert(key_of("rope.dimension_count"@) =~= "qwen35.rope.dimension_count"@);
    reveal_strlit("full_attention_interval");
    reveal_strlit("qwen35.full_attention_interval");
    assert(key_of("full_attention_interval"@) =~= "qwen35.full_attention_interval"@);
    reveal_strlit("attention.layer_norm_rms_epsilon");
    reveal_strlit("qwen35.attention.layer_norm_rms_epsilon");
    assert(key_of("attention.layer_norm_rms_epsilon"@) =~= "qwen35.attention.layer_norm_rms_epsilon"@);
    reveal_strlit("rope.freq_base");
    reveal_strlit("qwen35.rope.freq_base");
    assert(key_of("rope.freq_base"@) =~= "qwen35.rope.freq_base"@);
}

/// Whether `m` gives the number `x` under `name`, as an unsigned number or a signed one that is not
/// negative.
pub open spec fn gives(m: Map<Seq<char>, MetaValue>, name: Seq<char>, x: u64) -> bool {
    &&& m.contains_key(name)
    &&& match m[name] {
        MetaValue::U64(v) => v == x,
        MetaValue::I64(v) => v >= 0 && v == x,
        _ => false,
    }
}

/// Each hyper-parameter comes from the metadata's entry of its own name, where it fits a size; a rotary
/// dimension count that is not given is 64, and an attention interval 4.
pub proof fn law_cfg(m: Map<Seq<char>, MetaValue>, c: Cfg, x: u64)
    requires
        cfg_given(m, c),
        x <= usize::MAX,
    ensures
        gives(m, "qwen35.block_count"@, x) ==> c.n_layer == x,
        gives(m, "qwen35.embedding_length"@, x) ==> c.n_embd == x,
        gives(m, "qwen35.attention.head_count"@, x) ==> c.n_head == x,
        gives(m, "qwen35.attention.head_count_kv"@, x) ==> c.n_kv == x,
        gives(m, "qwen35.attention.key_length"@, x) ==> c.head_dim == x,
        gives(m, "qwen35.ssm.conv_kernel"@, x) ==> c.d_conv == x,
        gives(m, "qwen35.ssm.state_size"@, x) ==> c.d_state == x,
        gives(m, "qwen35.ssm.inner_size"@, x) ==> c.d_inner == x,
        gives(m, "qwen35.ssm.group_count"@, x) ==> c.n_group == x,
        gives(m, "qwen35.ssm.time_step_rank"@, x) ==> c.dt_rank == x,
        gives(m, "qwen35.rope.dimension_count"@, x) ==> c.rope_dim == x,
        !m.contains_key("qwen35.rope.dimension_count"@) ==> c.rope_dim == 64,
        gives(m, "qwen35.full_attention_interval"@, x) ==> c.full_attn_interval == x,
        !m.contains_key("qwen35.full_attention_interval"@) ==> c.full_attn_interval == 4,
{
    lemma_keys();
}

/// The floating-point hyper-parameters are taken over in the form in which the metadata holds them; what
/// is not given, or is no number, is the family's default.
pub proof fn law_cfg_floats(m: Map<Seq<char>, MetaValue>, c: Cfg)
    requires
        cfg_given(m, c),
    ensures
        !m.contains_key("qwen35.attention.layer_norm_rms_epsilon"@) ==> c.eps == FloatParam::Default,
        m.contains_key("qwen35.attention.layer_norm_rms_epsilon"@) ==> match m["qwen35.attention.layer_norm_rms_epsilon"@] {
            MetaValue::F64(x) => c.eps == FloatParam::F64(x),
            MetaValue::U64(x) => c.eps == FloatParam::U64(x),
            MetaValue::I64(x) => c.eps == FloatParam::I64(x),
            _ => c.eps == FloatParam::Default,
        },
        !m.contains_key("qwen35.rope.freq_base"@) ==> c.rope_theta == FloatParam::Default,
        m.contains_key("qwen35.rope.freq_base"@) ==> match m["qwen35.rope.freq_base"@] {
            MetaValue::F64(x) => c.rope_theta == FloatParam::F64(x),
            MetaValue::U64(x) => c.rope_theta == FloatParam::U64(x),
            MetaValue::I64(x) => c.rope_theta == FloatParam::I64(x),
            _ => c.rope_theta == FloatParam::Default,
        },
{
    lemma_keys();
}

/// The rotary sections are the first four numbers of the metadata's list, in order, and 0 where it has
/// none.
pub proof fn law_cfg_sections(m: Map<Seq<char>, MetaValue>, c: Cfg, i: int, x: u32)
    requires
        cfg_given(m, c),
        0 <= i < 4,
    ensures
        ({
            let name = "qwen35.rope.dimension_sections"@;
            let given = m.contains_key(name) && m[name] is Arr && i < m[name]->Arr_0@.len();
            &&& !given ==> c.rope_sections@[i] == 0
            &&& given && m[name]->Arr_0@[i] == MetaValue::U64(x as u64) ==> c.rope_sections@[i] == x
            &&& given && m[name]->Arr_0@[i].unsigned() is None ==> c.rope_sections@[i] == 0
        }),
{
}

/// Whether `m` gives an unsigned number under `name`.
pub open spec fn is_given(m: Map<Seq<char>, MetaValue>, name: Seq<char>) -> bool {
    meta_u64(m, name) is Some
}

/// The hyper-parameters are refused if and only if the file names another family, which is then told, or
/// lacks one that it has to give; of those that it lacks, the first in this order is told.
pub proof fn law_cfg_fail(m: Map<Seq<char>, MetaValue>, names: Seq<Seq<char>>, i: int)
    requires
        names == seq![
            "qwen35.block_count"@,
            "qwen35.embedding_length"@,
            "qwen35.attention.head_count"@,
            "qwen35.attention.head_count_kv"@,
            "qwen35.attention.key_length"@,
            "qwen35.ssm.conv_kernel"@,
            "qwen35.ssm.state_size"@,
            "qwen35.ssm.inner_size"@,
            "qwen35.ssm.group_count"@,
            "qwen35.ssm.time_step_rank"@,
        ],
        0 <= i < names.len(),
    ensures
        ({
            let arch = meta_str(m, "general.architecture"@);
            let known = arch == Some("qwen35"@);
            &&& arch is None ==> cfg_fail(m) == Some(Fail::Arch(Seq::empty()))
            &&& arch is Some && !known ==> cfg_fail(m) == Some(Fail::Arch(arch->0))
            &&& known && (forall|k: int|
                0 <= k < names.len() ==> is_given(m, #[trigger] names[k])) ==> cfg_fail(m) is None
            &&& known && !is_given(m, names[i]) && (forall|k: int|
                0 <= k < i ==> is_given(m, #[trigger] names[k])) ==> cfg_fail(m) == Some(
                Fail::Key(names[i]),
            )
        }),
{
    lemma_keys();
    reveal_strlit("qwen35");
    assert("qwen35"@.len() != Seq::<char>::empty().len());
    assert forall|k: int| 0 <= k < 10 implies key_of(#[trigger] required()[k]) == names[k] by {}
    lemma_first_missing(m, 0);
    let f = first_missing(m, 0);
    if f < 10 {
        assert(key_of(required()[f]) == names[f]);
        assert(!is_given(m, names[f]));
    }
    assert(key_of(required()[i]) == names[i]);
}

/// Before the first that is missing none is missing.
proof fn lemma_first_missing(m: Map<Seq<char>, MetaValue>, i: int)
    requires
        0 <= i <= 10,
    ensures
        i <= first_missing(m, i) <= 10,
        forall|k: int|
            i <= k < first_missing(m, i) ==> meta_u64(m, key_of(#[trigger] required()[k])) is Some,
        first_missing(m, i) < 10 ==> meta_u64(m, key_of(required()[first_missing(m, i)])) is None,
    decreases 10 - i,
{
    if i < 10 && meta_u64(m, key_of(required()[i])) is Some {
        lemma_first_missing(m, i + 1);
    }
}

fn full_key(suffix: &str) -> (r: String)
    ensures
        r@ == key_of(suffix@),
{
    let mut s = "qwen35.".to_owned();
    s.append(suffix);
    s
}

fn optional(m: &Metadata, suffix: &str) -> (r: Option<u64>)
    ensures
        r == meta_u64(m@, key_of(suffix@)),
{
    let key = full_key(suffix);
    m.u64(key.as_str())
}

fn need(m: &Metadata, suffix: &str) -> (r: Result<usize, ModelError>)
    ensures
        match r {
            Ok(v) => meta_u64(m@, key_of(suffix@)) is Some && v == size_of_key(m@, suffix@),
            Err(e) => meta_u64(m@, key_of(suffix@)) is None && e@ == Fail::Key(key_of(suffix@)),
        },
{
    match optional(m, suffix) {
        Some(v) => Ok(v as usize),
        None => Err(ModelError::MissingKey { key: full_key(suffix) }),
    }
}

fn float_param(m: &Metadata, suffix: &str) -> (r: FloatParam)
    ensures
        r == float_of_key(m@, suffix@),
{
    let key = full_key(suffix);
    match m.get(key.as_str()) {
        Some(MetaValue::F64(x)) => FloatParam::F64(*x),
        Some(MetaValue::U64(x)) => FloatParam::U64(*x),
        Some(MetaValue::I64(x)) => FloatParam::I64(*x),
        _ => FloatParam::Default,
    }
}

fn rope_section(m: &Metadata, i: usize) -> (r: u32)
    ensures
        r == section(m@, i as int),
{
    match m.get("qwen35.rope.dimension_sections") {
        Some(v) => match v.as_arr() {
            Some(arr) => if i < arr.len() {
                match arr[i].as_u64() {
                    Some(x) => x as u32,
                    None => 0,
                }
            } else {
                0
            },
            None => 0,
        },
        None => 0,
    }
}

impl Cfg {
    /// Reads the hyper-parameters. Refused are a file of another family, and one that lacks a
    /// required hyper-parameter: the first that is missing is named.
    pub fn from_gguf(g: &Gguf) -> (r: Result<Cfg, ModelError>)
        ensures
            match r {
                Ok(c) => cfg_fail(g.meta()) is None && cfg_given(g.meta(), c) && c.vocab == 0,
                Err(e) => cfg_fail(g.meta()) == Some(e@),
            },
    {
        let m = g.metadata();
        let arch = match m.str("general.architecture") {
            Some(s) => s,
            None => "",
        };
        proof {
            reveal_strlit("");
            assert(""@ =~= Seq::<char>::empty());
            reveal_with_fuel(first_missing, 11);
        }
        if !same_text(arch, "qwen35") {
            return Err(ModelError::NotQwen35 { arch: arch.to_owned() });
        }
        let rope_sections: [u32; 4] = [
            rope_section(m, 0),
            rope_section(m, 1),
            rope_section(m, 2),
            rope_section(m, 3),
        ];
        let n_layer: usize = match need(m, "block_count") {
            Ok(v) => v,
            Err(e) => {
                return Err(e);
            },
        };
        let n_embd: usize = match need(m, "embedding_length") {
            Ok(v) => v,
            Err(e) => {
                return Err(e);
            },
        };
        let eps = float_param(m, "attention.layer_norm_rms_epsilon");
        let n_head: usize = match need(m, "attention.head_count") {
            Ok(v) => v,
            Err(e) => {
                return Err(e);
            },
        };
        let n_kv: usize = match need(m, "attention.head_count_kv") {
            Ok(v) => v,
            Err(e) => {
                return Err(e);
            },
        };
        let head_dim: usize = match need(m, "attention.key_length") {
            Ok(v) => v,
            Err(e) => {
                return Err(e);
            },
        };
        let rope_dim: usize = match optional(m, "rope.dimension_count") {
            Some(v) => v as usize,
            None => 64,
        };
        let rope_theta = float_param(m, "rope.freq_base");
        let full_attn_interval: usize = match optional(m, "full_attention_interval") {
            Some(v) => v as usize,
            None => 4,
        };
        let d_conv: usize = match need(m, "ssm.conv_kernel") {
            Ok(v) => v,
            Err(e) => {
                return Err(e);
            },
        };
        let d_state: usize = match need(m, "ssm.state_size") {
            Ok(v) => v,
            Err(e) => {
                return Err(e);
            },
        };
        let d_inner: usize = match need(m, "ssm.inner_size") {
            Ok(v) => v,
            Err(e) => {
                return Err(e);
            },
        };
        let n_group: usize = match need(m, "ssm.group_count") {
            Ok(v) => v,
            Err(e) => {
                return Err(e);
            },
        };
        let dt_rank: usize = match need(m, "ssm.time_step_rank") {
            Ok(v) => v,
            Err(e) => {
                return Err(e);
            },
        };
        Ok(
            Cfg {
                n_layer,
                n_embd,
                vocab: 0,
                eps,
                n_head,
                n_kv,
                head_dim,
                rope_dim,
                rope_theta,
                rope_sections,
                full_attn_interval,
                d_conv,
                d_state,
                d_inner,
                n_group,
                dt_rank,
            },
        )
    }

    /// Whether layer `i` is a full-attention layer: every so many layers one is.
    pub fn is_attn_layer(&self, i: usize) -> (r: bool)
        requires
            self.full_attn_interval > 0,
            i < usize::MAX,
        ensures
            r == attn_layer(self.full_attn_interval, i as int),
    {
        (i + 1) % self.full_attn_interval == 0
    }

    pub fn num_k_heads(&self) -> (r: usize)
        ensures
            r == self.n_group,
    {
        self.n_group
    }

    pub fn num_v_heads(&self) -> (r: usize)
        ensures
            r == self.dt_rank,
    {
        self.dt_rank
    }

    pub fn head_k_dim(&self) -> (r: usize)
        ensures
            r == self.d_state,
    {
        self.d_state
    }

    pub fn head_v_dim(&self) -> (r: usize)
        requires
            self.dt_rank > 0,
        ensures
            r == self.d_inner / self.dt_rank,
    {
        self.d_inner / self.dt_rank
    }

    /// Channels of the convolution: all linear values, and the linear queries and keys.
    pub fn conv_channels(&self) -> (r: usize)
        requires
            self.d_inner + 2 * self.n_group * self.d_state <= usize::MAX,
        ensures
            r == self.d_inner + 2 * self.n_group * self.d_state,
    {
        proof {
            assert(0 <= 2 * self.n_group * self.d_state) by (nonlinear_arith);
            if self.d_state == 0 {
                assert(2 * self.n_group * self.d_state == 0) by (nonlinear_arith)
                    requires
                        self.d_state == 0,
                ;
            } else {
                assert(2 * self.n_group <= 2 * self.n_group * self.d_state) by (nonlinear_arith)
                    requires
                        self.d_state >= 1,
                ;
            }
        }
        if self.d_state == 0 {
            return self.d_inner;
        }
        self.d_inner + 2 * self.n_group * self.d_state
    }
}

/// Whether layer `i` is a full-attention layer where one in `interval` is.
pub open spec fn attn_layer(interval: usize, i: int) -> bool {
    (i + 1) % (interval as int) == 0
}

/// Number of full-attention layers among the first `n`.
pub open spec fn attn_count(interval: usize, n: nat) -> nat
    decreases n,
{
    if n == 0 {
        0
    } else {
        attn_count(interval, (n - 1) as nat) + if attn_layer(interval, n - 1) {
            1nat
        } else {
            0nat
        }
    }
}

/// Of `n` layers, one in `interval` is a full-attention layer, rounded down.
pub proof fn law_attn_layers(interval: usize, n: nat)
    requires
        interval > 0,
    ensures
        attn_count(interval, n) == n as int / interval as int,
    decreases n,
{
    let d = interval as int;
    if n > 0 {
        law_attn_layers(interval, (n - 1) as nat);
        let q = (n - 1) as int / d;
        let r = (n - 1) as int % d;
        vstd::arithmetic::div_mod::lemma_fundamental_div_mod(n - 1, d);
        if r == d - 1 {
            assert(d * q + d == d * (q + 1)) by (nonlinear_arith);
            vstd::arithmetic::div_mod::lemma_fundamental_div_mod_converse(n as int, d, q + 1, 0);
        } else {
            vstd::arithmetic::div_mod::lemma_fundamental_div_mod_converse(n as int, d, q, r + 1);
        }
    } else {
        vstd::arithmetic::div_mod::lemma_div_basics(d);
    }
}

/// Full name of layer `i`'s tensor `suffix`.
pub open spec fn blk(i: nat, suffix: Seq<char>) -> Seq<char> {
    "blk."@ + decimal(i) + "."@ + suffix
}

/// Two layers' tensors never share a name.
pub proof fn law_layer_names_differ(i: nat, j: nat, suffix: Seq<char>)
    ensures
        blk(i, suffix) == blk(j, suffix) ==> i == j,
{
    law_decimal_injective(i, j);
    let a = blk(i, suffix);
    let b = blk(j, suffix);
    let n = "blk."@.len() as int;
    if a == b {
        assert(a.len() == n + decimal(i).len() + "."@.len() + suffix.len());
        assert(b.len() == n + decimal(j).len() + "."@.len() + suffix.len());
        assert(a.subrange(n, n + decimal(i).len()) =~= decimal(i));
        assert(b.subrange(n, n + decimal(j).len()) =~= decimal(j));
    }
}

/// The tensors of a full-attention layer, in the order in which they are loaded.
pub open spec fn attn_tensors() -> Seq<Seq<char>> {
    seq![
        "attn_norm.weight"@,
        "attn_q.weight"@,
        "attn_k.weight"@,
        "attn_v.weight"@,
        "attn_q_norm.weight"@,
        "attn_k_norm.weight"@,
        "attn_output.weight"@,
        "post_attention_norm.weight"@,
        "ffn_gate.weight"@,
        "ffn_up.weight"@,
        "ffn_down.weight"@,
    ]
}

/// The tensors of a linear-attention layer, in the order in which they are loaded.
pub open spec fn linear_tensors() -> Seq<Seq<char>> {
    seq![
        "attn_norm.weight"@,
        "attn_qkv.weight"@,
        "attn_gate.weight"@,
        "ssm_conv1d.weight"@,
        "ssm_alpha.weight"@,
        "ssm_beta.weight"@,
        "ssm_a"@,
        "ssm_dt.bias"@,
        "ssm_norm.weight"@,
        "ssm_out.weight"@,
        "post_attention_norm.weight"@,
        "ffn_gate.weight"@,
        "ffn_up.weight"@,
        "ffn_down.weight"@,
    ]
}

/// Full names of layer `i`'s tensors, in the order in which they are loaded.
pub open spec fn layer_names(interval: usize, i: nat) -> Seq<Seq<char>> {
    let suffixes = if attn_layer(interval, i as int) {
        attn_tensors()
    } else {
        linear_tensors()
    };
    suffixes.map_values(|x: Seq<char>| blk(i, x))
}

/// Full names of the tensors outside the layers, in the order in which they are loaded. Without a
/// head of its own a model takes its embedding for it.
pub open spec fn top_names(dir: Seq<TensorInfo>) -> Seq<Seq<char>> {
    if tensor_index(dir, "output.weight"@) is Some {
        seq!["token_embd.weight"@, "output_norm.weight"@, "output.weight"@]
    } else {
        seq!["token_embd.weight"@, "output_norm.weight"@]
    }
}

/// Loading tensors by name: the positions of those loaded, and the name that stopped it.
pub open spec fn names_run(dir: Seq<TensorInfo>, names: Seq<Seq<char>>) -> (Seq<int>, Option<Fail>)
    decreases names.len(),
{
    if names.len() == 0 {
        (Seq::empty(), None)
    } else {
        let before = names_run(dir, names.drop_last());
        if before.1 is Some {
            before
        } else {
            match tensor_index(dir, names.last()) {
                Some(p) => (before.0.push(p), None),
                None => (before.0, Some(Fail::Tensor(names.last()))),
            }
        }
    }
}

/// Loading the tensors outside the layers and those of the first `n` layers. A layer whose width
/// cannot be told stops it before the layer's tensors.
pub open spec fn layers_run(dir: Seq<TensorInfo>, interval: usize, n: nat) -> (
    Seq<int>,
    Option<Fail>,
)
    decreases n,
{
    if n == 0 {
        names_run(dir, top_names(dir))
    } else {
        let l = (n - 1) as nat;
        let before = layers_run(dir, interval, l);
        if before.1 is Some {
            before
        } else if tensor_index(dir, blk(l, "ffn_up.weight"@)) is None {
            (before.0, Some(Fail::FfnUp(l)))
        } else {
            let run = names_run(dir, layer_names(interval, l));
            (before.0 + run.0, run.1)
        }
    }
}

/// Tensors of a linear-attention layer, by their positions in the file's directory.
#[derive(Clone, Copy, Debug)]
pub struct LinearLayer {
    pub attn_norm: usize,
    pub qkv: usize,
    pub gate: usize,
    pub conv1d: usize,
    pub alpha: usize,
    pub beta: usize,
    pub a: usize,
    pub dt_bias: usize,
    pub ssm_norm: usize,
    pub out: usize,
    pub post_norm: usize,
    pub ffn_gate: usize,
    pub ffn_up: usize,
    pub ffn_down: usize,
    /// Width of the feed-forward part.
    pub n_ff: usize,
}

/// Tensors of a full-attention layer, by their positions in the file's directory.
#[derive(Clone, Copy, Debug)]
pub struct AttnLayer {
    pub attn_norm: usize,
    pub q: usize,
    pub k: usize,
    pub v: usize,
    pub q_norm: usize,
    pub k_norm: usize,
    pub out: usize,
    pub post_norm: usize,
    pub ffn_gate: usize,
    pub ffn_up: usize,
    pub ffn_down: usize,
    /// Width of the feed-forward part.
    pub n_ff: usize,
}

#[derive(Clone, Copy, Debug)]
pub enum Layer {
    Linear(LinearLayer),
    Attn(AttnLayer),
}

/// A model's tensors, by their positions in the file's directory.
pub struct Model {
    pub cfg: Cfg,
    pub token_embd: usize,
    pub output_norm: usize,
    /// The embedding again, where the file has no head.
    pub lm_head: usize,
    pub layers: Vec<Layer>,
}

/// What loading does: the tensors to read, in this order, and then the model, or the error that
/// comes after they were read.
pub struct Loading {
    pub loads: Vec<usize>,
    pub model: Result<Model, ModelError>,
}

/// Whether position `p` is that of layer `i`'s tensor `suffix`.
pub open spec fn at(dir: Seq<TensorInfo>, i: nat, suffix: Seq<char>, p: usize) -> bool {
    tensor_index(dir, blk(i, suffix)) == Some(p as int)
}

/// Whether `layer` holds the positions of layer `i`'s tensors.
pub open spec fn layer_given(dir: Seq<TensorInfo>, interval: usize, i: nat, layer: Layer) -> bool {
    match layer {
        Layer::Attn(l) => {
            &&& attn_layer(interval, i as int)
            &&& at(dir, i, "attn_norm.weight"@, l.attn_norm)
            &&& at(dir, i, "attn_q.weight"@, l.q)
            &&& at(dir, i, "attn_k.weight"@, l.k)
            &&& at(dir, i, "attn_v.weight"@, l.v)
            &&& at(dir, i, "attn_q_norm.weight"@, l.q_norm)
            &&& at(dir, i, "attn_k_norm.weight"@, l.k_norm)
            &&& at(dir, i, "attn_output.weight"@, l.out)
            &&& at(dir, i, "post_attention_norm.weight"@, l.post_norm)
            &&& at(dir, i, "ffn_gate.weight"@, l.ffn_gate)
            &&& at(dir, i, "ffn_up.weight"@, l.ffn_up)
            &&& at(dir, i, "ffn_down.weight"@, l.ffn_down)
            &&& l.n_ff == dir[l.ffn_up as int].shape@[1]
        },
        Layer::Linear(l) => {
            &&& !attn_layer(interval, i as int)
            &&& at(dir, i, "attn_norm.weight"@, l.attn_norm)
            &&& at(dir, i, "attn_qkv.weight"@, l.qkv)
            &&& at(dir, i, "attn_gate.weight"@, l.gate)
            &&& at(dir, i, "ssm_conv1d.weight"@, l.conv1d)
            &&& at(dir, i, "ssm_alpha.weight"@, l.alpha)
            &&& at(dir, i, "ssm_beta.weight"@, l.beta)
            &&& at(dir, i, "ssm_a"@, l.a)
            &&& at(dir, i, "ssm_dt.bias"@, l.dt_bias)
            &&& at(dir, i, "ssm_norm.weight"@, l.ssm_norm)
            &&& at(dir, i, "ssm_out.weight"@, l.out)
            &&& at(dir, i, "post_attention_norm.weight"@, l.post_norm)
            &&& at(dir, i, "ffn_gate.weight"@, l.ffn_gate)
            &&& at(dir, i, "ffn_up.weight"@, l.ffn_up)
            &&& at(dir, i, "ffn_down.weight"@, l.ffn_down)
            &&& l.n_ff == dir[l.ffn_up as int].shape@[1]
        },
    }
}

/// Whether the shapes that loading reads have the dimension that it reads: the embedding's second,
/// and that of each feed-forward tensor that it comes to; and, if it comes to a layer at all, one
/// in some positive number of layers is a full-attention layer.
pub open spec fn shapes_readable(dir: Seq<TensorInfo>, interval: usize, n_layer: usize) -> bool {
    &&& tensor_index(dir, "token_embd.weight"@) matches Some(p) ==> dir[p].shape@.len() >= 2
    &&& n_layer > 0 && layers_run(dir, interval, 0).1 is None && tensor_index(
        dir,
        blk(0, "ffn_up.weight"@),
    ) is Some ==> interval > 0
    &&& forall|i: nat|
        i < n_layer && (#[trigger] layers_run(dir, interval, i)).1 is None ==> (tensor_index(
            dir,
            blk(i, "ffn_up.weight"@),
        ) matches Some(p) ==> dir[p].shape@.len() >= 2)
}

/// Positions, as numbers.
pub open spec fn positions(v: Seq<usize>) -> Seq<int> {
    v.map_values(|p: usize| p as int)
}

/// Once loading by name has stopped, more names change nothing.
proof fn lemma_names_stopped(dir: Seq<TensorInfo>, names: Seq<Seq<char>>, k: int)
    requires
        0 <= k <= names.len(),
        names_run(dir, names.take(k)).1 is Some,
    ensures
        names_run(dir, names) == names_run(dir, names.take(k)),
    decreases names.len(),
{
    if k < names.len() {
        assert(names.drop_last().take(k) =~= names.take(k));
        lemma_names_stopped(dir, names.drop_last(), k);
    } else {
        assert(names.take(k) =~= names);
    }
}

/// Where loading by name does not stop, it loads each name's tensor.
proof fn lemma_names_loaded(dir: Seq<TensorInfo>, names: Seq<Seq<char>>)
    ensures
        names_run(dir, names).1 is None ==> names_run(dir, names).0.len() == names.len()
            && forall|k: int|
            0 <= k < names.len() ==> tensor_index(dir, #[trigger] names[k]) == Some(
                names_run(dir, names).0[k],
            ),
    decreases names.len(),
{
    if names.len() > 0 {
        lemma_names_loaded(dir, names.drop_last());
        if names_run(dir, names).1 is None {
            assert forall|k: int| 0 <= k < names.len() implies tensor_index(
                dir,
                #[trigger] names[k],
            ) == Some(names_run(dir, names).0[k]) by {
                if k < names.len() - 1 {
                    assert(names.drop_last()[k] == names[k]);
                }
            }
        }
    }
}

/// Once loading has stopped, more layers change nothing.
proof fn lemma_layers_stopped(dir: Seq<TensorInfo>, interval: usize, k: nat, n: nat)
    requires
        k <= n,
        layers_run(dir, interval, k).1 is Some,
    ensures
        layers_run(dir, interval, n) == layers_run(dir, interval, k),
    decreases n,
{
    if k < n {
        lemma_layers_stopped(dir, interval, k, (n - 1) as nat);
    }
}

/// A model that is set up loads what it holds, in order, and every layer's tensors are among those
/// that were loaded.
pub proof fn law_layers_loaded(dir: Seq<TensorInfo>, interval: usize, n: nat, i: nat)
    requires
        layers_run(dir, interval, n).1 is None,
        i < n,
    ensures
        layers_run(dir, interval, i).1 is None,
        names_run(dir, layer_names(interval, i)).1 is None,
        exists|at: int|
            0 <= at && at + layer_names(interval, i).len() <= layers_run(dir, interval, n).0.len()
                && names_run(dir, layer_names(interval, i)).0 == #[trigger] layers_run(
                dir,
                interval,
                n,
            ).0.subrange(at, at + layer_names(interval, i).len()),
    decreases n,
{
    let l = (n - 1) as nat;
    let all = layers_run(dir, interval, n).0;
    let before = layers_run(dir, interval, l).0;
    let here = names_run(dir, layer_names(interval, i)).0;
    let count = layer_names(interval, i).len();
    if i == l {
        lemma_names_loaded(dir, layer_names(interval, i));
        assert(all.subrange(before.len() as int, (before.len() + count) as int) =~= here);
    } else {
        law_layers_loaded(dir, interval, l, i);
        let at = choose|at: int|
            0 <= at && at + count <= before.len() && here == #[trigger] before.subrange(
                at,
                at + count,
            );
        assert(all.subrange(at, at + count) =~= before.subrange(at, at + count));
    }
}

fn blk_name(i: usize, suffix: &str) -> (r: String)
    ensures
        r@ == blk(i as nat, suffix@),
{
    let mut s = "blk.".to_owned();
    push_decimal(&mut s, i);
    s.append(".");
    s.append(suffix);
    s
}

/// Loads the tensors `names`, up to the first that is missing.
fn load_all(g: &Gguf, names: &Vec<String>, loads: &mut Vec<usize>) -> (r: Result<
    Vec<usize>,
    ModelError,
>)
    ensures
        ({
            let run = names_run(g.dir(), names@.map_values(|s: String| s@));
            &&& positions(final(loads)@) == positions(old(loads)@) + run.0
            &&& match r {
                Ok(v) => run.1 is None && positions(v@) == run.0,
                Err(e) => run.1 == Some(e@),
            }
        }),
{
    let ghost all = names@.map_values(|s: String| s@);
    let mut found: Vec<usize> = Vec::new();
    let mut i: usize = 0;
    proof {
        assert(all.take(0) =~= Seq::empty());
        assert(positions(found@) =~= Seq::empty());
        assert(positions(loads@) =~= positions(old(loads)@) + Seq::<int>::empty());
    }
    while i < names.len()
        invariant
            i <= names@.len(),
            all == names@.map_values(|s: String| s@),
            names_run(g.dir(), all.take(i as int)).1 is None,
            positions(found@) == names_run(g.dir(), all.take(i as int)).0,
            positions(loads@) == positions(old(loads)@) + names_run(g.dir(), all.take(i as int)).0,
        decreases names.len() - i,
    {
        proof {
            assert(all.take(i + 1).drop_last() =~= all.take(i as int));
            assert(all.take(i + 1).last() == names@[i as int]@);
        }
        match g.find(names[i].as_str()) {
            Some(p) => {
                let ghost f = found@;
                let ghost l = loads@;
                found.push(p);
                loads.push(p);
                assert(positions(found@) =~= positions(f).push(p as int));
                assert(positions(loads@) =~= positions(l).push(p as int));
            },
            None => {
                proof {
                    lemma_names_stopped(g.dir(), all, i + 1);
                }
                return Err(ModelError::MissingTensor { name: names[i].clone() });
            },
        }
        i += 1;
        assert(positions(loads@) =~= positions(old(loads)@) + names_run(
            g.dir(),
            all.take(i as int),
        ).0);
    }
    assert(all.take(i as int) =~= all);
    Ok(found)
}

/// Full names of the tensors outside the layers.
fn names_of_top(head: bool) -> (r: Vec<String>)
    ensures
        r@.map_values(|s: String| s@) == (if head {
            seq!["token_embd.weight"@, "output_norm.weight"@, "output.weight"@]
        } else {
            seq!["token_embd.weight"@, "output_norm.weight"@]
        }),
{
    let mut v: Vec<String> = Vec::new();
    v.push("token_embd.weight".to_owned());
    v.push("output_norm.weight".to_owned());
    if head {
        v.push("output.weight".to_owned());
    }
    assert(v@.map_values(|s: String| s@) =~= (if head {
        seq!["token_embd.weight"@, "output_norm.weight"@, "output.weight"@]
    } else {
        seq!["token_embd.weight"@, "output_norm.weight"@]
    }));
    v
}

/// Full names of layer `i`'s tensors.
fn names_of_layer(attn: bool, i: usize) -> (r: Vec<String>)
    ensures
        r@.map_values(|s: String| s@) == (if attn {
            attn_tensors()
        } else {
            linear_tensors()
        }).map_values(|x: Seq<char>| blk(i as nat, x)),
{
    let mut v: Vec<String> = Vec::new();
    v.push(blk_name(i, "attn_norm.weight"));
    if attn {
        v.push(blk_name(i, "attn_q.weight"));
        v.push(blk_name(i, "attn_k.weight"));
        v.push(blk_name(i, "attn_v.weight"));
        v.push(blk_name(i, "attn_q_norm.weight"));
        v.push(blk_name(i, "attn_k_norm.weight"));
        v.push(blk_name(i, "attn_output.weight"));
    } else {
        v.push(blk_name(i, "attn_qkv.weight"));
        v.push(blk_name(i, "attn_gate.weight"));
        v.push(blk_name(i, "ssm_conv1d.weight"));
        v.push(blk_name(i, "ssm_alpha.weight"));
        v.push(blk_name(i, "ssm_beta.weight"));
        v.push(blk_name(i, "ssm_a"));
        v.push(blk_name(i, "ssm_dt.bias"));
        v.push(blk_name(i, "ssm_norm.weight"));
        v.push(blk_name(i, "ssm_out.weight"));
    }
    v.push(blk_name(i, "post_attention_norm.weight"));
    v.push(blk_name(i, "ffn_gate.weight"));
    v.push(blk_name(i, "ffn_up.weight"));
    v.push(blk_name(i, "ffn_down.weight"));
    assert(v@.map_values(|s: String| s@) =~= (if attn {
        attn_tensors()
    } else {
        linear_tensors()
    }).map_values(|x: Seq<char>| blk(i as nat, x)));
    v
}

/// Loads layer `i`, whose feed-forward part is `n_ff` wide.
fn load_layer(g: &Gguf, attn: bool, i: usize, n_ff: usize, loads: &mut Vec<usize>) -> (r: Result<
    Layer,
    ModelError,
>)
    requires
        tensor_index(g.dir(), blk(i as nat, "ffn_up.weight"@)) matches Some(p)
            && g.dir()[p].shape@[1] == n_ff,
    ensures
        forall|interval: usize| #[trigger]
            attn_layer(interval, i as int) == attn ==> {
                let run = names_run(g.dir(), layer_names(interval, i as nat));
                &&& positions(final(loads)@) == positions(old(loads)@) + run.0
                &&& match r {
                    Ok(l) => run.1 is None && layer_given(g.dir(), interval, i as nat, l),
                    Err(e) => run.1 == Some(e@),
                }
            },
{
    let names = names_of_layer(attn, i);
    let ghost all = names@.map_values(|s: String| s@);
    let v = match load_all(g, &names, loads) {
        Ok(v) => v,
        Err(e) => {
            return Err(e);
        },
    };
    proof {
        lemma_names_loaded(g.dir(), all);
        assert(v@.len() == positions(v@).len());
        assert forall|k: int| 0 <= k < v@.len() implies tensor_index(g.dir(), #[trigger] all[k])
            == Some(v@[k] as int) by {
            assert(positions(v@)[k] == v@[k]);
        }
    }
    if attn {
        proof {
            assert(all.len() == 11);
            assert forall|k: int| 0 <= k < 11 implies all[k] == blk(
                i as nat,
                #[trigger] attn_tensors()[k],
            ) by {}
            assert(all[0] == blk(i as nat, attn_tensors()[0]));
            assert(all[1] == blk(i as nat, attn_tensors()[1]));
            assert(all[2] == blk(i as nat, attn_tensors()[2]));
            assert(all[3] == blk(i as nat, attn_tensors()[3]));
            assert(all[4] == blk(i as nat, attn_tensors()[4]));
            assert(all[5] == blk(i as nat, attn_tensors()[5]));
            assert(all[6] == blk(i as nat, attn_tensors()[6]));
            assert(all[7] == blk(i as nat, attn_tensors()[7]));
            assert(all[8] == blk(i as nat, attn_tensors()[8]));
            assert(all[9] == blk(i as nat, attn_tensors()[9]));
            assert(all[10] == blk(i as nat, attn_tensors()[10]));
        }
        Ok(
            Layer::Attn(
                AttnLayer {
                    attn_norm: v[0],
                    q: v[1],
                    k: v[2],
                    v: v[3],
                    q_norm: v[4],
                    k_norm: v[5],
                    out: v[6],
                    post_norm: v[7],
                    ffn_gate: v[8],
                    ffn_up: v[9],
                    ffn_down: v[10],
                    n_ff,
                },
            ),
        )
    } else {
        proof {
            assert(all.len() == 14);
            assert(all[0] == blk(i as nat, linear_tensors()[0]));
            assert(all[1] == blk(i as nat, linear_tensors()[1]));
            assert(all[2] == blk(i as nat, linear_tensors()[2]));
            assert(all[3] == blk(i as nat, linear_tensors()[3]));
            assert(all[4] == blk(i as nat, linear_tensors()[4]));
            assert(all[5] == blk(i as nat, linear_tensors()[5]));
            assert(all[6] == blk(i as nat, linear_tensors()[6]));
            assert(all[7] == blk(i as nat, linear_tensors()[7]));
            assert(all[8] == blk(i as nat, linear_tensors()[8]));
            assert(all[9] == blk(i as nat, linear_tensors()[9]));
            assert(all[10] == blk(i as nat, linear_tensors()[10]));
            assert(all[11] == blk(i as nat, linear_tensors()[11]));
            assert(all[12] == blk(i as nat, linear_tensors()[12]));
            assert(all[13] == blk(i as nat, linear_tensors()[13]));
        }
        Ok(
            Layer::Linear(
                LinearLayer {
                    attn_norm: v[0],
                    qkv: v[1],
                    gate: v[2],
                    conv1d: v[3],
                    alpha: v[4],
                    beta: v[5],
                    a: v[6],
                    dt_bias: v[7],
                    ssm_norm: v[8],
                    out: v[9],
                    post_norm: v[10],
                    ffn_gate: v[11],
                    ffn_up: v[12],
                    ffn_down: v[13],
                    n_ff,
                },
            ),
        )
    }
}

/// Whether `model` is the one that the file's directory describes.
pub open spec fn model_given(
    meta: Map<Seq<char>, MetaValue>,
    dir: Seq<TensorInfo>,
    model: Model,
) -> bool {
    &&& cfg_given(meta, model.cfg)
    &&& tensor_index(dir, "token_embd.weight"@) == Some(model.token_embd as int)
    &&& model.cfg.vocab == dir[model.token_embd as int].shape@[1]
    &&& tensor_index(dir, "output_norm.weight"@) == Some(model.output_norm as int)
    &&& model.lm_head == match tensor_index(dir, "output.weight"@) {
        Some(p) => p,
        None => model.token_embd as int,
    }
    &&& model.layers@.len() == model.cfg.n_layer
    &&& forall|i: int|
        0 <= i < model.layers@.len() ==> layer_given(
            dir,
            model.cfg.full_attn_interval,
            i as nat,
            #[trigger] model.layers@[i],
        )
}

/// A layer's tensor is named after the layer's number and the tensor.
pub proof fn law_layer_name(i: nat, suffix: Seq<char>)
    ensures
        exists|n: Seq<char>|
            #![trigger n.len()]
            {
                &&& digits_value(n, 10) == i
                &&& n.len() > 0
                &&& (i > 0 ==> n[0] != '0')
                &&& blk(i, suffix) == "blk."@ + n + "."@ + suffix
            },
{
    law_decimal(i);
    assert(decimal(i).len() > 0);
}

/// Layers are counted from 1 for this: a full-attention layer is one whose number is a multiple of the
/// interval.
pub proof fn law_attn_layer(interval: usize, k: nat, i: nat)
    requires
        interval > 0,
    ensures
        i + 1 == interval * k ==> attn_layer(interval, i as int),
        interval * k < i + 1 < interval * (k + 1) ==> !attn_layer(interval, i as int),
{
    let d = interval as int;
    if i + 1 == interval * k {
        assert(d * (k as int) == interval * k);
        vstd::arithmetic::div_mod::lemma_fundamental_div_mod_converse(
            (i + 1) as int,
            d,
            k as int,
            0,
        );
    }
    if interval * k < i + 1 < interval * (k + 1) {
        assert(d * (k + 1) == d * k + d) by (nonlinear_arith);
        vstd::arithmetic::div_mod::lemma_fundamental_div_mod_converse(
            (i + 1) as int,
            d,
            k as int,
            i + 1 - d * k,
        );
    }
}

/// Whether position `p` is the first in the directory of a tensor with this name.
pub open spec fn first_named(dir: Seq<TensorInfo>, name: Seq<char>, p: usize) -> bool {
    &&& p < dir.len()
    &&& dir[p as int].name@ == name
    &&& forall|j: int| 0 <= j < p ==> (#[trigger] dir[j]).name@ != name
}

/// A full-attention layer's tensors are those of these names, one for each of its roles, and its
/// feed-forward part is as wide as the second dimension of `ffn_up.weight`.
pub proof fn law_attn_layer_tensors(dir: Seq<TensorInfo>, interval: usize, i: nat, l: AttnLayer)
    requires
        layer_given(dir, interval, i, Layer::Attn(l)),
    ensures
        attn_layer(interval, i as int),
        first_named(dir, blk(i, "attn_norm.weight"@), l.attn_norm),
        first_named(dir, blk(i, "attn_q.weight"@), l.q),
        first_named(dir, blk(i, "attn_k.weight"@), l.k),
        first_named(dir, blk(i, "attn_v.weight"@), l.v),
        first_named(dir, blk(i, "attn_q_norm.weight"@), l.q_norm),
        first_named(dir, blk(i, "attn_k_norm.weight"@), l.k_norm),
        first_named(dir, blk(i, "attn_output.weight"@), l.out),
        first_named(dir, blk(i, "post_attention_norm.weight"@), l.post_norm),
        first_named(dir, blk(i, "ffn_gate.weight"@), l.ffn_gate),
        first_named(dir, blk(i, "ffn_up.weight"@), l.ffn_up),
        first_named(dir, blk(i, "ffn_down.weight"@), l.ffn_down),
        l.n_ff == dir[l.ffn_up as int].shape@[1],
{
    law_tensor_index(dir, blk(i, "attn_norm.weight"@));
    law_tensor_index(dir, blk(i, "attn_q.weight"@));
    law_tensor_index(dir, blk(i, "attn_k.weight"@));
    law_tensor_index(dir, blk(i, "attn_v.weight"@));
    law_tensor_index(dir, blk(i, "attn_q_norm.weight"@));
    law_tensor_index(dir, blk(i, "attn_k_norm.weight"@));
    law_tensor_index(dir, blk(i, "attn_output.weight"@));
    law_tensor_index(dir, blk(i, "post_attention_norm.weight"@));
    law_tensor_index(dir, blk(i, "ffn_gate.weight"@));
    law_tensor_index(dir, blk(i, "ffn_up.weight"@));
    law_tensor_index(dir, blk(i, "ffn_down.weight"@));
}

/// A linear-attention layer's tensors are those of these names, one for each of its roles, and its
/// feed-forward part is as wide as the second dimension of `ffn_up.weight`.
pub proof fn law_linear_layer_tensors(
    dir: Seq<TensorInfo>,
    interval: usize,
    i: nat,
    l: LinearLayer,
)
    requires
        layer_given(dir, interval, i, Layer::Linear(l)),
    ensures
        !attn_layer(interval, i as int),
        first_named(dir, blk(i, "attn_norm.weight"@), l.attn_norm),
        first_named(dir, blk(i, "attn_qkv.weight"@), l.qkv),
        first_named(dir, blk(i, "attn_gate.weight"@), l.gate),
        first_named(dir, blk(i, "ssm_conv1d.weight"@), l.conv1d),
        first_named(dir, blk(i, "ssm_alpha.weight"@), l.alpha),
        first_named(dir, blk(i, "ssm_beta.weight"@), l.beta),
        first_named(dir, blk(i, "ssm_a"@), l.a),
        first_named(dir, blk(i, "ssm_dt.bias"@), l.dt_bias),
        first_named(dir, blk(i, "ssm_norm.weight"@), l.ssm_norm),
        first_named(dir, blk(i, "ssm_out.weight"@), l.out),
        first_named(dir, blk(i, "post_attention_norm.weight"@), l.post_norm),
        first_named(dir, blk(i, "ffn_gate.weight"@), l.ffn_gate),
        first_named(dir, blk(i, "ffn_up.weight"@), l.ffn_up),
        first_named(dir, blk(i, "ffn_down.weight"@), l.ffn_down),
        l.n_ff == dir[l.ffn_up as int].shape@[1],
{
    law_tensor_index(dir, blk(i, "attn_norm.weight"@));
    law_tensor_index(dir, blk(i, "attn_qkv.weight"@));
    law_tensor_index(dir, blk(i, "attn_gate.weight"@));
    law_tensor_index(dir, blk(i, "ssm_conv1d.weight"@));
    law_tensor_index(dir, blk(i, "ssm_alpha.weight"@));
    law_tensor_index(dir, blk(i, "ssm_beta.weight"@));
    law_tensor_index(dir, blk(i, "ssm_a"@));
    law_tensor_index(dir, blk(i, "ssm_dt.bias"@));
    law_tensor_index(dir, blk(i, "ssm_norm.weight"@));
    law_tensor_index(dir, blk(i, "ssm_out.weight"@));
    law_tensor_index(dir, blk(i, "post_attention_norm.weight"@));
    law_tensor_index(dir, blk(i, "ffn_gate.weight"@));
    law_tensor_index(dir, blk(i, "ffn_up.weight"@));
    law_tensor_index(dir, blk(i, "ffn_down.weight"@));
}

/// A layer's tensors are loaded in the order in which the layer lists them, each once.
pub proof fn law_layer_loads(dir: Seq<TensorInfo>, interval: usize, i: nat, layer: Layer)
    requires
        layer_given(dir, interval, i, layer),
    ensures
        names_run(dir, layer_names(interval, i)).1 is None,
        names_run(dir, layer_names(interval, i)).0 == match layer {
            Layer::Attn(l) => seq![
                l.attn_norm as int,
                l.q as int,
                l.k as int,
                l.v as int,
                l.q_norm as int,
                l.k_norm as int,
                l.out as int,
                l.post_norm as int,
                l.ffn_gate as int,
                l.ffn_up as int,
                l.ffn_down as int,
            ],
            Layer::Linear(l) => seq![
                l.attn_norm as int,
                l.qkv as int,
                l.gate as int,
                l.conv1d as int,
                l.alpha as int,
                l.beta as int,
                l.a as int,
                l.dt_bias as int,
                l.ssm_norm as int,
                l.out as int,
                l.post_norm as int,
                l.ffn_gate as int,
                l.ffn_up as int,
                l.ffn_down as int,
            ],
        },
{
    let names = layer_names(interval, i);
    law_names_run(dir, names);
    lemma_names_loaded(dir, names);
    let run = names_run(dir, names);
    match layer {
        Layer::Attn(l) => {
            assert(names.len() == 11);
            assert(names[0] == blk(i, "attn_norm.weight"@));
            assert(names[1] == blk(i, "attn_q.weight"@));
            assert(names[2] == blk(i, "attn_k.weight"@));
            assert(names[3] == blk(i, "attn_v.weight"@));
            assert(names[4] == blk(i, "attn_q_norm.weight"@));
            assert(names[5] == blk(i, "attn_k_norm.weight"@));
            assert(names[6] == blk(i, "attn_output.weight"@));
            assert(names[7] == blk(i, "post_attention_norm.weight"@));
            assert(names[8] == blk(i, "ffn_gate.weight"@));
            assert(names[9] == blk(i, "ffn_up.weight"@));
            assert(names[10] == blk(i, "ffn_down.weight"@));
            assert(run.1 is None);
            assert(run.0 =~= seq![
                l.attn_norm as int,
                l.q as int,
                l.k as int,
                l.v as int,
                l.q_norm as int,
                l.k_norm as int,
                l.out as int,
                l.post_norm as int,
                l.ffn_gate as int,
                l.ffn_up as int,
                l.ffn_down as int,
            ]);
        },
        Layer::Linear(l) => {
            assert(names.len() == 14);
            assert(names[0] == blk(i, "attn_norm.weight"@));
            assert(names[1] == blk(i, "attn_qkv.weight"@));
            assert(names[2] == blk(i, "attn_gate.weight"@));
            assert(names[3] == blk(i, "ssm_conv1d.weight"@));
            assert(names[4] == blk(i, "ssm_alpha.weight"@));
            assert(names[5] == blk(i, "ssm_beta.weight"@));
            assert(names[6] == blk(i, "ssm_a"@));
            assert(names[7] == blk(i, "ssm_dt.bias"@));
            assert(names[8] == blk(i, "ssm_norm.weight"@));
            assert(names[9] == blk(i, "ssm_out.weight"@));
            assert(names[10] == blk(i, "post_attention_norm.weight"@));
            assert(names[11] == blk(i, "ffn_gate.weight"@));
            assert(names[12] == blk(i, "ffn_up.weight"@));
            assert(names[13] == blk(i, "ffn_down.weight"@));
            assert(run.1 is None);
            assert(run.0 =~= seq![
                l.attn_norm as int,
                l.qkv as int,
                l.gate as int,
                l.conv1d as int,
                l.alpha as int,
                l.beta as int,
                l.a as int,
                l.dt_bias as int,
                l.ssm_norm as int,
                l.out as int,
                l.post_norm as int,
                l.ffn_gate as int,
                l.ffn_up as int,
                l.ffn_down as int,
            ]);
        },
    }
}

/// Loading by name takes the names in order and stops at the first that the directory lacks, which is the
/// one that is told; all before it are loaded, and nothing behind it.
pub proof fn law_names_run(dir: Seq<TensorInfo>, names: Seq<Seq<char>>)
    ensures
        ({
            let run = names_run(dir, names);
            let n = run.0.len() as int;
            &&& n <= names.len()
            &&& forall|k: int|
                0 <= k < n ==> tensor_index(dir, #[trigger] names[k]) == Some(run.0[k])
            &&& run.1 is None <==> n == names.len()
            &&& n < names.len() ==> run.1 == Some(Fail::Tensor(names[n])) && tensor_index(
                dir,
                names[n],
            ) is None
        }),
    decreases names.len(),
{
    if names.len() > 0 {
        let front = names.drop_last();
        law_names_run(dir, front);
        let before = names_run(dir, front);
        let run = names_run(dir, names);
        assert forall|k: int| 0 <= k < run.0.len() implies tensor_index(dir, #[trigger] names[k])
            == Some(run.0[k]) by {
            if k < before.0.len() {
                assert(front[k] == names[k]);
            }
        }
        if before.0.len() < front.len() {
            assert(front[before.0.len() as int] == names[before.0.len() as int]);
        }
    }
}

/// The tensors outside the layers come first: the embedding, the last norm, and the head where the file
/// has one. A layer comes after all layers before it, and only once it is known to have an `ffn_up.weight`;
/// what stops the loading ends it.
pub proof fn law_layers_run(dir: Seq<TensorInfo>, interval: usize, n: nat)
    ensures
        top_names(dir)[0] == "token_embd.weight"@,
        top_names(dir)[1] == "output_norm.weight"@,
        tensor_index(dir, "output.weight"@) is None ==> top_names(dir).len() == 2,
        tensor_index(dir, "output.weight"@) is Some ==> top_names(dir).len() == 3 && top_names(
            dir,
        )[2] == "output.weight"@,
        layers_run(dir, interval, 0) == names_run(dir, top_names(dir)),
        ({
            let before = layers_run(dir, interval, n);
            let after = layers_run(dir, interval, n + 1);
            let here = names_run(dir, layer_names(interval, n));
            let wide = tensor_index(dir, blk(n, "ffn_up.weight"@)) is Some;
            &&& before.1 is Some ==> after == before
            &&& before.1 is None && !wide ==> after.0 == before.0 && after.1 == Some(Fail::FfnUp(n))
            &&& before.1 is None && wide ==> after.0 == before.0 + here.0 && after.1 == here.1
        }),
{
}

/// A model's embedding, last norm and head are the tensors of these names, or the head is the embedding
/// where the file has none of its own; the vocabulary is the embedding's second dimension; and there are as
/// many layers as the metadata says.
pub proof fn law_model(meta: Map<Seq<char>, MetaValue>, dir: Seq<TensorInfo>, model: Model)
    requires
        model_given(meta, dir, model),
        cfg_fail(meta) is None,
    ensures
        first_named(dir, "token_embd.weight"@, model.token_embd),
        first_named(dir, "output_norm.weight"@, model.output_norm),
        first_named(dir, "output.weight"@, model.lm_head) || model.lm_head == model.token_embd && (
        forall|j: int| 0 <= j < dir.len() ==> (#[trigger] dir[j]).name@ != "output.weight"@),
        model.cfg.vocab == dir[model.token_embd as int].shape@[1],
        forall|x: u64|
            x <= usize::MAX && #[trigger] gives(meta, "qwen35.block_count"@, x)
                ==> model.layers@.len() == x,
        forall|i: int|
            0 <= i < model.layers@.len() ==> (#[trigger] model.layers@[i] is Attn <==> attn_layer(
                model.cfg.full_attn_interval,
                i,
            )),
{
    law_tensor_index(dir, "token_embd.weight"@);
    law_tensor_index(dir, "output_norm.weight"@);
    law_tensor_index(dir, "output.weight"@);
    assert forall|x: u64|
        x <= usize::MAX && #[trigger] gives(meta, "qwen35.block_count"@, x) implies model.layers@.len()
        == x by {
        law_cfg(meta, model.cfg, x);
    }
    assert forall|i: int| 0 <= i < model.layers@.len() implies (#[trigger] model.layers@[i] is Attn
        <==> attn_layer(model.cfg.full_attn_interval, i)) by {
        assert(layer_given(dir, model.cfg.full_attn_interval, i as nat, model.layers@[i]));
    }
}

/// Without layers only the embedding's shape is read. One more layer adds its `ffn_up.weight`, where the
/// loading comes to it, and that layers can be told apart at all: a positive interval.
pub proof fn law_shapes_readable(dir: Seq<TensorInfo>, interval: usize, n: usize)
    requires
        n < usize::MAX,
    ensures
        shapes_readable(dir, interval, 0) <==> (tensor_index(dir, "token_embd.weight"@) matches Some(p)
            ==> dir[p].shape@.len() > 1),
        shapes_readable(dir, interval, (n + 1) as usize) <==> shapes_readable(dir, interval, n) && (
        layers_run(dir, interval, n as nat).1 is None ==> (tensor_index(
            dir,
            blk(n as nat, "ffn_up.weight"@),
        ) matches Some(p) ==> interval > 0 && dir[p].shape@.len() > 1)),
{
    let up = "ffn_up.weight"@;
    let more = (n + 1) as usize;
    let here = layers_run(dir, interval, n as nat).1 is None;
    if here && n > 0 {
        if layers_run(dir, interval, 0).1 is Some {
            lemma_layers_stopped(dir, interval, 0, n as nat);
        }
        if layers_run(dir, interval, 1).1 is Some {
            lemma_layers_stopped(dir, interval, 1, n as nat);
        }
        reveal_with_fuel(layers_run, 3);
        assert(layers_run(dir, interval, 1).1 is None);
        assert(tensor_index(dir, blk(0, up)) is Some);
    }
    if shapes_readable(dir, interval, more) {
        assert(here ==> (tensor_index(dir, blk(n as nat, up)) matches Some(p)
            ==> dir[p].shape@.len() >= 2));
    }
    if shapes_readable(dir, interval, n) && (here ==> (tensor_index(dir, blk(n as nat, up)) matches Some(
        p,
    ) ==> interval > 0 && dir[p].shape@.len() > 1)) {
        assert forall|i: nat|
            i < more && (#[trigger] layers_run(dir, interval, i)).1 is None implies (tensor_index(
            dir,
            blk(i, up),
        ) matches Some(p) ==> dir[p].shape@.len() >= 2) by {
            if i == n {
                assert(here);
            }
        }
    }
}

impl Model {
    /// Whether a file's shapes have the dimensions that loading reads. A file that loading gives up on
    /// before a shape may have any shape there.
    pub fn readable(g: &Gguf) -> (r: bool)
        ensures
            r == (cfg_fail(g.meta()) is None ==> shapes_readable(
                g.dir(),
                size_or(g.meta(), "full_attention_interval"@, 4),
                size_of_key(g.meta(), "block_count"@),
            )),
    {
        let cfg = match Cfg::from_gguf(g) {
            Ok(c) => c,
            Err(_) => {
                return true;
            },
        };
        let interval: usize = cfg.full_attn_interval;
        let ghost dir = g.dir();
        proof {
            law_tensor_index(dir, "token_embd.weight"@);
        }
        if let Some(p) = g.find("token_embd.weight") {
            if g.tensors()[p].shape.len() < 2 {
                return false;
            }
        }
        let mut loads: Vec<usize> = Vec::new();
        let top = names_of_top(g.find("output.weight").is_some());
        let found = load_all(g, &top, &mut loads);
        if found.is_err() {
            proof {
                assert forall|i: nat| (#[trigger] layers_run(dir, interval, i)).1 is Some by {
                    lemma_layers_stopped(dir, interval, 0, i);
                }
            }
            return true;
        }
        let mut i: usize = 0;
        while i < cfg.n_layer
            invariant
                i <= cfg.n_layer,
                dir == g.dir(),
                interval == cfg.full_attn_interval,
                cfg_fail(g.meta()) is None,
                cfg_given(g.meta(), cfg),
                layers_run(dir, interval, i as nat).1 is None,
                i > 0 ==> interval > 0,
                tensor_index(dir, "token_embd.weight"@) matches Some(p) ==> dir[p].shape@.len()
                    >= 2,
                forall|k: nat|
                    k < i && (#[trigger] layers_run(dir, interval, k)).1 is None ==> (tensor_index(
                        dir,
                        blk(k, "ffn_up.weight"@),
                    ) matches Some(p) ==> dir[p].shape@.len() >= 2),
            decreases cfg.n_layer - i,
        {
            let up = blk_name(i, "ffn_up.weight");
            proof {
                law_tensor_index(dir, blk(i as nat, "ffn_up.weight"@));
            }
            let stops = match g.find(up.as_str()) {
                Some(p) => {
                    if interval == 0 || g.tensors()[p].shape.len() < 2 {
                        assert(layers_run(dir, interval, i as nat).1 is None);
                        return false;
                    }
                    let names = names_of_layer(cfg.is_attn_layer(i), i);
                    load_all(g, &names, &mut loads).is_err()
                },
                None => true,
            };
            i += 1;
            if stops {
                proof {
                    assert forall|k: nat| i <= k implies (#[trigger] layers_run(
                        dir,
                        interval,
                        k,
                    )).1 is Some by {
                        lemma_layers_stopped(dir, interval, i as nat, k);
                    }
                }
                return true;
            }
        }
        true
    }

    /// Sets up a model from a file's directory. What has to be read from the file comes with it, in
    /// order; an error comes after everything before it was read.
    pub fn load(g: &Gguf) -> (r: Loading)
        requires
            cfg_fail(g.meta()) is None ==> shapes_readable(
                g.dir(),
                size_or(g.meta(), "full_attention_interval"@, 4),
                size_of_key(g.meta(), "block_count"@),
            ),
        ensures
            match cfg_fail(g.meta()) {
                Some(f) => r.loads@.len() == 0 && (r.model matches Err(e) && e@ == f),
                None => {
                    let run = layers_run(
                        g.dir(),
                        size_or(g.meta(), "full_attention_interval"@, 4),
                        size_of_key(g.meta(), "block_count"@) as nat,
                    );
                    &&& positions(r.loads@) == run.0
                    &&& match r.model {
                        Ok(model) => run.1 is None && model_given(g.meta(), g.dir(), model),
                        Err(e) => run.1 == Some(e@),
                    }
                },
            },
    {
        let mut loads: Vec<usize> = Vec::new();
        let mut cfg = match Cfg::from_gguf(g) {
            Ok(c) => c,
            Err(e) => {
                return Loading { loads, model: Err(e) };
            },
        };
        let interval: usize = cfg.full_attn_interval;
        let ghost dir = g.dir();
        let head = g.find("output.weight");
        let top = names_of_top(head.is_some());
        let ghost names = top@.map_values(|s: String| s@);
        proof {
            assert(names =~= top_names(dir));
            assert(positions(loads@) =~= Seq::empty());
            assert(Seq::<int>::empty() + names_run(dir, names).0 =~= names_run(dir, names).0);
        }
        let found = match load_all(g, &top, &mut loads) {
            Ok(v) => v,
            Err(e) => {
                proof {
                    lemma_layers_stopped(dir, interval, 0, cfg.n_layer as nat);
                }
                return Loading { loads, model: Err(e) };
            },
        };
        proof {
            lemma_names_loaded(dir, names);
            assert(found@.len() == positions(found@).len());
            assert(positions(found@)[0] == found@[0] && positions(found@)[1] == found@[1]);
            assert(tensor_index(dir, names[0]) == Some(found@[0] as int));
            assert(tensor_index(dir, names[1]) == Some(found@[1] as int));
            law_tensor_index(dir, "token_embd.weight"@);
        }
        let token_embd: usize = found[0];
        let output_norm: usize = found[1];
        cfg.vocab = g.tensors()[token_embd].shape[1];
        let lm_head: usize = match head {
            Some(p) => p,
            None => token_embd,
        };
        let mut layers: Vec<Layer> = Vec::new();
        let mut i: usize = 0;
        while i < cfg.n_layer
            invariant
                i <= cfg.n_layer,
                dir == g.dir(),
                interval == cfg.full_attn_interval,
                shapes_readable(dir, interval, cfg.n_layer),
                layers_run(dir, interval, i as nat).1 is None,
                positions(loads@) == layers_run(dir, interval, i as nat).0,
                layers@.len() == i,
                forall|k: int|
                    0 <= k < i ==> layer_given(dir, interval, k as nat, #[trigger] layers@[k]),
                cfg_fail(g.meta()) is None,
                cfg_given(g.meta(), cfg),
                i > 0 ==> interval > 0,
            decreases cfg.n_layer - i,
        {
            let up = blk_name(i, "ffn_up.weight");
            let p: usize = match g.find(up.as_str()) {
                Some(p) => p,
                None => {
                    proof {
                        lemma_layers_stopped(dir, interval, (i + 1) as nat, cfg.n_layer as nat);
                    }
                    return Loading { loads, model: Err(ModelError::MissingFfnUp { layer: i }) };
                },
            };
            proof {
                law_tensor_index(dir, blk(i as nat, "ffn_up.weight"@));
            }
            let n_ff: usize = g.tensors()[p].shape[1];
            let attn = cfg.is_attn_layer(i);
            match load_layer(g, attn, i, n_ff, &mut loads) {
                Ok(l) => {
                    layers.push(l);
                },
                Err(e) => {
                    proof {
                        assert(attn_layer(interval, i as int) == attn);
                        lemma_layers_stopped(dir, interval, (i + 1) as nat, cfg.n_layer as nat);
                    }
                    return Loading { loads, model: Err(e) };
                },
            }
            assert(attn_layer(interval, i as int) == attn);
            i += 1;
        }
        Loading { loads, model: Ok(Model { cfg, token_embd, output_norm, lm_head, layers }) }
    }
}

} // verus!
