use infr::gguf::{Gguf, MetaValue, Metadata, TensorInfo};
use infr::qwen35::{Cfg, FloatParam, Layer, Model, ModelError};
use infr::tensor::DType;

fn metadata() -> Metadata {
    let mut m = Metadata::new();
    m.insert("general.architecture".into(), MetaValue::Str("qwen35".into()));
    for (k, v) in [
        ("block_count", 24u64),
        ("embedding_length", 1024),
        ("attention.head_count", 8),
        ("attention.head_count_kv", 2),
        ("attention.key_length", 256),
        ("ssm.conv_kernel", 4),
        ("ssm.state_size", 128),
        ("ssm.inner_size", 2048),
        ("ssm.group_count", 16),
        ("ssm.time_step_rank", 16),
    ] {
        m.insert(format!("qwen35.{k}"), MetaValue::U64(v));
    }
    m
}

fn tensor(name: String, shape: Vec<usize>) -> TensorInfo {
    TensorInfo { name, dtype: DType::F32, shape, nbytes: 0 }
}

const ATTN: [&str; 11] = [
    "attn_norm.weight",
    "attn_q.weight",
    "attn_k.weight",
    "attn_v.weight",
    "attn_q_norm.weight",
    "attn_k_norm.weight",
    "attn_output.weight",
    "post_attention_norm.weight",
    "ffn_gate.weight",
    "ffn_up.weight",
    "ffn_down.weight",
];

const LINEAR: [&str; 14] = [
    "attn_norm.weight",
    "attn_qkv.weight",
    "attn_gate.weight",
    "ssm_conv1d.weight",
    "ssm_alpha.weight",
    "ssm_beta.weight",
    "ssm_a",
    "ssm_dt.bias",
    "ssm_norm.weight",
    "ssm_out.weight",
    "post_attention_norm.weight",
    "ffn_gate.weight",
    "ffn_up.weight",
    "ffn_down.weight",
];

fn tensors(n_layer: usize) -> Vec<TensorInfo> {
    let mut v = vec![
        tensor("token_embd.weight".into(), vec![1024, 248320]),
        tensor("output_norm.weight".into(), vec![1024]),
    ];
    for i in 0..n_layer {
        let names: &[&str] = if (i + 1) % 4 == 0 { &ATTN } else { &LINEAR };
        for n in names {
            v.push(tensor(format!("blk.{i}.{n}"), vec![1024, 3584 + i]));
        }
    }
    v
}

#[test]
fn loads_and_dims() {
    let g = Gguf::new(metadata(), tensors(24));
    let m = Model::load(&g).model.unwrap();
    let c = &m.cfg;
    println!("cfg: {c:?}");
    println!(
        "k_heads={} head_k={} v_heads={} head_v={} conv_ch={}",
        c.num_k_heads(),
        c.head_k_dim(),
        c.num_v_heads(),
        c.head_v_dim(),
        c.conv_channels()
    );
    assert_eq!(c.n_layer, 24);
    assert_eq!(c.conv_channels(), 6144);
    assert_eq!(c.head_v_dim(), 128);
    let n_attn = (0..c.n_layer).filter(|&i| c.is_attn_layer(i)).count();
    assert_eq!(n_attn, 6, "expected 6 full-attention layers");
    assert_eq!(m.layers.len(), 24);
}

#[test]
fn hyper_parameters_and_defaults() {
    let mut md = metadata();
    let c = Cfg::from_gguf(&Gguf::new(metadata(), Vec::new())).unwrap();
    assert_eq!((c.n_embd, c.vocab, c.n_head, c.n_kv, c.head_dim), (1024, 0, 8, 2, 256));
    assert_eq!((c.d_conv, c.d_state, c.d_inner, c.n_group, c.dt_rank), (4, 128, 2048, 16, 16));
    assert_eq!((c.rope_dim, c.full_attn_interval), (64, 4));
    assert_eq!((c.eps, c.rope_theta), (FloatParam::Default, FloatParam::Default));
    assert_eq!(c.rope_sections, [0; 4]);

    md.insert("qwen35.rope.dimension_count".into(), MetaValue::U64(32));
    md.insert("qwen35.full_attention_interval".into(), MetaValue::I64(3));
    let eps = 1e-5f64.to_bits();
    md.insert("qwen35.attention.layer_norm_rms_epsilon".into(), MetaValue::F64(eps));
    md.insert("qwen35.rope.freq_base".into(), MetaValue::U64(10_000_000));
    md.insert(
        "qwen35.rope.dimension_sections".into(),
        MetaValue::Arr(vec![
            MetaValue::I64(11),
            MetaValue::I64(11),
            MetaValue::U64(10),
            MetaValue::Bool(true),
            MetaValue::U64(99),
        ]),
    );
    let c = Cfg::from_gguf(&Gguf::new(md, Vec::new())).unwrap();
    assert_eq!((c.rope_dim, c.full_attn_interval), (32, 3));
    assert_eq!((c.eps, c.rope_theta), (FloatParam::F64(eps), FloatParam::U64(10_000_000)));
    assert_eq!(c.rope_sections, [11, 11, 10, 0]);
}

#[test]
fn other_families_are_refused() {
    let mut md = Metadata::new();
    match Cfg::from_gguf(&Gguf::new(Metadata::new(), Vec::new())) {
        Err(ModelError::NotQwen35 { arch }) => assert_eq!(arch, ""),
        _ => panic!("expected a refusal"),
    }
    md.insert("general.architecture".into(), MetaValue::Str("llama".into()));
    match Model::load(&Gguf::new(md, tensors(1))).model {
        Err(ModelError::NotQwen35 { arch }) => assert_eq!(arch, "llama"),
        _ => panic!("expected a refusal"),
    }
}

#[test]
fn the_first_missing_hyper_parameter_is_named() {
    let mut md = Metadata::new();
    md.insert("general.architecture".into(), MetaValue::Str("qwen35".into()));
    md.insert("qwen35.block_count".into(), MetaValue::U64(1));
    md.insert("qwen35.embedding_length".into(), MetaValue::Str("many".into()));
    match Cfg::from_gguf(&Gguf::new(md, Vec::new())) {
        Err(ModelError::MissingKey { key }) => assert_eq!(key, "qwen35.embedding_length"),
        _ => panic!("expected a missing key"),
    }
    let mut md = metadata();
    md.insert("qwen35.ssm.time_step_rank".into(), MetaValue::I64(-1));
    match Cfg::from_gguf(&Gguf::new(md, Vec::new())) {
        Err(ModelError::MissingKey { key }) => assert_eq!(key, "qwen35.ssm.time_step_rank"),
        _ => panic!("expected a missing key"),
    }
}

#[test]
fn layers_take_their_tensors_in_order() {
    let mut md = metadata();
    md.insert("qwen35.block_count".into(), MetaValue::U64(4));
    let g = Gguf::new(md, tensors(4));
    let loading = Model::load(&g);
    let m = loading.model.unwrap();
    assert_eq!((m.token_embd, m.output_norm, m.lm_head), (0, 1, 0));
    assert_eq!(m.cfg.vocab, 248320);
    assert_eq!(loading.loads, (0..g.tensors().len()).collect::<Vec<usize>>());
    match m.layers[0] {
        Layer::Linear(l) => {
            assert_eq!((l.attn_norm, l.qkv, l.a, l.dt_bias, l.ffn_down), (2, 3, 8, 9, 15));
            assert_eq!(l.n_ff, 3584);
        }
        _ => panic!("layer 0 is linear"),
    }
    match m.layers[3] {
        Layer::Attn(l) => {
            assert_eq!((l.attn_norm, l.q, l.k, l.v, l.ffn_down), (44, 45, 46, 47, 54));
            assert_eq!(l.n_ff, 3587);
        }
        _ => panic!("layer 3 is full attention"),
    }
}

#[test]
fn a_head_of_its_own_is_loaded() {
    let mut md = metadata();
    md.insert("qwen35.block_count".into(), MetaValue::U64(0));
    let mut t = tensors(0);
    t.push(tensor("output.weight".into(), vec![1024, 248320]));
    let loading = Model::load(&Gguf::new(md, t));
    assert_eq!(loading.loads, vec![0, 1, 2]);
    assert_eq!(loading.model.unwrap().lm_head, 2);
}

#[test]
fn a_missing_tensor_stops_loading_there() {
    let mut md = metadata();
    md.insert("qwen35.block_count".into(), MetaValue::U64(2));
    let mut t = tensors(2);
    t.retain(|x| x.name != "blk.1.ssm_a");
    let loading = Model::load(&Gguf::new(md, t));
    assert_eq!(loading.loads.len(), 2 + 14 + 6);
    match loading.model {
        Err(ModelError::MissingTensor { name }) => assert_eq!(name, "blk.1.ssm_a"),
        _ => panic!("expected a missing tensor"),
    }
}

#[test]
fn a_missing_feed_forward_stops_before_its_layer() {
    let mut md = metadata();
    md.insert("qwen35.block_count".into(), MetaValue::U64(2));
    let mut t = tensors(2);
    t.retain(|x| x.name != "blk.1.ffn_up.weight");
    let loading = Model::load(&Gguf::new(md, t));
    assert_eq!(loading.loads.len(), 2 + 14);
    assert!(matches!(loading.model, Err(ModelError::MissingFfnUp { layer: 1 })));
}

#[test]
fn a_missing_embedding_stops_at_once() {
    let loading = Model::load(&Gguf::new(metadata(), Vec::new()));
    assert!(loading.loads.is_empty());
    match loading.model {
        Err(ModelError::MissingTensor { name }) => assert_eq!(name, "token_embd.weight"),
        _ => panic!("expected a missing tensor"),
    }
}

#[test]
fn metadata_keeps_the_last_value() {
    let mut md = Metadata::new();
    md.insert("a".into(), MetaValue::U64(1));
    md.insert("b".into(), MetaValue::Str("x".into()));
    md.insert("a".into(), MetaValue::U64(2));
    assert_eq!(md.u64("a"), Some(2));
    assert_eq!(md.u64("b"), None);
    assert_eq!(md.str("b"), Some("x"));
    assert_eq!(md.str("c"), None);
    assert!(md.get("c").is_none());
    md.insert("tokenizer.chat_template".into(), MetaValue::Str("{{ x }}".into()));
    assert_eq!(Gguf::new(md, Vec::new()).chat_template(), Some("{{ x }}"));
    assert_eq!(Gguf::new(Metadata::new(), Vec::new()).chat_template(), None);
}

fn small(n_layer: u64, interval: u64) -> Metadata {
    let mut md = metadata();
    md.insert("qwen35.block_count".into(), MetaValue::U64(n_layer));
    md.insert("qwen35.full_attention_interval".into(), MetaValue::U64(interval));
    md
}

#[test]
fn a_file_is_readable_where_the_shapes_that_are_read_are() {
    let flat = |t: &mut Vec<TensorInfo>, name: &str| {
        for x in t.iter_mut() {
            if x.name == name {
                x.shape = vec![1024];
            }
        }
    };
    assert!(Model::readable(&Gguf::new(small(2, 4), tensors(2))));
    assert!(Model::readable(&Gguf::new(Metadata::new(), Vec::new())));
    let mut t = tensors(2);
    flat(&mut t, "token_embd.weight");
    assert!(!Model::readable(&Gguf::new(small(2, 4), t)));
    let mut t = tensors(2);
    flat(&mut t, "blk.1.ffn_up.weight");
    assert!(!Model::readable(&Gguf::new(small(2, 4), t)));
    // Layer 1 is not the model's.
    let mut t = tensors(2);
    flat(&mut t, "blk.1.ffn_up.weight");
    let g = Gguf::new(small(1, 4), t);
    assert!(Model::readable(&g));
    assert_eq!(Model::load(&g).model.unwrap().layers.len(), 1);
    // Loading stops in layer 0.
    let mut t = tensors(2);
    flat(&mut t, "blk.1.ffn_up.weight");
    t.retain(|x| x.name != "blk.0.ssm_a");
    let g = Gguf::new(small(2, 4), t);
    assert!(Model::readable(&g));
    match Model::load(&g).model {
        Err(ModelError::MissingTensor { name }) => assert_eq!(name, "blk.0.ssm_a"),
        _ => panic!("expected a missing tensor"),
    }
}

#[test]
fn the_interval_matters_from_the_first_layer_on() {
    assert!(!Model::readable(&Gguf::new(small(1, 0), tensors(1))));
    let none = Gguf::new(small(0, 0), tensors(0));
    assert!(Model::readable(&none));
    assert!(Model::load(&none).model.unwrap().layers.is_empty());
    let mut t = tensors(1);
    t.retain(|x| x.name != "blk.0.ffn_up.weight");
    let g = Gguf::new(small(1, 0), t);
    assert!(Model::readable(&g));
    assert!(matches!(Model::load(&g).model, Err(ModelError::MissingFfnUp { layer: 0 })));
}
