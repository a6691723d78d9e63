use infr::backend::{BufferUsage, Capabilities};
use infr::error::Error;
use infr::graph::{Activation, AttnMask, Graph, Op, TensorKind};
use infr::kv::MoeConfig;
use infr::tensor::{DType, F32Bits, TensorDesc, TensorId};

fn desc(n: usize) -> TensorDesc {
    TensorDesc { dtype: DType::F32, shape: vec![n] }
}

#[test]
fn handles_are_positions() {
    let mut g = Graph::new();
    let x = g.input(desc(1));
    let w = g.weight(desc(2));
    let t = g.internal(desc(3));
    let y = g.output(desc(4));
    assert_eq!([x, w, t, y], [TensorId(0), TensorId(1), TensorId(2), TensorId(3)]);
    assert_eq!(g.kind(x), TensorKind::Input);
    assert_eq!(g.kind(w), TensorKind::Weight);
    assert_eq!(g.kind(t), TensorKind::Internal);
    assert_eq!(g.kind(y), TensorKind::Output);
    assert_eq!(g.desc(y).shape, vec![4]);
    assert_eq!((g.inputs.clone(), g.weights.clone(), g.outputs.clone()), (vec![x], vec![w], vec![y]));
    assert_eq!(g.label(t, "scratch".to_string()), t);
    assert_eq!(g.tensors[2].label.as_deref(), Some("scratch"));
    assert_eq!(g.tensors[1].label, None);
}

#[test]
fn operations_keep_their_order() {
    let mut g = Graph::default();
    let x = g.input(desc(4));
    let y = g.output(desc(4));
    let scale = Op::Scale { x, dst: y, s: F32Bits(2.0f32.to_bits()), n: 4 };
    let add = Op::Add { a: y, b: x, dst: y, n: 4 };
    g.push(scale);
    g.push(add);
    assert_eq!(g.ops, vec![scale, add]);
    assert_ne!(AttnMask::Causal, AttnMask::SlidingWindow(8));
    assert_ne!(Activation::Silu, Activation::Gelu);
}

#[test]
fn default_capabilities_are_none() {
    let c = Capabilities::default();
    assert_eq!((c.name.as_str(), c.max_buffer_bytes), ("", 0));
    assert!(!c.half_precision && !c.cooperative_matrix && !c.unified_memory);
    assert_ne!(BufferUsage::Staging, BufferUsage::Weights);
}

#[test]
fn error_texts() {
    assert_eq!(Error::backend("lost device").message(), "backend: lost device");
    assert_eq!(Error::Loader("x".into()).message(), "loader: x");
    assert_eq!(Error::Model("x".into()).message(), "model: x");
    assert_eq!(Error::Unsupported("x".into()).message(), "unsupported: x");
    assert_eq!(Error::Aborted.message(), "aborted: shutdown requested");
    assert_eq!(Error::Io("x".into()).message(), "io: x");
    assert_eq!(Error::Other("x".into()).message(), "x");
}

#[test]
fn expert_shapes_compare() {
    let a = MoeConfig { n_expert: 16, n_used: 1, n_ff_exp: 8192, scale: F32Bits(0x3f80_0000) };
    assert_eq!(a, a);
}
