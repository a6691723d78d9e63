//! A backend-agnostic list of operations over declared tensors.
//!
//! Operations are in order, as in a command buffer: each names the tensors that it reads and the one
//! that it writes, and two may write the same tensor.
use vstd::prelude::*;

use crate::tensor::{F32Bits, TensorDesc, TensorId};

verus! {

/// What a position attends to.
#[derive(Clone, Copy, Debug, PartialEq, Eq, Structural)]
pub enum AttnMask {
    /// All earlier positions.
    Causal,
    /// The earlier positions of a window of this many tokens.
    SlidingWindow(usize),
}

/// Activation of a gated feed-forward block.
#[derive(Clone, Copy, Debug, PartialEq, Eq, Structural)]
pub enum Activation {
    Silu,
    Gelu,
}

/// Where a tensor's memory comes from.
#[derive(Clone, Copy, Debug, PartialEq, Eq, Structural)]
pub enum TensorKind {
    /// Bound for each step.
    Input,
    /// Bound from the model; read only.
    Weight,
    /// The backend's scratch.
    Internal,
    /// Scratch that is read back.
    Output,
}

/// A declared tensor.
#[derive(Clone, Debug)]
pub struct TensorDecl {
    pub desc: TensorDesc,
    pub kind: TensorKind,
    /// A name for reports.
    pub label: Option<String>,
}

/// An operation.
#[derive(Clone, Copy, Debug, PartialEq, Eq, Structural)]
pub enum Op {
    /// `dst = rmsnorm(x) * weight` over rows of `dim` elements.
    RmsNorm {
        x: TensorId,
        weight: TensorId,
        dst: TensorId,
        rows: u32,
        dim: u32,
        eps: F32Bits,
    },
    /// `dst[m, out_f] = x[m, in_f]` times the transpose of `weight`.
    Linear { x: TensorId, weight: TensorId, dst: TensorId, m: u32, in_f: u32, out_f: u32 },
    /// `RmsNorm` of each head.
    QkNorm {
        x: TensorId,
        weight: TensorId,
        dst: TensorId,
        rows: u32,
        n_head: u32,
        head_dim: u32,
        eps: F32Bits,
    },
    /// Rotary embedding of the first `rope_dim` elements of each head.
    Rope {
        x: TensorId,
        positions: TensorId,
        dst: TensorId,
        rows: u32,
        n_head: u32,
        head_dim: u32,
        rope_dim: u32,
        theta: F32Bits,
        freq_factors: Option<TensorId>,
    },
    /// Writes `rows` rows into the cache from row `pos` on.
    WriteKv { src: TensorId, cache: TensorId, rows: u32, row_stride: u32, pos: u32 },
    /// Attention of `rows` queries, the first at position `pos`, over `kv_len` cached rows.
    Attention {
        q: TensorId,
        k_cache: TensorId,
        v_cache: TensorId,
        dst: TensorId,
        rows: u32,
        kv_len: u32,
        n_head: u32,
        n_kv: u32,
        head_dim: u32,
        scale: F32Bits,
        mask: AttnMask,
        pos: u32,
    },
    /// `dst = act(gate) * up` for rows that hold gate and up side by side.
    GatedAct {
        gate_up: TensorId,
        dst: TensorId,
        rows: u32,
        nff: u32,
        act: Activation,
        up_off: u32,
    },
    /// `dst[i] = a[i] + b[i]`.
    Add { a: TensorId, b: TensorId, dst: TensorId, n: u32 },
    /// `dst[i] = x[i] * s`.
    Scale { x: TensorId, dst: TensorId, s: F32Bits, n: u32 },
    /// `dst[i] = cap * tanh(x[i] / cap)`.
    Softcap { x: TensorId, dst: TensorId, cap: F32Bits, n: u32 },
    /// Copies `n` elements.
    Copy { src: TensorId, src_off: u32, dst: TensorId, dst_off: u32, n: u32 },
}

/// Operations over declared tensors. A tensor's handle is its position.
pub struct Graph {
    pub tensors: Vec<TensorDecl>,
    pub ops: Vec<Op>,
    pub inputs: Vec<TensorId>,
    pub weights: Vec<TensorId>,
    pub outputs: Vec<TensorId>,
}

/// A declaration without a label.
pub open spec fn declared(desc: TensorDesc, kind: TensorKind) -> TensorDecl {
    TensorDecl { desc, kind, label: None }
}

/// A new tensor has the description and the kind that it was declared with, and no name.
pub proof fn law_declared(desc: TensorDesc, kind: TensorKind)
    ensures
        declared(desc, kind).desc == desc,
        declared(desc, kind).kind == kind,
        declared(desc, kind).label is None,
{
}

/// The lists of a valid graph: a tensor stands in the list of its kind if and only if it was declared as
/// that kind, and in no other.
pub proof fn law_lists(g: Graph, t: u32)
    requires
        g.wf(),
        t < g.tensors@.len(),
    ensures
        g.inputs@.contains(TensorId(t)) <==> g.tensors@[t as int].kind == TensorKind::Input,
        g.weights@.contains(TensorId(t)) <==> g.tensors@[t as int].kind == TensorKind::Weight,
        g.outputs@.contains(TensorId(t)) <==> g.tensors@[t as int].kind == TensorKind::Output,
{
    let k = g.tensors@[t as int].kind;
    if g.inputs@.contains(TensorId(t)) {
        let i = choose|i: int| 0 <= i < g.inputs@.len() && g.inputs@[i] == TensorId(t);
        assert(g.tensors@[g.inputs@[i].0 as int].kind == TensorKind::Input);
    }
    if g.weights@.contains(TensorId(t)) {
        let i = choose|i: int| 0 <= i < g.weights@.len() && g.weights@[i] == TensorId(t);
        assert(g.tensors@[g.weights@[i].0 as int].kind == TensorKind::Weight);
    }
    if g.outputs@.contains(TensorId(t)) {
        let i = choose|i: int| 0 <= i < g.outputs@.len() && g.outputs@[i] == TensorId(t);
        assert(g.tensors@[g.outputs@[i].0 as int].kind == TensorKind::Output);
    }
}

/// Whether `ids` are exactly the tensors declared as `kind`, each once, in the order of their
/// declarations.
pub open spec fn lists(tensors: Seq<TensorDecl>, ids: Seq<TensorId>, kind: TensorKind) -> bool {
    &&& forall|i: int|
        0 <= i < ids.len() ==> (#[trigger] ids[i]).0 < tensors.len() && tensors[ids[i].0 as int].kind
            == kind
    &&& forall|i: int, j: int|
        0 <= i < j < ids.len() ==> (#[trigger] ids[i]).0 < (#[trigger] ids[j]).0
    &&& forall|t: int|
        0 <= t < tensors.len() && (#[trigger] tensors[t]).kind == kind ==> ids.contains(
            TensorId(t as u32),
        )
}

/// Declaring a tensor of another kind leaves a list as it is; one of its own kind goes to its end.
proof fn lemma_declared(
    tensors: Seq<TensorDecl>,
    t: TensorDecl,
    ids: Seq<TensorId>,
    kind: TensorKind,
)
    requires
        lists(tensors, ids, kind),
        tensors.len() <= u32::MAX,
    ensures
        t.kind != kind ==> lists(tensors.push(t), ids, kind),
        t.kind == kind ==> lists(tensors.push(t), ids.push(TensorId(tensors.len() as u32)), kind),
{
    let n = tensors.len() as int;
    let more = ids.push(TensorId(n as u32));
    assert forall|k: int|
        0 <= k < n + 1 && (#[trigger] tensors.push(t)[k]).kind == kind && t.kind
            == kind implies more.contains(TensorId(k as u32)) by {
        if k < n {
            assert(tensors[k].kind == kind);
            let i = choose|i: int| 0 <= i < ids.len() && ids[i] == TensorId(k as u32);
            assert(more[i] == TensorId(k as u32));
        } else {
            assert(more[ids.len() as int] == TensorId(k as u32));
        }
    }
    assert forall|k: int|
        0 <= k < n + 1 && (#[trigger] tensors.push(t)[k]).kind == kind && t.kind
            != kind implies ids.contains(TensorId(k as u32)) by {
        assert(tensors[k].kind == kind);
    }
}

impl Default for Graph {
    fn default() -> (r: Graph)
        ensures
            r.tensors@.len() == 0,
            r.ops@.len() == 0,
            r.inputs@.len() == 0,
            r.weights@.len() == 0,
            r.outputs@.len() == 0,
    {
        Graph {
            tensors: Vec::new(),
            ops: Vec::new(),
            inputs: Vec::new(),
            weights: Vec::new(),
            outputs: Vec::new(),
        }
    }
}

impl Graph {
    /// The lists hold exactly the inputs, the weights and the outputs, in the order of their
    /// declarations.
    pub open spec fn wf(&self) -> bool {
        &&& lists(self.tensors@, self.inputs@, TensorKind::Input)
        &&& lists(self.tensors@, self.weights@, TensorKind::Weight)
        &&& lists(self.tensors@, self.outputs@, TensorKind::Output)
    }

    /// A graph without tensors and operations.
    pub fn new() -> (r: Graph)
        ensures
            r.wf(),
            r.tensors@.len() == 0,
            r.ops@.len() == 0,
            r.inputs@.len() == 0,
            r.weights@.len() == 0,
            r.outputs@.len() == 0,
    {
        Graph::default()
    }

    fn decl(&mut self, desc: TensorDesc, kind: TensorKind) -> (r: TensorId)
        ensures
            r == TensorId(old(self).tensors@.len() as u32),
            final(self).tensors@ == old(self).tensors@.push(declared(desc, kind)),
            final(self).ops == old(self).ops,
            final(self).inputs == old(self).inputs,
            final(self).weights == old(self).weights,
            final(self).outputs == old(self).outputs,
    {
        let id = TensorId(self.tensors.len() as u32);
        self.tensors.push(TensorDecl { desc, kind, label: None });
        id
    }

    /// Declares a tensor that is bound for each step.
    pub fn input(&mut self, desc: TensorDesc) -> (r: TensorId)
        ensures
            r == TensorId(old(self).tensors@.len() as u32),
            final(self).tensors@ == old(self).tensors@.push(declared(desc, TensorKind::Input)),
            final(self).ops == old(self).ops,
            final(self).inputs@ == old(self).inputs@.push(r),
            final(self).weights == old(self).weights,
            final(self).outputs == old(self).outputs,
            old(self).wf() && old(self).tensors@.len() <= u32::MAX ==> final(self).wf(),
    {
        let id = self.decl(desc, TensorKind::Input);
        self.inputs.push(id);
        proof {
            if old(self).wf() && old(self).tensors@.len() <= u32::MAX {
                let t = declared(desc, TensorKind::Input);
                lemma_declared(old(self).tensors@, t, old(self).inputs@, TensorKind::Input);
                lemma_declared(old(self).tensors@, t, old(self).weights@, TensorKind::Weight);
                lemma_declared(old(self).tensors@, t, old(self).outputs@, TensorKind::Output);
            }
        }
        id
    }

    /// Declares a weight.
    pub fn weight(&mut self, desc: TensorDesc) -> (r: TensorId)
        ensures
            r == TensorId(old(self).tensors@.len() as u32),
            final(self).tensors@ == old(self).tensors@.push(declared(desc, TensorKind::Weight)),
            final(self).ops == old(self).ops,
            final(self).inputs == old(self).inputs,
            final(self).weights@ == old(self).weights@.push(r),
            final(self).outputs == old(self).outputs,
            old(self).wf() && old(self).tensors@.len() <= u32::MAX ==> final(self).wf(),
    {
        let id = self.decl(desc, TensorKind::Weight);
        self.weights.push(id);
        proof {
            if old(self).wf() && old(self).tensors@.len() <= u32::MAX {
                let t = declared(desc, TensorKind::Weight);
                lemma_declared(old(self).tensors@, t, old(self).inputs@, TensorKind::Input);
                lemma_declared(old(self).tensors@, t, old(self).weights@, TensorKind::Weight);
                lemma_declared(old(self).tensors@, t, old(self).outputs@, TensorKind::Output);
            }
        }
        id
    }

    /// Declares scratch.
    pub fn internal(&mut self, desc: TensorDesc) -> (r: TensorId)
        ensures
            r == TensorId(old(self).tensors@.len() as u32),
            final(self).tensors@ == old(self).tensors@.push(declared(desc, TensorKind::Internal)),
            final(self).ops == old(self).ops,
            final(self).inputs == old(self).inputs,
            final(self).weights == old(self).weights,
            final(self).outputs == old(self).outputs,
            old(self).wf() && old(self).tensors@.len() <= u32::MAX ==> final(self).wf(),
    {
        let id = self.decl(desc, TensorKind::Internal);
        proof {
            if old(self).wf() && old(self).tensors@.len() <= u32::MAX {
                let t = declared(desc, TensorKind::Internal);
                lemma_declared(old(self).tensors@, t, old(self).inputs@, TensorKind::Input);
                lemma_declared(old(self).tensors@, t, old(self).weights@, TensorKind::Weight);
                lemma_declared(old(self).tensors@, t, old(self).outputs@, TensorKind::Output);
            }
        }
        id
    }

    /// Declares scratch that is read back.
    pub fn output(&mut self, desc: TensorDesc) -> (r: TensorId)
        ensures
            r == TensorId(old(self).tensors@.len() as u32),
            final(self).tensors@ == old(self).tensors@.push(declared(desc, TensorKind::Output)),
            final(self).ops == old(self).ops,
            final(self).inputs == old(self).inputs,
            final(self).weights == old(self).weights,
            final(self).outputs@ == old(self).outputs@.push(r),
            old(self).wf() && old(self).tensors@.len() <= u32::MAX ==> final(self).wf(),
    {
        let id = self.decl(desc, TensorKind::Output);
        self.outputs.push(id);
        proof {
            if old(self).wf() && old(self).tensors@.len() <= u32::MAX {
                let t = declared(desc, TensorKind::Output);
                lemma_declared(old(self).tensors@, t, old(self).inputs@, TensorKind::Input);
                lemma_declared(old(self).tensors@, t, old(self).weights@, TensorKind::Weight);
                lemma_declared(old(self).tensors@, t, old(self).outputs@, TensorKind::Output);
            }
        }
        id
    }

    /// Names a tensor.
    pub fn label(&mut self, id: TensorId, label: String) -> (r: TensorId)
        requires
            id.0 < old(self).tensors@.len(),
        ensures
            r == id,
            final(self).tensors@ == old(self).tensors@.update(
                id.0 as int,
                (TensorDecl { label: Some(label), ..old(self).tensors@[id.0 as int] }),
            ),
            final(self).ops == old(self).ops,
            final(self).inputs == old(self).inputs,
            final(self).weights == old(self).weights,
            final(self).outputs == old(self).outputs,
            old(self).wf() ==> final(self).wf(),
    {
        let i: usize = id.0 as usize;
        self.tensors[i].label = Some(label);
        id
    }

    /// Appends an operation.
    pub fn push(&mut self, op: Op)
        ensures
            final(self).tensors == old(self).tensors,
            final(self).ops@ == old(self).ops@.push(op),
            final(self).inputs == old(self).inputs,
            final(self).weights == old(self).weights,
            final(self).outputs == old(self).outputs,
            old(self).wf() ==> final(self).wf(),
    {
        self.ops.push(op);
    }

    pub fn desc(&self, id: TensorId) -> (r: &TensorDesc)
        requires
            id.0 < self.tensors@.len(),
        ensures
            *r == self.tensors@[id.0 as int].desc,
    {
        &self.tensors[id.0 as usize].desc
    }

    pub fn kind(&self, id: TensorId) -> (r: TensorKind)
        requires
            id.0 < self.tensors@.len(),
        ensures
            r == self.tensors@[id.0 as int].kind,
    {
        self.tensors[id.0 as usize].kind
    }
}

/// A new tensor's handle is that of no other: it is past all handles so far, and asking for its
/// declaration gives what was declared; the declarations so far stay.
pub proof fn law_new_handle(tensors: Seq<TensorDecl>, t: TensorDecl, other: TensorId)
    requires
        tensors.len() <= u32::MAX,
        other.0 < tensors.len(),
    ensures
        TensorId(tensors.len() as u32) != other,
        tensors.push(t)[(tensors.len() as u32) as int] == t,
        tensors.push(t)[other.0 as int] == tensors[other.0 as int],
{
}

} // verus!
