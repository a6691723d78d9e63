//! How a weight is stored on the device, how much room a model's weights take there, and the
//! projections that read them.
use vstd::prelude::*;

use crate::bytes::put_bytes;
use crate::gguf::Gguf;
use crate::gguf::{law_tensor_index, tensor_index, TensorInfo};
use crate::tensor::{element_count, DType};
use crate::tensor::{numel, numel_fits};
use crate::text::{contains_text, same_text};
use crate::text::{decimal, holds_text, law_holds_text};

verus! {

/// A projection weight on the device. `B` is the caller's buffer handle.
#[derive(Clone, Copy, Debug, PartialEq, Eq)]
pub enum Wt<B> {
    /// Half-precision floats.
    F16(B),
    /// The file's own blocks, which a kernel decodes.
    Native { buf: B, dtype: DType },
}

/// What to send to the device for a weight.
#[derive(Debug)]
pub enum WtUpload {
    /// These bytes: the file's blocks, padded.
    Native { padded: Vec<u8>, dtype: DType },
    /// The elements as half-precision floats, two bytes each.
    F16 { dtype: DType },
}

/// Whether kernels decode blocks of `dtype`: they do for every quantized format.
pub fn native_dense_supported(dtype: DType) -> (r: bool)
    ensures
        r == dtype.quantized(),
{
    dtype.is_quantized()
}

/// `n` rounded up to a multiple of 4.
pub open spec fn padded_len(n: nat) -> nat {
    (n + 3) / 4 * 4
}

/// `bytes` with zeros behind it, up to a whole number of 32-bit words.
pub fn pad_to_u32_align(bytes: &[u8]) -> (r: Vec<u8>)
    requires
        bytes@.len() + 3 <= usize::MAX,
    ensures
        r@.len() == padded_len(bytes@.len()),
        r@.take(bytes@.len() as int) == bytes@,
        forall|i: int| bytes@.len() <= i < r@.len() ==> #[trigger] r@[i] == 0,
{
    let mut out: Vec<u8> = Vec::new();
    put_bytes(&mut out, bytes);
    assert(out@ =~= bytes@);
    while out.len() % 4 != 0
        invariant
            bytes@.len() <= out@.len() <= padded_len(bytes@.len()),
            bytes@.len() + 3 <= usize::MAX,
            out@.take(bytes@.len() as int) == bytes@,
            forall|i: int| bytes@.len() <= i < out@.len() ==> #[trigger] out@[i] == 0,
        decreases padded_len(bytes@.len()) - out@.len(),
    {
        out.push(0);
        assert(out@.take(bytes@.len() as int) =~= bytes@);
    }
    out
}

/// The first tensor named `name`: its position and element type.
pub fn upload_wt(g: &Gguf, name: &str) -> (r: Option<(usize, DType)>)
    ensures
        match r {
            Some((p, dtype)) => tensor_index(g.dir(), name@) == Some(p as int) && dtype
                == g.dir()[p as int].dtype,
            None => tensor_index(g.dir(), name@) is None,
        },
{
    match g.find(name) {
        Some(p) => Some((p, g.tensors()[p].dtype)),
        None => None,
    }
}

/// What to send for a weight of `dtype` that the file holds as `bytes`.
pub fn upload_wt_bytes(dtype: DType, bytes: &[u8]) -> (r: WtUpload)
    requires
        bytes@.len() + 3 <= usize::MAX,
    ensures
        match r {
            WtUpload::Native { padded, dtype: d } => {
                &&& dtype.quantized()
                &&& d == dtype
                &&& padded@.len() == padded_len(bytes@.len())
                &&& padded@.take(bytes@.len() as int) == bytes@
                &&& forall|i: int| bytes@.len() <= i < padded@.len() ==> #[trigger] padded@[i] == 0
            },
            WtUpload::F16 { dtype: d } => !dtype.quantized() && d == dtype,
        },
{
    if native_dense_supported(dtype) {
        WtUpload::Native { padded: pad_to_u32_align(bytes), dtype }
    } else {
        WtUpload::F16 { dtype }
    }
}

/// A recorded device command.
#[derive(Clone, Copy, Debug, PartialEq, Eq)]
pub enum Command<B> {
    /// `y[rows, out_f] = x[rows, in_f]` times the transpose of `w`.
    Linear { w: B, x: B, y: B, rows: usize, in_f: usize, out_f: usize },
    /// The same, with `w` in blocks of `dtype`.
    LinearNative { dtype: DType, w: B, x: B, y: B, rows: usize, in_f: usize, out_f: usize },
    /// `Linear`, with `residual` added.
    LinearAdd { w: B, x: B, residual: B, y: B, rows: usize, in_f: usize, out_f: usize },
    /// `LinearNative`, with `residual` added.
    LinearAddNative {
        dtype: DType,
        w: B,
        x: B,
        residual: B,
        y: B,
        rows: usize,
        in_f: usize,
        out_f: usize,
    },
    /// `act = silu(gate) * up` for rows that hold gate and up side by side.
    SiluMulFused { gate_up: B, act: B, rows: usize, n_ff: usize },
    /// `act = silu(gate) * up` over `n` elements.
    SiluMul { gate: B, up: B, act: B, n: usize },
}

/// The projection of `x` by `w` into `y`.
pub open spec fn linear<B>(w: Wt<B>, x: B, y: B, rows: usize, in_f: usize, out_f: usize) -> Command<
    B,
> {
    match w {
        Wt::F16(b) => Command::Linear { w: b, x, y, rows, in_f, out_f },
        Wt::Native { buf, dtype } => Command::LinearNative {
            dtype,
            w: buf,
            x,
            y,
            rows,
            in_f,
            out_f,
        },
    }
}

/// The projection of `x` by `w`, with `residual` added, into `y`.
pub open spec fn linear_add<B>(
    w: Wt<B>,
    x: B,
    residual: B,
    y: B,
    rows: usize,
    in_f: usize,
    out_f: usize,
) -> Command<B> {
    match w {
        Wt::F16(b) => Command::LinearAdd { w: b, x, residual, y, rows, in_f, out_f },
        Wt::Native { buf, dtype } => Command::LinearAddNative {
            dtype,
            w: buf,
            x,
            residual,
            y,
            rows,
            in_f,
            out_f,
        },
    }
}

/// Records `y = x` times the transpose of `w`, whichever way `w` is stored.
pub fn rec_linear<B: Copy>(
    rec: &mut Vec<Command<B>>,
    w: Wt<B>,
    x: B,
    y: B,
    rows: usize,
    in_f: usize,
    out_f: usize,
)
    ensures
        final(rec)@ == old(rec)@.push(linear(w, x, y, rows, in_f, out_f)),
{
    match w {
        Wt::F16(b) => {
            rec.push(Command::Linear { w: b, x, y, rows, in_f, out_f });
        },
        Wt::Native { buf, dtype } => {
            rec.push(Command::LinearNative { dtype, w: buf, x, y, rows, in_f, out_f });
        },
    }
}

/// Records `y = x` times the transpose of `w`, plus `residual`, whichever way `w` is stored.
pub fn rec_linear_add<B: Copy>(
    rec: &mut Vec<Command<B>>,
    w: Wt<B>,
    x: B,
    residual: B,
    y: B,
    rows: usize,
    in_f: usize,
    out_f: usize,
)
    ensures
        final(rec)@ == old(rec)@.push(linear_add(w, x, residual, y, rows, in_f, out_f)),
{
    match w {
        Wt::F16(b) => {
            rec.push(Command::LinearAdd { w: b, x, residual, y, rows, in_f, out_f });
        },
        Wt::Native { buf, dtype } => {
            rec.push(
                Command::LinearAddNative { dtype, w: buf, x, residual, y, rows, in_f, out_f },
            );
        },
    }
}

/// Bytes that a model's weights take on the device, experts apart.
#[derive(Clone, Copy, Debug, PartialEq, Eq, Structural)]
pub struct WeightFootprint {
    /// Weights that are always resident.
    pub dense: u64,
    /// Expert weights; 0 for a model without experts.
    pub expert: u64,
}

impl WeightFootprint {
    /// Bytes with every expert resident.
    pub fn total(&self) -> (r: u64)
        requires
            self.dense + self.expert <= u64::MAX,
        ensures
            r == self.dense + self.expert,
    {
        self.dense + self.expert
    }

    /// Bytes with the experts streamed through `n_slots` slots of `stride` bytes, however many
    /// experts there are.
    pub fn streaming_total(&self, n_slots: usize, stride: usize) -> (r: u64)
        requires
            self.dense + n_slots * stride <= u64::MAX,
        ensures
            r == self.dense + n_slots * stride,
    {
        assert(n_slots * stride >= 0) by (nonlinear_arith);
        self.dense + n_slots as u64 * stride as u64
    }
}

/// Bytes that a tensor takes on the device: its blocks, padded, or two bytes for each element.
pub open spec fn resident_bytes(dtype: DType, numel: int, nbytes: nat) -> int {
    if dtype.quantized() {
        padded_len(nbytes) as int
    } else {
        numel * 2
    }
}

/// Bytes that a tensor of `numel` elements and `nbytes` file bytes takes on the device.
pub fn tensor_resident_bytes(dtype: DType, numel: usize, nbytes: usize) -> (r: u64)
    requires
        dtype.quantized() ==> nbytes + 3 <= usize::MAX,
        !dtype.quantized() ==> numel * 2 <= usize::MAX,
    ensures
        r == resident_bytes(dtype, numel as int, nbytes as nat),
{
    if native_dense_supported(dtype) {
        ((nbytes + 3) / 4 * 4) as u64
    } else {
        (numel * 2) as u64
    }
}

/// Bytes that are sent for a weight: what `upload_wt_bytes` says.
pub open spec fn sent_bytes(upload: WtUpload, numel: int) -> int {
    match upload {
        WtUpload::Native { padded, .. } => padded@.len() as int,
        WtUpload::F16 { .. } => numel * 2,
    }
}

/// The room that is counted for a tensor is what is sent for it, and no less than the file holds of
/// a quantized one: at most three bytes more.
pub proof fn law_counted_is_sent(dtype: DType, bytes: Seq<u8>, elements: int, upload: WtUpload)
    requires
        match upload {
            WtUpload::Native { padded, .. } => dtype.quantized() && padded@.len() == padded_len(
                bytes.len(),
            ),
            WtUpload::F16 { .. } => !dtype.quantized(),
        },
    ensures
        sent_bytes(upload, elements) == resident_bytes(dtype, elements, bytes.len()),
        dtype.quantized() ==> bytes.len() <= resident_bytes(dtype, elements, bytes.len())
            <= bytes.len() + 3,
        dtype.quantized() ==> resident_bytes(dtype, elements, bytes.len()) % 4 == 0,
{
}

/// Whether a tensor is a stack of experts.
pub open spec fn is_expert(name: Seq<char>) -> bool {
    holds_text(name, "_exps"@)
}

/// Whether the model has a head of its own.
pub open spec fn has_head(dir: Seq<TensorInfo>) -> bool {
    tensor_index(dir, "output.weight"@) is Some
}

/// What tensor `t` adds to the dense weights.
pub open spec fn dense_part(t: TensorInfo, has_output: bool) -> int {
    if t.name@ == "token_embd.weight"@ {
        if has_output {
            0
        } else {
            numel(t.shape@) * 2
        }
    } else if is_expert(t.name@) {
        0
    } else {
        resident_bytes(t.dtype, numel(t.shape@), t.nbytes as nat)
    }
}

/// What tensor `t` adds to the expert weights.
pub open spec fn expert_part(t: TensorInfo) -> int {
    if t.name@ != "token_embd.weight"@ && is_expert(t.name@) {
        resident_bytes(t.dtype, numel(t.shape@), t.nbytes as nat)
    } else {
        0
    }
}

/// Dense weights of the tensors `dir` of a model.
pub open spec fn dense_sum(dir: Seq<TensorInfo>, has_output: bool) -> int
    decreases dir.len(),
{
    if dir.len() == 0 {
        0
    } else {
        dense_sum(dir.drop_last(), has_output) + dense_part(dir.last(), has_output)
    }
}

/// Expert weights of the tensors `dir` of a model.
pub open spec fn expert_sum(dir: Seq<TensorInfo>) -> int
    decreases dir.len(),
{
    if dir.len() == 0 {
        0
    } else {
        expert_sum(dir.drop_last()) + expert_part(dir.last())
    }
}

/// Whether the sizes that are computed of tensor `t` stay within `usize`.
pub open spec fn sizes_fit(t: TensorInfo, has_output: bool) -> bool {
    &&& numel_fits(t.shape@)
    &&& if t.name@ == "token_embd.weight"@ {
        !has_output ==> numel(t.shape@) * 2 <= usize::MAX
    } else if t.dtype.quantized() {
        t.nbytes + 3 <= usize::MAX
    } else {
        numel(t.shape@) * 2 <= usize::MAX
    }
}

/// Parts and sums are not negative, and a sum over fewer tensors is no larger.
proof fn lemma_sums(dir: Seq<TensorInfo>, has_output: bool, k: int)
    requires
        0 <= k <= dir.len(),
    ensures
        0 <= dense_sum(dir.take(k), has_output) <= dense_sum(dir, has_output),
        0 <= expert_sum(dir.take(k)) <= expert_sum(dir),
    decreases dir.len(),
{
    if k < dir.len() {
        lemma_numel(dir.last().shape@);
        lemma_sums(dir.drop_last(), has_output, k);
        assert(dir.drop_last().take(k) =~= dir.take(k));
    } else {
        assert(dir.take(k) =~= dir);
        if k > 0 {
            lemma_numel(dir.last().shape@);
            lemma_sums(dir.drop_last(), has_output, k - 1);
            assert(dir.drop_last().take(k - 1) =~= dir.drop_last());
        }
    }
}

proof fn lemma_numel(shape: Seq<usize>)
    ensures
        numel(shape) >= 0,
    decreases shape.len(),
{
    if shape.len() > 0 {
        lemma_numel(shape.drop_last());
        assert(numel(shape.drop_last()) * shape.last() >= 0) by (nonlinear_arith)
            requires
                numel(shape.drop_last()) >= 0,
                shape.last() >= 0,
        ;
    }
}

/// Sizes that fit make a part that fits; and where the elements can be counted, a part with three bytes to
/// spare is made of sizes that fit.
pub proof fn law_sizes_fit(t: TensorInfo, has_output: bool)
    ensures
        sizes_fit(t, has_output) ==> dense_part(t, has_output) + expert_part(t) <= usize::MAX,
        sizes_fit(t, has_output) ==> numel_fits(t.shape@),
        numel_fits(t.shape@) && dense_part(t, has_output) + expert_part(t) <= usize::MAX - 3
            ==> sizes_fit(t, has_output),
{
}

/// Padding goes to the next whole word and no further.
pub proof fn law_padded_len(n: nat)
    ensures
        n <= padded_len(n) < n + 4,
        padded_len(n) % 4 == 0,
{
}

/// What a tensor takes on the device: a quantized one its file's bytes, up to the next whole word; any
/// other two bytes for each element.
pub proof fn law_resident_bytes(dtype: DType, elements: int, nbytes: nat)
    ensures
        dtype.quantized() ==> nbytes <= resident_bytes(dtype, elements, nbytes) < nbytes + 4,
        dtype.quantized() ==> resident_bytes(dtype, elements, nbytes) % 4 == 0,
        !dtype.quantized() ==> resident_bytes(dtype, elements, nbytes) == elements + elements,
{
}

/// A tensor is a stack of experts if and only if `_exps` stands somewhere in its name.
pub proof fn law_expert_names(name: Seq<char>)
    ensures
        is_expert(name) <==> exists|a: Seq<char>, b: Seq<char>|
            name == #[trigger] (a + "_exps"@ + b),
{
    law_holds_text(name, "_exps"@);
}

/// In every layer the four stacks of the feed-forward part, the fused one among them, are stacks of experts.
pub proof fn law_expert_stacks(layer: nat)
    ensures
        is_expert("blk."@ + decimal(layer) + ".ffn_gate_exps.weight"@),
        is_expert("blk."@ + decimal(layer) + ".ffn_up_exps.weight"@),
        is_expert("blk."@ + decimal(layer) + ".ffn_down_exps.weight"@),
        is_expert("blk."@ + decimal(layer) + ".ffn_gate_up_exps.weight"@),
{
    let blk = "blk."@ + decimal(layer);
    reveal_strlit("_exps");
    reveal_strlit(".weight");
    reveal_strlit(".ffn_gate_exps.weight");
    reveal_strlit(".ffn_up_exps.weight");
    reveal_strlit(".ffn_down_exps.weight");
    reveal_strlit(".ffn_gate_up_exps.weight");
    reveal_strlit(".ffn_gate");
    reveal_strlit(".ffn_up");
    reveal_strlit(".ffn_down");
    reveal_strlit(".ffn_gate_up");
    assert(blk + ".ffn_gate_exps.weight"@ =~= (blk + ".ffn_gate"@) + "_exps"@ + ".weight"@);
    assert(blk + ".ffn_up_exps.weight"@ =~= (blk + ".ffn_up"@) + "_exps"@ + ".weight"@);
    assert(blk + ".ffn_down_exps.weight"@ =~= (blk + ".ffn_down"@) + "_exps"@ + ".weight"@);
    assert(blk + ".ffn_gate_up_exps.weight"@ =~= (blk + ".ffn_gate_up"@) + "_exps"@ + ".weight"@);
    law_expert_names(blk + ".ffn_gate_exps.weight"@);
    law_expert_names(blk + ".ffn_up_exps.weight"@);
    law_expert_names(blk + ".ffn_down_exps.weight"@);
    law_expert_names(blk + ".ffn_gate_up_exps.weight"@);
}

/// What one more tensor adds. The embedding adds two bytes for each element to the dense weights where
/// the model has no head of its own, and nothing where it has one. Any other tensor adds what it takes on
/// the device: to the expert weights alone where `_exps` stands in its name, and else to the dense weights
/// alone.
pub proof fn law_one_more_tensor(dir: Seq<TensorInfo>, t: TensorInfo, has_output: bool)
    ensures
        ({
            let dense = dense_sum(dir.push(t), has_output) - dense_sum(dir, has_output);
            let expert = expert_sum(dir.push(t)) - expert_sum(dir);
            let takes = resident_bytes(t.dtype, numel(t.shape@), t.nbytes as nat);
            let stack = exists|a: Seq<char>, b: Seq<char>|
                t.name@ == #[trigger] (a + "_exps"@ + b);
            if t.name@ == "token_embd.weight"@ {
                &&& expert == 0
                &&& has_output ==> dense == 0
                &&& !has_output ==> dense == 2 * numel(t.shape@)
            } else if stack {
                expert == takes && dense == 0
            } else {
                expert == 0 && dense == takes
            }
        }),
        dense_sum(Seq::empty(), has_output) == 0,
        expert_sum(Seq::empty()) == 0,
{
    law_expert_names(t.name@);
    assert(dir.push(t).drop_last() =~= dir);
}

/// A model has a head of its own if and only if a tensor of that name is in its directory.
pub proof fn law_has_head(dir: Seq<TensorInfo>)
    ensures
        has_head(dir) <==> exists|i: int|
            0 <= i < dir.len() && (#[trigger] dir[i]).name@ == "output.weight"@,
{
    law_tensor_index(dir, "output.weight"@);
}

/// A projection reads the weight's own buffer and the input, and writes the output, at the sizes given; a
/// quantized weight goes to the kernel that decodes its format, with or without a residual.
pub proof fn law_projections<B>(
    b: B,
    dtype: DType,
    x: B,
    residual: B,
    y: B,
    rows: usize,
    in_f: usize,
    out_f: usize,
)
    ensures
        linear(Wt::F16(b), x, y, rows, in_f, out_f) == (Command::Linear {
            w: b,
            x,
            y,
            rows,
            in_f,
            out_f,
        }),
        linear(Wt::Native { buf: b, dtype }, x, y, rows, in_f, out_f) == (Command::LinearNative {
            dtype,
            w: b,
            x,
            y,
            rows,
            in_f,
            out_f,
        }),
        linear_add(Wt::F16(b), x, residual, y, rows, in_f, out_f) == (Command::LinearAdd {
            w: b,
            x,
            residual,
            y,
            rows,
            in_f,
            out_f,
        }),
        linear_add(Wt::Native { buf: b, dtype }, x, residual, y, rows, in_f, out_f) == (
        Command::LinearAddNative { dtype, w: b, x, residual, y, rows, in_f, out_f }),
{
}

/// A model without expert stacks has no expert weights.
pub proof fn law_dense_model_has_no_experts(dir: Seq<TensorInfo>)
    requires
        forall|i: int| 0 <= i < dir.len() ==> !is_expert((#[trigger] dir[i]).name@),
    ensures
        expert_sum(dir) == 0,
    decreases dir.len(),
{
    if dir.len() > 0 {
        assert(!is_expert(dir[dir.len() - 1].name@));
        assert forall|i: int| 0 <= i < dir.drop_last().len() implies !is_expert(
            (#[trigger] dir.drop_last()[i]).name@,
        ) by {
            assert(dir.drop_last()[i] == dir[i]);
        }
        law_dense_model_has_no_experts(dir.drop_last());
    }
}

/// What tensor `t` adds to all weights: the embedding counts only where it is taken for the head.
pub open spec fn weight_part(t: TensorInfo, has_output: bool) -> int {
    if t.name@ == "token_embd.weight"@ {
        if has_output {
            0
        } else {
            numel(t.shape@) * 2
        }
    } else {
        resident_bytes(t.dtype, numel(t.shape@), t.nbytes as nat)
    }
}

/// All weights of the tensors `dir` of a model.
pub open spec fn weight_sum(dir: Seq<TensorInfo>, has_output: bool) -> int
    decreases dir.len(),
{
    if dir.len() == 0 {
        0
    } else {
        weight_sum(dir.drop_last(), has_output) + weight_part(dir.last(), has_output)
    }
}

/// Dense and expert weights together are the weights of all tensors, each counted once.
pub proof fn law_total_counts_each_tensor(dir: Seq<TensorInfo>, has_output: bool)
    ensures
        dense_sum(dir, has_output) + expert_sum(dir) == weight_sum(dir, has_output),
    decreases dir.len(),
{
    if dir.len() > 0 {
        law_total_counts_each_tensor(dir.drop_last(), has_output);
    }
}

/// Taking a tensor out of the directory takes its part out of each sum.
proof fn lemma_sums_remove(dir: Seq<TensorInfo>, has_output: bool, i: int)
    requires
        0 <= i < dir.len(),
    ensures
        dense_sum(dir, has_output) == dense_sum(dir.remove(i), has_output) + dense_part(
            dir[i],
            has_output,
        ),
        expert_sum(dir) == expert_sum(dir.remove(i)) + expert_part(dir[i]),
    decreases dir.len(),
{
    let last = dir.len() - 1;
    if i == last {
        assert(dir.remove(i) =~= dir.drop_last());
    } else {
        lemma_sums_remove(dir.drop_last(), has_output, i);
        assert(dir.remove(i).drop_last() =~= dir.drop_last().remove(i));
        assert(dir.remove(i).last() == dir.last());
    }
}

/// Sums over two orders of the same tensors are equal.
proof fn lemma_sums_reordered(a: Seq<TensorInfo>, b: Seq<TensorInfo>, has_output: bool)
    requires
        a.to_multiset() == b.to_multiset(),
    ensures
        dense_sum(a, has_output) == dense_sum(b, has_output),
        expert_sum(a) == expert_sum(b),
    decreases a.len(),
{
    broadcast use vstd::seq_lib::group_to_multiset_ensures;

    assert(a.len() == a.to_multiset().len());
    assert(b.len() == b.to_multiset().len());
    if a.len() > 0 {
        let t = a.last();
        let n = a.len() - 1;
        assert(a.contains(t)) by {
            assert(a[n] == t);
        }
        assert(b.to_multiset().count(t) > 0);
        assert(b.contains(t));
        let i = choose|i: int| 0 <= i < b.len() && b[i] == t;
        assert(a.remove(n) =~= a.drop_last());
        assert(a.drop_last().to_multiset() =~= b.remove(i).to_multiset());
        lemma_sums_reordered(a.drop_last(), b.remove(i), has_output);
        lemma_sums_remove(a, has_output, n);
        lemma_sums_remove(b, has_output, i);
    }
}

/// A model's weights do not depend on the order of its directory: neither whether it has a head of its
/// own, nor the dense weights, nor the expert weights.
pub proof fn law_footprint_ignores_order(a: Seq<TensorInfo>, b: Seq<TensorInfo>)
    requires
        a.to_multiset() == b.to_multiset(),
    ensures
        has_head(a) == has_head(b),
        dense_sum(a, has_head(a)) == dense_sum(b, has_head(b)),
        expert_sum(a) == expert_sum(b),
{
    lemma_head_reordered(a, b);
    lemma_head_reordered(b, a);
    lemma_sums_reordered(a, b, has_head(a));
}

proof fn lemma_head_reordered(a: Seq<TensorInfo>, b: Seq<TensorInfo>)
    requires
        a.to_multiset() == b.to_multiset(),
    ensures
        has_head(a) ==> has_head(b),
{
    broadcast use vstd::seq_lib::group_to_multiset_ensures;

    let name = "output.weight"@;
    law_tensor_index(a, name);
    law_tensor_index(b, name);
    if has_head(a) {
        let t = a[tensor_index(a, name)->0];
        assert(a.contains(t));
        assert(b.to_multiset().count(t) > 0);
        assert(b.contains(t));
        let i = choose|i: int| 0 <= i < b.len() && b[i] == t;
        assert(b[i].name@ == name);
    }
}

/// Bytes that a model's weights take on the device. The embedding stays on the host, unless the
/// model has no head of its own and takes the embedding for it.
pub fn weight_footprint(g: &Gguf) -> (r: WeightFootprint)
    requires
        forall|i: int|
            0 <= i < g.dir().len() ==> sizes_fit(#[trigger] g.dir()[i], has_head(g.dir())),
        dense_sum(g.dir(), has_head(g.dir())) <= u64::MAX,
        expert_sum(g.dir()) <= u64::MAX,
    ensures
        r.dense == dense_sum(g.dir(), has_head(g.dir())),
        r.expert == expert_sum(g.dir()),
{
    let has_output = g.find("output.weight").is_some();
    let tensors = g.tensors();
    let ghost dir = g.dir();
    let mut dense: u64 = 0;
    let mut expert: u64 = 0;
    let mut i: usize = 0;
    proof {
        assert(dir.take(0) =~= Seq::empty());
    }
    while i < tensors.len()
        invariant
            i <= tensors@.len(),
            tensors@ == dir,
            has_output == has_head(dir),
            forall|k: int| 0 <= k < dir.len() ==> sizes_fit(#[trigger] dir[k], has_output),
            dense_sum(dir, has_output) <= u64::MAX,
            expert_sum(dir) <= u64::MAX,
            dense == dense_sum(dir.take(i as int), has_output),
            expert == expert_sum(dir.take(i as int)),
        decreases tensors.len() - i,
    {
        proof {
            assert(dir.take(i + 1).drop_last() =~= dir.take(i as int));
            lemma_sums(dir, has_output, i + 1);
            assert(sizes_fit(dir[i as int], has_output));
        }
        let t = &tensors[i];
        let elements: usize = element_count(&t.shape);
        if same_text(t.name.as_str(), "token_embd.weight") {
            if !has_output {
                dense = dense + (elements * 2) as u64;
            }
        } else {
            let bytes: u64 = tensor_resident_bytes(t.dtype, elements, t.nbytes);
            if contains_text(t.name.as_str(), "_exps") {
                expert = expert + bytes;
            } else {
                dense = dense + bytes;
            }
        }
        i += 1;
    }
    assert(dir.take(i as int) =~= dir);
    WeightFootprint { dense, expert }
}

} // verus!
