//! The dense gated feed-forward block: `out = (silu(gate(x)) * up(x))` times the transpose of
//! `down`. Only recorded here; buffers are the caller's.
use vstd::prelude::*;

use crate::tensor::DType;
use crate::weights::{rec_linear, rec_linear_add, Command, Wt};
use crate::weights::{linear, linear_add};

verus! {

/// Layout of both input weights.
#[derive(Clone, Copy, Debug, PartialEq, Eq)]
pub enum GateUp<B> {
    /// One weight, gate rows before up rows.
    Fused(Wt<B>),
    /// Two weights.
    Split { gate: Wt<B>, up: Wt<B> },
}

/// Buffers of the block: the normed input `xn`, scratch for both gate and up (`gu`) or each (`g`,
/// `u`), scratch for the activation, and the output.
#[derive(Clone, Copy, Debug, PartialEq, Eq)]
pub struct FfnBuffers<B> {
    pub xn: B,
    pub gu: B,
    pub g: B,
    pub u: B,
    pub act: B,
    pub out: B,
}

/// The commands that compute the activation.
pub open spec fn gate_commands<B>(
    bufs: FfnBuffers<B>,
    gate_up: GateUp<B>,
    rows: usize,
    n_embd: usize,
    n_ff: usize,
) -> Seq<Command<B>> {
    match gate_up {
        GateUp::Fused(w) => seq![
            linear(w, bufs.xn, bufs.gu, rows, n_embd, (2 * n_ff) as usize),
            Command::SiluMulFused { gate_up: bufs.gu, act: bufs.act, rows, n_ff },
        ],
        GateUp::Split { gate, up } => seq![
            linear(gate, bufs.xn, bufs.g, rows, n_embd, n_ff),
            linear(up, bufs.xn, bufs.u, rows, n_embd, n_ff),
            Command::SiluMul { gate: bufs.g, up: bufs.u, act: bufs.act, n: (rows * n_ff) as usize },
        ],
    }
}

/// The command that projects the activation down, with the residual added where there is one.
pub open spec fn down_command<B>(
    bufs: FfnBuffers<B>,
    down: Wt<B>,
    residual: Option<B>,
    rows: usize,
    n_embd: usize,
    n_ff: usize,
) -> Command<B> {
    match residual {
        Some(res) => linear_add(down, bufs.act, res, bufs.out, rows, n_ff, n_embd),
        None => linear(down, bufs.act, bufs.out, rows, n_ff, n_embd),
    }
}

/// Whether `c` writes to `y` the product of `x` with the transpose of `w`, plus `residual` where there is
/// one, at these sizes.
pub open spec fn projects<B>(
    c: Command<B>,
    w: Wt<B>,
    x: B,
    residual: Option<B>,
    y: B,
    rows: usize,
    in_f: usize,
    out_f: usize,
) -> bool {
    let (weight, dtype) = match w {
        Wt::F16(b) => (b, None::<DType>),
        Wt::Native { buf, dtype } => (buf, Some(dtype)),
    };
    match c {
        Command::Linear { w: b, x: i, y: o, rows: r, in_f: f, out_f: g } => {
            &&& dtype is None && residual is None
            &&& b == weight && i == x && o == y && r == rows && f == in_f && g == out_f
        },
        Command::LinearNative { dtype: d, w: b, x: i, y: o, rows: r, in_f: f, out_f: g } => {
            &&& dtype == Some(d) && residual is None
            &&& b == weight && i == x && o == y && r == rows && f == in_f && g == out_f
        },
        Command::LinearAdd { w: b, x: i, residual: s, y: o, rows: r, in_f: f, out_f: g } => {
            &&& dtype is None && residual == Some(s)
            &&& b == weight && i == x && o == y && r == rows && f == in_f && g == out_f
        },
        Command::LinearAddNative {
            dtype: d,
            w: b,
            x: i,
            residual: s,
            y: o,
            rows: r,
            in_f: f,
            out_f: g,
        } => {
            &&& dtype == Some(d) && residual == Some(s)
            &&& b == weight && i == x && o == y && r == rows && f == in_f && g == out_f
        },
        _ => false,
    }
}

/// How the data flows through the block. The input goes through gate and up, both `n_ff` wide, side by
/// side in one product or in two; the activation is made of just these results, in their roles; and it
/// alone goes down to the model's width, with the residual added where there is one.
pub proof fn law_swiglu<B>(
    bufs: FfnBuffers<B>,
    gate_up: GateUp<B>,
    down: Wt<B>,
    residual: Option<B>,
    rows: usize,
    n_embd: usize,
    n_ff: usize,
)
    requires
        2 * n_ff <= usize::MAX,
        rows * n_ff <= usize::MAX,
    ensures
        ({
            let c = gate_commands(bufs, gate_up, rows, n_embd, n_ff);
            match gate_up {
                GateUp::Fused(w) => {
                    &&& c.len() == 2
                    &&& projects(c[0], w, bufs.xn, None, bufs.gu, rows, n_embd, (n_ff + n_ff) as usize)
                    &&& c[1] == (Command::SiluMulFused {
                        gate_up: bufs.gu,
                        act: bufs.act,
                        rows,
                        n_ff,
                    })
                },
                GateUp::Split { gate, up } => {
                    &&& c.len() == 3
                    &&& projects(c[0], gate, bufs.xn, None, bufs.g, rows, n_embd, n_ff)
                    &&& projects(c[1], up, bufs.xn, None, bufs.u, rows, n_embd, n_ff)
                    &&& c[2] matches Command::SiluMul { gate: g, up: u, act, n }
                    &&& g == bufs.g && u == bufs.u && act == bufs.act && n == rows * n_ff
                },
            }
        }),
        projects(
            down_command(bufs, down, residual, rows, n_embd, n_ff),
            down,
            bufs.act,
            residual,
            bufs.out,
            rows,
            n_ff,
            n_embd,
        ),
{
    assert(rows * n_ff >= 0) by (nonlinear_arith);
}

/// Records the block for `rows` rows.
pub fn record_swiglu<B: Copy>(
    rec: &mut Vec<Command<B>>,
    bufs: FfnBuffers<B>,
    gate_up: GateUp<B>,
    down: Wt<B>,
    residual: Option<B>,
    rows: usize,
    n_embd: usize,
    n_ff: usize,
)
    requires
        gate_up is Fused ==> 2 * n_ff <= usize::MAX,
        gate_up is Split ==> rows * n_ff <= usize::MAX,
    ensures
        final(rec)@ == old(rec)@ + gate_commands(bufs, gate_up, rows, n_embd, n_ff).push(
            down_command(bufs, down, residual, rows, n_embd, n_ff),
        ),
{
    match gate_up {
        GateUp::Fused(w) => {
            rec_linear(rec, w, bufs.xn, bufs.gu, rows, n_embd, 2 * n_ff);
            rec.push(Command::SiluMulFused { gate_up: bufs.gu, act: bufs.act, rows, n_ff });
        },
        GateUp::Split { gate, up } => {
            rec_linear(rec, gate, bufs.xn, bufs.g, rows, n_embd, n_ff);
            rec_linear(rec, up, bufs.xn, bufs.u, rows, n_embd, n_ff);
            assert(rows * n_ff >= 0) by (nonlinear_arith);
            rec.push(Command::SiluMul { gate: bufs.g, up: bufs.u, act: bufs.act, n: rows * n_ff });
        },
    }
    assert(rec@ =~= old(rec)@ + gate_commands(bufs, gate_up, rows, n_embd, n_ff));
    match residual {
        Some(res) => {
            rec_linear_add(rec, down, bufs.act, res, bufs.out, rows, n_ff, n_embd);
        },
        None => {
            rec_linear(rec, down, bufs.act, bufs.out, rows, n_ff, n_embd);
        },
    }
    assert(rec@ =~= old(rec)@ + gate_commands(bufs, gate_up, rows, n_embd, n_ff).push(
        down_command(bufs, down, residual, rows, n_embd, n_ff),
    ));
}

} // verus!
