//! Tensor handles, element types and shapes.
use vstd::prelude::*;

verus! {

/// Handle of a tensor declared in a graph.
#[derive(Clone, Copy, Debug, PartialEq, Eq, Hash, Structural)]
pub struct TensorId(pub u32);

/// Element type of a tensor: plain floats, or blocks of a quantized format.
#[derive(Clone, Copy, Debug, PartialEq, Eq, Hash, Structural)]
pub enum DType {
    F32,
    F16,
    Bf16,
    I32,
    Q4_0,
    Q4_1,
    Q5_0,
    Q5_1,
    Q8_0,
    Q2K,
    Q3K,
    Q4K,
    Q5K,
    Q6K,
    Iq1S,
    Iq1M,
    Iq2Xxs,
    Iq2Xs,
    Iq2S,
    Iq3Xxs,
    Iq3S,
    Iq4Nl,
    Iq4Xs,
    Tq1_0,
    Tq2_0,
    Mxfp4,
    Nvfp4,
}

impl DType {
    /// Whether elements come in blocks of a quantized format.
    pub open spec fn quantized(self) -> bool {
        !(self is F32 || self is F16 || self is Bf16 || self is I32)
    }

    /// Whether elements come in blocks of a quantized format.
    pub fn is_quantized(self) -> (r: bool)
        ensures
            r == self.quantized(),
    {
        match self {
            DType::F32 | DType::F16 | DType::Bf16 | DType::I32 => false,
            _ => true,
        }
    }
}

/// A 32-bit floating-point number, held as its bits.
#[derive(Clone, Copy, Debug, PartialEq, Eq, Hash, Structural)]
pub struct F32Bits(pub u32);

/// Number of elements of a tensor of shape `shape`.
pub open spec fn numel(shape: Seq<usize>) -> int
    decreases shape.len(),
{
    if shape.len() == 0 {
        1
    } else {
        numel(shape.drop_last()) * shape.last()
    }
}

/// The number of elements is the product of the dimensions, 1 where there are none, in whatever parts they
/// are multiplied.
pub proof fn law_numel(a: Seq<usize>, b: Seq<usize>, d: usize)
    ensures
        numel(Seq::empty()) == 1,
        numel(seq![d]) == d,
        numel(a + b) == numel(a) * numel(b),
    decreases b.len(),
{
    reveal_with_fuel(numel, 2);
    assert(seq![d].drop_last() =~= Seq::empty());
    if b.len() == 0 {
        assert(a + b =~= a);
    } else {
        law_numel(a, b.drop_last(), d);
        assert((a + b).drop_last() =~= a + b.drop_last());
        assert((a + b).last() == b.last());
        let x = numel(a);
        let y = numel(b.drop_last());
        let z = b.last() as int;
        assert((x * y) * z == x * (y * z)) by (nonlinear_arith);
    }
}

/// The formats whose elements stand alone; all others come in blocks.
pub proof fn law_quantized(t: DType)
    ensures
        t == DType::F32 || t == DType::F16 || t == DType::Bf16 || t == DType::I32 ==> !t.quantized(),
        t is Q4_0 || t is Q4_1 || t is Q5_0 || t is Q5_1 || t is Q8_0 ==> t.quantized(),
        t is Q2K || t is Q3K || t is Q4K || t is Q5K || t is Q6K ==> t.quantized(),
        t is Iq1S || t is Iq1M || t is Iq2Xxs || t is Iq2Xs || t is Iq2S ==> t.quantized(),
        t is Iq3Xxs || t is Iq3S || t is Iq4Nl || t is Iq4Xs ==> t.quantized(),
        t is Tq1_0 || t is Tq2_0 || t is Mxfp4 || t is Nvfp4 ==> t.quantized(),
{
}

/// Whether multiplying up the dimensions of `shape` in their order stays within `usize`.
pub open spec fn numel_fits(shape: Seq<usize>) -> bool {
    forall|k: int| 0 <= k <= shape.len() ==> #[trigger] numel(shape.take(k)) <= usize::MAX
}

/// The product over no dimension fits, and one more dimension fits if and only if those before it do and the
/// product with it is no more than a size can hold.
pub proof fn law_numel_fits(shape: Seq<usize>, d: usize)
    ensures
        numel_fits(Seq::empty()),
        numel_fits(shape.push(d)) <==> numel_fits(shape) && numel(shape) * d <= usize::MAX,
{
    let all = shape.push(d);
    let n = shape.len() as int;
    assert(all.drop_last() =~= shape);
    assert(all.take(n + 1) =~= all);
    assert forall|k: int| 0 <= k <= n implies #[trigger] all.take(k) == shape.take(k) by {
        assert(all.take(k) =~= shape.take(k));
    }
    assert forall|k: int| 0 <= k <= Seq::<usize>::empty().len() implies #[trigger] numel(
        Seq::<usize>::empty().take(k),
    ) <= usize::MAX by {
        assert(Seq::<usize>::empty().take(k).len() == 0);
    }
    if numel_fits(shape) && numel(shape) * d <= usize::MAX {
        assert forall|k: int| 0 <= k <= all.len() implies #[trigger] numel(all.take(k))
            <= usize::MAX by {
            if k <= n {
                assert(numel(shape.take(k)) <= usize::MAX);
            }
        }
    }
    if numel_fits(all) {
        assert(numel(all.take(n + 1)) <= usize::MAX);
        assert forall|k: int| 0 <= k <= n implies #[trigger] numel(shape.take(k)) <= usize::MAX by {
            assert(numel(all.take(k)) <= usize::MAX);
        }
    }
}

/// Number of elements of a tensor of shape `shape`.
pub fn element_count(shape: &Vec<usize>) -> (r: usize)
    requires
        numel_fits(shape@),
    ensures
        r == numel(shape@),
{
    let mut n: usize = 1;
    let mut i: usize = 0;
    assert(shape@.take(0) =~= Seq::empty());
    while i < shape.len()
        invariant
            i <= shape@.len(),
            numel_fits(shape@),
            n == numel(shape@.take(i as int)),
        decreases shape.len() - i,
    {
        assert(shape@.take(i + 1).drop_last() =~= shape@.take(i as int));
        assert(numel(shape@.take(i + 1)) <= usize::MAX);
        assert(n * shape@[i as int] >= 0) by (nonlinear_arith)
            requires
                n >= 0,
                shape@[i as int] >= 0,
        ;
        n = n * shape[i];
        i += 1;
    }
    assert(shape@.take(i as int) =~= shape@);
    n
}

/// Element type and shape of a tensor.
#[derive(Clone, Debug)]
pub struct TensorDesc {
    pub dtype: DType,
    pub shape: Vec<usize>,
}

} // verus!
