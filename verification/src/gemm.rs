//! The tiled matrix product on a device's matrix cores: `C[m, n] = A[m, k] * B[k, n]`, row-major,
//! with half-precision operands and a single-precision result. All dimensions are multiples of the
//! tile side.
use vstd::prelude::*;

use crate::bytes::get_le;
use crate::bytes::le_value;
use crate::gpu_pager::words_as_bytes;
use crate::gpu_pager::{big_endian, little_endian};

verus! {

/// Side of a tile of the result that one workgroup computes.
pub const TILE: usize = 16;

/// What a product needs on the device.
#[derive(Clone, Copy, Debug, PartialEq, Eq, Structural)]
pub struct GemmPlan {
    pub a_bytes: usize,
    pub b_bytes: usize,
    pub c_bytes: usize,
    /// The constants that the kernel gets, in this order: rows, columns and depth.
    pub push_m: u32,
    pub push_n: u32,
    pub push_k: u32,
    /// Workgroups along a row of the result.
    pub groups_x: u32,
    /// Workgroups along a column of the result.
    pub groups_y: u32,
}

impl GemmPlan {
    /// The kernel's constants as the bytes that it reads, in the byte order of the machine.
    pub fn push_bytes(&self) -> (r: Vec<u8>)
        ensures
            ({
                let words = seq![self.push_m, self.push_n, self.push_k];
                r@ == little_endian(words) || r@ == big_endian(words)
            }),
    {
        let mut words: Vec<u32> = Vec::new();
        words.push(self.push_m);
        words.push(self.push_n);
        words.push(self.push_k);
        assert(words@ =~= seq![self.push_m, self.push_n, self.push_k]);
        words_as_bytes(words.as_slice())
    }
}

/// Sizes the buffers and the dispatch of a product of an operand of `a_len` elements with one of
/// `b_len`.
pub fn matmul_plan(a_len: usize, b_len: usize, m: usize, k: usize, n: usize) -> (r: GemmPlan)
    requires
        m % TILE == 0,
        n % TILE == 0,
        k % TILE == 0,
        a_len == m * k,
        b_len == k * n,
        a_len * 2 <= usize::MAX,
        b_len * 2 <= usize::MAX,
        m * n * 4 <= usize::MAX,
    ensures
        r.a_bytes == m * k * 2,
        r.b_bytes == k * n * 2,
        r.c_bytes == m * n * 4,
        r.push_m == m as u32,
        r.push_n == n as u32,
        r.push_k == k as u32,
        r.groups_x == (n / TILE) as u32,
        r.groups_y == (m / TILE) as u32,
{
    proof {
        assert(m * n >= 0) by (nonlinear_arith);
    }
    GemmPlan {
        a_bytes: a_len * 2,
        b_bytes: b_len * 2,
        c_bytes: m * n * 4,
        push_m: m as u32,
        push_n: n as u32,
        push_k: k as u32,
        groups_x: (n / TILE) as u32,
        groups_y: (m / TILE) as u32,
    }
}

/// Every element of the result is in the tile of exactly one workgroup, and every workgroup's tile
/// lies inside the result, for dimensions that fit 32 bits. A tile is 16 elements wide and high.
pub proof fn law_tiles_cover(m: usize, n: usize, row: int, col: int, gx: int, gy: int)
    requires
        m % TILE == 0,
        n % TILE == 0,
        m <= u32::MAX,
        n <= u32::MAX,
        0 <= row < m,
        0 <= col < n,
    ensures
        (n / TILE) as u32 == n / TILE,
        (m / TILE) as u32 == m / TILE,
        0 <= row / (TILE as int) < m / TILE,
        0 <= col / (TILE as int) < n / TILE,
        0 <= gx < n / TILE && 0 <= gy < m / TILE && gy * TILE <= row < gy * TILE + TILE && gx * TILE
            <= col < gx * TILE + TILE ==> gy == row / (TILE as int) && gx == col / (TILE as int),
        0 <= gx < n / TILE ==> gx * TILE + TILE <= n,
        0 <= gy < m / TILE ==> gy * TILE + TILE <= m,
        TILE == 16,
{
}

/// The words of a kernel that is held as `bytes`, least significant byte first; a last incomplete
/// word is dropped.
pub fn spv_words(bytes: &[u8]) -> (r: Vec<u32>)
    ensures
        r@.len() == bytes@.len() / 4,
        forall|i: int|
            0 <= i < r@.len() ==> #[trigger] r@[i] == le_value(bytes@.subrange(i * 4, i * 4 + 4)),
{
    let total: usize = bytes.len();
    let mut words: Vec<u32> = Vec::new();
    let mut i: usize = 0;
    while i < total / 4
        invariant
            i <= total / 4,
            total == bytes@.len(),
            words@.len() == i,
            forall|k: int|
                0 <= k < i ==> #[trigger] words@[k] == le_value(
                    bytes@.subrange(k * 4, k * 4 + 4),
                ),
        decreases total / 4 - i,
    {
        let w: u64 = get_le(bytes, i * 4, 4);
        proof {
            crate::bytes::law_le_round_trip(0, bytes@.subrange(i * 4, i * 4 + 4), 4);
            assert(crate::bytes::byte_range(4) == 0x1_0000_0000) by {
                reveal_with_fuel(crate::bytes::byte_range, 5);
            }
        }
        words.push(w as u32);
        i += 1;
    }
    words
}

} // verus!
