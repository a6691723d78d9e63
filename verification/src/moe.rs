//! Paging of mixture-of-experts weight banks: one pool of arena slots for each expert role and
//! block size, a table from a bound placeholder buffer to the bank that stands behind it, and the
//! bookkeeping of the upload ring and of the frozen table windows.
//!
//! All pools share one space of block numbers: expert `e` of a layer is block `layer_base + e`. A
//! pool's table holds "absent" for the layers that live in other pools.
use std::collections::HashMap;
use vstd::prelude::*;

use crate::gpu_pager::{GpuModel, GpuPager, PagerError, Placement, SlotCopy};
use crate::gpu_pager::{
    big_endian, law_begin_batch_coherent, law_brought_in_coherent, law_coherent_entries_differ,
    little_endian, word_base,
};
use crate::pager::{BlockId, PagerStats, Resolution, NOT_RESIDENT};
use crate::pager::{
    law_batch_stays_resident, law_touch_places, lemma_position, order_after_all, resident,
    slot_of_block, untouched,
};

verus! {

broadcast use vstd::std_specs::hash::group_hash_axioms;

/// One paged expert role. A bank that fuses gate and up pages under `Gate`.
#[derive(Clone, Copy, Debug, PartialEq, Eq, Hash, Structural)]
pub enum Role {
    Gate,
    Up,
    Down,
}

impl Role {
    /// Lower-case name for reports.
    pub fn name(self) -> (r: &'static str)
        ensures
            r@ == match self {
                Role::Gate => "gate"@,
                Role::Up => "up"@,
                Role::Down => "down"@,
            },
    {
        match self {
            Role::Gate => "gate",
            Role::Up => "up",
            Role::Down => "down",
        }
    }
}

/// Where the expert bank of one layer and role lives. Expert `e` is the `e`-th contiguous slice of
/// `stride_bytes` bytes. `bytes` is the caller's handle of the bank, `bank_bytes` its length.
pub struct ExpertSource<S> {
    pub bytes: S,
    pub bank_bytes: usize,
    pub stride_bytes: usize,
    /// Block number of this layer's expert 0.
    pub layer_base: u32,
}

/// A registered bank: its role, the pool it pages through, and where it lives.
pub struct Registered<S> {
    pub role: Role,
    pub pool: usize,
    pub source: ExpertSource<S>,
}

/// One arena pool: every block in it has the pager's slot size.
struct Pool<B> {
    role: Role,
    pager: GpuPager<B>,
}

/// Size of one pool. Slot counts differ from pool to pool: each arena has its own ceiling.
#[derive(Clone, Copy, Debug, PartialEq, Eq, Structural)]
pub struct MoePoolSpec {
    pub role: Role,
    pub slot_bytes: usize,
    pub n_slots: usize,
}

/// Sizes of a whole session, fixed before any bank is registered.
pub struct MoePagerLayout {
    /// Number of blocks that can be named.
    pub n_blocks: usize,
    pub pools: Vec<MoePoolSpec>,
    /// Bytes of the upload ring; `0` asks for the default.
    pub ring_bytes: usize,
}

/// Buffer sizes that a session needs besides its pools.
#[derive(Clone, Copy, Debug, PartialEq, Eq, Structural)]
pub struct SessionPlan {
    pub staging_bytes: usize,
    pub ring_half_bytes: usize,
    pub ring_bytes: usize,
    pub tape_bytes: usize,
}

/// Words of the tape that holds frozen table windows.
pub const TAPE_WORDS: usize = 65536;

/// Smallest default size of the upload ring.
pub const RING_FLOOR: u64 = 0x1000_0000;

/// Largest default size of the upload ring.
pub const RING_CEILING: u64 = 0x8000_0000;

/// Bytes of the upload ring for a pager budget, where `setting` is the user's size.
pub open spec fn ring_policy(pager_budget: u64, setting: Option<usize>) -> int {
    match setting {
        Some(b) if b > 0 => b as int,
        _ => {
            let share = pager_budget / 8;
            if share < RING_FLOOR {
                RING_FLOOR as int
            } else if share > RING_CEILING {
                RING_CEILING as int
            } else {
                share as int
            }
        },
    }
}

/// Bytes of the upload ring: the user's size where there is one, else an eighth of the pager
/// budget, but no less than 256 MiB and no more than 2 GiB.
pub fn ring_bytes_policy(pager_budget: u64, setting: Option<usize>) -> (r: usize)
    ensures
        r == ring_policy(pager_budget, setting),
{
    if let Some(b) = setting {
        if b > 0 {
            return b;
        }
    }
    let share: u64 = pager_budget / 8;
    if share < RING_FLOOR {
        RING_FLOOR as usize
    } else if share > RING_CEILING {
        RING_CEILING as usize
    } else {
        share as usize
    }
}

/// The default ring is an eighth of the budget, but stays between 256 MiB and 2 GiB; it grows with the
/// budget; a positive setting always wins.
pub proof fn law_ring_policy(a: u64, b: u64, setting: Option<usize>)
    ensures
        RING_FLOOR <= ring_policy(a, None) <= RING_CEILING,
        RING_FLOOR == 0x1000_0000,
        RING_CEILING == 0x8000_0000,
        ring_policy(a, None) > 0x1000_0000 ==> ring_policy(a, None) * 8 <= a,
        ring_policy(a, None) < 0x8000_0000 ==> a < ring_policy(a, None) * 8 + 8,
        a <= b ==> ring_policy(a, setting) <= ring_policy(b, setting),
        setting matches Some(s) ==> s > 0 ==> ring_policy(a, setting) == s,
        setting == Some(0usize) ==> ring_policy(a, setting) == ring_policy(a, None),
{
}

/// The largest of 4 and all slot sizes.
pub open spec fn largest_slot(pools: Seq<MoePoolSpec>) -> int
    decreases pools.len(),
{
    if pools.len() == 0 {
        4
    } else {
        let before = largest_slot(pools.drop_last());
        if pools.last().slot_bytes > before {
            pools.last().slot_bytes as int
        } else {
            before
        }
    }
}

/// The staging buffer holds a slot of every pool, and is one slot or four bytes long.
pub proof fn law_largest_slot(pools: Seq<MoePoolSpec>)
    ensures
        4 <= largest_slot(pools) <= usize::MAX,
        forall|i: int| 0 <= i < pools.len() ==> (#[trigger] pools[i]).slot_bytes <= largest_slot(pools),
        largest_slot(pools) > 4 ==> exists|i: int|
            0 <= i < pools.len() && (#[trigger] pools[i]).slot_bytes == largest_slot(pools),
    decreases pools.len(),
{
    if pools.len() > 0 {
        law_largest_slot(pools.drop_last());
        if largest_slot(pools) > 4 {
            if pools.last().slot_bytes == largest_slot(pools) {
                assert(pools[pools.len() - 1].slot_bytes == largest_slot(pools));
            } else {
                let i = choose|i: int|
                    0 <= i < pools.drop_last().len() && (#[trigger] pools.drop_last()[i]).slot_bytes
                        == largest_slot(pools);
                assert(pools[i].slot_bytes == largest_slot(pools));
            }
        }
        assert forall|i: int| 0 <= i < pools.len() implies (#[trigger] pools[i]).slot_bytes
            <= largest_slot(pools) by {
            if i < pools.len() - 1 {
                assert(pools[i] == pools.drop_last()[i]);
            }
        }
    }
}

proof fn lemma_largest_slot(pools: Seq<MoePoolSpec>)
    ensures
        4 <= largest_slot(pools) <= usize::MAX,
        forall|i: int| 0 <= i < pools.len() ==> (#[trigger] pools[i]).slot_bytes <= largest_slot(pools),
{
    law_largest_slot(pools);
}

/// Bytes of one half of the upload ring: half the ring, but no less than the largest slot.
pub open spec fn ring_half(layout: MoePagerLayout, setting: Option<usize>) -> int {
    let total = if layout.ring_bytes > 0 {
        layout.ring_bytes as int
    } else {
        ring_policy(0, setting)
    };
    if total / 2 > largest_slot(layout.pools@) {
        total / 2
    } else {
        largest_slot(layout.pools@)
    }
}

/// A ring half holds a slot of every pool. It is half of the size that was asked for, rounded down, or of
/// the default where none was, unless a slot is larger; then it is the largest slot.
pub proof fn law_ring_half(layout: MoePagerLayout, setting: Option<usize>)
    ensures
        forall|i: int|
            0 <= i < layout.pools@.len() ==> (#[trigger] layout.pools@[i]).slot_bytes <= ring_half(
                layout,
                setting,
            ),
        ({
            let half = ring_half(layout, setting);
            let asked = if layout.ring_bytes == 0 {
                ring_policy(0, setting)
            } else {
                layout.ring_bytes as int
            };
            &&& asked <= 2 * half + 1
            &&& 2 * half > asked ==> half == largest_slot(layout.pools@)
            &&& half >= largest_slot(layout.pools@)
            &&& setting is None && layout.ring_bytes == 0 ==> half >= 0x800_0000
        }),
{
    law_largest_slot(layout.pools@);
    law_ring_policy(0, 0, setting);
}

impl MoePagerLayout {
    /// Sizes the buffers that the pools share. `setting` is the user's ring size.
    pub fn plan(&self, setting: Option<usize>) -> (r: SessionPlan)
        requires
            2 * ring_half(*self, setting) <= usize::MAX,
        ensures
            r.staging_bytes == largest_slot(self.pools@),
            r.ring_half_bytes == ring_half(*self, setting),
            r.ring_bytes == 2 * ring_half(*self, setting),
            r.tape_bytes == TAPE_WORDS * 4,
            r.tape_bytes == 0x4_0000,
    {
        let mut staging_bytes: usize = 4;
        let mut i: usize = 0;
        assert(self.pools@.take(0) =~= Seq::empty());
        while i < self.pools.len()
            invariant
                i <= self.pools.len(),
                staging_bytes == largest_slot(self.pools@.take(i as int)),
            decreases self.pools.len() - i,
        {
            assert(self.pools@.take(i + 1).drop_last() =~= self.pools@.take(i as int));
            if self.pools[i].slot_bytes > staging_bytes {
                staging_bytes = self.pools[i].slot_bytes;
            }
            i += 1;
        }
        assert(self.pools@.take(i as int) =~= self.pools@);
        let ring_total: usize = if self.ring_bytes > 0 {
            self.ring_bytes
        } else {
            ring_bytes_policy(0, setting)
        };
        let half: usize = if ring_total / 2 > staging_bytes {
            ring_total / 2
        } else {
            staging_bytes
        };
        SessionPlan {
            staging_bytes,
            ring_half_bytes: half,
            ring_bytes: 2 * half,
            tape_bytes: TAPE_WORDS * 4,
        }
    }
}

/// What a pool knows.
#[verifier::ext_equal]
pub struct PoolModel {
    pub role: Role,
    pub gpu: GpuModel,
}

/// What a session knows.
#[verifier::ext_equal]
pub struct SessionModel<S> {
    pub pools: Seq<PoolModel>,
    pub sources: Map<usize, Registered<S>>,
    pub ring_half: nat,
}

/// The device buffers of a session.
#[verifier::ext_equal]
pub struct SessionHandles<B> {
    pub arenas: Seq<B>,
    pub luts: Seq<B>,
    pub staging: B,
    pub ring: B,
    pub tape: B,
}

/// Whether pool `p` takes blocks of `role` with `stride` bytes each.
pub open spec fn pool_fits(pools: Seq<PoolModel>, p: int, role: Role, stride: usize) -> bool {
    &&& 0 <= p < pools.len()
    &&& pools[p].role == role
    &&& pools[p].gpu.slot_bytes == stride
}

/// Whether `p` is the first pool that takes blocks of `role` with `stride` bytes each.
pub open spec fn first_fit(pools: Seq<PoolModel>, p: int, role: Role, stride: usize) -> bool {
    &&& pool_fits(pools, p, role, stride)
    &&& forall|q: int| 0 <= q < p ==> !#[trigger] pool_fits(pools, q, role, stride)
}

/// Whether expert `lid` lies inside a bank of `bank` bytes with `stride` bytes for each expert.
pub open spec fn in_bank(lid: u32, stride: usize, bank: usize) -> bool {
    lid * stride + stride <= bank
}

/// Block numbers of the experts `lids` of the layer that starts at `base`.
pub open spec fn block_ids(base: u32, lids: Seq<u32>) -> Seq<BlockId> {
    lids.map_values(|l: u32| (base + l) as u32)
}

/// Whether the block numbers of `lids` fit 32 bits.
pub open spec fn ids_fit(base: u32, lids: Seq<u32>) -> bool {
    forall|i: int| 0 <= i < lids.len() ==> base + #[trigger] lids[i] <= u32::MAX
}

/// After each of `ids` was touched in turn and, where it was missing, brought in.
pub open spec fn all_brought_in(m: GpuModel, ids: Seq<BlockId>, cold: bool) -> GpuModel
    decreases ids.len(),
{
    if ids.len() == 0 {
        m
    } else {
        all_brought_in(m, ids.drop_last(), cold).brought_in(ids.last(), cold)
    }
}

impl<S> SessionModel<S> {
    pub open spec fn wf(&self) -> bool {
        &&& forall|p: int| 0 <= p < self.pools.len() ==> (#[trigger] self.pools[p]).gpu.wf()
        &&& forall|p: int|
            0 <= p < self.pools.len() ==> (#[trigger] self.pools[p]).gpu.slot_bytes <= self.ring_half
        &&& forall|b: usize| #[trigger]
            self.sources.contains_key(b) ==> first_fit(
                self.pools,
                self.sources[b].pool as int,
                self.sources[b].role,
                self.sources[b].source.stride_bytes,
            )
    }

    /// The pool behind a registered buffer.
    pub open spec fn gpu_of(&self, buf_id: usize) -> GpuModel {
        self.pools[self.sources[buf_id].pool as int].gpu
    }

    /// With the pool behind a registered buffer replaced by `gpu`.
    pub open spec fn with_gpu(&self, buf_id: usize, gpu: GpuModel) -> SessionModel<S> {
        let p = self.sources[buf_id].pool as int;
        SessionModel {
            pools: self.pools.update(p, PoolModel { role: self.pools[p].role, gpu }),
            ..*self
        }
    }

    /// Block number of expert 0 of a registered buffer's layer.
    pub open spec fn base_of(&self, buf_id: usize) -> u32 {
        self.sources[buf_id].source.layer_base
    }

    /// What a call of `stage_role` works with.
    pub open spec fn stage_job(
        &self,
        buf_id: usize,
        half_base: usize,
        ring_mapped: bool,
        scan: bool,
    ) -> StageJob {
        StageJob {
            layer_base: self.base_of(buf_id),
            stride: self.sources[buf_id].source.stride_bytes,
            bank: self.sources[buf_id].source.bank_bytes,
            half: self.ring_half,
            half_base,
            ring_mapped,
            scan,
        }
    }
}

/// What stays the same while a list of experts is staged.
pub struct StageJob {
    pub layer_base: u32,
    pub stride: usize,
    pub bank: usize,
    /// Bytes of one ring half.
    pub half: nat,
    /// Where this half starts in the ring.
    pub half_base: usize,
    pub ring_mapped: bool,
    pub scan: bool,
}

/// How far staging came.
#[verifier::ext_equal]
pub struct StageRun {
    pub gpu: GpuModel,
    /// Bytes of the half in use.
    pub cursor: int,
    pub copies: Seq<SlotCopy>,
    /// Number of experts that are done.
    pub staged: int,
    pub failed: Option<PagerError>,
}

/// Stages the experts `lids` from number `run.staged` on: an expert that is missing and does not
/// fit the rest of the half ends the run, as does one outside the bank or, where the ring is not
/// mapped, one that is missing.
pub open spec fn stage_run(job: StageJob, lids: Seq<u32>, run: StageRun) -> StageRun
    decreases lids.len() - run.staged,
{
    if run.staged < 0 || run.staged >= lids.len() {
        run
    } else {
        let lid = lids[run.staged];
        let id = (job.layer_base + lid) as u32;
        match run.gpu.resolve(id) {
            Resolution::Hit { .. } => if !in_bank(lid, job.stride, job.bank) {
                StageRun { failed: Some(PagerError::ExpertOutOfRange), ..run }
            } else {
                stage_run(
                    job,
                    lids,
                    StageRun {
                        gpu: run.gpu.brought_in(id, job.scan),
                        staged: run.staged + 1,
                        ..run
                    },
                )
            },
            Resolution::Miss { slot, .. } => if run.cursor + run.gpu.slot_bytes > job.half {
                run
            } else if !in_bank(lid, job.stride, job.bank) {
                StageRun { failed: Some(PagerError::ExpertOutOfRange), ..run }
            } else if !job.ring_mapped {
                StageRun {
                    gpu: run.gpu.touched(id, job.scan),
                    failed: Some(PagerError::RingNotMapped),
                    ..run
                }
            } else {
                stage_run(
                    job,
                    lids,
                    StageRun {
                        gpu: run.gpu.brought_in(id, job.scan),
                        cursor: run.cursor + run.gpu.slot_bytes,
                        copies: run.copies.push(
                            SlotCopy {
                                src_off: (lid * job.stride) as usize,
                                ring_off: (job.half_base + run.cursor) as usize,
                                arena_off: (slot * run.gpu.slot_bytes) as usize,
                                len: run.gpu.slot_bytes as usize,
                            },
                        ),
                        staged: run.staged + 1,
                        failed: run.failed,
                    },
                )
            },
        }
    }
}

/// Before anything was staged.
pub open spec fn stage_start(gpu: GpuModel, cursor: usize, copies: Seq<SlotCopy>) -> StageRun {
    StageRun { gpu, cursor: cursor as int, copies, staged: 0, failed: None }
}

/// A bank of `n` experts holds the experts below `n` and no others, each a whole slice.
pub proof fn law_bank_holds(lid: u32, n: nat, stride: usize, bank: usize)
    requires
        stride > 0,
        bank == n * stride,
    ensures
        in_bank(lid, stride, bank) <==> lid < n,
{
    assert(lid * stride + stride <= n * stride <==> lid < n) by (nonlinear_arith)
        requires
            stride > 0,
    ;
}

/// Expert `lids[i]` of a layer is the block that many past the layer's first. Two layers whose numbers do
/// not overlap share no block.
pub proof fn law_block_ids(base: u32, lids: Seq<u32>, i: int, other: u32, n: nat)
    requires
        ids_fit(base, lids),
        0 <= i < lids.len(),
        lids[i] < n,
    ensures
        block_ids(base, lids).len() == lids.len(),
        block_ids(base, lids)[i] == base + lids[i],
        base + n <= other ==> block_ids(base, lids)[i] < other,
{
}

/// The first `n` experts of a layer are its experts from 0 on, each once.
pub proof fn law_first_experts(n: nat, i: int)
    requires
        n <= u32::MAX,
        0 <= i < n,
    ensures
        first_experts(n).len() == n,
        first_experts(n)[i] == i,
{
}

/// A bank pages through a pool of its own role whose slots have its experts' size, the first such in the
/// layout.
pub proof fn law_first_fit(pools: Seq<PoolModel>, p: int, role: Role, stride: usize, q: int)
    requires
        first_fit(pools, p, role, stride),
        0 <= q < pools.len(),
        pools[q].role == role,
        pools[q].gpu.slot_bytes == stride,
    ensures
        0 <= p <= q,
        pools[p].role == role,
        pools[p].gpu.slot_bytes == stride,
{
    assert(pool_fits(pools, q, role, stride));
}

/// A change of one buffer's pool leaves the other pools, every registration and the ring as they are.
pub proof fn law_with_gpu<S>(s: SessionModel<S>, buf_id: usize, gpu: GpuModel, p: int)
    requires
        s.wf(),
        s.sources.contains_key(buf_id),
        0 <= p < s.pools.len(),
    ensures
        ({
            let next = s.with_gpu(buf_id, gpu);
            &&& next.sources == s.sources
            &&& next.ring_half == s.ring_half
            &&& next.pools.len() == s.pools.len()
            &&& next.pools[p].role == s.pools[p].role
            &&& next.gpu_of(buf_id) == gpu
            &&& p != s.sources[buf_id].pool ==> next.pools[p] == s.pools[p]
            &&& s.base_of(buf_id) == s.sources[buf_id].source.layer_base
            &&& s.gpu_of(buf_id) == s.pools[s.sources[buf_id].pool as int].gpu
        }),
{
}

/// A pool is named by role and block size together: two registered buffers page through one pool, and so
/// through its one arena and its one table, if and only if both agree.
pub proof fn law_shared_pool<S>(s: SessionModel<S>, a: usize, b: usize)
    requires
        s.wf(),
        s.sources.contains_key(a),
        s.sources.contains_key(b),
    ensures
        s.sources[a].pool == s.sources[b].pool <==> s.sources[a].role == s.sources[b].role
            && s.sources[a].source.stride_bytes == s.sources[b].source.stride_bytes,
{
    let x = s.sources[a];
    let y = s.sources[b];
    assert(pool_fits(s.pools, x.pool as int, x.role, x.source.stride_bytes));
    assert(pool_fits(s.pools, y.pool as int, y.role, y.source.stride_bytes));
}

/// Where role and block size agree, two registered buffers have the same arena handle. Where the pools'
/// handles can be told apart, they have it only then.
pub proof fn law_shared_arena<B, S>(
    s: SessionModel<S>,
    h: SessionHandles<B>,
    a: usize,
    b: usize,
)
    requires
        s.wf(),
        s.sources.contains_key(a),
        s.sources.contains_key(b),
        h.arenas.len() == s.pools.len(),
    ensures
        ({
            let x = s.sources[a];
            let y = s.sources[b];
            let agree = x.role == y.role && x.source.stride_bytes == y.source.stride_bytes;
            let shared = h.arenas[x.pool as int] == h.arenas[y.pool as int];
            &&& agree ==> shared
            &&& h.arenas.no_duplicates() && shared ==> agree
        }),
{
    law_shared_pool(s, a, b);
}

/// Bringing in two lists one after the other is bringing in their concatenation.
pub proof fn law_brought_in_concat(m: GpuModel, a: Seq<BlockId>, b: Seq<BlockId>, cold: bool)
    ensures
        all_brought_in(all_brought_in(m, a, cold), b, cold) == all_brought_in(m, a + b, cold),
    decreases b.len(),
{
    if b.len() == 0 {
        assert(a + b =~= a);
    } else {
        law_brought_in_concat(m, a, b.drop_last(), cold);
        assert((a + b).drop_last() =~= a + b.drop_last());
        assert((a + b).last() == b.last());
    }
}

/// Touching a missing block and then recording where its bytes were put is bringing it in: a run of
/// `touch_role` and `touch_placed` does what bringing in all its experts does.
pub proof fn law_touch_then_place(m: GpuModel, id: BlockId)
    ensures
        m.resolve(id) matches Resolution::Miss { slot, evicted } ==> m.touched(id, false).placed(
            id,
            slot,
            evicted,
        ) == m.brought_in(id, false),
{
}

/// What bringing in a list does to the entries, the sizes and a right table.
proof fn lemma_brought_in(m: GpuModel, ids: Seq<BlockId>, cold: bool)
    requires
        m.wf(),
    ensures
        all_brought_in(m, ids, cold).order == order_after_all(m.order, m.n_slots, ids, cold),
        all_brought_in(m, ids, cold).n_slots == m.n_slots,
        all_brought_in(m, ids, cold).slot_bytes == m.slot_bytes,
        all_brought_in(m, ids, cold).lut.len() == m.lut.len(),
        all_brought_in(m, ids, cold).wf(),
        m.coherent() ==> all_brought_in(m, ids, cold).coherent(),
    decreases ids.len(),
{
    if ids.len() > 0 {
        lemma_brought_in(m, ids.drop_last(), cold);
        let mid = all_brought_in(m, ids.drop_last(), cold);
        law_touch_places(mid.order, mid.n_slots, ids.last(), cold, ids.last());
        if m.coherent() {
            law_brought_in_coherent(mid, ids.last(), cold);
        }
    }
}

/// A batch that names at most as many different blocks as its pool has slots ends with all of them
/// resident and a table that says where: what a window frozen after the batch shows of a named block
/// is the offset of the slot that holds it, and never "absent". Two named blocks of a non-empty size
/// have different entries.
pub proof fn law_batch_table(m: GpuModel, ids: Seq<BlockId>, cold: bool, k: int, l: int)
    requires
        m.wf(),
        m.coherent(),
        ids.to_set().len() <= m.n_slots,
        0 <= k < ids.len(),
        0 <= l < ids.len(),
        ids[k] < m.lut.len(),
        ids[l] < m.lut.len(),
    ensures
        ({
            let after = all_brought_in(m.batch_begun(), ids, cold);
            &&& after.wf()
            &&& after.coherent()
            &&& resident(after.order, ids[k])
            &&& after.lut.len() == m.lut.len()
            &&& after.lut[ids[k] as int] != NOT_RESIDENT
            &&& slot_of_block(after.order, ids[k]) matches Some(slot) && after.lut[ids[k] as int]
                == word_base(slot, m.slot_bytes)
            &&& ids[k] != ids[l] && m.slot_bytes > 0 ==> after.lut[ids[k] as int]
                != after.lut[ids[l] as int]
        }),
{
    let after = all_brought_in(m.batch_begun(), ids, cold);
    law_begin_batch_coherent(m);
    lemma_brought_in(m.batch_begun(), ids, cold);
    law_batch_stays_resident(m.order, m.n_slots, ids, cold);
    lemma_present(after, ids[k]);
    lemma_present(after, ids[l]);
    if ids[k] != ids[l] && m.slot_bytes > 0 {
        law_coherent_entries_differ(after, ids[k], ids[l]);
    }
}

/// A right table shows a resident block's offset.
proof fn lemma_present(m: GpuModel, id: BlockId)
    requires
        m.wf(),
        m.coherent(),
        resident(m.order, id),
        id < m.lut.len(),
    ensures
        m.lut[id as int] != NOT_RESIDENT,
        slot_of_block(m.order, id) matches Some(slot) && m.lut[id as int] == word_base(
            slot,
            m.slot_bytes,
        ),
{
    assert(m.lut_entry(id) == m.lut[id as int]);
    crate::gpu_pager::lemma_slot_in_range(m.order, m.n_slots, id);
    let slot = slot_of_block(m.order, id)->0;
    crate::gpu_pager::law_word_base_fits(slot, slot, m.n_slots, m.slot_bytes);
}

/// Only blocks that were named come into a pool: a block that is resident afterwards was so before or
/// is one of those brought in. So a right table shows the blocks of a layer that pages through another
/// pool as absent.
pub proof fn law_pool_holds_only_named(
    m: GpuModel,
    ids: Seq<BlockId>,
    cold: bool,
    other: BlockId,
)
    requires
        m.wf(),
        !resident(m.order, other),
        !ids.contains(other),
    ensures
        !resident(all_brought_in(m, ids, cold).order, other),
        m.coherent() && other < m.lut.len() ==> all_brought_in(m, ids, cold).lut[other as int]
            == NOT_RESIDENT,
    decreases ids.len(),
{
    lemma_brought_in(m, ids, cold);
    let after = all_brought_in(m, ids, cold);
    if ids.len() > 0 {
        let before = ids.drop_last();
        assert forall|k: int| 0 <= k < before.len() implies before[k] != other by {
            assert(ids[k] == before[k]);
        }
        law_pool_holds_only_named(m, before, cold, other);
        lemma_brought_in(m, before, cold);
        let mid = all_brought_in(m, before, cold);
        assert(ids.last() != other) by {
            assert(ids.contains(ids.last()));
        }
        law_touch_places(mid.order, mid.n_slots, ids.last(), cold, other);
        lemma_position(mid.order, other);
        lemma_position(after.order, other);
    }
    if m.coherent() && other < m.lut.len() {
        lemma_position(after.order, other);
        assert(after.lut_entry(other) == after.lut[other as int]);
    }
}

/// Whether `c` is the copy of one whole block that was staged after `used` bytes of the half: it
/// reads inside the bank, passes the ring inside the half and lands on a slot of the arena.
pub open spec fn copy_in_bounds(job: StageJob, m: GpuModel, used: int, c: SlotCopy) -> bool {
    &&& c.len == m.slot_bytes
    &&& c.src_off + c.len <= job.bank
    &&& c.ring_off == job.half_base + used
    &&& used + c.len <= job.half
    &&& c.arena_off + c.len <= m.n_slots * m.slot_bytes
    &&& exists|slot: u32| slot < m.n_slots && c.arena_off == #[trigger] (slot * m.slot_bytes)
}

/// What a run of staging leaves behind, from any point on.
proof fn lemma_stage(job: StageJob, lids: Seq<u32>, run: StageRun)
    requires
        run.gpu.wf(),
        run.gpu.n_slots * run.gpu.slot_bytes <= usize::MAX,
        job.half_base + job.half <= usize::MAX,
        job.stride == run.gpu.slot_bytes,
        0 <= run.staged <= lids.len(),
        run.cursor >= 0,
        run.failed is None,
    ensures
        ({
            let end = stage_run(job, lids, run);
            let n = run.copies.len() as int;
            &&& run.staged <= end.staged <= lids.len()
            &&& n <= end.copies.len()
            &&& end.copies.take(n) == run.copies
            &&& end.cursor == run.cursor + (end.copies.len() - n) * run.gpu.slot_bytes
            &&& forall|k: int|
                n <= k < end.copies.len() ==> copy_in_bounds(
                    job,
                    run.gpu,
                    run.cursor + (k - n) * run.gpu.slot_bytes,
                    #[trigger] end.copies[k],
                )
            &&& end.failed != Some(PagerError::RingNotMapped) ==> end.gpu == all_brought_in(
                run.gpu,
                block_ids(job.layer_base, lids.subrange(run.staged, end.staged)),
                job.scan,
            )
            &&& end.failed is None && end.staged < lids.len() ==> {
                &&& end.cursor + run.gpu.slot_bytes > job.half
                &&& end.gpu.resolve((job.layer_base + lids[end.staged]) as u32) is Miss
            }
            &&& end.failed is Some ==> end.staged < lids.len() && (end.failed == Some(
                PagerError::RingNotMapped,
            ) && !job.ring_mapped || end.failed == Some(PagerError::ExpertOutOfRange) && !in_bank(
                lids[end.staged],
                job.stride,
                job.bank,
            ))
        }),
    decreases lids.len() - run.staged,
{
    let end = stage_run(job, lids, run);
    let n = run.copies.len() as int;
    let sb = run.gpu.slot_bytes as int;
    let empty = block_ids(job.layer_base, lids.subrange(run.staged, run.staged));
    assert(empty =~= Seq::empty());
    assert(run.copies.take(n) =~= run.copies);
    assert(0 * sb == 0);
    if run.staged < lids.len() {
        let lid = lids[run.staged];
        let id = (job.layer_base + lid) as u32;
        law_touch_places(run.gpu.order, run.gpu.n_slots, id, job.scan, id);
        let next = match run.gpu.resolve(id) {
            Resolution::Hit { .. } => StageRun {
                gpu: run.gpu.brought_in(id, job.scan),
                staged: run.staged + 1,
                ..run
            },
            Resolution::Miss { slot, .. } => StageRun {
                gpu: run.gpu.brought_in(id, job.scan),
                cursor: run.cursor + run.gpu.slot_bytes,
                copies: run.copies.push(
                    SlotCopy {
                        src_off: (lid * job.stride) as usize,
                        ring_off: (job.half_base + run.cursor) as usize,
                        arena_off: (slot * run.gpu.slot_bytes) as usize,
                        len: run.gpu.slot_bytes as usize,
                    },
                ),
                staged: run.staged + 1,
                failed: run.failed,
            },
        };
        if end == stage_run(job, lids, next) && in_bank(lid, job.stride, job.bank) && (
        run.gpu.resolve(id) is Hit || (job.ring_mapped && run.cursor + sb <= job.half)) {
            lemma_stage(job, lids, next);
            let tail = block_ids(job.layer_base, lids.subrange(run.staged + 1, end.staged));
            let one = seq![id];
            assert(all_brought_in(run.gpu, Seq::empty(), job.scan) == run.gpu);
            assert(one.drop_last() =~= Seq::empty());
            assert(one.last() == id);
            assert(all_brought_in(run.gpu, one, job.scan) == next.gpu);
            law_brought_in_concat(run.gpu, one, tail, job.scan);
            assert(one + tail =~= block_ids(
                job.layer_base,
                lids.subrange(run.staged, end.staged),
            ));
            if run.gpu.resolve(id) is Miss {
                let slot = run.gpu.resolve(id)->Miss_slot;
                assert(slot * sb + sb <= run.gpu.n_slots * sb) by (nonlinear_arith)
                    requires
                        slot + 1 <= run.gpu.n_slots,
                        sb >= 0,
                ;
                assert(slot * sb >= 0) by (nonlinear_arith)
                    requires
                        slot >= 0,
                        sb >= 0,
                ;
                let c = next.copies[n];
                assert(lid * job.stride >= 0) by (nonlinear_arith)
                    requires
                        lid >= 0,
                        job.stride >= 0,
                ;
                assert(c.arena_off == slot * run.gpu.slot_bytes);
                assert(copy_in_bounds(job, run.gpu, run.cursor, c));
                assert(end.copies[n] == end.copies.take(n + 1)[n]);
                assert(end.copies.take(n) =~= end.copies.take(n + 1).take(n));
                assert(next.copies.take(n) =~= run.copies);
                assert(end.copies.take(n) =~= run.copies);
                let more = end.copies.len() - (n + 1);
                assert((more + 1) * sb == more * sb + sb) by (nonlinear_arith);
                assert forall|k: int| n <= k < end.copies.len() implies copy_in_bounds(
                    job,
                    run.gpu,
                    run.cursor + (k - n) * run.gpu.slot_bytes,
                    #[trigger] end.copies[k],
                ) by {
                    if k > n {
                        assert(copy_in_bounds(
                            job,
                            next.gpu,
                            next.cursor + (k - (n + 1)) * next.gpu.slot_bytes,
                            end.copies[k],
                        ));
                        assert((k - (n + 1)) * sb + sb == (k - n) * sb) by (nonlinear_arith);
                    }
                }
            }
        }
    }
}

/// What a call of `stage_role` leaves behind: the first `staged` experts were brought in, in their
/// order; each miss has one copy of a whole block; the copies fill the half one after the other
/// from the cursor on, so no two share ring bytes; and each reads and writes inside its buffers.
/// Where it stops early without an error, the next expert is missing and the half has no room for it.
/// An error names an expert outside the bank or a ring that is not mapped.
pub proof fn law_stage_role(
    job: StageJob,
    lids: Seq<u32>,
    gpu: GpuModel,
    cursor: usize,
    copies: Seq<SlotCopy>,
)
    requires
        gpu.wf(),
        gpu.n_slots * gpu.slot_bytes <= usize::MAX,
        job.half_base + job.half <= usize::MAX,
        job.stride == gpu.slot_bytes,
    ensures
        ({
            let end = stage_run(job, lids, stage_start(gpu, cursor, copies));
            let n = copies.len() as int;
            &&& 0 <= end.staged <= lids.len()
            &&& n <= end.copies.len()
            &&& end.copies.take(n) == copies
            &&& end.cursor == cursor + (end.copies.len() - n) * gpu.slot_bytes
            &&& cursor <= job.half ==> cursor <= end.cursor <= job.half
            &&& forall|k: int|
                n <= k < end.copies.len() ==> copy_in_bounds(
                    job,
                    gpu,
                    cursor + (k - n) * gpu.slot_bytes,
                    #[trigger] end.copies[k],
                )
            &&& end.failed != Some(PagerError::RingNotMapped) ==> end.gpu == all_brought_in(
                gpu,
                block_ids(job.layer_base, lids.take(end.staged)),
                job.scan,
            )
            &&& end.failed is None && end.staged < lids.len() ==> {
                &&& end.cursor + gpu.slot_bytes > job.half
                &&& end.gpu.resolve((job.layer_base + lids[end.staged]) as u32) is Miss
            }
            &&& end.failed is Some ==> end.staged < lids.len() && (end.failed == Some(
                PagerError::RingNotMapped,
            ) && !job.ring_mapped || end.failed == Some(PagerError::ExpertOutOfRange) && !in_bank(
                lids[end.staged],
                job.stride,
                job.bank,
            ))
        }),
{
    let start = stage_start(gpu, cursor, copies);
    let end = stage_run(job, lids, start);
    let n = copies.len() as int;
    let sb = gpu.slot_bytes as int;
    lemma_stage(job, lids, start);
    assert(lids.subrange(0, end.staged) =~= lids.take(end.staged));
    let more = end.copies.len() - n;
    if more > 0 {
        let k = end.copies.len() - 1;
        assert(copy_in_bounds(job, gpu, cursor + (k - n) * gpu.slot_bytes, end.copies[k]));
        assert((more - 1) * sb + sb == more * sb) by (nonlinear_arith);
        assert(more * sb >= 0) by (nonlinear_arith)
            requires
                more > 0,
                sb >= 0,
        ;
    } else {
        assert(0 * sb == 0);
    }
}

/// What a registered buffer is staged with fits its pool: blocks of the pool's size, and a ring half
/// that holds at least one. The rest is the bank's own, and what the caller asked for.
pub proof fn law_stage_job<S>(
    s: SessionModel<S>,
    buf_id: usize,
    half_base: usize,
    ring_mapped: bool,
    scan: bool,
)
    requires
        s.wf(),
        s.sources.contains_key(buf_id),
    ensures
        ({
            let job = s.stage_job(buf_id, half_base, ring_mapped, scan);
            &&& s.gpu_of(buf_id).wf()
            &&& job.stride == s.gpu_of(buf_id).slot_bytes
            &&& s.gpu_of(buf_id).slot_bytes <= job.half
            &&& job.half == s.ring_half
            &&& job.stride == s.sources[buf_id].source.stride_bytes
            &&& job.bank == s.sources[buf_id].source.bank_bytes
            &&& job.layer_base == s.sources[buf_id].source.layer_base
            &&& job.half_base == half_base
            &&& job.ring_mapped == ring_mapped
            &&& job.scan == scan
        }),
{
}

/// The pool after the first `i` of the experts `lids` were brought in.
pub open spec fn gpu_before(job: StageJob, lids: Seq<u32>, gpu: GpuModel, i: int) -> GpuModel {
    all_brought_in(gpu, block_ids(job.layer_base, lids.take(i)), job.scan)
}

/// Whether expert `i` of `lids` is missing when its turn comes.
pub open spec fn misses(job: StageJob, lids: Seq<u32>, gpu: GpuModel, i: int) -> bool {
    !resident(gpu_before(job, lids, gpu, i).order, (job.layer_base + lids[i]) as u32)
}

/// How many of the first `i` experts are missing when their turn comes.
pub open spec fn missed_before(job: StageJob, lids: Seq<u32>, gpu: GpuModel, i: int) -> int
    decreases i,
{
    if i <= 0 {
        0
    } else {
        missed_before(job, lids, gpu, i - 1) + if misses(job, lids, gpu, i - 1) {
            1int
        } else {
            0int
        }
    }
}

/// Whether `c` carries expert `i` to its slot: the expert's own slice of the bank, through the next free
/// bytes of the half, to the slot that holds its block from then on.
pub open spec fn carries(
    job: StageJob,
    lids: Seq<u32>,
    gpu: GpuModel,
    cursor: int,
    i: int,
    c: SlotCopy,
) -> bool {
    let id = (job.layer_base + lids[i]) as u32;
    &&& c.src_off == lids[i] * job.stride
    &&& c.len == job.stride
    &&& c.ring_off == job.half_base + cursor + missed_before(job, lids, gpu, i) * job.stride
    &&& slot_of_block(gpu_before(job, lids, gpu, i + 1).order, id) matches Some(slot) && c.arena_off
        == slot * job.stride
}

/// Whether expert `i` lies in the bank and is, where it was missing in its turn, carried to its slot by the
/// next copy after those of the experts before it; the first `n` copies are older.
pub open spec fn staged_rightly(
    job: StageJob,
    lids: Seq<u32>,
    gpu: GpuModel,
    cursor: int,
    copies: Seq<SlotCopy>,
    n: int,
    i: int,
) -> bool {
    let k = n + missed_before(job, lids, gpu, i);
    &&& lids[i] * job.stride + job.stride <= job.bank
    &&& misses(job, lids, gpu, i) ==> job.ring_mapped && 0 <= k < copies.len() && carries(
        job,
        lids,
        gpu,
        cursor,
        i,
        copies[k],
    )
}

/// Why staging stopped at expert `end.staged`.
pub open spec fn stops_rightly(job: StageJob, lids: Seq<u32>, gpu: GpuModel, end: StageRun) -> bool {
    let s = end.staged;
    let id = (job.layer_base + lids[s]) as u32;
    let missing = misses(job, lids, gpu, s);
    let room = end.cursor + job.stride <= job.half;
    let inside = lids[s] * job.stride + job.stride <= job.bank;
    if s == lids.len() {
        end.failed is None && end.gpu == gpu_before(job, lids, gpu, s)
    } else if missing && !room {
        end.failed is None && end.gpu == gpu_before(job, lids, gpu, s)
    } else if !inside {
        end.failed == Some(PagerError::ExpertOutOfRange) && end.gpu == gpu_before(job, lids, gpu, s)
    } else {
        &&& missing && !job.ring_mapped
        &&& end.failed == Some(PagerError::RingNotMapped)
        &&& end.gpu == gpu_before(job, lids, gpu, s).touched(id, job.scan)
    }
}

/// One more expert is brought in.
proof fn lemma_gpu_before_step(job: StageJob, lids: Seq<u32>, gpu: GpuModel, i: int)
    requires
        0 <= i < lids.len(),
    ensures
        gpu_before(job, lids, gpu, i + 1) == gpu_before(job, lids, gpu, i).brought_in(
            (job.layer_base + lids[i]) as u32,
            job.scan,
        ),
{
    let more = block_ids(job.layer_base, lids.take(i + 1));
    assert(more.drop_last() =~= block_ids(job.layer_base, lids.take(i)));
    assert(more.last() == (job.layer_base + lids[i]) as u32);
}

/// What the rest of a run stages, from any point on.
proof fn lemma_stage_carries(
    job: StageJob,
    lids: Seq<u32>,
    gpu: GpuModel,
    cursor: int,
    n: int,
    run: StageRun,
)
    requires
        gpu.wf(),
        gpu.n_slots * gpu.slot_bytes <= usize::MAX,
        job.half_base + job.half <= usize::MAX,
        job.stride == gpu.slot_bytes,
        0 <= run.staged <= lids.len(),
        cursor >= 0,
        n >= 0,
        run.failed is None,
        run.gpu == gpu_before(job, lids, gpu, run.staged),
        run.copies.len() == n + missed_before(job, lids, gpu, run.staged),
        run.cursor == cursor + missed_before(job, lids, gpu, run.staged) * job.stride,
        missed_before(job, lids, gpu, run.staged) >= 0,
    ensures
        ({
            let end = stage_run(job, lids, run);
            &&& run.staged <= end.staged <= lids.len()
            &&& end.copies.len() == n + missed_before(job, lids, gpu, end.staged)
            &&& end.cursor == cursor + missed_before(job, lids, gpu, end.staged) * job.stride
            &&& run.copies.len() <= end.copies.len()
            &&& end.copies.take(run.copies.len() as int) == run.copies
            &&& forall|i: int|
                run.staged <= i < end.staged ==> #[trigger] staged_rightly(
                    job,
                    lids,
                    gpu,
                    cursor,
                    end.copies,
                    n,
                    i,
                )
            &&& stops_rightly(job, lids, gpu, end)
        }),
    decreases lids.len() - run.staged,
{
    let s = run.staged;
    let end = stage_run(job, lids, run);
    let stride = job.stride as int;
    assert(run.copies.take(run.copies.len() as int) =~= run.copies);
    lemma_brought_in(gpu, block_ids(job.layer_base, lids.take(s)), job.scan);
    if s < lids.len() {
        let lid = lids[s];
        let id = (job.layer_base + lid) as u32;
        let m = run.gpu;
        lemma_position(m.order, id);
        lemma_gpu_before_step(job, lids, gpu, s);
        law_touch_places(m.order, m.n_slots, id, job.scan, id);
        let missing = misses(job, lids, gpu, s);
        let k = missed_before(job, lids, gpu, s);
        assert(missing <==> m.resolve(id) is Miss);
        let slot = m.resolve(id)->Miss_slot;
        let room = run.cursor + stride <= job.half;
        if in_bank(lid, job.stride, job.bank) && (!missing || (room && job.ring_mapped)) {
            let copy = SlotCopy {
                src_off: (lid * job.stride) as usize,
                ring_off: (job.half_base + run.cursor) as usize,
                arena_off: (slot * m.slot_bytes) as usize,
                len: m.slot_bytes as usize,
            };
            let next = if missing {
                StageRun {
                    gpu: m.brought_in(id, job.scan),
                    cursor: run.cursor + m.slot_bytes,
                    copies: run.copies.push(copy),
                    staged: s + 1,
                    failed: run.failed,
                }
            } else {
                StageRun { gpu: m.brought_in(id, job.scan), staged: s + 1, ..run }
            };
            assert(end == stage_run(job, lids, next));
            assert((k + 1) * stride == k * stride + stride) by (nonlinear_arith);
            lemma_stage_carries(job, lids, gpu, cursor, n, next);
            if missing {
                assert(k * stride >= 0) by (nonlinear_arith)
                    requires
                        k >= 0,
                        stride >= 0,
                ;
                assert(slot * stride + stride <= m.n_slots * stride) by (nonlinear_arith)
                    requires
                        slot + 1 <= m.n_slots,
                        stride >= 0,
                ;
                assert(slot * stride >= 0 && lid * stride >= 0) by (nonlinear_arith)
                    requires
                        slot >= 0,
                        lid >= 0,
                        stride >= 0,
                ;
                let at = run.copies.len() as int;
                assert(end.copies[at] == end.copies.take(at + 1)[at]);
                assert(end.copies[at] == copy);
                assert(carries(job, lids, gpu, cursor, s, copy));
                assert(end.copies.take(at) =~= end.copies.take(at + 1).take(at));
                assert(next.copies.take(at) =~= run.copies);
            }
            assert(staged_rightly(job, lids, gpu, cursor, end.copies, n, s));
        }
    }
}

/// What staging copies: every missing expert in its turn, and nothing else, is carried from its own slice
/// of the bank, one after the other through the half, to the slot that its block holds from then on.
/// Every expert that is done lies in the bank. It stops at the end of the list; or where the next expert
/// is missing and the half has no room for it, without an error; or with the error that holds of the next
/// expert.
pub proof fn law_stage_carries(
    job: StageJob,
    lids: Seq<u32>,
    gpu: GpuModel,
    cursor: usize,
    copies: Seq<SlotCopy>,
)
    requires
        gpu.wf(),
        gpu.n_slots * gpu.slot_bytes <= usize::MAX,
        job.half_base + job.half <= usize::MAX,
        job.stride == gpu.slot_bytes,
    ensures
        ({
            let end = stage_run(job, lids, stage_start(gpu, cursor, copies));
            let n = copies.len() as int;
            &&& 0 <= end.staged <= lids.len()
            &&& end.copies.len() == n + missed_before(job, lids, gpu, end.staged)
            &&& end.copies.take(n) == copies
            &&& forall|i: int|
                0 <= i < end.staged ==> #[trigger] staged_rightly(
                    job,
                    lids,
                    gpu,
                    cursor as int,
                    end.copies,
                    n,
                    i,
                )
            &&& stops_rightly(job, lids, gpu, end)
        }),
{
    let start = stage_start(gpu, cursor, copies);
    assert(block_ids(job.layer_base, lids.take(0)) =~= Seq::empty());
    assert(0 * job.stride == 0);
    lemma_stage_carries(job, lids, gpu, cursor as int, copies.len() as int, start);
}

/// A batch of blocks that are all resident uploads nothing: every block keeps its slot, and the table
/// and what the device was told stay as they are.
pub proof fn law_all_hits(m: GpuModel, ids: Seq<BlockId>, b: BlockId)
    requires
        m.wf(),
        forall|k: int| 0 <= k < ids.len() ==> resident(m.order, #[trigger] ids[k]),
    ensures
        ({
            let after = all_brought_in(m.batch_begun(), ids, false);
            &&& slot_of_block(after.order, b) == slot_of_block(m.order, b)
            &&& after.lut == m.lut
            &&& after.dirty == m.dirty
            &&& after.stats.misses == m.stats.misses
            &&& after.stats.evictions == m.stats.evictions
            &&& ids.len() > 0 ==> after.order.last().block == ids.last()
        }),
    decreases ids.len(),
{
    law_begin_batch_coherent(m);
    crate::pager::lemma_untouched_wf(m.order, m.n_slots);
    if ids.len() > 0 {
        let before = ids.drop_last();
        assert forall|k: int| 0 <= k < before.len() implies resident(m.order, #[trigger] before[k]) by {
            assert(before[k] == ids[k]);
        }
        law_all_hits(m, before, b);
        law_all_hits(m, before, ids.last());
        lemma_brought_in(m.batch_begun(), before, false);
        let mid = all_brought_in(m.batch_begun(), before, false);
        assert(ids[ids.len() - 1] == ids.last());
        lemma_position(m.order, ids.last());
        lemma_position(mid.order, ids.last());
        law_touch_places(mid.order, mid.n_slots, ids.last(), false, b);
    }
}

/// A table that is sent is sent whole, and it is sent if and only if it changed.
pub proof fn law_flush_image(gpu: GpuModel, image: Option<Vec<u8>>)
    requires
        flush_image(gpu, image),
    ensures
        image is Some <==> gpu.dirty,
        image matches Some(b) ==> b@.len() == gpu.lut.len() * 4,
{
}

/// Touching a role goes through the experts in their order and stops at the first that needs something:
/// all before it are in the bank and resident, and it is not both.
pub proof fn law_role_stop(
    gpu: GpuModel,
    base: u32,
    stride: usize,
    bank: usize,
    lids: Seq<u32>,
    from: int,
)
    requires
        0 <= from <= lids.len(),
    ensures
        ({
            let stop = role_stop(gpu, base, stride, bank, lids, from);
            &&& from <= stop <= lids.len()
            &&& forall|i: int|
                from <= i < stop ==> (#[trigger] lids[i]) * stride + stride <= bank && resident(
                    gpu.order,
                    (base + lids[i]) as u32,
                )
            &&& stop < lids.len() ==> lids[stop] * stride + stride > bank || !resident(
                gpu.order,
                (base + lids[stop]) as u32,
            )
        }),
    decreases lids.len() - from,
{
    if from < lids.len() {
        law_role_stop(gpu, base, stride, bank, lids, from + 1);
    }
}

/// A role's counters are the sums over its pools: one more pool adds its counters to its own role and
/// nothing to another.
pub proof fn law_role_counters(pools: Seq<PoolModel>, p: PoolModel, role: Role)
    ensures
        ({
            let more = pools.push(p);
            let s = p.gpu.stats;
            &&& role_hits(Seq::empty(), role) == 0
            &&& role_misses(Seq::empty(), role) == 0
            &&& role_evictions(Seq::empty(), role) == 0
            &&& p.role == role ==> {
                &&& role_hits(more, role) == role_hits(pools, role) + s.hits
                &&& role_misses(more, role) == role_misses(pools, role) + s.misses
                &&& role_evictions(more, role) == role_evictions(pools, role) + s.evictions
            }
            &&& p.role != role ==> {
                &&& role_hits(more, role) == role_hits(pools, role)
                &&& role_misses(more, role) == role_misses(pools, role)
                &&& role_evictions(more, role) == role_evictions(pools, role)
            }
        }),
{
    assert(pools.push(p).drop_last() =~= pools);
}

/// Staging makes progress: with an unused half that holds a slot, a mapped ring and experts inside
/// the bank, at least one expert is staged and no error comes.
pub proof fn law_stage_progress(
    job: StageJob,
    lids: Seq<u32>,
    gpu: GpuModel,
    copies: Seq<SlotCopy>,
)
    requires
        gpu.wf(),
        gpu.n_slots * gpu.slot_bytes <= usize::MAX,
        job.half_base + job.half <= usize::MAX,
        job.stride == gpu.slot_bytes,
        gpu.slot_bytes <= job.half,
        job.ring_mapped,
        lids.len() > 0,
        forall|i: int| 0 <= i < lids.len() ==> in_bank(#[trigger] lids[i], job.stride, job.bank),
    ensures
        ({
            let end = stage_run(job, lids, stage_start(gpu, 0, copies));
            &&& end.failed is None
            &&& end.staged >= 1
        }),
{
    law_stage_role(job, lids, gpu, 0, copies);
    let start = stage_start(gpu, 0, copies);
    let lid = lids[0];
    let id = (job.layer_base + lid) as u32;
    assert(in_bank(lid, job.stride, job.bank));
    law_touch_places(gpu.order, gpu.n_slots, id, job.scan, id);
    let next = match gpu.resolve(id) {
        Resolution::Hit { .. } => StageRun {
            gpu: gpu.brought_in(id, job.scan),
            staged: 1,
            ..start
        },
        Resolution::Miss { slot, .. } => StageRun {
            gpu: gpu.brought_in(id, job.scan),
            cursor: gpu.slot_bytes as int,
            copies: copies.push(
                SlotCopy {
                    src_off: (lid * job.stride) as usize,
                    ring_off: job.half_base,
                    arena_off: (slot * gpu.slot_bytes) as usize,
                    len: gpu.slot_bytes as usize,
                },
            ),
            staged: 1,
            failed: None,
        },
    };
    assert(stage_run(job, lids, start) == stage_run(job, lids, next));
    lemma_stage(job, lids, next);
}

/// Turning to the other half in the middle of a batch loses nothing: what a first call staged and what
/// a second call staged of the rest is brought in as if one call had staged it all, in a batch that
/// stays the same.
pub proof fn law_rotation(
    job: StageJob,
    next_job: StageJob,
    lids: Seq<u32>,
    gpu: GpuModel,
    cursor: usize,
    copies: Seq<SlotCopy>,
)
    requires
        gpu.wf(),
        gpu.n_slots * gpu.slot_bytes <= usize::MAX,
        job.half_base + job.half <= usize::MAX,
        job.stride == gpu.slot_bytes,
        next_job.half_base + next_job.half <= usize::MAX,
        next_job.layer_base == job.layer_base,
        next_job.stride == job.stride,
        next_job.scan == job.scan,
        job.ring_mapped && next_job.ring_mapped,
    ensures
        ({
            let first = stage_run(job, lids, stage_start(gpu, cursor, copies));
            let rest = lids.skip(first.staged);
            let second = stage_run(next_job, rest, stage_start(first.gpu, 0, Seq::empty()));
            second.gpu == all_brought_in(
                gpu,
                block_ids(job.layer_base, lids.take(first.staged + second.staged)),
                job.scan,
            )
        }),
{
    law_stage_role(job, lids, gpu, cursor, copies);
    let first = stage_run(job, lids, stage_start(gpu, cursor, copies));
    let done = block_ids(job.layer_base, lids.take(first.staged));
    lemma_brought_in(gpu, done, job.scan);
    let rest = lids.skip(first.staged);
    law_stage_role(next_job, rest, first.gpu, 0, Seq::empty());
    let second = stage_run(next_job, rest, stage_start(first.gpu, 0, Seq::empty()));
    let more = block_ids(job.layer_base, rest.take(second.staged));
    law_brought_in_concat(gpu, done, more, job.scan);
    assert(done + more =~= block_ids(job.layer_base, lids.take(first.staged + second.staged)));
}

/// A window that is frozen after a batch of a layer's experts shows each of them where it is, if they
/// are no more than the pool has slots and the table has entries for the layer.
pub proof fn law_window_shows_batch(
    m: GpuModel,
    base: u32,
    n_expert: nat,
    lids: Seq<u32>,
    cold: bool,
    k: int,
)
    requires
        m.wf(),
        m.coherent(),
        base + n_expert <= m.lut.len(),
        base + n_expert <= u32::MAX + 1,
        block_ids(base, lids).to_set().len() <= m.n_slots,
        0 <= k < lids.len(),
        lids[k] < n_expert,
    ensures
        ({
            let after = all_brought_in(m.batch_begun(), block_ids(base, lids), cold);
            let window = after.lut.subrange(base as int, base + n_expert);
            &&& slot_of_block(after.order, (base + lids[k]) as u32) matches Some(slot)
                && window[lids[k] as int] == word_base(slot, m.slot_bytes)
            &&& window[lids[k] as int] != NOT_RESIDENT
        }),
{
    let ids = block_ids(base, lids);
    assert(ids[k] == (base + lids[k]) as u32);
    law_batch_table(m, ids, cold, k, k);
}

/// First expert from number `from` on that lies outside the bank or is missing.
pub open spec fn role_stop(
    gpu: GpuModel,
    base: u32,
    stride: usize,
    bank: usize,
    lids: Seq<u32>,
    from: int,
) -> int
    decreases lids.len() - from,
{
    if from < 0 || from >= lids.len() {
        from
    } else if in_bank(lids[from], stride, bank) && resident(
        gpu.order,
        (base + lids[from]) as u32,
    ) {
        role_stop(gpu, base, stride, bank, lids, from + 1)
    } else {
        from
    }
}

/// What is left to do for [`MoePagerSession::touch_role`].
#[derive(Debug)]
pub enum RoleStep {
    /// `len` bytes from `src_off` of the bank have to be copied to `arena_off` of the arena; then
    /// [`MoePagerSession::touch_placed`] is due with the other fields, and another `touch_role`.
    Upload {
        id: BlockId,
        slot: u32,
        evicted: Option<BlockId>,
        src_off: usize,
        arena_off: usize,
        len: usize,
    },
    /// All experts are resident. The image, where there is one, has to be sent to the device table;
    /// then [`MoePagerSession::touch_flushed`] is due.
    Flush { image: Option<Vec<u8>> },
}

/// Whether `image` is what the device table has to hold: the table of `gpu` where it changed since
/// it was last sent, in the byte order of the machine, and nothing where it did not.
pub open spec fn flush_image(gpu: GpuModel, image: Option<Vec<u8>>) -> bool {
    match image {
        Some(b) => gpu.dirty && (b@ == little_endian(gpu.lut) || b@ == big_endian(gpu.lut)),
        None => !gpu.dirty,
    }
}

/// A frozen table window: `words` go to the tape at word `offset`.
#[derive(Debug)]
pub struct LutWindow {
    pub offset: u32,
    pub words: Vec<u32>,
}

/// Sum of the counters of all pools of `role`.
pub open spec fn role_hits(pools: Seq<PoolModel>, role: Role) -> int
    decreases pools.len(),
{
    if pools.len() == 0 {
        0
    } else {
        role_hits(pools.drop_last(), role) + if pools.last().role == role {
            pools.last().gpu.stats.hits as int
        } else {
            0
        }
    }
}

pub open spec fn role_misses(pools: Seq<PoolModel>, role: Role) -> int
    decreases pools.len(),
{
    if pools.len() == 0 {
        0
    } else {
        role_misses(pools.drop_last(), role) + if pools.last().role == role {
            pools.last().gpu.stats.misses as int
        } else {
            0
        }
    }
}

pub open spec fn role_evictions(pools: Seq<PoolModel>, role: Role) -> int
    decreases pools.len(),
{
    if pools.len() == 0 {
        0
    } else {
        role_evictions(pools.drop_last(), role) + if pools.last().role == role {
            pools.last().gpu.stats.evictions as int
        } else {
            0
        }
    }
}

/// A sum over fewer pools is no larger.
proof fn lemma_role_sums(pools: Seq<PoolModel>, role: Role, k: int)
    requires
        0 <= k <= pools.len(),
    ensures
        0 <= role_hits(pools.take(k), role) <= role_hits(pools, role),
        0 <= role_misses(pools.take(k), role) <= role_misses(pools, role),
        0 <= role_evictions(pools.take(k), role) <= role_evictions(pools, role),
    decreases pools.len(),
{
    if k < pools.len() {
        lemma_role_sums(pools.drop_last(), role, k);
        assert(pools.drop_last().take(k) =~= pools.take(k));
    } else {
        assert(pools.take(k) =~= pools);
        if k > 0 {
            lemma_role_sums(pools.drop_last(), role, k - 1);
            assert(pools.drop_last().take(k - 1) =~= pools.drop_last());
        }
    }
}

/// The local numbers of the first `n` experts of a layer.
pub open spec fn first_experts(n: nat) -> Seq<u32> {
    Seq::new(n, |i: int| i as u32)
}

/// One more expert, one more block number.
proof fn lemma_ids_step(base: u32, e: u32)
    requires
        base + e <= u32::MAX,
    ensures
        block_ids(base, first_experts((e + 1) as nat)).drop_last() == block_ids(
            base,
            first_experts(e as nat),
        ),
        block_ids(base, first_experts((e + 1) as nat)).last() == (base + e) as u32,
{
    assert(block_ids(base, first_experts((e + 1) as nat)).drop_last() =~= block_ids(
        base,
        first_experts(e as nat),
    ));
}

/// Touching a resident block brings nothing in and leaves every block where it is.
proof fn lemma_hit(m: GpuModel, id: BlockId, cold: bool)
    requires
        m.wf(),
        resident(m.order, id),
    ensures
        m.resolve(id) is Hit,
        m.brought_in(id, cold) == m.touched(id, cold),
        m.touched(id, cold).wf(),
        forall|b: BlockId| #[trigger]
            resident(m.touched(id, cold).order, b) == resident(m.order, b),
{
    let next = m.touched(id, cold);
    lemma_position(m.order, id);
    law_touch_places(m.order, m.n_slots, id, cold, id);
    assert forall|b: BlockId| #[trigger] resident(next.order, b) == resident(m.order, b) by {
        law_touch_places(m.order, m.n_slots, id, cold, b);
        lemma_position(m.order, b);
        lemma_position(next.order, b);
    }
}

/// Opening a batch keeps a block resident.
proof fn lemma_untouched_resident(order: Seq<crate::pager::Entry>, id: BlockId)
    requires
        resident(order, id),
    ensures
        resident(untouched(order), id),
{
    let i = choose|i: int| 0 <= i < order.len() && (#[trigger] order[i]).block == id;
    assert(untouched(order)[i].block == id);
}

/// Whether expert `lid` lies inside a bank of `bank` bytes with `stride` bytes for each expert.
fn fits_bank(lid: u32, stride: usize, bank: usize) -> (r: bool)
    ensures
        r == in_bank(lid, stride, bank),
        r ==> lid * stride <= usize::MAX,
{
    if stride == 0 {
        proof {
            assert(lid * stride == 0) by (nonlinear_arith)
                requires
                    stride == 0,
            ;
        }
        return true;
    }
    let whole: usize = bank / stride;
    proof {
        assert(lid < whole <==> lid * stride + stride <= bank) by (nonlinear_arith)
            requires
                stride > 0,
                whole == bank / stride,
        ;
    }
    (lid as usize) < whole
}

/// One pool's counters, for a report.
#[derive(Clone, Copy, Debug, PartialEq, Eq, Structural)]
pub struct PoolReport {
    pub role: Role,
    pub slot_bytes: usize,
    pub n_slots: usize,
    pub stats: PagerStats,
}

/// One model's paged experts. `B` is the caller's device buffer handle, `S` its handle of an expert
/// bank.
pub struct MoePagerSession<B, S> {
    pools: Vec<Pool<B>>,
    /// From the identity of a placeholder buffer to the bank behind it.
    sources: HashMap<usize, Registered<S>>,
    staging: B,
    ring: B,
    ring_half_bytes: usize,
    tape: B,
    print_stats: bool,
}

impl<B, S> View for MoePagerSession<B, S> {
    type V = SessionModel<S>;

    closed spec fn view(&self) -> SessionModel<S> {
        SessionModel {
            pools: self.pools@.map_values(
                |p: Pool<B>| PoolModel { role: p.role, gpu: p.pager@ },
            ),
            sources: self.sources@,
            ring_half: self.ring_half_bytes as nat,
        }
    }
}

impl<B, S> MoePagerSession<B, S> {
    pub closed spec fn handles(&self) -> SessionHandles<B> {
        SessionHandles {
            arenas: self.pools@.map_values(|p: Pool<B>| p.pager.arena_handle()),
            luts: self.pools@.map_values(|p: Pool<B>| p.pager.lut_handle()),
            staging: self.staging,
            ring: self.ring,
            tape: self.tape,
        }
    }

    pub closed spec fn reports(&self) -> bool {
        self.print_stats
    }

    pub closed spec fn wf(&self) -> bool {
        &&& self@.wf()
        &&& forall|p: int| 0 <= p < self.pools@.len() ==> (#[trigger] self.pools@[p]).pager.wf()
    }

    /// What `wf` says of the view.
    pub proof fn lemma_wf(&self)
        requires
            self.wf(),
        ensures
            self@.wf(),
            self@.ring_half <= usize::MAX,
            self@.pools.len() <= usize::MAX,
            self.handles().arenas.len() == self@.pools.len(),
            self.handles().luts.len() == self@.pools.len(),
            forall|p: int|
                0 <= p < self@.pools.len() ==> (#[trigger] self@.pools[p]).gpu.n_slots
                    * self@.pools[p].gpu.slot_bytes <= usize::MAX,
    {
        assert(self.pools.len() == self.pools@.len());
        assert forall|p: int| 0 <= p < self@.pools.len() implies (
        #[trigger] self@.pools[p]).gpu.n_slots * self@.pools[p].gpu.slot_bytes <= usize::MAX by {
            assert(self.pools@[p].pager.wf());
            self.pools@[p].pager.lemma_wf();
        }
    }

    /// A session without registered banks. `pagers` are the pools of `layout`, in its order, each
    /// made from `GpuPager::plan` with the layout's block count, and the buffers have the sizes
    /// that [`MoePagerLayout::plan`] gave.
    pub fn new(
        layout: &MoePagerLayout,
        plan: SessionPlan,
        pagers: Vec<GpuPager<B>>,
        staging: B,
        ring: B,
        tape: B,
        print_stats: bool,
    ) -> (r: Self)
        requires
            pagers@.len() == layout.pools@.len(),
            forall|p: int|
                0 <= p < pagers@.len() ==> {
                    &&& (#[trigger] pagers@[p]).wf()
                    &&& pagers@[p]@.slot_bytes == layout.pools@[p].slot_bytes
                    &&& pagers@[p]@.n_slots == layout.pools@[p].n_slots
                },
            plan.ring_half_bytes >= largest_slot(layout.pools@),
        ensures
            r.wf(),
            r@.pools == Seq::new(
                pagers@.len(),
                |p: int| PoolModel { role: layout.pools@[p].role, gpu: pagers@[p]@ },
            ),
            r@.sources == Map::<usize, Registered<S>>::empty(),
            r@.ring_half == plan.ring_half_bytes,
            r.handles() == (SessionHandles {
                arenas: pagers@.map_values(|p: GpuPager<B>| p.arena_handle()),
                luts: pagers@.map_values(|p: GpuPager<B>| p.lut_handle()),
                staging,
                ring,
                tape,
            }),
            r.reports() == print_stats,
    {
        let ghost given = pagers@;
        let mut rest = pagers;
        let mut pools: Vec<Pool<B>> = Vec::new();
        let mut i: usize = 0;
        while i < layout.pools.len()
            invariant
                i <= layout.pools.len(),
                given.len() == layout.pools@.len(),
                rest@ == given.skip(i as int),
                pools@.len() == i,
                forall|p: int|
                    0 <= p < i ==> (#[trigger] pools@[p]).pager == given[p] && pools@[p].role
                        == layout.pools@[p].role,
            decreases layout.pools.len() - i,
        {
            let pager = rest.remove(0);
            pools.push(Pool { role: layout.pools[i].role, pager });
            i += 1;
        }
        proof {
            lemma_largest_slot(layout.pools@);
        }
        let r = MoePagerSession {
            pools,
            sources: HashMap::new(),
            staging,
            ring,
            ring_half_bytes: plan.ring_half_bytes,
            tape,
            print_stats,
        };
        proof {
            assert forall|p: int| 0 <= p < r@.pools.len() implies (#[trigger] r@.pools[p]).gpu.wf()
                && r@.pools[p].gpu.slot_bytes <= r@.ring_half by {
                assert(r.pools@[p].pager == given[p]);
                given[p].lemma_wf();
                assert(layout.pools@[p].slot_bytes <= largest_slot(layout.pools@));
            }
            assert(r@.pools =~= Seq::new(
                given.len(),
                |p: int| PoolModel { role: layout.pools@[p].role, gpu: given[p]@ },
            ));
            assert(r.handles().arenas =~= given.map_values(|p: GpuPager<B>| p.arena_handle()));
            assert(r.handles().luts =~= given.map_values(|p: GpuPager<B>| p.lut_handle()));
        }
        r
    }

    /// Registers the bank behind the placeholder `buf_id`. It pages through the first pool of its
    /// role and block size; without one it is refused.
    pub fn register(&mut self, role: Role, buf_id: usize, source: ExpertSource<S>) -> (r: Result<
        (),
        PagerError,
    >)
        requires
            old(self).wf(),
        ensures
            final(self).wf(),
            final(self).handles() == old(self).handles(),
            final(self).reports() == old(self).reports(),
            match r {
                Ok(_) => {
                    let e = final(self)@.sources[buf_id];
                    &&& first_fit(old(self)@.pools, e.pool as int, role, source.stride_bytes)
                    &&& e == (Registered { role, pool: e.pool, source })
                    &&& final(self)@ == (SessionModel {
                        sources: old(self)@.sources.insert(buf_id, e),
                        ..old(self)@
                    })
                },
                Err(e) => {
                    &&& forall|p: int|
                        !#[trigger] pool_fits(old(self)@.pools, p, role, source.stride_bytes)
                    &&& final(self)@ == old(self)@
                    &&& e == PagerError::NoPool { role, stride_bytes: source.stride_bytes }
                },
            },
    {
        let mut i: usize = 0;
        while i < self.pools.len()
            invariant
                self.wf(),
                self@ == old(self)@,
                self.handles() == old(self).handles(),
                self.reports() == old(self).reports(),
                i <= self.pools.len(),
                forall|q: int|
                    0 <= q < i ==> !#[trigger] pool_fits(
                        self@.pools,
                        q,
                        role,
                        source.stride_bytes,
                    ),
            decreases self.pools.len() - i,
        {
            if self.pools[i].role == role && self.pools[i].pager.slot_bytes()
                == source.stride_bytes {
                let entry = Registered { role, pool: i, source };
                assert(first_fit(self@.pools, i as int, role, source.stride_bytes));
                self.sources.insert(buf_id, entry);
                return Ok(());
            }
            i += 1;
        }
        Err(PagerError::NoPool { role, stride_bytes: source.stride_bytes })
    }

    /// Whether `buf_id` is a registered bank of `role`.
    pub fn is_paged(&self, role: Role, buf_id: usize) -> (r: bool)
        ensures
            r == (self@.sources.contains_key(buf_id) && self@.sources[buf_id].role == role),
    {
        match self.sources.get(&buf_id) {
            Some(e) => e.role == role,
            None => false,
        }
    }

    /// The bank behind `buf_id`.
    pub fn source(&self, buf_id: usize) -> (r: Option<&ExpertSource<S>>)
        ensures
            match r {
                Some(s) => self@.sources.contains_key(buf_id) && *s == self@.sources[buf_id].source,
                None => !self@.sources.contains_key(buf_id),
            },
    {
        match self.sources.get(&buf_id) {
            Some(e) => Some(&e.source),
            None => None,
        }
    }

    pub fn staging(&self) -> (r: &B)
        ensures
            *r == self.handles().staging,
    {
        &self.staging
    }

    /// The upload ring. How much of it is in use is up to the caller.
    pub fn ring(&self) -> (r: &B)
        ensures
            *r == self.handles().ring,
    {
        &self.ring
    }

    pub fn ring_half_bytes(&self) -> (r: usize)
        ensures
            r == self@.ring_half,
    {
        self.ring_half_bytes
    }

    /// The tape of frozen table windows.
    pub fn tape(&self) -> (r: &B)
        ensures
            *r == self.handles().tape,
    {
        &self.tape
    }

    /// Whether all `n_expert` experts of `buf_id`'s layer are resident; then any routing is covered.
    pub fn all_resident(&self, buf_id: usize, n_expert: usize) -> (r: bool)
        requires
            self.wf(),
            n_expert <= u32::MAX,
            self@.sources.contains_key(buf_id) ==> self@.base_of(buf_id) + n_expert <= u32::MAX + 1,
        ensures
            r == (self@.sources.contains_key(buf_id) && forall|e: u32|
                e < n_expert ==> #[trigger] resident(
                    self@.gpu_of(buf_id).order,
                    (self@.base_of(buf_id) + e) as u32,
                )),
    {
        let (pool, base): (usize, u32) = match self.sources.get(&buf_id) {
            Some(e) => (e.pool, e.source.layer_base),
            None => {
                return false;
            },
        };
        let n = n_expert as u32;
        let mut e: u32 = 0;
        while e < n
            invariant
                e <= n == n_expert,
                base + n_expert <= u32::MAX + 1,
                self.wf(),
                self@.sources.contains_key(buf_id),
                pool == self@.sources[buf_id].pool,
                base == self@.base_of(buf_id),
                pool < self.pools@.len(),
                forall|k: u32|
                    k < e ==> #[trigger] resident(
                        self@.gpu_of(buf_id).order,
                        (self@.base_of(buf_id) + k) as u32,
                    ),
            decreases n - e,
        {
            if !self.pools[pool].pager.is_resident(base + e) {
                assert(!resident(
                    self@.gpu_of(buf_id).order,
                    (self@.base_of(buf_id) + e) as u32,
                ));
                return false;
            }
            e += 1;
        }
        true
    }

    /// Opens a touch batch on `buf_id`'s pool: once for each layer and role, before the first
    /// [`Self::stage_role`] of the batch.
    pub fn begin_batch(&mut self, buf_id: usize)
        requires
            old(self).wf(),
            old(self)@.sources.contains_key(buf_id),
        ensures
            final(self).wf(),
            final(self).handles() == old(self).handles(),
            final(self).reports() == old(self).reports(),
            final(self)@ == old(self)@.with_gpu(buf_id, old(self)@.gpu_of(buf_id).batch_begun()),
    {
        let pool: usize = self.sources.get(&buf_id).unwrap().pool;
        let ghost before = *self;
        self.pools[pool].pager.begin_batch();
        proof {
            before.lemma_pool_changed(self, pool as int);
        }
    }

    /// Marks all `n_expert` experts of `buf_id`'s layer as just used, in a batch of their own. All of
    /// them have to be resident (see [`Self::all_resident`]): then nothing is uploaded and the table
    /// does not change.
    pub fn touch_all_hits(&mut self, buf_id: usize, n_expert: usize)
        requires
            old(self).wf(),
            old(self)@.sources.contains_key(buf_id),
            n_expert <= u32::MAX,
            old(self)@.base_of(buf_id) + n_expert <= u32::MAX + 1,
            forall|e: u32|
                e < n_expert ==> #[trigger] resident(
                    old(self)@.gpu_of(buf_id).order,
                    (old(self)@.base_of(buf_id) + e) as u32,
                ),
        ensures
            final(self).wf(),
            final(self).handles() == old(self).handles(),
            final(self).reports() == old(self).reports(),
            final(self)@ == old(self)@.with_gpu(
                buf_id,
                all_brought_in(
                    old(self)@.gpu_of(buf_id).batch_begun(),
                    block_ids(old(self)@.base_of(buf_id), first_experts(n_expert as nat)),
                    false,
                ),
            ),
            final(self)@.gpu_of(buf_id).lut == old(self)@.gpu_of(buf_id).lut,
            final(self)@.gpu_of(buf_id).dirty == old(self)@.gpu_of(buf_id).dirty,
    {
        let (pool, base): (usize, u32) = {
            let e = self.sources.get(&buf_id).unwrap();
            (e.pool, e.source.layer_base)
        };
        let ghost before = *self;
        let ghost start = self@.gpu_of(buf_id).batch_begun();
        let n = n_expert as u32;
        proof {
            law_begin_batch_coherent(self@.gpu_of(buf_id));
            assert forall|k: u32| k < n_expert implies #[trigger] resident(
                start.order,
                (base + k) as u32,
            ) by {
                assert(resident(before@.gpu_of(buf_id).order, (base + k) as u32));
                lemma_untouched_resident(before@.gpu_of(buf_id).order, (base + k) as u32);
            }
        }
        self.begin_batch(buf_id);
        let mut e: u32 = 0;
        assert(block_ids(base, first_experts(0)) =~= Seq::empty());
        assert(before@.with_gpu(buf_id, start).gpu_of(buf_id) == start);
        while e < n
            invariant
                e <= n == n_expert,
                base + n_expert <= u32::MAX + 1,
                before.wf(),
                before@.sources.contains_key(buf_id),
                pool == before@.sources[buf_id].pool,
                base == before@.base_of(buf_id),
                pool < self.pools@.len(),
                start.wf(),
                start.lut == before@.gpu_of(buf_id).lut,
                start.dirty == before@.gpu_of(buf_id).dirty,
                self.wf(),
                self.handles() == before.handles(),
                self.reports() == before.reports(),
                self@ == before@.with_gpu(buf_id, self@.gpu_of(buf_id)),
                self@.gpu_of(buf_id) == all_brought_in(
                    start,
                    block_ids(base, first_experts(e as nat)),
                    false,
                ),
                self@.gpu_of(buf_id).wf(),
                self@.gpu_of(buf_id).lut == start.lut,
                self@.gpu_of(buf_id).dirty == start.dirty,
                forall|k: u32|
                    k < n_expert ==> #[trigger] resident(
                        self@.gpu_of(buf_id).order,
                        (base + k) as u32,
                    ),
            decreases n - e,
        {
            let ghost held = *self;
            let ghost m = self@.gpu_of(buf_id);
            proof {
                assert(resident(m.order, (base + e) as u32));
                lemma_hit(m, (base + e) as u32, false);
                lemma_ids_step(base, e);
            }
            let _ = self.pools[pool].pager.touch(base + e);
            proof {
                held.lemma_pool_changed(self, pool as int);
                let next = self@.gpu_of(buf_id);
                assert(next == m.touched((base + e) as u32, false));
                assert forall|k: u32| k < n_expert implies #[trigger] resident(
                    next.order,
                    (base + k) as u32,
                ) by {
                    assert(resident(m.order, (base + k) as u32));
                }
                assert(self@.pools =~= before@.with_gpu(buf_id, next).pools);
            }
            e += 1;
        }
    }

    /// Makes the experts `lids` of `buf_id`'s layer resident, from the first on that `global` does
    /// not list yet: `global` gets the block number of each that is done. Stops at the first that
    /// is missing, which owns a slot from then on, and says what to upload; call it again once that
    /// is done and placed. An expert outside the bank is refused; what was done before stays done.
    pub fn touch_role(
        &mut self,
        role: Role,
        buf_id: usize,
        lids: &[u32],
        global: &mut Vec<u32>,
    ) -> (r: Result<RoleStep, PagerError>)
        requires
            old(self).wf(),
            old(self)@.sources.contains_key(buf_id) ==> old(self)@.sources[buf_id].role == role,
            old(self)@.sources.contains_key(buf_id) ==> ids_fit(old(self)@.base_of(buf_id), lids@),
            old(global)@.len() <= lids@.len(),
        ensures
            final(self).wf(),
            final(self).handles() == old(self).handles(),
            final(self).reports() == old(self).reports(),
            !old(self)@.sources.contains_key(buf_id) ==> {
                &&& r == Err::<RoleStep, PagerError>(PagerError::Unregistered)
                &&& final(self)@ == old(self)@
                &&& final(global)@ == old(global)@
            },
            old(self)@.sources.contains_key(buf_id) ==> {
                let m = old(self)@.gpu_of(buf_id);
                let base = old(self)@.base_of(buf_id);
                let stride = old(self)@.sources[buf_id].source.stride_bytes;
                let bank = old(self)@.sources[buf_id].source.bank_bytes;
                let from = old(global)@.len() as int;
                let stop = role_stop(m, base, stride, bank, lids@, from);
                let done = block_ids(base, lids@.subrange(from, stop));
                let hit = all_brought_in(m, done, false);
                let id = (base + lids@[stop]) as u32;
                &&& from <= stop <= lids@.len()
                &&& final(global)@ == old(global)@ + done
                &&& if stop == lids@.len() {
                    &&& final(self)@ == old(self)@.with_gpu(buf_id, hit)
                    &&& r matches Ok(RoleStep::Flush { image })
                    &&& flush_image(m, image)
                } else if !in_bank(lids@[stop], stride, bank) {
                    &&& final(self)@ == old(self)@.with_gpu(buf_id, hit)
                    &&& r == Err::<RoleStep, PagerError>(PagerError::ExpertOutOfRange)
                } else {
                    &&& final(self)@ == old(self)@.with_gpu(buf_id, hit.touched(id, false))
                    &&& hit.resolve(id) matches Resolution::Miss { slot, evicted }
                    &&& slot < m.n_slots
                    &&& r == Ok::<RoleStep, PagerError>(
                        RoleStep::Upload {
                            id,
                            slot,
                            evicted,
                            src_off: (lids@[stop] * stride) as usize,
                            arena_off: (slot * m.slot_bytes) as usize,
                            len: stride,
                        },
                    )
                }
            },
    {
        let (pool, base, stride, bank): (usize, u32, usize, usize) = match self.sources.get(
            &buf_id,
        ) {
            Some(e) => (e.pool, e.source.layer_base, e.source.stride_bytes, e.source.bank_bytes),
            None => {
                return Err(PagerError::Unregistered);
            },
        };
        let ghost before = *self;
        let ghost m = self@.gpu_of(buf_id);
        let ghost from = global@.len() as int;
        let ghost listed = global@;
        let ghost stop = role_stop(m, base, stride, bank, lids@, from);
        let mut i: usize = global.len();
        proof {
            self.lemma_wf();
            assert(block_ids(base, lids@.subrange(from, from)) =~= Seq::empty());
            assert(self@.pools =~= before@.with_gpu(buf_id, m).pools);
            assert(listed + block_ids(base, lids@.subrange(from, from)) =~= listed);
        }
        while i < lids.len()
            invariant
                0 <= from <= i <= lids@.len(),
                stop == role_stop(m, base, stride, bank, lids@, from),
                stop == role_stop(m, base, stride, bank, lids@, i as int),
                ids_fit(base, lids@),
                before.wf(),
                m == before@.gpu_of(buf_id),
                m.wf(),
                before@.sources.contains_key(buf_id),
                pool == before@.sources[buf_id].pool,
                base == before@.base_of(buf_id),
                stride == before@.sources[buf_id].source.stride_bytes,
                bank == before@.sources[buf_id].source.bank_bytes,
                pool < self.pools@.len(),
                self.wf(),
                self.handles() == before.handles(),
                self.reports() == before.reports(),
                self@ == before@.with_gpu(buf_id, self@.gpu_of(buf_id)),
                self@.gpu_of(buf_id) == all_brought_in(
                    m,
                    block_ids(base, lids@.subrange(from, i as int)),
                    false,
                ),
                self@.gpu_of(buf_id).wf(),
                self@.gpu_of(buf_id).lut == m.lut,
                self@.gpu_of(buf_id).dirty == m.dirty,
                self@.gpu_of(buf_id).slot_bytes == m.slot_bytes,
                self@.gpu_of(buf_id).n_slots == m.n_slots,
                forall|b: BlockId| #[trigger]
                    resident(self@.gpu_of(buf_id).order, b) == resident(m.order, b),
                global@ == listed + block_ids(base, lids@.subrange(from, i as int)),
                *old(self) == before,
                old(global)@ == listed,
                from == listed.len(),
            decreases lids.len() - i,
        {
            let lid = lids[i];
            let ghost held = *self;
            let ghost cur = self@.gpu_of(buf_id);
            if !fits_bank(lid, stride, bank) {
                return Err(PagerError::ExpertOutOfRange);
            }
            let id = base + lid;
            proof {
                lemma_position(cur.order, id);
            }
            let step = self.pools[pool].pager.ensure_resident(id);
            proof {
                held.lemma_pool_changed(self, pool as int);
                assert(self@.gpu_of(buf_id) == cur.touched(id, false));
                assert(self@.pools =~= before@.with_gpu(buf_id, cur.touched(id, false)).pools);
            }
            match step {
                Placement::Resident { .. } => {
                    global.push(id);
                    proof {
                        assert(resident(cur.order, id));
                        lemma_hit(cur, id, false);
                        let now = lids@.subrange(from, i + 1);
                        assert(now.drop_last() =~= lids@.subrange(from, i as int));
                        assert(block_ids(base, now).drop_last() =~= block_ids(
                            base,
                            lids@.subrange(from, i as int),
                        ));
                        assert(block_ids(base, now).last() == id);
                        assert(global@ =~= listed + block_ids(base, now));
                    }
                    i += 1;
                },
                Placement::Upload { slot, evicted, arena_off } => {
                    assert(stop == i);
                    return Ok(
                        RoleStep::Upload {
                            id,
                            slot,
                            evicted,
                            src_off: lid as usize * stride,
                            arena_off,
                            len: stride,
                        },
                    );
                },
            }
        }
        let image = self.pools[pool].pager.flush_lut();
        Ok(RoleStep::Flush { image })
    }

    /// Records that the bytes of block `id` are in `slot`, out of which `evicted` came, and lists
    /// the block as done.
    pub fn touch_placed(
        &mut self,
        buf_id: usize,
        id: BlockId,
        slot: u32,
        evicted: Option<BlockId>,
        global: &mut Vec<u32>,
    )
        requires
            old(self).wf(),
            old(self)@.sources.contains_key(buf_id),
            slot < old(self)@.gpu_of(buf_id).n_slots,
        ensures
            final(self).wf(),
            final(self).handles() == old(self).handles(),
            final(self).reports() == old(self).reports(),
            final(self)@ == old(self)@.with_gpu(
                buf_id,
                old(self)@.gpu_of(buf_id).placed(id, slot, evicted),
            ),
            final(global)@ == old(global)@.push(id),
    {
        let pool: usize = self.sources.get(&buf_id).unwrap().pool;
        let ghost before = *self;
        self.pools[pool].pager.placed(id, slot, evicted);
        proof {
            before.lemma_pool_changed(self, pool as int);
        }
        global.push(id);
    }

    /// Records that the device holds the present table of `buf_id`'s pool.
    pub fn touch_flushed(&mut self, buf_id: usize)
        requires
            old(self).wf(),
            old(self)@.sources.contains_key(buf_id),
        ensures
            final(self).wf(),
            final(self).handles() == old(self).handles(),
            final(self).reports() == old(self).reports(),
            final(self)@ == old(self)@.with_gpu(
                buf_id,
                (GpuModel { dirty: false, ..old(self)@.gpu_of(buf_id) }),
            ),
    {
        let pool: usize = self.sources.get(&buf_id).unwrap().pool;
        let ghost before = *self;
        self.pools[pool].pager.lut_flushed();
        proof {
            before.lemma_pool_changed(self, pool as int);
        }
    }

    /// Stages the experts `lids` of `buf_id`'s layer: one that is resident is marked as just used,
    /// one that is missing is copied through the ring half that starts at `half_base` and has
    /// `*cursor` bytes in use; the copies are appended to `copies`. Stops where the half has no room
    /// for the next miss, and returns how many experts are done: the caller turns to the other half
    /// and goes on with the rest. `scan` asks for the policy of a sweep over all experts.
    pub fn stage_role(
        &mut self,
        ring_mapped: bool,
        half_base: usize,
        cursor: &mut usize,
        buf_id: usize,
        lids: &[u32],
        scan: bool,
        copies: &mut Vec<SlotCopy>,
    ) -> (r: Result<usize, PagerError>)
        requires
            old(self).wf(),
            half_base + old(self)@.ring_half <= usize::MAX,
            old(self)@.sources.contains_key(buf_id) ==> ids_fit(old(self)@.base_of(buf_id), lids@),
        ensures
            final(self).wf(),
            final(self).handles() == old(self).handles(),
            final(self).reports() == old(self).reports(),
            !old(self)@.sources.contains_key(buf_id) ==> {
                &&& r == Err::<usize, PagerError>(PagerError::Unregistered)
                &&& final(self)@ == old(self)@
                &&& *final(cursor) == *old(cursor)
                &&& final(copies)@ == old(copies)@
            },
            old(self)@.sources.contains_key(buf_id) ==> {
                let run = stage_run(
                    old(self)@.stage_job(buf_id, half_base, ring_mapped, scan),
                    lids@,
                    stage_start(old(self)@.gpu_of(buf_id), *old(cursor), old(copies)@),
                );
                &&& final(self)@ == old(self)@.with_gpu(buf_id, run.gpu)
                &&& *final(cursor) == run.cursor
                &&& final(copies)@ == run.copies
                &&& match run.failed {
                    Some(e) => r == Err::<usize, PagerError>(e),
                    None => r matches Ok(n) && n == run.staged,
                }
            },
    {
        let (pool, base, stride, bank): (usize, u32, usize, usize) = match self.sources.get(
            &buf_id,
        ) {
            Some(e) => (e.pool, e.source.layer_base, e.source.stride_bytes, e.source.bank_bytes),
            None => {
                return Err(PagerError::Unregistered);
            },
        };
        let half: usize = self.ring_half_bytes;
        let slot_bytes: usize = self.pools[pool].pager.slot_bytes();
        let ghost before = *self;
        let ghost job = self@.stage_job(buf_id, half_base, ring_mapped, scan);
        let ghost whole = stage_run(
            job,
            lids@,
            stage_start(self@.gpu_of(buf_id), *cursor, copies@),
        );
        let mut i: usize = 0;
        proof {
            self.lemma_wf();
            assert(self@.pools =~= before@.with_gpu(buf_id, self@.gpu_of(buf_id)).pools);
        }
        while i < lids.len()
            invariant
                i <= lids@.len(),
                ids_fit(base, lids@),
                before.wf(),
                before@.sources.contains_key(buf_id),
                pool == before@.sources[buf_id].pool,
                base == before@.base_of(buf_id),
                stride == before@.sources[buf_id].source.stride_bytes,
                bank == before@.sources[buf_id].source.bank_bytes,
                half == before@.ring_half,
                half_base + half <= usize::MAX,
                slot_bytes == before@.gpu_of(buf_id).slot_bytes,
                slot_bytes <= half,
                job == before@.stage_job(buf_id, half_base, ring_mapped, scan),
                pool < self.pools@.len(),
                self.wf(),
                self.handles() == before.handles(),
                self.reports() == before.reports(),
                self@ == before@.with_gpu(buf_id, self@.gpu_of(buf_id)),
                self@.gpu_of(buf_id).wf(),
                self@.gpu_of(buf_id).slot_bytes == slot_bytes,
                whole == stage_run(
                    job,
                    lids@,
                    StageRun {
                        gpu: self@.gpu_of(buf_id),
                        cursor: *cursor as int,
                        copies: copies@,
                        staged: i as int,
                        failed: None,
                    },
                ),
                *old(self) == before,
                whole == stage_run(
                    job,
                    lids@,
                    stage_start(before@.gpu_of(buf_id), *old(cursor), old(copies)@),
                ),
            decreases lids.len() - i,
        {
            let lid = lids[i];
            let id = base + lid;
            let ghost held = *self;
            let ghost cur = self@.gpu_of(buf_id);
            let missing = !self.pools[pool].pager.is_resident(id);
            proof {
                lemma_position(cur.order, id);
            }
            if missing && (*cursor > half || slot_bytes > half - *cursor) {
                return Ok(i);
            }
            if !fits_bank(lid, stride, bank) {
                return Err(PagerError::ExpertOutOfRange);
            }
            let src_off: usize = lid as usize * stride;
            let ring_off: usize = if missing {
                half_base + *cursor
            } else {
                half_base
            };
            let res = self.pools[pool].pager.touch_staged(ring_mapped, ring_off, src_off, id, scan);
            proof {
                held.lemma_pool_changed(self, pool as int);
                assert(self@.pools =~= before@.with_gpu(buf_id, self@.gpu_of(buf_id)).pools);
            }
            match res {
                Ok(None) => {},
                Ok(Some(copy)) => {
                    *cursor = *cursor + slot_bytes;
                    copies.push(copy);
                },
                Err(e) => {
                    return Err(e);
                },
            }
            i += 1;
        }
        Ok(lids.len())
    }

    /// Freezes the table window of `buf_id`'s layer: its `n_expert` entries, to be written to the
    /// tape at word `*tape_cursor`, which then moves past them. Call it after the last
    /// [`Self::stage_role`] of the batch. A tape without room is refused, not wrapped.
    pub fn lut_window(
        &self,
        tape_mapped: bool,
        tape_cursor: &mut usize,
        buf_id: usize,
        n_expert: usize,
    ) -> (r: Result<LutWindow, PagerError>)
        requires
            self.wf(),
            self@.sources.contains_key(buf_id) && *old(tape_cursor) + n_expert <= TAPE_WORDS
                ==> self@.base_of(buf_id) + n_expert <= self@.gpu_of(buf_id).lut.len(),
        ensures
            if !self@.sources.contains_key(buf_id) {
                &&& r == Err::<LutWindow, PagerError>(PagerError::Unregistered)
                &&& *final(tape_cursor) == *old(tape_cursor)
            } else if *old(tape_cursor) + n_expert > TAPE_WORDS {
                &&& r == Err::<LutWindow, PagerError>(
                    PagerError::TapeOverflow {
                        cursor: *old(tape_cursor),
                        n_expert,
                        tape_words: TAPE_WORDS,
                    },
                )
                &&& *final(tape_cursor) == *old(tape_cursor)
            } else if !tape_mapped {
                &&& r == Err::<LutWindow, PagerError>(PagerError::TapeNotMapped)
                &&& *final(tape_cursor) == *old(tape_cursor)
            } else {
                &&& r matches Ok(w)
                &&& w.offset == *old(tape_cursor)
                &&& w.words@ == self@.gpu_of(buf_id).lut.subrange(
                    self@.base_of(buf_id) as int,
                    self@.base_of(buf_id) + n_expert,
                )
                &&& *final(tape_cursor) == *old(tape_cursor) + n_expert
            },
    {
        let (pool, base): (usize, u32) = match self.sources.get(&buf_id) {
            Some(e) => (e.pool, e.source.layer_base),
            None => {
                return Err(PagerError::Unregistered);
            },
        };
        let at: usize = *tape_cursor;
        if n_expert > TAPE_WORDS || at > TAPE_WORDS - n_expert {
            return Err(
                PagerError::TapeOverflow { cursor: at, n_expert, tape_words: TAPE_WORDS },
            );
        }
        let words = self.pools[pool].pager.lut_words(base as usize, n_expert);
        if !tape_mapped {
            return Err(PagerError::TapeNotMapped);
        }
        *tape_cursor = at + n_expert;
        Ok(LutWindow { offset: at as u32, words })
    }

    /// The arena of `buf_id`'s pool.
    pub fn arena(&self, buf_id: usize) -> (r: &B)
        requires
            self.wf(),
            self@.sources.contains_key(buf_id),
        ensures
            *r == self.handles().arenas[self@.sources[buf_id].pool as int],
    {
        let pool: usize = self.pool_of(buf_id);
        self.pools[pool].pager.arena_buffer()
    }

    /// The device table of `buf_id`'s pool.
    pub fn lut(&self, buf_id: usize) -> (r: &B)
        requires
            self.wf(),
            self@.sources.contains_key(buf_id),
        ensures
            *r == self.handles().luts[self@.sources[buf_id].pool as int],
    {
        let pool: usize = self.pool_of(buf_id);
        self.pools[pool].pager.lut_buffer()
    }

    /// Number of table entries of `buf_id`'s pool.
    pub fn lut_len(&self, buf_id: usize) -> (r: usize)
        requires
            self.wf(),
            self@.sources.contains_key(buf_id),
        ensures
            r == self@.gpu_of(buf_id).lut.len(),
    {
        let pool: usize = self.pool_of(buf_id);
        self.pools[pool].pager.lut_len()
    }

    fn pool_of(&self, buf_id: usize) -> (r: usize)
        requires
            self.wf(),
            self@.sources.contains_key(buf_id),
        ensures
            r == self@.sources[buf_id].pool,
            r < self.pools@.len(),
    {
        self.sources.get(&buf_id).unwrap().pool
    }

    /// Counters summed over all pools of `role`.
    pub fn stats(&self, role: Role) -> (r: PagerStats)
        requires
            role_hits(self@.pools, role) <= u64::MAX,
            role_misses(self@.pools, role) <= u64::MAX,
            role_evictions(self@.pools, role) <= u64::MAX,
        ensures
            r.hits == role_hits(self@.pools, role),
            r.misses == role_misses(self@.pools, role),
            r.evictions == role_evictions(self@.pools, role),
    {
        let mut agg = PagerStats { hits: 0, misses: 0, evictions: 0 };
        let mut i: usize = 0;
        assert(self@.pools.take(0) =~= Seq::empty());
        while i < self.pools.len()
            invariant
                i <= self.pools@.len(),
                self@.pools.len() == self.pools@.len(),
                role_hits(self@.pools, role) <= u64::MAX,
                role_misses(self@.pools, role) <= u64::MAX,
                role_evictions(self@.pools, role) <= u64::MAX,
                agg.hits == role_hits(self@.pools.take(i as int), role),
                agg.misses == role_misses(self@.pools.take(i as int), role),
                agg.evictions == role_evictions(self@.pools.take(i as int), role),
            decreases self.pools.len() - i,
        {
            proof {
                lemma_role_sums(self@.pools, role, i + 1);
                assert(self@.pools.take(i + 1).drop_last() =~= self@.pools.take(i as int));
                assert(self@.pools.take(i + 1).last() == self@.pools[i as int]);
            }
            if self.pools[i].role == role {
                let s = self.pools[i].pager.stats();
                agg.hits = agg.hits + s.hits;
                agg.misses = agg.misses + s.misses;
                agg.evictions = agg.evictions + s.evictions;
            }
            i += 1;
        }
        assert(self@.pools.take(i as int) =~= self@.pools);
        agg
    }

    /// One line of counters for each pool, in their order, where reports were asked for.
    pub fn stats_report(&self) -> (r: Vec<PoolReport>)
        ensures
            !self.reports() ==> r@.len() == 0,
            self.reports() ==> r@.len() == self@.pools.len() && forall|p: int|
                0 <= p < r@.len() ==> {
                    let gpu = self@.pools[p].gpu;
                    &&& (#[trigger] r@[p]).role == self@.pools[p].role
                    &&& r@[p].slot_bytes == gpu.slot_bytes
                    &&& r@[p].n_slots == gpu.n_slots
                    &&& r@[p].stats == gpu.stats
                },
    {
        let mut lines: Vec<PoolReport> = Vec::new();
        if !self.print_stats {
            return lines;
        }
        let mut i: usize = 0;
        while i < self.pools.len()
            invariant
                i <= self.pools@.len(),
                self@.pools.len() == self.pools@.len(),
                lines@.len() == i,
                forall|p: int|
                    0 <= p < lines@.len() ==> {
                        let gpu = self@.pools[p].gpu;
                        &&& (#[trigger] lines@[p]).role == self@.pools[p].role
                        &&& lines@[p].slot_bytes == gpu.slot_bytes
                        &&& lines@[p].n_slots == gpu.n_slots
                        &&& lines@[p].stats == gpu.stats
                    },
            decreases self.pools.len() - i,
        {
            let p = &self.pools[i];
            lines.push(
                PoolReport {
                    role: p.role,
                    slot_bytes: p.pager.slot_bytes(),
                    n_slots: p.pager.n_slots(),
                    stats: p.pager.stats(),
                },
            );
            i += 1;
        }
        lines
    }

    /// A change of one pool keeps the session valid and the rest of it as it was.
    proof fn lemma_pool_changed(&self, next: &Self, pool: int)
        requires
            self.wf(),
            0 <= pool < self.pools@.len(),
            next.pools@ == self.pools@.update(pool, next.pools@[pool]),
            next.pools@[pool].role == self.pools@[pool].role,
            next.pools@[pool].pager.wf(),
            next.pools@[pool].pager@.slot_bytes == self.pools@[pool].pager@.slot_bytes,
            next.pools@[pool].pager.arena_handle() == self.pools@[pool].pager.arena_handle(),
            next.pools@[pool].pager.lut_handle() == self.pools@[pool].pager.lut_handle(),
            next.sources == self.sources,
            next.ring_half_bytes == self.ring_half_bytes,
            next.staging == self.staging,
            next.ring == self.ring,
            next.tape == self.tape,
        ensures
            next.wf(),
            next.handles() == self.handles(),
            next@ == (SessionModel {
                pools: self@.pools.update(
                    pool,
                    PoolModel { role: self@.pools[pool].role, gpu: next.pools@[pool].pager@ },
                ),
                ..self@
            }),
    {
        next.pools@[pool].pager.lemma_wf();
        assert(next@.pools =~= self@.pools.update(
            pool,
            PoolModel { role: self@.pools[pool].role, gpu: next.pools@[pool].pager@ },
        ));
        assert(next.handles().arenas =~= self.handles().arenas);
        assert(next.handles().luts =~= self.handles().luts);
        assert forall|b: usize| #[trigger] next@.sources.contains_key(b) implies first_fit(
            next@.pools,
            next@.sources[b].pool as int,
            next@.sources[b].role,
            next@.sources[b].source.stride_bytes,
        ) by {
            assert(self@.sources.contains_key(b));
            let e = self@.sources[b];
            assert forall|q: int| 0 <= q < e.pool implies !#[trigger] pool_fits(
                next@.pools,
                q,
                e.role,
                e.source.stride_bytes,
            ) by {
                assert(!pool_fits(self@.pools, q, e.role, e.source.stride_bytes));
            }
        }
        assert forall|p: int| 0 <= p < next.pools@.len() implies (
        #[trigger] next.pools@[p]).pager.wf() by {
            if p != pool {
                assert(next.pools@[p] == self.pools@[p]);
            }
        }
    }
}

} // verus!
