//! Host side of a paged weight cache on a device: which block of weights sits in which slot of one
//! arena buffer, and the lookup table that the kernels read to find it.
//!
//! The table speaks in arena offsets counted in 32-bit words, not in slot numbers: a kernel adds
//! the entry to an offset inside one block, and no product of a slot number and a stride is formed
//! on the device. The arena is kept small enough that every such offset fits 32 bits.
//!
//! Nothing here talks to the device. A function that needs the device says what has to be done, and
//! a second function records that it was done.
use vstd::prelude::*;

use crate::pager::{BlockId, Pager, PagerStats, Resolution, NOT_RESIDENT};
use crate::pager::{
    law_touch_places, lemma_position, lemma_untouched_wf, order_after, order_wf, resident,
    resolution, slot_of_block, stats_after, untouched, Entry,
};
use crate::moe::Role;

verus! {

/// Why a pager operation was refused.
#[derive(Clone, Copy, Debug, PartialEq, Eq, Structural)]
pub enum PagerError {
    /// The arena would exceed what one binding can address.
    ArenaTooLarge { n_slots: usize, slot_bytes: usize, cap: u64 },
    /// The staging ring is not persistently mapped.
    RingNotMapped,
    /// The table tape is not persistently mapped.
    TapeNotMapped,
    /// The layout has no pool for this role and block size.
    NoPool { role: Role, stride_bytes: usize },
    /// The buffer was never registered.
    Unregistered,
    /// An expert number lies outside its layer's bank.
    ExpertOutOfRange,
    /// The tape has no room for one more window.
    TapeOverflow { cursor: usize, n_expert: usize, tape_words: usize },
}

/// Bytes that a 32-bit word offset can reach.
pub const WORD_REACH_BYTES: u64 = 0x3_ffff_fffc;

/// Largest arena in bytes on a device whose largest buffer is `max_buffer_bytes`.
pub open spec fn arena_cap(max_buffer_bytes: u64) -> u64 {
    if max_buffer_bytes < WORD_REACH_BYTES {
        max_buffer_bytes
    } else {
        WORD_REACH_BYTES
    }
}

/// Sizes of the buffers behind one [`GpuPager`].
#[derive(Clone, Copy, Debug, PartialEq, Eq, Structural)]
pub struct ArenaPlan {
    pub n_blocks: usize,
    pub n_slots: usize,
    pub slot_bytes: usize,
    pub arena_bytes: usize,
    pub lut_bytes: usize,
}

/// Entries of the table for `n_blocks` blocks; an empty table still has one.
pub open spec fn lut_entries(n_blocks: usize) -> nat {
    if n_blocks == 0 {
        1
    } else {
        n_blocks as nat
    }
}

impl ArenaPlan {
    pub open spec fn wf(&self) -> bool {
        &&& 0 < self.n_slots <= u32::MAX
        &&& self.slot_bytes % 4 == 0
        &&& self.arena_bytes == self.n_slots * self.slot_bytes
        &&& self.arena_bytes <= WORD_REACH_BYTES
        &&& self.lut_bytes == lut_entries(self.n_blocks) * 4
    }
}

/// Byte `k` of `w`, counted from the least significant one.
pub open spec fn word_byte(w: u32, k: int) -> u8 {
    if k == 0 {
        (w % 0x100) as u8
    } else if k == 1 {
        ((w / 0x100) % 0x100) as u8
    } else if k == 2 {
        ((w / 0x1_0000) % 0x100) as u8
    } else {
        (w / 0x100_0000) as u8
    }
}

/// `words` with the least significant byte of each word first.
pub open spec fn little_endian(words: Seq<u32>) -> Seq<u8> {
    Seq::new(words.len() * 4, |i: int| word_byte(words[i / 4], i % 4))
}

/// `words` with the most significant byte of each word first.
pub open spec fn big_endian(words: Seq<u32>) -> Seq<u8> {
    Seq::new(words.len() * 4, |i: int| word_byte(words[i / 4], 3 - i % 4))
}

/// Word `i` takes the bytes from `4 * i` on. In both orders they make up the word, the first of them
/// counting least in the one and most in the other.
pub proof fn law_word_bytes(words: Seq<u32>, i: int)
    requires
        0 <= i < words.len(),
    ensures
        little_endian(words).len() == 4 * words.len(),
        big_endian(words).len() == 4 * words.len(),
        ({
            let b = little_endian(words);
            b[4 * i] + 256 * (b[4 * i + 1] + 256 * (b[4 * i + 2] + 256 * b[4 * i + 3])) == words[i]
        }),
        ({
            let b = big_endian(words);
            b[4 * i + 3] + 256 * (b[4 * i + 2] + 256 * (b[4 * i + 1] + 256 * b[4 * i])) == words[i]
        }),
{
    let w = words[i];
    assert(words[(4 * i) / 4] == w && words[(4 * i + 1) / 4] == w && words[(4 * i + 2) / 4] == w
        && words[(4 * i + 3) / 4] == w);
}

/// Calls `bytemuck::cast_slice` from 32-bit words to bytes: the same memory read as bytes, in the
/// byte order of the machine, whichever of the two it is.
#[verifier::external_body]
pub(crate) fn words_as_bytes(words: &[u32]) -> (r: Vec<u8>)
    ensures
        r@ == little_endian(words@) || r@ == big_endian(words@),
{
    bytemuck::cast_slice::<u32, u8>(words).to_vec()
}

/// What a [`GpuPager`] knows, as plain values.
#[verifier::ext_equal]
pub struct GpuModel {
    /// Entries from cold to hot.
    pub order: Seq<Entry>,
    pub n_slots: nat,
    pub stats: PagerStats,
    pub slot_bytes: nat,
    /// The table, one entry for each block that can be named.
    pub lut: Seq<u32>,
    /// Whether the table changed since it was last sent to the device.
    pub dirty: bool,
}

/// Table entry for a block in `slot`: the word offset of the slot in the arena.
pub open spec fn word_base(slot: u32, slot_bytes: nat) -> u32 {
    (slot * (slot_bytes / 4)) as u32
}

/// `lut` with entry `id` set to `w`, where `lut` has such an entry.
pub open spec fn lut_set(lut: Seq<u32>, id: BlockId, w: u32) -> Seq<u32> {
    if id < lut.len() {
        lut.update(id as int, w)
    } else {
        lut
    }
}

/// The table after `id` was placed in `slot`, out of which `evicted` came.
pub open spec fn lut_placed(
    lut: Seq<u32>,
    slot_bytes: nat,
    id: BlockId,
    slot: u32,
    evicted: Option<BlockId>,
) -> Seq<u32> {
    let cleared = match evicted {
        Some(e) => lut_set(lut, e, NOT_RESIDENT),
        None => lut,
    };
    lut_set(cleared, id, word_base(slot, slot_bytes))
}

impl GpuModel {
    pub open spec fn wf(&self) -> bool {
        &&& 0 < self.n_slots <= u32::MAX
        &&& order_wf(self.order, self.n_slots)
        &&& self.slot_bytes % 4 == 0
        &&& self.n_slots * self.slot_bytes <= WORD_REACH_BYTES
        &&& self.lut.len() > 0
    }

    /// The entry that the table should hold for `id`.
    pub open spec fn lut_entry(&self, id: BlockId) -> u32 {
        match slot_of_block(self.order, id) {
            Some(slot) => word_base(slot, self.slot_bytes),
            None => NOT_RESIDENT,
        }
    }

    /// The table says of every block where it is.
    pub open spec fn coherent(&self) -> bool {
        forall|id: BlockId| id < self.lut.len() ==> #[trigger] self.lut_entry(id) == self.lut[id as int]
    }

    /// After `id` was touched; the table is left alone.
    pub open spec fn touched(&self, id: BlockId, cold: bool) -> GpuModel {
        GpuModel {
            order: order_after(self.order, self.n_slots, id, cold),
            stats: stats_after(self.stats, self.resolve(id)),
            ..*self
        }
    }

    /// What touching `id` reports.
    pub open spec fn resolve(&self, id: BlockId) -> Resolution {
        resolution(self.order, self.n_slots, id)
    }

    /// After the table was told that `id` is in `slot`, out of which `evicted` came.
    pub open spec fn placed(&self, id: BlockId, slot: u32, evicted: Option<BlockId>) -> GpuModel {
        GpuModel {
            lut: lut_placed(self.lut, self.slot_bytes, id, slot, evicted),
            dirty: true,
            ..*self
        }
    }

    /// After `id` was touched and, where it was missing, brought in.
    pub open spec fn brought_in(&self, id: BlockId, cold: bool) -> GpuModel {
        match self.resolve(id) {
            Resolution::Hit { .. } => self.touched(id, cold),
            Resolution::Miss { slot, evicted } => self.touched(id, cold).placed(id, slot, evicted),
        }
    }

    /// After a batch was opened.
    pub open spec fn batch_begun(&self) -> GpuModel {
        GpuModel { order: untouched(self.order), ..*self }
    }
}

/// Every slot's word offset fits 32 bits and is none that marks an absent block; two slots of a
/// non-empty size have offsets at least one slot apart.
pub proof fn law_word_base_fits(slot: u32, other: u32, n_slots: nat, slot_bytes: nat)
    requires
        slot < n_slots,
        other < n_slots,
        slot_bytes % 4 == 0,
        n_slots * slot_bytes <= WORD_REACH_BYTES,
    ensures
        word_base(slot, slot_bytes) == slot * (slot_bytes / 4),
        word_base(slot, slot_bytes) * 4 == slot * slot_bytes,
        word_base(slot, slot_bytes) != NOT_RESIDENT,
        slot < other ==> word_base(slot, slot_bytes) + slot_bytes / 4 <= word_base(
            other,
            slot_bytes,
        ),
{
    let w = slot_bytes / 4;
    assert(slot_bytes == 4 * w);
    assert(n_slots * (4 * w) == 4 * (n_slots * w)) by (nonlinear_arith);
    assert(slot * (4 * w) == 4 * (slot * w)) by (nonlinear_arith);
    assert(slot * w + w <= n_slots * w) by (nonlinear_arith)
        requires
            slot + 1 <= n_slots,
            w >= 0,
    ;
    assert(other * w + w <= n_slots * w) by (nonlinear_arith)
        requires
            other + 1 <= n_slots,
            w >= 0,
    ;
    assert(slot * w >= 0 && other * w >= 0) by (nonlinear_arith)
        requires
            slot >= 0,
            other >= 0,
            w >= 0,
    ;
    if w == 0 {
        assert(slot * w == 0) by (nonlinear_arith)
            requires
                w == 0,
        ;
    }
    if slot < other {
        assert(slot * w + w <= other * w) by (nonlinear_arith)
            requires
                slot + 1 <= other,
                w >= 0,
        ;
    }
}

/// Bringing a block in keeps the table right: afterwards it says of every block where it is, and
/// the block is resident.
pub proof fn law_brought_in_coherent(m: GpuModel, id: BlockId, cold: bool)
    requires
        m.wf(),
        m.coherent(),
    ensures
        m.brought_in(id, cold).wf(),
        m.brought_in(id, cold).coherent(),
        resident(m.brought_in(id, cold).order, id),
        id < m.lut.len() ==> m.brought_in(id, cold).lut[id as int] != NOT_RESIDENT,
{
    let next = m.brought_in(id, cold);
    law_touch_places(m.order, m.n_slots, id, cold, id);
    assert forall|b: BlockId| b < next.lut.len() implies #[trigger] next.lut_entry(b)
        == next.lut[b as int] by {
        law_touch_places(m.order, m.n_slots, id, cold, b);
        assert(m.lut_entry(b) == m.lut[b as int]);
    }
    lemma_position(next.order, id);
    if id < m.lut.len() {
        assert(next.lut_entry(id) == next.lut[id as int]);
        lemma_slot_in_range(next.order, next.n_slots, id);
        let slot = slot_of_block(next.order, id)->0;
        law_word_base_fits(slot, slot, next.n_slots, next.slot_bytes);
    }
}

/// A resident block is in a slot that the cache has.
pub proof fn lemma_slot_in_range(order: Seq<Entry>, n_slots: nat, id: BlockId)
    requires
        order_wf(order, n_slots),
    ensures
        slot_of_block(order, id) matches Some(s) ==> s < n_slots,
        slot_of_block(order, id) is Some <==> resident(order, id),
{
    lemma_position(order, id);
}

/// The start of a slot lies inside the arena.
proof fn lemma_slot_fits(slot: u32, n_slots: nat, slot_bytes: nat)
    requires
        slot < n_slots,
    ensures
        slot * slot_bytes + slot_bytes <= n_slots * slot_bytes,
{
    assert(slot * slot_bytes + slot_bytes <= n_slots * slot_bytes) by (nonlinear_arith)
        requires
            slot + 1 <= n_slots,
    ;
}

/// Opening a batch changes neither the table nor what it should say.
pub proof fn law_begin_batch_coherent(m: GpuModel)
    requires
        m.wf(),
    ensures
        m.batch_begun().wf(),
        m.coherent() <==> m.batch_begun().coherent(),
{
    lemma_untouched_wf(m.order, m.n_slots);
    let next = m.batch_begun();
    assert forall|id: BlockId| #[trigger] next.lut_entry(id) == m.lut_entry(id) by {}
    if m.coherent() {
        assert forall|id: BlockId| id < next.lut.len() implies #[trigger] next.lut_entry(id)
            == next.lut[id as int] by {
            assert(m.lut_entry(id) == m.lut[id as int]);
        }
    }
    if next.coherent() {
        assert forall|id: BlockId| id < m.lut.len() implies #[trigger] m.lut_entry(id)
            == m.lut[id as int] by {
            assert(next.lut_entry(id) == next.lut[id as int]);
        }
    }
}

/// In a table that is right, two blocks that are both resident have different entries, unless the
/// blocks are empty.
pub proof fn law_coherent_entries_differ(m: GpuModel, a: BlockId, b: BlockId)
    requires
        m.wf(),
        m.coherent(),
        a < m.lut.len(),
        b < m.lut.len(),
        a != b,
        m.slot_bytes > 0,
        m.lut[a as int] != NOT_RESIDENT,
        m.lut[b as int] != NOT_RESIDENT,
    ensures
        m.lut[a as int] != m.lut[b as int],
{
    assert(m.lut_entry(a) == m.lut[a as int]);
    assert(m.lut_entry(b) == m.lut[b as int]);
    lemma_position(m.order, a);
    lemma_position(m.order, b);
    let i = crate::pager::position(m.order, a);
    let j = crate::pager::position(m.order, b);
    let s = m.order[i].slot;
    let t = m.order[j].slot;
    assert(s != t);
    law_word_base_fits(s, t, m.n_slots, m.slot_bytes);
    law_word_base_fits(t, s, m.n_slots, m.slot_bytes);
}

/// The largest arena is what the device can bind, but no more than 32-bit offsets count words.
pub proof fn law_arena_cap(max_buffer_bytes: u64)
    ensures
        arena_cap(max_buffer_bytes) <= max_buffer_bytes,
        arena_cap(max_buffer_bytes) <= u32::MAX * 4,
        arena_cap(max_buffer_bytes) == max_buffer_bytes || arena_cap(max_buffer_bytes) == u32::MAX * 4,
{
}

/// The table has one entry for each block that can be named, and is never empty.
pub proof fn law_lut_entries(n_blocks: usize)
    ensures
        n_blocks > 0 ==> lut_entries(n_blocks) == n_blocks,
        n_blocks == 0 ==> lut_entries(n_blocks) == 1,
{
}

/// Placing a block changes the table at two places at most: the block's entry becomes the offset of its
/// slot, and that of the block that left becomes the mark of absence. The device has to be told.
pub proof fn law_placed(m: GpuModel, id: BlockId, slot: u32, evicted: Option<BlockId>, b: BlockId)
    requires
        m.wf(),
        slot < m.n_slots,
        evicted != Some(id),
        b < m.lut.len(),
    ensures
        ({
            let next = m.placed(id, slot, evicted);
            &&& next.dirty
            &&& next.lut.len() == m.lut.len()
            &&& next.order == m.order && next.stats == m.stats
            &&& next.n_slots == m.n_slots && next.slot_bytes == m.slot_bytes
            &&& b == id ==> next.lut[b as int] * 4 == slot * m.slot_bytes
            &&& evicted == Some(b) ==> next.lut[b as int] == u32::MAX
            &&& b != id && evicted != Some(b) ==> next.lut[b as int] == m.lut[b as int]
        }),
{
    law_word_base_fits(slot, slot, m.n_slots, m.slot_bytes);
}

/// A touch that finds its block leaves the table and what the device was told as they are; one that does
/// not has the table sent again. Either way the touch counts once.
pub proof fn law_table_is_sent_after_a_miss(m: GpuModel, id: BlockId, cold: bool)
    requires
        m.wf(),
    ensures
        ({
            let next = m.brought_in(id, cold);
            &&& resident(m.order, id) ==> next.lut == m.lut && next.dirty == m.dirty
            &&& !resident(m.order, id) ==> next.dirty
            &&& next.lut != m.lut ==> next.dirty
            &&& next.lut.len() == m.lut.len()
            &&& next.n_slots == m.n_slots && next.slot_bytes == m.slot_bytes
            &&& resident(m.order, id) ==> next.stats.misses == m.stats.misses
            &&& !resident(m.order, id) ==> next.stats.hits == m.stats.hits
            &&& m.touched(id, cold).lut == m.lut && m.touched(id, cold).dirty == m.dirty
            &&& m.touched(id, cold).order == next.order && m.touched(id, cold).stats == next.stats
        }),
{
    lemma_position(m.order, id);
}

/// A missing block comes in at the end that its policy names: a sweep's at the cold end, any other at the
/// hot end. A resident one becomes the hottest under both.
pub proof fn law_sweep_comes_in_cold(m: GpuModel, id: BlockId)
    requires
        m.wf(),
    ensures
        m.brought_in(id, false).order.last().block == id,
        resident(m.order, id) ==> m.brought_in(id, true).order.last().block == id,
        !resident(m.order, id) ==> m.brought_in(id, true).order[0].block == id,
{
    lemma_position(m.order, id);
    if !resident(m.order, id) && m.order.len() == m.n_slots {
        crate::pager::lemma_victim(m.order);
    }
}

/// Opening a batch leaves table, counters and every block's slot and place as they are, and nothing
/// touched.
pub proof fn law_batch_begun(m: GpuModel)
    ensures
        ({
            let next = m.batch_begun();
            &&& next.lut == m.lut && next.dirty == m.dirty && next.stats == m.stats
            &&& next.n_slots == m.n_slots && next.slot_bytes == m.slot_bytes
            &&& next.order.len() == m.order.len()
            &&& forall|i: int|
                0 <= i < m.order.len() ==> (#[trigger] next.order[i]).block == m.order[i].block
                    && next.order[i].slot == m.order[i].slot && !next.order[i].touched
        }),
{
}

/// A copy through the staging ring into the arena: `len` bytes from `src_off` of the block bank are
/// written to the ring at `ring_off`, and from there recorded into the arena at `arena_off`.
#[derive(Clone, Copy, Debug, PartialEq, Eq, Structural)]
pub struct SlotCopy {
    pub src_off: usize,
    pub ring_off: usize,
    pub arena_off: usize,
    pub len: usize,
}

/// A part of a copy that one worker makes.
#[derive(Clone, Copy, Debug, PartialEq, Eq, Structural)]
pub struct CopyChunk {
    pub off: usize,
    pub len: usize,
}

/// Largest part: big enough for streaming stores, small enough to spread a block over workers.
pub const CHUNK_BYTES: usize = 0x40_0000;

/// Number of parts in which `len` bytes are copied.
pub open spec fn chunk_count(len: usize) -> int {
    if len <= CHUNK_BYTES {
        1
    } else {
        (len + CHUNK_BYTES - 1) / (CHUNK_BYTES as int)
    }
}

/// Part `i` of a copy of `len` bytes.
pub open spec fn chunk_at(len: usize, i: int) -> CopyChunk {
    let off = i * CHUNK_BYTES;
    CopyChunk {
        off: off as usize,
        len: (if len - off < CHUNK_BYTES {
            len - off
        } else {
            CHUNK_BYTES as int
        }) as usize,
    }
}

/// The parts of a copy are non-empty but for an empty copy, each starts where the one before it
/// ends, the first at the start, and the last ends at the end: together they copy every byte once. All
/// but the last have 4 MiB, and the last no more.
pub proof fn law_chunks_partition(len: usize, i: int)
    requires
        0 <= i < chunk_count(len),
    ensures
        i * CHUNK_BYTES <= len,
        chunk_at(len, 0).off == 0,
        len > 0 ==> chunk_at(len, i).len > 0,
        i + 1 < chunk_count(len) ==> chunk_at(len, i).off + chunk_at(len, i).len == chunk_at(
            len,
            i + 1,
        ).off,
        i + 1 == chunk_count(len) ==> chunk_at(len, i).off + chunk_at(len, i).len == len,
        chunk_at(len, i).len <= 0x40_0000,
        i + 1 < chunk_count(len) ==> chunk_at(len, i).len == 0x40_0000,
{
}

/// Splits a copy of `len` bytes into the parts that workers make side by side.
pub fn copy_chunks(len: usize) -> (r: Vec<CopyChunk>)
    ensures
        r@.len() == chunk_count(len),
        forall|i: int| 0 <= i < r@.len() ==> #[trigger] r@[i] == chunk_at(len, i),
{
    let mut chunks: Vec<CopyChunk> = Vec::new();
    if len <= CHUNK_BYTES {
        chunks.push(CopyChunk { off: 0, len });
        return chunks;
    }
    let mut off: usize = 0;
    while len - off > CHUNK_BYTES
        invariant
            off < len,
            off == chunks@.len() * CHUNK_BYTES,
            forall|i: int| 0 <= i < chunks@.len() ==> #[trigger] chunks@[i] == chunk_at(len, i),
        decreases len - off,
    {
        chunks.push(CopyChunk { off, len: CHUNK_BYTES });
        off += CHUNK_BYTES;
    }
    chunks.push(CopyChunk { off, len: len - off });
    chunks
}

/// What [`GpuPager::ensure_resident`] found, and what is left to do.
#[derive(Clone, Copy, Debug, PartialEq, Eq, Structural)]
pub enum Placement {
    /// The block is in `slot`; nothing to do.
    Resident { slot: u32 },
    /// The block's bytes have to be copied to `arena_off`, the start of `slot`; then
    /// [`GpuPager::placed`] is due.
    Upload { slot: u32, evicted: Option<BlockId>, arena_off: usize },
}

/// Fixed-budget cache of equal blocks. `B` is the device buffer handle of the caller.
pub struct GpuPager<B> {
    pager: Pager,
    slot_bytes: usize,
    words_per_slot: u32,
    arena: B,
    lut_host: Vec<u32>,
    lut_dev: B,
    lut_dirty: bool,
}

impl<B> View for GpuPager<B> {
    type V = GpuModel;

    closed spec fn view(&self) -> GpuModel {
        GpuModel {
            order: self.pager@,
            n_slots: self.pager.capacity(),
            stats: self.pager.counters(),
            slot_bytes: self.slot_bytes as nat,
            lut: self.lut_host@,
            dirty: self.lut_dirty,
        }
    }
}

/// Largest arena in bytes that one pager can address: the smaller of what 32-bit word offsets
/// reach and the device's largest buffer.
pub fn max_arena_bytes(max_buffer_bytes: u64) -> (r: u64)
    ensures
        r == arena_cap(max_buffer_bytes),
        r <= WORD_REACH_BYTES,
        r <= max_buffer_bytes,
{
    if max_buffer_bytes < WORD_REACH_BYTES {
        max_buffer_bytes
    } else {
        WORD_REACH_BYTES
    }
}

impl<B> GpuPager<B> {
    pub closed spec fn arena_handle(&self) -> B {
        self.arena
    }

    pub closed spec fn lut_handle(&self) -> B {
        self.lut_dev
    }

    pub closed spec fn wf(&self) -> bool {
        &&& self@.wf()
        &&& self.pager.wf()
        &&& self.words_per_slot * 4 == self.slot_bytes
        &&& self@.n_slots * self@.slot_bytes <= usize::MAX
    }

    /// What `wf` says of the view.
    pub proof fn lemma_wf(&self)
        requires
            self.wf(),
        ensures
            self@.wf(),
            self@.slot_bytes <= usize::MAX,
            self@.n_slots <= usize::MAX,
            self@.n_slots * self@.slot_bytes <= usize::MAX,
    {
    }

    /// Sizes the buffers of a pager for `n_blocks` nameable blocks and `n_slots` slots of
    /// `slot_bytes` bytes. Refused where the arena exceeds what one binding can address on a device
    /// whose largest buffer is `max_buffer_bytes`.
    pub fn plan(max_buffer_bytes: u64, n_blocks: usize, n_slots: usize, slot_bytes: usize) -> (r:
        Result<ArenaPlan, PagerError>)
        requires
            0 < n_slots,
            slot_bytes == 0 ==> n_slots <= u32::MAX,
            slot_bytes % 4 == 0,
            n_slots * slot_bytes <= u64::MAX,
            n_slots * slot_bytes <= arena_cap(max_buffer_bytes) ==> {
                &&& n_slots * slot_bytes <= usize::MAX
                &&& lut_entries(n_blocks) * 4 <= usize::MAX
            },
        ensures
            match r {
                Ok(p) => {
                    &&& n_slots * slot_bytes <= arena_cap(max_buffer_bytes)
                    &&& p.wf()
                    &&& p.n_blocks == n_blocks
                    &&& p.n_slots == n_slots
                    &&& p.slot_bytes == slot_bytes
                },
                Err(e) => {
                    &&& n_slots * slot_bytes > arena_cap(max_buffer_bytes)
                    &&& e == PagerError::ArenaTooLarge {
                        n_slots,
                        slot_bytes,
                        cap: arena_cap(max_buffer_bytes),
                    }
                },
            },
    {
        proof {
            assert(n_slots * slot_bytes >= 0) by (nonlinear_arith);
            if slot_bytes > 0 {
                assert(n_slots * 4 <= n_slots * slot_bytes) by (nonlinear_arith)
                    requires
                        4 <= slot_bytes,
                ;
            }
        }
        let total: u64 = n_slots as u64 * slot_bytes as u64;
        let cap = max_arena_bytes(max_buffer_bytes);
        if total > cap {
            return Err(PagerError::ArenaTooLarge { n_slots, slot_bytes, cap });
        }
        let arena_bytes: usize = total as usize;
        let entries: usize = if n_blocks == 0 { 1 } else { n_blocks };
        Ok(ArenaPlan { n_blocks, n_slots, slot_bytes, arena_bytes, lut_bytes: entries * 4 })
    }

    /// A pager with nothing resident, over an arena of `plan.arena_bytes` bytes and a device table
    /// of `plan.lut_bytes` bytes that the caller has filled with [`NOT_RESIDENT`] (see
    /// [`Self::lut_image`]).
    pub fn new(plan: ArenaPlan, arena: B, lut_dev: B) -> (r: Self)
        requires
            plan.wf(),
        ensures
            r.wf(),
            r@.coherent(),
            r@ == (GpuModel {
                order: Seq::empty(),
                n_slots: plan.n_slots as nat,
                stats: PagerStats { hits: 0, misses: 0, evictions: 0 },
                slot_bytes: plan.slot_bytes as nat,
                lut: Seq::new(lut_entries(plan.n_blocks), |i: int| NOT_RESIDENT),
                dirty: false,
            }),
            r.arena_handle() == arena,
            r.lut_handle() == lut_dev,
    {
        let entries: usize = if plan.n_blocks == 0 { 1 } else { plan.n_blocks };
        let mut lut_host: Vec<u32> = Vec::new();
        let mut i: usize = 0;
        while i < entries
            invariant
                i <= entries,
                lut_host@ == Seq::new(i as nat, |i: int| NOT_RESIDENT),
            decreases entries - i,
        {
            lut_host.push(NOT_RESIDENT);
            assert(lut_host@ =~= Seq::new((i + 1) as nat, |i: int| NOT_RESIDENT));
            i += 1;
        }
        proof {
            assert(plan.slot_bytes <= plan.n_slots * plan.slot_bytes) by (nonlinear_arith)
                requires
                    1 <= plan.n_slots,
                    0 <= plan.slot_bytes,
            ;
        }
        let r = GpuPager {
            pager: Pager::new(plan.n_slots),
            slot_bytes: plan.slot_bytes,
            words_per_slot: (plan.slot_bytes / 4) as u32,
            arena,
            lut_host,
            lut_dev,
            lut_dirty: false,
        };
        proof {
            assert forall|id: BlockId| id < r@.lut.len() implies #[trigger] r@.lut_entry(id)
                == r@.lut[id as int] by {
                lemma_position(r@.order, id);
            }
        }
        r
    }

    pub fn n_slots(&self) -> (r: usize)
        ensures
            r == self@.n_slots,
    {
        self.pager.n_slots()
    }

    pub fn slot_bytes(&self) -> (r: usize)
        ensures
            r == self@.slot_bytes,
    {
        self.slot_bytes
    }

    pub fn stats(&self) -> (r: PagerStats)
        ensures
            r == self@.stats,
    {
        self.pager.stats()
    }

    pub fn arena_buffer(&self) -> (r: &B)
        ensures
            *r == self.arena_handle(),
    {
        &self.arena
    }

    pub fn lut_buffer(&self) -> (r: &B)
        ensures
            *r == self.lut_handle(),
    {
        &self.lut_dev
    }

    /// Whether `id` is resident; does not count as a touch.
    pub fn is_resident(&self, id: BlockId) -> (r: bool)
        ensures
            r == resident(self@.order, id),
    {
        self.pager.slot_of(id).is_some()
    }

    /// Opens a batch: blocks that it touches are kept while another can leave.
    pub fn begin_batch(&mut self)
        requires
            old(self).wf(),
        ensures
            final(self).wf(),
            final(self)@ == old(self)@.batch_begun(),
            final(self).arena_handle() == old(self).arena_handle(),
            final(self).lut_handle() == old(self).lut_handle(),
    {
        self.pager.begin_batch();
    }

    /// Touches `id` with the plain policy, for a caller that knows it resident.
    pub(crate) fn touch(&mut self, id: BlockId) -> (r: Resolution)
        requires
            old(self).wf(),
        ensures
            final(self).wf(),
            final(self)@ == old(self)@.touched(id, false),
            r == old(self)@.resolve(id),
            final(self).arena_handle() == old(self).arena_handle(),
            final(self).lut_handle() == old(self).lut_handle(),
    {
        self.pager.touch(id)
    }

    /// First half of making `id` resident: it is touched and, where it was missing, owns a slot
    /// from now on, whose bytes are still to be copied. The table is changed by [`Self::placed`]
    /// alone.
    pub fn ensure_resident(&mut self, id: BlockId) -> (r: Placement)
        requires
            old(self).wf(),
        ensures
            final(self).wf(),
            final(self)@ == old(self)@.touched(id, false),
            r == match old(self)@.resolve(id) {
                Resolution::Hit { slot } => Placement::Resident { slot },
                Resolution::Miss { slot, evicted } => Placement::Upload {
                    slot,
                    evicted,
                    arena_off: (slot * old(self)@.slot_bytes) as usize,
                },
            },
            old(self)@.resolve(id) matches Resolution::Miss { slot, .. } ==> slot < old(
                self,
            )@.n_slots && slot * old(self)@.slot_bytes <= usize::MAX,
            final(self).arena_handle() == old(self).arena_handle(),
            final(self).lut_handle() == old(self).lut_handle(),
    {
        let ghost m = self@;
        proof {
            law_touch_places(m.order, m.n_slots, id, false, id);
            if m.resolve(id) is Miss {
                lemma_slot_fits(m.resolve(id)->Miss_slot, m.n_slots, m.slot_bytes);
            }
        }
        match self.pager.touch(id) {
            Resolution::Hit { slot } => Placement::Resident { slot },
            Resolution::Miss { slot, evicted } => {
                let arena_off = self.slot_start(slot);
                Placement::Upload { slot, evicted, arena_off }
            },
        }
    }

    /// Second half: the bytes of `id` are in `slot`, out of which `evicted` came, and the table
    /// says so from now on.
    pub fn placed(&mut self, id: BlockId, slot: u32, evicted: Option<BlockId>)
        requires
            old(self).wf(),
            slot < old(self)@.n_slots,
        ensures
            final(self).wf(),
            final(self)@ == old(self)@.placed(id, slot, evicted),
            final(self).arena_handle() == old(self).arena_handle(),
            final(self).lut_handle() == old(self).lut_handle(),
    {
        proof {
            law_word_base_fits(slot, slot, self@.n_slots, self@.slot_bytes);
        }
        if let Some(e) = evicted {
            if (e as usize) < self.lut_host.len() {
                self.lut_host.set(e as usize, NOT_RESIDENT);
            }
        }
        if (id as usize) < self.lut_host.len() {
            self.lut_host.set(id as usize, slot * self.words_per_slot);
        }
        self.lut_dirty = true;
    }

    /// Touches `id` and, where it is missing, places it through the staging ring at `ring_off`:
    /// the copy that the caller has to make is returned, and the table is changed at once. A
    /// missing block cannot be placed through a ring that is not mapped; the touch counts all the
    /// same. The ring bytes that were used are [`Self::slot_bytes`] where a copy is returned.
    pub fn touch_staged(
        &mut self,
        ring_mapped: bool,
        ring_off: usize,
        src_off: usize,
        id: BlockId,
        scan: bool,
    ) -> (r: Result<Option<SlotCopy>, PagerError>)
        requires
            old(self).wf(),
        ensures
            final(self).wf(),
            final(self).arena_handle() == old(self).arena_handle(),
            final(self).lut_handle() == old(self).lut_handle(),
            match old(self)@.resolve(id) {
                Resolution::Hit { .. } => {
                    &&& r == Ok::<Option<SlotCopy>, PagerError>(None)
                    &&& final(self)@ == old(self)@.brought_in(id, scan)
                },
                Resolution::Miss { slot, .. } => {
                    &&& slot < old(self)@.n_slots
                    &&& slot * old(self)@.slot_bytes <= usize::MAX
                    &&& if ring_mapped {
                        &&& final(self)@ == old(self)@.brought_in(id, scan)
                        &&& r == Ok::<Option<SlotCopy>, PagerError>(
                            Some(
                                SlotCopy {
                                    src_off,
                                    ring_off,
                                    arena_off: (slot * old(self)@.slot_bytes) as usize,
                                    len: old(self)@.slot_bytes as usize,
                                },
                            ),
                        )
                    } else {
                        &&& final(self)@ == old(self)@.touched(id, scan)
                        &&& r == Err::<Option<SlotCopy>, PagerError>(PagerError::RingNotMapped)
                    }
                },
            },
    {
        let ghost m = self@;
        proof {
            law_touch_places(m.order, m.n_slots, id, scan, id);
            if m.resolve(id) is Miss {
                lemma_slot_fits(m.resolve(id)->Miss_slot, m.n_slots, m.slot_bytes);
            }
        }
        let res = if scan { self.pager.touch_cold(id) } else { self.pager.touch(id) };
        match res {
            Resolution::Hit { .. } => Ok(None),
            Resolution::Miss { slot, evicted } => {
                if !ring_mapped {
                    return Err(PagerError::RingNotMapped);
                }
                let arena_off = self.slot_start(slot);
                self.placed(id, slot, evicted);
                Ok(Some(SlotCopy { src_off, ring_off, arena_off, len: self.slot_bytes }))
            },
        }
    }

    /// Number of table entries.
    pub fn lut_len(&self) -> (r: usize)
        ensures
            r == self@.lut.len(),
    {
        self.lut_host.len()
    }

    /// `n` table entries from block `base` on.
    pub fn lut_words(&self, base: usize, n: usize) -> (r: Vec<u32>)
        requires
            base + n <= self@.lut.len(),
        ensures
            r@ == self@.lut.subrange(base as int, base + n),
    {
        let mut r: Vec<u32> = Vec::new();
        let mut i: usize = 0;
        while i < n
            invariant
                i <= n,
                base + n <= self.lut_host.len(),
                r@ == self@.lut.subrange(base as int, base + i),
            decreases n - i,
        {
            r.push(self.lut_host[base + i]);
            i += 1;
            assert(r@ =~= self@.lut.subrange(base as int, base + i));
        }
        r
    }

    /// The whole table as the bytes that the device buffer has to hold.
    pub fn lut_image(&self) -> (r: Vec<u8>)
        ensures
            r@ == little_endian(self@.lut) || r@ == big_endian(self@.lut),
    {
        words_as_bytes(self.lut_host.as_slice())
    }

    /// The table image to send, where the table changed since it was last sent. Call it after the
    /// last touch of a batch and before anything that reads the device table; once the image is on
    /// the device, [`Self::lut_flushed`] is due.
    pub fn flush_lut(&self) -> (r: Option<Vec<u8>>)
        ensures
            r is Some <==> self@.dirty,
            r matches Some(b) ==> b@ == little_endian(self@.lut) || b@ == big_endian(self@.lut),
    {
        if self.lut_dirty {
            Some(self.lut_image())
        } else {
            None
        }
    }

    /// Records that the device holds the present table.
    pub fn lut_flushed(&mut self)
        requires
            old(self).wf(),
        ensures
            final(self).wf(),
            final(self)@ == (GpuModel { dirty: false, ..old(self)@ }),
            final(self).arena_handle() == old(self).arena_handle(),
            final(self).lut_handle() == old(self).lut_handle(),
    {
        self.lut_dirty = false;
    }

    /// Arena offset of `slot` in bytes.
    fn slot_start(&self, slot: u32) -> (r: usize)
        requires
            self.wf(),
            slot < self@.n_slots,
        ensures
            r == slot * self@.slot_bytes,
    {
        proof {
            lemma_slot_fits(slot, self@.n_slots, self@.slot_bytes);
        }
        slot as usize * self.slot_bytes
    }
}

} // verus!
