//! Residency bookkeeping for a fixed number of equal slots: which block sits in which slot, and
//! which block leaves when a new one has to come in.
//!
//! The policy is least-recently-used with one addition. Touches come in batches, and a block that
//! the current batch has touched is not chosen for eviction while the cache still holds a block
//! that it has not touched. [`Pager::touch_cold`] inserts a missing block at the cold end instead
//! of the hot end, so that one sweep over a large set does not push out everything else; the batch
//! rule is what keeps such a block in place until the batch is over.
use vstd::prelude::*;

verus! {

/// Names one block: an opaque number given by the caller.
pub type BlockId = u32;

/// Lookup-table entry of a block that no slot holds.
pub const NOT_RESIDENT: u32 = 0xffff_ffff;

/// One occupied slot.
#[derive(Clone, Copy, Debug, PartialEq, Eq, Structural)]
pub struct Entry {
    pub block: BlockId,
    pub slot: u32,
    /// Touched since the current batch was opened.
    pub touched: bool,
}

/// What a touch found.
#[derive(Clone, Copy, Debug, PartialEq, Eq, Structural)]
pub enum Resolution {
    /// The block was resident in `slot`.
    Hit { slot: u32 },
    /// The block was not resident; it now owns `slot`, whose previous block was `evicted`.
    Miss { slot: u32, evicted: Option<BlockId> },
}

/// Counters since the pager was made. Each one stops at its largest value.
#[derive(Clone, Copy, Debug, PartialEq, Eq, Structural)]
pub struct PagerStats {
    pub hits: u64,
    pub misses: u64,
    pub evictions: u64,
}

impl Default for PagerStats {
    fn default() -> (r: Self)
        ensures
            r == (PagerStats { hits: 0, misses: 0, evictions: 0 }),
    {
        PagerStats { hits: 0, misses: 0, evictions: 0 }
    }
}

/// One more, stopping at the largest `u64`.
pub open spec fn count_up(n: u64) -> u64 {
    if n == u64::MAX {
        n
    } else {
        (n + 1) as u64
    }
}

/// Position of the first entry of `order` that satisfies `p`, or the length of `order`.
pub open spec fn first_where(order: Seq<Entry>, p: spec_fn(Entry) -> bool) -> int
    decreases order.len(),
{
    if order.len() == 0 {
        0
    } else if p(order[0]) {
        0
    } else {
        1 + first_where(order.drop_first(), p)
    }
}

/// Position of `id` in `order`, or the length of `order` where it is absent.
pub open spec fn position(order: Seq<Entry>, id: BlockId) -> int {
    first_where(order, |e: Entry| e.block == id)
}

/// Whether some slot holds `id`.
pub open spec fn resident(order: Seq<Entry>, id: BlockId) -> bool {
    exists|i: int| 0 <= i < order.len() && (#[trigger] order[i]).block == id
}

/// The slot that holds `id`.
pub open spec fn slot_of_block(order: Seq<Entry>, id: BlockId) -> Option<u32> {
    if position(order, id) < order.len() {
        Some(order[position(order, id)].slot)
    } else {
        None
    }
}

/// Position of the entry that leaves a full cache: the coldest one that the batch has not touched,
/// or the coldest one where the batch has touched them all.
pub open spec fn victim(order: Seq<Entry>) -> int {
    let v = first_where(order, |e: Entry| !e.touched);
    if v < order.len() {
        v
    } else {
        0
    }
}

/// Entries from cold to hot after `id` was touched in a cache of `n_slots` slots.
pub open spec fn order_after(order: Seq<Entry>, n_slots: nat, id: BlockId, cold: bool) -> Seq<
    Entry,
> {
    let p = position(order, id);
    if p < order.len() {
        order.remove(p).push(Entry { block: id, slot: order[p].slot, touched: true })
    } else if order.len() < n_slots {
        let e = Entry { block: id, slot: order.len() as u32, touched: true };
        if cold {
            order.insert(0, e)
        } else {
            order.push(e)
        }
    } else {
        let e = Entry { block: id, slot: order[victim(order)].slot, touched: true };
        let kept = order.remove(victim(order));
        if cold {
            kept.insert(0, e)
        } else {
            kept.push(e)
        }
    }
}

/// What touching `id` reports in a cache of `n_slots` slots.
pub open spec fn resolution(order: Seq<Entry>, n_slots: nat, id: BlockId) -> Resolution {
    let p = position(order, id);
    if p < order.len() {
        Resolution::Hit { slot: order[p].slot }
    } else if order.len() < n_slots {
        Resolution::Miss { slot: order.len() as u32, evicted: None }
    } else {
        let v = order[victim(order)];
        Resolution::Miss { slot: v.slot, evicted: Some(v.block) }
    }
}

/// The counters after a touch that reported `r`.
pub open spec fn stats_after(s: PagerStats, r: Resolution) -> PagerStats {
    match r {
        Resolution::Hit { .. } => PagerStats { hits: count_up(s.hits), ..s },
        Resolution::Miss { evicted, .. } => PagerStats {
            hits: s.hits,
            misses: count_up(s.misses),
            evictions: if evicted is Some {
                count_up(s.evictions)
            } else {
                s.evictions
            },
        },
    }
}

/// `order` with no entry touched.
pub open spec fn untouched(order: Seq<Entry>) -> Seq<Entry> {
    order.map_values(|e: Entry| Entry { block: e.block, slot: e.slot, touched: false })
}

/// Every block and every slot occurs once, and the occupied slots are the first ones.
pub open spec fn order_wf(order: Seq<Entry>, n_slots: nat) -> bool {
    &&& order.len() <= n_slots
    &&& forall|i: int| 0 <= i < order.len() ==> (#[trigger] order[i]).slot < order.len()
    &&& forall|i: int, j: int|
        0 <= i < j < order.len() ==> (#[trigger] order[i]).block != (#[trigger] order[j]).block
    &&& forall|i: int, j: int|
        0 <= i < j < order.len() ==> (#[trigger] order[i]).slot != (#[trigger] order[j]).slot
}

/// `first_where` is the only position that nothing before it satisfies and it does.
pub proof fn lemma_first_where(order: Seq<Entry>, p: spec_fn(Entry) -> bool, i: int)
    requires
        0 <= i <= order.len(),
        forall|j: int| 0 <= j < i ==> !p(#[trigger] order[j]),
        i < order.len() ==> p(order[i]),
    ensures
        first_where(order, p) == i,
    decreases order.len(),
{
    if order.len() > 0 && i > 0 {
        assert(!p(order[0]));
        let rest = order.drop_first();
        assert forall|j: int| 0 <= j < i - 1 implies !p(#[trigger] rest[j]) by {
            assert(rest[j] == order[j + 1]);
        }
        if i < order.len() {
            assert(rest[i - 1] == order[i]);
        }
        lemma_first_where(rest, p, i - 1);
    }
}

/// `first_where` lies in range, satisfies `p` where it is a position, and is the first to do so.
pub proof fn lemma_first_where_bounds(order: Seq<Entry>, p: spec_fn(Entry) -> bool)
    ensures
        0 <= first_where(order, p) <= order.len(),
        first_where(order, p) < order.len() ==> p(order[first_where(order, p)]),
        forall|j: int| 0 <= j < first_where(order, p) ==> !p(#[trigger] order[j]),
    decreases order.len(),
{
    if order.len() > 0 && !p(order[0]) {
        let rest = order.drop_first();
        lemma_first_where_bounds(rest, p);
        let k = first_where(rest, p);
        if k < rest.len() {
            assert(rest[k] == order[k + 1]);
        }
        assert forall|j: int| 0 <= j < 1 + k implies !p(#[trigger] order[j]) by {
            if j > 0 {
                assert(rest[j - 1] == order[j]);
            }
        }
    }
}

/// A block has a position exactly when it is resident.
pub proof fn lemma_position(order: Seq<Entry>, id: BlockId)
    ensures
        0 <= position(order, id) <= order.len(),
        resident(order, id) <==> position(order, id) < order.len(),
        position(order, id) < order.len() ==> order[position(order, id)].block == id,
        forall|j: int| 0 <= j < position(order, id) ==> (#[trigger] order[j]).block != id,
{
    lemma_first_where_bounds(order, |e: Entry| e.block == id);
    let p = position(order, id);
    if p == order.len() {
        assert forall|i: int| 0 <= i < order.len() implies (#[trigger] order[i]).block != id by {}
    }
}

/// The victim of a full cache is a position of it, and no batch-touched block is chosen while an
/// untouched one is there.
pub proof fn lemma_victim(order: Seq<Entry>)
    requires
        order.len() > 0,
    ensures
        0 <= victim(order) < order.len(),
        order[victim(order)].touched ==> forall|i: int|
            0 <= i < order.len() ==> (#[trigger] order[i]).touched,
{
    lemma_first_where_bounds(order, |e: Entry| !e.touched);
    let v = first_where(order, |e: Entry| !e.touched);
    if order[victim(order)].touched {
        assert(v == order.len());
        assert forall|i: int| 0 <= i < order.len() implies (#[trigger] order[i]).touched by {}
    }
}

/// A touch keeps the entries well formed.
pub proof fn lemma_order_after_wf(order: Seq<Entry>, n_slots: nat, id: BlockId, cold: bool)
    requires
        order_wf(order, n_slots),
        0 < n_slots <= u32::MAX,
    ensures
        order_wf(order_after(order, n_slots, id, cold), n_slots),
{
    lemma_position(order, id);
    let p = position(order, id);
    let next = order_after(order, n_slots, id, cold);
    if p < order.len() {
        assert forall|i: int| 0 <= i < next.len() implies (#[trigger] next[i]).slot < next.len() by {
            if i < p {
                assert(next[i] == order[i]);
            } else if i < next.len() - 1 {
                assert(next[i] == order[i + 1]);
            }
        }
        assert forall|i: int, j: int| 0 <= i < j < next.len() implies (#[trigger] next[i]).block
            != (#[trigger] next[j]).block && next[i].slot != next[j].slot by {
            let a = if i < p { i } else { i + 1 };
            let b = if j == next.len() - 1 { p } else if j < p { j } else { j + 1 };
            assert(next[i].block == order[a].block && next[i].slot == order[a].slot);
            assert(next[j].block == order[b].block && next[j].slot == order[b].slot);
            assert(a != b);
        }
    } else {
        if order.len() >= n_slots {
            lemma_victim(order);
        }
        let full = order.len() >= n_slots;
        let v = victim(order);
        let shift: int = if cold { 1 } else { 0 };
        let at: int = if cold { 0 } else { next.len() - 1 };
        assert forall|i: int| 0 <= i < next.len() && i != at implies (#[trigger] next[i])
            == order[if full && i - shift >= v { i - shift + 1 } else { i - shift }] by {}
        assert(next[at].block == id);
        assert forall|i: int| 0 <= i < next.len() implies (#[trigger] next[i]).slot < next.len() by {
            if i != at {
                let a = if full && i - shift >= v { i - shift + 1 } else { i - shift };
                assert(next[i] == order[a]);
            }
        }
        assert forall|i: int, j: int| 0 <= i < j < next.len() implies (#[trigger] next[i]).block
            != (#[trigger] next[j]).block && next[i].slot != next[j].slot by {
            if i != at {
                let a = if full && i - shift >= v { i - shift + 1 } else { i - shift };
                assert(next[i] == order[a]);
            }
            if j != at {
                let b = if full && j - shift >= v { j - shift + 1 } else { j - shift };
                assert(next[j] == order[b]);
            }
        }
    }
}

/// In a well-formed order a block sits at the only position that names it.
pub proof fn lemma_position_unique(order: Seq<Entry>, n_slots: nat, i: int)
    requires
        order_wf(order, n_slots),
        0 <= i < order.len(),
    ensures
        position(order, order[i].block) == i,
        slot_of_block(order, order[i].block) == Some(order[i].slot),
{
    lemma_first_where(order, |e: Entry| e.block == order[i].block, i);
}

/// A block sits where it was before, in the same slot, whichever way its entry moved.
proof fn lemma_same_slot(a: Seq<Entry>, b: Seq<Entry>, n_slots: nat, id: BlockId)
    requires
        order_wf(a, n_slots),
        order_wf(b, n_slots),
        forall|i: int|
            0 <= i < a.len() && (#[trigger] a[i]).block == id ==> exists|j: int|
                0 <= j < b.len() && (#[trigger] b[j]).block == id && b[j].slot == a[i].slot,
        forall|j: int|
            0 <= j < b.len() && (#[trigger] b[j]).block == id ==> exists|i: int|
                0 <= i < a.len() && (#[trigger] a[i]).block == id && b[j].slot == a[i].slot,
    ensures
        slot_of_block(a, id) == slot_of_block(b, id),
        resident(a, id) == resident(b, id),
{
    lemma_position(a, id);
    lemma_position(b, id);
    if resident(a, id) {
        let i = position(a, id);
        let j = choose|j: int|
            0 <= j < b.len() && (#[trigger] b[j]).block == id && b[j].slot == a[i].slot;
        lemma_position_unique(b, n_slots, j);
    } else if resident(b, id) {
        let j = position(b, id);
        let i = choose|i: int|
            0 <= i < a.len() && (#[trigger] a[i]).block == id && b[j].slot == a[i].slot;
        assert(false);
    }
}

/// Where every block is after a touch: the touched block is in the slot that the touch reports, the
/// evicted block is nowhere, and every other block is where it was.
pub proof fn law_touch_places(
    order: Seq<Entry>,
    n_slots: nat,
    id: BlockId,
    cold: bool,
    other: BlockId,
)
    requires
        order_wf(order, n_slots),
        0 < n_slots <= u32::MAX,
    ensures
        order_wf(order_after(order, n_slots, id, cold), n_slots),
        match resolution(order, n_slots, id) {
            Resolution::Hit { slot } => slot_of_block(order, id) == Some(slot) && slot_of_block(
                order_after(order, n_slots, id, cold),
                other,
            ) == slot_of_block(order, other),
            Resolution::Miss { slot, evicted } => {
                &&& slot < n_slots
                &&& slot_of_block(order, id) is None
                &&& evicted is Some ==> evicted != Some(id) && slot_of_block(order, evicted->0)
                    == Some(slot)
                &&& slot_of_block(order_after(order, n_slots, id, cold), other) == (if other == id {
                    Some(slot)
                } else if evicted == Some(other) {
                    None
                } else {
                    slot_of_block(order, other)
                })
            },
        },
{
    let next = order_after(order, n_slots, id, cold);
    lemma_order_after_wf(order, n_slots, id, cold);
    lemma_position(order, id);
    let p = position(order, id);
    if p < order.len() {
        assert forall|i: int| 0 <= i < order.len() && (#[trigger] order[i]).block
            == other implies exists|j: int|
            0 <= j < next.len() && (#[trigger] next[j]).block == other && next[j].slot
                == order[i].slot by {
            let j = if i < p { i } else if i == p { next.len() - 1 } else { i - 1 };
            assert(next[j].block == other && next[j].slot == order[i].slot);
        }
        assert forall|j: int| 0 <= j < next.len() && (#[trigger] next[j]).block
            == other implies exists|i: int|
            0 <= i < order.len() && (#[trigger] order[i]).block == other && next[j].slot
                == order[i].slot by {
            let i = if j == next.len() - 1 { p } else if j < p { j } else { j + 1 };
            assert(order[i].block == other && next[j].slot == order[i].slot);
        }
        lemma_same_slot(order, next, n_slots, other);
    } else {
        let full = order.len() >= n_slots;
        if full {
            lemma_victim(order);
            lemma_position_unique(order, n_slots, victim(order));
            assert(order[victim(order)].block != id);
        }
        let v = victim(order);
        let shift: int = if cold { 1 } else { 0 };
        let at: int = if cold { 0 } else { next.len() - 1 };
        assert forall|j: int| 0 <= j < next.len() && j != at implies (#[trigger] next[j])
            == order[if full && j - shift >= v { j - shift + 1 } else { j - shift }] by {}
        assert(next[at].block == id);
        if other == id {
            lemma_position_unique(next, n_slots, at);
        } else if full && order[v].block == other {
            lemma_position(next, other);
            assert forall|j: int| 0 <= j < next.len() implies (#[trigger] next[j]).block
                != other by {
                if j != at {
                    let a = if full && j - shift >= v { j - shift + 1 } else { j - shift };
                    assert(next[j] == order[a]);
                }
            }
        } else {
            assert forall|i: int| 0 <= i < order.len() && (#[trigger] order[i]).block
                == other implies exists|j: int|
                0 <= j < next.len() && (#[trigger] next[j]).block == other && next[j].slot
                    == order[i].slot by {
                let j = if full && i > v { i - 1 + shift } else { i + shift };
                assert(next[j] == order[i]);
            }
            assert forall|j: int| 0 <= j < next.len() && (#[trigger] next[j]).block
                == other implies exists|i: int|
                0 <= i < order.len() && (#[trigger] order[i]).block == other && next[j].slot
                    == order[i].slot by {
                let i = if full && j - shift >= v { j - shift + 1 } else { j - shift };
                assert(order[i] == next[j]);
            }
            lemma_same_slot(order, next, n_slots, other);
        }
    }
}

/// A block that the current batch has touched is evicted only where the batch has touched every
/// block in the cache.
pub proof fn law_batch_protects(order: Seq<Entry>, n_slots: nat, id: BlockId)
    requires
        order_wf(order, n_slots),
        n_slots > 0,
    ensures
        resolution(order, n_slots, id) matches Resolution::Miss { evicted: Some(b), .. } ==> {
            ||| exists|i: int|
                0 <= i < order.len() && (#[trigger] order[i]).block == b && !order[i].touched
            ||| order.len() == n_slots && forall|i: int|
                0 <= i < order.len() ==> (#[trigger] order[i]).touched
        },
{
    if position(order, id) >= order.len() && order.len() >= n_slots {
        lemma_victim(order);
        let v = victim(order);
        assert(order[v].block == order[v].block);
    }
}

/// With the plain policy the cache is ordered by last use: the touched block is the hottest, the
/// others keep their order, and in a batch of one touch the block that leaves is the coldest.
pub proof fn law_plain_touch_is_lru(order: Seq<Entry>, n_slots: nat, id: BlockId)
    requires
        order_wf(order, n_slots),
        0 < n_slots <= u32::MAX,
    ensures
        order_after(order, n_slots, id, false).last().block == id,
        resident(order, id) ==> order_after(order, n_slots, id, false).drop_last() == order.remove(
            position(order, id),
        ),
        !resident(order, id) && order.len() == n_slots ==> {
            &&& resolution(untouched(order), n_slots, id) == (Resolution::Miss {
                slot: order[0].slot,
                evicted: Some(order[0].block),
            })
            &&& order_after(untouched(order), n_slots, id, false).drop_last() == untouched(
                order,
            ).drop_first()
        },
{
    lemma_position(order, id);
    let fresh = untouched(order);
    lemma_position(fresh, id);
    if resident(order, id) {
        assert(order_after(order, n_slots, id, false).drop_last() =~= order.remove(
            position(order, id),
        ));
    }
    if !resident(order, id) && order.len() == n_slots {
        if resident(fresh, id) {
            let i = position(fresh, id);
            assert(fresh[i].block == order[i].block);
            assert(false);
        }
        assert(!fresh[0].touched);
        lemma_first_where(fresh, |e: Entry| !e.touched, 0);
        assert(victim(fresh) == 0);
        assert(order_after(fresh, n_slots, id, false).drop_last() =~= fresh.drop_first());
    }
}

/// A sweep does not push out what is hot: on a full cache, a block that a new batch misses and puts in
/// at the cold end takes the coldest block's slot, and every other entry keeps its place.
pub proof fn law_cold_touch_is_scan_resistant(order: Seq<Entry>, n_slots: nat, id: BlockId)
    requires
        order_wf(order, n_slots),
        0 < n_slots,
        order.len() == n_slots,
        !resident(order, id),
    ensures
        resolution(untouched(order), n_slots, id) == (Resolution::Miss {
            slot: order[0].slot,
            evicted: Some(order[0].block),
        }),
        order_after(untouched(order), n_slots, id, true) == untouched(order).update(
            0,
            Entry { block: id, slot: order[0].slot, touched: true },
        ),
{
    let fresh = untouched(order);
    lemma_position(fresh, id);
    assert(!resident(fresh, id)) by {
        if resident(fresh, id) {
            let i = choose|i: int| 0 <= i < fresh.len() && (#[trigger] fresh[i]).block == id;
            assert(order[i].block == id);
        }
    }
    lemma_first_where(fresh, |e: Entry| !e.touched, 0);
    assert(order_after(fresh, n_slots, id, true) =~= fresh.update(
        0,
        Entry { block: id, slot: order[0].slot, touched: true },
    ));
}

/// The order after touching `ids` one after the other.
pub open spec fn order_after_all(order: Seq<Entry>, n_slots: nat, ids: Seq<BlockId>, cold: bool) -> Seq<
    Entry,
>
    decreases ids.len(),
{
    if ids.len() == 0 {
        order
    } else {
        order_after(order_after_all(order, n_slots, ids.drop_last(), cold), n_slots, ids.last(), cold)
    }
}

/// What a batch has done so far: it touched the blocks it named, only those, and all are resident.
pub open spec fn batch_holds(order: Seq<Entry>, ids: Seq<BlockId>) -> bool {
    &&& forall|i: int|
        0 <= i < order.len() && (#[trigger] order[i]).touched ==> ids.contains(order[i].block)
    &&& forall|k: int|
        0 <= k < ids.len() ==> exists|i: int|
            0 <= i < order.len() && (#[trigger] order[i]).touched && order[i].block
                == #[trigger] ids[k]
}

/// One more touch of a batch that names at most `n_slots` different blocks keeps every block that
/// the batch has named.
pub proof fn lemma_batch_step(
    order: Seq<Entry>,
    n_slots: nat,
    ids: Seq<BlockId>,
    id: BlockId,
    cold: bool,
)
    requires
        order_wf(order, n_slots),
        0 < n_slots <= u32::MAX,
        batch_holds(order, ids),
        ids.push(id).to_set().len() <= n_slots,
    ensures
        batch_holds(order_after(order, n_slots, id, cold), ids.push(id)),
{
    let next = order_after(order, n_slots, id, cold);
    let more = ids.push(id);
    lemma_position(order, id);
    let p = position(order, id);
    assert(more[ids.len() as int] == id);
    assert forall|b: BlockId| ids.contains(b) implies more.contains(b) by {
        let k = choose|k: int| 0 <= k < ids.len() && ids[k] == b;
        assert(more[k] == b);
    }
    if p < order.len() {
        assert forall|i: int| 0 <= i < next.len() && (#[trigger] next[i]).touched implies more.contains(
            next[i].block,
        ) by {
            let a = if i == next.len() - 1 { p } else if i < p { i } else { i + 1 };
            assert(next[i].block == order[a].block);
            if i == next.len() - 1 {
                assert(more.contains(id));
            } else {
                assert(next[i] == order[a]);
            }
        }
        assert forall|k: int| 0 <= k < more.len() implies exists|i: int|
            0 <= i < next.len() && (#[trigger] next[i]).touched && next[i].block
                == #[trigger] more[k] by {
            if more[k] == id {
                assert(next[next.len() - 1].touched && next[next.len() - 1].block == id);
            } else {
                assert(more[k] == ids[k]);
                let i = choose|i: int|
                    0 <= i < order.len() && (#[trigger] order[i]).touched && order[i].block
                        == ids[k];
                let j = if i < p { i } else { i - 1 };
                assert(next[j] == order[i]);
            }
        }
    } else {
        let full = order.len() >= n_slots;
        if full {
            lemma_victim(order);
            if order[victim(order)].touched {
                // Every block in the cache is one that the batch named, and `id` is one more.
                let blocks = order.map_values(|e: Entry| e.block);
                assert(blocks.no_duplicates());
                blocks.unique_seq_to_set();
                let named = ids.to_set();
                assert forall|b: BlockId| blocks.to_set().contains(b) implies named.contains(b) by {
                    let i = choose|i: int| 0 <= i < blocks.len() && blocks[i] == b;
                    assert(order[i].touched && order[i].block == b);
                }
                ids.lemma_cardinality_of_set();
                vstd::set_lib::lemma_len_subset(blocks.to_set(), named);
                assert(!named.contains(id)) by {
                    if named.contains(id) {
                        let k = choose|k: int| 0 <= k < ids.len() && ids[k] == id;
                        let i = choose|i: int|
                            0 <= i < order.len() && (#[trigger] order[i]).touched && order[i].block
                                == ids[k];
                        assert(resident(order, id));
                    }
                }
                assert(more.to_set() =~= named.insert(id));
                assert(false);
            }
        }
        let v = victim(order);
        let shift: int = if cold { 1 } else { 0 };
        let at: int = if cold { 0 } else { next.len() - 1 };
        assert forall|j: int| 0 <= j < next.len() && j != at implies (#[trigger] next[j])
            == order[if full && j - shift >= v { j - shift + 1 } else { j - shift }] by {}
        assert(next[at].block == id && next[at].touched);
        assert forall|i: int| 0 <= i < next.len() && (#[trigger] next[i]).touched implies more.contains(
            next[i].block,
        ) by {
            if i == at {
                assert(more.contains(id));
            } else {
                let a = if full && i - shift >= v { i - shift + 1 } else { i - shift };
                assert(next[i] == order[a]);
            }
        }
        assert forall|k: int| 0 <= k < more.len() implies exists|i: int|
            0 <= i < next.len() && (#[trigger] next[i]).touched && next[i].block
                == #[trigger] more[k] by {
            if more[k] == id {
                assert(next[at].block == more[k]);
            } else {
                assert(more[k] == ids[k]);
                let i = choose|i: int|
                    0 <= i < order.len() && (#[trigger] order[i]).touched && order[i].block
                        == ids[k];
                assert(!full || i != v);
                let j = if full && i > v { i - 1 + shift } else { i + shift };
                assert(next[j] == order[i]);
            }
        }
    }
}

/// A batch that names at most `n_slots` different blocks ends with all of them resident, whichever
/// policy it uses and whatever the cache held before.
pub proof fn law_batch_stays_resident(
    order: Seq<Entry>,
    n_slots: nat,
    ids: Seq<BlockId>,
    cold: bool,
)
    requires
        order_wf(order, n_slots),
        0 < n_slots <= u32::MAX,
        ids.to_set().len() <= n_slots,
    ensures
        order_wf(order_after_all(untouched(order), n_slots, ids, cold), n_slots),
        batch_holds(order_after_all(untouched(order), n_slots, ids, cold), ids),
        forall|k: int|
            0 <= k < ids.len() ==> resident(
                order_after_all(untouched(order), n_slots, ids, cold),
                #[trigger] ids[k],
            ),
    decreases ids.len(),
{
    let fresh = untouched(order);
    if ids.len() == 0 {
        lemma_untouched_wf(order, n_slots);
    } else {
        let before = ids.drop_last();
        assert(before.push(ids.last()) =~= ids);
        assert(before.to_set().subset_of(ids.to_set())) by {
            assert forall|b: BlockId| before.to_set().contains(b) implies ids.to_set().contains(
                b,
            ) by {
                let k = choose|k: int| 0 <= k < before.len() && before[k] == b;
                assert(ids[k] == b);
            }
        }
        ids.lemma_cardinality_of_set();
        vstd::set_lib::lemma_len_subset(before.to_set(), ids.to_set());
        law_batch_stays_resident(order, n_slots, before, cold);
        let mid = order_after_all(fresh, n_slots, before, cold);
        lemma_order_after_wf(mid, n_slots, ids.last(), cold);
        lemma_batch_step(mid, n_slots, before, ids.last(), cold);
    }
}

/// Opening a batch keeps the entries well formed and leaves every block where it is.
pub proof fn lemma_untouched_wf(order: Seq<Entry>, n_slots: nat)
    requires
        order_wf(order, n_slots),
    ensures
        order_wf(untouched(order), n_slots),
        batch_holds(untouched(order), Seq::empty()),
        forall|b: BlockId| #[trigger]
            slot_of_block(untouched(order), b) == slot_of_block(order, b),
{
    let b = untouched(order);
    assert forall|k: int| 0 <= k < b.len() implies (#[trigger] b[k]).slot < b.len() by {
        assert(b[k].slot == order[k].slot);
    }
    assert forall|k: int, l: int| 0 <= k < l < b.len() implies (#[trigger] b[k]).block != (
    #[trigger] b[l]).block && b[k].slot != b[l].slot by {
        assert(b[k].slot == order[k].slot && b[k].block == order[k].block);
        assert(b[l].slot == order[l].slot && b[l].block == order[l].block);
    }
    assert forall|id: BlockId| #[trigger] slot_of_block(b, id) == slot_of_block(order, id) by {
        lemma_position(order, id);
        let p = position(order, id);
        assert forall|j: int| 0 <= j < p implies (#[trigger] b[j]).block != id by {
            assert(b[j].block == order[j].block);
        }
        lemma_first_where(b, |e: Entry| e.block == id, p);
    }
}

/// A hit reports the slot of the entry that names the block. Under either policy the block becomes the
/// hottest one, in its slot, and every other entry stays as it is, in its order.
pub proof fn law_hit(order: Seq<Entry>, n_slots: nat, id: BlockId, cold: bool, at: int)
    requires
        order_wf(order, n_slots),
        0 <= at < order.len(),
        order[at].block == id,
    ensures
        resolution(order, n_slots, id) == (Resolution::Hit { slot: order[at].slot }),
        order_after(order, n_slots, id, cold) == order.take(at) + order.skip(at + 1) + seq![
            Entry { block: id, slot: order[at].slot, touched: true },
        ],
{
    lemma_position_unique(order, n_slots, at);
    assert(order_after(order, n_slots, id, cold) =~= order.take(at) + order.skip(at + 1) + seq![
        Entry { block: id, slot: order[at].slot, touched: true },
    ]);
}

/// While a slot is free, a missing block takes the first free one and nothing leaves. The plain policy
/// puts it at the hot end, the other one at the cold end.
pub proof fn law_free_slot_first(order: Seq<Entry>, n_slots: nat, id: BlockId, cold: bool)
    requires
        order_wf(order, n_slots),
        order.len() < n_slots <= u32::MAX,
        forall|i: int| 0 <= i < order.len() ==> (#[trigger] order[i]).block != id,
    ensures
        resolution(order, n_slots, id) matches Resolution::Miss { slot, evicted } && slot
            == order.len() && evicted is None,
        ({
            let came = Entry { block: id, slot: order.len() as u32, touched: true };
            order_after(order, n_slots, id, cold) == if cold {
                seq![came] + order
            } else {
                order + seq![came]
            }
        }),
{
    lemma_position(order, id);
    let came = Entry { block: id, slot: order.len() as u32, touched: true };
    if cold {
        assert(order_after(order, n_slots, id, cold) =~= seq![came] + order);
    } else {
        assert(order_after(order, n_slots, id, cold) =~= order + seq![came]);
    }
}

/// The block that leaves a full cache is the coldest one that the batch has not touched: no untouched
/// entry stands before it. Where the batch has touched them all, it is the coldest of all. The missing
/// block takes its slot, and every other entry stays as it is, in its order.
pub proof fn law_coldest_untouched_leaves(
    order: Seq<Entry>,
    n_slots: nat,
    id: BlockId,
    cold: bool,
    at: int,
)
    requires
        order_wf(order, n_slots),
        order.len() == n_slots,
        forall|i: int| 0 <= i < order.len() ==> (#[trigger] order[i]).block != id,
        0 <= at < order.len(),
        forall|i: int| 0 <= i < at ==> (#[trigger] order[i]).touched,
        order[at].touched ==> at == 0 && forall|i: int|
            0 <= i < order.len() ==> (#[trigger] order[i]).touched,
    ensures
        resolution(order, n_slots, id) == (Resolution::Miss {
            slot: order[at].slot,
            evicted: Some(order[at].block),
        }),
        ({
            let came = seq![Entry { block: id, slot: order[at].slot, touched: true }];
            let stay = order.take(at) + order.skip(at + 1);
            order_after(order, n_slots, id, cold) == if cold {
                came + stay
            } else {
                stay + came
            }
        }),
{
    lemma_position(order, id);
    if order[at].touched {
        lemma_first_where(order, |e: Entry| !e.touched, order.len() as int);
    } else {
        lemma_first_where(order, |e: Entry| !e.touched, at);
    }
    assert(victim(order) == at);
    let came = seq![Entry { block: id, slot: order[at].slot, touched: true }];
    let stay = order.take(at) + order.skip(at + 1);
    if cold {
        assert(order_after(order, n_slots, id, cold) =~= came + stay);
    } else {
        assert(order_after(order, n_slots, id, cold) =~= stay + came);
    }
}

/// Whoever leaves was untouched and every untouched block that stays was hotter, whatever else happens in
/// the batch.
pub proof fn law_no_colder_untouched_stays(order: Seq<Entry>, n_slots: nat, id: BlockId)
    requires
        order_wf(order, n_slots),
        0 < n_slots <= u32::MAX,
    ensures
        resolution(order, n_slots, id) matches Resolution::Miss { evicted: Some(b), .. } ==> forall|
            i: int,
            j: int,
        |
            0 <= i < order.len() && 0 <= j < order.len() && (#[trigger] order[i]).block == b && !(
            #[trigger] order[j]).touched ==> !order[i].touched && i <= j,
{
    lemma_position(order, id);
    if position(order, id) == order.len() && order.len() == n_slots {
        lemma_victim(order);
        lemma_first_where_bounds(order, |e: Entry| !e.touched);
        let v = victim(order);
        assert forall|i: int, j: int|
            0 <= i < order.len() && 0 <= j < order.len() && (#[trigger] order[i]).block
                == order[v].block && !(#[trigger] order[j]).touched implies !order[i].touched && i
            <= j by {
            assert(i == v);
        }
    }
}

/// Asking for a block's slot gives that of the entry that names it, and nothing where none does.
pub proof fn law_slot_of(order: Seq<Entry>, n_slots: nat, id: BlockId)
    requires
        order_wf(order, n_slots),
    ensures
        forall|i: int|
            0 <= i < order.len() && (#[trigger] order[i]).block == id ==> slot_of_block(order, id)
                == Some(order[i].slot),
        (forall|i: int| 0 <= i < order.len() ==> (#[trigger] order[i]).block != id)
            ==> slot_of_block(order, id) is None,
{
    lemma_position(order, id);
    assert forall|i: int| 0 <= i < order.len() && (#[trigger] order[i]).block
        == id implies slot_of_block(order, id) == Some(order[i].slot) by {
        lemma_position_unique(order, n_slots, i);
    }
}

/// Opening a batch leaves every block in its slot and in its place, and nothing touched.
pub proof fn law_begin_batch(order: Seq<Entry>)
    ensures
        untouched(order).len() == order.len(),
        forall|i: int|
            0 <= i < order.len() ==> (#[trigger] untouched(order)[i]).block == order[i].block
                && untouched(order)[i].slot == order[i].slot && !untouched(order)[i].touched,
{
}

/// Whether a batch of `ids` misses all of them in a full cache, and names none twice.
pub open spec fn sweeps(order: Seq<Entry>, n_slots: nat, ids: Seq<BlockId>) -> bool {
    &&& order_wf(order, n_slots)
    &&& order.len() == n_slots
    &&& ids.len() <= n_slots
    &&& forall|k: int, i: int|
        0 <= k < ids.len() && 0 <= i < order.len() ==> #[trigger] ids[k] != (
        #[trigger] order[i]).block
    &&& forall|k: int, l: int|
        0 <= k < l < ids.len() ==> #[trigger] ids[k] != #[trigger] ids[l]
}

/// The blocks `ids`, each in the slot of the block of `order` at the same place.
pub open spec fn newcomers(order: Seq<Entry>, ids: Seq<BlockId>) -> Seq<Entry> {
    Seq::new(ids.len(), |k: int| Entry { block: ids[k], slot: order[k].slot, touched: true })
}

/// The entries of `order` but for the `n` coldest, none of them touched.
pub open spec fn hotter(order: Seq<Entry>, n: int) -> Seq<Entry> {
    Seq::new(
        (order.len() - n) as nat,
        |i: int| Entry { block: order[i + n].block, slot: order[i + n].slot, touched: false },
    )
}

/// A batch that misses `n` blocks in a full cache evicts exactly the `n` coldest blocks, from cold to
/// hot, each for the next block of the batch, and every hotter block stays where it is. The plain policy
/// leaves the newcomers at the hot end, in the order of their touches; a sweep leaves them at the cold
/// end, so that they are the first to go in the batches to come.
pub proof fn law_sweep_takes_the_coldest(
    order: Seq<Entry>,
    n_slots: nat,
    ids: Seq<BlockId>,
    cold: bool,
)
    requires
        sweeps(order, n_slots, ids),
        0 < n_slots <= u32::MAX,
    ensures
        order_after_all(untouched(order), n_slots, ids, cold) == if cold {
            newcomers(order, ids).reverse() + hotter(order, ids.len() as int)
        } else {
            hotter(order, ids.len() as int) + newcomers(order, ids)
        },
        forall|k: int|
            0 <= k < ids.len() ==> resolution(
                order_after_all(untouched(order), n_slots, ids.take(k), cold),
                n_slots,
                #[trigger] ids[k],
            ) == (Resolution::Miss { slot: order[k].slot, evicted: Some(order[k].block) }),
    decreases ids.len(),
{
    let fresh = untouched(order);
    if ids.len() > 0 {
        let before = ids.drop_last();
        let m = before.len() as int;
        let id = ids.last();
        assert(sweeps(order, n_slots, before)) by {
            assert forall|k: int, l: int| 0 <= k < l < before.len() implies #[trigger] before[k]
                != #[trigger] before[l] by {
                assert(ids[k] != ids[l]);
            }
            assert forall|k: int, i: int|
                0 <= k < before.len() && 0 <= i < order.len() implies #[trigger] before[k] != (
            #[trigger] order[i]).block by {
                assert(ids[k] != order[i].block);
            }
        }
        law_sweep_takes_the_coldest(order, n_slots, before, cold);
        lemma_untouched_wf(order, n_slots);
        lemma_order_after_all_wf(fresh, n_slots, before, cold);
        lemma_sweep_step(order, n_slots, ids, cold);
        assert forall|k: int| 0 <= k < ids.len() implies resolution(
            order_after_all(fresh, n_slots, ids.take(k), cold),
            n_slots,
            #[trigger] ids[k],
        ) == (Resolution::Miss { slot: order[k].slot, evicted: Some(order[k].block) }) by {
            if k < m {
                assert(before.take(k) =~= ids.take(k));
                assert(before[k] == ids[k]);
            } else {
                assert(ids.take(k) =~= before);
            }
        }
    } else {
        assert(fresh =~= hotter(order, 0) + newcomers(order, ids));
        assert(fresh =~= newcomers(order, ids).reverse() + hotter(order, 0));
    }
}

/// One more block of such a batch.
proof fn lemma_sweep_step(order: Seq<Entry>, n_slots: nat, ids: Seq<BlockId>, cold: bool)
    requires
        sweeps(order, n_slots, ids),
        0 < n_slots <= u32::MAX,
        ids.len() > 0,
        ({
            let came = newcomers(order, ids.drop_last());
            let stay = hotter(order, ids.len() - 1);
            let mid = if cold {
                came.reverse() + stay
            } else {
                stay + came
            };
            &&& order_wf(mid, n_slots)
            &&& order_after_all(untouched(order), n_slots, ids.drop_last(), cold) == mid
        }),
    ensures
        ({
            let m = ids.len() - 1;
            let mid = order_after_all(untouched(order), n_slots, ids.drop_last(), cold);
            let came = newcomers(order, ids);
            let stay = hotter(order, ids.len() as int);
            &&& resolution(mid, n_slots, ids[m]) == (Resolution::Miss {
                slot: order[m].slot,
                evicted: Some(order[m].block),
            })
            &&& order_after(mid, n_slots, ids[m], cold) == if cold {
                came.reverse() + stay
            } else {
                stay + came
            }
        }),
{
    let m = ids.len() - 1;
    let id = ids[m];
    let before = ids.drop_last();
    let mid = order_after_all(untouched(order), n_slots, before, cold);
    let came = newcomers(order, before);
    let stay = hotter(order, m);
    let v: int = if cold {
        m
    } else {
        0
    };
    assert forall|k: int| 0 <= k < came.len() implies (#[trigger] came[k]).block != id by {
        assert(ids[k] != ids[m]);
    }
    assert forall|i: int| 0 <= i < stay.len() implies (#[trigger] stay[i]).block != id by {
        assert(order[i + m].block != ids[m]);
    }
    assert forall|i: int| 0 <= i < mid.len() implies (#[trigger] mid[i]).block != id by {
        if cold {
            if i < m {
                assert(mid[i] == came[m - 1 - i]);
            } else {
                assert(mid[i] == stay[i - m]);
            }
        } else if i < stay.len() {
            assert(mid[i] == stay[i]);
        } else {
            assert(mid[i] == came[i - stay.len()]);
        }
    }
    assert(mid[v] == stay[0]);
    assert forall|i: int| 0 <= i < v implies (#[trigger] mid[i]).touched by {
        assert(mid[i] == came[m - 1 - i]);
    }
    law_coldest_untouched_leaves(mid, n_slots, id, cold, v);
    let more = newcomers(order, ids);
    let less = hotter(order, m + 1);
    let one = seq![Entry { block: id, slot: order[m].slot, touched: true }];
    assert(more =~= came + one);
    assert(stay.skip(1) =~= less);
    if cold {
        assert(mid.take(v) =~= came.reverse());
        assert(mid.skip(v + 1) =~= less);
        assert(one + (came.reverse() + less) =~= more.reverse() + less);
    } else {
        assert(mid.take(0) + mid.skip(1) =~= less + came);
        assert((less + came) + one =~= less + more);
    }
}

/// Touches one after the other keep the entries well formed.
proof fn lemma_order_after_all_wf(order: Seq<Entry>, n_slots: nat, ids: Seq<BlockId>, cold: bool)
    requires
        order_wf(order, n_slots),
        0 < n_slots <= u32::MAX,
    ensures
        order_wf(order_after_all(order, n_slots, ids, cold), n_slots),
    decreases ids.len(),
{
    if ids.len() > 0 {
        lemma_order_after_all_wf(order, n_slots, ids.drop_last(), cold);
        lemma_order_after_wf(
            order_after_all(order, n_slots, ids.drop_last(), cold),
            n_slots,
            ids.last(),
            cold,
        );
    }
}

/// Each touch counts once, as a hit or as a miss, and as an eviction too where a block left. A counter at
/// its largest value stays there.
pub proof fn law_counters(s: PagerStats, slot: u32, block: BlockId)
    ensures
        ({
            let hit = stats_after(s, Resolution::Hit { slot });
            let free = stats_after(s, Resolution::Miss { slot, evicted: None });
            let full = stats_after(s, Resolution::Miss { slot, evicted: Some(block) });
            &&& hit.misses == s.misses && hit.evictions == s.evictions
            &&& free.hits == s.hits && free.evictions == s.evictions
            &&& full.hits == s.hits && full.misses == free.misses
            &&& if s.hits < u64::MAX {
                hit.hits == s.hits + 1
            } else {
                hit.hits == s.hits
            }
            &&& if s.misses < u64::MAX {
                free.misses == s.misses + 1
            } else {
                free.misses == s.misses
            }
            &&& if s.evictions < u64::MAX {
                full.evictions == s.evictions + 1
            } else {
                full.evictions == s.evictions
            }
        }),
{
}

/// Fixed-size residency table. Its view is the entries from cold to hot.
pub struct Pager {
    n_slots: usize,
    order: Vec<Entry>,
    stats: PagerStats,
}

impl View for Pager {
    type V = Seq<Entry>;

    closed spec fn view(&self) -> Seq<Entry> {
        self.order@
    }
}

impl Pager {
    pub closed spec fn capacity(&self) -> nat {
        self.n_slots as nat
    }

    pub closed spec fn counters(&self) -> PagerStats {
        self.stats
    }

    pub open spec fn wf(&self) -> bool {
        &&& 0 < self.capacity() <= u32::MAX
        &&& order_wf(self@, self.capacity())
    }

    /// A pager with `n_slots` empty slots. A batch that names more than `n_slots` different blocks
    /// cannot keep all of them.
    pub fn new(n_slots: usize) -> (r: Self)
        requires
            0 < n_slots <= u32::MAX,
        ensures
            r.wf(),
            r@ == Seq::<Entry>::empty(),
            r.capacity() == n_slots,
            r.counters() == (PagerStats { hits: 0, misses: 0, evictions: 0 }),
    {
        Pager { n_slots, order: Vec::new(), stats: PagerStats::default() }
    }

    pub fn n_slots(&self) -> (r: usize)
        ensures
            r == self.capacity(),
    {
        self.n_slots
    }

    pub fn stats(&self) -> (r: PagerStats)
        ensures
            r == self.counters(),
    {
        self.stats
    }

    /// The slot that holds `id`, without counting as a touch.
    pub fn slot_of(&self, id: BlockId) -> (r: Option<u32>)
        ensures
            r == slot_of_block(self@, id),
            r is Some <==> resident(self@, id),
    {
        let i = self.find(id);
        proof {
            lemma_position(self@, id);
        }
        if i < self.order.len() {
            Some(self.order[i].slot)
        } else {
            None
        }
    }

    /// Opens a batch: nothing counts as touched any more.
    pub fn begin_batch(&mut self)
        requires
            old(self).wf(),
        ensures
            final(self).wf(),
            final(self)@ == untouched(old(self)@),
            final(self).capacity() == old(self).capacity(),
            final(self).counters() == old(self).counters(),
    {
        let n = self.order.len();
        let mut i: usize = 0;
        while i < n
            invariant
                i <= n,
                n == self.order.len(),
                self.order.len() == old(self)@.len(),
                self.n_slots == old(self).n_slots,
                self.stats == old(self).stats,
                forall|j: int| 0 <= j < i ==> #[trigger] self.order[j] == untouched(old(self)@)[j],
                forall|j: int| i <= j < n ==> #[trigger] self.order[j] == old(self)@[j],
            decreases n - i,
        {
            let e = self.order[i];
            self.order.set(i, Entry { block: e.block, slot: e.slot, touched: false });
            i += 1;
        }
        assert(self@ =~= untouched(old(self)@));
        proof {
            lemma_untouched_wf(old(self)@, old(self).capacity());
        }
    }

    /// Touches `id` with the plain policy: it becomes the hottest block.
    pub fn touch(&mut self, id: BlockId) -> (r: Resolution)
        requires
            old(self).wf(),
        ensures
            final(self).wf(),
            r == resolution(old(self)@, old(self).capacity(), id),
            final(self)@ == order_after(old(self)@, old(self).capacity(), id, false),
            final(self).capacity() == old(self).capacity(),
            final(self).counters() == stats_after(old(self).counters(), r),
    {
        self.resolve(id, false)
    }

    /// Touches `id` as part of a sweep: a resident block becomes the hottest one, a missing block
    /// comes in at the cold end.
    pub fn touch_cold(&mut self, id: BlockId) -> (r: Resolution)
        requires
            old(self).wf(),
        ensures
            final(self).wf(),
            r == resolution(old(self)@, old(self).capacity(), id),
            final(self)@ == order_after(old(self)@, old(self).capacity(), id, true),
            final(self).capacity() == old(self).capacity(),
            final(self).counters() == stats_after(old(self).counters(), r),
    {
        self.resolve(id, true)
    }

    fn resolve(&mut self, id: BlockId, cold: bool) -> (r: Resolution)
        requires
            old(self).wf(),
        ensures
            final(self).wf(),
            r == resolution(old(self)@, old(self).capacity(), id),
            final(self)@ == order_after(old(self)@, old(self).capacity(), id, cold),
            final(self).capacity() == old(self).capacity(),
            final(self).counters() == stats_after(old(self).counters(), r),
    {
        let p = self.find(id);
        proof {
            lemma_order_after_wf(self@, self.capacity(), id, cold);
        }
        if p < self.order.len() {
            let e = self.order.remove(p);
            self.order.push(Entry { block: id, slot: e.slot, touched: true });
            self.stats.hits = self.stats.hits.saturating_add(1);
            return Resolution::Hit { slot: e.slot };
        }
        self.stats.misses = self.stats.misses.saturating_add(1);
        let mut evicted: Option<BlockId> = None;
        let slot: u32;
        if self.order.len() < self.n_slots {
            slot = self.order.len() as u32;
        } else {
            let v = self.find_victim();
            proof {
                lemma_victim(self@);
            }
            let e = self.order.remove(v);
            slot = e.slot;
            evicted = Some(e.block);
            self.stats.evictions = self.stats.evictions.saturating_add(1);
        }
        let e = Entry { block: id, slot, touched: true };
        if cold {
            self.order.insert(0, e);
        } else {
            self.order.push(e);
        }
        Resolution::Miss { slot, evicted }
    }

    fn find(&self, id: BlockId) -> (i: usize)
        ensures
            i == position(self@, id),
            i <= self.order.len(),
    {
        let mut i: usize = 0;
        while i < self.order.len() && self.order[i].block != id
            invariant
                i <= self.order.len(),
                forall|j: int| 0 <= j < i ==> (#[trigger] self.order[j]).block != id,
            decreases self.order.len() - i,
        {
            i += 1;
        }
        proof {
            lemma_first_where(self@, |e: Entry| e.block == id, i as int);
        }
        i
    }

    fn find_victim(&self) -> (v: usize)
        requires
            self@.len() > 0,
        ensures
            v == victim(self@),
            v < self.order.len(),
    {
        let mut i: usize = 0;
        while i < self.order.len() && self.order[i].touched
            invariant
                i <= self.order.len(),
                forall|j: int| 0 <= j < i ==> (#[trigger] self.order[j]).touched,
            decreases self.order.len() - i,
        {
            i += 1;
        }
        proof {
            lemma_first_where(self@, |e: Entry| !e.touched, i as int);
        }
        if i < self.order.len() {
            i
        } else {
            0
        }
    }
}

} // verus!
