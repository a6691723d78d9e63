use infr::gpu_pager::{
    copy_chunks, max_arena_bytes, CopyChunk, GpuPager, PagerError, Placement, SlotCopy,
};
use infr::pager::NOT_RESIDENT;

fn pager(n_blocks: usize, n_slots: usize, slot_bytes: usize) -> GpuPager<&'static str> {
    let plan = GpuPager::<&'static str>::plan(1 << 32, n_blocks, n_slots, slot_bytes).unwrap();
    GpuPager::new(plan, "arena", "lut")
}

#[test]
fn plan_sizes_and_the_cap() {
    let p = GpuPager::<u8>::plan(1 << 20, 6, 3, 64).unwrap();
    assert_eq!((p.arena_bytes, p.lut_bytes), (192, 24));
    let p = GpuPager::<u8>::plan(1 << 20, 0, 3, 64).unwrap();
    assert_eq!(p.lut_bytes, 4);
    assert_eq!(
        GpuPager::<u8>::plan(191, 6, 3, 64),
        Err(PagerError::ArenaTooLarge { n_slots: 3, slot_bytes: 64, cap: 191 })
    );
    assert!(GpuPager::<u8>::plan(192, 6, 3, 64).is_ok());
}

#[test]
fn arena_cap_is_the_word_reach_or_the_device() {
    assert_eq!(max_arena_bytes(u64::MAX), u32::MAX as u64 * 4);
    assert_eq!(max_arena_bytes(4096), 4096);
}

#[test]
fn table_speaks_word_offsets() {
    let mut p = pager(4, 2, 64);
    assert_eq!(p.lut_words(0, 4), vec![NOT_RESIDENT; 4]);
    assert_eq!(
        p.touch_staged(true, 100, 7, 3, false),
        Ok(Some(SlotCopy { src_off: 7, ring_off: 100, arena_off: 0, len: 64 }))
    );
    assert_eq!(
        p.touch_staged(true, 200, 9, 1, false),
        Ok(Some(SlotCopy { src_off: 9, ring_off: 200, arena_off: 64, len: 64 }))
    );
    assert_eq!(p.touch_staged(true, 300, 9, 1, false), Ok(None));
    assert_eq!(p.lut_words(0, 4), vec![NOT_RESIDENT, 16, NOT_RESIDENT, 0]);
    p.begin_batch();
    // Block 3 is the coldest: its entry is cleared and its slot taken.
    assert!(matches!(p.touch_staged(true, 0, 0, 2, false), Ok(Some(_))));
    assert_eq!(p.lut_words(0, 4), vec![NOT_RESIDENT, 16, 0, NOT_RESIDENT]);
    assert_eq!((p.n_slots(), p.slot_bytes()), (2, 64));
    assert_eq!((*p.arena_buffer(), *p.lut_buffer()), ("arena", "lut"));
    assert!(p.is_resident(2) && !p.is_resident(3));
}

#[test]
fn a_miss_needs_a_mapped_ring() {
    let mut p = pager(4, 2, 64);
    assert_eq!(p.touch_staged(false, 0, 0, 1, false), Err(PagerError::RingNotMapped));
    assert_eq!(p.lut_words(0, 4), vec![NOT_RESIDENT; 4]);
    assert_eq!(p.stats().misses, 1);
    // The block owns its slot now, so the next touch is a hit.
    assert_eq!(p.touch_staged(false, 0, 0, 1, false), Ok(None));
}

#[test]
fn ensure_then_place_then_flush() {
    let mut p = pager(2, 1, 8);
    assert_eq!(p.flush_lut(), None);
    let step = p.ensure_resident(1);
    assert_eq!(step, Placement::Upload { slot: 0, evicted: None, arena_off: 0 });
    assert_eq!(p.flush_lut(), None);
    p.placed(1, 0, None);
    let mut want = Vec::new();
    want.extend_from_slice(&u32::MAX.to_ne_bytes());
    want.extend_from_slice(&0u32.to_ne_bytes());
    assert_eq!(p.flush_lut(), Some(want.clone()));
    assert_eq!(p.lut_image(), want);
    p.lut_flushed();
    assert_eq!(p.flush_lut(), None);
    assert_eq!(p.ensure_resident(1), Placement::Resident { slot: 0 });
}

#[test]
fn table_image_is_the_words_in_machine_order() {
    let mut p = pager(3, 3, 0x1_0000 * 4);
    for id in [2, 0, 1] {
        assert!(matches!(p.touch_staged(true, 0, 0, id, false), Ok(Some(_))));
    }
    let words = p.lut_words(0, 3);
    assert_eq!(words, vec![0x1_0000, 0x2_0000, 0]);
    let mut want = Vec::new();
    for w in words {
        want.extend_from_slice(&w.to_ne_bytes());
    }
    assert_eq!(p.lut_image(), want);
}

#[test]
fn blocks_beyond_the_table_are_placed_without_an_entry() {
    let mut p = pager(1, 1, 4);
    assert!(matches!(p.touch_staged(true, 0, 0, 9, false), Ok(Some(_))));
    assert!(p.is_resident(9));
    assert_eq!(p.lut_words(0, 1), vec![NOT_RESIDENT]);
}

#[test]
fn chunks_cover_a_copy_once() {
    const C: usize = 4 << 20;
    assert_eq!(copy_chunks(0), vec![CopyChunk { off: 0, len: 0 }]);
    assert_eq!(copy_chunks(C), vec![CopyChunk { off: 0, len: C }]);
    assert_eq!(
        copy_chunks(2 * C + 5),
        vec![
            CopyChunk { off: 0, len: C },
            CopyChunk { off: C, len: C },
            CopyChunk { off: 2 * C, len: 5 },
        ]
    );
    assert_eq!(copy_chunks(2 * C).len(), 2);
}

#[test]
fn an_arena_beyond_reach_is_refused_however_many_slots() {
    let cap = 0x3_ffff_fffc;
    let n_slots = 1usize << 32;
    assert_eq!(
        GpuPager::<u8>::plan(u64::MAX, usize::MAX, n_slots, 4),
        Err(PagerError::ArenaTooLarge { n_slots, slot_bytes: 4, cap })
    );
    assert!(GpuPager::<u8>::plan(u64::MAX, 1, n_slots - 1, 4).is_ok());
}
