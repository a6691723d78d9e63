use infr::gpu_pager::{GpuPager, PagerError, SlotCopy};
use infr::moe::{
    ring_bytes_policy, ExpertSource, MoePagerLayout, MoePagerSession, MoePoolSpec, Role, RoleStep,
};
use infr::pager::{PagerStats, NOT_RESIDENT};

type Session = MoePagerSession<String, &'static str>;

fn layout(ring_bytes: usize) -> MoePagerLayout {
    MoePagerLayout {
        n_blocks: 8,
        pools: vec![
            MoePoolSpec { role: Role::Gate, slot_bytes: 16, n_slots: 3 },
            MoePoolSpec { role: Role::Down, slot_bytes: 32, n_slots: 2 },
            MoePoolSpec { role: Role::Down, slot_bytes: 16, n_slots: 2 },
        ],
        ring_bytes,
    }
}

fn session(ring_bytes: usize, print_stats: bool) -> Session {
    let layout = layout(ring_bytes);
    let plan = layout.plan(None);
    let mut pagers = Vec::new();
    for (i, spec) in layout.pools.iter().enumerate() {
        let p = GpuPager::<String>::plan(1 << 30, layout.n_blocks, spec.n_slots, spec.slot_bytes)
            .unwrap();
        pagers.push(GpuPager::new(p, format!("arena{i}"), format!("lut{i}")));
    }
    MoePagerSession::new(
        &layout,
        plan,
        pagers,
        "staging".to_string(),
        "ring".to_string(),
        "tape".to_string(),
        print_stats,
    )
}

fn source(bank_bytes: usize, stride_bytes: usize, layer_base: u32) -> ExpertSource<&'static str> {
    ExpertSource { bytes: "bank", bank_bytes, stride_bytes, layer_base }
}

#[test]
fn ring_policy_values() {
    const MIB: u64 = 1024 * 1024;
    assert_eq!(ring_bytes_policy(0, None) as u64, 256 * MIB);
    assert_eq!(ring_bytes_policy(8 * 1024 * MIB, None) as u64, 1024 * MIB);
    assert_eq!(ring_bytes_policy(u64::MAX, None) as u64, 2048 * MIB);
    assert_eq!(ring_bytes_policy(0, Some(5)), 5);
    assert_eq!(ring_bytes_policy(0, Some(0)) as u64, 256 * MIB);
}

#[test]
fn session_sizes() {
    let p = layout(100).plan(None);
    assert_eq!((p.staging_bytes, p.ring_half_bytes, p.ring_bytes), (32, 50, 100));
    assert_eq!(p.tape_bytes, 256 * 1024);
    // A half always holds the largest slot.
    let p = layout(10).plan(None);
    assert_eq!((p.ring_half_bytes, p.ring_bytes), (32, 64));
    let p = layout(0).plan(None);
    assert_eq!(p.ring_half_bytes, 128 << 20);
    let p = layout(0).plan(Some(70));
    assert_eq!(p.ring_half_bytes, 35);
    let none = MoePagerLayout { n_blocks: 1, pools: vec![], ring_bytes: 2 }.plan(None);
    assert_eq!((none.staging_bytes, none.ring_half_bytes), (4, 4));
}

#[test]
fn banks_go_to_the_pool_of_their_role_and_size() {
    let mut s = session(100, false);
    assert_eq!(s.register(Role::Down, 7, source(64, 16, 0)), Ok(()));
    assert_eq!(s.register(Role::Down, 8, source(64, 32, 0)), Ok(()));
    assert_eq!(s.arena(7), "arena2");
    assert_eq!(s.lut(7), "lut2");
    assert_eq!(s.arena(8), "arena1");
    assert_eq!(
        s.register(Role::Up, 9, source(64, 16, 0)),
        Err(PagerError::NoPool { role: Role::Up, stride_bytes: 16 })
    );
    assert!(s.is_paged(Role::Down, 7));
    assert!(!s.is_paged(Role::Gate, 7));
    assert!(!s.is_paged(Role::Up, 9));
    assert!(s.source(9).is_none());
    assert_eq!(s.source(7).unwrap().bytes, "bank");
    assert_eq!((s.ring().as_str(), s.tape().as_str()), ("ring", "tape"));
    assert_eq!((s.staging().as_str(), s.ring_half_bytes()), ("staging", 50));
}

#[test]
fn staging_stops_where_the_half_is_full() {
    let mut s = session(80, false);
    s.register(Role::Gate, 1, source(64, 16, 4)).unwrap();
    s.begin_batch(1);
    let mut cursor = 0;
    let mut copies = Vec::new();
    // A half of 40 bytes holds two blocks of 16.
    assert_eq!(s.stage_role(true, 1000, &mut cursor, 1, &[2, 0, 3], false, &mut copies), Ok(2));
    assert_eq!(cursor, 32);
    assert_eq!(
        copies,
        vec![
            SlotCopy { src_off: 32, ring_off: 1000, arena_off: 0, len: 16 },
            SlotCopy { src_off: 0, ring_off: 1016, arena_off: 16, len: 16 },
        ]
    );
    // The other half takes the rest; what is resident needs no room.
    cursor = 0;
    copies.clear();
    assert_eq!(s.stage_role(true, 1040, &mut cursor, 1, &[3, 2], false, &mut copies), Ok(2));
    assert_eq!(copies, vec![SlotCopy { src_off: 48, ring_off: 1040, arena_off: 32, len: 16 }]);

    let mut tape = 5;
    let w = s.lut_window(true, &mut tape, 1, 4).unwrap();
    assert_eq!((w.offset, tape), (5, 9));
    assert_eq!(w.words, vec![4, NOT_RESIDENT, 0, 8]);
}

#[test]
fn staging_errors() {
    let mut s = session(80, false);
    let mut cursor = 0;
    let mut copies = Vec::new();
    assert_eq!(
        s.stage_role(true, 0, &mut cursor, 1, &[0], false, &mut copies),
        Err(PagerError::Unregistered)
    );
    s.register(Role::Gate, 1, source(64, 16, 0)).unwrap();
    assert_eq!(
        s.stage_role(true, 0, &mut cursor, 1, &[0, 4], false, &mut copies),
        Err(PagerError::ExpertOutOfRange)
    );
    assert_eq!((cursor, copies.len()), (16, 1));
    assert_eq!(
        s.stage_role(false, 0, &mut cursor, 1, &[1], false, &mut copies),
        Err(PagerError::RingNotMapped)
    );
    assert_eq!(copies.len(), 1);
}

#[test]
fn window_errors_leave_the_cursor() {
    let mut s = session(80, false);
    let mut tape = 65533;
    assert_eq!(s.lut_window(true, &mut tape, 1, 4).unwrap_err(), PagerError::Unregistered);
    s.register(Role::Gate, 1, source(64, 16, 0)).unwrap();
    assert_eq!(
        s.lut_window(true, &mut tape, 1, 4).unwrap_err(),
        PagerError::TapeOverflow { cursor: 65533, n_expert: 4, tape_words: 65536 }
    );
    assert_eq!(s.lut_window(false, &mut tape, 1, 3).unwrap_err(), PagerError::TapeNotMapped);
    assert_eq!(tape, 65533);
    assert_eq!(s.lut_window(true, &mut tape, 1, 3).unwrap().offset, 65533);
    assert_eq!(tape, 65536);
}

#[test]
fn touch_role_runs_to_the_flush() {
    let mut s = session(80, false);
    s.register(Role::Gate, 1, source(64, 16, 4)).unwrap();
    let mut global = Vec::new();
    let mut uploads = Vec::new();
    let image = loop {
        match s.touch_role(Role::Gate, 1, &[3, 1, 3], &mut global).unwrap() {
            RoleStep::Upload { id, slot, evicted, src_off, arena_off, len } => {
                uploads.push((id, src_off, arena_off, len));
                s.touch_placed(1, id, slot, evicted, &mut global);
            }
            RoleStep::Flush { image } => break image,
        }
    };
    assert_eq!(uploads, vec![(7, 48, 0, 16), (5, 16, 16, 16)]);
    assert_eq!(global, vec![7, 5, 7]);
    let mut want = Vec::new();
    for w in [u32::MAX, u32::MAX, u32::MAX, u32::MAX, u32::MAX, 4, u32::MAX, 0] {
        want.extend_from_slice(&w.to_ne_bytes());
    }
    assert_eq!(image, Some(want));
    s.touch_flushed(1);
    // All are resident and nothing changed: nothing to send.
    let mut again = Vec::new();
    assert!(matches!(
        s.touch_role(Role::Gate, 1, &[1, 3], &mut again),
        Ok(RoleStep::Flush { image: None })
    ));
    assert_eq!(again, vec![5, 7]);
}

#[test]
fn touch_role_errors() {
    let mut s = session(80, false);
    let mut global = Vec::new();
    assert!(matches!(
        s.touch_role(Role::Gate, 1, &[0], &mut global),
        Err(PagerError::Unregistered)
    ));
    s.register(Role::Gate, 1, source(64, 16, 0)).unwrap();
    assert!(matches!(
        s.touch_role(Role::Gate, 1, &[4], &mut global),
        Err(PagerError::ExpertOutOfRange)
    ));
    assert!(global.is_empty());
}

#[test]
fn resident_layers_need_no_upload() {
    let mut s = session(200, false);
    s.register(Role::Gate, 1, source(48, 16, 2)).unwrap();
    assert!(!s.all_resident(1, 3));
    assert!(!s.all_resident(99, 3));
    let mut cursor = 0;
    let mut copies = Vec::new();
    assert_eq!(s.stage_role(true, 0, &mut cursor, 1, &[0, 1, 2], true, &mut copies), Ok(3));
    assert!(s.all_resident(1, 3));
    let mut tape = 0;
    let before = s.lut_window(true, &mut tape, 1, 3).unwrap().words;
    s.touch_all_hits(1, 3);
    assert_eq!(s.lut_window(true, &mut tape, 1, 3).unwrap().words, before);
    assert_eq!(s.stats(Role::Gate), PagerStats { hits: 3, misses: 3, evictions: 0 });
}

#[test]
fn counters_add_up_over_a_role() {
    let mut s = session(200, true);
    s.register(Role::Down, 1, source(64, 32, 0)).unwrap();
    s.register(Role::Down, 2, source(64, 16, 4)).unwrap();
    let mut cursor = 0;
    let mut copies = Vec::new();
    s.stage_role(true, 0, &mut cursor, 1, &[0, 1], false, &mut copies).unwrap();
    s.stage_role(true, 0, &mut cursor, 2, &[0, 0], false, &mut copies).unwrap();
    assert_eq!(s.stats(Role::Down), PagerStats { hits: 1, misses: 3, evictions: 0 });
    assert_eq!(s.stats(Role::Gate), PagerStats { hits: 0, misses: 0, evictions: 0 });
    let report = s.stats_report();
    assert_eq!(report.len(), 3);
    assert_eq!((report[1].role, report[1].slot_bytes, report[1].n_slots), (Role::Down, 32, 2));
    assert_eq!(report[1].stats.misses, 2);
    assert!(session(200, false).stats_report().is_empty());
}

#[test]
fn role_names() {
    assert_eq!([Role::Gate.name(), Role::Up.name(), Role::Down.name()], ["gate", "up", "down"]);
}

#[test]
fn an_arena_is_shared_by_role_and_size_together() {
    let mut s = session(100, false);
    s.register(Role::Gate, 1, source(64, 16, 0)).unwrap();
    s.register(Role::Gate, 2, source(64, 16, 4)).unwrap();
    s.register(Role::Down, 3, source(64, 16, 0)).unwrap();
    s.register(Role::Down, 4, source(64, 32, 0)).unwrap();
    assert_eq!(s.arena(1), s.arena(2));
    // The same size in another role, and the same role with another size.
    assert_ne!(s.arena(1), s.arena(3));
    assert_ne!(s.arena(3), s.arena(4));
}
