use infr::pager::{Pager, PagerStats, Resolution};

fn hit(slot: u32) -> Resolution {
    Resolution::Hit { slot }
}

fn miss(slot: u32, evicted: Option<u32>) -> Resolution {
    Resolution::Miss { slot, evicted }
}

#[test]
fn slots_fill_in_order_then_the_coldest_leaves() {
    let mut p = Pager::new(2);
    assert_eq!(p.touch(10), miss(0, None));
    assert_eq!(p.touch(11), miss(1, None));
    assert_eq!(p.touch(10), hit(0));
    p.begin_batch();
    assert_eq!(p.touch(12), miss(1, Some(11)));
    assert_eq!(p.slot_of(11), None);
    assert_eq!(p.slot_of(12), Some(1));
    assert_eq!(p.slot_of(10), Some(0));
    assert_eq!(p.stats(), PagerStats { hits: 1, misses: 3, evictions: 1 });
    assert_eq!(p.n_slots(), 2);
}

#[test]
fn a_batch_keeps_what_it_touched() {
    let mut p = Pager::new(3);
    for id in [1, 2, 3] {
        p.touch(id);
    }
    p.begin_batch();
    // Block 1 is the coldest, but the batch touches it first.
    assert_eq!(p.touch_cold(1), hit(0));
    assert_eq!(p.touch_cold(4), miss(1, Some(2)));
    assert_eq!(p.touch_cold(5), miss(2, Some(3)));
    for id in [1, 4, 5] {
        assert!(p.slot_of(id).is_some());
    }
}

#[test]
fn a_sweep_does_not_push_out_the_hot_blocks() {
    let mut p = Pager::new(4);
    for id in [1, 2, 3, 4] {
        p.touch(id);
    }
    // Each block of a sweep goes in at the cold end and is the next to leave.
    for id in 100..110 {
        p.begin_batch();
        p.touch_cold(id);
    }
    for id in [2, 3, 4] {
        assert!(p.slot_of(id).is_some(), "block {id} left");
    }
    assert_eq!(p.slot_of(1), None);
}

#[test]
fn an_oversized_batch_evicts_its_own() {
    let mut p = Pager::new(1);
    p.begin_batch();
    assert_eq!(p.touch(1), miss(0, None));
    assert_eq!(p.touch(2), miss(0, Some(1)));
}
