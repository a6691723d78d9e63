use infr::pcache::{
    cache_base, cache_file_name, fnv1a, magic, next_save_step, temp_file_name, CacheBase, Loaded,
    PcachePersist, SaveStep, HEADER_LEN,
};

const FINGERPRINT: u64 = 0x1234_5678_9abc_def0;

const UUID: [u8; 16] = [9u8; 16];

fn persist() -> PcachePersist {
    PcachePersist { fingerprint: FINGERPRINT, driver_version: 7, cache_uuid: UUID }
}

fn envelope(fp: u64, drv: u32, uuid: [u8; 16], sum: u64, body: &[u8]) -> Vec<u8> {
    let mut out = Vec::new();
    out.extend_from_slice(&magic());
    out.extend_from_slice(&fp.to_le_bytes());
    out.extend_from_slice(&drv.to_le_bytes());
    out.extend_from_slice(&uuid);
    out.extend_from_slice(&(body.len() as u64).to_le_bytes());
    out.extend_from_slice(&sum.to_le_bytes());
    out.extend_from_slice(body);
    out
}

#[test]
fn envelope_rejects_damage() {
    let p = persist();
    let payload: Vec<u8> = (0u8..=255).cycle().take(4096).collect();
    let good = envelope(FINGERPRINT, 7, UUID, fnv1a(&payload), &payload);
    assert_eq!(p.load(&good), Loaded::Payload(payload.clone()), "good blob loads");

    let mut rot = good.clone();
    rot[HEADER_LEN + 100] ^= 0x01;
    // A damaged file is the one answer on which the file is removed.
    assert_eq!(p.load(&rot), Loaded::Damaged, "bit-rotted payload must be rejected");

    assert_eq!(
        p.load(&good[..good.len() - 64]),
        Loaded::Stale,
        "truncated blob must be rejected"
    );
    assert_eq!(
        p.load(&envelope(FINGERPRINT ^ 1, 7, UUID, fnv1a(&payload), &payload)),
        Loaded::Stale,
        "stale shader set must be rejected"
    );
    assert_eq!(
        p.load(&envelope(FINGERPRINT, 8, UUID, fnv1a(&payload), &payload)),
        Loaded::Stale,
        "driver-version flip must be rejected"
    );
    assert_eq!(
        p.load(&envelope(FINGERPRINT, 7, [1u8; 16], fnv1a(&payload), &payload)),
        Loaded::Stale,
        "foreign pipelineCacheUUID must be rejected"
    );
    let mut v1 = good.clone();
    v1[..8].copy_from_slice(b"INFRVPC1");
    assert_eq!(p.load(&v1), Loaded::Stale, "old envelope version must be rejected");
}

#[test]
fn encode_writes_the_envelope() {
    let payload = b"pipelines".to_vec();
    let got = persist().encode(&payload);
    assert_eq!(got, envelope(FINGERPRINT, 7, UUID, fnv1a(&payload), &payload));
    assert_eq!(got.len(), HEADER_LEN + 9);
    assert_eq!(persist().load(&got), Loaded::Payload(payload));
    assert_eq!(persist().load(&persist().encode(&[])), Loaded::Payload(Vec::new()));
}

#[test]
fn every_cut_and_every_flip_is_rejected() {
    let payload: Vec<u8> = (0u8..40).collect();
    let good = persist().encode(&payload);
    for n in 0..good.len() {
        assert_eq!(persist().load(&good[..n]), Loaded::Stale, "cut at {n}");
    }
    for i in 0..payload.len() {
        for bit in 0..8 {
            let mut bad = good.clone();
            bad[HEADER_LEN + i] ^= 1 << bit;
            assert_eq!(persist().load(&bad), Loaded::Damaged, "byte {i} bit {bit}");
        }
    }
}

#[test]
fn absurd_lengths_are_stale() {
    let mut bad = persist().encode(b"abc");
    for b in &mut bad[36..44] {
        *b = 0xff;
    }
    assert_eq!(persist().load(&bad), Loaded::Stale);
}

#[test]
fn checksum_values() {
    assert_eq!(fnv1a(&[]), 0xcbf2_9ce4_8422_2325);
    let one: u64 = (0xcbf2_9ce4_8422_2325u64 ^ 0x61).wrapping_mul(0x100_0000_01b3);
    assert_eq!(fnv1a(b"a"), one);
    assert_eq!(fnv1a(b"a"), 0xaf63_dc4c_8601_ec8c);
    assert_eq!(fnv1a(b"foobar"), 0x8594_4171_f739_67e8);
    assert_eq!(fnv1a(b"ab"), (one ^ 0x62).wrapping_mul(0x100_0000_01b3));
}

#[test]
fn empty_or_missing_blobs_are_not_saved() {
    let p = persist();
    assert_eq!(p.save(false, Some(b"x")), None);
    assert_eq!(p.save(true, None), None);
    assert_eq!(p.save(true, Some(&[])), None);
    assert_eq!(p.save(true, Some(b"x")), Some(p.encode(b"x")));
}

#[test]
fn saves_are_a_second_apart() {
    assert!(!persist().maybe_save(0));
    assert!(persist().maybe_save(1));
    assert!(persist().maybe_save(600));
}

#[test]
fn one_file_per_device() {
    assert_eq!(
        cache_file_name(0x1002, 0x744c),
        "vk-pipeline-cache-00001002-0000744c.bin"
    );
    assert_eq!(
        cache_file_name(0xdead_beef, 0),
        "vk-pipeline-cache-deadbeef-00000000.bin"
    );
}

#[test]
fn cache_directory_choice() {
    assert_eq!(cache_base(true, true, true), CacheBase::Nowhere);
    assert_eq!(cache_base(false, true, true), CacheBase::Xdg);
    assert_eq!(cache_base(false, false, true), CacheBase::HomeCache);
    assert_eq!(cache_base(false, false, false), CacheBase::Nowhere);
}

#[test]
fn temp_files_are_per_process() {
    assert_eq!(
        temp_file_name(0x1002, 0x744c, 4711),
        "vk-pipeline-cache-00001002-0000744c.tmp.4711"
    );
}

#[test]
fn a_save_is_atomic_or_cleaned_up() {
    let run = |wrote: bool, renamed: bool| {
        let second = next_save_step(SaveStep::WriteTemp, wrote);
        let third = next_save_step(second, renamed);
        [second, third, next_save_step(third, true)]
    };
    assert_eq!(run(true, true), [SaveStep::Rename, SaveStep::SyncDir, SaveStep::Done]);
    assert_eq!(run(true, false), [SaveStep::Rename, SaveStep::RemoveTemp, SaveStep::Done]);
    assert_eq!(run(false, true), [SaveStep::RemoveTemp, SaveStep::Done, SaveStep::Done]);
}
