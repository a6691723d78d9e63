//! The file in which a device's compiled pipelines are kept from one launch to the next.
//!
//! What lies in the file is machine code that the driver wrote and gets back, and a driver may do
//! anything with invalid data. So the payload travels in an envelope: a magic number with the
//! envelope's version, the fingerprint of the shader set, the driver's version and cache identity,
//! the payload's length and a checksum of it. A file that does not match in every field is not
//! handed on; it costs one rebuild.
use vstd::prelude::*;

use crate::bytes::{bytes_at, get_le, put_bytes, put_le};
use crate::bytes::{byte_range, law_le_round_trip, le_bytes, le_value};
use crate::text::{push_decimal, push_hex};
use crate::text::{decimal, digits_value, hex, law_decimal, law_decimal_injective, law_hex};

verus! {

/// Length of the envelope before the payload: magic number (8), fingerprint (8), driver version
/// (4), cache identity (16), payload length (8), payload checksum (8).
pub const HEADER_LEN: usize = 52;

/// Seconds that have to pass between two saves while the process runs.
pub const SAVE_DEBOUNCE_SECS: u64 = 1;

/// Offset basis of 64-bit FNV-1a.
pub const FNV_START: u64 = 0xcbf2_9ce4_8422_2325;

/// Prime of 64-bit FNV-1a.
pub const FNV_STEP: u64 = 0x100_0000_01b3;

/// The multiplier's inverse modulo 2 to the power 64.
spec fn fnv_step_inverse() -> int {
    0xce96_5057_aff6_957b
}

/// `INFRVPC2`: the envelope's name and version.
pub open spec fn magic_bytes() -> Seq<u8> {
    seq![0x49u8, 0x4eu8, 0x46u8, 0x52u8, 0x56u8, 0x50u8, 0x43u8, 0x32u8]
}

/// The envelope's magic number.
pub fn magic() -> (r: [u8; 8])
    ensures
        r@ == magic_bytes(),
{
    let r: [u8; 8] = [0x49, 0x4e, 0x46, 0x52, 0x56, 0x50, 0x43, 0x32];
    assert(r@ =~= magic_bytes());
    r
}

/// The checksum after one more byte.
pub open spec fn fnv_step(h: u64, b: u8) -> u64 {
    (((h ^ (b as u64)) * FNV_STEP) % 0x1_0000_0000_0000_0000) as u64
}

/// The checksum of `s`, starting from `h`.
pub open spec fn fnv_from(h: u64, s: Seq<u8>) -> u64
    decreases s.len(),
{
    if s.len() == 0 {
        h
    } else {
        fnv_step(fnv_from(h, s.drop_last()), s.last())
    }
}

/// The checksum of `s`, 64-bit FNV-1a: each byte is folded in with an exclusive or and a multiplication modulo 2
/// to the power 64.
pub open spec fn fnv(s: Seq<u8>) -> u64 {
    fnv_from(FNV_START, s)
}

/// Checksum of `bytes`, 64-bit FNV-1a. It guards against truncated and decayed files, not against an adversary.
pub fn fnv1a(bytes: &[u8]) -> (r: u64)
    ensures
        r == fnv(bytes@),
{
    let mut h: u64 = FNV_START;
    let mut i: usize = 0;
    assert(bytes@.take(0) =~= Seq::empty());
    while i < bytes.len()
        invariant
            i <= bytes@.len(),
            h == fnv(bytes@.take(i as int)),
        decreases bytes.len() - i,
    {
        assert(bytes@.take(i + 1).drop_last() =~= bytes@.take(i as int));
        let mixed: u64 = h ^ (bytes[i] as u64);
        h = mixed.wrapping_mul(FNV_STEP);
        i += 1;
    }
    assert(bytes@.take(i as int) =~= bytes@);
    h
}

/// Multiplying by the checksum's multiplier loses nothing.
proof fn lemma_fnv_mul(x: u64)
    ensures
        (((x * FNV_STEP) % 0x1_0000_0000_0000_0000) * fnv_step_inverse()) % 0x1_0000_0000_0000_0000
            == x,
{
    let m: int = 0x1_0000_0000_0000_0000;
    let p = FNV_STEP as int;
    let q = fnv_step_inverse();
    vstd::arithmetic::div_mod::lemma_mul_mod_noop_left(x * p, q, m);
    assert((x * p) * q == x * (p * q)) by (nonlinear_arith);
    assert(p * q == m * 887285111055int + 1) by (nonlinear_arith)
        requires
            p == 0x100_0000_01b3,
            q == 0xce96_5057_aff6_957bint,
            m == 0x1_0000_0000_0000_0000,
    ;
    assert(x * (m * 887285111055int + 1) == m * (x * 887285111055int) + x) by (nonlinear_arith);
    vstd::arithmetic::div_mod::lemma_mod_multiples_vanish(x * 887285111055int, x as int, m);
    vstd::arithmetic::div_mod::lemma_small_mod(x as nat, m as nat);
}

/// A step of the checksum tells apart two states, and two bytes in one state.
proof fn lemma_fnv_step(h: u64, g: u64, b: u8, c: u8)
    ensures
        h != g ==> fnv_step(h, b) != fnv_step(g, b),
        b != c ==> fnv_step(h, b) != fnv_step(h, c),
{
    let bb = b as u64;
    let cc = c as u64;
    lemma_fnv_mul(h ^ bb);
    lemma_fnv_mul(g ^ bb);
    lemma_fnv_mul(h ^ cc);
    assert((h ^ bb) == (g ^ bb) ==> h == g) by (bit_vector);
    assert((h ^ bb) == (h ^ cc) ==> bb == cc) by (bit_vector);
}

/// A checksum of two pieces is that of the second, started with that of the first.
proof fn lemma_fnv_concat(h: u64, a: Seq<u8>, b: Seq<u8>)
    ensures
        fnv_from(h, a + b) == fnv_from(fnv_from(h, a), b),
    decreases b.len(),
{
    if b.len() == 0 {
        assert(a + b =~= a);
    } else {
        lemma_fnv_concat(h, a, b.drop_last());
        assert((a + b).drop_last() =~= a + b.drop_last());
    }
}

/// Two states stay apart whatever follows.
proof fn lemma_fnv_apart(h: u64, g: u64, s: Seq<u8>)
    requires
        h != g,
    ensures
        fnv_from(h, s) != fnv_from(g, s),
    decreases s.len(),
{
    if s.len() > 0 {
        lemma_fnv_apart(h, g, s.drop_last());
        lemma_fnv_step(
            fnv_from(h, s.drop_last()),
            fnv_from(g, s.drop_last()),
            s.last(),
            s.last(),
        );
    }
}

/// Changing any one byte changes the checksum.
pub proof fn law_checksum_sees_one_byte(s: Seq<u8>, i: int, b: u8)
    requires
        0 <= i < s.len(),
        b != s[i],
    ensures
        fnv(s.update(i, b)) != fnv(s),
{
    let pre = s.take(i);
    let post = s.skip(i + 1);
    let t = s.update(i, b);
    assert(s =~= pre.push(s[i]) + post);
    assert(t =~= pre.push(b) + post);
    assert(pre.push(s[i]).drop_last() =~= pre);
    assert(pre.push(b).drop_last() =~= pre);
    lemma_fnv_concat(FNV_START, pre.push(s[i]), post);
    lemma_fnv_concat(FNV_START, pre.push(b), post);
    let h = fnv(pre);
    lemma_fnv_step(h, h, s[i], b);
    lemma_fnv_apart(fnv_step(h, s[i]), fnv_step(h, b), post);
}

/// The checksum of nothing, and what one more byte does to it: it is mixed into the low bits, and the whole
/// is multiplied, all in 64 bits.
pub proof fn law_checksum_is_fnv1a(s: Seq<u8>, b: u8)
    ensures
        fnv(Seq::empty()) == 0xcbf2_9ce4_8422_2325,
        fnv(s.push(b)) == ((fnv(s) ^ (b as u64)) * 1_099_511_628_211)
            % 18_446_744_073_709_551_616,
{
    assert(s.push(b).drop_last() =~= s);
}

/// What a file has to carry to be of use: the shader set it was built for, and the driver that
/// wrote it.
pub struct PcachePersist {
    pub fingerprint: u64,
    pub driver_version: u32,
    /// The driver's own identity for binaries that it can use; a rebuilt driver may keep its version
    /// and change this.
    pub cache_uuid: [u8; 16],
}

/// What a file is worth.
#[derive(Debug, PartialEq, Eq)]
pub enum Loaded {
    /// The payload, intact.
    Payload(Vec<u8>),
    /// Not for this shader set or driver, of another version, or cut short. The next save replaces
    /// it.
    Stale,
    /// The envelope matches and the payload does not: the file has to be removed.
    Damaged,
}

/// The header of an envelope around a payload of `len` bytes with checksum `sum`.
pub open spec fn header(p: PcachePersist, len: nat, sum: u64) -> Seq<u8> {
    magic_bytes() + le_bytes(p.fingerprint as nat, 8) + le_bytes(p.driver_version as nat, 4)
        + p.cache_uuid@ + le_bytes(len, 8) + le_bytes(sum as nat, 8)
}

/// The envelope around `payload`.
pub open spec fn envelope(p: PcachePersist, payload: Seq<u8>) -> Seq<u8> {
    header(p, payload.len(), fnv(payload)) + payload
}

/// Whether the header of `data` names this shader set and driver, and its length is right.
pub open spec fn header_matches(p: PcachePersist, data: Seq<u8>) -> bool {
    &&& data.len() >= HEADER_LEN
    &&& data.subrange(0, 8) == magic_bytes()
    &&& le_value(data.subrange(8, 16)) == p.fingerprint
    &&& le_value(data.subrange(16, 20)) == p.driver_version
    &&& data.subrange(20, 36) == p.cache_uuid@
    &&& le_value(data.subrange(36, 44)) == data.len() - HEADER_LEN
}

/// The checksum that the header of `data` names.
pub open spec fn header_sum(data: Seq<u8>) -> nat {
    le_value(data.subrange(44, 52))
}

/// What `load` makes of `data`: the payload, where there is one, and whether the file is damaged.
pub open spec fn loaded(p: PcachePersist, data: Seq<u8>) -> (Option<Seq<u8>>, bool) {
    if !header_matches(p, data) {
        (None, false)
    } else if fnv(data.skip(HEADER_LEN as int)) != header_sum(data) {
        (None, true)
    } else {
        (Some(data.skip(HEADER_LEN as int)), false)
    }
}

impl Loaded {
    pub open spec fn model(&self) -> (Option<Seq<u8>>, bool) {
        match self {
            Loaded::Payload(v) => (Some(v@), false),
            Loaded::Stale => (None, false),
            Loaded::Damaged => (None, true),
        }
    }
}

/// A verdict and what it stands for: only a payload carries bytes, its own, and only a damaged file is to be
/// removed.
pub proof fn law_verdicts(r: Loaded)
    ensures
        r.model().0 is Some <==> r is Payload,
        r matches Loaded::Payload(v) ==> r.model().0 == Some(v@),
        r.model().1 <==> r is Damaged,
        r.model() == (None::<Seq<u8>>, false) <==> r is Stale,
{
}

/// The fields of a header are where they belong.
proof fn lemma_header_fields(p: PcachePersist, len: nat, sum: u64, body: Seq<u8>)
    requires
        len <= u64::MAX,
    ensures
        header(p, len, sum).len() == HEADER_LEN,
        ({
            let data = header(p, len, sum) + body;
            &&& data.subrange(0, 8) == magic_bytes()
            &&& le_value(data.subrange(8, 16)) == p.fingerprint
            &&& le_value(data.subrange(16, 20)) == p.driver_version
            &&& data.subrange(20, 36) == p.cache_uuid@
            &&& le_value(data.subrange(36, 44)) == len
            &&& header_sum(data) == sum
            &&& data.skip(HEADER_LEN as int) == body
        }),
{
    let data = header(p, len, sum) + body;
    law_le_round_trip(p.fingerprint as nat, Seq::empty(), 8);
    law_le_round_trip(p.driver_version as nat, Seq::empty(), 4);
    law_le_round_trip(len, Seq::empty(), 8);
    law_le_round_trip(sum as nat, Seq::empty(), 8);
    lemma_ranges();
    assert(data.subrange(0, 8) =~= magic_bytes());
    assert(data.subrange(8, 16) =~= le_bytes(p.fingerprint as nat, 8));
    assert(data.subrange(16, 20) =~= le_bytes(p.driver_version as nat, 4));
    assert(data.subrange(20, 36) =~= p.cache_uuid@);
    assert(data.subrange(36, 44) =~= le_bytes(len, 8));
    assert(data.subrange(44, 52) =~= le_bytes(sum as nat, 8));
    assert(data.skip(HEADER_LEN as int) =~= body);
}

proof fn lemma_ranges()
    ensures
        byte_range(8) == 0x1_0000_0000_0000_0000,
        byte_range(4) == 0x1_0000_0000,
{
    reveal_with_fuel(byte_range, 9);
}

/// Loading what was saved gives the payload back.
pub proof fn law_save_then_load(p: PcachePersist, payload: Seq<u8>)
    requires
        payload.len() <= u64::MAX,
    ensures
        loaded(p, envelope(p, payload)) == (Some(payload), false),
{
    lemma_header_fields(p, payload.len(), fnv(payload), payload);
}

/// Where a file's parts lie: the text `INFRVPC2`, the shader set, the driver's version and identity, the
/// payload's length and its checksum, numbers in little-endian order, and the payload from byte 52 on.
pub proof fn law_envelope(p: PcachePersist, payload: Seq<u8>)
    requires
        payload.len() <= u64::MAX,
    ensures
        ({
            let data = envelope(p, payload);
            &&& data.len() == 52 + payload.len()
            &&& data.subrange(0, 8) == seq!['I', 'N', 'F', 'R', 'V', 'P', 'C', '2'].map_values(
                |c: char| c as u8,
            )
            &&& data.subrange(8, 16) == le_bytes(p.fingerprint as nat, 8)
            &&& data.subrange(16, 20) == le_bytes(p.driver_version as nat, 4)
            &&& data.subrange(20, 36) == p.cache_uuid@
            &&& data.subrange(36, 44) == le_bytes(payload.len(), 8)
            &&& data.subrange(44, 52) == le_bytes(fnv(payload) as nat, 8)
            &&& data.skip(52) == payload
        }),
{
    let data = envelope(p, payload);
    lemma_header_fields(p, payload.len(), fnv(payload), payload);
    law_le_round_trip(p.fingerprint as nat, data.subrange(8, 16), 8);
    law_le_round_trip(p.driver_version as nat, data.subrange(16, 20), 4);
    law_le_round_trip(payload.len(), data.subrange(36, 44), 8);
    law_le_round_trip(fnv(payload) as nat, data.subrange(44, 52), 8);
    assert(data.subrange(0, 8) =~= seq!['I', 'N', 'F', 'R', 'V', 'P', 'C', '2'].map_values(
        |c: char| c as u8,
    ));
}

/// A changed header is never taken for a good one: a byte before the checksum makes the file stale, and
/// one of the checksum makes it damaged.
pub proof fn law_changed_header(p: PcachePersist, payload: Seq<u8>, i: int, b: u8)
    requires
        payload.len() <= u64::MAX,
        0 <= i < 52,
        b != envelope(p, payload)[i],
    ensures
        loaded(p, envelope(p, payload).update(i, b)) == (None::<Seq<u8>>, i >= 44),
{
    let data = envelope(p, payload);
    let other = data.update(i, b);
    lemma_header_fields(p, payload.len(), fnv(payload), payload);
    law_envelope(p, payload);
    assert(other[i] != data[i]);
    if i < 8 {
        assert(other.subrange(0, 8)[i] != data.subrange(0, 8)[i]);
    } else if i < 16 {
        assert(other.subrange(8, 16)[i - 8] != data.subrange(8, 16)[i - 8]);
        law_le_round_trip(0, other.subrange(8, 16), 8);
        law_le_round_trip(0, data.subrange(8, 16), 8);
    } else if i < 20 {
        assert(other.subrange(16, 20)[i - 16] != data.subrange(16, 20)[i - 16]);
        law_le_round_trip(0, other.subrange(16, 20), 4);
        law_le_round_trip(0, data.subrange(16, 20), 4);
    } else if i < 36 {
        assert(other.subrange(20, 36)[i - 20] != data.subrange(20, 36)[i - 20]);
    } else if i < 44 {
        assert(other.subrange(36, 44)[i - 36] != data.subrange(36, 44)[i - 36]);
        law_le_round_trip(0, other.subrange(36, 44), 8);
        law_le_round_trip(0, data.subrange(36, 44), 8);
    } else {
        assert(other.subrange(0, 8) =~= data.subrange(0, 8));
        assert(other.subrange(8, 16) =~= data.subrange(8, 16));
        assert(other.subrange(16, 20) =~= data.subrange(16, 20));
        assert(other.subrange(20, 36) =~= data.subrange(20, 36));
        assert(other.subrange(36, 44) =~= data.subrange(36, 44));
        assert(other.skip(52) =~= data.skip(52));
        assert(other.subrange(44, 52)[i - 44] != data.subrange(44, 52)[i - 44]);
        law_le_round_trip(0, other.subrange(44, 52), 8);
        law_le_round_trip(0, data.subrange(44, 52), 8);
    }
}

/// A saved file with something behind it is stale.
pub proof fn law_longer_is_stale(p: PcachePersist, payload: Seq<u8>, tail: Seq<u8>)
    requires
        payload.len() <= u64::MAX,
        tail.len() > 0,
    ensures
        loaded(p, envelope(p, payload) + tail) == (None::<Seq<u8>>, false),
{
    lemma_header_fields(p, payload.len(), fnv(payload), payload);
    let data = envelope(p, payload) + tail;
    assert(data.subrange(36, 44) =~= envelope(p, payload).subrange(36, 44));
}

/// What `load` makes of any bytes at all. They are a payload if and only if they are what a save of that
/// payload writes, damaged if and only if they are that but for the payload and its checksum, and stale
/// otherwise.
pub proof fn law_load_decides(p: PcachePersist, data: Seq<u8>, payload: Seq<u8>)
    requires
        data.len() <= u64::MAX,
        payload.len() <= u64::MAX,
    ensures
        loaded(p, data).0 == Some(payload) <==> data == envelope(p, payload),
        loaded(p, data).1 <==> data.len() >= 52 && data.take(44) == envelope(
            p,
            data.skip(52),
        ).take(44) && data.subrange(44, 52) != le_bytes(fnv(data.skip(52)) as nat, 8),
        !(loaded(p, data).0 is Some && loaded(p, data).1),
{
    law_loaded_was_saved(p, data);
    law_save_then_load(p, payload);
    if data.len() >= 52 {
        let body = data.skip(52);
        let good = envelope(p, body);
        law_envelope(p, body);
        lemma_header_fields(p, body.len(), fnv(body), body);
        law_le_round_trip(0, data.subrange(8, 16), 8);
        law_le_round_trip(0, data.subrange(16, 20), 4);
        law_le_round_trip(0, data.subrange(36, 44), 8);
        law_le_round_trip(0, data.subrange(44, 52), 8);
        law_le_round_trip(fnv(body) as nat, Seq::empty(), 8);
        lemma_ranges();
        if header_matches(p, data) {
            assert(data.take(44) =~= data.subrange(0, 8) + data.subrange(8, 16) + data.subrange(
                16,
                20,
            ) + data.subrange(20, 36) + data.subrange(36, 44));
            assert(good.take(44) =~= good.subrange(0, 8) + good.subrange(8, 16) + good.subrange(
                16,
                20,
            ) + good.subrange(20, 36) + good.subrange(36, 44));
        }
        if data.take(44) == good.take(44) {
            assert(data.subrange(0, 8) =~= data.take(44).subrange(0, 8));
            assert(good.subrange(0, 8) =~= good.take(44).subrange(0, 8));
            assert(data.subrange(8, 16) =~= data.take(44).subrange(8, 16));
            assert(good.subrange(8, 16) =~= good.take(44).subrange(8, 16));
            assert(data.subrange(16, 20) =~= data.take(44).subrange(16, 20));
            assert(good.subrange(16, 20) =~= good.take(44).subrange(16, 20));
            assert(data.subrange(20, 36) =~= data.take(44).subrange(20, 36));
            assert(good.subrange(20, 36) =~= good.take(44).subrange(20, 36));
            assert(data.subrange(36, 44) =~= data.take(44).subrange(36, 44));
            assert(good.subrange(36, 44) =~= good.take(44).subrange(36, 44));
            assert(header_matches(p, data));
        }
    }
}

/// Only an envelope that this driver and shader set would save loads, and only with its payload.
pub proof fn law_loaded_was_saved(p: PcachePersist, data: Seq<u8>)
    ensures
        loaded(p, data).0 matches Some(payload) ==> data == envelope(p, payload),
{
    if loaded(p, data).0 is Some {
        let payload = data.skip(HEADER_LEN as int);
        law_le_round_trip(0, data.subrange(8, 16), 8);
        law_le_round_trip(0, data.subrange(16, 20), 4);
        law_le_round_trip(0, data.subrange(36, 44), 8);
        law_le_round_trip(0, data.subrange(44, 52), 8);
        let h = header(p, payload.len(), fnv(payload));
        assert(h =~= data.subrange(0, 8) + data.subrange(8, 16) + data.subrange(16, 20)
            + data.subrange(20, 36) + data.subrange(36, 44) + data.subrange(44, 52));
        assert(h =~= data.take(HEADER_LEN as int));
        assert(data =~= h + payload);
    }
}

/// A saved file in which one byte of the payload changed is found damaged.
pub proof fn law_changed_byte_is_damage(p: PcachePersist, payload: Seq<u8>, i: int, b: u8)
    requires
        payload.len() <= u64::MAX,
        0 <= i < payload.len(),
        b != payload[i],
    ensures
        loaded(p, envelope(p, payload).update(HEADER_LEN + i, b)) == (None::<Seq<u8>>, true),
{
    law_checksum_sees_one_byte(payload, i, b);
    lemma_header_fields(p, payload.len(), fnv(payload), payload.update(i, b));
    assert(envelope(p, payload).update(HEADER_LEN + i, b) =~= header(
        p,
        payload.len(),
        fnv(payload),
    ) + payload.update(i, b));
}

/// A saved file that lost its tail is stale, however much was lost.
pub proof fn law_truncated_is_stale(p: PcachePersist, payload: Seq<u8>, n: int)
    requires
        payload.len() <= u64::MAX,
        0 <= n < envelope(p, payload).len(),
    ensures
        loaded(p, envelope(p, payload).take(n)) == (None::<Seq<u8>>, false),
{
    lemma_header_fields(p, payload.len(), fnv(payload), payload);
    let cut = envelope(p, payload).take(n);
    if n >= HEADER_LEN {
        assert(cut.subrange(36, 44) =~= envelope(p, payload).subrange(36, 44));
    }
}

/// A file of another shader set or another driver is stale.
pub proof fn law_foreign_is_stale(p: PcachePersist, q: PcachePersist, payload: Seq<u8>)
    requires
        payload.len() <= u64::MAX,
        p.fingerprint != q.fingerprint || p.driver_version != q.driver_version || p.cache_uuid@
            != q.cache_uuid@,
    ensures
        loaded(p, envelope(q, payload)) == (None::<Seq<u8>>, false),
{
    lemma_header_fields(q, payload.len(), fnv(payload), payload);
}

/// Where the file belongs.
#[derive(Clone, Copy, Debug, PartialEq, Eq, Structural)]
pub enum CacheBase {
    /// Nowhere: the user switched it off, or there is no directory for it.
    Nowhere,
    /// Under the user's cache directory.
    Xdg,
    /// Under `.cache` in the user's home.
    HomeCache,
}

/// Picks the directory that the file goes under, from which settings are there.
pub fn cache_base(disabled: bool, xdg_set: bool, home_set: bool) -> (r: CacheBase)
    ensures
        r == if disabled {
            CacheBase::Nowhere
        } else if xdg_set {
            CacheBase::Xdg
        } else if home_set {
            CacheBase::HomeCache
        } else {
            CacheBase::Nowhere
        },
{
    if disabled {
        CacheBase::Nowhere
    } else if xdg_set {
        CacheBase::Xdg
    } else if home_set {
        CacheBase::HomeCache
    } else {
        CacheBase::Nowhere
    }
}

/// Name of the file of the device `device` of `vendor`.
pub open spec fn file_name(vendor: u32, device: u32) -> Seq<char> {
    "vk-pipeline-cache-"@ + hex(vendor as nat, 8) + "-"@ + hex(device as nat, 8) + ".bin"@
}

/// Name of the file of one device, so that two devices never share a file.
pub fn cache_file_name(vendor: u32, device: u32) -> (r: String)
    ensures
        r@ == file_name(vendor, device),
{
    let mut s = "vk-pipeline-cache-".to_owned();
    push_hex(&mut s, vendor, 8);
    s.append("-");
    push_hex(&mut s, device, 8);
    s.append(".bin");
    s
}

/// Name of the file that a process writes before it takes the place of the device's file: the
/// extension names the process.
pub open spec fn temp_name(vendor: u32, device: u32, pid: u32) -> Seq<char> {
    "vk-pipeline-cache-"@ + hex(vendor as nat, 8) + "-"@ + hex(device as nat, 8) + ".tmp."@
        + decimal(pid as nat)
}

/// Name of the file that the process `pid` writes first.
pub fn temp_file_name(vendor: u32, device: u32, pid: u32) -> (r: String)
    ensures
        r@ == temp_name(vendor, device, pid),
{
    let mut s = "vk-pipeline-cache-".to_owned();
    push_hex(&mut s, vendor, 8);
    s.append("-");
    push_hex(&mut s, device, 8);
    s.append(".tmp.");
    push_decimal(&mut s, pid as usize);
    s
}

/// Two processes never write the same file first, and never the device's own.
pub proof fn law_temp_file_per_process(vendor: u32, device: u32, pid: u32, pid2: u32)
    ensures
        temp_name(vendor, device, pid) == temp_name(vendor, device, pid2) ==> pid == pid2,
        temp_name(vendor, device, pid) != file_name(vendor, device),
{
    law_decimal_injective(pid as nat, pid2 as nat);
    let head = "vk-pipeline-cache-"@ + hex(vendor as nat, 8) + "-"@ + hex(device as nat, 8);
    let n = head.len() as int;
    let a = temp_name(vendor, device, pid);
    let b = temp_name(vendor, device, pid2);
    reveal_strlit(".tmp.");
    reveal_strlit(".bin");
    assert(a.subrange(n + 5, a.len() as int) =~= decimal(pid as nat));
    assert(b.subrange(n + 5, b.len() as int) =~= decimal(pid2 as nat));
    assert(a[n + 1] == 't');
    assert(file_name(vendor, device)[n + 1] == 'b');
}

/// A step of putting a file in place.
#[derive(Clone, Copy, Debug, PartialEq, Eq, Structural)]
pub enum SaveStep {
    /// Write the process's own file, all the way to the disk.
    WriteTemp,
    /// Let it take the place of the device's file.
    Rename,
    /// Send the directory to the disk.
    SyncDir,
    /// Remove the process's own file.
    RemoveTemp,
    /// Nothing is left to do.
    Done,
}

/// The step after `step`, which succeeded or not.
pub open spec fn step_after(step: SaveStep, ok: bool) -> SaveStep {
    match step {
        SaveStep::WriteTemp => if ok {
            SaveStep::Rename
        } else {
            SaveStep::RemoveTemp
        },
        SaveStep::Rename => if ok {
            SaveStep::SyncDir
        } else {
            SaveStep::RemoveTemp
        },
        _ => SaveStep::Done,
    }
}

/// The step after `step`, which succeeded or not. A save starts with [`SaveStep::WriteTemp`].
pub fn next_save_step(step: SaveStep, ok: bool) -> (r: SaveStep)
    ensures
        r == step_after(step, ok),
{
    match step {
        SaveStep::WriteTemp => if ok {
            SaveStep::Rename
        } else {
            SaveStep::RemoveTemp
        },
        SaveStep::Rename => if ok {
            SaveStep::SyncDir
        } else {
            SaveStep::RemoveTemp
        },
        _ => SaveStep::Done,
    }
}

/// A save is done after three steps, whatever fails. The device's file is replaced only by a file
/// that reached the disk, and the process's own file is removed exactly where it did not take that
/// place.
pub proof fn law_save_steps(wrote: bool, renamed: bool, last: bool)
    ensures
        ({
            let second = step_after(SaveStep::WriteTemp, wrote);
            let third = step_after(second, renamed);
            &&& second == SaveStep::Rename <==> wrote
            &&& third == SaveStep::SyncDir <==> wrote && renamed
            &&& second == SaveStep::RemoveTemp || third == SaveStep::RemoveTemp <==> !(wrote
                && renamed)
            &&& step_after(third, last) == SaveStep::Done
            &&& second == SaveStep::RemoveTemp <==> !wrote
            &&& third == SaveStep::RemoveTemp <==> wrote && !renamed
            &&& third == SaveStep::Done <==> !wrote
        }),
{
}

/// Hexadecimal texts of one width tell numbers of that width apart.
proof fn lemma_hex(x: nat, y: nat, width: nat, range: nat)
    requires
        range == hex_range(width),
        x < range,
        y < range,
    ensures
        hex(x, width).len() == width,
        hex(x, width) == hex(y, width) ==> x == y,
    decreases width,
{
    if width > 0 {
        let w = (width - 1) as nat;
        lemma_hex(x / 16, y / 16, w, hex_range(w));
        lemma_hex(y / 16, x / 16, w, hex_range(w));
        if hex(x, width) == hex(y, width) {
            assert(hex(x, width).last() == hex(y, width).last());
            assert(hex(x, width).drop_last() =~= hex(x / 16, w));
            assert(hex(y, width).drop_last() =~= hex(y / 16, w));
        }
    }
}

spec fn hex_range(width: nat) -> nat
    decreases width,
{
    if width == 0 {
        1
    } else {
        16 * hex_range((width - 1) as nat)
    }
}

/// Two devices that differ have different files.
pub proof fn law_file_per_device(vendor: u32, device: u32, vendor2: u32, device2: u32)
    ensures
        file_name(vendor, device) == file_name(vendor2, device2) ==> vendor == vendor2 && device
            == device2,
{
    reveal_with_fuel(hex_range, 9);
    lemma_hex(vendor as nat, vendor2 as nat, 8, 0x1_0000_0000);
    lemma_hex(vendor2 as nat, vendor as nat, 8, 0x1_0000_0000);
    lemma_hex(device as nat, device2 as nat, 8, 0x1_0000_0000);
    lemma_hex(device2 as nat, device as nat, 8, 0x1_0000_0000);
    let a = file_name(vendor, device);
    let b = file_name(vendor2, device2);
    let n = "vk-pipeline-cache-"@.len() as int;
    let m = n + 8 + "-"@.len() as int;
    assert(a.subrange(n, n + 8) =~= hex(vendor as nat, 8));
    assert(b.subrange(n, n + 8) =~= hex(vendor2 as nat, 8));
    assert(a.subrange(m, m + 8) =~= hex(device as nat, 8));
    assert(b.subrange(m, m + 8) =~= hex(device2 as nat, 8));
}

/// How the two names are made. Both begin alike and spell the vendor and the device in eight hexadecimal
/// digits each, with a dash between; the device's own file ends in `.bin`, and the other in `.tmp.` and the
/// process's number.
pub proof fn law_file_names(vendor: u32, device: u32, pid: u32)
    ensures
        exists|v: Seq<char>, d: Seq<char>|
            {
                &&& file_name(vendor, device) == #[trigger] ("vk-pipeline-cache-"@ + v + "-"@ + d)
                    + ".bin"@
                &&& temp_name(vendor, device, pid) == ("vk-pipeline-cache-"@ + v + "-"@ + d)
                    + ".tmp."@ + decimal(pid as nat)
                &&& v.len() == 8
                &&& d.len() == 8
                &&& digits_value(v, 16) == vendor
                &&& digits_value(d, 16) == device
            },
        digits_value(decimal(pid as nat), 10) == pid,
{
    reveal_with_fuel(crate::text::hex_range, 9);
    law_hex(vendor as nat, 8);
    law_hex(device as nat, 8);
    law_decimal(pid as nat);
    let v = hex(vendor as nat, 8);
    let d = hex(device as nat, 8);
    assert(file_name(vendor, device) == ("vk-pipeline-cache-"@ + v + "-"@ + d) + ".bin"@);
}

impl PcachePersist {
    /// Judges the file's bytes.
    pub fn load(&self, data: &[u8]) -> (r: Loaded)
        ensures
            r.model() == loaded(*self, data@),
    {
        let want = magic();
        if data.len() < HEADER_LEN || !bytes_at(data, 0, want.as_slice()) {
            return Loaded::Stale;
        }
        let fp: u64 = get_le(data, 8, 8);
        let drv: u64 = get_le(data, 16, 4);
        let len: u64 = get_le(data, 36, 8);
        let sum: u64 = get_le(data, 44, 8);
        if fp != self.fingerprint || drv != self.driver_version as u64 || !bytes_at(
            data,
            20,
            self.cache_uuid.as_slice(),
        ) || (data.len() - HEADER_LEN) as u64 != len {
            return Loaded::Stale;
        }
        let payload = vstd::slice::slice_subrange(data, HEADER_LEN, data.len());
        assert(payload@ =~= data@.skip(HEADER_LEN as int));
        if fnv1a(payload) != sum {
            return Loaded::Damaged;
        }
        let mut out: Vec<u8> = Vec::new();
        put_bytes(&mut out, payload);
        assert(out@ =~= payload@);
        Loaded::Payload(out)
    }

    /// The file's bytes for `blob`, the driver's data.
    pub fn encode(&self, blob: &[u8]) -> (r: Vec<u8>)
        ensures
            r@ == envelope(*self, blob@),
    {
        let mut out: Vec<u8> = Vec::new();
        let want = magic();
        put_bytes(&mut out, want.as_slice());
        put_le(&mut out, self.fingerprint, 8);
        put_le(&mut out, self.driver_version as u64, 4);
        put_bytes(&mut out, self.cache_uuid.as_slice());
        put_le(&mut out, blob.len() as u64, 8);
        put_le(&mut out, fnv1a(blob), 8);
        put_bytes(&mut out, blob);
        assert(out@ =~= envelope(*self, blob@));
        out
    }

    /// What to write, where `blob` is what the driver gave for the cache, if there is a cache and
    /// the driver gave anything: an empty blob is not saved.
    pub fn save(&self, has_cache: bool, blob: Option<&[u8]>) -> (r: Option<Vec<u8>>)
        ensures
            match r {
                Some(out) => has_cache && blob is Some && blob->0@.len() > 0 && out@ == envelope(
                    *self,
                    blob->0@,
                ),
                None => !has_cache || blob is None || blob->0@.len() == 0,
            },
    {
        if !has_cache {
            return None;
        }
        match blob {
            Some(b) => if b.len() == 0 {
                None
            } else {
                Some(self.encode(b))
            },
            None => None,
        }
    }

    /// Whether a save is due `elapsed_secs` whole seconds after the last one.
    pub fn maybe_save(&self, elapsed_secs: u64) -> (r: bool)
        ensures
            r == (elapsed_secs >= SAVE_DEBOUNCE_SECS),
            r <==> elapsed_secs > 0,
    {
        !(elapsed_secs < SAVE_DEBOUNCE_SECS)
    }
}

} // verus!
