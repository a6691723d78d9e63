//! Unsigned integers as bytes, least significant byte first.
use vstd::prelude::*;

verus! {

/// The `n` low bytes of `x`, least significant first.
pub open spec fn le_bytes(x: nat, n: nat) -> Seq<u8>
    decreases n,
{
    if n == 0 {
        Seq::empty()
    } else {
        seq![(x % 256) as u8] + le_bytes(x / 256, (n - 1) as nat)
    }
}

/// The number that `s` holds, least significant byte first.
pub open spec fn le_value(s: Seq<u8>) -> nat
    decreases s.len(),
{
    if s.len() == 0 {
        0
    } else {
        s[0] as nat + 256 * le_value(s.drop_first())
    }
}

/// 256 to the power `n`.
pub open spec fn byte_range(n: nat) -> nat
    decreases n,
{
    if n == 0 {
        1
    } else {
        256 * byte_range((n - 1) as nat)
    }
}

/// A number that fits `n` bytes is what its bytes hold, and any `n` bytes are those of the number
/// that they hold.
pub proof fn law_le_round_trip(x: nat, s: Seq<u8>, n: nat)
    ensures
        le_bytes(x, n).len() == n,
        x < byte_range(n) ==> le_value(le_bytes(x, n)) == x,
        s.len() == n ==> le_value(s) < byte_range(n),
        s.len() == n ==> le_bytes(le_value(s), n) == s,
    decreases n,
{
    if n > 0 {
        let m = (n - 1) as nat;
        law_le_round_trip(x / 256, s.drop_first(), m);
        assert(le_bytes(x, n).drop_first() =~= le_bytes(x / 256, m));
        if s.len() == n {
            let rest = le_value(s.drop_first());
            assert((s[0] as nat + 256 * rest) / 256 == rest);
            assert((s[0] as nat + 256 * rest) % 256 == s[0] as nat);
            assert(le_bytes(le_value(s), n) =~= s);
        }
    }
}

/// Byte `i` counts for 256 to the power `i`: the first byte is the least significant one.
pub proof fn law_little_endian(x: nat, n: nat, i: nat)
    requires
        i < n,
    ensures
        byte_range(i) > 0,
        le_bytes(x, n).len() == n,
        le_bytes(x, n)[i as int] == (x / byte_range(i)) % 256,
        byte_range(0) == 1,
        byte_range(i + 1) == 256 * byte_range(i),
    decreases i,
{
    law_le_round_trip(x, Seq::empty(), n);
    if i > 0 {
        let j = (i - 1) as nat;
        law_little_endian(x / 256, (n - 1) as nat, j);
        assert(le_bytes(x, n)[i as int] == le_bytes(x / 256, (n - 1) as nat)[j as int]);
        vstd::arithmetic::div_mod::lemma_div_denominator(x as int, 256, byte_range(j) as int);
    } else {
        assert(x / 1 == x);
    }
}

/// The first `k` bytes hold less than 256 to the power `k`, and the next one counts for that power.
proof fn lemma_le_value_push(s: Seq<u8>, b: u8)
    ensures
        le_value(s.push(b)) == le_value(s) + b * byte_range(s.len()),
    decreases s.len(),
{
    if s.len() == 0 {
        assert(s.push(b).drop_first() =~= s);
        assert(b * byte_range(0) == b) by (nonlinear_arith)
            requires
                byte_range(0) == 1,
        ;
    } else {
        lemma_le_value_push(s.drop_first(), b);
        assert(s.push(b).drop_first() =~= s.drop_first().push(b));
        assert(s.push(b)[0] == s[0]);
        let p = byte_range((s.len() - 1) as nat);
        assert(256 * (b * p) == b * (256 * p)) by (nonlinear_arith);
    }
}

proof fn lemma_byte_range_monotonic(m: nat, n: nat)
    requires
        m <= n,
    ensures
        0 < byte_range(m) <= byte_range(n),
    decreases n,
{
    if n > 0 {
        if m == n {
            lemma_byte_range_monotonic((m - 1) as nat, (n - 1) as nat);
        } else {
            lemma_byte_range_monotonic(m, (n - 1) as nat);
        }
    }
}

/// Appends the `n` low bytes of `x`.
pub fn put_le(out: &mut Vec<u8>, x: u64, n: usize)
    ensures
        final(out)@ == old(out)@ + le_bytes(x as nat, n as nat),
{
    let mut rest: u64 = x;
    let mut i: usize = 0;
    while i < n
        invariant
            i <= n,
            out@ + le_bytes(rest as nat, (n - i) as nat) == old(out)@ + le_bytes(
                x as nat,
                n as nat,
            ),
        decreases n - i,
    {
        let ghost before = out@;
        let ghost left = rest as nat;
        out.push((rest % 256) as u8);
        rest = rest / 256;
        i += 1;
        proof {
            let tail = le_bytes(rest as nat, (n - i) as nat);
            assert(out@ + tail =~= before + (seq![(left % 256) as u8] + tail));
        }
    }
    assert(out@ + le_bytes(rest as nat, 0) =~= out@);
}

/// The number in the `n` bytes of `data` from `off` on.
pub fn get_le(data: &[u8], off: usize, n: usize) -> (r: u64)
    requires
        n <= 8,
        off + n <= data@.len(),
    ensures
        r == le_value(data@.subrange(off as int, off + n)),
{
    let total: usize = data.len();
    let mut r: u64 = 0;
    let mut unit: u64 = 1;
    let mut i: usize = 0;
    assert(data@.subrange(off as int, off as int) =~= Seq::empty());
    while i < n
        invariant
            i <= n <= 8,
            off + n <= total == data@.len(),
            r == le_value(data@.subrange(off as int, off + i)),
            i < 8 ==> unit == byte_range(i as nat),
        decreases n - i,
    {
        let b = data[off + i];
        proof {
            let s = data@.subrange(off as int, off + i);
            assert(data@.subrange(off as int, off + i + 1) =~= s.push(b));
            lemma_le_value_push(s, b);
            law_le_round_trip(0, s, i as nat);
            law_le_round_trip(0, s.push(b), (i + 1) as nat);
            lemma_byte_range_monotonic((i + 1) as nat, 8);
            assert(byte_range(8) == 0x1_0000_0000_0000_0000) by {
                reveal_with_fuel(byte_range, 9);
            }
        }
        r = r + b as u64 * unit;
        i += 1;
        if i < 8 {
            proof {
                lemma_byte_range_monotonic(i as nat, 7);
                assert(byte_range(7) == 0x100_0000_0000_0000) by {
                    reveal_with_fuel(byte_range, 8);
                }
            }
            unit = unit * 256;
        }
    }
    r
}

/// Whether the bytes of `data` from `off` on start with `want`.
pub fn bytes_at(data: &[u8], off: usize, want: &[u8]) -> (r: bool)
    requires
        off + want@.len() <= data@.len(),
    ensures
        r == (data@.subrange(off as int, off + want@.len()) == want@),
{
    let total: usize = data.len();
    let mut i: usize = 0;
    while i < want.len()
        invariant
            i <= want@.len(),
            off + want@.len() <= total == data@.len(),
            forall|k: int| 0 <= k < i ==> data@[off + k] == #[trigger] want@[k],
        decreases want.len() - i,
    {
        if data[off + i] != want[i] {
            assert(data@.subrange(off as int, off + want@.len())[i as int] != want@[i as int]);
            return false;
        }
        i += 1;
    }
    assert(data@.subrange(off as int, off + want@.len()) =~= want@);
    true
}

/// Appends all of `s`.
pub fn put_bytes(out: &mut Vec<u8>, s: &[u8])
    ensures
        final(out)@ == old(out)@ + s@,
{
    let mut i: usize = 0;
    assert(s@.take(0) =~= Seq::empty());
    while i < s.len()
        invariant
            i <= s@.len(),
            out@ == old(out)@ + s@.take(i as int),
        decreases s.len() - i,
    {
        out.push(s[i]);
        i += 1;
        assert(s@.take(i as int) =~= s@.take(i - 1).push(s@[i - 1]));
    }
    assert(s@.take(i as int) =~= s@);
}

} // verus!
