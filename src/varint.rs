//! The VarInt codec: 32-bit integers as little-endian groups of 7 bits, the
//! high bit of each byte flagging that another byte follows.

use vstd::prelude::*;
use crate::reader::McBytesErr;

verus! {

/// The bytes that encode `v`: its 7-bit groups, least significant first, each
/// but the last with the continuation flag set.
pub open spec fn varint_bytes(v: nat) -> Seq<u8>
    decreases v,
{
    if v < 128 {
        seq![v as u8]
    } else {
        seq![(v % 128 + 128) as u8] + varint_bytes(v / 128)
    }
}

/// The number that the 7-bit groups of `s` stand for, first byte least
/// significant; continuation flags are ignored.
pub open spec fn groups_value(s: Seq<u8>) -> nat
    decreases s.len(),
{
    if s.len() == 0 {
        0
    } else {
        (s[0] % 128) as nat + 128 * groups_value(s.drop_first())
    }
}

/// `128` to the power `k`, for the at most five groups of a VarInt.
pub open spec fn group_bound(k: nat) -> nat {
    if k == 0 {
        1
    } else if k == 1 {
        128
    } else if k == 2 {
        16384
    } else if k == 3 {
        2097152
    } else if k == 4 {
        268435456
    } else {
        34359738368
    }
}

/// Scanning `s` from index `i`: the length of the VarInt that starts at `s[0]`,
/// if its last byte stands among the first five and within `s`.
pub open spec fn varint_len_from(s: Seq<u8>, i: nat) -> Option<nat>
    decreases 5 - i,
{
    if i >= 5 || i >= s.len() {
        None
    } else if s[i as int] < 128 {
        Some(i + 1)
    } else {
        varint_len_from(s, i + 1)
    }
}

/// The length of the VarInt at the start of `s`, if `s` holds a complete one.
pub open spec fn varint_len(s: Seq<u8>) -> Option<nat> {
    varint_len_from(s, 0)
}

/// `s` starts with five bytes that all flag a continuation, and a sixth byte
/// is there to be read: the value is too big for 32 bits.
pub open spec fn varint_too_big(s: Seq<u8>) -> bool {
    s.len() > 5 && forall|i: int| 0 <= i < 5 ==> s[i] >= 128
}

/// The 32-bit value of the first `n` bytes of `s` read as a VarInt (bits past
/// the 32nd are dropped).
pub open spec fn varint_value(s: Seq<u8>, n: nat) -> u32 {
    (groups_value(s.take(n as int)) % 0x1_0000_0000) as u32
}

/// Appends the VarInt bytes of `v` to `out`.
pub fn write_varint(out: &mut Vec<u8>, v: u64)
    ensures
        final(out)@ == old(out)@ + varint_bytes(v as nat),
{
    let mut x: u64 = v;
    loop
        invariant
            out@ + varint_bytes(x as nat) == old(out)@ + varint_bytes(v as nat),
        decreases x,
    {
        let low: u8 = (x % 128) as u8;
        let next: u64 = x / 128;
        let ghost before = out@;
        if next == 0 {
            out.push(low);
            assert(varint_bytes(x as nat) == seq![low]);
            assert(out@ == before + varint_bytes(x as nat));
            return;
        }
        out.push(low + 128);
        assert(varint_bytes(x as nat) == seq![(low + 128) as u8] + varint_bytes(next as nat));
        assert(out@ + varint_bytes(next as nat) =~= before + varint_bytes(x as nat));
        x = next;
    }
}

/// Reads the VarInt at the start of `buf`: its value and its length in bytes.
pub fn decode_varint(buf: &[u8]) -> (r: Result<(u32, usize), McBytesErr>)
    ensures
        match r {
            Ok((v, n)) => varint_len(buf@) == Some(n as nat) && v == varint_value(buf@, n as nat),
            Err(McBytesErr::VarintTooBig) => varint_too_big(buf@) && varint_len(buf@) is None,
            Err(McBytesErr::InsufficientBytes) => varint_len(buf@) is None && !varint_too_big(buf@),
        },
{
    let mut i: usize = 0;
    while i < buf.len() && i < 5 && buf[i] >= 128
        invariant
            i <= 5,
            i <= buf.len(),
            forall|j: int| 0 <= j < i ==> buf@[j] >= 128,
            varint_len(buf@) == varint_len_from(buf@, i as nat),
        decreases 5 - i,
    {
        i = i + 1;
    }
    if i >= buf.len() {
        return Err(McBytesErr::InsufficientBytes);
    }
    if i == 5 {
        return Err(McBytesErr::VarintTooBig);
    }
    let n: usize = i + 1;
    let mut acc: u64 = 0;
    let mut k: usize = n;
    while k > 0
        invariant
            k <= n,
            n <= 5,
            n <= buf.len(),
            acc == groups_value(buf@.subrange(k as int, n as int)),
            acc < group_bound((n - k) as nat),
        decreases k,
    {
        let d: u8 = buf[k - 1] % 128;
        assert(buf@.subrange(k - 1, n as int).drop_first() =~= buf@.subrange(k as int, n as int));
        acc = acc * 128 + d as u64;
        k = k - 1;
    }
    assert(buf@.subrange(0, n as int) =~= buf@.take(n as int));
    Ok(((acc % 0x1_0000_0000) as u32, n))
}

/// The shape of an encoding: every byte but the last flags a continuation,
/// the groups add up to `v`, and below `128` to the power `k` at most `k`
/// bytes are used.
proof fn lemma_varint_bytes_shape(v: nat, k: nat)
    requires
        1 <= k <= 5,
        v < group_bound(k),
    ensures
        1 <= varint_bytes(v).len() <= k,
        varint_bytes(v)[varint_bytes(v).len() - 1] < 128,
        forall|i: int| 0 <= i < varint_bytes(v).len() - 1 ==> varint_bytes(v)[i] >= 128,
        groups_value(varint_bytes(v)) == v,
    decreases v,
{
    if v >= 128 {
        let rest = varint_bytes(v / 128);
        lemma_varint_bytes_shape(v / 128, (k - 1) as nat);
        let s = varint_bytes(v);
        assert(s == seq![(v % 128 + 128) as u8] + rest);
        assert(s.drop_first() =~= rest);
        assert forall|i: int| 0 <= i < s.len() - 1 implies s[i] >= 128 by {
            if i > 0 {
                assert(s[i] == rest[i - 1]);
            }
        }
        assert(s[0] % 128 == v % 128);
        assert(groups_value(s) == s[0] % 128 + 128 * groups_value(rest));
        assert(v == v % 128 + 128 * (v / 128));
    } else {
        let s = varint_bytes(v);
        assert(s.drop_first() =~= Seq::<u8>::empty());
        assert(groups_value(s) == s[0] % 128 + 128 * groups_value(Seq::<u8>::empty()));
    }
}

/// Scanning from `i` finds the end of a VarInt whose last byte is at `n - 1`.
proof fn lemma_scan_finds_end(s: Seq<u8>, i: nat, n: nat)
    requires
        i < n <= 5,
        n <= s.len(),
        s[n - 1] < 128,
        forall|j: int| 0 <= j < n - 1 ==> s[j] >= 128,
    ensures
        varint_len_from(s, i) == Some(n),
    decreases n - i,
{
    if i + 1 < n {
        lemma_scan_finds_end(s, i + 1, n);
    }
}

/// Decoding what was encoded gives the value back, whatever bytes follow it,
/// and the encoding of a 32-bit value takes at most five bytes.
pub proof fn lemma_varint_round_trip(v: u32, rest: Seq<u8>)
    ensures
        varint_bytes(v as nat).len() <= 5,
        varint_len(varint_bytes(v as nat) + rest) == Some(varint_bytes(v as nat).len()),
        varint_value(varint_bytes(v as nat) + rest, varint_bytes(v as nat).len()) == v,
{
    let e = varint_bytes(v as nat);
    lemma_varint_bytes_shape(v as nat, 5);
    let s = e + rest;
    lemma_scan_finds_end(s, 0, e.len());
    assert(s.take(e.len() as int) =~= e);
}

/// A complete VarInt takes between one and five bytes, all within `s`.
pub proof fn lemma_varint_len_bounds(s: Seq<u8>)
    ensures
        varint_len(s) is Some ==> 1 <= varint_len(s).unwrap() <= 5 && varint_len(s).unwrap()
            <= s.len(),
{
    lemma_scan_bounds(s, 0);
}

proof fn lemma_scan_bounds(s: Seq<u8>, i: nat)
    ensures
        varint_len_from(s, i) is Some ==> i + 1 <= varint_len_from(s, i).unwrap() <= 5
            && varint_len_from(s, i).unwrap() <= s.len(),
    decreases 5 - i,
{
    if i < 5 && i < s.len() && s[i as int] >= 128 {
        lemma_scan_bounds(s, i + 1);
    }
}

} // verus!
