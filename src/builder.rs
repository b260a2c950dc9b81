//! Packet builder: an append-only body of big-endian fields, finalised into a
//! length-prefixed packet.

use vstd::prelude::*;
use vstd::utf8::encode_utf8;
use crate::varint::{varint_bytes, write_varint};

verus! {

/// The two bytes of `n`, most significant first.
pub open spec fn be_u16(n: u16) -> Seq<u8> {
    seq![(n >> 8u16) as u8, n as u8]
}

/// The four bytes of `n`, most significant first.
pub open spec fn be_u32(n: u32) -> Seq<u8> {
    seq![(n >> 24u32) as u8, (n >> 16u32) as u8, (n >> 8u32) as u8, n as u8]
}

/// The eight bytes of `n`, most significant first.
pub open spec fn be_u64(n: u64) -> Seq<u8> {
    seq![
        (n >> 56u64) as u8,
        (n >> 48u64) as u8,
        (n >> 40u64) as u8,
        (n >> 32u64) as u8,
        (n >> 24u64) as u8,
        (n >> 16u64) as u8,
        (n >> 8u64) as u8,
        n as u8,
    ]
}

/// The big-endian bytes of each word of `s`, in order.
pub open spec fn be_u64_seq(s: Seq<u64>) -> Seq<u8>
    decreases s.len(),
{
    if s.len() == 0 {
        Seq::empty()
    } else {
        be_u64_seq(s.drop_last()) + be_u64(s.last())
    }
}

/// The big-endian bytes of each integer of `s`, in order.
pub open spec fn be_i32_seq(s: Seq<i32>) -> Seq<u8>
    decreases s.len(),
{
    if s.len() == 0 {
        Seq::empty()
    } else {
        be_i32_seq(s.drop_last()) + be_u32(s.last() as u32)
    }
}

/// The VarInt of a 32-bit integer, read as its unsigned bit pattern.
pub open spec fn varint_i32(n: i32) -> Seq<u8> {
    varint_bytes((n as u32) as nat)
}

/// A string field: the VarInt of its byte length, then its UTF-8 bytes.
pub open spec fn string_field(bytes: Seq<u8>) -> Seq<u8> {
    varint_bytes(((bytes.len() as int) % 0x1_0000_0000) as nat) + bytes
}

/// A finished packet: the VarInt of the body's length, then the body.
pub open spec fn framed(body: Seq<u8>) -> Seq<u8> {
    varint_bytes(body.len()) + body
}

/// The 64-bit word of a block position: `x` in bits 38 to 63, `z` in bits 12
/// to 37 and `y` in bits 0 to 11, each cut to its width.
pub open spec fn position_bits(x: i64, y: i64, z: i64) -> u64 {
    (((x as u64) & 0x3ff_ffff) << 38u64) | (((z as u64) & 0x3ff_ffff) << 12u64) | ((y as u64)
        & 0xfff)
}

/// The signed number that the low `w` bits of `f` stand for in two's
/// complement, where `half` is `2` to the power `w - 1`.
pub open spec fn sign_extend(f: u64, half: int) -> int {
    if f >= half {
        f - 2 * half
    } else {
        f as int
    }
}

/// The `x` coordinate of a position word.
pub open spec fn position_x(p: u64) -> int {
    sign_extend(p >> 38u64, 0x200_0000)
}

/// The `y` coordinate of a position word.
pub open spec fn position_y(p: u64) -> int {
    sign_extend(p & 0xfff, 0x800)
}

/// The `z` coordinate of a position word.
pub open spec fn position_z(p: u64) -> int {
    sign_extend((p >> 12u64) & 0x3ff_ffff, 0x200_0000)
}

/// Cutting a small signed number to its low bits and sign-extending gives it
/// back.
proof fn lemma_cut_and_extend_26(x: i64)
    requires
        -0x200_0000 <= x < 0x200_0000,
    ensures
        sign_extend((x as u64) & 0x3ff_ffff, 0x200_0000) == x,
{
    let u = x as u64;
    if x >= 0 {
        assert(u & 0x3ff_ffff == x) by (bit_vector)
            requires
                u == x as u64,
                0 <= x < 0x200_0000,
        ;
    } else {
        let f = u & 0x3ff_ffff;
        assert(f >= 0x200_0000 && f < 0x400_0000 && (f as i64) - 0x400_0000 == x)
            by (bit_vector)
            requires
                u == x as u64,
                -0x200_0000 <= x < 0,
                f == u & 0x3ff_ffff,
        ;
        assert(f as i64 == f as int);
    }
}

proof fn lemma_cut_and_extend_12(y: i64)
    requires
        -0x800 <= y < 0x800,
    ensures
        sign_extend((y as u64) & 0xfff, 0x800) == y,
{
    let u = y as u64;
    if y >= 0 {
        assert(u & 0xfff == y) by (bit_vector)
            requires
                u == y as u64,
                0 <= y < 0x800,
        ;
    } else {
        let f = u & 0xfff;
        assert(f >= 0x800 && f < 0x1000 && (f as i64) - 0x1000 == y) by (bit_vector)
            requires
                u == y as u64,
                -0x800 <= y < 0,
                f == u & 0xfff,
        ;
        assert(f as i64 == f as int);
    }
}

/// Packing a position and reading its three fields back gives the same
/// coordinates, for `x` and `z` in 26-bit and `y` in 12-bit signed range.
pub proof fn lemma_position_round_trip(x: i64, y: i64, z: i64)
    requires
        -0x200_0000 <= x < 0x200_0000,
        -0x800 <= y < 0x800,
        -0x200_0000 <= z < 0x200_0000,
    ensures
        position_x(position_bits(x, y, z)) == x,
        position_y(position_bits(x, y, z)) == y,
        position_z(position_bits(x, y, z)) == z,
{
    let (ux, uy, uz) = (x as u64, y as u64, z as u64);
    let p = position_bits(x, y, z);
    assert(p == (((ux & 0x3ff_ffff) << 38u64) | ((uz & 0x3ff_ffff) << 12u64) | (uy & 0xfff)));
    assert(p >> 38u64 == ux & 0x3ff_ffff && p & 0xfff == uy & 0xfff && (p >> 12u64) & 0x3ff_ffff
        == uz & 0x3ff_ffff) by (bit_vector)
        requires
            p == (((ux & 0x3ff_ffff) << 38u64) | ((uz & 0x3ff_ffff) << 12u64) | (uy & 0xfff)),
    ;
    lemma_cut_and_extend_26(x);
    lemma_cut_and_extend_26(z);
    lemma_cut_and_extend_12(y);
}

/// The body of a packet in the making.
pub struct PacketBuilder {
    data: Vec<u8>,
}

impl View for PacketBuilder {
    type V = Seq<u8>;

    /// The bytes pushed so far.
    closed spec fn view(&self) -> Seq<u8> {
        self.data@
    }
}

impl Default for PacketBuilder {
    fn default() -> (r: PacketBuilder)
        ensures
            r@ == Seq::<u8>::empty(),
    {
        Self::new()
    }
}

impl PacketBuilder {
    /// An empty body.
    pub fn new() -> (r: PacketBuilder)
        ensures
            r@ == Seq::<u8>::empty(),
    {
        PacketBuilder { data: Vec::new() }
    }

    /// Appends `n` as a VarInt of its unsigned bit pattern.
    pub fn push_varint(&mut self, n: i32)
        ensures
            final(self)@ == old(self)@ + varint_i32(n),
    {
        write_varint(&mut self.data, (n as u32) as u64);
    }

    /// Appends the packed position of `(x, y, z)`, big-endian.
    pub fn push_position(&mut self, x: i64, y: i64, z: i64)
        ensures
            final(self)@ == old(self)@ + be_u64(position_bits(x, y, z)),
    {
        let packed: u64 = (((x as u64) & 0x3ff_ffff) << 38u64) | (((z as u64) & 0x3ff_ffff)
            << 12u64) | ((y as u64) & 0xfff);
        self.push_u64(packed);
    }

    fn push_u64(&mut self, n: u64)
        ensures
            final(self)@ == old(self)@ + be_u64(n),
    {
        self.data.push((n >> 56u64) as u8);
        self.data.push((n >> 48u64) as u8);
        self.data.push((n >> 40u64) as u8);
        self.data.push((n >> 32u64) as u8);
        self.data.push((n >> 24u64) as u8);
        self.data.push((n >> 16u64) as u8);
        self.data.push((n >> 8u64) as u8);
        self.data.push(n as u8);
        assert(self.data@ =~= old(self)@ + be_u64(n));
    }

    fn push_u32(&mut self, n: u32)
        ensures
            final(self)@ == old(self)@ + be_u32(n),
    {
        self.data.push((n >> 24u32) as u8);
        self.data.push((n >> 16u32) as u8);
        self.data.push((n >> 8u32) as u8);
        self.data.push(n as u8);
        assert(self.data@ =~= old(self)@ + be_u32(n));
    }

    /// Appends an unsigned 16-bit integer, big-endian.
    pub fn push_unsigned_char(&mut self, n: u16)
        ensures
            final(self)@ == old(self)@ + be_u16(n),
    {
        self.data.push((n >> 8u16) as u8);
        self.data.push(n as u8);
        assert(self.data@ =~= old(self)@ + be_u16(n));
    }

    /// Appends a 32-bit integer, big-endian.
    pub fn push_int(&mut self, n: i32)
        ensures
            final(self)@ == old(self)@ + be_u32(n as u32),
    {
        self.push_u32(n as u32);
    }

    /// Appends a 16-bit integer, big-endian.
    pub fn push_short(&mut self, n: i16)
        ensures
            final(self)@ == old(self)@ + be_u16(n as u16),
    {
        self.push_unsigned_char(n as u16);
    }

    /// Appends a 64-bit integer, big-endian.
    pub fn push_long(&mut self, n: i64)
        ensures
            final(self)@ == old(self)@ + be_u64(n as u64),
    {
        self.push_u64(n as u64);
    }

    /// Appends `1` for true, `0` for false.
    pub fn push_bool(&mut self, n: bool)
        ensures
            final(self)@ == old(self)@ + seq![if n { 1u8 } else { 0u8 }],
    {
        self.push_byte(if n { 1 } else { 0 });
    }

    /// Appends one byte.
    pub fn push_byte(&mut self, n: u8)
        ensures
            final(self)@ == old(self)@ + seq![n],
    {
        self.data.push(n);
    }

    /// Appends raw bytes.
    pub fn push_vec_u8(&mut self, v: &[u8])
        ensures
            final(self)@ == old(self)@ + v@,
    {
        let mut i: usize = 0;
        while i < v.len()
            invariant
                i <= v@.len(),
                self@ == old(self)@ + v@.take(i as int),
            decreases v@.len() - i,
        {
            self.data.push(v[i]);
            assert(v@.take(i + 1) =~= v@.take(i as int).push(v@[i as int]));
            i = i + 1;
        }
        assert(v@.take(i as int) =~= v@);
    }

    /// Appends each word, big-endian.
    pub fn push_vec_u64(&mut self, v: &[u64])
        ensures
            final(self)@ == old(self)@ + be_u64_seq(v@),
    {
        let mut i: usize = 0;
        while i < v.len()
            invariant
                i <= v@.len(),
                self@ == old(self)@ + be_u64_seq(v@.take(i as int)),
            decreases v@.len() - i,
        {
            self.push_u64(v[i]);
            assert(v@.take(i + 1).drop_last() =~= v@.take(i as int));
            i = i + 1;
        }
        assert(v@.take(i as int) =~= v@);
    }

    /// Appends each integer, big-endian.
    pub fn push_vec_i32(&mut self, v: &[i32])
        ensures
            final(self)@ == old(self)@ + be_i32_seq(v@),
    {
        let mut i: usize = 0;
        while i < v.len()
            invariant
                i <= v@.len(),
                self@ == old(self)@ + be_i32_seq(v@.take(i as int)),
            decreases v@.len() - i,
        {
            self.push_u32(v[i] as u32);
            assert(v@.take(i + 1).drop_last() =~= v@.take(i as int));
            i = i + 1;
        }
        assert(v@.take(i as int) =~= v@);
    }

    /// Appends a string: the VarInt of its UTF-8 length, then its UTF-8 bytes.
    pub fn push_string(&mut self, string: &str)
        ensures
            final(self)@ == old(self)@ + string_field(encode_utf8(string@)),
    {
        let bytes = string.as_bytes();
        write_varint(&mut self.data, (bytes.len() as u64) % 0x1_0000_0000);
        self.push_vec_u8(bytes);
        assert(self@ =~= old(self)@ + string_field(encode_utf8(string@)));
    }

    /// The bytes pushed, without a length prefix.
    pub fn into_bytes(self) -> (r: Vec<u8>)
        ensures
            r@ == self@,
    {
        self.data
    }

    /// The finished packet: the VarInt of the body's length, then the body.
    pub fn build(self) -> (r: Vec<u8>)
        ensures
            r@ == framed(self@),
    {
        let mut result: Vec<u8> = Vec::new();
        write_varint(&mut result, self.data.len() as u64);
        let mut body = self.data;
        result.append(&mut body);
        result
    }
}

} // verus!
