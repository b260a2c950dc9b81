//! Packet reader: a forward-only cursor over the bytes of one packet.

use vstd::prelude::*;
use vstd::utf8::{decode_utf8, valid_utf8};
use crate::builder::be_u64;
use crate::varint::{decode_varint, lemma_varint_len_bounds, varint_len, varint_too_big, varint_value};

verus! {

/// Errors raised while reading the fields of a packet.
#[derive(Debug, Clone, Copy, PartialEq, Eq, Structural)]
pub enum McBytesErr {
    /// A VarInt kept its continuation flag set past its fifth byte.
    VarintTooBig,
    /// A read needed more bytes than the packet holds.
    InsufficientBytes,
}

/// The characters that `String::from_utf8_lossy` makes of `b`.
pub uninterp spec fn utf8_lossy(b: Seq<u8>) -> Seq<char>;

/// Relies on `String::from_utf8_lossy`: its result depends on the bytes alone,
/// and bytes that are valid UTF-8 decode to exactly their characters.
#[verifier::external_body]
fn lossy_string(b: &[u8]) -> (r: String)
    ensures
        r@ == utf8_lossy(b@),
        valid_utf8(b@) ==> r@ == decode_utf8(b@),
{
    String::from_utf8_lossy(b).into_owned()
}

/// The number of bytes that a string field of declared length `n` takes: a
/// negative length reads nothing.
pub open spec fn field_len(n: i32) -> nat {
    if n < 0 {
        0
    } else {
        n as nat
    }
}

/// The VarInt at the start of `s`, as a signed 32-bit integer, and its length.
pub open spec fn leading_varint(s: Seq<u8>) -> (i32, nat) {
    let n = varint_len(s).unwrap();
    (varint_value(s, n) as i32, n)
}

/// The error that a VarInt read at the start of `s` fails with, where it
/// fails.
pub open spec fn varint_error(s: Seq<u8>) -> McBytesErr {
    if varint_too_big(s) {
        McBytesErr::VarintTooBig
    } else {
        McBytesErr::InsufficientBytes
    }
}

/// A VarInt read from the start of `s`: its value and the bytes after it.
pub open spec fn spec_read_varint(s: Seq<u8>) -> Result<(i32, Seq<u8>), McBytesErr> {
    match varint_len(s) {
        Some(h) => Ok((leading_varint(s).0, s.skip(h as int))),
        None => Err(varint_error(s)),
    }
}

/// A byte read from the start of `s`, and the bytes after it.
pub open spec fn spec_read_byte(s: Seq<u8>) -> Result<(u8, Seq<u8>), McBytesErr> {
    if s.len() >= 1 {
        Ok((s[0], s.skip(1)))
    } else {
        Err(McBytesErr::InsufficientBytes)
    }
}

/// An unsigned big-endian 16-bit integer read from the start of `s`, and the
/// bytes after it.
pub open spec fn spec_read_unsigned_short(s: Seq<u8>) -> Result<(u16, Seq<u8>), McBytesErr> {
    if s.len() >= 2 {
        Ok(((s[0] * 256 + s[1]) as u16, s.skip(2)))
    } else {
        Err(McBytesErr::InsufficientBytes)
    }
}

/// A big-endian 64-bit integer read from the start of `s`, and the bytes
/// after it.
pub open spec fn spec_read_u64(s: Seq<u8>) -> Result<(u64, Seq<u8>), McBytesErr> {
    if s.len() >= 8 {
        Ok((be_u64_value(s), s.skip(8)))
    } else {
        Err(McBytesErr::InsufficientBytes)
    }
}

/// The 64-bit integer whose big-endian bytes start `s`.
pub open spec fn be_u64_value(s: Seq<u8>) -> u64 {
    ((s[0] as u64) << 56u64) | ((s[1] as u64) << 48u64) | ((s[2] as u64) << 40u64) | ((
    s[3] as u64) << 32u64) | ((s[4] as u64) << 24u64) | ((s[5] as u64) << 16u64) | ((s[6] as u64)
        << 8u64) | (s[7] as u64)
}

/// The characters of a string field's bytes: exactly the decoded characters
/// where the bytes are valid UTF-8, the lossy decoding otherwise.
pub open spec fn text_of(b: Seq<u8>) -> Seq<char> {
    if valid_utf8(b) {
        decode_utf8(b)
    } else {
        utf8_lossy(b)
    }
}

/// A string field read from the start of `s`: its characters, and the bytes
/// after it.
pub open spec fn spec_read_string(s: Seq<u8>) -> Result<(Seq<char>, Seq<u8>), McBytesErr> {
    match spec_read_varint(s) {
        Ok((n, rest)) => if field_len(n) <= rest.len() {
            Ok((text_of(rest.take(field_len(n) as int)), rest.skip(field_len(n) as int)))
        } else {
            Err(McBytesErr::InsufficientBytes)
        },
        Err(e) => Err(e),
    }
}

/// A cursor over a packet's bytes.
#[derive(Debug)]
pub struct McBytesReader {
    data: Vec<u8>,
    pos: usize,
}

impl View for McBytesReader {
    type V = Seq<u8>;

    /// The bytes not read yet.
    closed spec fn view(&self) -> Seq<u8> {
        self.data@.subrange(self.pos as int, self.data@.len() as int)
    }
}

impl McBytesReader {
    #[verifier::type_invariant]
    spec fn inv(&self) -> bool {
        self.pos <= self.data@.len()
    }

    /// A reader positioned at the first of `data`.
    pub fn from_vec(data: Vec<u8>) -> (r: McBytesReader)
        ensures
            r@ == data@,
    {
        let r = McBytesReader { data, pos: 0 };
        assert(r@ =~= data@);
        r
    }

    /// Reads a VarInt.
    pub fn read_varint(&mut self) -> (r: Result<i32, McBytesErr>)
        ensures
            match r {
                Ok(v) => varint_len(old(self)@) is Some && v == leading_varint(old(self)@).0
                    && final(self)@ == old(self)@.skip(leading_varint(old(self)@).1 as int),
                Err(e) => varint_len(old(self)@) is None && e == varint_error(old(self)@)
                    && final(self)@ == old(self)@,
            },
            r matches Ok(v) ==> spec_read_varint(old(self)@) == Ok::<_, McBytesErr>((v, final(self)@)),
            r matches Err(e) ==> spec_read_varint(old(self)@) == Err::<(i32, Seq<u8>), _>(e),
    {
        proof {
            use_type_invariant(&*self);
        }
        let rest = self.data.as_slice().split_at(self.pos).1;
        assert(rest@ == self@);
        proof {
            lemma_varint_len_bounds(rest@);
        }
        match decode_varint(rest) {
            Ok((v, n)) => {
                assert(n <= rest@.len());
                assert(self.pos + n <= self.data.len());
                self.pos = self.pos + n;
                assert(self@ =~= old(self)@.skip(n as int));
                let r: i32 = #[verifier::truncate] (v as i32);
                Ok(r)
            },
            Err(e) => Err(e),
        }
    }

    /// Reads one byte.
    pub fn read_one_byte(&mut self) -> (r: Result<u8, McBytesErr>)
        ensures
            match r {
                Ok(b) => old(self)@.len() > 0 && b == old(self)@[0] && final(self)@
                    == old(self)@.skip(1),
                Err(e) => old(self)@.len() == 0 && e == McBytesErr::InsufficientBytes
                    && final(self)@ == old(self)@,
            },
            r matches Ok(v) ==> spec_read_byte(old(self)@) == Ok::<_, McBytesErr>((v, final(self)@)),
            r matches Err(e) ==> spec_read_byte(old(self)@) == Err::<(u8, Seq<u8>), _>(e),
    {
        proof {
            use_type_invariant(&*self);
        }
        if self.pos < self.data.len() {
            let b = self.data[self.pos];
            self.pos = self.pos + 1;
            assert(self@ =~= old(self)@.skip(1));
            Ok(b)
        } else {
            Err(McBytesErr::InsufficientBytes)
        }
    }

    /// Reads an unsigned 16-bit integer, most significant byte first.
    pub fn read_unsigned_short(&mut self) -> (r: Result<u16, McBytesErr>)
        ensures
            match r {
                Ok(v) => old(self)@.len() >= 2 && v == old(self)@[0] * 256 + old(self)@[1]
                    && final(self)@ == old(self)@.skip(2),
                Err(e) => old(self)@.len() < 2 && e == McBytesErr::InsufficientBytes
                    && final(self)@ == old(self)@,
            },
            r matches Ok(v) ==> spec_read_unsigned_short(old(self)@) == Ok::<_, McBytesErr>((v, final(self)@)),
            r matches Err(e) ==> spec_read_unsigned_short(old(self)@) == Err::<(u16, Seq<u8>), _>(e),
    {
        proof {
            use_type_invariant(&*self);
        }
        if self.data.len() - self.pos < 2 {
            return Err(McBytesErr::InsufficientBytes);
        }
        let high = self.data[self.pos] as u16;
        let low = self.data[self.pos + 1] as u16;
        self.pos = self.pos + 2;
        assert(self@ =~= old(self)@.skip(2));
        Ok(high * 256 + low)
    }

    /// Reads a 64-bit integer, most significant byte first.
    pub fn read_u64(&mut self) -> (r: Result<u64, McBytesErr>)
        ensures
            match r {
                Ok(v) => old(self)@.len() >= 8 && be_u64(v) == old(self)@.take(8) && final(self)@
                    == old(self)@.skip(8),
                Err(e) => old(self)@.len() < 8 && e == McBytesErr::InsufficientBytes
                    && final(self)@ == old(self)@,
            },
            r matches Ok(v) ==> spec_read_u64(old(self)@) == Ok::<_, McBytesErr>((v, final(self)@)),
            r matches Err(e) ==> spec_read_u64(old(self)@) == Err::<(u64, Seq<u8>), _>(e),
    {
        proof {
            use_type_invariant(&*self);
        }
        if self.data.len() - self.pos < 8 {
            return Err(McBytesErr::InsufficientBytes);
        }
        let p = self.pos;
        let (b0, b1, b2, b3) = (
            self.data[p] as u64,
            self.data[p + 1] as u64,
            self.data[p + 2] as u64,
            self.data[p + 3] as u64,
        );
        let (b4, b5, b6, b7) = (
            self.data[p + 4] as u64,
            self.data[p + 5] as u64,
            self.data[p + 6] as u64,
            self.data[p + 7] as u64,
        );
        let v: u64 = (b0 << 56u64) | (b1 << 48u64) | (b2 << 40u64) | (b3 << 32u64) | (b4 << 24u64)
            | (b5 << 16u64) | (b6 << 8u64) | b7;
        assert((v >> 56u64) as u8 == b0 && (v >> 48u64) as u8 == b1 && (v >> 40u64) as u8 == b2
            && (v >> 32u64) as u8 == b3 && (v >> 24u64) as u8 == b4 && (v >> 16u64) as u8 == b5
            && (v >> 8u64) as u8 == b6 && v as u8 == b7) by (bit_vector)
            requires
                b0 < 256 && b1 < 256 && b2 < 256 && b3 < 256,
                b4 < 256 && b5 < 256 && b6 < 256 && b7 < 256,
                v == (b0 << 56u64) | (b1 << 48u64) | (b2 << 40u64) | (b3 << 32u64) | (b4 << 24u64)
                    | (b5 << 16u64) | (b6 << 8u64) | b7,
        ;
        self.pos = p + 8;
        assert(be_u64(v) =~= old(self)@.take(8));
        assert(self@ =~= old(self)@.skip(8));
        Ok(v)
    }

    /// Reads `n` raw bytes; a negative `n` reads none.
    pub fn read_bytes(&mut self, n: i32) -> (r: Result<Vec<u8>, McBytesErr>)
        ensures
            match r {
                Ok(b) => field_len(n) <= old(self)@.len() && b@ == old(self)@.take(
                    field_len(n) as int,
                ) && final(self)@ == old(self)@.skip(field_len(n) as int),
                Err(e) => field_len(n) > old(self)@.len() && e == McBytesErr::InsufficientBytes
                    && final(self)@ == old(self)@,
            },
    {
        proof {
            use_type_invariant(&*self);
        }
        let count: usize = if n < 0 {
            0
        } else {
            n as usize
        };
        if self.data.len() - self.pos < count {
            return Err(McBytesErr::InsufficientBytes);
        }
        let p = self.pos;
        let mut result: Vec<u8> = Vec::new();
        let mut i: usize = 0;
        while i < count
            invariant
                i <= count,
                p + count <= self.data.len(),
                self.pos == p,
                self.data == old(self).data,
                result@ == self.data@.subrange(p as int, p + i),
            decreases count - i,
        {
            result.push(self.data[p + i]);
            assert(result@ =~= self.data@.subrange(p as int, p + i + 1));
            i = i + 1;
        }
        self.pos = p + count;
        assert(result@ =~= old(self)@.take(count as int));
        assert(self@ =~= old(self)@.skip(count as int));
        Ok(result)
    }

    /// Reads a string: a VarInt byte length, then that many bytes, decoded as
    /// UTF-8 with invalid sequences replaced.
    pub fn read_string(&mut self) -> (r: Result<String, McBytesErr>)
        ensures
            r matches Ok(v) ==> spec_read_string(old(self)@) == Ok::<_, McBytesErr>((v@, final(self)@)),
            r matches Err(e) ==> spec_read_string(old(self)@) == Err::<(Seq<char>, Seq<u8>), _>(e),
    {
        let length = self.read_varint()?;
        let bytes = self.read_bytes(length)?;
        Ok(lossy_string(bytes.as_slice()))
    }
}

} // verus!
