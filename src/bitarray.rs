//! A dense array of fixed-width unsigned values packed into 64-bit words.
//! Value `i` occupies bits `i * b .. i * b + b` of the words read as one
//! little-endian bit string, so a value may straddle two adjacent words.

use vstd::prelude::*;

verus! {

/// The mask of the low `b` bits of a word, for `b <= 64`.
pub open spec fn mask_of(b: u64) -> u64 {
    if b >= 64 {
        0xffff_ffff_ffff_ffff
    } else {
        ((1u64 << b) - 1) as u64
    }
}

/// The value of width `b` stored at index `i` of `words`.
pub open spec fn value_at(words: Seq<u64>, b: nat, i: nat) -> u64 {
    let bit = i * b;
    let k = (bit / 64) as int;
    let off = (bit % 64) as u64;
    if off + b <= 64 {
        (words[k] >> off) & mask_of(b as u64)
    } else {
        ((words[k] >> off) | (words[k + 1] << (64 - off) as u64)) & mask_of(b as u64)
    }
}

/// The first word written when `v` is stored at bit `off` of word `w`.
pub open spec fn write_low(w: u64, m: u64, off: u64, v: u64) -> u64 {
    (w & !(m << off)) | ((v & m) << off)
}

/// The next word written when a value `v` stored at bit `off` with width `b`
/// runs past the end of the previous word.
pub open spec fn write_high(w: u64, b: u64, off: u64, v: u64) -> u64 {
    (w & !mask_of((off + b - 64) as u64)) | (v >> (64 - off) as u64)
}

/// The words after value `v` of width `b` is stored at index `i`.
pub open spec fn words_after_set(words: Seq<u64>, b: nat, i: nat, v: u64) -> Seq<u64> {
    let bit = i * b;
    let k = (bit / 64) as int;
    let off = (bit % 64) as u64;
    let first = write_low(words[k], mask_of(b as u64), off, v);
    if off + b <= 64 {
        words.update(k, first)
    } else {
        words.update(k, first).update(k + 1, write_high(words[k + 1], b as u64, off, v))
    }
}

/// The values of `capacity` entries of width `b` held in `words`.
pub open spec fn values_of(words: Seq<u64>, b: nat, capacity: nat) -> Seq<u64> {
    Seq::new(capacity, |i: int| value_at(words, b, i as nat))
}

/// Widths and word counts for which every index below `capacity` lies within
/// `words`.
pub open spec fn layout_ok(len: nat, b: nat, capacity: nat) -> bool {
    1 <= b <= 64 && capacity * b <= 64 * len
}

proof fn lemma_mask(b: u64)
    requires
        1 <= b <= 64,
    ensures
        mask_of(b) >= 1,
        b < 64 ==> mask_of(b) == (1u64 << b) - 1,
        b < 64 ==> (1u64 << b) >= 1,
{
    assert(b < 64 ==> (1u64 << b) >= 1) by (bit_vector)
        requires
            b <= 64,
    ;
    assert(mask_of(b) >= 1) by (bit_vector)
        requires
            1 <= b <= 64,
    ;
}

proof fn lemma_low_same(w: u64, b: u64, off: u64, v: u64)
    requires
        1 <= b <= 64,
        off + b <= 64,
        v <= mask_of(b),
    ensures
        (write_low(w, mask_of(b), off, v) >> off) & mask_of(b) == v,
{
    assert((write_low(w, mask_of(b), off, v) >> off) & mask_of(b) == v) by (bit_vector)
        requires
            1 <= b <= 64,
            off + b <= 64,
            v <= mask_of(b),
    ;
}

proof fn lemma_straddle_same(w0: u64, w1: u64, b: u64, off: u64, v: u64)
    requires
        1 <= b <= 64,
        off < 64,
        off + b > 64,
        v <= mask_of(b),
    ensures
        ((write_low(w0, mask_of(b), off, v) >> off) | (write_high(w1, b, off, v) << (64
            - off) as u64)) & mask_of(b) == v,
{
    assert(((write_low(w0, mask_of(b), off, v) >> off) | (write_high(w1, b, off, v) << (64
        - off) as u64)) & mask_of(b) == v) by (bit_vector)
        requires
            1 <= b <= 64,
            off < 64,
            off + b > 64,
            v <= mask_of(b),
    ;
}

proof fn lemma_low_other_single(w: u64, b: u64, off_i: u64, v: u64, off_j: u64)
    requires
        1 <= b <= 64,
        off_i < 64,
        off_j + b <= 64,
        off_j + b <= off_i || off_i + b <= off_j,
    ensures
        (write_low(w, mask_of(b), off_i, v) >> off_j) & mask_of(b) == (w >> off_j) & mask_of(b),
{
    assert((write_low(w, mask_of(b), off_i, v) >> off_j) & mask_of(b) == (w >> off_j) & mask_of(
        b,
    )) by (bit_vector)
        requires
            1 <= b <= 64,
            off_i < 64,
            off_j + b <= 64,
            off_j + b <= off_i || off_i + b <= off_j,
    ;
}

proof fn lemma_low_other_top(w: u64, b: u64, off_i: u64, v: u64, off_j: u64)
    requires
        1 <= b <= 64,
        off_j < 64,
        off_i + b <= off_j,
    ensures
        write_low(w, mask_of(b), off_i, v) >> off_j == w >> off_j,
{
    assert(write_low(w, mask_of(b), off_i, v) >> off_j == w >> off_j) by (bit_vector)
        requires
            1 <= b <= 64,
            off_j < 64,
            off_i + b <= off_j,
    ;
}

proof fn lemma_low_other_bottom(w: u64, b: u64, off_i: u64, v: u64, off_j: u64)
    requires
        1 <= b <= 64,
        off_i < 64,
        off_j < 64,
        off_j + b > 64,
        off_j + b - 64 <= off_i,
    ensures
        (write_low(w, mask_of(b), off_i, v) << (64 - off_j) as u64) & mask_of(b) == (w << (64
            - off_j) as u64) & mask_of(b),
{
    assert((write_low(w, mask_of(b), off_i, v) << (64 - off_j) as u64) & mask_of(b) == (w << (64
        - off_j) as u64) & mask_of(b)) by (bit_vector)
        requires
            1 <= b <= 64,
            off_i < 64,
            off_j < 64,
            off_j + b > 64,
            off_j + b - 64 <= off_i,
    ;
}

proof fn lemma_high_other_single(w: u64, b: u64, off_i: u64, v: u64, off_j: u64)
    requires
        1 <= b <= 64,
        off_i < 64,
        off_i + b > 64,
        v <= mask_of(b),
        off_i + b - 64 <= off_j,
        off_j + b <= 64,
    ensures
        (write_high(w, b, off_i, v) >> off_j) & mask_of(b) == (w >> off_j) & mask_of(b),
{
    assert((write_high(w, b, off_i, v) >> off_j) & mask_of(b) == (w >> off_j) & mask_of(b))
        by (bit_vector)
        requires
            1 <= b <= 64,
            off_i < 64,
            off_i + b > 64,
            v <= mask_of(b),
            off_i + b - 64 <= off_j,
            off_j + b <= 64,
    ;
}

proof fn lemma_high_other_top(w: u64, b: u64, off_i: u64, v: u64, off_j: u64)
    requires
        1 <= b <= 64,
        off_i < 64,
        off_i + b > 64,
        v <= mask_of(b),
        off_i + b - 64 <= off_j,
        off_j < 64,
    ensures
        write_high(w, b, off_i, v) >> off_j == w >> off_j,
{
    assert(write_high(w, b, off_i, v) >> off_j == w >> off_j) by (bit_vector)
        requires
            1 <= b <= 64,
            off_i < 64,
            off_i + b > 64,
            v <= mask_of(b),
            off_i + b - 64 <= off_j,
            off_j < 64,
    ;
}

/// Storing `v` at index `i` and then reading index `i` gives `v` back, also
/// where the value straddles two words.
pub proof fn lemma_set_then_get(words: Seq<u64>, b: nat, i: nat, v: u64)
    requires
        1 <= b <= 64,
        (i + 1) * b <= 64 * words.len(),
        v <= mask_of(b as u64),
    ensures
        value_at(words_after_set(words, b, i, v), b, i) == v,
{
    let bit = i * b;
    let k = (bit / 64) as int;
    let off = (bit % 64) as u64;
    assert(bit + b <= 64 * words.len()) by (nonlinear_arith)
        requires
            bit == i * b,
            (i + 1) * b <= 64 * words.len(),
    ;
    let nw = words_after_set(words, b, i, v);
    if off + b <= 64 {
        assert(nw[k] == write_low(words[k], mask_of(b as u64), off, v));
        lemma_low_same(words[k], b as u64, off, v);
    } else {
        assert(nw[k] == write_low(words[k], mask_of(b as u64), off, v));
        assert(nw[k + 1] == write_high(words[k + 1], b as u64, off, v));
        lemma_straddle_same(words[k], words[k + 1], b as u64, off, v);
    }
}

/// Storing a value at index `i` leaves the value at every other index as it
/// was.
pub proof fn lemma_set_keeps_others(words: Seq<u64>, b: nat, i: nat, j: nat, v: u64)
    requires
        1 <= b <= 64,
        (i + 1) * b <= 64 * words.len(),
        (j + 1) * b <= 64 * words.len(),
        i != j,
        v <= mask_of(b as u64),
    ensures
        value_at(words_after_set(words, b, i, v), b, j) == value_at(words, b, j),
{
    let ib = i * b;
    let jb = j * b;
    let ki = (ib / 64) as int;
    let kj = (jb / 64) as int;
    let oi = (ib % 64) as u64;
    let oj = (jb % 64) as u64;
    let m = mask_of(b as u64);
    assert(ib + b <= 64 * words.len()) by (nonlinear_arith)
        requires
            ib == i * b,
            (i + 1) * b <= 64 * words.len(),
    ;
    assert(jb + b <= 64 * words.len()) by (nonlinear_arith)
        requires
            jb == j * b,
            (j + 1) * b <= 64 * words.len(),
    ;
    assert(ib + b <= jb || jb + b <= ib) by (nonlinear_arith)
        requires
            ib == i * b,
            jb == j * b,
            i != j,
            b >= 1,
    ;
    assert(ib == 64 * ki + oi);
    assert(jb == 64 * kj + oj);
    let nw = words_after_set(words, b, i, v);
    let straddle_i = oi + b > 64;
    let straddle_j = oj + b > 64;
    assert(nw[ki] == write_low(words[ki], m, oi, v));
    assert(straddle_i ==> nw[ki + 1] == write_high(words[ki + 1], b as u64, oi, v));
    assert(forall|k: int| 0 <= k < words.len() && k != ki && !(straddle_i && k == ki + 1) ==> nw[k]
        == words[k]);
    assert(straddle_i ==> ki + 1 < words.len());
    assert(straddle_j ==> kj + 1 < words.len());
    if ib + b <= jb {
        if kj == ki {
            assert(!straddle_i);
            if straddle_j {
                lemma_low_other_top(words[ki], b as u64, oi, v, oj);
                assert(nw[kj + 1] == words[kj + 1]);
            } else {
                lemma_low_other_single(words[ki], b as u64, oi, v, oj);
            }
            assert(value_at(nw, b, j) == value_at(words, b, j));
        } else if kj == ki + 1 && straddle_i {
            if straddle_j {
                lemma_high_other_top(words[kj], b as u64, oi, v, oj);
                assert(nw[kj + 1] == words[kj + 1]);
            } else {
                lemma_high_other_single(words[kj], b as u64, oi, v, oj);
            }
            assert(value_at(nw, b, j) == value_at(words, b, j));
        } else {
            assert(kj > ki);
            assert(nw[kj] == words[kj]);
            assert(straddle_j ==> nw[kj + 1] == words[kj + 1]);
            assert(value_at(nw, b, j) == value_at(words, b, j));
        }
    } else {
        if kj == ki {
            lemma_low_other_single(words[ki], b as u64, oi, v, oj);
            assert(value_at(nw, b, j) == value_at(words, b, j));
        } else if ki == kj + 1 && straddle_j {
            lemma_low_other_bottom(words[ki], b as u64, oi, v, oj);
            assert(nw[kj] == words[kj]);
            let top = words[kj] >> oj;
            let sh = (64 - oj) as u64;
            let (x, y) = (nw[ki], words[ki]);
            assert((x << sh) & m == (y << sh) & m ==> (top | (x << sh)) & m == (top | (y << sh))
                & m) by (bit_vector);
            assert(value_at(nw, b, j) == value_at(words, b, j));
        } else {
            assert(nw[kj] == words[kj]);
            assert(straddle_j ==> nw[kj + 1] == words[kj + 1]);
            assert(value_at(nw, b, j) == value_at(words, b, j));
        }
    }
}

/// A fixed number of unsigned values of one width between 1 and 64 bits,
/// packed into 64-bit words.
pub struct BitArray {
    data: Vec<u64>,
    capacity: usize,
    bits_per_value: u8,
    value_mask: u64,
}

impl View for BitArray {
    type V = Seq<u64>;

    /// The stored values, one per index below the capacity.
    closed spec fn view(&self) -> Seq<u64> {
        values_of(self.data@, self.bits_per_value as nat, self.capacity as nat)
    }
}

impl BitArray {
    /// The backing words.
    pub closed spec fn words(&self) -> Seq<u64> {
        self.data@
    }

    /// The width of each value in bits.
    pub closed spec fn bits(&self) -> nat {
        self.bits_per_value as nat
    }

    /// The number of values.
    pub closed spec fn cap(&self) -> nat {
        self.capacity as nat
    }

    /// The width lies in `1..=64`, the words hold every index, indices fit in
    /// `usize` arithmetic, and the mask matches the width.
    pub closed spec fn wf(&self) -> bool {
        &&& layout_ok(self.data@.len(), self.bits_per_value as nat, self.capacity as nat)
        &&& self.capacity * self.bits_per_value <= usize::MAX
        &&& self.value_mask == mask_of(self.bits_per_value as u64)
    }

    /// The view holds, at each index, the value that the words store there.
    pub proof fn lemma_view_values(&self)
        ensures
            self@ == values_of(self.words(), self.bits(), self.cap()),
            self@.len() == self.cap(),
    {
    }

    /// Makes an array of `capacity` values of `bits_per_value` bits, all zero,
    /// backed by `ceil(capacity * bits_per_value / 64)` words.
    pub fn new(bits_per_value: u8, capacity: usize) -> (r: BitArray)
        requires
            1 <= bits_per_value <= 64,
            capacity * bits_per_value <= usize::MAX,
        ensures
            r.wf(),
            r.bits() == bits_per_value,
            r.cap() == capacity,
            r.words().len() == (capacity * bits_per_value + 63) / 64,
            forall|k: int| 0 <= k < r.words().len() ==> r.words()[k] == 0,
            r@ == Seq::new(capacity as nat, |i: int| 0u64),
    {
        let total: usize = capacity * (bits_per_value as usize);
        let len: usize = if total % 64 == 0 {
            total / 64
        } else {
            total / 64 + 1
        };
        let mut data: Vec<u64> = Vec::new();
        while data.len() < len
            invariant
                data@.len() <= len,
                forall|k: int| 0 <= k < data@.len() ==> data@[k] == 0,
            decreases len - data@.len(),
        {
            data.push(0);
        }
        let value_mask = Self::mask_for(bits_per_value);
        let r = BitArray { data, capacity, bits_per_value, value_mask };
        assert(r.wf());
        assert forall|i: int| 0 <= i < capacity implies #[trigger] r@[i] == 0u64 by {
            lemma_index_in_words(len as nat, bits_per_value as nat, capacity as nat, i as nat);
            lemma_value_of_zero_words(r.data@, bits_per_value as nat, i as nat);
        }
        assert(r@ =~= Seq::new(capacity as nat, |i: int| 0u64));
        r
    }

    fn mask_for(bits_per_value: u8) -> (r: u64)
        requires
            1 <= bits_per_value <= 64,
        ensures
            r == mask_of(bits_per_value as u64),
    {
        proof {
            lemma_mask(bits_per_value as u64);
        }
        if bits_per_value == 64 {
            0xffff_ffff_ffff_ffff
        } else {
            (1u64 << bits_per_value) - 1
        }
    }

    /// Makes an array over the given words.
    pub fn from_raw(data: Vec<u64>, bits_per_value: u8, capacity: usize) -> (r: BitArray)
        requires
            1 <= bits_per_value <= 64,
            capacity * bits_per_value <= 64 * data@.len(),
            capacity * bits_per_value <= usize::MAX,
        ensures
            r.wf(),
            r.bits() == bits_per_value,
            r.cap() == capacity,
            r.words() == data@,
    {
        let value_mask = Self::mask_for(bits_per_value);
        BitArray { data, capacity, bits_per_value, value_mask }
    }

    /// The largest value that fits in one entry.
    pub fn highest_possible_value(&self) -> (r: u64)
        requires
            self.wf(),
        ensures
            r == mask_of(self.bits() as u64),
    {
        self.value_mask
    }

    /// The value at `index`.
    pub fn get(&self, index: usize) -> (r: u64)
        requires
            self.wf(),
            index < self.cap(),
        ensures
            r == self@[index as int],
    {
        let b: usize = self.bits_per_value as usize;
        proof {
            lemma_index_in_words(self.data@.len(), b as nat, self.capacity as nat, index as nat);
        }
        let bit_index: usize = index * b;
        let start: usize = bit_index / 64;
        let off: u64 = (bit_index % 64) as u64;
        let mut result: u64 = self.data[start] >> off;
        if off + (b as u64) > 64 {
            result = result | (self.data[start + 1] << (64 - off));
        }
        result & self.value_mask
    }

    /// Stores `val` at `index`; every other value stays as it was.
    pub fn set(&mut self, index: usize, val: u64)
        requires
            old(self).wf(),
            index < old(self).cap(),
            val <= mask_of(old(self).bits() as u64),
        ensures
            final(self).wf(),
            final(self).bits() == old(self).bits(),
            final(self).cap() == old(self).cap(),
            final(self)@ == old(self)@.update(index as int, val),
            final(self).words() == words_after_set(
                old(self).words(),
                old(self).bits(),
                index as nat,
                val,
            ),
    {
        let b: usize = self.bits_per_value as usize;
        proof {
            lemma_index_in_words(self.data@.len(), b as nat, self.capacity as nat, index as nat);
        }
        let ghost before = self.data@;
        let bit_index: usize = index * b;
        let start: usize = bit_index / 64;
        let off: u64 = (bit_index % 64) as u64;
        let mask = self.value_mask;
        let first: u64 = (self.data[start] & !(mask << off)) | ((val & mask) << off);
        self.data.set(start, first);
        if off + (b as u64) > 64 {
            let spill: u64 = off + (b as u64) - 64;
            let low_mask = Self::mask_for(spill as u8);
            let second: u64 = (self.data[start + 1] & !low_mask) | (val >> (64 - off));
            self.data.set(start + 1, second);
        }
        assert(self.data@ =~= words_after_set(before, b as nat, index as nat, val));
        proof {
            let cap = self.capacity as nat;
            assert forall|j: int| 0 <= j < cap implies #[trigger] self@[j] == old(self)@.update(
                index as int,
                val,
            )[j] by {
                lemma_index_in_words(before.len(), b as nat, cap, j as nat);
                if j == index {
                    lemma_set_then_get(before, b as nat, index as nat, val);
                } else {
                    lemma_set_keeps_others(before, b as nat, index as nat, j as nat, val);
                }
            }
            assert(self@ =~= old(self)@.update(index as int, val));
        }
    }

    /// The backing words.
    pub fn inner(&self) -> (r: &Vec<u64>)
        ensures
            r@ == self.words(),
    {
        &self.data
    }
}

/// Every index below the capacity has its bits inside the words, and its bit
/// position fits in `usize`.
proof fn lemma_index_in_words(len: nat, b: nat, capacity: nat, i: nat)
    requires
        layout_ok(len, b, capacity),
        capacity * b <= usize::MAX,
        i < capacity,
    ensures
        (i + 1) * b <= 64 * len,
        i * b + b <= 64 * len,
        i * b <= usize::MAX,
        (i * b) / 64 < len,
        (i * b) % 64 + b > 64 ==> (i * b) / 64 + 1 < len,
{
    assert((i + 1) * b <= capacity * b) by (nonlinear_arith)
        requires
            i < capacity,
    ;
    assert((i + 1) * b == i * b + b) by (nonlinear_arith);
    assert(i * b <= capacity * b) by (nonlinear_arith)
        requires
            i < capacity,
    ;
}

/// Words that are all zero hold the value zero at every index.
proof fn lemma_value_of_zero_words(words: Seq<u64>, b: nat, i: nat)
    requires
        1 <= b <= 64,
        (i + 1) * b <= 64 * words.len(),
        forall|k: int| 0 <= k < words.len() ==> words[k] == 0,
    ensures
        value_at(words, b, i) == 0,
{
    assert((i + 1) * b == i * b + b) by (nonlinear_arith);
    let off = ((i * b) % 64) as u64;
    let bb = b as u64;
    let z = 0u64;
    assert((z >> off) & mask_of(bb) == 0) by (bit_vector)
        requires
            z == 0,
    ;
    assert(((z >> off) | (z << (64 - off) as u64)) & mask_of(bb) == 0) by (bit_vector)
        requires
            z == 0,
            off < 64,
    ;
}

} // verus!
