use crate::codec::{bit_value, byte_bit, packed, packed_byte, packed_len, unpacked};
use bitvec::vec::BitVec;
use vstd::prelude::*;

verus! {

/// A growable sequence of bits, indexed from 0.
///
/// The bits live in a `bitvec::vec::BitVec`; the verifier sees the buffer
/// only through its view, the sequence of bits it holds.
#[verifier::external_body]
#[derive(Debug)]
pub struct BitBuffer {
    bits: BitVec,
}

/// The bits that a buffer holds, in order.
pub uninterp spec fn bits_of(buffer: BitBuffer) -> Seq<bool>;

impl View for BitBuffer {
    type V = Seq<bool>;

    open spec fn view(&self) -> Seq<bool> {
        bits_of(*self)
    }
}

/// Calls `BitVec::new`, which makes a vector without any bit.
#[verifier::external_body]
fn raw_new() -> (buffer: BitBuffer)
    ensures
        bits_of(buffer) == Seq::<bool>::empty(),
{
    BitBuffer { bits: BitVec::new() }
}

/// Calls `BitVec::len`, the number of bits in the vector.
#[verifier::external_body]
fn raw_len(buffer: &BitBuffer) -> (n: usize)
    ensures
        n == bits_of(*buffer).len(),
{
    buffer.bits.len()
}

/// Indexes the `BitVec`, which yields the bit at `i` and panics when `i`
/// is not below the length.
#[verifier::external_body]
fn raw_get(buffer: &BitBuffer, i: usize) -> (bit: bool)
    requires
        i < bits_of(*buffer).len(),
    ensures
        bit == bits_of(*buffer)[i as int],
{
    buffer.bits[i]
}

/// Calls `BitSlice::set`, which overwrites the bit at `i`, leaves the other
/// bits alone, and panics when `i` is not below the length.
#[verifier::external_body]
fn raw_set(buffer: &mut BitBuffer, i: usize, bit: bool)
    requires
        i < bits_of(*old(buffer)).len(),
    ensures
        bits_of(*final(buffer)) == bits_of(*old(buffer)).update(i as int, bit),
{
    buffer.bits.set(i, bit);
}

/// Calls `BitVec::push`, which appends one bit and panics when the new
/// length would exceed the largest length a `BitVec` can describe,
/// `usize::MAX >> 3`.
#[verifier::external_body]
fn raw_push(buffer: &mut BitBuffer, bit: bool)
    requires
        bits_of(*old(buffer)).len() < BitBuffer::spec_max_len(),
    ensures
        bits_of(*final(buffer)) == bits_of(*old(buffer)).push(bit),
{
    buffer.bits.push(bit);
}

/// Calls `BitVec::clone`, which copies the bits into a new vector.
#[verifier::external_body]
fn raw_clone(buffer: &BitBuffer) -> (copy: BitBuffer)
    ensures
        bits_of(copy) == bits_of(*buffer),
{
    BitBuffer { bits: buffer.bits.clone() }
}

impl BitBuffer {
    /// The largest number of bits a buffer can hold.
    pub open spec fn spec_max_len() -> nat {
        (usize::MAX / 8) as nat
    }

    /// The largest number of bits a buffer can hold.
    pub fn max_len() -> (n: usize)
        ensures
            n == Self::spec_max_len(),
    {
        usize::MAX / 8
    }

    /// An empty buffer.
    pub fn new() -> (buffer: Self)
        ensures
            buffer@ == Seq::<bool>::empty(),
    {
        raw_new()
    }

    /// The number of bits stored.
    pub fn len(&self) -> (n: usize)
        ensures
            n == self@.len(),
    {
        raw_len(self)
    }

    /// The bit at `i`, or `None` past the end.
    pub fn get(&self, i: usize) -> (bit: Option<bool>)
        ensures
            bit == if i < self@.len() { Some(self@[i as int]) } else { None },
    {
        if i < raw_len(self) {
            Some(raw_get(self, i))
        } else {
            None
        }
    }

    /// Overwrites the bit at `i`; past the end nothing is changed.
    pub fn set(&mut self, i: usize, bit: bool)
        ensures
            final(self)@ == if i < old(self)@.len() {
                old(self)@.update(i as int, bit)
            } else {
                old(self)@
            },
    {
        if i < raw_len(self) {
            raw_set(self, i, bit);
        }
    }

    /// Appends one bit to a buffer that is not full.
    pub fn push(&mut self, bit: bool)
        requires
            old(self)@.len() < Self::spec_max_len(),
        ensures
            final(self)@ == old(self)@.push(bit),
    {
        raw_push(self, bit);
    }

    /// Appends one bit unless the buffer is full, and says whether it did.
    pub fn try_push(&mut self, bit: bool) -> (pushed: bool)
        ensures
            pushed == (old(self)@.len() < Self::spec_max_len()),
            final(self)@ == if pushed {
                old(self)@.push(bit)
            } else {
                old(self)@
            },
    {
        if raw_len(self) < Self::max_len() {
            self.push(bit);
            true
        } else {
            false
        }
    }

    /// The bit `j` places after `start` as a number, 0 past the end.
    fn digit(&self, start: usize, j: usize) -> (d: u8)
        requires
            start <= self@.len(),
        ensures
            d == bit_value(self@, start + j),
            d <= 1,
    {
        let len = raw_len(self);
        if j < len - start && raw_get(self, start + j) {
            1
        } else {
            0
        }
    }

    /// Packs the bits into bytes, eight to a byte and least significant bit
    /// first; the last byte is filled up with zero bits.
    pub fn to_bytes(&self) -> (out: Vec<u8>)
        ensures
            out@ == packed(self@),
    {
        let len = raw_len(self);
        let count = len / 8 + if len % 8 != 0 { 1 } else { 0 };
        let mut out: Vec<u8> = Vec::new();
        let mut k: usize = 0;
        while k < count
            invariant
                len == self@.len(),
                count == packed_len(len as nat),
                k <= count,
                out@ == Seq::new(k as nat, |i: int| packed_byte(self@, i)),
            decreases count - k,
        {
            let start = 8 * k;
            let byte = self.digit(start, 0) + 2 * self.digit(start, 1) + 4 * self.digit(start, 2)
                + 8 * self.digit(start, 3) + 16 * self.digit(start, 4) + 32 * self.digit(start, 5)
                + 64 * self.digit(start, 6) + 128 * self.digit(start, 7);
            out.push(byte);
            k = k + 1;
            assert(out@ =~= Seq::new(k as nat, |i: int| packed_byte(self@, i)));
        }
        out
    }

    /// Unpacks the first `bit_count` bits of `data`, or gives `None` when
    /// `data` holds fewer bits or a buffer cannot hold that many.
    pub fn from_bytes(data: &[u8], bit_count: usize) -> (buffer: Option<Self>)
        ensures
            buffer is Some <==> bit_count <= Self::spec_max_len() && packed_len(bit_count as nat)
                <= data@.len(),
            buffer matches Some(b) ==> b@ == unpacked(data@, bit_count as nat),
    {
        let needed = bit_count / 8 + if bit_count % 8 != 0 { 1 } else { 0 };
        if bit_count > Self::max_len() || data.len() < needed {
            return None;
        }
        let mut buffer = raw_new();
        let mut i: usize = 0;
        while i < bit_count
            invariant
                i <= bit_count,
                bit_count <= Self::spec_max_len(),
                packed_len(bit_count as nat) <= data@.len(),
                buffer@ == unpacked(data@, i as nat),
            decreases bit_count - i,
        {
            let bit = byte_bit(data[i / 8], i % 8);
            raw_push(&mut buffer, bit);
            i = i + 1;
            assert(buffer@ =~= unpacked(data@, i as nat));
        }
        Some(buffer)
    }
}

impl Clone for BitBuffer {
    fn clone(&self) -> (copy: Self)
        ensures
            copy@ == self@,
    {
        raw_clone(self)
    }
}

} // verus!
