use vstd::prelude::*;

verus! {

/// The low 32 bits of `value`.
pub open spec fn low32(value: nat) -> u32 {
    (value % 0x1_0000_0000) as u32
}

/// The low 32 bits of `value`.
pub fn low_bits(value: usize) -> (low: u32)
    ensures
        low == low32(value as nat),
{
    (value as u64 % 4294967296) as u32
}

/// The four bytes of `value`, least significant first.
#[verifier::opaque]
pub open spec fn u32_bytes(value: u32) -> Seq<u8> {
    seq![
        (value % 256) as u8,
        (value / 256 % 256) as u8,
        (value / 65536 % 256) as u8,
        (value / 16777216 % 256) as u8,
    ]
}

/// The eight bytes of `value`, least significant first: the low half,
/// then the high half.
#[verifier::opaque]
pub open spec fn u64_bytes(value: u64) -> Seq<u8> {
    u32_bytes((value % 4294967296) as u32) + u32_bytes((value / 4294967296) as u32)
}

/// The number whose little-endian bytes are the four at `at` in `data`.
#[verifier::opaque]
pub open spec fn u32_at(data: Seq<u8>, at: int) -> u32 {
    (data[at] as int + 256 * data[at + 1] + 65536 * data[at + 2] + 16777216 * data[at + 3]) as u32
}

/// The number whose little-endian bytes are the eight at `at` in `data`.
#[verifier::opaque]
pub open spec fn u64_at(data: Seq<u8>, at: int) -> u64 {
    (u32_at(data, at) + 4294967296 * u32_at(data, at + 4)) as u64
}

/// An encoded `u32` takes four bytes.
pub proof fn u32_bytes_len(value: u32)
    ensures
        u32_bytes(value).len() == 4,
{
    reveal(u32_bytes);
}

/// An encoded `u64` takes eight bytes.
pub proof fn u64_bytes_len(value: u64)
    ensures
        u64_bytes(value).len() == 8,
{
    reveal(u64_bytes);
    u32_bytes_len((value % 4294967296) as u32);
    u32_bytes_len((value / 4294967296) as u32);
}

/// Reading back four bytes that encode `value` gives `value`.
pub proof fn u32_round_trip(data: Seq<u8>, at: int, value: u32)
    requires
        0 <= at,
        at + 4 <= data.len(),
        data.subrange(at, at + 4) == u32_bytes(value),
    ensures
        u32_at(data, at) == value,
{
    reveal(u32_bytes);
    reveal(u32_at);
    let part = data.subrange(at, at + 4);
    assert(part[0] == data[at] && part[1] == data[at + 1] && part[2] == data[at + 2] && part[3]
        == data[at + 3]);
}

/// Reading back eight bytes that encode `value` gives `value`.
pub proof fn u64_round_trip(data: Seq<u8>, at: int, value: u64)
    requires
        0 <= at,
        at + 8 <= data.len(),
        data.subrange(at, at + 8) == u64_bytes(value),
    ensures
        u64_at(data, at) == value,
{
    reveal(u64_bytes);
    reveal(u64_at);
    let low = (value % 4294967296) as u32;
    let high = (value / 4294967296) as u32;
    u32_bytes_len(low);
    u32_bytes_len(high);
    let part = data.subrange(at, at + 8);
    assert(data.subrange(at, at + 4) =~= part.subrange(0, 4));
    assert(data.subrange(at + 4, at + 8) =~= part.subrange(4, 8));
    assert(part.subrange(0, 4) =~= u32_bytes(low));
    assert(part.subrange(4, 8) =~= u32_bytes(high));
    u32_round_trip(data, at, low);
    u32_round_trip(data, at + 4, high);
}

/// Decodes the little-endian `u32` that starts at byte `at`.
pub fn read_u32(data: &[u8], at: usize) -> (value: u32)
    requires
        at + 4 <= data.len(),
    ensures
        value == u32_at(data@, at as int),
{
    proof {
        reveal(u32_at);
    }
    let b0: u32 = data[at] as u32;
    let b1: u32 = data[at + 1] as u32;
    let b2: u32 = data[at + 2] as u32;
    let b3: u32 = data[at + 3] as u32;
    b0 + 256 * b1 + 65536 * b2 + 16777216 * b3
}

/// Decodes the little-endian `u64` that starts at byte `at`.
pub fn read_u64(data: &[u8], at: usize) -> (value: u64)
    requires
        at + 8 <= data.len(),
    ensures
        value == u64_at(data@, at as int),
{
    proof {
        reveal(u64_at);
    }
    let low: u64 = read_u32(data, at) as u64;
    let high: u64 = read_u32(data, at + 4) as u64;
    low + 4294967296 * high
}

/// Appends the little-endian bytes of `value`.
pub fn write_u32(out: &mut Vec<u8>, value: u32)
    ensures
        final(out)@ == old(out)@ + u32_bytes(value),
{
    proof {
        reveal(u32_bytes);
    }
    out.push((value % 256) as u8);
    out.push((value / 256 % 256) as u8);
    out.push((value / 65536 % 256) as u8);
    out.push((value / 16777216 % 256) as u8);
    assert(out@ =~= old(out)@ + u32_bytes(value));
}

/// Appends the little-endian bytes of `value`.
pub fn write_u64(out: &mut Vec<u8>, value: u64)
    ensures
        final(out)@ == old(out)@ + u64_bytes(value),
{
    proof {
        reveal(u64_bytes);
    }
    write_u32(out, (value % 4294967296) as u32);
    write_u32(out, (value / 4294967296) as u32);
    assert(out@ =~= old(out)@ + u64_bytes(value));
}

/// Appends `count` zero bytes.
pub fn write_zeros(out: &mut Vec<u8>, count: usize)
    ensures
        final(out)@ == old(out)@ + Seq::new(count as nat, |i: int| 0u8),
{
    let mut done: usize = 0;
    while done < count
        invariant
            done <= count,
            out@ == old(out)@ + Seq::new(done as nat, |i: int| 0u8),
        decreases count - done,
    {
        out.push(0);
        done = done + 1;
        assert(out@ =~= old(out)@ + Seq::new(done as nat, |i: int| 0u8));
    }
}

/// Appends a copy of `bytes`.
pub fn write_bytes(out: &mut Vec<u8>, bytes: &[u8])
    ensures
        final(out)@ == old(out)@ + bytes@,
{
    let mut done: usize = 0;
    while done < bytes.len()
        invariant
            done <= bytes@.len(),
            out@ == old(out)@ + bytes@.subrange(0, done as int),
        decreases bytes@.len() - done,
    {
        out.push(bytes[done]);
        done = done + 1;
        assert(out@ =~= old(out)@ + bytes@.subrange(0, done as int));
    }
    assert(bytes@.subrange(0, done as int) =~= bytes@);
}

/// The bit at `i` as a number, with 0 for every position outside `bits`.
pub open spec fn bit_value(bits: Seq<bool>, i: int) -> nat {
    if 0 <= i < bits.len() && bits[i] {
        1
    } else {
        0
    }
}

/// `value` halved `places` times, each time rounding down.
pub open spec fn shifted(value: nat, places: nat) -> nat
    decreases places,
{
    if places == 0 {
        value
    } else {
        shifted(value, (places - 1) as nat) / 2
    }
}

/// Whether the binary digit of `value` that counts `2^place` is set.
pub open spec fn value_bit(value: nat, place: nat) -> bool {
    shifted(value, place) % 2 == 1
}

/// The number of bytes that hold `bit_count` bits, eight to a byte.
pub open spec fn packed_len(bit_count: nat) -> nat {
    (bit_count + 7) / 8
}

/// Byte `k` of the packed form: bit `8k + j` counts `2^j`, and the positions
/// past the end of `bits` count nothing.
pub open spec fn packed_byte(bits: Seq<bool>, k: int) -> u8 {
    (bit_value(bits, 8 * k) + 2 * bit_value(bits, 8 * k + 1) + 4 * bit_value(bits, 8 * k + 2) + 8
        * bit_value(bits, 8 * k + 3) + 16 * bit_value(bits, 8 * k + 4) + 32 * bit_value(
        bits,
        8 * k + 5,
    ) + 64 * bit_value(bits, 8 * k + 6) + 128 * bit_value(bits, 8 * k + 7)) as u8
}

/// The bits packed into bytes, least significant bit first.
pub open spec fn packed(bits: Seq<bool>) -> Seq<u8> {
    Seq::new(packed_len(bits.len()), |k: int| packed_byte(bits, k))
}

/// Bit `i` of the bits packed in `data`.
pub open spec fn unpacked_bit(data: Seq<u8>, i: int) -> bool {
    value_bit(data[i / 8] as nat, (i % 8) as nat)
}

/// The first `bit_count` bits packed in `data`.
pub open spec fn unpacked(data: Seq<u8>, bit_count: nat) -> Seq<bool> {
    Seq::new(bit_count, |i: int| unpacked_bit(data, i))
}

/// The binary digits of a sum of weighted digits are those digits.
proof fn digits_of_sum(d0: nat, d1: nat, d2: nat, d3: nat, d4: nat, d5: nat, d6: nat, d7: nat)
    requires
        d0 <= 1 && d1 <= 1 && d2 <= 1 && d3 <= 1 && d4 <= 1 && d5 <= 1 && d6 <= 1 && d7 <= 1,
    ensures
        ({
            let sum = d0 + 2 * d1 + 4 * d2 + 8 * d3 + 16 * d4 + 32 * d5 + 64 * d6 + 128 * d7;
            &&& sum <= 255
            &&& value_bit(sum, 0) == (d0 == 1)
            &&& value_bit(sum, 1) == (d1 == 1)
            &&& value_bit(sum, 2) == (d2 == 1)
            &&& value_bit(sum, 3) == (d3 == 1)
            &&& value_bit(sum, 4) == (d4 == 1)
            &&& value_bit(sum, 5) == (d5 == 1)
            &&& value_bit(sum, 6) == (d6 == 1)
            &&& value_bit(sum, 7) == (d7 == 1)
        }),
{
    let s0 = d0 + 2 * d1 + 4 * d2 + 8 * d3 + 16 * d4 + 32 * d5 + 64 * d6 + 128 * d7;
    let s1 = d1 + 2 * d2 + 4 * d3 + 8 * d4 + 16 * d5 + 32 * d6 + 64 * d7;
    let s2 = d2 + 2 * d3 + 4 * d4 + 8 * d5 + 16 * d6 + 32 * d7;
    let s3 = d3 + 2 * d4 + 4 * d5 + 8 * d6 + 16 * d7;
    let s4 = d4 + 2 * d5 + 4 * d6 + 8 * d7;
    let s5 = d5 + 2 * d6 + 4 * d7;
    let s6 = d6 + 2 * d7;
    assert(shifted(s0, 0) == s0);
    assert(shifted(s0, 1) == s1);
    assert(shifted(s0, 2) == s2);
    assert(shifted(s0, 3) == s3);
    assert(shifted(s0, 4) == s4);
    assert(shifted(s0, 5) == s5);
    assert(shifted(s0, 6) == s6);
    assert(shifted(s0, 7) == d7);
}

/// Each bit of a packed byte is the bit it was packed from.
pub proof fn packed_byte_bits(bits: Seq<bool>, k: int, j: int)
    requires
        0 <= j < 8,
    ensures
        value_bit(packed_byte(bits, k) as nat, j as nat) == (bit_value(bits, 8 * k + j) == 1),
{
    digits_of_sum(
        bit_value(bits, 8 * k),
        bit_value(bits, 8 * k + 1),
        bit_value(bits, 8 * k + 2),
        bit_value(bits, 8 * k + 3),
        bit_value(bits, 8 * k + 4),
        bit_value(bits, 8 * k + 5),
        bit_value(bits, 8 * k + 6),
        bit_value(bits, 8 * k + 7),
    );
}

/// Unpacking what was packed gives the bits back, whatever follows the
/// packed bytes.
pub proof fn unpack_packed(bits: Seq<bool>, rest: Seq<u8>)
    ensures
        unpacked(packed(bits) + rest, bits.len()) == bits,
{
    let data = packed(bits) + rest;
    assert forall|i: int| 0 <= i < bits.len() implies unpacked_bit(data, i) == bits[i] by {
        let k = i / 8;
        let j = i % 8;
        assert(data[k] == packed_byte(bits, k));
        packed_byte_bits(bits, k, j);
    }
    assert(unpacked(data, bits.len()) =~= bits);
}

/// Whether the binary digit of `byte` that counts `2^place` is set.
pub fn byte_bit(byte: u8, place: usize) -> (bit: bool)
    ensures
        bit == value_bit(byte as nat, place as nat),
{
    let mut rest: u8 = byte;
    let mut done: usize = 0;
    while done < place
        invariant
            done <= place,
            rest == shifted(byte as nat, done as nat),
        decreases place - done,
    {
        rest = rest / 2;
        done = done + 1;
    }
    rest % 2 == 1
}

} // verus!
