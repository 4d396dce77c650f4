use crate::bit_buffer::BitBuffer;
use crate::codec::{bit_value, shifted, value_bit};
use vstd::prelude::*;

verus! {

/// An offset into a bit buffer or an address space, in bits.
#[derive(Debug, Clone, Copy, PartialEq, Eq, Structural)]
pub struct Address(pub usize);

impl Address {
    /// The address `distance` bits further on, held at the largest address
    /// when the sum would pass it.
    pub open spec fn spec_offset_by(self, distance: usize) -> Address {
        if self.0 + distance <= usize::MAX {
            Address((self.0 + distance) as usize)
        } else {
            Address(usize::MAX)
        }
    }

    /// The signed number of bits from `origin` to `self`, held within the
    /// range of `i64`.
    pub open spec fn spec_delta_from(self, origin: Address) -> i64 {
        let delta = self.0 - origin.0;
        if delta > i64::MAX {
            i64::MAX
        } else if delta < i64::MIN {
            i64::MIN
        } else {
            delta as i64
        }
    }
}

impl core::ops::Add<usize> for Address {
    type Output = Address;

    /// The address `rhs` bits further on; the sum stops at the largest
    /// address.
    fn add(self, rhs: usize) -> (sum: Address) {
        Address(self.0.saturating_add(rhs))
    }
}

impl vstd::std_specs::ops::AddSpecImpl<usize> for Address {
    open spec fn obeys_add_spec() -> bool {
        true
    }

    open spec fn add_req(self, rhs: usize) -> bool {
        true
    }

    open spec fn add_spec(self, rhs: usize) -> Address {
        self.spec_offset_by(rhs)
    }
}

impl core::ops::Sub<Address> for Address {
    type Output = i64;

    /// The signed number of bits from `rhs` to `self`; the difference stops
    /// at the ends of the range of `i64`.
    fn sub(self, rhs: Address) -> (delta: i64) {
        let wide: i128 = self.0 as i128 - rhs.0 as i128;
        if wide > i64::MAX as i128 {
            i64::MAX
        } else if wide < i64::MIN as i128 {
            i64::MIN
        } else {
            wide as i64
        }
    }
}

impl vstd::std_specs::ops::SubSpecImpl<Address> for Address {
    open spec fn obeys_sub_spec() -> bool {
        true
    }

    open spec fn sub_req(self, rhs: Address) -> bool {
        true
    }

    open spec fn sub_spec(self, rhs: Address) -> i64 {
        self.spec_delta_from(rhs)
    }
}

/// The number written by `count` bits from position `at` on, most
/// significant bit first; positions outside `bits` count as 0.
pub open spec fn msb_first(bits: Seq<bool>, at: int, count: nat) -> nat
    decreases count,
{
    if count == 0 {
        0
    } else {
        2 * msb_first(bits, at, (count - 1) as nat) + bit_value(bits, at + count - 1)
    }
}

/// The 16-bit value at bit offset `at`: the bit at `at` is the most
/// significant, and bits past the end read as 0.
pub open spec fn read16(bits: Seq<bool>, at: int) -> u16 {
    msb_first(bits, at, 16) as u16
}

/// The bits after `value` is written at bit offset `at`, most significant bit
/// first. Positions past the end are left out, and the length stays.
pub open spec fn write16(bits: Seq<bool>, at: int, value: u16) -> Seq<bool> {
    Seq::new(
        bits.len(),
        |k: int|
            if at <= k < at + 16 {
                value_bit(value as nat, (15 - (k - at)) as nat)
            } else {
                bits[k]
            },
    )
}

/// A number of `count` bits is below `2^count`; here for up to 16 bits.
proof fn msb_first_bound(bits: Seq<bool>, at: int, count: nat)
    requires
        count <= 16,
    ensures
        msb_first(bits, at, count) <= shifted(65535, (16 - count) as nat),
    decreases count,
{
    reveal_with_fuel(shifted, 17);
    if count > 0 {
        msb_first_bound(bits, at, (count - 1) as nat);
    }
}

/// After `value` is written over bits that all lie inside the buffer, the
/// leading `count` bits of the field spell the leading digits of `value`.
proof fn written_prefix(bits: Seq<bool>, at: int, value: u16, count: nat)
    requires
        0 <= at,
        at + 16 <= bits.len(),
        count <= 16,
    ensures
        msb_first(write16(bits, at, value), at, count) == shifted(
            value as nat,
            (16 - count) as nat,
        ),
    decreases count,
{
    if count == 0 {
        reveal_with_fuel(shifted, 17);
    } else {
        written_prefix(bits, at, value, (count - 1) as nat);
        let after = write16(bits, at, value);
        let k = at + count - 1;
        assert(after[k] == value_bit(value as nat, (16 - count) as nat));
        assert(shifted(value as nat, (17 - count) as nat) == shifted(
            value as nat,
            (16 - count) as nat,
        ) / 2);
    }
}

/// Reading a field that was just written gives the written value back,
/// whenever the whole field lies inside the buffer.
pub proof fn read_after_write(bits: Seq<bool>, at: int, value: u16)
    requires
        0 <= at,
        at + 16 <= bits.len(),
    ensures
        read16(write16(bits, at, value), at) == value,
{
    written_prefix(bits, at, value, 16);
}

/// A write changes no bit outside the sixteen positions of the field.
pub proof fn write_keeps_the_rest(bits: Seq<bool>, at: int, value: u16, k: int)
    requires
        0 <= k < bits.len(),
        k < at || k >= at + 16,
    ensures
        write16(bits, at, value).len() == bits.len(),
        write16(bits, at, value)[k] == bits[k],
{
}

/// A store of values of type `T` that are read and written at a bit address.
pub trait AddressIndexable<T> {
    /// The value that is read at `index`.
    spec fn value_at(&self, index: Address) -> T;

    /// Whether `after` is this store once `value` is written at `index`.
    spec fn written(&self, index: Address, value: T, after: &Self) -> bool;

    /// Reads the value at `index`.
    fn index(&self, index: Address) -> (value: T)
        ensures
            value == self.value_at(index),
    ;

    /// Writes `value` at `index`.
    fn write(&mut self, index: Address, value: T)
        ensures
            old(self).written(index, value, final(self)),
    ;
}

/// A bit buffer holds 16-bit fields at any bit offset, most significant bit
/// first. A field that reaches past the end of the buffer reads as if zero
/// bits followed the buffer, and a write to it changes only the bits that
/// the buffer has.
impl AddressIndexable<u16> for BitBuffer {
    open spec fn value_at(&self, index: Address) -> u16 {
        read16(self@, index.0 as int)
    }

    open spec fn written(&self, index: Address, value: u16, after: &Self) -> bool {
        after@ == write16(self@, index.0 as int, value)
    }

    fn index(&self, index: Address) -> (value: u16) {
        let len = self.len();
        let mut value: u16 = 0;
        let mut i: usize = 0;
        while i < 16
            invariant
                i <= 16,
                len == self@.len(),
                value == msb_first(self@, index.0 as int, i as nat),
            decreases 16 - i,
        {
            proof {
                msb_first_bound(self@, index.0 as int, i as nat);
                reveal_with_fuel(shifted, 17);
            }
            let digit: u16 = if index.0 < len && i < len - index.0 {
                match self.get(index.0 + i) {
                    Some(true) => 1,
                    _ => 0,
                }
            } else {
                0
            };
            value = 2 * value + digit;
            i = i + 1;
        }
        value
    }

    fn write(&mut self, index: Address, value: u16) {
        let len = self.len();
        let mut rest: u16 = value;
        let mut i: usize = 0;
        while i < 16
            invariant
                i <= 16,
                len == self@.len(),
                len == old(self)@.len(),
                rest == shifted(value as nat, i as nat),
                forall|k: int|
                    0 <= k < len ==> #[trigger] self@[k] == if index.0 + 16 - i <= k < index.0
                        + 16 {
                        value_bit(value as nat, (15 - (k - index.0)) as nat)
                    } else {
                        old(self)@[k]
                    },
            decreases 16 - i,
        {
            if index.0 < len && 15 - i < len - index.0 {
                self.set(index.0 + (15 - i), rest % 2 == 1);
            }
            rest = rest / 2;
            i = i + 1;
        }
        assert(self@ =~= write16(old(self)@, index.0 as int, value));
    }
}

} // verus!
