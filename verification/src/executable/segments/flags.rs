use crate::codec::{shifted, value_bit};
use crate::serializable::{Serializable, SerializationError};
use vstd::prelude::*;

verus! {

/// What may be done with a segment once it is loaded, and whether it is the
/// special segment that carries the symbol table.
#[derive(Debug, Clone, Copy, PartialEq, Eq, Structural)]
pub struct SegmentFlags {
    pub executable: bool,
    pub writable: bool,
    pub readable: bool,
    pub special: bool,
}

impl SegmentFlags {
    /// The flags as one byte: executable counts 1, writable 2, readable 4 and
    /// special 8.
    pub open spec fn spec_byte(self) -> u8 {
        ((if self.executable { 1int } else { 0 }) + (if self.writable { 2int } else { 0 }) + (if self.readable {
            4int
        } else {
            0
        }) + (if self.special { 8int } else { 0 })) as u8
    }

    /// The flags that a byte stands for; its four high bits say nothing.
    pub open spec fn spec_from_byte(byte: u8) -> SegmentFlags {
        SegmentFlags {
            executable: value_bit(byte as nat, 0),
            writable: value_bit(byte as nat, 1),
            readable: value_bit(byte as nat, 2),
            special: value_bit(byte as nat, 3),
        }
    }

    /// What decoding makes of `data`: the flags in its first byte.
    pub open spec fn parse(data: Seq<u8>) -> Result<(usize, SegmentFlags), SerializationError> {
        if data.len() < 1 {
            Err(SerializationError::DataTooShort)
        } else {
            Ok((1, SegmentFlags::spec_from_byte(data[0])))
        }
    }

    /// The flags as one byte.
    pub fn to_byte(&self) -> (byte: u8)
        ensures
            byte == self.spec_byte(),
    {
        let mut byte: u8 = 0;
        if self.executable {
            byte = byte + 1;
        }
        if self.writable {
            byte = byte + 2;
        }
        if self.readable {
            byte = byte + 4;
        }
        if self.special {
            byte = byte + 8;
        }
        byte
    }

    /// The flags that a byte stands for.
    pub fn from_byte(byte: u8) -> (flags: Self)
        ensures
            flags == SegmentFlags::spec_from_byte(byte),
    {
        proof {
            reveal_with_fuel(shifted, 5);
        }
        SegmentFlags {
            executable: byte % 2 == 1,
            writable: (byte / 2) % 2 == 1,
            readable: (byte / 4) % 2 == 1,
            special: (byte / 8) % 2 == 1,
        }
    }
}

impl Serializable for SegmentFlags {
    open spec fn wire(&self) -> Seq<u8> {
        seq![self.spec_byte()]
    }

    open spec fn decoded(data: Seq<u8>, result: Result<(usize, Self), SerializationError>) -> bool {
        result == SegmentFlags::parse(data)
    }

    fn serialize(&self) -> (out: Vec<u8>) {
        let mut out: Vec<u8> = Vec::new();
        out.push(self.to_byte());
        assert(out@ =~= self.wire());
        out
    }

    fn deserialize(data: &[u8]) -> (result: Result<(usize, Self), SerializationError>) {
        if data.len() < 1 {
            return Err(SerializationError::DataTooShort);
        }
        Ok((1, SegmentFlags::from_byte(data[0])))
    }
}

/// Decoding the byte of some flags gives the flags back.
pub proof fn flags_round_trip(flags: SegmentFlags)
    ensures
        SegmentFlags::spec_from_byte(flags.spec_byte()) == flags,
{
    reveal_with_fuel(shifted, 5);
}

} // verus!
