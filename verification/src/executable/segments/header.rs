use super::flags::{flags_round_trip, SegmentFlags};
use crate::codec::{
    packed_len, read_u64, u64_at, u64_bytes, u64_bytes_len, u64_round_trip, write_u64,
};
use crate::serializable::{Serializable, SerializationError};
use vstd::prelude::*;

verus! {

/// What a segment of an executable holds.
#[derive(Debug, Clone, Copy, PartialEq, Eq, Structural)]
pub enum SegmentType {
    Text,
    SymbolTable,
}

impl SegmentType {
    /// The tag byte that names this segment type.
    pub open spec fn spec_tag(self) -> u8 {
        match self {
            SegmentType::Text => 0,
            SegmentType::SymbolTable => 255,
        }
    }

    /// The segment type that a tag byte stands for, if any.
    pub open spec fn spec_from_tag(tag: u8) -> Result<SegmentType, SerializationError> {
        if tag == 0 {
            Ok(SegmentType::Text)
        } else if tag == 255 {
            Ok(SegmentType::SymbolTable)
        } else {
            Err(SerializationError::InvalidSegmentType(tag))
        }
    }
}

impl TryFrom<u8> for SegmentType {
    type Error = SerializationError;

    fn try_from(value: u8) -> (result: Result<Self, SerializationError>) {
        match value {
            0 => Ok(SegmentType::Text),
            255 => Ok(SegmentType::SymbolTable),
            v => Err(SerializationError::InvalidSegmentType(v)),
        }
    }
}

impl vstd::std_specs::convert::TryFromSpecImpl<u8> for SegmentType {
    open spec fn obeys_try_from_spec() -> bool {
        true
    }

    open spec fn try_from_spec(value: u8) -> Result<Self, SerializationError> {
        SegmentType::spec_from_tag(value)
    }
}

impl From<SegmentType> for u8 {
    fn from(value: SegmentType) -> (tag: u8) {
        match value {
            SegmentType::Text => 0,
            SegmentType::SymbolTable => 255,
        }
    }
}

impl vstd::std_specs::convert::FromSpecImpl<SegmentType> for u8 {
    open spec fn obeys_from_spec() -> bool {
        true
    }

    open spec fn from_spec(value: SegmentType) -> u8 {
        value.spec_tag()
    }
}

/// The fixed-size frame that describes one payload of an executable.
///
/// For a loadable segment the first two fields give its place in the address
/// space, in text-bytes, and `disk_bit_count` the number of bits in its
/// payload. For the special segment that carries the symbol table,
/// `address_space_size` is the number of entries and `disk_bit_count` the
/// number of bytes in the payload.
#[derive(Debug, Clone, Copy, PartialEq, Eq, Structural)]
pub struct SegmentHeader {
    pub address_space_start: u64,
    pub address_space_size: u64,
    pub disk_bit_count: usize,
    pub flags: SegmentFlags,
}

impl SegmentHeader {
    /// What the segment holds: the symbol table when the special flag is
    /// set, text otherwise.
    pub open spec fn spec_segment_type(self) -> SegmentType {
        if self.flags.special {
            SegmentType::SymbolTable
        } else {
            SegmentType::Text
        }
    }

    /// The length in bytes of the payload that the header frames.
    pub open spec fn spec_segment_size(self) -> nat {
        if self.flags.special {
            self.disk_bit_count as nat
        } else {
            packed_len(self.disk_bit_count as nat)
        }
    }

    /// The 25 bytes of the header: three numbers of eight bytes each, then
    /// the flags.
    pub open spec fn spec_wire(self) -> Seq<u8> {
        u64_bytes(self.address_space_start) + u64_bytes(self.address_space_size) + u64_bytes(
            self.disk_bit_count as u64,
        ) + seq![self.flags.spec_byte()]
    }

    /// What decoding makes of `data`: too short below 25 bytes, else three
    /// numbers and the flags.
    pub open spec fn parse(data: Seq<u8>) -> Result<(usize, SegmentHeader), SerializationError> {
        if data.len() < 25 {
            Err(SerializationError::DataTooShort)
        } else {
            Ok(
                (
                    25,
                    SegmentHeader {
                        address_space_start: u64_at(data, 0),
                        address_space_size: u64_at(data, 8),
                        disk_bit_count: u64_at(data, 16) as usize,
                        flags: SegmentFlags::spec_from_byte(data[24]),
                    },
                ),
            )
        }
    }

    /// What the segment holds.
    pub fn segment_type(&self) -> (kind: SegmentType)
        ensures
            kind == self.spec_segment_type(),
    {
        if self.flags.special {
            SegmentType::SymbolTable
        } else {
            SegmentType::Text
        }
    }

    /// The length in bytes of the payload that the header frames.
    pub fn segment_size(&self) -> (size: usize)
        ensures
            size == self.spec_segment_size(),
    {
        if self.flags.special {
            self.disk_bit_count
        } else {
            self.disk_bit_count / 8 + if self.disk_bit_count % 8 != 0 { 1 } else { 0 }
        }
    }
}

impl Serializable for SegmentHeader {
    open spec fn wire(&self) -> Seq<u8> {
        self.spec_wire()
    }

    open spec fn decoded(data: Seq<u8>, result: Result<(usize, Self), SerializationError>) -> bool {
        result == SegmentHeader::parse(data)
    }

    fn serialize(&self) -> (out: Vec<u8>) {
        let mut out: Vec<u8> = Vec::with_capacity(25);
        write_u64(&mut out, self.address_space_start);
        write_u64(&mut out, self.address_space_size);
        write_u64(&mut out, self.disk_bit_count as u64);
        out.push(self.flags.to_byte());
        assert(out@ =~= self.wire());
        out
    }

    fn deserialize(data: &[u8]) -> (result: Result<(usize, Self), SerializationError>) {
        if data.len() < 25 {
            return Err(SerializationError::DataTooShort);
        }
        let address_space_start = read_u64(data, 0);
        let address_space_size = read_u64(data, 8);
        let disk_bit_count = #[verifier::truncate] (read_u64(data, 16) as usize);
        let flags = SegmentFlags::from_byte(data[24]);
        Ok((25, SegmentHeader { address_space_start, address_space_size, disk_bit_count, flags }))
    }
}

/// A header's encoding is 25 bytes long, and decoding it gives the header
/// back, whatever bytes follow.
pub proof fn segment_header_round_trip(header: SegmentHeader, rest: Seq<u8>)
    ensures
        header.spec_wire().len() == 25,
        SegmentHeader::parse(header.spec_wire() + rest) == Ok::<
            (usize, SegmentHeader),
            SerializationError,
        >((25, header)),
{
    let data = header.spec_wire() + rest;
    u64_bytes_len(header.address_space_start);
    u64_bytes_len(header.address_space_size);
    u64_bytes_len(header.disk_bit_count as u64);
    assert(data.subrange(0, 8) =~= u64_bytes(header.address_space_start));
    assert(data.subrange(8, 16) =~= u64_bytes(header.address_space_size));
    assert(data.subrange(16, 24) =~= u64_bytes(header.disk_bit_count as u64));
    u64_round_trip(data, 0, header.address_space_start);
    u64_round_trip(data, 8, header.address_space_size);
    u64_round_trip(data, 16, header.disk_bit_count as u64);
    flags_round_trip(header.flags);
}

} // verus!
