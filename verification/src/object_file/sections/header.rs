use crate::codec::{
    packed_len, read_u32, read_u64, u32_at, u32_bytes, u32_bytes_len, u32_round_trip, u64_at,
    u64_bytes, u64_bytes_len, u64_round_trip, write_u32, write_u64, write_zeros,
};
use crate::serializable::{Serializable, SerializationError};
use vstd::prelude::*;

verus! {

/// What a section of an object file holds.
#[derive(Debug, Clone, Copy, PartialEq, Eq, Structural)]
pub enum SectionType {
    Text,
    SymbolTable,
    RelocationTable,
}

impl SectionType {
    /// The tag byte that opens a section header of this type.
    pub open spec fn spec_tag(self) -> u8 {
        match self {
            SectionType::Text => 0,
            SectionType::SymbolTable => 255,
            SectionType::RelocationTable => 254,
        }
    }

    /// The section type that a tag byte stands for, if any.
    pub open spec fn spec_from_tag(tag: u8) -> Result<SectionType, SerializationError> {
        if tag == 0 {
            Ok(SectionType::Text)
        } else if tag == 255 {
            Ok(SectionType::SymbolTable)
        } else if tag == 254 {
            Ok(SectionType::RelocationTable)
        } else {
            Err(SerializationError::InvalidSectionType(tag))
        }
    }
}

impl TryFrom<u8> for SectionType {
    type Error = SerializationError;

    fn try_from(value: u8) -> (result: Result<Self, SerializationError>) {
        match value {
            0 => Ok(SectionType::Text),
            255 => Ok(SectionType::SymbolTable),
            254 => Ok(SectionType::RelocationTable),
            v => Err(SerializationError::InvalidSectionType(v)),
        }
    }
}

impl vstd::std_specs::convert::TryFromSpecImpl<u8> for SectionType {
    open spec fn obeys_try_from_spec() -> bool {
        true
    }

    open spec fn try_from_spec(value: u8) -> Result<Self, SerializationError> {
        SectionType::spec_from_tag(value)
    }
}

impl From<SectionType> for u8 {
    fn from(value: SectionType) -> (tag: u8) {
        match value {
            SectionType::Text => 0,
            SectionType::SymbolTable => 255,
            SectionType::RelocationTable => 254,
        }
    }
}

impl vstd::std_specs::convert::FromSpecImpl<SectionType> for u8 {
    open spec fn obeys_from_spec() -> bool {
        true
    }

    open spec fn from_spec(value: SectionType) -> u8 {
        value.spec_tag()
    }
}

/// The frame of a text section: the number of bits in its payload.
#[derive(Debug, Clone, Copy, PartialEq, Eq, Structural)]
pub struct TextSectionHeader {
    pub bit_length: usize,
}

/// The frame of a symbol table: how many entries it has and how many bytes
/// its names take.
#[derive(Debug, Clone, Copy, PartialEq, Eq, Structural)]
pub struct SymbolTableHeader {
    pub entry_count: u32,
    pub names_length: u32,
}

/// The frame of a relocation table: how many entries it has and how many
/// bytes its names take.
#[derive(Debug, Clone, Copy, PartialEq, Eq, Structural)]
pub struct RelocationTableHeader {
    pub entry_count: u32,
    pub names_length: u32,
}

/// The fixed-size frame that describes one payload of an object file.
#[derive(Debug, Clone, Copy, PartialEq, Eq, Structural)]
pub enum SectionHeader {
    Text(TextSectionHeader),
    SymbolTable(SymbolTableHeader),
    RelocationTable(RelocationTableHeader),
}

/// `count` zero bytes.
pub open spec fn zeros(count: nat) -> Seq<u8> {
    Seq::new(count, |i: int| 0u8)
}

impl SectionHeader {
    /// The length in bytes of the payload that the header frames.
    pub open spec fn spec_section_size(self) -> nat {
        match self {
            SectionHeader::Text(header) => packed_len(header.bit_length as nat),
            SectionHeader::SymbolTable(header) => (12 * header.entry_count + header.names_length) as nat,
            SectionHeader::RelocationTable(header) => (16 * header.entry_count
                + header.names_length) as nat,
        }
    }

    /// The sixteen bytes of the header: the tag byte, zero bytes up to the
    /// numbers, the numbers, and zero bytes up to the end.
    pub open spec fn spec_wire(self) -> Seq<u8> {
        match self {
            SectionHeader::Text(header) => seq![0u8] + zeros(7) + u64_bytes(header.bit_length as u64),
            SectionHeader::SymbolTable(header) => seq![255u8] + zeros(3) + u32_bytes(
                header.entry_count,
            ) + u32_bytes(header.names_length) + zeros(4),
            SectionHeader::RelocationTable(header) => seq![254u8] + zeros(3) + u32_bytes(
                header.entry_count,
            ) + u32_bytes(header.names_length) + zeros(4),
        }
    }

    /// What decoding makes of `data`: too short below sixteen bytes, then
    /// decided by the tag byte.
    pub open spec fn parse(data: Seq<u8>) -> Result<(usize, SectionHeader), SerializationError> {
        if data.len() < 16 {
            Err(SerializationError::DataTooShort)
        } else if data[0] == 0 {
            Ok((16, SectionHeader::Text(TextSectionHeader { bit_length: u64_at(data, 8) as usize })))
        } else if data[0] == 255 {
            Ok(
                (
                    16,
                    SectionHeader::SymbolTable(
                        SymbolTableHeader {
                            entry_count: u32_at(data, 4),
                            names_length: u32_at(data, 8),
                        },
                    ),
                ),
            )
        } else if data[0] == 254 {
            Ok(
                (
                    16,
                    SectionHeader::RelocationTable(
                        RelocationTableHeader {
                            entry_count: u32_at(data, 4),
                            names_length: u32_at(data, 8),
                        },
                    ),
                ),
            )
        } else {
            Err(SerializationError::InvalidSectionType(data[0]))
        }
    }

    /// The length in bytes of the payload that the header frames.
    pub fn section_size(&self) -> (size: u64)
        ensures
            size == self.spec_section_size(),
    {
        match self {
            SectionHeader::Text(header) => {
                let bits = header.bit_length as u64;
                bits / 8 + if bits % 8 != 0 { 1 } else { 0 }
            },
            SectionHeader::SymbolTable(header) => (header.entry_count as u64) * 12
                + header.names_length as u64,
            SectionHeader::RelocationTable(header) => (header.entry_count as u64) * 16
                + header.names_length as u64,
        }
    }
}

impl Serializable for SectionHeader {
    open spec fn wire(&self) -> Seq<u8> {
        self.spec_wire()
    }

    open spec fn decoded(data: Seq<u8>, result: Result<(usize, Self), SerializationError>) -> bool {
        result == SectionHeader::parse(data)
    }

    fn serialize(&self) -> (out: Vec<u8>) {
        let mut data: Vec<u8> = Vec::with_capacity(16);
        match self {
            SectionHeader::Text(header) => {
                data.push(u8::from(SectionType::Text));
                write_zeros(&mut data, 7);
                write_u64(&mut data, header.bit_length as u64);
            },
            SectionHeader::SymbolTable(header) => {
                data.push(u8::from(SectionType::SymbolTable));
                write_zeros(&mut data, 3);
                write_u32(&mut data, header.entry_count);
                write_u32(&mut data, header.names_length);
                write_zeros(&mut data, 4);
            },
            SectionHeader::RelocationTable(header) => {
                data.push(u8::from(SectionType::RelocationTable));
                write_zeros(&mut data, 3);
                write_u32(&mut data, header.entry_count);
                write_u32(&mut data, header.names_length);
                write_zeros(&mut data, 4);
            },
        }
        assert(data@ =~= self.wire());
        data
    }

    fn deserialize(data: &[u8]) -> (result: Result<(usize, Self), SerializationError>) {
        if data.len() < 16 {
            return Err(SerializationError::DataTooShort);
        }
        match data[0] {
            0 => {
                let bit_length = #[verifier::truncate] (read_u64(data, 8) as usize);
                Ok((16, SectionHeader::Text(TextSectionHeader { bit_length })))
            },
            255 => {
                let entry_count = read_u32(data, 4);
                let names_length = read_u32(data, 8);
                Ok((16, SectionHeader::SymbolTable(SymbolTableHeader { entry_count, names_length })))
            },
            254 => {
                let entry_count = read_u32(data, 4);
                let names_length = read_u32(data, 8);
                Ok(
                    (
                        16,
                        SectionHeader::RelocationTable(
                            RelocationTableHeader { entry_count, names_length },
                        ),
                    ),
                )
            },
            v => Err(SerializationError::InvalidSectionType(v)),
        }
    }
}

/// A header's encoding is sixteen bytes long, and decoding it gives the
/// header back, whatever bytes follow.
pub proof fn section_header_round_trip(header: SectionHeader, rest: Seq<u8>)
    ensures
        header.spec_wire().len() == 16,
        SectionHeader::parse(header.spec_wire() + rest) == Ok::<
            (usize, SectionHeader),
            SerializationError,
        >((16, header)),
{
    let data = header.spec_wire() + rest;
    match header {
        SectionHeader::Text(h) => {
            u64_bytes_len(h.bit_length as u64);
            assert(data.subrange(8, 16) =~= u64_bytes(h.bit_length as u64));
            u64_round_trip(data, 8, h.bit_length as u64);
        },
        SectionHeader::SymbolTable(h) => {
            u32_bytes_len(h.entry_count);
            u32_bytes_len(h.names_length);
            assert(data.subrange(4, 8) =~= u32_bytes(h.entry_count));
            assert(data.subrange(8, 12) =~= u32_bytes(h.names_length));
            u32_round_trip(data, 4, h.entry_count);
            u32_round_trip(data, 8, h.names_length);
        },
        SectionHeader::RelocationTable(h) => {
            u32_bytes_len(h.entry_count);
            u32_bytes_len(h.names_length);
            assert(data.subrange(4, 8) =~= u32_bytes(h.entry_count));
            assert(data.subrange(8, 12) =~= u32_bytes(h.names_length));
            u32_round_trip(data, 4, h.entry_count);
            u32_round_trip(data, 8, h.names_length);
        },
    }
}

} // verus!
