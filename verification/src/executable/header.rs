use crate::codec::{read_u64, u64_at, u64_bytes, u64_bytes_len, u64_round_trip, write_u64};
use crate::serializable::{Architecture, Serializable, SerializationError};
use vstd::prelude::*;

verus! {

/// The frame that opens an executable: the architecture, the number of
/// segment headers that follow, and the address at which execution starts,
/// in text-bytes.
#[derive(Debug, Clone, Copy, PartialEq, Eq, Structural)]
pub struct ExecutableHeader {
    pub architecture: Architecture,
    pub segment_count: u64,
    pub entry_point: u64,
}

impl ExecutableHeader {
    /// The 17 bytes of the header: the architecture's code, the segment
    /// count and the entry point.
    pub open spec fn spec_wire(self) -> Seq<u8> {
        seq![self.architecture.spec_code()] + u64_bytes(self.segment_count) + u64_bytes(
            self.entry_point,
        )
    }

    /// What decoding makes of `data`: too short below 17 bytes, then the
    /// architecture byte is checked.
    pub open spec fn parse(data: Seq<u8>) -> Result<(usize, ExecutableHeader), SerializationError> {
        if data.len() < 17 {
            Err(SerializationError::DataTooShort)
        } else {
            match Architecture::spec_from_code(data[0]) {
                Ok(architecture) => Ok(
                    (
                        17,
                        ExecutableHeader {
                            architecture,
                            segment_count: u64_at(data, 1),
                            entry_point: u64_at(data, 9),
                        },
                    ),
                ),
                Err(e) => Err(e),
            }
        }
    }

    /// A header for `segment_count` segments whose entry point is 0.
    pub fn new(architecture: Architecture, segment_count: u64) -> (header: Self)
        ensures
            header == (ExecutableHeader { architecture, segment_count, entry_point: 0 }),
    {
        ExecutableHeader { architecture, segment_count, entry_point: 0 }
    }
}

impl Serializable for ExecutableHeader {
    open spec fn wire(&self) -> Seq<u8> {
        self.spec_wire()
    }

    open spec fn decoded(data: Seq<u8>, result: Result<(usize, Self), SerializationError>) -> bool {
        result == ExecutableHeader::parse(data)
    }

    fn serialize(&self) -> (out: Vec<u8>) {
        let mut out: Vec<u8> = Vec::new();
        out.push(self.architecture.code());
        write_u64(&mut out, self.segment_count);
        write_u64(&mut out, self.entry_point);
        out
    }

    fn deserialize(data: &[u8]) -> (result: Result<(usize, Self), SerializationError>) {
        if data.len() < 17 {
            return Err(SerializationError::DataTooShort);
        }
        let architecture = match Architecture::try_from(data[0]) {
            Ok(architecture) => architecture,
            Err(e) => {
                return Err(e);
            },
        };
        let segment_count = read_u64(data, 1);
        let entry_point = read_u64(data, 9);
        Ok((17, ExecutableHeader { architecture, segment_count, entry_point }))
    }
}

/// A header's encoding is 17 bytes long, and decoding it gives the header
/// back, whatever bytes follow.
pub proof fn executable_header_round_trip(header: ExecutableHeader, rest: Seq<u8>)
    ensures
        header.spec_wire().len() == 17,
        ExecutableHeader::parse(header.spec_wire() + rest) == Ok::<
            (usize, ExecutableHeader),
            SerializationError,
        >((17, header)),
{
    let data = header.spec_wire() + rest;
    u64_bytes_len(header.segment_count);
    u64_bytes_len(header.entry_point);
    assert(data.subrange(1, 9) =~= u64_bytes(header.segment_count));
    assert(data.subrange(9, 17) =~= u64_bytes(header.entry_point));
    u64_round_trip(data, 1, header.segment_count);
    u64_round_trip(data, 9, header.entry_point);
}

} // verus!
