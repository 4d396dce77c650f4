use crate::codec::{read_u64, u64_at, u64_bytes, u64_bytes_len, u64_round_trip, write_u64};
use crate::serializable::{Architecture, Serializable, SerializationError};
use vstd::prelude::*;

verus! {

/// The frame that opens an object file: the architecture and the number of
/// section headers that follow.
#[derive(Debug, Clone, Copy, PartialEq, Eq, Structural)]
pub struct ObjectHeader {
    pub architecture: Architecture,
    pub section_count: u64,
}

impl ObjectHeader {
    /// The nine bytes of the header: the architecture's code, then the
    /// section count.
    pub open spec fn spec_wire(self) -> Seq<u8> {
        seq![self.architecture.spec_code()] + u64_bytes(self.section_count)
    }

    /// What decoding makes of `data`: too short below nine bytes, then the
    /// architecture byte is checked.
    pub open spec fn parse(data: Seq<u8>) -> Result<(usize, ObjectHeader), SerializationError> {
        if data.len() < 9 {
            Err(SerializationError::DataTooShort)
        } else {
            match Architecture::spec_from_code(data[0]) {
                Ok(architecture) => Ok(
                    (9, ObjectHeader { architecture, section_count: u64_at(data, 1) }),
                ),
                Err(e) => Err(e),
            }
        }
    }
}

impl Serializable for ObjectHeader {
    open spec fn wire(&self) -> Seq<u8> {
        self.spec_wire()
    }

    open spec fn decoded(data: Seq<u8>, result: Result<(usize, Self), SerializationError>) -> bool {
        result == ObjectHeader::parse(data)
    }

    fn serialize(&self) -> (out: Vec<u8>) {
        let mut out: Vec<u8> = Vec::new();
        out.push(self.architecture.code());
        write_u64(&mut out, self.section_count);
        out
    }

    fn deserialize(data: &[u8]) -> (result: Result<(usize, Self), SerializationError>) {
        if data.len() < 9 {
            return Err(SerializationError::DataTooShort);
        }
        let architecture = match Architecture::try_from(data[0]) {
            Ok(architecture) => architecture,
            Err(e) => {
                return Err(e);
            },
        };
        let section_count = read_u64(data, 1);
        Ok((9, ObjectHeader { architecture, section_count }))
    }
}

/// A header's encoding is nine bytes long, and decoding it gives the header
/// back, whatever bytes follow.
pub proof fn object_header_round_trip(header: ObjectHeader, rest: Seq<u8>)
    ensures
        header.spec_wire().len() == 9,
        ObjectHeader::parse(header.spec_wire() + rest) == Ok::<(usize, ObjectHeader), SerializationError>(
            (9, header),
        ),
{
    let data = header.spec_wire() + rest;
    u64_bytes_len(header.section_count);
    assert(data.subrange(1, 9) =~= u64_bytes(header.section_count));
    u64_round_trip(data, 1, header.section_count);
}

} // verus!
