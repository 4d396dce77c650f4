use vstd::prelude::*;

verus! {

/// Why a byte sequence could not be decoded.
#[derive(Debug, Clone, Copy, PartialEq, Eq, Structural)]
pub enum SerializationError {
    InvalidArchitecture(u8),
    InvalidSectionType(u8),
    InvalidSegmentType(u8),
    InvalidSymbolTableHeader,
    InvalidData,
    DataTooShort,
}

/// A value with a byte encoding that can be read back.
///
/// `wire` is the encoding and `decoded` relates a byte sequence to what
/// decoding makes of it; each implementation defines both.
pub trait Serializable: Sized {
    /// The bytes that stand for this value.
    spec fn wire(&self) -> Seq<u8>;

    /// Whether `result` is the outcome of decoding `data`.
    spec fn decoded(data: Seq<u8>, result: Result<(usize, Self), SerializationError>) -> bool;

    fn serialize(&self) -> (out: Vec<u8>)
        ensures
            out@ == self.wire(),
    ;

    fn deserialize(data: &[u8]) -> (result: Result<(usize, Self), SerializationError>)
        ensures
            Self::decoded(data@, result),
    ;
}

/// The instruction-set families a container can be built for.
#[derive(Debug, Clone, Copy, PartialEq, Eq, Structural)]
pub enum Architecture {
    Stack,
    Accumulator,
    Risc,
}

impl Architecture {
    /// The byte that stands for the architecture in a container header.
    pub open spec fn spec_code(self) -> u8 {
        match self {
            Architecture::Stack => 0,
            Architecture::Accumulator => 1,
            Architecture::Risc => 2,
        }
    }

    /// The architecture that a header byte stands for, if any.
    pub open spec fn spec_from_code(code: u8) -> Result<Architecture, SerializationError> {
        if code == 0 {
            Ok(Architecture::Stack)
        } else if code == 1 {
            Ok(Architecture::Accumulator)
        } else if code == 2 {
            Ok(Architecture::Risc)
        } else {
            Err(SerializationError::InvalidArchitecture(code))
        }
    }

    /// The width in bits of the smallest addressable instruction unit.
    pub open spec fn spec_text_byte_width(self) -> nat {
        match self {
            Architecture::Stack => 6,
            Architecture::Accumulator => 8,
            Architecture::Risc => 8,
        }
    }

    /// The byte that stands for the architecture in a container header.
    pub fn code(self) -> (code: u8)
        ensures
            code == self.spec_code(),
    {
        match self {
            Architecture::Stack => 0,
            Architecture::Accumulator => 1,
            Architecture::Risc => 2,
        }
    }

    /// The width in bits of the smallest addressable instruction unit.
    pub fn text_byte_width(self) -> (width: usize)
        ensures
            width == self.spec_text_byte_width(),
    {
        match self {
            Architecture::Stack => 6,
            Architecture::Accumulator => 8,
            Architecture::Risc => 8,
        }
    }
}

impl TryFrom<u8> for Architecture {
    type Error = SerializationError;

    fn try_from(value: u8) -> (result: Result<Self, SerializationError>)
    {
        if value == 0 {
            Ok(Architecture::Stack)
        } else if value == 1 {
            Ok(Architecture::Accumulator)
        } else if value == 2 {
            Ok(Architecture::Risc)
        } else {
            Err(SerializationError::InvalidArchitecture(value))
        }
    }
}

impl vstd::std_specs::convert::TryFromSpecImpl<u8> for Architecture {
    open spec fn obeys_try_from_spec() -> bool {
        true
    }

    open spec fn try_from_spec(value: u8) -> Result<Self, SerializationError> {
        Architecture::spec_from_code(value)
    }
}

/// A decoded architecture code turns back into the code it came from, and
/// every architecture's code decodes to it.
pub proof fn architecture_code_round_trip(architecture: Architecture, code: u8)
    ensures
        Architecture::spec_from_code(architecture.spec_code()) == Ok::<
            Architecture,
            SerializationError,
        >(architecture),
        Architecture::spec_from_code(code) matches Ok(a) ==> a.spec_code() == code,
{
}

} // verus!
