use super::flags::SegmentFlags;
use super::header::SegmentHeader;
use crate::bit_buffer::BitBuffer;
use crate::codec::{packed, packed_len, unpacked};
use crate::address::Address;
use crate::object_file::placed::named;
use crate::serializable::SerializationError;
use crate::symbols::{clone_symbols, symbol_views, Symbol, SymbolView};
use crate::strings::same_text;
use vstd::prelude::*;

verus! {

/// A loadable unit of an executable: where it goes in the address space, in
/// text-bytes, how many bits it holds on disk, what may be done with it, its
/// bits, and the symbols it defines.
#[derive(Debug)]
pub struct Segment {
    pub address_space_start: u64,
    pub address_space_size: u64,
    pub disk_bit_count: usize,
    pub flags: SegmentFlags,
    pub data: BitBuffer,
    pub symbols: Vec<Symbol>,
}

/// What a segment is.
pub ghost struct SegmentView {
    pub address_space_start: u64,
    pub address_space_size: u64,
    pub disk_bit_count: usize,
    pub flags: SegmentFlags,
    pub bits: Seq<bool>,
    pub symbols: Seq<SymbolView>,
}

impl View for Segment {
    type V = SegmentView;

    open spec fn view(&self) -> SegmentView {
        SegmentView {
            address_space_start: self.address_space_start,
            address_space_size: self.address_space_size,
            disk_bit_count: self.disk_bit_count,
            flags: self.flags,
            bits: self.data@,
            symbols: symbol_views(self.symbols@),
        }
    }
}

impl Clone for Segment {
    fn clone(&self) -> (copy: Self)
        ensures
            copy@ == self@,
    {
        Segment {
            address_space_start: self.address_space_start,
            address_space_size: self.address_space_size,
            disk_bit_count: self.disk_bit_count,
            flags: self.flags,
            data: self.data.clone(),
            symbols: clone_symbols(&self.symbols),
        }
    }
}

impl SegmentView {
    /// The header that frames the segment in an executable.
    pub open spec fn header(self) -> SegmentHeader {
        SegmentHeader {
            address_space_start: self.address_space_start,
            address_space_size: self.address_space_size,
            disk_bit_count: self.disk_bit_count,
            flags: self.flags,
        }
    }

    /// The payload of the segment in an executable: its bits packed into
    /// bytes.
    pub open spec fn payload(self) -> Seq<u8> {
        packed(self.bits)
    }

    /// What decoding makes of `data` under `header`, for a segment to which
    /// `symbols` belong: too short when bits are missing, invalid when no
    /// bit buffer can hold that many bits.
    pub open spec fn parse(header: SegmentHeader, data: Seq<u8>, symbols: Seq<SymbolView>) -> Result<
        (usize, SegmentView),
        SerializationError,
    > {
        if data.len() < packed_len(header.disk_bit_count as nat) {
            Err(SerializationError::DataTooShort)
        } else if header.disk_bit_count > BitBuffer::spec_max_len() {
            Err(SerializationError::InvalidData)
        } else {
            Ok(
                (
                    packed_len(header.disk_bit_count as nat) as usize,
                    SegmentView {
                        address_space_start: header.address_space_start,
                        address_space_size: header.address_space_size,
                        disk_bit_count: header.disk_bit_count,
                        flags: header.flags,
                        bits: unpacked(data, header.disk_bit_count as nat),
                        symbols,
                    },
                ),
            )
        }
    }
}

impl Segment {
    pub fn new(
        address_space_start: u64,
        address_space_size: u64,
        disk_bit_count: usize,
        flags: SegmentFlags,
        data: BitBuffer,
        symbols: Vec<Symbol>,
    ) -> (segment: Self)
        ensures
            segment@ == (SegmentView {
                address_space_start,
                address_space_size,
                disk_bit_count,
                flags,
                bits: data@,
                symbols: symbol_views(symbols@),
            }),
    {
        Segment { address_space_start, address_space_size, disk_bit_count, flags, data, symbols }
    }

    /// The header and the payload of the segment.
    pub fn serialize(&self) -> (framed: (SegmentHeader, Vec<u8>))
        ensures
            framed.0 == self@.header(),
            framed.1@ == self@.payload(),
    {
        let bytes = self.data.to_bytes();
        (
            SegmentHeader {
                address_space_start: self.address_space_start,
                address_space_size: self.address_space_size,
                disk_bit_count: self.disk_bit_count,
                flags: self.flags,
            },
            bytes,
        )
    }

    /// Reads the segment that `header` frames from the start of `data` and
    /// attaches `symbols` to it.
    pub fn deserialize(header: &SegmentHeader, data: &[u8], symbols: Vec<Symbol>) -> (result: Result<
        (usize, Self),
        SerializationError,
    >)
        ensures
            match SegmentView::parse(*header, data@, symbol_views(symbols@)) {
                Ok((consumed, view)) => result matches Ok((n, segment)) && n == consumed
                    && segment@ == view,
                Err(e) => result == Err::<(usize, Self), SerializationError>(e),
            },
    {
        let bits = header.disk_bit_count;
        let required = bits / 8 + if bits % 8 != 0 { 1 } else { 0 };
        if data.len() < required {
            return Err(SerializationError::DataTooShort);
        }
        match BitBuffer::from_bytes(data, bits) {
            Some(buffer) => Ok(
                (
                    required,
                    Segment {
                        address_space_start: header.address_space_start,
                        address_space_size: header.address_space_size,
                        disk_bit_count: header.disk_bit_count,
                        flags: header.flags,
                        data: buffer,
                        symbols,
                    },
                ),
            ),
            None => Err(SerializationError::InvalidData),
        }
    }

    /// A copy of the symbols that the segment defines.
    pub fn symbols(&self) -> (symbols: Vec<Symbol>)
        ensures
            symbol_views(symbols@) == self@.symbols,
    {
        clone_symbols(&self.symbols)
    }

    /// The address, in bits from the start of the segment, of the first
    /// symbol of the segment named `name`.
    pub fn find_symbol(&self, name: &str) -> (address: Option<Address>)
        ensures
            address == match named(self@.symbols, name@) {
                Some(address) => Some(Address(address)),
                None => None,
            },
    {
        let ghost symbols = self@.symbols;
        let mut i: usize = 0;
        assert(symbols.skip(0) =~= symbols);
        while i < self.symbols.len()
            invariant
                i <= self.symbols@.len(),
                symbols == self@.symbols,
                symbols == symbol_views(self.symbols@),
                named(symbols, name@) == named(symbols.skip(i as int), name@),
            decreases self.symbols@.len() - i,
        {
            let symbol = &self.symbols[i];
            proof {
                assert(symbols.skip(i as int)[0] == symbol@);
                assert(symbols.skip(i as int).drop_first() =~= symbols.skip(i + 1));
            }
            if same_text(symbol.name.as_str(), name) {
                return Some(symbol.address);
            }
            i = i + 1;
        }
        None
    }
}

} // verus!
