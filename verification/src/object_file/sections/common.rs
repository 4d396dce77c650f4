use super::header::{SectionHeader, TextSectionHeader};
use super::text::{TextSection, TextSectionView};
use crate::address::AddressIndexable;
use crate::codec::packed;
use crate::executable::segments::common::Segment;
use crate::executable::segments::flags::SegmentFlags;
use crate::object_file::placed::{
    distance_in_text_bytes, patch_field, relocated_all, relocated_all_error_stays, LinkerError,
    Placement,
};
use crate::object_file::relocations::{
    clone_relocations, relocation_views, Relocation, RelocationView,
};
use crate::serializable::SerializationError;
use crate::symbols::{clone_symbols, symbol_views, Symbol, SymbolView};
use vstd::prelude::*;

verus! {

/// A relocatable unit of an object file.
#[derive(Debug)]
pub enum Section {
    Text(TextSection),
}

/// What a section is.
pub ghost enum SectionView {
    Text(TextSectionView),
}

impl View for Section {
    type V = SectionView;

    open spec fn view(&self) -> SectionView {
        match self {
            Section::Text(text) => SectionView::Text(text@),
        }
    }
}

impl Clone for Section {
    fn clone(&self) -> (copy: Self)
        ensures
            copy@ == self@,
    {
        match self {
            Section::Text(text) => Section::Text(text.clone()),
        }
    }
}

impl SectionView {
    /// The bits of the section.
    pub open spec fn bits(self) -> Seq<bool> {
        match self {
            SectionView::Text(text) => text.bits,
        }
    }

    /// The symbols that the section defines.
    pub open spec fn symbols(self) -> Seq<SymbolView> {
        match self {
            SectionView::Text(text) => text.symbols,
        }
    }

    /// The relocations that are to be applied to the section.
    pub open spec fn relocations(self) -> Seq<RelocationView> {
        match self {
            SectionView::Text(text) => text.relocations,
        }
    }

    /// The header that frames the section in an object file.
    pub open spec fn header(self) -> SectionHeader {
        SectionHeader::Text(TextSectionHeader { bit_length: self.bits().len() as usize })
    }

    /// The payload of the section in an object file.
    pub open spec fn payload(self) -> Seq<u8> {
        packed(self.bits())
    }

    /// What decoding makes of `data` under `header`: only a text header
    /// frames a section.
    pub open spec fn parse(
        header: SectionHeader,
        data: Seq<u8>,
        symbols: Seq<SymbolView>,
        relocations: Seq<RelocationView>,
    ) -> Result<(usize, SectionView), SerializationError> {
        match header {
            SectionHeader::Text(text_header) => match TextSectionView::parse(
                text_header.bit_length,
                data,
                symbols,
                relocations,
            ) {
                Ok((consumed, text)) => Ok((consumed, SectionView::Text(text))),
                Err(e) => Err(e),
            },
            _ => Err(SerializationError::InvalidSectionType(0)),
        }
    }
}

impl Section {
    /// The header and the payload of the section.
    pub fn serialize(&self) -> (framed: (SectionHeader, Vec<u8>))
        ensures
            framed.0 == self@.header(),
            framed.1@ == self@.payload(),
    {
        match self {
            Section::Text(text) => {
                let bytes = text.serialize();
                let header = SectionHeader::Text(TextSectionHeader { bit_length: text.data.len() });
                (header, bytes)
            },
        }
    }

    /// Reads the section that `header` frames from the start of `data` and
    /// attaches `symbols` and `relocations` to it.
    pub fn deserialize(
        header: &SectionHeader,
        data: &[u8],
        symbols: Vec<Symbol>,
        relocations: Vec<Relocation>,
    ) -> (result: Result<(usize, Self), SerializationError>)
        ensures
            match SectionView::parse(
                *header,
                data@,
                symbol_views(symbols@),
                relocation_views(relocations@),
            ) {
                Ok((consumed, view)) => result matches Ok((n, section)) && n == consumed
                    && section@ == view,
                Err(e) => result == Err::<(usize, Self), SerializationError>(e),
            },
    {
        match header {
            SectionHeader::Text(text_header) => {
                match TextSection::deserialize(text_header, data, symbols, relocations) {
                    Ok((size, section)) => Ok((size, Section::Text(section))),
                    Err(e) => Err(e),
                }
            },
            _ => Err(SerializationError::InvalidSectionType(0)),
        }
    }

    /// Links the section against `placement` and turns it into the segment
    /// that starts at `offset` bits: every relocation is applied to a copy
    /// of the bits, in order, and the first that fails ends the linking.
    pub fn to_segment(&self, placement: &Placement, offset: usize) -> (result: Result<
        Segment,
        LinkerError,
    >)
        ensures
            match placement@.linked(self@, offset) {
                Ok(view) => result matches Ok(segment) && segment@ == view,
                Err(e) => result matches Err(error) && error@ == e,
            },
    {
        let architecture = placement.architecture();
        let width = architecture.text_byte_width();
        match self {
            Section::Text(text) => {
                let mut data = text.data.clone();
                let ghost relocations = self@.relocations();
                let mut i: usize = 0;
                while i < text.relocations.len()
                    invariant
                        i <= text.relocations@.len(),
                        relocations == relocation_views(text.relocations@),
                        relocations == self@.relocations(),
                        text.data@ == self@.bits(),
                        width == placement@.width(),
                        architecture == placement@.architecture,
                        relocated_all(
                            text.data@,
                            relocations,
                            placement@.sections,
                            width as nat,
                            i as nat,
                        ) == Ok::<Seq<bool>, crate::object_file::placed::LinkerErrorView>(data@),
                    decreases text.relocations@.len() - i,
                {
                    let relocation = &text.relocations[i];
                    assert(relocations[i as int] == relocation@);
                    let symbol = match placement.find_symbol(relocation.symbol.as_str()) {
                        None => {
                            proof {
                                relocated_all_error_stays(
                                    text.data@,
                                    relocations,
                                    placement@.sections,
                                    width as nat,
                                    (i + 1) as nat,
                                    relocations.len(),
                                );
                            }
                            return Err(LinkerError::SymbolNotFound(relocation.symbol.clone()));
                        },
                        Some(symbol) => symbol,
                    };
                    let distance = match distance_in_text_bytes(
                        symbol,
                        relocation.address,
                        relocation.relative,
                        architecture,
                    ) {
                        None => {
                            proof {
                                relocated_all_error_stays(
                                    text.data@,
                                    relocations,
                                    placement@.sections,
                                    width as nat,
                                    (i + 1) as nat,
                                    relocations.len(),
                                );
                            }
                            return Err(
                                LinkerError::RelocationOutOfRange(relocation.symbol.clone()),
                            );
                        },
                        Some(distance) => distance,
                    };
                    let field = data.index(relocation.address);
                    data.write(relocation.address, patch_field(field, distance));
                    i = i + 1;
                }
                let len = data.len();
                let size = len / width + if len % width != 0 { 1 } else { 0 };
                Ok(
                    Segment::new(
                        (offset / width) as u64,
                        size as u64,
                        len,
                        SegmentFlags {
                            writable: false,
                            executable: true,
                            readable: true,
                            special: false,
                        },
                        data,
                        clone_symbols(&text.symbols),
                    ),
                )
            },
        }
    }

    /// A copy of the symbols that the section defines.
    pub fn symbols(&self) -> (symbols: Vec<Symbol>)
        ensures
            symbol_views(symbols@) == self@.symbols(),
    {
        match self {
            Section::Text(text) => clone_symbols(&text.symbols),
        }
    }

    /// A copy of the relocations that are to be applied to the section.
    pub fn relocations(&self) -> (relocations: Vec<Relocation>)
        ensures
            relocation_views(relocations@) == self@.relocations(),
    {
        match self {
            Section::Text(text) => clone_relocations(&text.relocations),
        }
    }
}

} // verus!
