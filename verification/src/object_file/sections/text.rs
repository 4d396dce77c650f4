use super::header::TextSectionHeader;
use crate::bit_buffer::BitBuffer;
use crate::codec::{packed, packed_len, unpacked};
use crate::object_file::relocations::{
    clone_relocations, relocation_views, Relocation, RelocationView,
};
use crate::serializable::SerializationError;
use crate::symbols::{clone_symbols, symbol_views, Symbol, SymbolView};
use vstd::prelude::*;

verus! {

/// A relocatable piece of machine code with the symbols it defines and the
/// relocations that are still to be applied to it.
#[derive(Debug)]
pub struct TextSection {
    pub data: BitBuffer,
    pub symbols: Vec<Symbol>,
    pub relocations: Vec<Relocation>,
}

/// What a text section is: its bits, its symbols and its relocations.
pub ghost struct TextSectionView {
    pub bits: Seq<bool>,
    pub symbols: Seq<SymbolView>,
    pub relocations: Seq<RelocationView>,
}

impl View for TextSection {
    type V = TextSectionView;

    open spec fn view(&self) -> TextSectionView {
        TextSectionView {
            bits: self.data@,
            symbols: symbol_views(self.symbols@),
            relocations: relocation_views(self.relocations@),
        }
    }
}

impl Clone for TextSection {
    fn clone(&self) -> (copy: Self)
        ensures
            copy@ == self@,
    {
        TextSection {
            data: self.data.clone(),
            symbols: clone_symbols(&self.symbols),
            relocations: clone_relocations(&self.relocations),
        }
    }
}

impl TextSectionView {
    /// What decoding makes of `data` for a payload of `bit_length` bits, to
    /// which `symbols` and `relocations` belong: too short when bits are
    /// missing, invalid when no bit buffer can hold that many bits.
    pub open spec fn parse(
        bit_length: usize,
        data: Seq<u8>,
        symbols: Seq<SymbolView>,
        relocations: Seq<RelocationView>,
    ) -> Result<(usize, TextSectionView), SerializationError> {
        if data.len() < packed_len(bit_length as nat) {
            Err(SerializationError::DataTooShort)
        } else if bit_length > BitBuffer::spec_max_len() {
            Err(SerializationError::InvalidData)
        } else {
            Ok(
                (
                    packed_len(bit_length as nat) as usize,
                    TextSectionView { bits: unpacked(data, bit_length as nat), symbols, relocations },
                ),
            )
        }
    }
}

impl TextSection {
    pub fn new(data: BitBuffer, symbols: Vec<Symbol>, relocations: Vec<Relocation>) -> (section:
        Self)
        ensures
            section.data == data,
            section.symbols == symbols,
            section.relocations == relocations,
    {
        TextSection { data, symbols, relocations }
    }

    /// The payload: the bits packed into bytes.
    pub fn serialize(&self) -> (out: Vec<u8>)
        ensures
            out@ == packed(self@.bits),
    {
        self.data.to_bytes()
    }

    /// Reads the payload that `header` frames from the start of `data` and
    /// attaches `symbols` and `relocations` to it.
    pub fn deserialize(
        header: &TextSectionHeader,
        data: &[u8],
        symbols: Vec<Symbol>,
        relocations: Vec<Relocation>,
    ) -> (result: Result<(usize, Self), SerializationError>)
        ensures
            match TextSectionView::parse(
                header.bit_length,
                data@,
                symbol_views(symbols@),
                relocation_views(relocations@),
            ) {
                Ok((consumed, view)) => result matches Ok((n, section)) && n == consumed
                    && section@ == view,
                Err(e) => result == Err::<(usize, Self), SerializationError>(e),
            },
    {
        let bits = header.bit_length;
        let required = bits / 8 + if bits % 8 != 0 { 1 } else { 0 };
        if data.len() < required {
            return Err(SerializationError::DataTooShort);
        }
        match BitBuffer::from_bytes(data, bits) {
            Some(buffer) => Ok((required, TextSection { data: buffer, symbols, relocations })),
            None => Err(SerializationError::InvalidData),
        }
    }
}

} // verus!
