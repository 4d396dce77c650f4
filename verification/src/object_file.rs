pub mod header;
pub mod laws;
pub mod placed;
pub mod relocations;
pub mod sections;

pub use header::ObjectHeader;
pub use relocations::{Relocation, RelocationTable};
pub use sections::{
    RelocationTableHeader, Section, SectionHeader, SymbolTableHeader, TextSection,
    TextSectionHeader,
};

use crate::codec::{low32, low_bits, write_bytes};
use crate::serializable::{Architecture, Serializable, SerializationError};
use crate::symbols::{with_symbols, SymbolTable, SymbolTableView};
use relocations::{with_relocations, RelocationTableView};
use sections::common::SectionView;
use vstd::prelude::*;
use vstd::slice::slice_subrange;

verus! {

/// Relocatable sections built for one architecture.
#[derive(Debug)]
pub struct ObjectFile {
    architecture: Architecture,
    sections: Vec<Section>,
}

/// What an object file is: its architecture and its sections, in order.
pub ghost struct ObjectFileView {
    pub architecture: Architecture,
    pub sections: Seq<SectionView>,
}

/// What each of some sections is, in order.
pub open spec fn section_views(sections: Seq<Section>) -> Seq<SectionView> {
    sections.map_values(|s: Section| s@)
}

impl View for ObjectFile {
    type V = ObjectFileView;

    closed spec fn view(&self) -> ObjectFileView {
        ObjectFileView { architecture: self.architecture, sections: section_views(self.sections@) }
    }
}

/// The symbol table of an object file: the symbols of every section, each
/// under the number of its section.
pub open spec fn gathered_symbols(sections: Seq<SectionView>) -> SymbolTableView
    decreases sections.len(),
{
    if sections.len() == 0 {
        SymbolTableView::empty()
    } else {
        with_symbols(
            gathered_symbols(sections.drop_last()),
            low32((sections.len() - 1) as nat),
            sections.last().symbols(),
        )
    }
}

/// The relocation table of an object file: the relocations of every
/// section, each under the number of its section.
pub open spec fn gathered_relocations(sections: Seq<SectionView>) -> RelocationTableView
    decreases sections.len(),
{
    if sections.len() == 0 {
        RelocationTableView::empty()
    } else {
        with_relocations(
            gathered_relocations(sections.drop_last()),
            (sections.len() - 1) as usize,
            sections.last().relocations(),
        )
    }
}

/// The headers of the sections, one after the other.
pub open spec fn headers_bytes(sections: Seq<SectionView>) -> Seq<u8>
    decreases sections.len(),
{
    if sections.len() == 0 {
        Seq::empty()
    } else {
        headers_bytes(sections.drop_last()) + sections.last().header().spec_wire()
    }
}

/// The payloads of the sections, one after the other.
pub open spec fn payloads_bytes(sections: Seq<SectionView>) -> Seq<u8>
    decreases sections.len(),
{
    if sections.len() == 0 {
        Seq::empty()
    } else {
        payloads_bytes(sections.drop_last()) + sections.last().payload()
    }
}

/// The header of the symbol table of an object file.
pub open spec fn symbols_header(table: SymbolTableView) -> SectionHeader {
    SectionHeader::SymbolTable(
        SymbolTableHeader {
            entry_count: low32(table.entries.len()),
            names_length: low32(table.names.len()),
        },
    )
}

/// The header of the relocation table of an object file.
pub open spec fn relocations_header(table: RelocationTableView) -> SectionHeader {
    SectionHeader::RelocationTable(
        RelocationTableHeader {
            entry_count: low32(table.entries.len()),
            names_length: low32(table.names.len()),
        },
    )
}

/// The number of frames that a container header announces for `payloads`
/// payloads and `tables` tables, cut down to 64 bits.
pub open spec fn frame_count(payloads: nat, tables: nat) -> u64 {
    ((payloads + tables) % 0x1_0000_0000_0000_0000) as u64
}

/// Header `k` of an object file: too short when the file ends before the
/// header does.
pub open spec fn header_at(data: Seq<u8>, k: nat) -> Result<SectionHeader, SerializationError> {
    if data.len() < 9 + 16 * k + 16 {
        Err(SerializationError::DataTooShort)
    } else {
        match SectionHeader::parse(data.subrange((9 + 16 * k) as int, data.len() as int)) {
            Ok((_, header)) => Ok(header),
            Err(e) => Err(e),
        }
    }
}

/// The first `count` headers of an object file, or the error of the first
/// among them that cannot be read.
pub open spec fn headers_at(data: Seq<u8>, count: nat) -> Result<
    Seq<SectionHeader>,
    SerializationError,
>
    decreases count,
{
    if count == 0 {
        Ok(Seq::empty())
    } else {
        match headers_at(data, (count - 1) as nat) {
            Err(e) => Err(e),
            Ok(headers) => match header_at(data, (count - 1) as nat) {
                Ok(header) => Ok(headers.push(header)),
                Err(e) => Err(e),
            },
        }
    }
}

/// Whether every header frames a text section.
pub open spec fn all_text(headers: Seq<SectionHeader>) -> bool {
    forall|i: int| 0 <= i < headers.len() ==> (#[trigger] headers[i]) is Text
}

/// The length in bytes of the payloads that `headers` frame, taken together.
pub open spec fn payloads_len(headers: Seq<SectionHeader>) -> nat
    decreases headers.len(),
{
    if headers.len() == 0 {
        0
    } else {
        payloads_len(headers.drop_last()) + headers.last().spec_section_size()
    }
}

/// Whether `headers` end with the header of a symbol table and that of a
/// relocation table, in this order, and hold only text headers before them.
pub open spec fn well_framed(headers: Seq<SectionHeader>) -> bool {
    &&& headers.len() >= 2
    &&& headers[headers.len() - 2] is SymbolTable
    &&& headers[headers.len() - 1] is RelocationTable
    &&& all_text(headers.take(headers.len() - 2))
}

/// The first `count` sections of an object file whose payloads start at
/// byte `start`, each with its symbols and relocations from the two tables,
/// or the error of the first among them that cannot be read.
pub open spec fn sections_at(
    data: Seq<u8>,
    start: nat,
    headers: Seq<SectionHeader>,
    symbols: SymbolTableView,
    relocations: RelocationTableView,
    count: nat,
) -> Result<Seq<SectionView>, SerializationError>
    decreases count,
{
    if count == 0 {
        Ok(Seq::empty())
    } else {
        let idx = (count - 1) as nat;
        match sections_at(data, start, headers, symbols, relocations, idx) {
            Err(e) => Err(e),
            Ok(sections) => match SectionView::parse(
                headers[idx as int],
                data.subrange(
                    (start + payloads_len(headers.take(idx as int))) as int,
                    data.len() as int,
                ),
                symbols.symbols_of(low32(idx)),
                relocations.relocations_of(idx as usize),
            ) {
                Ok((_, section)) => Ok(sections.push(section)),
                Err(e) => Err(e),
            },
        }
    }
}

impl ObjectFileView {
    /// The bytes of the object file: the header, the section headers with
    /// those of the two tables last, and the payloads in the same order.
    #[verifier::opaque]
    pub open spec fn wire(self) -> Seq<u8> {
        let symbols = gathered_symbols(self.sections);
        let relocations = gathered_relocations(self.sections);
        (ObjectHeader {
            architecture: self.architecture,
            section_count: frame_count(self.sections.len(), 2),
        }).spec_wire() + headers_bytes(self.sections) + symbols_header(symbols).spec_wire()
            + relocations_header(relocations).spec_wire() + payloads_bytes(self.sections)
            + symbols.payload() + relocations.payload()
    }

    /// What decoding makes of the payloads of an object file for
    /// `architecture` whose headers are `headers`. The checks come in this
    /// order, and the first that fails gives the error: the headers are well
    /// framed, else the data is invalid; the payloads of the sections end
    /// inside the data, else the data is too short; the symbol table can be
    /// read behind them; the relocation table can be read behind the symbol
    /// table; every section can be read. What is read ends where the
    /// relocation table ends.
    #[verifier::opaque]
    pub open spec fn parse_payloads(
        data: Seq<u8>,
        architecture: Architecture,
        headers: Seq<SectionHeader>,
    ) -> Result<(usize, ObjectFileView), SerializationError> {
        let count = headers.len() - 2;
        let start = 9 + 16 * headers.len();
        let symbols_start = start + payloads_len(headers.take(count));
        let relocations_start = symbols_start + headers[count].spec_section_size();
        if !well_framed(headers) {
            Err(SerializationError::InvalidData)
        } else if symbols_start > data.len() {
            Err(SerializationError::DataTooShort)
        } else {
            match SymbolTableView::parse(
                data.subrange(symbols_start as int, data.len() as int),
                headers[count]->SymbolTable_0.entry_count as nat,
                headers[count]->SymbolTable_0.names_length as nat,
            ) {
                Err(e) => Err(e),
                Ok((_, symbols)) => match RelocationTableView::parse(
                    data.subrange(relocations_start as int, data.len() as int),
                    headers[count + 1]->RelocationTable_0.entry_count as nat,
                    headers[count + 1]->RelocationTable_0.names_length as nat,
                ) {
                    Err(e) => Err(e),
                    Ok((_, relocations)) => match sections_at(
                        data,
                        start,
                        headers,
                        symbols,
                        relocations,
                        count as nat,
                    ) {
                        Err(e) => Err(e),
                        Ok(sections) => Ok(
                            (
                                (relocations_start + headers[count
                                    + 1].spec_section_size()) as usize,
                                ObjectFileView { architecture, sections },
                            ),
                        ),
                    },
                },
            }
        }
    }

    /// What decoding makes of `data`: the header is read, then as many
    /// section headers as it announces, then the payloads. The first of
    /// these that cannot be read gives the error.
    pub open spec fn parse(data: Seq<u8>) -> Result<(usize, ObjectFileView), SerializationError> {
        match ObjectHeader::parse(data) {
            Err(e) => Err(e),
            Ok((_, header)) => match headers_at(data, header.section_count as nat) {
                Err(e) => Err(e),
                Ok(headers) => ObjectFileView::parse_payloads(data, header.architecture, headers),
            },
        }
    }
}

/// An error among the first headers is the error of any longer run of
/// headers.
pub proof fn headers_at_error_stays(data: Seq<u8>, bad: nat, count: nat)
    requires
        bad <= count,
        headers_at(data, bad) is Err,
    ensures
        headers_at(data, count) == headers_at(data, bad),
    decreases count,
{
    if bad < count {
        headers_at_error_stays(data, bad, (count - 1) as nat);
    }
}

/// The payloads of more headers take at least as many bytes.
pub proof fn payloads_len_grows(headers: Seq<SectionHeader>, fewer: int, more: int)
    requires
        0 <= fewer <= more <= headers.len(),
    ensures
        payloads_len(headers.take(fewer)) <= payloads_len(headers.take(more)),
    decreases more - fewer,
{
    if fewer < more {
        payloads_len_grows(headers, fewer, more - 1);
        assert(headers.take(more).drop_last() =~= headers.take(more - 1));
    }
}

/// An error among the first sections is the error of any longer run of
/// sections.
pub proof fn sections_at_error_stays(
    data: Seq<u8>,
    start: nat,
    headers: Seq<SectionHeader>,
    symbols: SymbolTableView,
    relocations: RelocationTableView,
    bad: nat,
    count: nat,
)
    requires
        bad <= count,
        sections_at(data, start, headers, symbols, relocations, bad) is Err,
    ensures
        sections_at(data, start, headers, symbols, relocations, count) == sections_at(
            data,
            start,
            headers,
            symbols,
            relocations,
            bad,
        ),
    decreases count,
{
    if bad < count {
        sections_at_error_stays(data, start, headers, symbols, relocations, bad, (count - 1) as nat);
    }
}

/// Reads the `count` section headers that follow the header of an object
/// file.
fn read_headers(data: &[u8], count: u64) -> (result: Result<Vec<SectionHeader>, SerializationError>)
    requires
        data.len() >= 9,
    ensures
        match headers_at(data@, count as nat) {
            Ok(headers) => result matches Ok(read) && read@ == headers && read@.len() == count && 9
                + 16 * count <= data.len(),
            Err(e) => result == Err::<Vec<SectionHeader>, SerializationError>(e),
        },
{
    let mut headers: Vec<SectionHeader> = Vec::new();
    let mut offset: usize = 9;
    let mut k: u64 = 0;
    while k < count
        invariant
            k <= count,
            offset == 9 + 16 * k,
            offset <= data.len(),
            headers@.len() == k,
            headers_at(data@, k as nat) == Ok::<Seq<SectionHeader>, SerializationError>(headers@),
        decreases count - k,
    {
        if data.len() - offset < 16 {
            proof {
                assert(header_at(data@, k as nat) is Err);
                headers_at_error_stays(data@, (k + 1) as nat, count as nat);
            }
            return Err(SerializationError::DataTooShort);
        }
        match SectionHeader::deserialize(slice_subrange(data, offset, data.len())) {
            Ok((_, header)) => {
                headers.push(header);
                offset = offset + 16;
            },
            Err(e) => {
                proof {
                    headers_at_error_stays(data@, (k + 1) as nat, count as nat);
                }
                return Err(e);
            },
        }
        k = k + 1;
    }
    Ok(headers)
}

/// Whether each of the first `count` headers frames a text section.
fn only_text(headers: &Vec<SectionHeader>, count: usize) -> (all: bool)
    requires
        count <= headers@.len(),
    ensures
        all == all_text(headers@.take(count as int)),
{
    let mut i: usize = 0;
    while i < count
        invariant
            i <= count,
            count <= headers@.len(),
            all_text(headers@.take(i as int)),
        decreases count - i,
    {
        match headers[i] {
            SectionHeader::Text(_) => {},
            _ => {
                assert(!(headers@.take(count as int)[i as int] is Text));
                return false;
            },
        }
        i = i + 1;
        assert forall|k: int| 0 <= k < i implies (#[trigger] headers@.take(i as int)[k]) is Text by {
            if k < i - 1 {
                assert(headers@.take(i - 1)[k] is Text);
            }
        }
    }
    true
}

/// Checks that the payloads of the first `count` headers end inside `data`
/// when they start at byte `start`, and gives the byte behind them.
fn payloads_end(data: &[u8], start: usize, headers: &Vec<SectionHeader>, count: usize) -> (end:
    Option<usize>)
    requires
        start <= data.len(),
        count <= headers@.len(),
    ensures
        match end {
            Some(end) => end == start + payloads_len(headers@.take(count as int)) && end
                <= data.len(),
            None => start + payloads_len(headers@.take(count as int)) > data.len(),
        },
{
    let mut end: usize = start;
    let mut i: usize = 0;
    while i < count
        invariant
            i <= count,
            count <= headers@.len(),
            end == start + payloads_len(headers@.take(i as int)),
            end <= data.len(),
        decreases count - i,
    {
        let size = headers[i].section_size();
        proof {
            assert(headers@.take(i + 1).drop_last() =~= headers@.take(i as int));
            payloads_len_grows(headers@, i + 1, count as int);
        }
        if size > (data.len() - end) as u64 {
            return None;
        }
        end = end + size as usize;
        i = i + 1;
    }
    Some(end)
}

/// Reads the first `count` sections, whose payloads start at byte `start`.
fn read_sections(
    data: &[u8],
    start: usize,
    headers: &Vec<SectionHeader>,
    symbols: &SymbolTable,
    relocations: &RelocationTable,
    count: usize,
) -> (result: Result<Vec<Section>, SerializationError>)
    requires
        count <= headers@.len(),
        start + payloads_len(headers@.take(count as int)) <= data.len(),
    ensures
        match sections_at(data@, start as nat, headers@, symbols@, relocations@, count as nat) {
            Ok(sections) => result matches Ok(read) && section_views(read@) == sections,
            Err(e) => result == Err::<Vec<Section>, SerializationError>(e),
        },
{
    let mut sections: Vec<Section> = Vec::new();
    let mut offset: usize = start;
    let mut idx: usize = 0;
    assert(section_views(sections@) =~= Seq::empty());
    while idx < count
        invariant
            idx <= count,
            count <= headers@.len(),
            start + payloads_len(headers@.take(count as int)) <= data.len(),
            offset == start + payloads_len(headers@.take(idx as int)),
            sections_at(data@, start as nat, headers@, symbols@, relocations@, idx as nat) == Ok::<
                Seq<SectionView>,
                SerializationError,
            >(section_views(sections@)),
        decreases count - idx,
    {
        proof {
            payloads_len_grows(headers@, idx as int, count as int);
            payloads_len_grows(headers@, idx + 1, count as int);
            assert(headers@.take(idx + 1).drop_last() =~= headers@.take(idx as int));
        }
        let section_symbols = symbols.get_symbols(low_bits(idx));
        let section_relocations = relocations.get_relocations(idx);
        match Section::deserialize(
            &headers[idx],
            slice_subrange(data, offset, data.len()),
            section_symbols,
            section_relocations,
        ) {
            Ok((size, section)) => {
                proof {
                    crate::sequence::map_values_push(sections@, section, |s: Section| s@);
                }
                sections.push(section);
                offset = offset + size;
            },
            Err(e) => {
                proof {
                    sections_at_error_stays(
                        data@,
                        start as nat,
                        headers@,
                        symbols@,
                        relocations@,
                        (idx + 1) as nat,
                        count as nat,
                    );
                }
                return Err(e);
            },
        }
        idx = idx + 1;
    }
    Ok(sections)
}

/// Copies a list of sections.
pub fn clone_sections(sections: &Vec<Section>) -> (copy: Vec<Section>)
    ensures
        section_views(copy@) == section_views(sections@),
{
    let mut copy: Vec<Section> = Vec::new();
    let mut i: usize = 0;
    while i < sections.len()
        invariant
            i <= sections@.len(),
            copy@.len() == i,
            forall|k: int| 0 <= k < i ==> (#[trigger] copy@[k])@ == sections@[k]@,
        decreases sections@.len() - i,
    {
        copy.push(sections[i].clone());
        i = i + 1;
    }
    assert(section_views(copy@) =~= section_views(sections@));
    copy
}

impl Clone for ObjectFile {
    fn clone(&self) -> (copy: Self)
        ensures
            copy@ == self@,
    {
        ObjectFile { architecture: self.architecture, sections: clone_sections(&self.sections) }
    }
}

impl Serializable for ObjectFile {
    open spec fn wire(&self) -> Seq<u8> {
        self@.wire()
    }

    open spec fn decoded(data: Seq<u8>, result: Result<(usize, Self), SerializationError>) -> bool {
        match ObjectFileView::parse(data) {
            Ok((consumed, view)) => result matches Ok((n, object)) && n == consumed && object@
                == view,
            Err(e) => result == Err::<(usize, Self), SerializationError>(e),
        }
    }

    fn serialize(&self) -> (out: Vec<u8>) {
        let ghost views = section_views(self.sections@);
        let mut symbol_table = SymbolTable::new();
        let mut relocation_table = RelocationTable::new();
        let mut headers: Vec<u8> = Vec::new();
        let mut payloads: Vec<u8> = Vec::new();
        let mut i: usize = 0;
        while i < self.sections.len()
            invariant
                i <= self.sections@.len(),
                views == section_views(self.sections@),
                symbol_table@ == gathered_symbols(views.take(i as int)),
                relocation_table@ == gathered_relocations(views.take(i as int)),
                headers@ == headers_bytes(views.take(i as int)),
                payloads@ == payloads_bytes(views.take(i as int)),
            decreases self.sections@.len() - i,
        {
            let section = &self.sections[i];
            proof {
                assert(views.take(i + 1).drop_last() =~= views.take(i as int));
                assert(views.take(i + 1).last() == section@);
            }
            match section {
                Section::Text(text) => {
                    symbol_table.add_symbols(low_bits(i), &text.symbols);
                    relocation_table.add_relocations(i, &text.relocations);
                },
            }
            let (header, bytes) = section.serialize();
            let header_bytes = header.serialize();
            write_bytes(&mut headers, header_bytes.as_slice());
            write_bytes(&mut payloads, bytes.as_slice());
            i = i + 1;
        }
        assert(views.take(i as int) =~= views);
        let header = ObjectHeader {
            architecture: self.architecture,
            section_count: (self.sections.len() as u64).wrapping_add(2),
        };
        let mut out = header.serialize();
        let (symbol_header, symbol_data) = symbol_table.serialize_as_section();
        let (relocation_header, relocation_data) = relocation_table.serialize();
        let symbol_header_bytes = symbol_header.serialize();
        let relocation_header_bytes = relocation_header.serialize();
        write_bytes(&mut out, headers.as_slice());
        write_bytes(&mut out, symbol_header_bytes.as_slice());
        write_bytes(&mut out, relocation_header_bytes.as_slice());
        write_bytes(&mut out, payloads.as_slice());
        write_bytes(&mut out, symbol_data.as_slice());
        write_bytes(&mut out, relocation_data.as_slice());
        assert(header.section_count == frame_count(views.len(), 2));
        reveal(ObjectFileView::wire);
        assert(out@ =~= self@.wire());
        out
    }

    fn deserialize(data: &[u8]) -> (result: Result<(usize, Self), SerializationError>) {
        reveal(ObjectFileView::parse_payloads);
        let header = match ObjectHeader::deserialize(data) {
            Ok((_, header)) => header,
            Err(e) => {
                return Err(e);
            },
        };
        let headers = match read_headers(data, header.section_count) {
            Ok(headers) => headers,
            Err(e) => {
                return Err(e);
            },
        };
        let section_count = headers.len();
        if section_count < 2 {
            return Err(SerializationError::InvalidData);
        }
        let count = section_count - 2;
        let symbol_header = match headers[count] {
            SectionHeader::SymbolTable(h) => h,
            _ => {
                return Err(SerializationError::InvalidData);
            },
        };
        let relocation_header = match headers[count + 1] {
            SectionHeader::RelocationTable(h) => h,
            _ => {
                return Err(SerializationError::InvalidData);
            },
        };
        if !only_text(&headers, count) {
            return Err(SerializationError::InvalidData);
        }
        let start = 9 + 16 * section_count;
        let symbols_start = match payloads_end(data, start, &headers, count) {
            Some(end) => end,
            None => {
                return Err(SerializationError::DataTooShort);
            },
        };
        let symbol_table = match SymbolTable::deserialize_section(
            &symbol_header,
            slice_subrange(data, symbols_start, data.len()),
        ) {
            Ok((_, table)) => table,
            Err(e) => {
                return Err(e);
            },
        };
        let relocations_start = symbols_start + headers[count].section_size() as usize;
        let relocation_table = match RelocationTable::deserialize(
            &relocation_header,
            slice_subrange(data, relocations_start, data.len()),
        ) {
            Ok((_, table)) => table,
            Err(e) => {
                return Err(e);
            },
        };
        let sections = match read_sections(
            data,
            start,
            &headers,
            &symbol_table,
            &relocation_table,
            count,
        ) {
            Ok(sections) => sections,
            Err(e) => {
                return Err(e);
            },
        };
        Ok(
            (
                relocations_start + headers[count + 1].section_size() as usize,
                ObjectFile { architecture: header.architecture, sections },
            ),
        )
    }
}

impl ObjectFile {
    pub fn new(architecture: Architecture) -> (object: Self)
        ensures
            object@ == (ObjectFileView { architecture, sections: Seq::empty() }),
    {
        let object = ObjectFile { architecture, sections: Vec::new() };
        assert(section_views(object.sections@) =~= Seq::empty());
        object
    }

    pub fn with_sections(architecture: Architecture, sections: Vec<Section>) -> (object: Self)
        ensures
            object@ == (ObjectFileView { architecture, sections: section_views(sections@) }),
    {
        ObjectFile { architecture, sections }
    }

    /// Adds `section` behind the other sections.
    pub fn add_section(&mut self, section: Section)
        ensures
            final(self)@ == (ObjectFileView {
                architecture: old(self)@.architecture,
                sections: old(self)@.sections.push(section@),
            }),
    {
        self.sections.push(section);
        assert(section_views(self.sections@) =~= section_views(old(self).sections@).push(section@));
    }

    /// The sections, in order.
    pub fn sections(self) -> (sections: Vec<Section>)
        ensures
            section_views(sections@) == self@.sections,
    {
        self.sections
    }

    pub fn architecture(&self) -> (architecture: Architecture)
        ensures
            architecture == self@.architecture,
    {
        self.architecture
    }

    /// Moves the sections of `other` behind those of `self`. Both are for
    /// the same architecture.
    pub fn merge(&mut self, other: ObjectFile)
        requires
            old(self)@.architecture == other@.architecture,
        ensures
            final(self)@ == (ObjectFileView {
                architecture: old(self)@.architecture,
                sections: old(self)@.sections + other@.sections,
            }),
    {
        let mut other = other;
        let ghost moved = other.sections@;
        self.sections.append(&mut other.sections);
        assert(section_views(self.sections@) =~= section_views(old(self).sections@)
            + section_views(moved));
    }
}

} // verus!
