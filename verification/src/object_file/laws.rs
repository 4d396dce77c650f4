use super::relocations::laws as relocation_laws;
use super::relocations::laws::{plain_relocations, short_relocations};
use super::relocations::{RelocationTableView, RelocationView};
use super::sections::common::SectionView;
use super::header::{object_header_round_trip, ObjectHeader};
use super::sections::header::{section_header_round_trip, SectionHeader};
use super::{
    all_text, frame_count, gathered_relocations, gathered_symbols, header_at, headers_at,
    headers_bytes, payloads_bytes, payloads_len, relocations_header, sections_at, symbols_header,
    well_framed, ObjectFileView,
};
use super::headers_at_error_stays;
use crate::codec::{packed, packed_len, unpack_packed};
use crate::serializable::SerializationError;
use crate::bit_buffer::BitBuffer;
use crate::codec::low32;
use crate::symbols::laws as symbol_laws;
use crate::symbols::laws::{plain_symbols, short_addresses};
use crate::symbols::{SymbolTableView, SymbolView};
use vstd::prelude::*;

verus! {

impl SectionView {
    /// Whether the section can be written down without loss: a bit buffer
    /// can hold its bits, its names are plain, and its addresses fit in 32
    /// bits.
    pub open spec fn storable(self) -> bool {
        &&& self.bits().len() <= BitBuffer::spec_max_len()
        &&& plain_symbols(self.symbols())
        &&& short_addresses(self.symbols())
        &&& plain_relocations(self.relocations())
        &&& short_relocations(self.relocations())
    }
}

impl ObjectFileView {
    /// Whether the object file can be written down without loss: every
    /// section can, the counts of sections, symbols and relocations and the
    /// lengths of the names fit in 32 bits, and the length of the whole fits
    /// in a `usize`.
    pub open spec fn storable(self) -> bool {
        &&& self.sections.len() + 2 < 0x1_0000_0000
        &&& forall|i: int| 0 <= i < self.sections.len() ==> (#[trigger] self.sections[i]).storable()
        &&& gathered_symbols(self.sections).entries.len() < 0x1_0000_0000
        &&& gathered_symbols(self.sections).names.len() < 0x1_0000_0000
        &&& gathered_relocations(self.sections).entries.len() < 0x1_0000_0000
        &&& gathered_relocations(self.sections).names.len() < 0x1_0000_0000
        &&& self.wire().len() <= usize::MAX
    }
}

/// The symbol table of more sections has at least as many bytes of names and
/// at least as many rows.
pub proof fn gathered_symbols_grow(sections: Seq<SectionView>, fewer: int, more: int)
    requires
        0 <= fewer <= more <= sections.len(),
    ensures
        gathered_symbols(sections.take(fewer)).names.len() <= gathered_symbols(
            sections.take(more),
        ).names.len(),
        gathered_symbols(sections.take(fewer)).entries.len() <= gathered_symbols(
            sections.take(more),
        ).entries.len(),
    decreases more - fewer,
{
    if fewer < more {
        gathered_symbols_grow(sections, fewer, more - 1);
        assert(sections.take(more).drop_last() =~= sections.take(more - 1));
        symbol_laws::with_symbols_grows(
            gathered_symbols(sections.take(more - 1)),
            low32((more - 1) as nat),
            sections.take(more).last().symbols(),
        );
    }
}

/// The relocation table of more sections has at least as many bytes of
/// names and at least as many rows.
pub proof fn gathered_relocations_grow(sections: Seq<SectionView>, fewer: int, more: int)
    requires
        0 <= fewer <= more <= sections.len(),
    ensures
        gathered_relocations(sections.take(fewer)).names.len() <= gathered_relocations(
            sections.take(more),
        ).names.len(),
        gathered_relocations(sections.take(fewer)).entries.len() <= gathered_relocations(
            sections.take(more),
        ).entries.len(),
    decreases more - fewer,
{
    if fewer < more {
        gathered_relocations_grow(sections, fewer, more - 1);
        assert(sections.take(more).drop_last() =~= sections.take(more - 1));
        relocation_laws::with_relocations_grows(
            gathered_relocations(sections.take(more - 1)),
            (more - 1) as usize,
            sections.take(more).last().relocations(),
        );
    }
}

/// The symbol table that is gathered from the first `count` sections of a
/// storable object file is storable, and it gives each of these sections
/// its symbols back and no symbols to a later section.
#[verifier::rlimit(40)]
pub proof fn gathered_symbols_scatter(object: ObjectFileView, count: int, idx: int)
    requires
        object.storable(),
        0 <= count <= object.sections.len(),
        0 <= idx < object.sections.len(),
    ensures
        gathered_symbols(object.sections.take(count)).storable(),
        gathered_symbols(object.sections.take(count)).symbols_of(low32(idx as nat)) == if idx
            < count {
            object.sections[idx].symbols()
        } else {
            Seq::<SymbolView>::empty()
        },
    decreases count,
{
    let sections = object.sections;
    assert(sections.take(sections.len() as int) =~= sections);
    gathered_symbols_grow(sections, count, sections.len() as int);
    assert(low32(idx as nat) == idx);
    if count == 0 {
        symbol_laws::empty_table(low32(idx as nat));
    } else {
        assert(low32((count - 1) as nat) == count - 1);
        gathered_symbols_scatter(object, count - 1, idx);
        assert(sections.take(count).drop_last() =~= sections.take(count - 1));
        let before = gathered_symbols(sections.take(count - 1));
        let section = sections[count - 1];
        assert(sections.take(count).last() == section);
        assert(section.storable());
        symbol_laws::with_symbols_appends(
            before,
            low32((count - 1) as nat),
            section.symbols(),
            low32(idx as nat),
        );
        symbol_laws::with_symbols_short(before, low32((count - 1) as nat), section.symbols());
        if idx == count - 1 {
            assert(Seq::<SymbolView>::empty() + section.symbols() =~= section.symbols());
        }
    }
}

/// The relocation table that is gathered from the first `count` sections of
/// a storable object file is storable, and it gives each of these sections
/// its relocations back and no relocations to a later section.
#[verifier::rlimit(40)]
pub proof fn gathered_relocations_scatter(object: ObjectFileView, count: int, idx: int)
    requires
        object.storable(),
        0 <= count <= object.sections.len(),
        0 <= idx < object.sections.len(),
    ensures
        gathered_relocations(object.sections.take(count)).storable(),
        gathered_relocations(object.sections.take(count)).relocations_of(idx as usize) == if idx
            < count {
            object.sections[idx].relocations()
        } else {
            Seq::<RelocationView>::empty()
        },
    decreases count,
{
    let sections = object.sections;
    assert(sections.take(sections.len() as int) =~= sections);
    gathered_relocations_grow(sections, count, sections.len() as int);
    if count == 0 {
        relocation_laws::empty_table(idx as usize);
    } else {
        gathered_relocations_scatter(object, count - 1, idx);
        assert(sections.take(count).drop_last() =~= sections.take(count - 1));
        let before = gathered_relocations(sections.take(count - 1));
        let section = sections[count - 1];
        assert(sections.take(count).last() == section);
        assert(section.storable());
        relocation_laws::with_relocations_appends(
            before,
            (count - 1) as usize,
            section.relocations(),
            idx as usize,
        );
        relocation_laws::with_relocations_short(
            before,
            (count - 1) as usize,
            section.relocations(),
        );
        if idx == count - 1 {
            assert(Seq::<RelocationView>::empty() + section.relocations()
                =~= section.relocations());
        }
    }
}

/// The headers of an object file, in the order in which they are written:
/// those of the sections, then that of the symbol table, then that of the
/// relocation table.
pub open spec fn written_headers(object: ObjectFileView) -> Seq<SectionHeader> {
    object.sections.map_values(|s: SectionView| s.header()).push(
        symbols_header(gathered_symbols(object.sections)),
    ).push(relocations_header(gathered_relocations(object.sections)))
}

/// The headers of the sections take sixteen bytes each, and the sixteen
/// bytes at `16 * k` are the header of section `k`.
pub proof fn headers_bytes_row(sections: Seq<SectionView>, k: int)
    requires
        0 <= k < sections.len(),
    ensures
        headers_bytes(sections).len() == 16 * sections.len(),
        headers_bytes(sections).subrange(16 * k, 16 * k + 16) == sections[k].header().spec_wire(),
    decreases sections.len(),
{
    headers_bytes_len(sections);
    headers_bytes_len(sections.drop_last());
    section_header_round_trip(sections.last().header(), Seq::empty());
    if k == sections.len() - 1 {
        assert(headers_bytes(sections).subrange(16 * k, 16 * k + 16)
            =~= sections[k].header().spec_wire());
    } else {
        headers_bytes_row(sections.drop_last(), k);
        assert(headers_bytes(sections).subrange(16 * k, 16 * k + 16) =~= headers_bytes(
            sections.drop_last(),
        ).subrange(16 * k, 16 * k + 16));
    }
}

/// The headers of the sections take sixteen bytes each.
pub proof fn headers_bytes_len(sections: Seq<SectionView>)
    ensures
        headers_bytes(sections).len() == 16 * sections.len(),
    decreases sections.len(),
{
    if sections.len() > 0 {
        headers_bytes_len(sections.drop_last());
        section_header_round_trip(sections.last().header(), Seq::empty());
    }
}

/// The payloads of the first sections take as many bytes as their headers
/// say, when a `usize` can hold the number of bits of each.
pub proof fn payloads_len_of_sections(sections: Seq<SectionView>, count: int)
    requires
        0 <= count <= sections.len(),
        forall|i: int| 0 <= i < sections.len() ==> (#[trigger] sections[i]).bits().len() <= usize::MAX,
    ensures
        payloads_bytes(sections.take(count)).len() == payloads_len(
            sections.map_values(|s: SectionView| s.header()).take(count),
        ),
    decreases count,
{
    let headers = sections.map_values(|s: SectionView| s.header());
    if count > 0 {
        payloads_len_of_sections(sections, count - 1);
        assert(sections.take(count).drop_last() =~= sections.take(count - 1));
        assert(headers.take(count).drop_last() =~= headers.take(count - 1));
        assert(headers.take(count).last() == sections[count - 1].header());
        assert(sections.take(count).last() == sections[count - 1]);
        assert(sections[count - 1].bits().len() <= usize::MAX);
    }
}

/// The payload of section `k` lies among the payloads behind the payloads
/// of the sections before it.
pub proof fn payloads_bytes_row(sections: Seq<SectionView>, k: int)
    requires
        0 <= k < sections.len(),
    ensures
        ({
            let at = payloads_bytes(sections.take(k)).len() as int;
            let len = sections[k].payload().len() as int;
            &&& at + len <= payloads_bytes(sections).len()
            &&& payloads_bytes(sections).subrange(at, at + len) == sections[k].payload()
        }),
    decreases sections.len(),
{
    let at = payloads_bytes(sections.take(k)).len() as int;
    let len = sections[k].payload().len() as int;
    if k == sections.len() - 1 {
        assert(sections.take(k) =~= sections.drop_last());
        assert(payloads_bytes(sections).subrange(at, at + len) =~= sections[k].payload());
    } else {
        payloads_bytes_row(sections.drop_last(), k);
        assert(sections.drop_last().take(k) =~= sections.take(k));
        assert(payloads_bytes(sections).subrange(at, at + len) =~= payloads_bytes(
            sections.drop_last(),
        ).subrange(at, at + len));
    }
}

impl ObjectFileView {
    /// The header that opens the written object file.
    pub open spec fn header(self) -> ObjectHeader {
        ObjectHeader {
            architecture: self.architecture,
            section_count: frame_count(self.sections.len(), 2),
        }
    }

    /// The byte at which the payloads start in the written object file.
    pub open spec fn payloads_start(self) -> int {
        9 + 16 * (self.sections.len() as int + 2)
    }

    /// The byte at which the symbol table starts in the written object
    /// file.
    pub open spec fn symbols_start(self) -> int {
        self.payloads_start() + payloads_bytes(self.sections).len()
    }

    /// The byte at which the relocation table starts in the written object
    /// file.
    pub open spec fn relocations_start(self) -> int {
        self.symbols_start() + gathered_symbols(self.sections).payload().len()
    }
}

/// Where the parts of a written object file lie.
#[verifier::rlimit(40)]
pub proof fn wire_parts(object: ObjectFileView)
    ensures
        ({
            let w = object.wire();
            let n = object.sections.len() as int;
            &&& w.len() == object.relocations_start() + gathered_relocations(
                object.sections,
            ).payload().len()
            &&& w.subrange(0, 9) == object.header().spec_wire()
            &&& w.subrange(9, 9 + 16 * n) == headers_bytes(object.sections)
            &&& w.subrange(9 + 16 * n, 9 + 16 * n + 16) == symbols_header(
                gathered_symbols(object.sections),
            ).spec_wire()
            &&& w.subrange(9 + 16 * n + 16, 9 + 16 * n + 32) == relocations_header(
                gathered_relocations(object.sections),
            ).spec_wire()
            &&& w.subrange(object.payloads_start(), object.symbols_start()) == payloads_bytes(
                object.sections,
            )
            &&& w.subrange(object.symbols_start(), object.relocations_start())
                == gathered_symbols(object.sections).payload()
            &&& w.subrange(object.relocations_start(), w.len() as int) == gathered_relocations(
                object.sections,
            ).payload()
        }),
{
    reveal(ObjectFileView::wire);
    let w = object.wire();
    let n = object.sections.len() as int;
    let symbols = gathered_symbols(object.sections);
    let relocations = gathered_relocations(object.sections);
    object_header_round_trip(object.header(), Seq::empty());
    headers_bytes_len(object.sections);
    section_header_round_trip(symbols_header(symbols), Seq::empty());
    section_header_round_trip(relocations_header(relocations), Seq::empty());
    assert(w.subrange(0, 9) =~= object.header().spec_wire());
    assert(w.subrange(9, 9 + 16 * n) =~= headers_bytes(object.sections));
    assert(w.subrange(9 + 16 * n, 9 + 16 * n + 16) =~= symbols_header(symbols).spec_wire());
    assert(w.subrange(9 + 16 * n + 16, 9 + 16 * n + 32) =~= relocations_header(
        relocations,
    ).spec_wire());
    assert(w.subrange(object.payloads_start(), object.symbols_start()) =~= payloads_bytes(
        object.sections,
    ));
    assert(w.subrange(object.symbols_start(), object.relocations_start()) =~= symbols.payload());
    assert(w.subrange(object.relocations_start(), w.len() as int) =~= relocations.payload());
}

/// In a written object file, the payload of section `idx` starts behind
/// the payloads that the headers before it frame.
pub proof fn written_payload_at(object: ObjectFileView, idx: int)
    requires
        object.storable(),
        0 <= idx < object.sections.len(),
    ensures
        ({
            let w = object.wire();
            let at = object.payloads_start() + payloads_len(written_headers(object).take(idx));
            let len = packed_len(object.sections[idx].bits().len()) as int;
            &&& at + len <= w.len()
            &&& w.subrange(at, w.len() as int) == packed(object.sections[idx].bits())
                + w.subrange(at + len, w.len() as int)
        }),
{
    let w = object.wire();
    let sections = object.sections;
    let headers = written_headers(object);
    wire_parts(object);
    assert(headers.take(idx) =~= sections.map_values(|s: SectionView| s.header()).take(idx));
    assert forall|i: int| 0 <= i < sections.len() implies (#[trigger] sections[i]).bits().len()
        <= usize::MAX by {
        assert(sections[i].storable());
    }
    payloads_len_of_sections(sections, idx);
    payloads_bytes_row(sections, idx);
    let at = object.payloads_start() + payloads_bytes(sections.take(idx)).len();
    let len = sections[idx].payload().len() as int;
    assert(w.subrange(at, at + len) =~= w.subrange(
        object.payloads_start(),
        object.symbols_start(),
    ).subrange(at - object.payloads_start(), at - object.payloads_start() + len));
    assert(w.subrange(at, w.len() as int) =~= w.subrange(at, at + len) + w.subrange(
        at + len,
        w.len() as int,
    ));
}

/// Section `idx` of a written, storable object file is read back as it was
/// written.
#[verifier::rlimit(40)]
pub proof fn written_section_at(object: ObjectFileView, idx: int)
    requires
        object.storable(),
        0 <= idx < object.sections.len(),
    ensures
        SectionView::parse(
            written_headers(object)[idx],
            object.wire().subrange(
                object.payloads_start() + payloads_len(written_headers(object).take(idx)),
                object.wire().len() as int,
            ),
            gathered_symbols(object.sections).symbols_of(low32(idx as nat)),
            gathered_relocations(object.sections).relocations_of(idx as usize),
        ) matches Ok((_, section)) && section == object.sections[idx],
{
    let w = object.wire();
    let sections = object.sections;
    let n = sections.len() as int;
    let section = sections[idx];
    assert(section.storable());
    assert(written_headers(object)[idx] == section.header());
    written_payload_at(object, idx);
    let at = object.payloads_start() + payloads_len(written_headers(object).take(idx));
    let len = packed_len(section.bits().len()) as int;
    unpack_packed(section.bits(), w.subrange(at + len, w.len() as int));
    assert(sections.take(n) =~= sections);
    gathered_symbols_scatter(object, n, idx);
    gathered_relocations_scatter(object, n, idx);
}

/// The first `count` sections of a written, storable object file are read
/// back as they were written.
pub proof fn written_sections_at(object: ObjectFileView, count: int)
    requires
        object.storable(),
        0 <= count <= object.sections.len(),
    ensures
        sections_at(
            object.wire(),
            object.payloads_start() as nat,
            written_headers(object),
            gathered_symbols(object.sections),
            gathered_relocations(object.sections),
            count as nat,
        ) == Ok::<Seq<SectionView>, SerializationError>(object.sections.take(count)),
    decreases count,
{
    if count == 0 {
        assert(object.sections.take(0) =~= Seq::empty());
    } else {
        let idx = count - 1;
        written_sections_at(object, idx);
        written_section_at(object, idx);
        assert(object.sections.take(count) =~= object.sections.take(idx).push(
            object.sections[idx],
        ));
    }
}

/// The headers of a written object file frame sections first, then the two
/// tables, and the tables start where the payloads of the sections end.
pub proof fn written_frames(object: ObjectFileView)
    requires
        object.storable(),
    ensures
        well_framed(written_headers(object)),
        written_headers(object).len() == object.sections.len() + 2,
        object.payloads_start() + payloads_len(
            written_headers(object).take(object.sections.len() as int),
        ) == object.symbols_start(),
{
    let sections = object.sections;
    let n = sections.len() as int;
    let headers = written_headers(object);
    assert(all_text(headers.take(n))) by {
        assert forall|i: int| 0 <= i < headers.take(n).len() implies (#[trigger] headers.take(
            n,
        )[i]) is Text by {
            assert(headers.take(n)[i] == sections[i].header());
        }
    }
    assert(headers.take(n) =~= sections.map_values(|s: SectionView| s.header()).take(n));
    assert forall|i: int| 0 <= i < sections.len() implies (#[trigger] sections[i]).bits().len()
        <= usize::MAX by {
        assert(sections[i].storable());
    }
    payloads_len_of_sections(sections, n);
    assert(sections.take(n) =~= sections);
}

/// The tables that are gathered from a storable object file are storable,
/// and their headers hold their counts.
#[verifier::rlimit(40)]
pub proof fn gathered_tables(object: ObjectFileView)
    requires
        object.storable(),
    ensures
        gathered_symbols(object.sections).storable(),
        gathered_relocations(object.sections).storable(),
        symbols_header(gathered_symbols(object.sections)) == SectionHeader::SymbolTable(
            super::sections::header::SymbolTableHeader {
                entry_count: gathered_symbols(object.sections).entries.len() as u32,
                names_length: gathered_symbols(object.sections).names.len() as u32,
            },
        ),
        relocations_header(gathered_relocations(object.sections))
            == SectionHeader::RelocationTable(
            super::sections::header::RelocationTableHeader {
                entry_count: gathered_relocations(object.sections).entries.len() as u32,
                names_length: gathered_relocations(object.sections).names.len() as u32,
            },
        ),
{
    let sections = object.sections;
    let n = sections.len() as int;
    let symbols = gathered_symbols(sections);
    let relocations = gathered_relocations(sections);
    assert(sections.take(n) =~= sections);
    if n > 0 {
        gathered_symbols_scatter(object, n, 0);
        gathered_relocations_scatter(object, n, 0);
    } else {
        crate::symbols::laws::empty_table(0);
        super::relocations::laws::empty_table(0);
    }
    assert(low32(symbols.entries.len()) == symbols.entries.len());
    assert(low32(symbols.names.len()) == symbols.names.len());
    assert(low32(relocations.entries.len()) == relocations.entries.len());
    assert(low32(relocations.names.len()) == relocations.names.len());
}

/// The symbol table of a written, storable object file is read back as it
/// was written.
#[verifier::rlimit(40)]
pub proof fn written_symbol_table(object: ObjectFileView)
    requires
        object.storable(),
    ensures
        ({
            let w = object.wire();
            let symbols = gathered_symbols(object.sections);
            &&& object.symbols_start() <= object.relocations_start() <= w.len()
            &&& object.relocations_start() == object.symbols_start() + 12 * symbols.entries.len()
                + symbols.names.len()
            &&& SymbolTableView::parse(
                w.subrange(object.symbols_start(), w.len() as int),
                symbols.entries.len(),
                symbols.names.len(),
            ) matches Ok((_, table)) && table == symbols
        }),
{
    let w = object.wire();
    let symbols = gathered_symbols(object.sections);
    wire_parts(object);
    gathered_tables(object);
    let rest = w.subrange(object.relocations_start(), w.len() as int);
    assert(w.subrange(object.symbols_start(), w.len() as int) =~= w.subrange(
        object.symbols_start(),
        object.relocations_start(),
    ) + rest);
    crate::symbols::laws::table_round_trip(symbols, rest);
}

/// The relocation table of a written, storable object file is read back as
/// it was written.
#[verifier::rlimit(40)]
pub proof fn written_relocation_table(object: ObjectFileView)
    requires
        object.storable(),
    ensures
        ({
            let w = object.wire();
            let relocations = gathered_relocations(object.sections);
            &&& object.relocations_start() <= w.len()
            &&& w.len() == object.relocations_start() + 16 * relocations.entries.len()
                + relocations.names.len()
            &&& RelocationTableView::parse(
                w.subrange(object.relocations_start(), w.len() as int),
                relocations.entries.len(),
                relocations.names.len(),
            ) matches Ok((_, table)) && table == relocations
        }),
{
    let w = object.wire();
    let relocations = gathered_relocations(object.sections);
    wire_parts(object);
    gathered_tables(object);
    assert(w.subrange(object.relocations_start(), w.len() as int) =~= relocations.payload()
        + Seq::<u8>::empty());
    super::relocations::laws::table_round_trip(relocations, Seq::empty());
}

/// The header of a written object file is read back as it was written, and
/// it announces the sections and the two tables.
pub proof fn written_header(object: ObjectFileView)
    requires
        object.sections.len() + 2 < 0x1_0000_0000,
    ensures
        ObjectHeader::parse(object.wire()) == Ok::<(usize, ObjectHeader), SerializationError>(
            (9, object.header()),
        ),
        object.header().section_count == object.sections.len() + 2,
        object.header().architecture == object.architecture,
{
    let w = object.wire();
    wire_parts(object);
    assert(w =~= w.subrange(0, 9) + w.subrange(9, w.len() as int));
    object_header_round_trip(object.header(), w.subrange(9, w.len() as int));
}

/// The section headers of a written object file are read back as they were
/// written.
pub proof fn whole_headers_at(object: ObjectFileView)
    ensures
        headers_at(object.wire(), (object.sections.len() + 2) as nat) == Ok::<
            Seq<SectionHeader>,
            SerializationError,
        >(written_headers(object)),
{
    let w = object.wire();
    let n = object.sections.len() as int;
    wire_parts(object);
    cut_headers_at(object, w.len() as int, n + 2);
    assert(w.take(w.len() as int) =~= w);
    assert(written_headers(object).take(n + 2) =~= written_headers(object));
}

/// The header and the section headers of a written object file are read
/// back as they were written.
pub proof fn written_header_and_frames(object: ObjectFileView)
    requires
        object.sections.len() + 2 < 0x1_0000_0000,
    ensures
        ObjectFileView::parse(object.wire()) == ObjectFileView::parse_payloads(
            object.wire(),
            object.architecture,
            written_headers(object),
        ),
{
    written_header(object);
    whole_headers_at(object);
}

/// The payloads of a written, storable object file are read back as they
/// were written.
#[verifier::rlimit(40)]
pub proof fn written_payloads(object: ObjectFileView)
    requires
        object.storable(),
    ensures
        ObjectFileView::parse_payloads(
            object.wire(),
            object.architecture,
            written_headers(object),
        ) == Ok::<(usize, ObjectFileView), SerializationError>(
            (object.wire().len() as usize, object),
        ),
{
    reveal(ObjectFileView::parse_payloads);
    let w = object.wire();
    let sections = object.sections;
    let n = sections.len() as int;
    let headers = written_headers(object);
    written_frames(object);
    gathered_tables(object);
    written_symbol_table(object);
    written_relocation_table(object);
    written_sections_at(object, n);
    assert(sections.take(n) =~= sections);
    assert(headers[n] == symbols_header(gathered_symbols(sections)));
    assert(headers[n + 1] == relocations_header(gathered_relocations(sections)));
}

/// Reading a written object file gives the object file back and takes
/// every byte, whenever the object file is storable.
pub proof fn object_file_round_trip(object: ObjectFileView)
    requires
        object.storable(),
    ensures
        ObjectFileView::parse(object.wire()) == Ok::<(usize, ObjectFileView), SerializationError>(
            (object.wire().len() as usize, object),
        ),
{
    written_header_and_frames(object);
    written_payloads(object);
}

/// The length of a written object file: nine bytes, sixteen for each
/// header, and the payloads of the sections and of the two tables. For a
/// storable object file the payloads take what the headers say.
pub proof fn written_length(object: ObjectFileView)
    ensures
        object.wire().len() == 9 + 16 * (object.sections.len() + 2) + payloads_bytes(
            object.sections,
        ).len() + gathered_symbols(object.sections).payload().len() + gathered_relocations(
            object.sections,
        ).payload().len(),
        object.storable() ==> object.wire().len() == 9 + 16 * (object.sections.len() + 2)
            + payloads_len(written_headers(object)),
{
    wire_parts(object);
    if object.storable() {
        let n = object.sections.len() as int;
        let headers = written_headers(object);
        written_frames(object);
        gathered_tables(object);
        written_symbol_table(object);
        written_relocation_table(object);
        assert(headers.drop_last().drop_last() =~= headers.take(n));
        assert(headers.drop_last().last() == headers[n]);
        assert(headers.last() == headers[n + 1]);
        assert(payloads_len(headers) == payloads_len(headers.drop_last())
            + headers.last().spec_section_size());
        assert(payloads_len(headers.drop_last()) == payloads_len(headers.drop_last().drop_last())
            + headers.drop_last().last().spec_section_size());
        assert(headers[n] == symbols_header(gathered_symbols(object.sections)));
        assert(headers[n + 1] == relocations_header(gathered_relocations(object.sections)));
    }
}

/// Header `k` is read from the start of a written object file as it was
/// written, as soon as the start holds the whole header.
pub proof fn cut_header_at(object: ObjectFileView, cut: int, k: int)
    requires
        0 <= k < object.sections.len() + 2,
        9 + 16 * k + 16 <= cut <= object.wire().len(),
    ensures
        header_at(object.wire().take(cut), k as nat) == Ok::<SectionHeader, SerializationError>(
            written_headers(object)[k],
        ),
{
    let w = object.wire();
    let p = w.take(cut);
    let n = object.sections.len() as int;
    let header = written_headers(object)[k];
    wire_parts(object);
    section_header_round_trip(header, p.subrange(9 + 16 * k + 16, cut));
    if k < n {
        headers_bytes_row(object.sections, k);
        assert(w.subrange(9 + 16 * k, 9 + 16 * k + 16) =~= w.subrange(9, 9 + 16 * n).subrange(
            16 * k,
            16 * k + 16,
        ));
    }
    assert(p.subrange(9 + 16 * k, cut) =~= w.subrange(9 + 16 * k, 9 + 16 * k + 16) + p.subrange(
        9 + 16 * k + 16,
        cut,
    ));
}

/// The first `count` headers are read from the start of a written object
/// file as they were written, as soon as the start holds them whole.
pub proof fn cut_headers_at(object: ObjectFileView, cut: int, count: int)
    requires
        0 <= count <= object.sections.len() + 2,
        9 + 16 * count <= cut <= object.wire().len(),
    ensures
        headers_at(object.wire().take(cut), count as nat) == Ok::<
            Seq<SectionHeader>,
            SerializationError,
        >(written_headers(object).take(count)),
    decreases count,
{
    if count == 0 {
        assert(written_headers(object).take(0) =~= Seq::empty());
    } else {
        cut_headers_at(object, cut, count - 1);
        cut_header_at(object, cut, count - 1);
        assert(written_headers(object).take(count) =~= written_headers(object).take(
            count - 1,
        ).push(written_headers(object)[count - 1]));
    }
}

/// A start of a written object file that ends among the headers is too
/// short to read the headers from.
pub proof fn cut_among_headers(object: ObjectFileView, cut: int)
    requires
        9 <= cut < 9 + 16 * (object.sections.len() + 2),
        cut <= object.wire().len(),
    ensures
        headers_at(object.wire().take(cut), (object.sections.len() + 2) as nat) == Err::<
            Seq<SectionHeader>,
            SerializationError,
        >(SerializationError::DataTooShort),
{
    let p = object.wire().take(cut);
    let whole = (cut - 9) / 16;
    cut_headers_at(object, cut, whole);
    assert(header_at(p, whole as nat) is Err);
    headers_at_error_stays(p, (whole + 1) as nat, (object.sections.len() + 2) as nat);
}

/// A start of a written, storable object file that holds the headers but
/// not every payload is too short to read the payloads from.
#[verifier::rlimit(40)]
pub proof fn cut_among_payloads(object: ObjectFileView, cut: int)
    requires
        object.storable(),
        9 + 16 * (object.sections.len() + 2) <= cut < object.wire().len(),
    ensures
        ObjectFileView::parse_payloads(
            object.wire().take(cut),
            object.architecture,
            written_headers(object),
        ) == Err::<(usize, ObjectFileView), SerializationError>(SerializationError::DataTooShort),
{
    reveal(ObjectFileView::parse_payloads);
    let w = object.wire();
    let p = w.take(cut);
    let sections = object.sections;
    let n = sections.len() as int;
    let headers = written_headers(object);
    let symbols = gathered_symbols(sections);
    let relocations = gathered_relocations(sections);
    written_frames(object);
    gathered_tables(object);
    written_symbol_table(object);
    written_relocation_table(object);
    wire_parts(object);
    assert(headers[n] == symbols_header(symbols));
    assert(headers[n + 1] == relocations_header(relocations));
    if cut >= object.relocations_start() {
        let rest = p.subrange(object.relocations_start(), cut);
        assert(p.subrange(object.symbols_start(), cut) =~= symbols.payload() + rest);
        crate::symbols::laws::table_round_trip(symbols, rest);
    }
}

/// Reading any proper start of a written object file fails because the
/// data is too short, whenever the object file is storable.
#[verifier::rlimit(40)]
pub proof fn object_file_cut_short(object: ObjectFileView, cut: int)
    requires
        object.storable(),
        0 <= cut < object.wire().len(),
    ensures
        ObjectFileView::parse(object.wire().take(cut)) == Err::<
            (usize, ObjectFileView),
            SerializationError,
        >(SerializationError::DataTooShort),
{
    let w = object.wire();
    let p = w.take(cut);
    let n = object.sections.len() as int;
    if cut >= 9 {
        wire_parts(object);
        assert(p =~= w.subrange(0, 9) + p.subrange(9, cut));
        object_header_round_trip(object.header(), p.subrange(9, cut));
        assert(frame_count(object.sections.len(), 2) == n + 2);
        if cut < 9 + 16 * (n + 2) {
            cut_among_headers(object, cut);
        } else {
            cut_headers_at(object, cut, n + 2);
            assert(written_headers(object).take(n + 2) =~= written_headers(object));
            cut_among_payloads(object, cut);
        }
    }
}

/// Reading a written object file that has lost its last byte fails because
/// the data is too short, whenever the object file is storable.
pub proof fn object_file_truncated(object: ObjectFileView)
    requires
        object.storable(),
    ensures
        object.wire().len() > 0,
        ObjectFileView::parse(object.wire().drop_last()) == Err::<
            (usize, ObjectFileView),
            SerializationError,
        >(SerializationError::DataTooShort),
{
    written_length(object);
    object_file_cut_short(object, object.wire().len() - 1);
    assert(object.wire().drop_last() =~= object.wire().take(object.wire().len() - 1));
}

} // verus!
