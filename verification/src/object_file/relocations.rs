pub mod laws;

use super::sections::header::{RelocationTableHeader, SectionHeader};
use crate::address::Address;
use crate::codec::{
    low32, low_bits, read_u32, u32_at, u32_bytes, u32_bytes_len, write_bytes, write_u32,
};
use crate::serializable::SerializationError;
use crate::sequence::map_values_push;
use crate::symbols::{name_at, read_name};
use vstd::prelude::*;
use vstd::utf8::encode_utf8;

verus! {

/// A request to patch the signed 16-bit field at `address`, a bit offset
/// into the owning section, once the address of `symbol` is known.
/// `relative` asks for the distance from the field to the symbol in place of
/// the symbol's address.
#[derive(Debug)]
pub struct Relocation {
    pub symbol: String,
    pub address: Address,
    pub relative: bool,
}

/// What a relocation is: the characters of the symbol's name, the bit
/// offset of the field, and the kind.
pub ghost struct RelocationView {
    pub symbol: Seq<char>,
    pub address: usize,
    pub relative: bool,
}

impl View for Relocation {
    type V = RelocationView;

    open spec fn view(&self) -> RelocationView {
        RelocationView { symbol: self.symbol@, address: self.address.0, relative: self.relative }
    }
}

impl Clone for Relocation {
    fn clone(&self) -> (copy: Self)
        ensures
            copy@ == self@,
    {
        Relocation { symbol: self.symbol.clone(), address: self.address, relative: self.relative }
    }
}

/// What each of some relocations is, in order.
pub open spec fn relocation_views(relocations: Seq<Relocation>) -> Seq<RelocationView> {
    relocations.map_values(|r: Relocation| r@)
}

/// Copies a list of relocations.
pub fn clone_relocations(relocations: &Vec<Relocation>) -> (copy: Vec<Relocation>)
    ensures
        relocation_views(copy@) == relocation_views(relocations@),
{
    let mut copy: Vec<Relocation> = Vec::new();
    let mut i: usize = 0;
    while i < relocations.len()
        invariant
            i <= relocations@.len(),
            copy@.len() == i,
            forall|k: int| 0 <= k < i ==> (#[trigger] copy@[k])@ == relocations@[k]@,
        decreases relocations@.len() - i,
    {
        copy.push(relocations[i].clone());
        i = i + 1;
    }
    assert(relocation_views(copy@) =~= relocation_views(relocations@));
    copy
}

/// One row of a relocation table: the section that owns the relocation,
/// where the symbol's name starts among the names, the bit offset of the
/// field, and the kind.
#[derive(Debug, Clone, Copy, PartialEq, Eq, Structural)]
pub struct RelocationEntry {
    pub section_id: usize,
    pub symbol_offset: usize,
    pub address: Address,
    pub relative: bool,
}

/// The sixteen bytes of a row: section, name offset and address, each cut
/// down to its low 32 bits, then the kind and three zero bytes.
pub open spec fn relocation_bytes(entry: RelocationEntry) -> Seq<u8> {
    u32_bytes(low32(entry.section_id as nat)) + u32_bytes(low32(entry.symbol_offset as nat))
        + u32_bytes(low32(entry.address.0 as nat)) + seq![if entry.relative { 1u8 } else { 0u8 }, 0u8, 0u8, 0u8]
}

/// The rows one after the other.
pub open spec fn relocations_bytes(entries: Seq<RelocationEntry>) -> Seq<u8>
    decreases entries.len(),
{
    if entries.len() == 0 {
        Seq::empty()
    } else {
        relocations_bytes(entries.drop_last()) + relocation_bytes(entries.last())
    }
}

/// The row that the sixteen bytes from `16 * i` on stand for.
pub open spec fn relocation_at(data: Seq<u8>, i: int) -> RelocationEntry {
    RelocationEntry {
        section_id: u32_at(data, 16 * i) as usize,
        symbol_offset: u32_at(data, 16 * i + 4) as usize,
        address: Address(u32_at(data, 16 * i + 8) as usize),
        relative: data[16 * i + 12] != 0,
    }
}

/// The first `count` rows that `data` stands for.
pub open spec fn relocations_at(data: Seq<u8>, count: nat) -> Seq<RelocationEntry> {
    Seq::new(count, |i: int| relocation_at(data, i))
}

/// Whether every row's name starts before `limit`.
pub open spec fn symbols_start_within(entries: Seq<RelocationEntry>, limit: nat) -> bool {
    forall|i: int| 0 <= i < entries.len() ==> (#[trigger] entries[i]).symbol_offset < limit
}

/// What a relocation table is: its rows and the bytes of its names, each
/// name closed by a zero byte.
pub ghost struct RelocationTableView {
    pub entries: Seq<RelocationEntry>,
    pub names: Seq<u8>,
}

impl RelocationTableView {
    /// What holds of every relocation table: the name of every row starts
    /// among the names, and the names hold a zero byte unless they are
    /// empty.
    pub open spec fn well_formed(self) -> bool {
        &&& symbols_start_within(self.entries, self.names.len())
        &&& self.names.len() > 0 ==> self.names.contains(0u8)
    }

    /// The table with no row.
    pub open spec fn empty() -> RelocationTableView {
        RelocationTableView { entries: Seq::empty(), names: Seq::empty() }
    }

    /// The table after `relocation` is added for `section_id`: a row more,
    /// and the name with its closing zero byte behind the other names.
    pub open spec fn add(self, section_id: usize, relocation: RelocationView) -> RelocationTableView {
        RelocationTableView {
            entries: self.entries.push(
                RelocationEntry {
                    section_id,
                    symbol_offset: self.names.len() as usize,
                    address: Address(relocation.address),
                    relative: relocation.relative,
                },
            ),
            names: self.names + encode_utf8(relocation.symbol) + seq![0u8],
        }
    }

    /// The relocation that a row stands for.
    pub open spec fn relocation(self, entry: RelocationEntry) -> RelocationView {
        RelocationView {
            symbol: name_at(self.names, entry.symbol_offset as int),
            address: entry.address.0,
            relative: entry.relative,
        }
    }

    /// The relocations of one section, in the order of their rows.
    pub open spec fn relocations_of(self, section_id: usize) -> Seq<RelocationView> {
        self.entries.filter(|e: RelocationEntry| e.section_id == section_id).map_values(
            |e: RelocationEntry| self.relocation(e),
        )
    }

    /// The bytes of the table: the rows, then the names.
    pub open spec fn payload(self) -> Seq<u8> {
        relocations_bytes(self.entries) + self.names
    }

    /// What decoding makes of `data` for a table of `entry_count` rows and
    /// `names_length` bytes of names: too short when the data ends before
    /// the names do; invalid when the name of a row starts behind the names,
    /// or when the names are not empty and hold no zero byte; else the rows
    /// and the names, which end what is read.
    pub open spec fn parse(data: Seq<u8>, entry_count: nat, names_length: nat) -> Result<
        (usize, RelocationTableView),
        SerializationError,
    > {
        let entries = relocations_at(data, entry_count);
        let names = data.subrange(16 * entry_count as int, (16 * entry_count + names_length) as int);
        if data.len() < 16 * entry_count + names_length {
            Err(SerializationError::DataTooShort)
        } else if !symbols_start_within(entries, names_length) {
            Err(SerializationError::InvalidData)
        } else if names_length > 0 && !names.contains(0u8) {
            Err(SerializationError::InvalidData)
        } else {
            Ok(((16 * entry_count + names_length) as usize, RelocationTableView { entries, names }))
        }
    }
}

/// `table` with `relocations` added for section `section_id`, in order.
pub open spec fn with_relocations(
    table: RelocationTableView,
    section_id: usize,
    relocations: Seq<RelocationView>,
) -> RelocationTableView
    decreases relocations.len(),
{
    if relocations.len() == 0 {
        table
    } else {
        with_relocations(table, section_id, relocations.drop_last()).add(
            section_id,
            relocations.last(),
        )
    }
}

/// A table of relocations, each owned by a numbered section.
#[derive(Debug)]
pub struct RelocationTable {
    entries: Vec<RelocationEntry>,
    names: Vec<u8>,
}

impl View for RelocationTable {
    type V = RelocationTableView;

    closed spec fn view(&self) -> RelocationTableView {
        RelocationTableView { entries: self.entries@, names: self.names@ }
    }
}

/// Rows take sixteen bytes each.
pub proof fn relocations_bytes_len(entries: Seq<RelocationEntry>)
    ensures
        relocations_bytes(entries).len() == 16 * entries.len(),
    decreases entries.len(),
{
    if entries.len() > 0 {
        relocations_bytes_len(entries.drop_last());
        let e = entries.last();
        u32_bytes_len(low32(e.section_id as nat));
        u32_bytes_len(low32(e.symbol_offset as nat));
        u32_bytes_len(low32(e.address.0 as nat));
    }
}

impl Clone for RelocationTable {
    fn clone(&self) -> (copy: Self)
        ensures
            copy@ == self@,
    {
        let copy = RelocationTable { entries: self.entries.clone(), names: self.names.clone() };
        assert(copy.entries@ =~= self.entries@);
        assert(copy.names@ =~= self.names@);
        copy
    }
}

/// Adding a relocation to a well-formed table gives a well-formed table.
pub proof fn add_keeps_well_formed(
    table: RelocationTableView,
    section_id: usize,
    relocation: RelocationView,
)
    requires
        table.well_formed(),
        table.names.len() <= usize::MAX,
    ensures
        table.add(section_id, relocation).well_formed(),
{
    let after = table.add(section_id, relocation);
    assert(after.names[after.names.len() - 1] == 0u8);
    assert forall|i: int| 0 <= i < after.entries.len() implies (
    #[trigger] after.entries[i]).symbol_offset < after.names.len() by {
        if i < table.entries.len() {
            assert(after.entries[i] == table.entries[i]);
        }
    }
}

/// A table that is read from bytes is well-formed.
pub proof fn parsed_is_well_formed(data: Seq<u8>, entry_count: nat, names_length: nat)
    ensures
        RelocationTableView::parse(data, entry_count, names_length) matches Ok((_, table))
            ==> table.well_formed(),
{
}

impl RelocationTable {
    /// A table without rows, which is well-formed.
    pub fn new() -> (table: Self)
        ensures
            table@ == RelocationTableView::empty(),
            table@.well_formed(),
    {
        RelocationTable { entries: Vec::new(), names: Vec::new() }
    }

    /// Adds `relocation` as a relocation of section `section_id`. A
    /// well-formed table stays well-formed.
    pub fn add_relocation(&mut self, section_id: usize, relocation: Relocation)
        ensures
            final(self)@ == old(self)@.add(section_id, relocation@),
            old(self)@.well_formed() ==> final(self)@.well_formed(),
    {
        let symbol_offset = self.names.len();
        proof {
            if old(self)@.well_formed() {
                add_keeps_well_formed(old(self)@, section_id, relocation@);
            }
        }
        write_bytes(&mut self.names, relocation.symbol.as_str().as_bytes());
        self.names.push(0);
        self.entries.push(
            RelocationEntry {
                section_id,
                symbol_offset,
                address: relocation.address,
                relative: relocation.relative,
            },
        );
        assert(self.names@ =~= old(self).names@ + encode_utf8(relocation.symbol@) + seq![0u8]);
    }

    /// Adds copies of `relocations` as relocations of section `section_id`,
    /// in order. A well-formed table stays well-formed.
    pub fn add_relocations(&mut self, section_id: usize, relocations: &Vec<Relocation>)
        ensures
            final(self)@ == with_relocations(
                old(self)@,
                section_id,
                relocation_views(relocations@),
            ),
            old(self)@.well_formed() ==> final(self)@.well_formed(),
    {
        let mut i: usize = 0;
        while i < relocations.len()
            invariant
                i <= relocations@.len(),
                old(self)@.well_formed() ==> self@.well_formed(),
                self@ == with_relocations(
                    old(self)@,
                    section_id,
                    relocation_views(relocations@.take(i as int)),
                ),
            decreases relocations@.len() - i,
        {
            let relocation = relocations[i].clone();
            self.add_relocation(section_id, relocation);
            i = i + 1;
            proof {
                let done = relocation_views(relocations@.take(i as int));
                assert(done.drop_last() =~= relocation_views(relocations@.take(i - 1)));
                assert(done.last() == relocations@[i - 1]@);
            }
        }
        assert(relocations@.take(i as int) =~= relocations@);
    }

    /// The table as a section of an object file: its header and its bytes.
    /// The header's two counts are cut down to their low 32 bits.
    pub fn serialize(&self) -> (framed: (SectionHeader, Vec<u8>))
        ensures
            framed.0 == SectionHeader::RelocationTable(
                RelocationTableHeader {
                    entry_count: low32(self@.entries.len()),
                    names_length: low32(self@.names.len()),
                },
            ),
            framed.1@ == self@.payload(),
    {
        let mut data: Vec<u8> = Vec::new();
        let mut i: usize = 0;
        while i < self.entries.len()
            invariant
                i <= self.entries@.len(),
                data@ == relocations_bytes(self.entries@.take(i as int)),
            decreases self.entries@.len() - i,
        {
            let entry = self.entries[i];
            let ghost before = data@;
            write_u32(&mut data, low_bits(entry.section_id));
            write_u32(&mut data, low_bits(entry.symbol_offset));
            write_u32(&mut data, low_bits(entry.address.0));
            data.push(if entry.relative { 1 } else { 0 });
            data.push(0);
            data.push(0);
            data.push(0);
            i = i + 1;
            proof {
                let done = self.entries@.take(i as int);
                assert(done.drop_last() =~= self.entries@.take(i - 1));
                assert(done.last() == entry);
                assert(data@ =~= before + relocation_bytes(entry));
            }
        }
        assert(self.entries@.take(i as int) =~= self.entries@);
        write_bytes(&mut data, self.names.as_slice());
        let header = SectionHeader::RelocationTable(
            RelocationTableHeader {
                entry_count: low_bits(self.entries.len()),
                names_length: low_bits(self.names.len()),
            },
        );
        (header, data)
    }

    /// Reads the table that `header` frames from the start of `data`.
    pub fn deserialize(header: &RelocationTableHeader, data: &[u8]) -> (result: Result<
        (usize, Self),
        SerializationError,
    >)
        ensures
            match RelocationTableView::parse(
                data@,
                header.entry_count as nat,
                header.names_length as nat,
            ) {
                Ok((consumed, view)) => result matches Ok((n, table)) && n == consumed && table@
                    == view,
                Err(e) => result == Err::<(usize, Self), SerializationError>(e),
            },
            result matches Ok((_, table)) ==> table@.well_formed(),
    {
        let required: u64 = header.entry_count as u64 * 16 + header.names_length as u64;
        if (data.len() as u64) < required {
            return Err(SerializationError::DataTooShort);
        }
        let entry_count = header.entry_count as usize;
        let names_length = header.names_length as usize;
        let mut entries: Vec<RelocationEntry> = Vec::new();
        let mut i: usize = 0;
        while i < entry_count
            invariant
                i <= entry_count,
                entry_count == header.entry_count,
                names_length == header.names_length,
                16 * entry_count + names_length <= data.len(),
                entries@ == relocations_at(data@, i as nat),
                forall|k: int| 0 <= k < i ==> (#[trigger] entries@[k]).symbol_offset < names_length,
            decreases entry_count - i,
        {
            let at = 16 * i;
            let section_id = read_u32(data, at) as usize;
            let symbol_offset = read_u32(data, at + 4) as usize;
            let address = read_u32(data, at + 8) as usize;
            let relative = data[at + 12] != 0;
            if symbol_offset >= names_length {
                proof {
                    let all = relocations_at(data@, entry_count as nat);
                    assert(all[i as int].symbol_offset >= names_length);
                }
                return Err(SerializationError::InvalidData);
            }
            entries.push(
                RelocationEntry { section_id, symbol_offset, address: Address(address), relative },
            );
            i = i + 1;
            assert(entries@ =~= relocations_at(data@, i as nat));
        }
        let start = 16 * entry_count;
        let mut names: Vec<u8> = Vec::new();
        let mut found_zero = false;
        let mut j: usize = 0;
        while j < names_length
            invariant
                j <= names_length,
                start == 16 * entry_count,
                start + names_length <= data.len(),
                names@ == data@.subrange(start as int, start + j),
                found_zero == names@.contains(0u8),
            decreases names_length - j,
        {
            let byte = data[start + j];
            let ghost before = names@;
            names.push(byte);
            if byte == 0 {
                found_zero = true;
            }
            j = j + 1;
            proof {
                assert(names@ =~= data@.subrange(start as int, start + j));
                assert(names@ == before.push(byte));
                if before.contains(0u8) {
                    let w = choose|w: int| 0 <= w < before.len() && before[w] == 0u8;
                    assert(names@[w] == 0u8);
                }
                if byte == 0 {
                    assert(names@[j - 1] == 0u8);
                }
            }
        }
        if names_length > 0 && !found_zero {
            return Err(SerializationError::InvalidData);
        }
        Ok((start + names_length, RelocationTable { entries, names }))
    }

    /// The relocations of section `section_id`, in the order they were
    /// added.
    pub fn get_relocations(&self, section_id: usize) -> (relocations: Vec<Relocation>)
        ensures
            relocation_views(relocations@) == self@.relocations_of(section_id),
    {
        let ghost wanted = |e: RelocationEntry| e.section_id == section_id;
        let ghost made = |e: RelocationEntry| self@.relocation(e);
        let mut relocations: Vec<Relocation> = Vec::new();
        let mut i: usize = 0;
        while i < self.entries.len()
            invariant
                i <= self.entries@.len(),
                wanted == |e: RelocationEntry| e.section_id == section_id,
                made == |e: RelocationEntry| self@.relocation(e),
                relocation_views(relocations@) == self.entries@.take(i as int).filter(
                    wanted,
                ).map_values(made),
            decreases self.entries@.len() - i,
        {
            let entry = self.entries[i];
            let ghost before = self.entries@.take(i as int);
            proof {
                assert(self.entries@.take(i + 1) =~= before.push(entry));
                before.lemma_filter_push(entry, wanted);
            }
            if entry.section_id == section_id {
                let symbol = read_name(self.names.as_slice(), entry.symbol_offset);
                let relocation = Relocation {
                    symbol,
                    address: entry.address,
                    relative: entry.relative,
                };
                proof {
                    map_values_push(relocations@, relocation, |r: Relocation| r@);
                    map_values_push(before.filter(wanted), entry, made);
                }
                relocations.push(relocation);
            }
            i = i + 1;
        }
        assert(self.entries@.take(i as int) =~= self.entries@);
        relocations
    }
}

} // verus!
