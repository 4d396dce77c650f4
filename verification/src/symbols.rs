pub mod laws;

use crate::address::Address;
use crate::codec::{
    low32, low_bits, read_u32, u32_at, u32_bytes, u32_bytes_len, write_bytes, write_u32,
};
use crate::executable::segments::flags::SegmentFlags;
use crate::executable::segments::header::SegmentHeader;
use crate::object_file::sections::header::{SectionHeader, SymbolTableHeader};
use crate::sequence::map_values_push;
use crate::serializable::SerializationError;
use crate::strings::push_char;
use vstd::prelude::*;
use vstd::utf8::encode_utf8;

verus! {

/// A named address: relative to its section before placement, absolute
/// after.
#[derive(Debug)]
pub struct Symbol {
    pub name: String,
    pub address: Address,
}

/// What a symbol is: the characters of its name and its address in bits.
pub ghost struct SymbolView {
    pub name: Seq<char>,
    pub address: usize,
}

impl View for Symbol {
    type V = SymbolView;

    open spec fn view(&self) -> SymbolView {
        SymbolView { name: self.name@, address: self.address.0 }
    }
}

impl Clone for Symbol {
    fn clone(&self) -> (copy: Self)
        ensures
            copy@ == self@,
    {
        Symbol { name: self.name.clone(), address: self.address }
    }
}

/// What each of some symbols is, in order.
pub open spec fn symbol_views(symbols: Seq<Symbol>) -> Seq<SymbolView> {
    symbols.map_values(|s: Symbol| s@)
}

/// Copies a list of symbols.
pub fn clone_symbols(symbols: &Vec<Symbol>) -> (copy: Vec<Symbol>)
    ensures
        symbol_views(copy@) == symbol_views(symbols@),
{
    let mut copy: Vec<Symbol> = Vec::new();
    let mut i: usize = 0;
    while i < symbols.len()
        invariant
            i <= symbols@.len(),
            copy@.len() == i,
            forall|k: int| 0 <= k < i ==> (#[trigger] copy@[k])@ == symbols@[k]@,
        decreases symbols@.len() - i,
    {
        copy.push(symbols[i].clone());
        i = i + 1;
    }
    assert(symbol_views(copy@) =~= symbol_views(symbols@));
    copy
}

/// One row of a symbol table: the section that owns the symbol, the
/// symbol's address, and where its name starts among the names.
#[derive(Debug, Clone, Copy, PartialEq, Eq, Structural)]
pub struct SymbolEntry {
    pub section_id: u32,
    pub offset: Address,
    pub name_offset: u32,
}

/// The characters of the name that starts at `start` among `names`: one per
/// byte, up to the next zero byte or the end.
pub open spec fn name_at(names: Seq<u8>, start: int) -> Seq<char>
    decreases names.len() - start,
{
    if 0 <= start < names.len() && names[start] != 0 {
        seq![names[start] as char] + name_at(names, start + 1)
    } else {
        Seq::empty()
    }
}

/// The twelve bytes of a row: section, address and name offset, the address
/// cut down to its low 32 bits.
pub open spec fn entry_bytes(entry: SymbolEntry) -> Seq<u8> {
    u32_bytes(entry.section_id) + u32_bytes(low32(entry.offset.0 as nat)) + u32_bytes(
        entry.name_offset,
    )
}

/// The rows one after the other.
pub open spec fn entries_bytes(entries: Seq<SymbolEntry>) -> Seq<u8>
    decreases entries.len(),
{
    if entries.len() == 0 {
        Seq::empty()
    } else {
        entries_bytes(entries.drop_last()) + entry_bytes(entries.last())
    }
}

/// The row that the twelve bytes from `12 * i` on stand for.
pub open spec fn entry_at(data: Seq<u8>, i: int) -> SymbolEntry {
    SymbolEntry {
        section_id: u32_at(data, 12 * i),
        offset: Address(u32_at(data, 12 * i + 4) as usize),
        name_offset: u32_at(data, 12 * i + 8),
    }
}

/// The first `count` rows that `data` stands for.
pub open spec fn entries_at(data: Seq<u8>, count: nat) -> Seq<SymbolEntry> {
    Seq::new(count, |i: int| entry_at(data, i))
}

/// Whether every row's name starts before `limit`.
pub open spec fn names_start_within(entries: Seq<SymbolEntry>, limit: nat) -> bool {
    forall|i: int| 0 <= i < entries.len() ==> (#[trigger] entries[i]).name_offset < limit
}

/// What a symbol table is: its rows and the bytes of its names, each name
/// closed by a zero byte.
pub ghost struct SymbolTableView {
    pub entries: Seq<SymbolEntry>,
    pub names: Seq<u8>,
}

impl SymbolTableView {
    /// What holds of every symbol table: the name of every row starts among
    /// the names, and the names hold a zero byte unless they are empty.
    pub open spec fn well_formed(self) -> bool {
        &&& names_start_within(self.entries, self.names.len())
        &&& self.names.len() > 0 ==> self.names.contains(0u8)
    }

    /// The table with no row.
    pub open spec fn empty() -> SymbolTableView {
        SymbolTableView { entries: Seq::empty(), names: Seq::empty() }
    }

    /// The table after `symbol` is added for `section_id`: a row more, and
    /// the name with its closing zero byte behind the other names.
    pub open spec fn add(self, section_id: u32, symbol: SymbolView) -> SymbolTableView {
        SymbolTableView {
            entries: self.entries.push(
                SymbolEntry {
                    section_id,
                    offset: Address(symbol.address),
                    name_offset: low32(self.names.len()),
                },
            ),
            names: self.names + encode_utf8(symbol.name) + seq![0u8],
        }
    }

    /// The symbol that a row stands for.
    pub open spec fn symbol(self, entry: SymbolEntry) -> SymbolView {
        SymbolView { name: name_at(self.names, entry.name_offset as int), address: entry.offset.0 }
    }

    /// The symbols of one section, in the order of their rows.
    pub open spec fn symbols_of(self, section_id: u32) -> Seq<SymbolView> {
        self.entries.filter(|e: SymbolEntry| e.section_id == section_id).map_values(
            |e: SymbolEntry| self.symbol(e),
        )
    }

    /// The bytes of the table: the rows, then the names.
    pub open spec fn payload(self) -> Seq<u8> {
        entries_bytes(self.entries) + self.names
    }

    /// What decoding makes of `data` for a table of `entry_count` rows and
    /// `names_length` bytes of names: too short when the data ends before
    /// the names do; invalid when the name of a row starts behind the names,
    /// or when the names are not empty and hold no zero byte; else the rows
    /// and the names, which end what is read.
    pub open spec fn parse(data: Seq<u8>, entry_count: nat, names_length: nat) -> Result<
        (usize, SymbolTableView),
        SerializationError,
    > {
        let entries = entries_at(data, entry_count);
        let names = data.subrange(12 * entry_count as int, (12 * entry_count + names_length) as int);
        if data.len() < 12 * entry_count + names_length {
            Err(SerializationError::DataTooShort)
        } else if !names_start_within(entries, names_length) {
            Err(SerializationError::InvalidData)
        } else if names_length > 0 && !names.contains(0u8) {
            Err(SerializationError::InvalidData)
        } else {
            Ok(((12 * entry_count + names_length) as usize, SymbolTableView { entries, names }))
        }
    }

    /// What decoding makes of `data` under the header of a special segment,
    /// which gives the number of rows and the length of the whole payload:
    /// too short when the data ends before the payload does; an invalid
    /// header when the rows alone would take more than the payload; else
    /// what decoding makes of the rows and of the names that fill the rest
    /// of the payload.
    pub open spec fn parse_segment(header: SegmentHeader, data: Seq<u8>) -> Result<
        (usize, SymbolTableView),
        SerializationError,
    > {
        if data.len() < header.disk_bit_count {
            Err(SerializationError::DataTooShort)
        } else if 12 * header.address_space_size > header.disk_bit_count {
            Err(SerializationError::InvalidSymbolTableHeader)
        } else {
            SymbolTableView::parse(
                data,
                header.address_space_size as nat,
                (header.disk_bit_count - 12 * header.address_space_size) as nat,
            )
        }
    }
}

/// `table` with `symbols` added for section `section_id`, in order.
pub open spec fn with_symbols(table: SymbolTableView, section_id: u32, symbols: Seq<SymbolView>)
    -> SymbolTableView
    decreases symbols.len(),
{
    if symbols.len() == 0 {
        table
    } else {
        with_symbols(table, section_id, symbols.drop_last()).add(section_id, symbols.last())
    }
}

/// A table of named addresses, each owned by a numbered section.
#[derive(Debug)]
pub struct SymbolTable {
    entries: Vec<SymbolEntry>,
    names: Vec<u8>,
}

impl View for SymbolTable {
    type V = SymbolTableView;

    closed spec fn view(&self) -> SymbolTableView {
        SymbolTableView { entries: self.entries@, names: self.names@ }
    }
}

/// Reads the name that starts at `start` among `names`.
pub fn read_name(names: &[u8], start: usize) -> (name: String)
    ensures
        name@ == name_at(names@, start as int),
{
    let mut name = String::new();
    let mut i: usize = start;
    while i < names.len() && names[i] != 0
        invariant
            start <= i,
            name@ + name_at(names@, i as int) == name_at(names@, start as int),
        decreases names@.len() - i,
    {
        let ghost before = name@;
        push_char(&mut name, names[i] as char);
        i = i + 1;
        assert(name@ + name_at(names@, i as int) =~= before + name_at(names@, i - 1));
    }
    assert(name@ + name_at(names@, i as int) =~= name@);
    name
}

/// Rows take twelve bytes each.
pub proof fn entries_bytes_len(entries: Seq<SymbolEntry>)
    ensures
        entries_bytes(entries).len() == 12 * entries.len(),
    decreases entries.len(),
{
    if entries.len() > 0 {
        entries_bytes_len(entries.drop_last());
        let e = entries.last();
        u32_bytes_len(e.section_id);
        u32_bytes_len(low32(e.offset.0 as nat));
        u32_bytes_len(e.name_offset);
    }
}

impl Clone for SymbolTable {
    fn clone(&self) -> (copy: Self)
        ensures
            copy@ == self@,
    {
        let copy = SymbolTable { entries: self.entries.clone(), names: self.names.clone() };
        assert(copy.entries@ =~= self.entries@);
        assert(copy.names@ =~= self.names@);
        copy
    }
}

/// Adding a symbol to a well-formed table gives a well-formed table.
pub proof fn add_keeps_well_formed(table: SymbolTableView, section_id: u32, symbol: SymbolView)
    requires
        table.well_formed(),
    ensures
        table.add(section_id, symbol).well_formed(),
{
    let after = table.add(section_id, symbol);
    assert(after.names[after.names.len() - 1] == 0u8);
    assert forall|i: int| 0 <= i < after.entries.len() implies (#[trigger] after.entries[i]).name_offset
        < after.names.len() by {
        if i < table.entries.len() {
            assert(after.entries[i] == table.entries[i]);
        }
    }
}

/// A table that is read from bytes is well-formed.
pub proof fn parsed_is_well_formed(data: Seq<u8>, entry_count: nat, names_length: nat)
    ensures
        SymbolTableView::parse(data, entry_count, names_length) matches Ok((_, table))
            ==> table.well_formed(),
{
}

impl SymbolTable {
    /// A table without rows, which is well-formed.
    pub fn new() -> (table: Self)
        ensures
            table@ == SymbolTableView::empty(),
            table@.well_formed(),
    {
        SymbolTable { entries: Vec::new(), names: Vec::new() }
    }

    /// Adds `symbol` as a symbol of section `section_id`. A well-formed
    /// table stays well-formed.
    pub fn add_symbol(&mut self, section_id: u32, symbol: Symbol)
        ensures
            final(self)@ == old(self)@.add(section_id, symbol@),
            old(self)@.well_formed() ==> final(self)@.well_formed(),
    {
        let name_offset = low_bits(self.names.len());
        write_bytes(&mut self.names, symbol.name.as_str().as_bytes());
        self.names.push(0);
        self.entries.push(SymbolEntry { section_id, offset: symbol.address, name_offset });
        assert(self.names@ =~= old(self).names@ + encode_utf8(symbol.name@) + seq![0u8]);
        proof {
            if old(self)@.well_formed() {
                add_keeps_well_formed(old(self)@, section_id, symbol@);
            }
        }
    }

    /// Adds copies of `symbols` as symbols of section `section_id`, in
    /// order. A well-formed table stays well-formed.
    pub fn add_symbols(&mut self, section_id: u32, symbols: &Vec<Symbol>)
        ensures
            final(self)@ == with_symbols(old(self)@, section_id, symbol_views(symbols@)),
            old(self)@.well_formed() ==> final(self)@.well_formed(),
    {
        let mut i: usize = 0;
        while i < symbols.len()
            invariant
                i <= symbols@.len(),
                old(self)@.well_formed() ==> self@.well_formed(),
                self@ == with_symbols(
                    old(self)@,
                    section_id,
                    symbol_views(symbols@.take(i as int)),
                ),
            decreases symbols@.len() - i,
        {
            let symbol = symbols[i].clone();
            self.add_symbol(section_id, symbol);
            i = i + 1;
            proof {
                let done = symbol_views(symbols@.take(i as int));
                assert(done.drop_last() =~= symbol_views(symbols@.take(i - 1)));
                assert(done.last() == symbols@[i - 1]@);
            }
        }
        assert(symbols@.take(i as int) =~= symbols@);
    }

    /// The bytes of the table.
    fn encode(&self) -> (data: Vec<u8>)
        ensures
            data@ == self@.payload(),
    {
        let mut data: Vec<u8> = Vec::new();
        let mut i: usize = 0;
        while i < self.entries.len()
            invariant
                i <= self.entries@.len(),
                data@ == entries_bytes(self.entries@.take(i as int)),
            decreases self.entries@.len() - i,
        {
            let entry = self.entries[i];
            let ghost before = data@;
            write_u32(&mut data, entry.section_id);
            write_u32(&mut data, low_bits(entry.offset.0));
            write_u32(&mut data, entry.name_offset);
            i = i + 1;
            proof {
                let done = self.entries@.take(i as int);
                assert(done.drop_last() =~= self.entries@.take(i - 1));
                assert(done.last() == entry);
                assert(data@ =~= before + entry_bytes(entry));
            }
        }
        assert(self.entries@.take(i as int) =~= self.entries@);
        write_bytes(&mut data, self.names.as_slice());
        data
    }

    /// The table as a section of an object file: its header and its bytes.
    /// The header's two counts are cut down to their low 32 bits.
    pub fn serialize_as_section(&self) -> (framed: (SectionHeader, Vec<u8>))
        ensures
            framed.0 == SectionHeader::SymbolTable(
                SymbolTableHeader {
                    entry_count: low32(self@.entries.len()),
                    names_length: low32(self@.names.len()),
                },
            ),
            framed.1@ == self@.payload(),
    {
        let data = self.encode();
        let header = SectionHeader::SymbolTable(
            SymbolTableHeader {
                entry_count: low_bits(self.entries.len()),
                names_length: low_bits(self.names.len()),
            },
        );
        (header, data)
    }

    /// The table as the special segment of an executable: its header and its
    /// bytes. The header holds the number of rows in the place of the size
    /// and the number of bytes in the place of the bit count.
    pub fn serialize_as_segment(&self) -> (framed: (SegmentHeader, Vec<u8>))
        ensures
            framed.0 == (SegmentHeader {
                address_space_start: 0,
                address_space_size: self@.entries.len() as u64,
                disk_bit_count: self@.payload().len() as usize,
                flags: SegmentFlags {
                    executable: false,
                    writable: false,
                    readable: false,
                    special: true,
                },
            }),
            framed.1@ == self@.payload(),
    {
        let data = self.encode();
        let header = SegmentHeader {
            address_space_start: 0,
            address_space_size: self.entries.len() as u64,
            disk_bit_count: data.len(),
            flags: SegmentFlags {
                executable: false,
                writable: false,
                readable: false,
                special: true,
            },
        };
        (header, data)
    }

    /// Reads a table of `entry_count` rows and `names_length` bytes of names
    /// from the start of `data`, which is long enough for them.
    fn decode(data: &[u8], entry_count: usize, names_length: usize) -> (result: Result<
        (usize, Self),
        SerializationError,
    >)
        requires
            12 * entry_count + names_length <= data.len(),
        ensures
            match SymbolTableView::parse(data@, entry_count as nat, names_length as nat) {
                Ok((consumed, view)) => result matches Ok((n, table)) && n == consumed && table@
                    == view,
                Err(e) => result == Err::<(usize, Self), SerializationError>(e),
            },
    {
        let mut entries: Vec<SymbolEntry> = Vec::new();
        let mut i: usize = 0;
        while i < entry_count
            invariant
                i <= entry_count,
                12 * entry_count + names_length <= data.len(),
                entries@ == entries_at(data@, i as nat),
                forall|k: int| 0 <= k < i ==> (#[trigger] entries@[k]).name_offset < names_length,
            decreases entry_count - i,
        {
            let at = 12 * i;
            let section_id = read_u32(data, at);
            let address = read_u32(data, at + 4) as usize;
            let name_offset = read_u32(data, at + 8);
            if name_offset as usize >= names_length {
                proof {
                    let all = entries_at(data@, entry_count as nat);
                    assert(all[i as int].name_offset >= names_length);
                }
                return Err(SerializationError::InvalidData);
            }
            entries.push(SymbolEntry { section_id, offset: Address(address), name_offset });
            i = i + 1;
            assert(entries@ =~= entries_at(data@, i as nat));
        }
        let start = 12 * entry_count;
        let mut names: Vec<u8> = Vec::new();
        let mut found_zero = false;
        let mut j: usize = 0;
        while j < names_length
            invariant
                j <= names_length,
                start == 12 * entry_count,
                start + names_length <= data.len(),
                names@ == data@.subrange(start as int, start + j),
                found_zero == names@.contains(0u8),
            decreases names_length - j,
        {
            let byte = data[start + j];
            let ghost before = names@;
            names.push(byte);
            if byte == 0 {
                found_zero = true;
            }
            j = j + 1;
            proof {
                assert(names@ =~= data@.subrange(start as int, start + j));
                assert(names@ == before.push(byte));
                if before.contains(0u8) {
                    let w = choose|w: int| 0 <= w < before.len() && before[w] == 0u8;
                    assert(names@[w] == 0u8);
                }
                if byte == 0 {
                    assert(names@[j - 1] == 0u8);
                }
            }
        }
        if names_length > 0 && !found_zero {
            return Err(SerializationError::InvalidData);
        }
        Ok((start + names_length, SymbolTable { entries, names }))
    }

    /// Reads the table that `header` frames from the start of `data`.
    pub fn deserialize_section(header: &SymbolTableHeader, data: &[u8]) -> (result: Result<
        (usize, Self),
        SerializationError,
    >)
        ensures
            match SymbolTableView::parse(
                data@,
                header.entry_count as nat,
                header.names_length as nat,
            ) {
                Ok((consumed, view)) => result matches Ok((n, table)) && n == consumed && table@
                    == view,
                Err(e) => result == Err::<(usize, Self), SerializationError>(e),
            },
            result matches Ok((_, table)) ==> table@.well_formed(),
    {
        let required: u64 = header.entry_count as u64 * 12 + header.names_length as u64;
        if (data.len() as u64) < required {
            return Err(SerializationError::DataTooShort);
        }
        Self::decode(data, header.entry_count as usize, header.names_length as usize)
    }

    /// Reads the table that the header of a special segment frames from the
    /// start of `data`.
    pub fn deserialize_segment(header: &SegmentHeader, data: &[u8]) -> (result: Result<
        (usize, Self),
        SerializationError,
    >)
        ensures
            match SymbolTableView::parse_segment(*header, data@) {
                Ok((consumed, view)) => result matches Ok((n, table)) && n == consumed && table@
                    == view,
                Err(e) => result == Err::<(usize, Self), SerializationError>(e),
            },
            result matches Ok((_, table)) ==> table@.well_formed(),
    {
        if data.len() < header.disk_bit_count {
            return Err(SerializationError::DataTooShort);
        }
        if header.address_space_size > (header.disk_bit_count / 12) as u64 {
            return Err(SerializationError::InvalidSymbolTableHeader);
        }
        let entry_count = header.address_space_size as usize;
        let names_length = header.disk_bit_count - 12 * entry_count;
        Self::decode(data, entry_count, names_length)
    }

    /// The symbols of section `section_id`, in the order they were added.
    pub fn get_symbols(&self, section_id: u32) -> (symbols: Vec<Symbol>)
        ensures
            symbol_views(symbols@) == self@.symbols_of(section_id),
    {
        let ghost wanted = |e: SymbolEntry| e.section_id == section_id;
        let ghost made = |e: SymbolEntry| self@.symbol(e);
        let mut symbols: Vec<Symbol> = Vec::new();
        let mut i: usize = 0;
        while i < self.entries.len()
            invariant
                i <= self.entries@.len(),
                wanted == |e: SymbolEntry| e.section_id == section_id,
                made == |e: SymbolEntry| self@.symbol(e),
                symbol_views(symbols@) == self.entries@.take(i as int).filter(wanted).map_values(
                    made,
                ),
            decreases self.entries@.len() - i,
        {
            let entry = self.entries[i];
            let ghost before = self.entries@.take(i as int);
            proof {
                assert(self.entries@.take(i + 1) =~= before.push(entry));
                before.lemma_filter_push(entry, wanted);
            }
            if entry.section_id == section_id {
                let name = read_name(self.names.as_slice(), entry.name_offset as usize);
                let symbol = Symbol { name, address: entry.offset };
                proof {
                    map_values_push(symbols@, symbol, |s: Symbol| s@);
                    map_values_push(before.filter(wanted), entry, made);
                }
                symbols.push(symbol);
            }
            i = i + 1;
        }
        assert(self.entries@.take(i as int) =~= self.entries@);
        symbols
    }
}

} // verus!
