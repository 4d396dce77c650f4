use super::{
    entries_at, entries_bytes, entries_bytes_len, entry_at, entry_bytes, name_at,
    names_start_within, with_symbols, SymbolEntry, SymbolTableView, SymbolView,
};
use crate::serializable::SerializationError;
use crate::codec::{low32, u32_bytes, u32_bytes_len, u32_round_trip};
use vstd::prelude::*;
use vstd::utf8::{encode_utf8, is_ascii_chars, is_ascii_chars_encode_utf8};

verus! {

/// Whether a name survives being stored: each of its characters is an
/// ASCII character other than the zero character.
pub open spec fn plain_name(name: Seq<char>) -> bool {
    forall|i: int| 0 <= i < name.len() ==> '\u{1}' <= #[trigger] name[i] <= '\u{7f}'
}

/// Whether a zero byte closes the name that starts at `start`.
pub open spec fn closed_at(names: Seq<u8>, start: int) -> bool {
    exists|j: int| start <= j < names.len() && #[trigger] names[j] == 0
}

/// A plain name is stored as one byte per character, none of them zero.
pub proof fn plain_name_bytes(name: Seq<char>)
    requires
        plain_name(name),
    ensures
        encode_utf8(name).len() == name.len(),
        forall|i: int|
            0 <= i < name.len() ==> (#[trigger] encode_utf8(name)[i]) != 0 && encode_utf8(
                name,
            )[i] as char == name[i],
{
    assert(is_ascii_chars(name));
    is_ascii_chars_encode_utf8(name);
    assert forall|i: int| 0 <= i < name.len() implies (#[trigger] encode_utf8(name)[i]) != 0
        && encode_utf8(name)[i] as char == name[i] by {
        assert('\u{1}' <= name[i] <= '\u{7f}');
        assert(name[i] as u8 == encode_utf8(name)[i]);
    }
}

/// Bytes behind a closed name do not change what is read as the name.
pub proof fn name_at_extends(names: Seq<u8>, more: Seq<u8>, start: int)
    requires
        0 <= start,
        closed_at(names, start),
    ensures
        name_at(names + more, start) == name_at(names, start),
        closed_at(names + more, start),
    decreases names.len() - start,
{
    let j = choose|j: int| start <= j < names.len() && #[trigger] names[j] == 0;
    assert((names + more)[j] == 0);
    assert((names + more)[start] == names[start]);
    if names[start] != 0 {
        assert(start + 1 <= j);
        name_at_extends(names, more, start + 1);
    }
}

/// From inside a stored plain name, the rest of the name is read up to the
/// zero byte that closes it.
proof fn name_at_inside(before: Seq<u8>, name: Seq<char>, after: Seq<u8>, i: int)
    requires
        plain_name(name),
        0 <= i <= name.len(),
    ensures
        name_at(before + encode_utf8(name) + seq![0u8] + after, before.len() + i) == name.skip(i),
    decreases name.len() - i,
{
    plain_name_bytes(name);
    let all = before + encode_utf8(name) + seq![0u8] + after;
    if i == name.len() {
        assert(all[before.len() + i] == 0);
        assert(name.skip(i) =~= Seq::<char>::empty());
    } else {
        assert(all[before.len() + i] == encode_utf8(name)[i]);
        name_at_inside(before, name, after, i + 1);
        assert(name.skip(i) =~= seq![name[i]] + name.skip(i + 1));
    }
}

/// A plain name that is stored behind `before` and closed by a zero byte is
/// read back whole from where it starts.
pub proof fn name_at_reads(before: Seq<u8>, name: Seq<char>, after: Seq<u8>)
    requires
        plain_name(name),
    ensures
        name_at(before + encode_utf8(name) + seq![0u8] + after, before.len() as int) == name,
        closed_at(before + encode_utf8(name) + seq![0u8] + after, before.len() as int),
{
    name_at_inside(before, name, after, 0);
    assert(name.skip(0) =~= name);
    plain_name_bytes(name);
    let all = before + encode_utf8(name) + seq![0u8] + after;
    assert(all[(before.len() + name.len()) as int] == 0);
}

impl SymbolTableView {
    /// Whether every row's name starts among the names and is closed by a
    /// zero byte, and the names hold a zero byte unless they are empty.
    pub open spec fn sound(self) -> bool {
        &&& forall|i: int|
            0 <= i < self.entries.len() ==> (#[trigger] self.entries[i]).name_offset
                < self.names.len() && closed_at(self.names, self.entries[i].name_offset as int)
        &&& self.names.len() > 0 ==> self.names.contains(0u8)
    }

    /// Whether the table can be written down without loss: it is sound, and
    /// its counts and every address fit in 32 bits.
    pub open spec fn storable(self) -> bool {
        &&& self.sound()
        &&& self.entries.len() < 0x1_0000_0000
        &&& self.names.len() < 0x1_0000_0000
        &&& forall|i: int|
            0 <= i < self.entries.len() ==> (#[trigger] self.entries[i]).offset.0 < 0x1_0000_0000
    }
}

/// Whether every symbol has a plain name.
pub open spec fn plain_symbols(symbols: Seq<SymbolView>) -> bool {
    forall|i: int| 0 <= i < symbols.len() ==> plain_name((#[trigger] symbols[i]).name)
}

/// Whether every symbol has an address that fits in 32 bits.
pub open spec fn short_addresses(symbols: Seq<SymbolView>) -> bool {
    forall|i: int| 0 <= i < symbols.len() ==> (#[trigger] symbols[i]).address < 0x1_0000_0000
}

/// The rows of a section are read the same from a table and from the table
/// with one more name stored.
proof fn symbols_of_extends(table: SymbolTableView, more: Seq<u8>, section_id: u32)
    requires
        table.sound(),
    ensures
        (SymbolTableView { entries: table.entries, names: table.names + more }).symbols_of(
            section_id,
        ) == table.symbols_of(section_id),
{
    let longer = SymbolTableView { entries: table.entries, names: table.names + more };
    let wanted = |e: SymbolEntry| e.section_id == section_id;
    let rows = table.entries.filter(wanted);
    assert forall|k: int| 0 <= k < rows.len() implies longer.symbol(#[trigger] rows[k])
        == table.symbol(rows[k]) by {
        assert(rows.contains(rows[k]));
        table.entries.lemma_filter_contains_rev(wanted, rows[k]);
        assert(table.entries.contains(rows[k]));
        let i = choose|i: int| 0 <= i < table.entries.len() && table.entries[i] == rows[k];
        assert(closed_at(table.names, table.entries[i].name_offset as int));
        name_at_extends(table.names, more, rows[k].name_offset as int);
    }
    assert(rows.map_values(|e: SymbolEntry| longer.symbol(e)) =~= rows.map_values(
        |e: SymbolEntry| table.symbol(e),
    ));
}

/// Adding a symbol with a plain name to a sound table whose names take
/// less than `2^32` bytes gives a sound table, in which the section of the
/// symbol has the symbol behind its other symbols and every other section
/// has the symbols it had.
pub proof fn add_appends(
    table: SymbolTableView,
    section_id: u32,
    symbol: SymbolView,
    other: u32,
)
    requires
        table.sound(),
        table.names.len() < 0x1_0000_0000,
        plain_name(symbol.name),
    ensures
        table.add(section_id, symbol).sound(),
        table.add(section_id, symbol).symbols_of(other) == if other == section_id {
            table.symbols_of(other).push(symbol)
        } else {
            table.symbols_of(other)
        },
{
    let after = table.add(section_id, symbol);
    let more = encode_utf8(symbol.name) + seq![0u8];
    assert(after.names =~= table.names + more);
    let entry = after.entries.last();
    let empty = Seq::<u8>::empty();
    name_at_reads(table.names, symbol.name, empty);
    assert(table.names + encode_utf8(symbol.name) + seq![0u8] + empty =~= after.names);
    assert(entry.name_offset == table.names.len());
    assert(after.symbol(entry) == symbol);
    // soundness
    assert forall|i: int| 0 <= i < after.entries.len() implies (#[trigger] after.entries[i]).name_offset
        < after.names.len() && closed_at(after.names, after.entries[i].name_offset as int) by {
        if i < table.entries.len() {
            assert(after.entries[i] == table.entries[i]);
            name_at_extends(table.names, more, table.entries[i].name_offset as int);
        }
    }
    assert(after.names[after.names.len() - 1] == 0u8);
    // rows of `other`
    let wanted = |e: SymbolEntry| e.section_id == other;
    let stretched = SymbolTableView { entries: table.entries, names: after.names };
    symbols_of_extends(table, more, other);
    table.entries.lemma_filter_push(entry, wanted);
    assert(after.entries =~= table.entries.push(entry));
    if other == section_id {
        crate::sequence::map_values_push(
            table.entries.filter(wanted),
            entry,
            |e: SymbolEntry| after.symbol(e),
        );
    }
    assert(stretched.symbols_of(other) == table.entries.filter(wanted).map_values(
        |e: SymbolEntry| stretched.symbol(e),
    ));
    assert(table.entries.filter(wanted).map_values(|e: SymbolEntry| stretched.symbol(e))
        =~= table.entries.filter(wanted).map_values(|e: SymbolEntry| after.symbol(e)));
}

/// Adding symbols with plain names to a sound table, whose names still take
/// less than `2^32` bytes afterwards, gives a sound table, in which the
/// section of the symbols has them behind its other symbols and every other
/// section has the symbols it had.
pub proof fn with_symbols_appends(
    table: SymbolTableView,
    section_id: u32,
    symbols: Seq<SymbolView>,
    other: u32,
)
    requires
        table.sound(),
        plain_symbols(symbols),
        with_symbols(table, section_id, symbols).names.len() < 0x1_0000_0000,
    ensures
        with_symbols(table, section_id, symbols).sound(),
        table.names.len() <= with_symbols(table, section_id, symbols).names.len(),
        with_symbols(table, section_id, symbols).entries.len() == table.entries.len()
            + symbols.len(),
        with_symbols(table, section_id, symbols).symbols_of(other) == if other == section_id {
            table.symbols_of(other) + symbols
        } else {
            table.symbols_of(other)
        },
    decreases symbols.len(),
{
    if symbols.len() == 0 {
        assert(table.symbols_of(other) + symbols =~= table.symbols_of(other));
    } else {
        let before = with_symbols(table, section_id, symbols.drop_last());
        assert(plain_symbols(symbols.drop_last())) by {
            assert forall|i: int| 0 <= i < symbols.drop_last().len() implies plain_name(
                (#[trigger] symbols.drop_last()[i]).name,
            ) by {
                assert(symbols.drop_last()[i] == symbols[i]);
            }
        }
        assert(plain_name(symbols.last().name)) by {
            assert(symbols.last() == symbols[symbols.len() - 1]);
        }
        with_symbols_appends(table, section_id, symbols.drop_last(), other);
        add_appends(before, section_id, symbols.last(), other);
        if other == section_id {
            assert((table.symbols_of(other) + symbols.drop_last()).push(symbols.last())
                =~= table.symbols_of(other) + symbols);
        }
    }
}

/// Adding symbols keeps the addresses of a table within 32 bits when the
/// addresses of the symbols are.
pub proof fn with_symbols_short(table: SymbolTableView, section_id: u32, symbols: Seq<SymbolView>)
    requires
        forall|i: int|
            0 <= i < table.entries.len() ==> (#[trigger] table.entries[i]).offset.0
                < 0x1_0000_0000,
        short_addresses(symbols),
    ensures
        forall|i: int|
            0 <= i < with_symbols(table, section_id, symbols).entries.len() ==> (
            #[trigger] with_symbols(table, section_id, symbols).entries[i]).offset.0
                < 0x1_0000_0000,
    decreases symbols.len(),
{
    if symbols.len() > 0 {
        assert(short_addresses(symbols.drop_last())) by {
            assert forall|i: int| 0 <= i < symbols.drop_last().len() implies (
            #[trigger] symbols.drop_last()[i]).address < 0x1_0000_0000 by {
                assert(symbols.drop_last()[i] == symbols[i]);
            }
        }
        with_symbols_short(table, section_id, symbols.drop_last());
        assert(symbols.last() == symbols[symbols.len() - 1]);
        let before = with_symbols(table, section_id, symbols.drop_last());
        let after = with_symbols(table, section_id, symbols);
        assert forall|i: int| 0 <= i < after.entries.len() implies (#[trigger] after.entries[i]).offset.0
            < 0x1_0000_0000 by {
            if i < before.entries.len() {
                assert(after.entries[i] == before.entries[i]);
            }
        }
    }
}

/// Row `i` of the rows' bytes is the bytes of row `i`.
pub proof fn entries_bytes_row(entries: Seq<SymbolEntry>, i: int)
    requires
        0 <= i < entries.len(),
    ensures
        entries_bytes(entries).len() == 12 * entries.len(),
        entries_bytes(entries).subrange(12 * i, 12 * i + 12) == entry_bytes(entries[i]),
    decreases entries.len(),
{
    entries_bytes_len(entries);
    entries_bytes_len(entries.drop_last());
    let e = entries.last();
    u32_bytes_len(e.section_id);
    u32_bytes_len(low32(e.offset.0 as nat));
    u32_bytes_len(e.name_offset);
    if i == entries.len() - 1 {
        assert(entries_bytes(entries).subrange(12 * i, 12 * i + 12) =~= entry_bytes(entries[i]));
    } else {
        entries_bytes_row(entries.drop_last(), i);
        assert(entries_bytes(entries).subrange(12 * i, 12 * i + 12) =~= entries_bytes(
            entries.drop_last(),
        ).subrange(12 * i, 12 * i + 12));
    }
}

/// The row read at `i` from bytes that hold the bytes of `entry` there is
/// `entry`, when the address of `entry` fits in 32 bits.
pub proof fn entry_at_reads(data: Seq<u8>, i: int, entry: SymbolEntry)
    requires
        0 <= i,
        12 * i + 12 <= data.len(),
        data.subrange(12 * i, 12 * i + 12) == entry_bytes(entry),
        entry.offset.0 < 0x1_0000_0000,
    ensures
        entry_at(data, i) == entry,
{
    let row = data.subrange(12 * i, 12 * i + 12);
    u32_bytes_len(entry.section_id);
    u32_bytes_len(low32(entry.offset.0 as nat));
    u32_bytes_len(entry.name_offset);
    assert(data.subrange(12 * i, 12 * i + 4) =~= row.subrange(0, 4));
    assert(data.subrange(12 * i + 4, 12 * i + 8) =~= row.subrange(4, 8));
    assert(data.subrange(12 * i + 8, 12 * i + 12) =~= row.subrange(8, 12));
    assert(row.subrange(0, 4) =~= u32_bytes(entry.section_id));
    assert(row.subrange(4, 8) =~= u32_bytes(low32(entry.offset.0 as nat)));
    assert(row.subrange(8, 12) =~= u32_bytes(entry.name_offset));
    u32_round_trip(data, 12 * i, entry.section_id);
    u32_round_trip(data, 12 * i + 4, low32(entry.offset.0 as nat));
    u32_round_trip(data, 12 * i + 8, entry.name_offset);
}

/// Decoding the bytes of a storable table gives the table back, whatever
/// bytes follow.
pub proof fn table_round_trip(table: SymbolTableView, rest: Seq<u8>)
    requires
        table.storable(),
        table.payload().len() <= usize::MAX,
    ensures
        table.payload().len() == 12 * table.entries.len() + table.names.len(),
        SymbolTableView::parse(table.payload() + rest, table.entries.len(), table.names.len())
            == Ok::<(usize, SymbolTableView), SerializationError>(
            (table.payload().len() as usize, table),
        ),
{
    let data = table.payload() + rest;
    let count = table.entries.len();
    entries_bytes_len(table.entries);
    assert forall|i: int| 0 <= i < count implies entry_at(data, i) == table.entries[i] by {
        entries_bytes_row(table.entries, i);
        assert(data.subrange(12 * i, 12 * i + 12) =~= entries_bytes(table.entries).subrange(
            12 * i,
            12 * i + 12,
        ));
        entry_at_reads(data, i, table.entries[i]);
    }
    assert(entries_at(data, count) =~= table.entries);
    assert(data.subrange(12 * count as int, (12 * count + table.names.len()) as int)
        =~= table.names);
    assert(names_start_within(table.entries, table.names.len()));
}

/// Adding symbols never shortens the names of a table and adds one row for
/// each symbol.
pub proof fn with_symbols_grows(table: SymbolTableView, section_id: u32, symbols: Seq<SymbolView>)
    ensures
        table.names.len() <= with_symbols(table, section_id, symbols).names.len(),
        with_symbols(table, section_id, symbols).entries.len() == table.entries.len()
            + symbols.len(),
    decreases symbols.len(),
{
    if symbols.len() > 0 {
        with_symbols_grows(table, section_id, symbols.drop_last());
    }
}

/// The table without rows is sound and has no symbols for any section.
pub proof fn empty_table(section_id: u32)
    ensures
        SymbolTableView::empty().sound(),
        SymbolTableView::empty().symbols_of(section_id) == Seq::<SymbolView>::empty(),
{
    reveal(Seq::filter);
    let table = SymbolTableView::empty();
    assert(table.entries.filter(|e: SymbolEntry| e.section_id == section_id) =~= Seq::empty());
    assert(table.symbols_of(section_id) =~= Seq::<SymbolView>::empty());
}

} // verus!
