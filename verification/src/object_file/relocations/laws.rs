use super::{
    relocation_at, relocation_bytes, relocations_at, relocations_bytes, relocations_bytes_len,
    symbols_start_within, with_relocations, RelocationEntry, RelocationTableView,
    RelocationView,
};
use crate::codec::{low32, u32_bytes, u32_bytes_len, u32_round_trip};
use crate::serializable::SerializationError;
use crate::symbols::laws::{closed_at, name_at_extends, name_at_reads, plain_name};
use crate::sequence::map_values_push;
use vstd::prelude::*;
use vstd::utf8::encode_utf8;

verus! {

impl RelocationTableView {
    /// Whether every row's name starts among the names and is closed by a
    /// zero byte, and the names hold a zero byte unless they are empty.
    pub open spec fn sound(self) -> bool {
        &&& forall|i: int|
            0 <= i < self.entries.len() ==> (#[trigger] self.entries[i]).symbol_offset
                < self.names.len() && closed_at(self.names, self.entries[i].symbol_offset as int)
        &&& self.names.len() > 0 ==> self.names.contains(0u8)
    }

    /// Whether every row's section and address fit in 32 bits.
    pub open spec fn short(self) -> bool {
        forall|i: int|
            0 <= i < self.entries.len() ==> (#[trigger] self.entries[i]).section_id
                < 0x1_0000_0000 && self.entries[i].address.0 < 0x1_0000_0000
    }

    /// Whether the table can be written down without loss: it is sound, and
    /// its counts and the numbers in every row fit in 32 bits.
    pub open spec fn storable(self) -> bool {
        &&& self.sound()
        &&& self.short()
        &&& self.entries.len() < 0x1_0000_0000
        &&& self.names.len() < 0x1_0000_0000
    }
}

/// Whether every relocation names its symbol by a plain name.
pub open spec fn plain_relocations(relocations: Seq<RelocationView>) -> bool {
    forall|i: int| 0 <= i < relocations.len() ==> plain_name((#[trigger] relocations[i]).symbol)
}

/// Whether every relocation has an address that fits in 32 bits.
pub open spec fn short_relocations(relocations: Seq<RelocationView>) -> bool {
    forall|i: int|
        0 <= i < relocations.len() ==> (#[trigger] relocations[i]).address < 0x1_0000_0000
}

/// The rows of a section are read the same from a table and from the table
/// with one more name stored.
proof fn relocations_of_extends(table: RelocationTableView, more: Seq<u8>, section_id: usize)
    requires
        table.sound(),
    ensures
        (RelocationTableView { entries: table.entries, names: table.names + more }).relocations_of(
            section_id,
        ) == table.relocations_of(section_id),
{
    let longer = RelocationTableView { entries: table.entries, names: table.names + more };
    let wanted = |e: RelocationEntry| e.section_id == section_id;
    let rows = table.entries.filter(wanted);
    assert forall|k: int| 0 <= k < rows.len() implies longer.relocation(#[trigger] rows[k])
        == table.relocation(rows[k]) by {
        assert(rows.contains(rows[k]));
        table.entries.lemma_filter_contains_rev(wanted, rows[k]);
        let i = choose|i: int| 0 <= i < table.entries.len() && table.entries[i] == rows[k];
        assert(closed_at(table.names, table.entries[i].symbol_offset as int));
        name_at_extends(table.names, more, rows[k].symbol_offset as int);
    }
    assert(rows.map_values(|e: RelocationEntry| longer.relocation(e)) =~= rows.map_values(
        |e: RelocationEntry| table.relocation(e),
    ));
}

/// Adding a relocation with a plain symbol name to a sound table whose
/// names take less than `2^32` bytes gives a sound table, in which the
/// section of the relocation has the relocation behind its other
/// relocations and every other section has the relocations it had.
pub proof fn add_appends(
    table: RelocationTableView,
    section_id: usize,
    relocation: RelocationView,
    other: usize,
)
    requires
        table.sound(),
        table.names.len() < 0x1_0000_0000,
        plain_name(relocation.symbol),
    ensures
        table.add(section_id, relocation).sound(),
        table.add(section_id, relocation).relocations_of(other) == if other == section_id {
            table.relocations_of(other).push(relocation)
        } else {
            table.relocations_of(other)
        },
{
    let after = table.add(section_id, relocation);
    let more = encode_utf8(relocation.symbol) + seq![0u8];
    assert(after.names =~= table.names + more);
    let entry = after.entries.last();
    let empty = Seq::<u8>::empty();
    name_at_reads(table.names, relocation.symbol, empty);
    assert(table.names + encode_utf8(relocation.symbol) + seq![0u8] + empty =~= after.names);
    assert(entry.symbol_offset == table.names.len());
    assert(after.relocation(entry) == relocation);
    assert forall|i: int| 0 <= i < after.entries.len() implies (
    #[trigger] after.entries[i]).symbol_offset < after.names.len() && closed_at(
        after.names,
        after.entries[i].symbol_offset as int,
    ) by {
        if i < table.entries.len() {
            assert(after.entries[i] == table.entries[i]);
            name_at_extends(table.names, more, table.entries[i].symbol_offset as int);
        }
    }
    assert(after.names[after.names.len() - 1] == 0u8);
    let wanted = |e: RelocationEntry| e.section_id == other;
    let stretched = RelocationTableView { entries: table.entries, names: after.names };
    relocations_of_extends(table, more, other);
    table.entries.lemma_filter_push(entry, wanted);
    assert(after.entries =~= table.entries.push(entry));
    if other == section_id {
        map_values_push(
            table.entries.filter(wanted),
            entry,
            |e: RelocationEntry| after.relocation(e),
        );
    }
    assert(stretched.relocations_of(other) == table.entries.filter(wanted).map_values(
        |e: RelocationEntry| stretched.relocation(e),
    ));
    assert(table.entries.filter(wanted).map_values(|e: RelocationEntry| stretched.relocation(e))
        =~= table.entries.filter(wanted).map_values(|e: RelocationEntry| after.relocation(e)));
}

/// Adding relocations with plain symbol names to a sound table, whose names
/// still take less than `2^32` bytes afterwards, gives a sound table, in
/// which the section of the relocations has them behind its other
/// relocations and every other section has the relocations it had.
pub proof fn with_relocations_appends(
    table: RelocationTableView,
    section_id: usize,
    relocations: Seq<RelocationView>,
    other: usize,
)
    requires
        table.sound(),
        plain_relocations(relocations),
        with_relocations(table, section_id, relocations).names.len() < 0x1_0000_0000,
    ensures
        with_relocations(table, section_id, relocations).sound(),
        table.names.len() <= with_relocations(table, section_id, relocations).names.len(),
        with_relocations(table, section_id, relocations).entries.len() == table.entries.len()
            + relocations.len(),
        with_relocations(table, section_id, relocations).relocations_of(other) == if other
            == section_id {
            table.relocations_of(other) + relocations
        } else {
            table.relocations_of(other)
        },
    decreases relocations.len(),
{
    if relocations.len() == 0 {
        assert(table.relocations_of(other) + relocations =~= table.relocations_of(other));
    } else {
        let before = with_relocations(table, section_id, relocations.drop_last());
        assert(plain_relocations(relocations.drop_last())) by {
            assert forall|i: int| 0 <= i < relocations.drop_last().len() implies plain_name(
                (#[trigger] relocations.drop_last()[i]).symbol,
            ) by {
                assert(relocations.drop_last()[i] == relocations[i]);
            }
        }
        assert(plain_name(relocations.last().symbol)) by {
            assert(relocations.last() == relocations[relocations.len() - 1]);
        }
        with_relocations_appends(table, section_id, relocations.drop_last(), other);
        add_appends(before, section_id, relocations.last(), other);
        if other == section_id {
            assert((table.relocations_of(other) + relocations.drop_last()).push(
                relocations.last(),
            ) =~= table.relocations_of(other) + relocations);
        }
    }
}

/// Adding relocations for a section whose number fits in 32 bits keeps the
/// rows of a table short when the addresses of the relocations are.
pub proof fn with_relocations_short(
    table: RelocationTableView,
    section_id: usize,
    relocations: Seq<RelocationView>,
)
    requires
        table.short(),
        section_id < 0x1_0000_0000,
        short_relocations(relocations),
    ensures
        with_relocations(table, section_id, relocations).short(),
    decreases relocations.len(),
{
    if relocations.len() > 0 {
        assert(short_relocations(relocations.drop_last())) by {
            assert forall|i: int| 0 <= i < relocations.drop_last().len() implies (
            #[trigger] relocations.drop_last()[i]).address < 0x1_0000_0000 by {
                assert(relocations.drop_last()[i] == relocations[i]);
            }
        }
        with_relocations_short(table, section_id, relocations.drop_last());
        assert(relocations.last() == relocations[relocations.len() - 1]);
        let before = with_relocations(table, section_id, relocations.drop_last());
        let after = with_relocations(table, section_id, relocations);
        assert forall|i: int| 0 <= i < after.entries.len() implies (
        #[trigger] after.entries[i]).section_id < 0x1_0000_0000 && after.entries[i].address.0
            < 0x1_0000_0000 by {
            if i < before.entries.len() {
                assert(after.entries[i] == before.entries[i]);
            }
        }
    }
}

/// Row `i` of the rows' bytes is the bytes of row `i`.
pub proof fn relocations_bytes_row(entries: Seq<RelocationEntry>, i: int)
    requires
        0 <= i < entries.len(),
    ensures
        relocations_bytes(entries).len() == 16 * entries.len(),
        relocations_bytes(entries).subrange(16 * i, 16 * i + 16) == relocation_bytes(entries[i]),
    decreases entries.len(),
{
    relocations_bytes_len(entries);
    relocations_bytes_len(entries.drop_last());
    let e = entries.last();
    u32_bytes_len(low32(e.section_id as nat));
    u32_bytes_len(low32(e.symbol_offset as nat));
    u32_bytes_len(low32(e.address.0 as nat));
    if i == entries.len() - 1 {
        assert(relocations_bytes(entries).subrange(16 * i, 16 * i + 16) =~= relocation_bytes(
            entries[i],
        ));
    } else {
        relocations_bytes_row(entries.drop_last(), i);
        assert(relocations_bytes(entries).subrange(16 * i, 16 * i + 16) =~= relocations_bytes(
            entries.drop_last(),
        ).subrange(16 * i, 16 * i + 16));
    }
}

/// The row read at `i` from bytes that hold the bytes of `entry` there is
/// `entry`, when the numbers of `entry` fit in 32 bits.
pub proof fn relocation_at_reads(data: Seq<u8>, i: int, entry: RelocationEntry)
    requires
        0 <= i,
        16 * i + 16 <= data.len(),
        data.subrange(16 * i, 16 * i + 16) == relocation_bytes(entry),
        entry.section_id < 0x1_0000_0000,
        entry.symbol_offset < 0x1_0000_0000,
        entry.address.0 < 0x1_0000_0000,
    ensures
        relocation_at(data, i) == entry,
{
    let row = data.subrange(16 * i, 16 * i + 16);
    u32_bytes_len(low32(entry.section_id as nat));
    u32_bytes_len(low32(entry.symbol_offset as nat));
    u32_bytes_len(low32(entry.address.0 as nat));
    assert(data.subrange(16 * i, 16 * i + 4) =~= row.subrange(0, 4));
    assert(data.subrange(16 * i + 4, 16 * i + 8) =~= row.subrange(4, 8));
    assert(data.subrange(16 * i + 8, 16 * i + 12) =~= row.subrange(8, 12));
    assert(row.subrange(0, 4) =~= u32_bytes(low32(entry.section_id as nat)));
    assert(row.subrange(4, 8) =~= u32_bytes(low32(entry.symbol_offset as nat)));
    assert(row.subrange(8, 12) =~= u32_bytes(low32(entry.address.0 as nat)));
    u32_round_trip(data, 16 * i, low32(entry.section_id as nat));
    u32_round_trip(data, 16 * i + 4, low32(entry.symbol_offset as nat));
    u32_round_trip(data, 16 * i + 8, low32(entry.address.0 as nat));
    assert(data[16 * i + 12] == row[12]);
}

/// Decoding the bytes of a storable table gives the table back, whatever
/// bytes follow.
pub proof fn table_round_trip(table: RelocationTableView, rest: Seq<u8>)
    requires
        table.storable(),
        table.payload().len() <= usize::MAX,
    ensures
        table.payload().len() == 16 * table.entries.len() + table.names.len(),
        RelocationTableView::parse(table.payload() + rest, table.entries.len(), table.names.len())
            == Ok::<(usize, RelocationTableView), SerializationError>(
            (table.payload().len() as usize, table),
        ),
{
    let data = table.payload() + rest;
    let count = table.entries.len();
    relocations_bytes_len(table.entries);
    assert forall|i: int| 0 <= i < count implies relocation_at(data, i) == table.entries[i] by {
        relocations_bytes_row(table.entries, i);
        assert(data.subrange(16 * i, 16 * i + 16) =~= relocations_bytes(table.entries).subrange(
            16 * i,
            16 * i + 16,
        ));
        relocation_at_reads(data, i, table.entries[i]);
    }
    assert(relocations_at(data, count) =~= table.entries);
    assert(data.subrange(16 * count as int, (16 * count + table.names.len()) as int)
        =~= table.names);
    assert(symbols_start_within(table.entries, table.names.len()));
}

/// Adding relocations never shortens the names of a table and adds one row
/// for each relocation.
pub proof fn with_relocations_grows(
    table: RelocationTableView,
    section_id: usize,
    relocations: Seq<RelocationView>,
)
    ensures
        table.names.len() <= with_relocations(table, section_id, relocations).names.len(),
        with_relocations(table, section_id, relocations).entries.len() == table.entries.len()
            + relocations.len(),
    decreases relocations.len(),
{
    if relocations.len() > 0 {
        with_relocations_grows(table, section_id, relocations.drop_last());
    }
}

/// The table without rows is sound and short and has no relocations for any
/// section.
pub proof fn empty_table(section_id: usize)
    ensures
        RelocationTableView::empty().sound(),
        RelocationTableView::empty().short(),
        RelocationTableView::empty().relocations_of(section_id) == Seq::<RelocationView>::empty(),
{
    reveal(Seq::filter);
    let table = RelocationTableView::empty();
    assert(table.entries.filter(|e: RelocationEntry| e.section_id == section_id)
        =~= Seq::empty());
    assert(table.relocations_of(section_id) =~= Seq::<RelocationView>::empty());
}

} // verus!
