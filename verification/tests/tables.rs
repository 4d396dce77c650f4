use bitlink::address::Address;
use bitlink::executable::segments::flags::SegmentFlags;
use bitlink::executable::segments::header::SegmentHeader;
use bitlink::object_file::relocations::{Relocation, RelocationTable};
use bitlink::object_file::sections::header::{
    RelocationTableHeader, SectionHeader, SymbolTableHeader,
};
use bitlink::serializable::SerializationError;
use bitlink::symbols::{read_name, Symbol, SymbolTable};
use bitlink::strings::same_text;

fn symbol(name: &str, address: usize) -> Symbol {
    Symbol { name: name.to_string(), address: Address(address) }
}

fn relocation(name: &str, address: usize, relative: bool) -> Relocation {
    Relocation { symbol: name.to_string(), address: Address(address), relative }
}

fn pairs(symbols: &[Symbol]) -> Vec<(String, usize)> {
    symbols.iter().map(|s| (s.name.clone(), s.address.0)).collect()
}

fn triples(relocations: &[Relocation]) -> Vec<(String, usize, bool)> {
    relocations.iter().map(|r| (r.symbol.clone(), r.address.0, r.relative)).collect()
}

fn two_symbols() -> SymbolTable {
    let mut table = SymbolTable::new();
    table.add_symbol(0, symbol("L", 12));
    table.add_symbol(1, symbol("main", 0x0102_0304));
    table
}

const TWO_SYMBOLS: [u8; 31] = [
    0, 0, 0, 0, 12, 0, 0, 0, 0, 0, 0, 0, // section 0, address 12, name at 0
    1, 0, 0, 0, 4, 3, 2, 1, 2, 0, 0, 0, // section 1, address 0x01020304, name at 2
    b'L', 0, b'm', b'a', b'i', b'n', 0,
];

#[test]
fn same_text_compares_the_characters() {
    assert!(same_text("", ""));
    assert!(same_text("main", "main"));
    assert!(!same_text("main", "mains"));
    assert!(!same_text("main", "maim"));
    assert!(!same_text("", "x"));
    assert!(same_text("é", "é"));
    assert!(!same_text("é", "e"));
}

#[test]
fn read_name_reads_up_to_the_zero_byte_or_the_end() {
    let names = [b'a', b'b', 0, b'c', 0, b'd'];
    assert_eq!(read_name(&names, 0), "ab");
    assert_eq!(read_name(&names, 1), "b");
    assert_eq!(read_name(&names, 2), "");
    assert_eq!(read_name(&names, 3), "c");
    assert_eq!(read_name(&names, 5), "d");
    assert_eq!(read_name(&names, 6), "");
    assert_eq!(read_name(&names, 100), "");
}

#[test]
fn read_name_takes_each_byte_for_one_character() {
    assert_eq!(read_name(&[0xe9, 0], 0), "\u{e9}");
}

#[test]
fn new_symbol_table_is_empty() {
    let table = SymbolTable::new();
    assert!(table.get_symbols(0).is_empty());
    let (header, data) = table.serialize_as_section();
    assert_eq!(
        header,
        SectionHeader::SymbolTable(SymbolTableHeader { entry_count: 0, names_length: 0 })
    );
    assert!(data.is_empty());
}

#[test]
fn symbols_come_back_by_section_in_the_order_they_were_added() {
    let mut table = SymbolTable::new();
    table.add_symbol(1, symbol("b", 2));
    table.add_symbol(0, symbol("a", 1));
    table.add_symbol(1, symbol("c", 3));
    table.add_symbol(1, symbol("b", 4));
    assert_eq!(pairs(&table.get_symbols(0)), vec![("a".to_string(), 1)]);
    assert_eq!(
        pairs(&table.get_symbols(1)),
        vec![("b".to_string(), 2), ("c".to_string(), 3), ("b".to_string(), 4)]
    );
    assert!(table.get_symbols(2).is_empty());
}

#[test]
fn add_symbols_adds_every_symbol_in_order() {
    let mut table = SymbolTable::new();
    table.add_symbol(3, symbol("first", 9));
    table.add_symbols(3, &vec![symbol("x", 1), symbol("y", 2)]);
    table.add_symbols(4, &vec![]);
    assert_eq!(
        pairs(&table.get_symbols(3)),
        vec![("first".to_string(), 9), ("x".to_string(), 1), ("y".to_string(), 2)]
    );
    assert!(table.get_symbols(4).is_empty());
}

#[test]
fn symbol_table_as_a_section_is_rows_then_names() {
    let (header, data) = two_symbols().serialize_as_section();
    assert_eq!(
        header,
        SectionHeader::SymbolTable(SymbolTableHeader { entry_count: 2, names_length: 7 })
    );
    assert_eq!(data, TWO_SYMBOLS.to_vec());
    assert_eq!(header.section_size(), 31);
}

#[test]
fn symbol_table_as_a_segment_has_the_same_bytes_under_a_special_header() {
    let (header, data) = two_symbols().serialize_as_segment();
    assert_eq!(
        header,
        SegmentHeader {
            address_space_start: 0,
            address_space_size: 2,
            disk_bit_count: 31,
            flags: SegmentFlags {
                executable: false,
                writable: false,
                readable: false,
                special: true
            },
        }
    );
    assert_eq!(data, TWO_SYMBOLS.to_vec());
}

#[test]
fn symbol_table_survives_writing_and_reading_as_a_section() {
    let (header, mut data) = two_symbols().serialize_as_section();
    data.extend([1, 2, 3]);
    let header = match header {
        SectionHeader::SymbolTable(header) => header,
        other => panic!("{:?}", other),
    };
    let (consumed, table) = SymbolTable::deserialize_section(&header, &data).unwrap();
    assert_eq!(consumed, 31);
    assert_eq!(pairs(&table.get_symbols(0)), vec![("L".to_string(), 12)]);
    assert_eq!(pairs(&table.get_symbols(1)), vec![("main".to_string(), 0x0102_0304)]);
    assert_eq!(table.serialize_as_section().1, TWO_SYMBOLS.to_vec());
}

#[test]
fn symbol_table_survives_writing_and_reading_as_a_segment() {
    let (header, mut data) = two_symbols().serialize_as_segment();
    data.extend([1, 2, 3]);
    let (consumed, table) = SymbolTable::deserialize_segment(&header, &data).unwrap();
    assert_eq!(consumed, 31);
    assert_eq!(pairs(&table.get_symbols(0)), vec![("L".to_string(), 12)]);
    assert_eq!(pairs(&table.get_symbols(1)), vec![("main".to_string(), 0x0102_0304)]);
}

#[test]
fn empty_symbol_table_is_read_back() {
    let header = SymbolTableHeader { entry_count: 0, names_length: 0 };
    let (consumed, table) = SymbolTable::deserialize_section(&header, &[9, 9]).unwrap();
    assert_eq!(consumed, 0);
    assert!(table.get_symbols(0).is_empty());
    let (segment_header, data) = SymbolTable::new().serialize_as_segment();
    let (consumed, table) = SymbolTable::deserialize_segment(&segment_header, &data).unwrap();
    assert_eq!(consumed, 0);
    assert!(table.get_symbols(0).is_empty());
}

#[test]
fn truncated_symbol_table_is_too_short() {
    let header = SymbolTableHeader { entry_count: 2, names_length: 7 };
    for len in 0..31 {
        let result = SymbolTable::deserialize_section(&header, &TWO_SYMBOLS[..len]);
        assert_eq!(result.err(), Some(SerializationError::DataTooShort));
    }
    let (segment_header, _) = two_symbols().serialize_as_segment();
    for len in 0..31 {
        let result = SymbolTable::deserialize_segment(&segment_header, &TWO_SYMBOLS[..len]);
        assert_eq!(result.err(), Some(SerializationError::DataTooShort));
    }
}

#[test]
fn symbol_name_that_starts_past_the_names_is_invalid() {
    let mut data = TWO_SYMBOLS;
    data[20] = 7;
    let header = SymbolTableHeader { entry_count: 2, names_length: 7 };
    let result = SymbolTable::deserialize_section(&header, &data);
    assert_eq!(result.err(), Some(SerializationError::InvalidData));
    data[20] = 6;
    assert!(SymbolTable::deserialize_section(&header, &data).is_ok());
}

#[test]
fn names_without_a_zero_byte_are_invalid() {
    let data = [b'a', b'b'];
    let header = SymbolTableHeader { entry_count: 0, names_length: 2 };
    let result = SymbolTable::deserialize_section(&header, &data);
    assert_eq!(result.err(), Some(SerializationError::InvalidData));
    let relocations = RelocationTableHeader { entry_count: 0, names_length: 2 };
    let result = RelocationTable::deserialize(&relocations, &data);
    assert_eq!(result.err(), Some(SerializationError::InvalidData));
}

#[test]
fn special_header_that_is_too_small_for_its_rows_is_invalid() {
    let header = SegmentHeader {
        address_space_start: 0,
        address_space_size: 3,
        disk_bit_count: 31,
        flags: SegmentFlags { executable: false, writable: false, readable: false, special: true },
    };
    let result = SymbolTable::deserialize_segment(&header, &[0u8; 64]);
    assert_eq!(result.err(), Some(SerializationError::InvalidSymbolTableHeader));
    let huge = SegmentHeader { address_space_size: u64::MAX, ..header };
    let result = SymbolTable::deserialize_segment(&huge, &[0u8; 64]);
    assert_eq!(result.err(), Some(SerializationError::InvalidSymbolTableHeader));
}

#[test]
fn relocations_come_back_by_section_in_the_order_they_were_added() {
    let mut table = RelocationTable::new();
    table.add_relocation(1, relocation("b", 2, true));
    table.add_relocation(0, relocation("a", 1, false));
    table.add_relocation(1, relocation("c", 3, false));
    assert_eq!(triples(&table.get_relocations(0)), vec![("a".to_string(), 1, false)]);
    assert_eq!(
        triples(&table.get_relocations(1)),
        vec![("b".to_string(), 2, true), ("c".to_string(), 3, false)]
    );
    assert!(table.get_relocations(2).is_empty());
}

#[test]
fn relocation_table_is_rows_then_names() {
    let mut table = RelocationTable::new();
    table.add_relocation(0, relocation("L", 0, false));
    table.add_relocation(2, relocation("far", 0x0102_0304, true));
    let (header, data) = table.serialize();
    assert_eq!(
        header,
        SectionHeader::RelocationTable(RelocationTableHeader { entry_count: 2, names_length: 6 })
    );
    let expected: Vec<u8> = vec![
        0, 0, 0, 0, 0, 0, 0, 0, 0, 0, 0, 0, 0, 0, 0, 0, // section 0, name at 0, address 0, absolute
        2, 0, 0, 0, 2, 0, 0, 0, 4, 3, 2, 1, 1, 0, 0, 0, // section 2, name at 2, relative
        b'L', 0, b'f', b'a', b'r', 0,
    ];
    assert_eq!(data, expected);
    assert_eq!(header.section_size(), 38);
    let header = match header {
        SectionHeader::RelocationTable(header) => header,
        other => panic!("{:?}", other),
    };
    let (consumed, read) = RelocationTable::deserialize(&header, &data).unwrap();
    assert_eq!(consumed, 38);
    assert_eq!(triples(&read.get_relocations(0)), vec![("L".to_string(), 0, false)]);
    assert_eq!(triples(&read.get_relocations(2)), vec![("far".to_string(), 0x0102_0304, true)]);
    for len in 0..38 {
        let result = RelocationTable::deserialize(&header, &data[..len]);
        assert_eq!(result.err(), Some(SerializationError::DataTooShort));
    }
}

#[test]
fn any_nonzero_byte_marks_a_relative_relocation() {
    let mut data = vec![0u8; 16];
    data[12] = 0x80;
    data.extend([b'x', 0]);
    let header = RelocationTableHeader { entry_count: 1, names_length: 2 };
    let (_, table) = RelocationTable::deserialize(&header, &data).unwrap();
    assert_eq!(triples(&table.get_relocations(0)), vec![("x".to_string(), 0, true)]);
}

#[test]
fn relocation_name_that_starts_past_the_names_is_invalid() {
    let mut data = vec![0u8; 16];
    data[4] = 2;
    data.extend([b'x', 0]);
    let header = RelocationTableHeader { entry_count: 1, names_length: 2 };
    let result = RelocationTable::deserialize(&header, &data);
    assert_eq!(result.err(), Some(SerializationError::InvalidData));
}

#[test]
fn empty_relocation_table_is_read_back() {
    let (header, data) = RelocationTable::new().serialize();
    assert_eq!(
        header,
        SectionHeader::RelocationTable(RelocationTableHeader { entry_count: 0, names_length: 0 })
    );
    assert!(data.is_empty());
    let header = RelocationTableHeader { entry_count: 0, names_length: 0 };
    let (consumed, table) = RelocationTable::deserialize(&header, &data).unwrap();
    assert_eq!(consumed, 0);
    assert!(table.get_relocations(0).is_empty());
}

#[test]
fn addresses_are_stored_in_32_bits() {
    let mut table = SymbolTable::new();
    table.add_symbol(0, symbol("wide", 0xffff_ffff));
    let (_, data) = table.serialize_as_section();
    assert_eq!(&data[4..8], &[0xff, 0xff, 0xff, 0xff]);
}
