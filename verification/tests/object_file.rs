use bitlink::address::Address;
use bitlink::bit_buffer::BitBuffer;
use bitlink::object_file::relocations::Relocation;
use bitlink::object_file::sections::header::{SectionHeader, SymbolTableHeader, TextSectionHeader};
use bitlink::object_file::sections::{Section, TextSection};
use bitlink::object_file::ObjectFile;
use bitlink::serializable::{Architecture, Serializable, SerializationError};
use bitlink::symbols::Symbol;

fn sym(name: &str, address: usize) -> Symbol {
    Symbol { name: name.to_string(), address: Address(address) }
}

fn rel(name: &str, address: usize, relative: bool) -> Relocation {
    Relocation { symbol: name.to_string(), address: Address(address), relative }
}

fn packed_in(bits: &[bool]) -> BitBuffer {
    let mut buffer = BitBuffer::new();
    for bit in bits {
        buffer.push(*bit);
    }
    buffer
}

fn text(bits: &[bool], symbols: Vec<Symbol>, relocations: Vec<Relocation>) -> Section {
    Section::Text(TextSection::new(packed_in(bits), symbols, relocations))
}

type Plain = (Vec<bool>, Vec<(String, usize)>, Vec<(String, usize, bool)>);

fn plain(section: &Section) -> Plain {
    match section {
        Section::Text(text) => (
            (0..text.data.len()).map(|i| text.data.get(i).unwrap()).collect(),
            text.symbols.iter().map(|s| (s.name.clone(), s.address.0)).collect(),
            text.relocations.iter().map(|r| (r.symbol.clone(), r.address.0, r.relative)).collect(),
        ),
    }
}

fn plain_all(sections: &[Section]) -> Vec<Plain> {
    sections.iter().map(plain).collect()
}

fn small_object() -> ObjectFile {
    ObjectFile::with_sections(
        Architecture::Stack,
        vec![text(&[false; 18], vec![sym("L", 12)], vec![rel("L", 0, false)])],
    )
}

fn small_object_bytes() -> Vec<u8> {
    let mut bytes = vec![0, 3, 0, 0, 0, 0, 0, 0, 0];
    bytes.extend([0, 0, 0, 0, 0, 0, 0, 0, 18, 0, 0, 0, 0, 0, 0, 0]);
    bytes.extend([255, 0, 0, 0, 1, 0, 0, 0, 2, 0, 0, 0, 0, 0, 0, 0]);
    bytes.extend([254, 0, 0, 0, 1, 0, 0, 0, 2, 0, 0, 0, 0, 0, 0, 0]);
    bytes.extend([0, 0, 0]);
    bytes.extend([0, 0, 0, 0, 12, 0, 0, 0, 0, 0, 0, 0, b'L', 0]);
    bytes.extend([0, 0, 0, 0, 0, 0, 0, 0, 0, 0, 0, 0, 0, 0, 0, 0, b'L', 0]);
    bytes
}

fn larger_object() -> ObjectFile {
    let first: Vec<bool> = (0..19).map(|i| i % 3 == 0).collect();
    let second: Vec<bool> = (0..8).map(|i| i % 2 == 1).collect();
    ObjectFile::with_sections(
        Architecture::Risc,
        vec![
            text(
                &first,
                vec![sym("start", 0), sym("loop", 6)],
                vec![rel("helper", 2, true), rel("loop", 3, false)],
            ),
            text(&[], vec![], vec![]),
            text(&second, vec![sym("helper", 0), sym("", 5)], vec![rel("start", 0, false)]),
        ],
    )
}

#[test]
fn text_section_payload_is_the_packed_bits() {
    let mut bits = [false; 18];
    bits[0] = true;
    bits[17] = true;
    let section = text(&bits, vec![], vec![]);
    let (header, payload) = section.serialize();
    assert_eq!(header, SectionHeader::Text(TextSectionHeader { bit_length: 18 }));
    assert_eq!(payload, vec![1, 0, 2]);
}

#[test]
fn text_section_is_read_with_the_symbols_and_relocations_it_is_given() {
    let header = TextSectionHeader { bit_length: 10 };
    let (consumed, section) = TextSection::deserialize(
        &header,
        &[0b0000_0101, 0b1111_1110, 9],
        vec![sym("a", 1)],
        vec![rel("b", 2, true)],
    )
    .unwrap();
    assert_eq!(consumed, 2);
    let expected = vec![true, false, true, false, false, false, false, false, false, true];
    assert_eq!(
        plain(&Section::Text(section)),
        (expected, vec![("a".to_string(), 1)], vec![("b".to_string(), 2, true)])
    );
}

#[test]
fn text_section_with_missing_bytes_is_too_short() {
    let header = TextSectionHeader { bit_length: 17 };
    let result = TextSection::deserialize(&header, &[0, 0], vec![], vec![]);
    assert_eq!(result.err(), Some(SerializationError::DataTooShort));
    assert!(TextSection::deserialize(&header, &[0, 0, 0], vec![], vec![]).is_ok());
}

#[test]
fn only_a_text_header_frames_a_section() {
    let header = SectionHeader::SymbolTable(SymbolTableHeader { entry_count: 0, names_length: 0 });
    let result = Section::deserialize(&header, &[0; 8], vec![], vec![]);
    assert_eq!(result.err(), Some(SerializationError::InvalidSectionType(0)));
}

#[test]
fn section_hands_out_copies_of_its_symbols_and_relocations() {
    let section = text(&[true], vec![sym("a", 1), sym("b", 2)], vec![rel("c", 3, true)]);
    let symbols = section.symbols();
    assert_eq!(symbols.len(), 2);
    assert_eq!((symbols[0].name.as_str(), symbols[0].address), ("a", Address(1)));
    assert_eq!((symbols[1].name.as_str(), symbols[1].address), ("b", Address(2)));
    let relocations = section.relocations();
    assert_eq!(relocations.len(), 1);
    assert_eq!(relocations[0].symbol, "c");
    assert_eq!(relocations[0].address, Address(3));
    assert!(relocations[0].relative);
}

#[test]
fn object_file_is_header_then_headers_then_payloads() {
    assert_eq!(small_object().serialize(), small_object_bytes());
}

#[test]
fn empty_object_file_has_only_the_header_and_the_two_table_headers() {
    let bytes = ObjectFile::new(Architecture::Accumulator).serialize();
    let mut expected = vec![1, 2, 0, 0, 0, 0, 0, 0, 0];
    expected.extend([255, 0, 0, 0, 0, 0, 0, 0, 0, 0, 0, 0, 0, 0, 0, 0]);
    expected.extend([254, 0, 0, 0, 0, 0, 0, 0, 0, 0, 0, 0, 0, 0, 0, 0]);
    assert_eq!(bytes, expected);
    let (consumed, object) = ObjectFile::deserialize(&bytes).unwrap();
    assert_eq!(consumed, 41);
    assert_eq!(object.architecture(), Architecture::Accumulator);
    assert!(object.sections().is_empty());
}

#[test]
fn object_file_length_is_header_and_frames_and_payloads() {
    // 9 + 16 * (N + 2) + the sizes of the payloads
    assert_eq!(small_object().serialize().len(), 9 + 16 * 3 + 3 + 14 + 18);
    let bytes = larger_object().serialize();
    let texts = 3 + 0 + 1;
    let symbols = 12 * 4 + "start\0loop\0helper\0\0".len();
    let relocations = 16 * 3 + "helper\0loop\0start\0".len();
    assert_eq!(bytes.len(), 9 + 16 * 5 + texts + symbols + relocations);
}

#[test]
fn object_file_survives_writing_and_reading() {
    for object in [small_object(), larger_object(), ObjectFile::new(Architecture::Stack)] {
        let bytes = object.serialize();
        let (consumed, read) = ObjectFile::deserialize(&bytes).unwrap();
        assert_eq!(consumed, bytes.len());
        assert_eq!(read.architecture(), object.architecture());
        assert_eq!(read.serialize(), bytes);
        assert_eq!(plain_all(&read.sections()), plain_all(&object.sections()));
    }
}

#[test]
fn object_file_reading_leaves_what_follows() {
    let mut bytes = larger_object().serialize();
    let len = bytes.len();
    bytes.extend([1, 2, 3, 4]);
    let (consumed, read) = ObjectFile::deserialize(&bytes).unwrap();
    assert_eq!(consumed, len);
    assert_eq!(plain_all(&read.sections()), plain_all(&larger_object().sections()));
}

#[test]
fn symbols_and_relocations_return_to_their_sections_in_order() {
    let (_, read) = ObjectFile::deserialize(&larger_object().serialize()).unwrap();
    let sections = read.sections();
    assert_eq!(sections.len(), 3);
    let (_, symbols, relocations) = plain(&sections[0]);
    assert_eq!(symbols, vec![("start".to_string(), 0), ("loop".to_string(), 6)]);
    assert_eq!(relocations, vec![("helper".to_string(), 2, true), ("loop".to_string(), 3, false)]);
    let (bits, symbols, relocations) = plain(&sections[1]);
    assert!(bits.is_empty() && symbols.is_empty() && relocations.is_empty());
    let (_, symbols, relocations) = plain(&sections[2]);
    assert_eq!(symbols, vec![("helper".to_string(), 0), ("".to_string(), 5)]);
    assert_eq!(relocations, vec![("start".to_string(), 0, false)]);
}

#[test]
fn every_proper_start_of_an_object_file_is_too_short() {
    for object in [small_object(), larger_object(), ObjectFile::new(Architecture::Risc)] {
        let bytes = object.serialize();
        for len in 0..bytes.len() {
            let result = ObjectFile::deserialize(&bytes[..len]);
            assert_eq!(result.err(), Some(SerializationError::DataTooShort), "at {}", len);
        }
    }
}

#[test]
fn object_file_without_its_last_byte_is_too_short() {
    let bytes = small_object_bytes();
    let result = ObjectFile::deserialize(&bytes[..bytes.len() - 1]);
    assert_eq!(result.err(), Some(SerializationError::DataTooShort));
}

#[test]
fn object_file_of_an_unknown_architecture_is_rejected() {
    let mut bytes = small_object_bytes();
    bytes[0] = 3;
    let result = ObjectFile::deserialize(&bytes);
    assert_eq!(result.err(), Some(SerializationError::InvalidArchitecture(3)));
}

#[test]
fn object_file_with_an_unknown_section_tag_is_rejected() {
    let mut bytes = small_object_bytes();
    bytes[9] = 17;
    let result = ObjectFile::deserialize(&bytes);
    assert_eq!(result.err(), Some(SerializationError::InvalidSectionType(17)));
}

#[test]
fn object_file_needs_its_two_tables() {
    let none = [0u8, 0, 0, 0, 0, 0, 0, 0, 0];
    assert_eq!(ObjectFile::deserialize(&none).err(), Some(SerializationError::InvalidData));
    let mut one = vec![0u8, 1, 0, 0, 0, 0, 0, 0, 0];
    one.extend([255, 0, 0, 0, 0, 0, 0, 0, 0, 0, 0, 0, 0, 0, 0, 0]);
    assert_eq!(ObjectFile::deserialize(&one).err(), Some(SerializationError::InvalidData));
}

#[test]
fn object_file_tables_must_be_last_and_in_order() {
    let frame = |tag: u8| {
        let mut bytes = vec![0u8; 16];
        bytes[0] = tag;
        bytes
    };
    let file = |tags: &[u8]| {
        let mut bytes = vec![0u8, tags.len() as u8, 0, 0, 0, 0, 0, 0, 0];
        for tag in tags {
            bytes.extend(frame(*tag));
        }
        bytes
    };
    assert!(ObjectFile::deserialize(&file(&[255, 254])).is_ok());
    assert!(ObjectFile::deserialize(&file(&[0, 255, 254])).is_ok());
    for tags in [
        vec![254, 255],
        vec![0, 0],
        vec![255, 255],
        vec![254, 254],
        vec![255, 254, 0],
        vec![255, 255, 254],
        vec![254, 255, 254],
        vec![0, 255, 0, 255, 254],
    ] {
        let result = ObjectFile::deserialize(&file(&tags));
        assert_eq!(result.err(), Some(SerializationError::InvalidData), "{:?}", tags);
    }
}

#[test]
fn object_file_with_a_broken_table_is_invalid() {
    let mut bytes = small_object_bytes();
    // the symbol's name now starts past the two bytes of names
    bytes[57 + 3 + 8] = 2;
    assert_eq!(ObjectFile::deserialize(&bytes).err(), Some(SerializationError::InvalidData));
    let mut bytes = small_object_bytes();
    // the names of the relocation table lose their zero bytes
    let len = bytes.len();
    bytes[len - 1] = b'x';
    assert_eq!(ObjectFile::deserialize(&bytes).err(), Some(SerializationError::InvalidData));
}

#[test]
fn add_section_and_merge_append_sections() {
    let mut object = ObjectFile::new(Architecture::Stack);
    object.add_section(text(&[true], vec![sym("a", 0)], vec![]));
    let mut other = ObjectFile::new(Architecture::Stack);
    other.add_section(text(&[false, true], vec![], vec![rel("a", 0, false)]));
    other.add_section(text(&[], vec![], vec![]));
    object.merge(other);
    assert_eq!(object.architecture(), Architecture::Stack);
    let sections = object.sections();
    assert_eq!(
        plain_all(&sections),
        vec![
            (vec![true], vec![("a".to_string(), 0)], vec![]),
            (vec![false, true], vec![], vec![("a".to_string(), 0, false)]),
            (vec![], vec![], vec![]),
        ]
    );
}

#[test]
fn section_clone_is_a_copy() {
    let section = text(&[true, false], vec![sym("a", 1)], vec![rel("b", 0, true)]);
    assert_eq!(plain(&section.clone()), plain(&section));
}
