use bitlink::address::{Address, AddressIndexable};
use bitlink::bit_buffer::BitBuffer;
use bitlink::executable::segments::flags::SegmentFlags;
use bitlink::executable::Executable;
use bitlink::object_file::placed::{
    distance_in_text_bytes, patch_field, LinkerError, PlacedSection, Placement, SectionType,
};
use bitlink::object_file::relocations::Relocation;
use bitlink::object_file::sections::{Section, TextSection};
use bitlink::object_file::ObjectFile;
use bitlink::serializable::Architecture;
use bitlink::symbols::Symbol;

fn defined(name: &str, address: usize) -> Symbol {
    Symbol { name: name.to_string(), address: Address(address) }
}

fn patch(name: &str, address: usize, relative: bool) -> Relocation {
    Relocation { symbol: name.to_string(), address: Address(address), relative }
}

fn zeros(len: usize) -> BitBuffer {
    let mut buffer = BitBuffer::new();
    for _ in 0..len {
        buffer.push(false);
    }
    buffer
}

fn code(len: usize, symbols: Vec<Symbol>, relocations: Vec<Relocation>) -> Section {
    Section::Text(TextSection::new(zeros(len), symbols, relocations))
}

fn placement(architecture: Architecture, sections: Vec<Section>) -> Placement {
    let mut placement =
        Placement::new(sections.into_iter().map(PlacedSection::new).collect(), architecture);
    placement.place();
    placement
}

fn link(architecture: Architecture, sections: Vec<Section>) -> Result<Executable, LinkerError> {
    Executable::try_from(ObjectFile::with_sections(architecture, sections))
}

fn field_after_link(
    architecture: Architecture,
    symbol_at: usize,
    site: usize,
    relative: bool,
    seed: u16,
) -> Result<u16, LinkerError> {
    let mut data = zeros(site + 16);
    data.write(Address(site), seed);
    let section = Section::Text(TextSection::new(
        data,
        vec![defined("L", symbol_at)],
        vec![patch("L", site, relative)],
    ));
    let executable = link(architecture, vec![section])?;
    Ok(executable.segments()[0].data.index(Address(site)))
}

#[test]
fn a_placed_section_starts_at_zero_and_can_be_moved() {
    let mut placed = PlacedSection::new(code(18, vec![defined("a", 4)], vec![]));
    assert_eq!(placed.offset(), 0);
    assert_eq!(placed.section_type(), SectionType::Unified);
    assert_eq!(placed.find_symbol("a"), Some(Address(4)));
    placed.to(30);
    assert_eq!(placed.offset(), 30);
    assert_eq!(placed.find_symbol("a"), Some(Address(34)));
    assert_eq!(placed.find_symbol("b"), None);
    assert_eq!(placed.section().symbols().len(), 1);
}

#[test]
fn size_is_the_number_of_started_text_bytes() {
    let sized = |len| PlacedSection::new(code(len, vec![], vec![]));
    assert_eq!(sized(0).size(Architecture::Stack), 0);
    assert_eq!(sized(1).size(Architecture::Stack), 1);
    assert_eq!(sized(6).size(Architecture::Stack), 1);
    assert_eq!(sized(7).size(Architecture::Stack), 2);
    assert_eq!(sized(18).size(Architecture::Stack), 3);
    assert_eq!(sized(18).size(Architecture::Risc), 3);
    assert_eq!(sized(16).size(Architecture::Accumulator), 2);
    assert_eq!(sized(17).size(Architecture::Accumulator), 3);
}

#[test]
fn sections_are_placed_one_behind_the_other_in_whole_text_bytes() {
    let lengths = [18usize, 7, 0, 12, 1];
    let sections = |architecture| {
        let mut sections = Vec::new();
        for (i, len) in lengths.iter().enumerate() {
            sections.push(code(*len, vec![defined(&format!("s{}", i), 0)], vec![]));
        }
        placement(architecture, sections)
    };
    let starts = |placement: &Placement| -> Vec<usize> {
        (0..lengths.len())
            .map(|i| placement.find_symbol(&format!("s{}", i)).unwrap().0)
            .collect()
    };
    // text bytes of six bits: 3, 2, 0, 2 and 1 of them
    assert_eq!(starts(&sections(Architecture::Stack)), vec![0, 18, 30, 30, 42]);
    // text bytes of eight bits: 3, 1, 0, 2 and 1 of them
    assert_eq!(starts(&sections(Architecture::Risc)), vec![0, 24, 32, 32, 48]);
}

#[test]
fn placed_sections_do_not_overlap() {
    let lengths = [5usize, 6, 7, 0, 23, 48, 49];
    for (architecture, width) in [(Architecture::Stack, 6usize), (Architecture::Accumulator, 8)] {
        let sections = lengths
            .iter()
            .enumerate()
            .map(|(i, len)| code(*len, vec![defined(&format!("s{}", i), 0)], vec![]))
            .collect();
        let placement = placement(architecture, sections);
        let starts: Vec<usize> = (0..lengths.len())
            .map(|i| placement.find_symbol(&format!("s{}", i)).unwrap().0)
            .collect();
        for i in 0..lengths.len() {
            assert_eq!(starts[i] % width, 0);
            for j in i + 1..lengths.len() {
                let size = (lengths[i] + width - 1) / width;
                assert!(starts[j] / width >= starts[i] / width + size);
            }
        }
    }
}

#[test]
fn find_symbol_gives_the_first_definition_in_placement_order() {
    let placement = placement(
        Architecture::Stack,
        vec![
            code(18, vec![defined("a", 1), defined("x", 5), defined("x", 6)], vec![]),
            code(12, vec![defined("x", 0), defined("y", 4)], vec![]),
            code(6, vec![defined("y", 0), defined("z", 3)], vec![]),
        ],
    );
    assert_eq!(placement.architecture(), Architecture::Stack);
    assert_eq!(placement.find_symbol("a"), Some(Address(1)));
    assert_eq!(placement.find_symbol("x"), Some(Address(5)));
    assert_eq!(placement.find_symbol("y"), Some(Address(18 + 4)));
    assert_eq!(placement.find_symbol("z"), Some(Address(30 + 3)));
    assert_eq!(placement.find_symbol("w"), None);
    assert_eq!(placement.find_symbol(""), None);
}

#[test]
fn linking_the_small_object_writes_the_symbol_in_text_bytes() {
    let section = code(18, vec![defined("L", 12)], vec![patch("L", 0, false)]);
    let executable = link(Architecture::Stack, vec![section]).unwrap();
    assert_eq!(executable.architecture(), Architecture::Stack);
    assert_eq!(executable.entry_point(), 0);
    let segments = executable.segments();
    assert_eq!(segments.len(), 1);
    let segment = &segments[0];
    // 12 bits are two text-bytes of six bits
    assert_eq!(segment.data.index(Address(0)), 0x0002);
    let bits: Vec<bool> = (0..18).map(|i| segment.data.get(i).unwrap()).collect();
    let expected: Vec<bool> = (0..18).map(|i| i == 14).collect();
    assert_eq!(bits, expected);
    assert_eq!(segment.address_space_start, 0);
    assert_eq!(segment.address_space_size, 3);
    assert_eq!(segment.disk_bit_count, 18);
    assert_eq!(
        segment.flags,
        SegmentFlags { executable: true, writable: false, readable: true, special: false }
    );
    let symbols = segment.symbols();
    assert_eq!(symbols.len(), 1);
    assert_eq!((symbols[0].name.as_str(), symbols[0].address), ("L", Address(12)));
}

#[test]
fn absolute_relocation_writes_the_address_and_relative_the_distance() {
    // the symbol at bit 600, the field at bit 60, text-bytes of six bits
    assert_eq!(field_after_link(Architecture::Stack, 600, 60, false, 0).unwrap(), 100);
    assert_eq!(field_after_link(Architecture::Stack, 600, 60, true, 0).unwrap(), 90);
    // text-bytes of eight bits
    assert_eq!(field_after_link(Architecture::Risc, 600, 60, false, 0).unwrap(), 75);
    assert_eq!(field_after_link(Architecture::Risc, 600, 60, true, 0).unwrap(), 67);
}

#[test]
fn relocation_adds_to_the_field_and_wraps_at_16_bits() {
    assert_eq!(field_after_link(Architecture::Stack, 600, 60, false, 7).unwrap(), 107);
    assert_eq!(field_after_link(Architecture::Stack, 600, 60, true, 0xa000).unwrap(), 0xa05a);
    assert_eq!(field_after_link(Architecture::Stack, 600, 60, false, 0xfff0).unwrap(), 0x0054);
    assert_eq!(field_after_link(Architecture::Stack, 600, 60, false, 0xffff).unwrap(), 99);
}

#[test]
fn backward_relative_relocation_subtracts() {
    // the symbol 540 bits before the field: 90 text-bytes back
    assert_eq!(field_after_link(Architecture::Stack, 60, 600, true, 0).unwrap(), 0u16.wrapping_sub(90));
    assert_eq!(field_after_link(Architecture::Stack, 60, 600, true, 100).unwrap(), 10);
    // a distance that is no whole number of text-bytes is rounded towards zero
    assert_eq!(field_after_link(Architecture::Stack, 0, 11, true, 100).unwrap(), 99);
    assert_eq!(field_after_link(Architecture::Stack, 11, 0, true, 100).unwrap(), 101);
    assert_eq!(field_after_link(Architecture::Stack, 0, 5, true, 100).unwrap(), 100);
}

#[test]
fn relocation_reaches_65536_text_bytes_and_no_further() {
    assert_eq!(field_after_link(Architecture::Stack, 6 * 65535, 0, false, 0).unwrap(), 65535);
    // 65536 text-bytes are in range and wrap to nothing
    assert_eq!(field_after_link(Architecture::Stack, 6 * 65536, 0, false, 5).unwrap(), 5);
    assert_eq!(field_after_link(Architecture::Stack, 6 * 65536 + 5, 0, false, 5).unwrap(), 5);
    assert_eq!(field_after_link(Architecture::Stack, 0, 6 * 65536, true, 5).unwrap(), 5);
    for (symbol_at, site, relative) in [
        (6 * 65537, 0, false),
        (6 * 65537, 0, true),
        (6 * 65537 + 60, 60, true),
        (0, 6 * 65537, true),
        (usize::MAX, 0, false),
    ] {
        match field_after_link(Architecture::Stack, symbol_at, site, relative, 0) {
            Err(LinkerError::RelocationOutOfRange(name)) => assert_eq!(name, "L"),
            other => panic!("{:?}", other),
        }
    }
    match field_after_link(Architecture::Risc, 8 * 65537, 0, false, 0) {
        Err(LinkerError::RelocationOutOfRange(name)) => assert_eq!(name, "L"),
        other => panic!("{:?}", other),
    }
    assert_eq!(field_after_link(Architecture::Risc, 8 * 65536 + 7, 0, false, 1).unwrap(), 1);
}

#[test]
fn relocation_to_an_undefined_symbol_fails() {
    let sections = vec![
        code(18, vec![defined("known", 0)], vec![patch("known", 0, false)]),
        code(18, vec![], vec![patch("known", 0, false), patch("missing", 0, false)]),
    ];
    match link(Architecture::Stack, sections) {
        Err(LinkerError::SymbolNotFound(name)) => assert_eq!(name, "missing"),
        other => panic!("{:?}", other),
    }
}

#[test]
fn the_first_relocation_that_fails_gives_the_error() {
    let far = 6 * 70000;
    let out_of_range_first = vec![code(
        32,
        vec![defined("far", far)],
        vec![patch("far", 0, false), patch("missing", 16, false)],
    )];
    match link(Architecture::Stack, out_of_range_first) {
        Err(LinkerError::RelocationOutOfRange(name)) => assert_eq!(name, "far"),
        other => panic!("{:?}", other),
    }
    let missing_first = vec![code(
        32,
        vec![defined("far", far)],
        vec![patch("missing", 16, false), patch("far", 0, false)],
    )];
    match link(Architecture::Stack, missing_first) {
        Err(LinkerError::SymbolNotFound(name)) => assert_eq!(name, "missing"),
        other => panic!("{:?}", other),
    }
}

#[test]
fn symbols_of_later_sections_are_resolved_at_their_place() {
    let sections = vec![
        code(18, vec![defined("start", 0)], vec![patch("helper", 0, false)]),
        code(20, vec![defined("helper", 12)], vec![patch("start", 2, false), patch("helper", 2, true)]),
    ];
    let executable = link(Architecture::Stack, sections).unwrap();
    let segments = executable.segments();
    assert_eq!(segments.len(), 2);
    // helper lies at bit 18 + 12, which is text-byte 5
    assert_eq!(segments[0].data.index(Address(0)), 5);
    // start is at 0; helper is 30 - 2 bits from the field, which is 4 text-bytes
    assert_eq!(segments[1].data.index(Address(2)), 4);
    assert_eq!(segments[0].address_space_start, 0);
    assert_eq!(segments[0].address_space_size, 3);
    assert_eq!(segments[1].address_space_start, 3);
    assert_eq!(segments[1].address_space_size, 4);
    assert_eq!(segments[1].disk_bit_count, 20);
    // the symbols stay relative to their segment
    assert_eq!(segments[1].symbols()[0].address, Address(12));
}

#[test]
fn relocations_are_applied_in_order_to_the_same_field() {
    let section = code(
        16,
        vec![defined("a", 6), defined("b", 12)],
        vec![patch("a", 0, false), patch("b", 0, false), patch("a", 0, false)],
    );
    let executable = link(Architecture::Stack, vec![section]).unwrap();
    assert_eq!(executable.segments()[0].data.index(Address(0)), 1 + 2 + 1);
}

#[test]
fn relocation_at_the_end_of_the_bits_is_cut_off() {
    // only four bits of the field lie in the section
    let section = code(10, vec![defined("L", 6 * 0xf000)], vec![patch("L", 6, false)]);
    let executable = link(Architecture::Stack, vec![section]).unwrap();
    let data = &executable.segments()[0].data;
    assert_eq!(data.len(), 10);
    assert_eq!(data.index(Address(6)), 0xf000);
    // a field past the end changes nothing
    let section = code(10, vec![defined("L", 6)], vec![patch("L", 10, false)]);
    let executable = link(Architecture::Stack, vec![section]).unwrap();
    let data = &executable.segments()[0].data;
    assert_eq!((0..10).filter(|i| data.get(*i).unwrap()).count(), 0);
}

#[test]
fn linking_leaves_the_sections_without_relocations_as_they_are() {
    let mut data = BitBuffer::new();
    for i in 0..13 {
        data.push(i % 3 == 0);
    }
    let section = Section::Text(TextSection::new(data, vec![], vec![]));
    let executable = link(Architecture::Accumulator, vec![section]).unwrap();
    let segment = &executable.segments()[0];
    let bits: Vec<bool> = (0..13).map(|i| segment.data.get(i).unwrap()).collect();
    assert_eq!(bits, (0..13).map(|i| i % 3 == 0).collect::<Vec<bool>>());
    assert_eq!(segment.address_space_size, 2);
    assert!(link(Architecture::Risc, vec![]).unwrap().segments().is_empty());
}

#[test]
fn to_segment_turns_the_offset_in_bits_into_text_bytes() {
    let placement = placement(Architecture::Stack, vec![code(6, vec![defined("a", 0)], vec![])]);
    let section = code(12, vec![], vec![patch("a", 0, false)]);
    let segment = section.to_segment(&placement, 42).unwrap();
    assert_eq!(segment.address_space_start, 7);
    assert_eq!(segment.address_space_size, 2);
    assert_eq!(segment.disk_bit_count, 12);
    assert_eq!(segment.data.index(Address(0)), 0);
    let segments = placement.as_segments().unwrap();
    assert_eq!(segments.len(), 1);
    assert_eq!(segments[0].address_space_start, 0);
}

#[test]
fn distances_are_counted_in_text_bytes_towards_zero() {
    let stack = Architecture::Stack;
    assert_eq!(distance_in_text_bytes(Address(600), Address(60), false, stack), Some(100));
    assert_eq!(distance_in_text_bytes(Address(600), Address(60), true, stack), Some(90));
    assert_eq!(distance_in_text_bytes(Address(60), Address(600), true, stack), Some(-90));
    assert_eq!(distance_in_text_bytes(Address(0), Address(11), true, stack), Some(-1));
    assert_eq!(distance_in_text_bytes(Address(11), Address(0), true, stack), Some(1));
    assert_eq!(distance_in_text_bytes(Address(5), Address(0), false, stack), Some(0));
    assert_eq!(distance_in_text_bytes(Address(600), Address(60), false, Architecture::Risc), Some(75));
    assert_eq!(distance_in_text_bytes(Address(6 * 65536 + 5), Address(0), false, stack), Some(65536));
    assert_eq!(distance_in_text_bytes(Address(6 * 65537), Address(0), false, stack), None);
    assert_eq!(distance_in_text_bytes(Address(0), Address(6 * 65536 + 5), true, stack), Some(-65536));
    assert_eq!(distance_in_text_bytes(Address(0), Address(6 * 65537), true, stack), None);
    assert_eq!(distance_in_text_bytes(Address(usize::MAX), Address(0), true, stack), None);
    assert_eq!(distance_in_text_bytes(Address(0), Address(usize::MAX), true, stack), None);
    assert_eq!(distance_in_text_bytes(Address(usize::MAX), Address(usize::MAX), true, stack), Some(0));
}

#[test]
fn patching_adds_and_wraps_at_16_bits() {
    assert_eq!(patch_field(0, 100), 100);
    assert_eq!(patch_field(0xfff0, 100), 0x54);
    assert_eq!(patch_field(100, -90), 10);
    assert_eq!(patch_field(10, -90), 0u16.wrapping_sub(80));
    assert_eq!(patch_field(5, 65536), 5);
    assert_eq!(patch_field(5, -65536), 5);
    assert_eq!(patch_field(5, 65537), 6);
    assert_eq!(patch_field(0, i64::MIN), 0);
    assert_eq!(patch_field(0, i64::MAX), 0xffff);
    assert_eq!(patch_field(0, -1), 0xffff);
}
