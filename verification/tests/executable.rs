use bitlink::address::Address;
use bitlink::bit_buffer::BitBuffer;
use bitlink::executable::segments::flags::SegmentFlags;
use bitlink::executable::segments::header::SegmentHeader;
use bitlink::executable::{Executable, Segment};
use bitlink::serializable::{Architecture, Serializable, SerializationError};
use bitlink::symbols::Symbol;

fn named(name: &str, address: usize) -> Symbol {
    Symbol { name: name.to_string(), address: Address(address) }
}

fn holding(bits: &[bool]) -> BitBuffer {
    let mut buffer = BitBuffer::new();
    for bit in bits {
        buffer.push(*bit);
    }
    buffer
}

const CODE: SegmentFlags =
    SegmentFlags { executable: true, writable: false, readable: true, special: false };

fn segment(start: u64, size: u64, bits: &[bool], symbols: Vec<Symbol>) -> Segment {
    Segment::new(start, size, bits.len(), CODE, holding(bits), symbols)
}

type PlainSegment = (u64, u64, usize, SegmentFlags, Vec<bool>, Vec<(String, usize)>);

fn plain(segment: &Segment) -> PlainSegment {
    (
        segment.address_space_start,
        segment.address_space_size,
        segment.disk_bit_count,
        segment.flags,
        (0..segment.data.len()).map(|i| segment.data.get(i).unwrap()).collect(),
        segment.symbols().iter().map(|s| (s.name.clone(), s.address.0)).collect(),
    )
}

fn plain_all(segments: &[Segment]) -> Vec<PlainSegment> {
    segments.iter().map(plain).collect()
}

fn small_executable() -> Executable {
    let mut bits = [false; 18];
    bits[14] = true;
    Executable::new(Architecture::Stack, vec![segment(0, 3, &bits, vec![named("L", 12)])])
}

fn small_executable_bytes() -> Vec<u8> {
    let mut bytes = vec![0];
    bytes.extend([2, 0, 0, 0, 0, 0, 0, 0]);
    bytes.extend([0, 0, 0, 0, 0, 0, 0, 0]);
    // the segment: start 0, size 3, 18 bits, executable and readable
    bytes.extend([0, 0, 0, 0, 0, 0, 0, 0, 3, 0, 0, 0, 0, 0, 0, 0, 18, 0, 0, 0, 0, 0, 0, 0, 5]);
    // the symbol table: one row, fourteen bytes, special
    bytes.extend([0, 0, 0, 0, 0, 0, 0, 0, 1, 0, 0, 0, 0, 0, 0, 0, 14, 0, 0, 0, 0, 0, 0, 0, 8]);
    bytes.extend([0, 0x40, 0]);
    bytes.extend([0, 0, 0, 0, 12, 0, 0, 0, 0, 0, 0, 0, b'L', 0]);
    bytes
}

fn larger_executable() -> Executable {
    let first: Vec<bool> = (0..21).map(|i| i % 4 == 1).collect();
    let second: Vec<bool> = (0..16).map(|i| i % 2 == 0).collect();
    let mut executable = Executable::new(
        Architecture::Risc,
        vec![
            segment(0, 3, &first, vec![named("start", 0), named("loop", 8)]),
            segment(3, 0, &[], vec![]),
            segment(3, 2, &second, vec![named("data", 0)]),
        ],
    );
    executable.set_entry_point(0x0102_0304_0506);
    executable
}

#[test]
fn segment_payload_is_the_packed_bits_under_its_header() {
    let mut bits = [false; 10];
    bits[1] = true;
    bits[9] = true;
    let (header, payload) = segment(7, 2, &bits, vec![]).serialize();
    assert_eq!(
        header,
        SegmentHeader { address_space_start: 7, address_space_size: 2, disk_bit_count: 10, flags: CODE }
    );
    assert_eq!(payload, vec![2, 2]);
}

#[test]
fn segment_is_read_with_the_symbols_it_is_given() {
    let header = SegmentHeader {
        address_space_start: 7,
        address_space_size: 2,
        disk_bit_count: 10,
        flags: CODE,
    };
    let (consumed, read) =
        Segment::deserialize(&header, &[2, 2, 99], vec![named("a", 4)]).unwrap();
    assert_eq!(consumed, 2);
    let mut bits = vec![false; 10];
    bits[1] = true;
    bits[9] = true;
    assert_eq!(plain(&read), (7, 2, 10, CODE, bits, vec![("a".to_string(), 4)]));
    let short = Segment::deserialize(&header, &[2], vec![]);
    assert_eq!(short.err(), Some(SerializationError::DataTooShort));
}

#[test]
fn segment_finds_its_first_symbol_of_a_name() {
    let segment = segment(0, 1, &[true], vec![named("a", 1), named("b", 2), named("a", 3)]);
    assert_eq!(segment.find_symbol("a"), Some(Address(1)));
    assert_eq!(segment.find_symbol("b"), Some(Address(2)));
    assert_eq!(segment.find_symbol("c"), None);
    assert_eq!(plain(&segment.clone()), plain(&segment));
}

#[test]
fn executable_is_header_then_headers_then_payloads() {
    assert_eq!(small_executable().serialize(), small_executable_bytes());
}

#[test]
fn executable_without_segments_has_only_the_symbol_table() {
    let bytes = Executable::new(Architecture::Risc, vec![]).serialize();
    let mut expected = vec![2, 1, 0, 0, 0, 0, 0, 0, 0, 0, 0, 0, 0, 0, 0, 0, 0];
    expected.extend([0u8; 24]);
    expected.push(8);
    assert_eq!(bytes, expected);
    let (consumed, read) = Executable::deserialize(&bytes).unwrap();
    assert_eq!(consumed, 42);
    assert_eq!(read.architecture(), Architecture::Risc);
    assert_eq!(read.entry_point(), 0);
    assert!(read.segments().is_empty());
}

#[test]
fn executable_survives_writing_and_reading() {
    let executables =
        [small_executable(), larger_executable(), Executable::new(Architecture::Accumulator, vec![])];
    for executable in executables {
        let bytes = executable.serialize();
        let (consumed, read) = Executable::deserialize(&bytes).unwrap();
        assert_eq!(consumed, bytes.len());
        assert_eq!(read.architecture(), executable.architecture());
        assert_eq!(read.entry_point(), executable.entry_point());
        assert_eq!(plain_all(read.segments()), plain_all(executable.segments()));
        assert_eq!(read.serialize(), bytes);
    }
}

#[test]
fn executable_reading_leaves_what_follows() {
    let mut bytes = larger_executable().serialize();
    let len = bytes.len();
    bytes.extend([9, 9, 9]);
    let (consumed, read) = Executable::deserialize(&bytes).unwrap();
    assert_eq!(consumed, len);
    assert_eq!(read.entry_point(), 0x0102_0304_0506);
    assert_eq!(plain_all(read.segments()), plain_all(larger_executable().segments()));
}

#[test]
fn every_proper_start_of_an_executable_is_too_short() {
    let executables =
        [small_executable(), larger_executable(), Executable::new(Architecture::Stack, vec![])];
    for executable in executables {
        let bytes = executable.serialize();
        for len in 0..bytes.len() {
            let result = Executable::deserialize(&bytes[..len]);
            assert_eq!(result.err(), Some(SerializationError::DataTooShort), "at {}", len);
        }
    }
}

#[test]
fn executable_of_an_unknown_architecture_is_rejected() {
    let mut bytes = small_executable_bytes();
    bytes[0] = 5;
    let result = Executable::deserialize(&bytes);
    assert_eq!(result.err(), Some(SerializationError::InvalidArchitecture(5)));
}

#[test]
fn executable_needs_exactly_one_special_segment_and_needs_it_last() {
    let file = |flags: &[u8]| {
        let mut bytes = vec![0u8, flags.len() as u8];
        bytes.extend([0u8; 15]);
        for flag in flags {
            bytes.extend([0u8; 24]);
            bytes.push(*flag);
        }
        bytes
    };
    assert!(Executable::deserialize(&file(&[8])).is_ok());
    assert!(Executable::deserialize(&file(&[5, 8])).is_ok());
    assert!(Executable::deserialize(&file(&[0, 5, 15])).is_ok());
    for flags in [vec![], vec![5], vec![8, 5], vec![8, 8], vec![5, 8, 5], vec![5, 13, 8]] {
        let result = Executable::deserialize(&file(&flags));
        assert_eq!(result.err(), Some(SerializationError::InvalidData), "{:?}", flags);
    }
}

#[test]
fn executable_with_a_broken_symbol_table_is_rejected() {
    let mut bytes = small_executable_bytes();
    // three rows cannot lie in fourteen bytes
    bytes[17 + 25 + 8] = 3;
    let result = Executable::deserialize(&bytes);
    assert_eq!(result.err(), Some(SerializationError::InvalidSymbolTableHeader));
    let mut bytes = small_executable_bytes();
    let len = bytes.len();
    bytes[len - 1] = b'x';
    let result = Executable::deserialize(&bytes);
    assert_eq!(result.err(), Some(SerializationError::InvalidData));
}

#[test]
fn new_executable_starts_at_zero_and_keeps_its_segments() {
    let executable = small_executable();
    assert_eq!(executable.architecture(), Architecture::Stack);
    assert_eq!(executable.entry_point(), 0);
    assert_eq!(executable.segments().len(), 1);
}

#[test]
fn segments_can_be_changed_in_place() {
    let mut executable = small_executable();
    executable.set_entry_point(4);
    executable.segments_mut().push(segment(3, 1, &[true], vec![]));
    executable.segments_mut()[0].address_space_start = 10;
    assert_eq!(executable.entry_point(), 4);
    assert_eq!(executable.architecture(), Architecture::Stack);
    let segments = executable.segments();
    assert_eq!(segments.len(), 2);
    assert_eq!(segments[0].address_space_start, 10);
    assert_eq!(plain(&segments[1]), (3, 1, 1, CODE, vec![true], vec![]));
}

#[test]
fn entry_point_of_a_symbol_is_its_segment_start_and_its_text_bytes() {
    let executable = Executable::new(
        Architecture::Stack,
        vec![
            segment(0, 3, &[false; 18], vec![named("first", 0), named("twice", 12)]),
            segment(3, 4, &[false; 24], vec![named("main", 13), named("twice", 6)]),
        ],
    );
    assert_eq!(executable.find_entry_point("first"), Some(0));
    // 13 bits are two whole text-bytes of six bits
    assert_eq!(executable.find_entry_point("main"), Some(3 + 2));
    // the first segment that defines the name wins
    assert_eq!(executable.find_entry_point("twice"), Some(2));
    assert_eq!(executable.find_entry_point("nowhere"), None);
    let wide = Executable::new(
        Architecture::Risc,
        vec![segment(u64::MAX, 1, &[false; 8], vec![named("far", 8), named("near", 7)])],
    );
    assert_eq!(wide.find_entry_point("far"), None);
    assert_eq!(wide.find_entry_point("near"), Some(u64::MAX));
}
