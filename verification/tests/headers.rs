use bitlink::executable::segments::flags::SegmentFlags;
use bitlink::executable::segments::header::{SegmentHeader, SegmentType};
use bitlink::executable::ExecutableHeader;
use bitlink::object_file::sections::header::{
    RelocationTableHeader, SectionHeader, SectionType, SymbolTableHeader, TextSectionHeader,
};
use bitlink::object_file::ObjectHeader;
use bitlink::serializable::{Architecture, Serializable, SerializationError};

#[test]
fn architectures_have_the_codes_0_1_2() {
    assert_eq!(Architecture::Stack.code(), 0);
    assert_eq!(Architecture::Accumulator.code(), 1);
    assert_eq!(Architecture::Risc.code(), 2);
    assert_eq!(Architecture::try_from(0), Ok(Architecture::Stack));
    assert_eq!(Architecture::try_from(1), Ok(Architecture::Accumulator));
    assert_eq!(Architecture::try_from(2), Ok(Architecture::Risc));
}

#[test]
fn unknown_architecture_codes_are_rejected() {
    assert_eq!(Architecture::try_from(3), Err(SerializationError::InvalidArchitecture(3)));
    assert_eq!(Architecture::try_from(255), Err(SerializationError::InvalidArchitecture(255)));
}

#[test]
fn text_byte_widths_are_6_8_8() {
    assert_eq!(Architecture::Stack.text_byte_width(), 6);
    assert_eq!(Architecture::Accumulator.text_byte_width(), 8);
    assert_eq!(Architecture::Risc.text_byte_width(), 8);
}

#[test]
fn section_types_have_the_tags_0_255_254() {
    assert_eq!(u8::from(SectionType::Text), 0);
    assert_eq!(u8::from(SectionType::SymbolTable), 255);
    assert_eq!(u8::from(SectionType::RelocationTable), 254);
    assert_eq!(SectionType::try_from(0), Ok(SectionType::Text));
    assert_eq!(SectionType::try_from(255), Ok(SectionType::SymbolTable));
    assert_eq!(SectionType::try_from(254), Ok(SectionType::RelocationTable));
    assert_eq!(SectionType::try_from(1), Err(SerializationError::InvalidSectionType(1)));
}

#[test]
fn segment_types_have_the_tags_0_255() {
    assert_eq!(u8::from(SegmentType::Text), 0);
    assert_eq!(u8::from(SegmentType::SymbolTable), 255);
    assert_eq!(SegmentType::try_from(0), Ok(SegmentType::Text));
    assert_eq!(SegmentType::try_from(255), Ok(SegmentType::SymbolTable));
    assert_eq!(SegmentType::try_from(254), Err(SerializationError::InvalidSegmentType(254)));
}

#[test]
fn text_section_header_is_tag_padding_and_bit_length() {
    let header = SectionHeader::Text(TextSectionHeader { bit_length: 0x0102 });
    assert_eq!(header.serialize(), vec![0, 0, 0, 0, 0, 0, 0, 0, 2, 1, 0, 0, 0, 0, 0, 0]);
}

#[test]
fn table_section_headers_are_tag_padding_and_two_counts() {
    let symbols =
        SectionHeader::SymbolTable(SymbolTableHeader { entry_count: 3, names_length: 0x0a0b });
    assert_eq!(symbols.serialize(), vec![255, 0, 0, 0, 3, 0, 0, 0, 0x0b, 0x0a, 0, 0, 0, 0, 0, 0]);
    let relocations = SectionHeader::RelocationTable(RelocationTableHeader {
        entry_count: 1,
        names_length: 2,
    });
    assert_eq!(relocations.serialize(), vec![254, 0, 0, 0, 1, 0, 0, 0, 2, 0, 0, 0, 0, 0, 0, 0]);
}

#[test]
fn section_headers_survive_writing_and_reading() {
    let headers = [
        SectionHeader::Text(TextSectionHeader { bit_length: 18 }),
        SectionHeader::Text(TextSectionHeader { bit_length: 0 }),
        SectionHeader::SymbolTable(SymbolTableHeader { entry_count: 7, names_length: 99 }),
        SectionHeader::RelocationTable(RelocationTableHeader {
            entry_count: u32::MAX,
            names_length: u32::MAX,
        }),
    ];
    for header in headers {
        let mut bytes = header.serialize();
        assert_eq!(bytes.len(), 16);
        bytes.extend([1, 2, 3]);
        assert_eq!(SectionHeader::deserialize(&bytes), Ok((16, header)));
    }
}

#[test]
fn section_header_reading_ignores_the_padding() {
    let bytes = [255, 9, 9, 9, 1, 0, 0, 0, 2, 0, 0, 0, 9, 9, 9, 9];
    assert_eq!(
        SectionHeader::deserialize(&bytes),
        Ok((16, SectionHeader::SymbolTable(SymbolTableHeader { entry_count: 1, names_length: 2 })))
    );
}

#[test]
fn short_section_header_is_too_short() {
    assert_eq!(SectionHeader::deserialize(&[0u8; 15]), Err(SerializationError::DataTooShort));
    assert_eq!(SectionHeader::deserialize(&[]), Err(SerializationError::DataTooShort));
}

#[test]
fn unknown_section_tag_is_rejected() {
    let mut bytes = [0u8; 16];
    bytes[0] = 7;
    assert_eq!(SectionHeader::deserialize(&bytes), Err(SerializationError::InvalidSectionType(7)));
}

#[test]
fn section_size_is_the_payload_length_in_bytes() {
    let text = |bit_length| SectionHeader::Text(TextSectionHeader { bit_length });
    assert_eq!(text(0).section_size(), 0);
    assert_eq!(text(1).section_size(), 1);
    assert_eq!(text(8).section_size(), 1);
    assert_eq!(text(9).section_size(), 2);
    assert_eq!(text(18).section_size(), 3);
    assert_eq!(text(usize::MAX).section_size(), (usize::MAX as u64 / 8) + 1);
    let symbols =
        SectionHeader::SymbolTable(SymbolTableHeader { entry_count: 3, names_length: 10 });
    assert_eq!(symbols.section_size(), 12 * 3 + 10);
    let relocations = SectionHeader::RelocationTable(RelocationTableHeader {
        entry_count: 3,
        names_length: 10,
    });
    assert_eq!(relocations.section_size(), 16 * 3 + 10);
    let large = SectionHeader::SymbolTable(SymbolTableHeader {
        entry_count: u32::MAX,
        names_length: u32::MAX,
    });
    assert_eq!(large.section_size(), 13 * (u32::MAX as u64));
}

#[test]
fn segment_flags_are_the_four_low_bits() {
    let flags = |executable, writable, readable, special| SegmentFlags {
        executable,
        writable,
        readable,
        special,
    };
    assert_eq!(flags(false, false, false, false).serialize(), vec![0]);
    assert_eq!(flags(true, false, false, false).serialize(), vec![1]);
    assert_eq!(flags(false, true, false, false).serialize(), vec![2]);
    assert_eq!(flags(false, false, true, false).serialize(), vec![4]);
    assert_eq!(flags(false, false, false, true).serialize(), vec![8]);
    assert_eq!(flags(true, false, true, false).serialize(), vec![5]);
    assert_eq!(flags(true, true, true, true).serialize(), vec![15]);
    for byte in 0u8..16 {
        let (consumed, read) = SegmentFlags::deserialize(&[byte, 77]).unwrap();
        assert_eq!(consumed, 1);
        assert_eq!(read.serialize(), vec![byte]);
    }
    // the four high bits say nothing
    assert_eq!(SegmentFlags::deserialize(&[0xf5]), Ok((1, flags(true, false, true, false))));
    assert_eq!(SegmentFlags::deserialize(&[]), Err(SerializationError::DataTooShort));
}

#[test]
fn segment_header_is_three_numbers_and_the_flags() {
    let header = SegmentHeader {
        address_space_start: 3,
        address_space_size: 0x0102,
        disk_bit_count: 18,
        flags: SegmentFlags { executable: true, writable: false, readable: true, special: false },
    };
    let bytes = header.serialize();
    assert_eq!(
        bytes,
        vec![3, 0, 0, 0, 0, 0, 0, 0, 2, 1, 0, 0, 0, 0, 0, 0, 18, 0, 0, 0, 0, 0, 0, 0, 5]
    );
    assert_eq!(SegmentHeader::deserialize(&bytes), Ok((25, header)));
    assert_eq!(SegmentHeader::deserialize(&bytes[..24]), Err(SerializationError::DataTooShort));
}

#[test]
fn segment_size_counts_bits_for_segments_and_bytes_for_the_symbol_table() {
    let header = |disk_bit_count, special| SegmentHeader {
        address_space_start: 0,
        address_space_size: 0,
        disk_bit_count,
        flags: SegmentFlags { executable: false, writable: false, readable: false, special },
    };
    assert_eq!(header(18, false).segment_size(), 3);
    assert_eq!(header(16, false).segment_size(), 2);
    assert_eq!(header(0, false).segment_size(), 0);
    assert_eq!(header(18, true).segment_size(), 18);
    assert_eq!(header(18, false).segment_type(), SegmentType::Text);
    assert_eq!(header(18, true).segment_type(), SegmentType::SymbolTable);
}

#[test]
fn object_header_is_the_architecture_and_the_section_count() {
    let header = ObjectHeader { architecture: Architecture::Risc, section_count: 0x0102 };
    let bytes = header.serialize();
    assert_eq!(bytes, vec![2, 2, 1, 0, 0, 0, 0, 0, 0]);
    assert_eq!(ObjectHeader::deserialize(&bytes), Ok((9, header)));
    assert_eq!(ObjectHeader::deserialize(&bytes[..8]), Err(SerializationError::DataTooShort));
    assert_eq!(
        ObjectHeader::deserialize(&[9, 0, 0, 0, 0, 0, 0, 0, 0]),
        Err(SerializationError::InvalidArchitecture(9))
    );
}

#[test]
fn executable_header_is_the_architecture_the_count_and_the_entry_point() {
    let header = ExecutableHeader {
        architecture: Architecture::Accumulator,
        segment_count: 2,
        entry_point: 0x0a0b0c,
    };
    let bytes = header.serialize();
    assert_eq!(bytes, vec![1, 2, 0, 0, 0, 0, 0, 0, 0, 0x0c, 0x0b, 0x0a, 0, 0, 0, 0, 0]);
    assert_eq!(ExecutableHeader::deserialize(&bytes), Ok((17, header)));
    assert_eq!(ExecutableHeader::deserialize(&bytes[..16]), Err(SerializationError::DataTooShort));
    let mut unknown = bytes.clone();
    unknown[0] = 200;
    assert_eq!(
        ExecutableHeader::deserialize(&unknown),
        Err(SerializationError::InvalidArchitecture(200))
    );
    assert_eq!(
        ExecutableHeader::new(Architecture::Stack, 4),
        ExecutableHeader { architecture: Architecture::Stack, segment_count: 4, entry_point: 0 }
    );
}
