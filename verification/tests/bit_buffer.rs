use bitlink::bit_buffer::BitBuffer;

fn buffer_of(bits: &[bool]) -> BitBuffer {
    let mut buffer = BitBuffer::new();
    for bit in bits {
        buffer.push(*bit);
    }
    buffer
}

fn bits_of_buffer(buffer: &BitBuffer) -> Vec<bool> {
    (0..buffer.len()).map(|i| buffer.get(i).unwrap()).collect()
}

#[test]
fn empty_buffer_has_no_bits() {
    let buffer = BitBuffer::new();
    assert_eq!(buffer.len(), 0);
    assert_eq!(buffer.get(0), None);
}

#[test]
fn pushed_bits_come_back_in_order() {
    let mut buffer = BitBuffer::new();
    buffer.push(true);
    buffer.push(false);
    buffer.push(true);
    assert_eq!(buffer.len(), 3);
    assert_eq!(buffer.get(0), Some(true));
    assert_eq!(buffer.get(1), Some(false));
    assert_eq!(buffer.get(2), Some(true));
    assert_eq!(buffer.get(3), None);
}

#[test]
fn try_push_appends_to_a_buffer_that_is_not_full() {
    let mut buffer = buffer_of(&[true]);
    assert!(buffer.try_push(false));
    assert!(buffer.try_push(true));
    assert_eq!(bits_of_buffer(&buffer), vec![true, false, true]);
}

#[test]
fn set_overwrites_one_bit_and_ignores_positions_past_the_end() {
    let mut buffer = buffer_of(&[false, false, false]);
    buffer.set(1, true);
    assert_eq!(bits_of_buffer(&buffer), vec![false, true, false]);
    buffer.set(1, false);
    assert_eq!(bits_of_buffer(&buffer), vec![false, false, false]);
    buffer.set(3, true);
    assert_eq!(bits_of_buffer(&buffer), vec![false, false, false]);
}

#[test]
fn clone_copies_the_bits_and_is_independent() {
    let source = buffer_of(&[true, false, true, true]);
    let mut copy = source.clone();
    assert_eq!(bits_of_buffer(&copy), vec![true, false, true, true]);
    copy.set(0, false);
    copy.push(true);
    assert_eq!(bits_of_buffer(&source), vec![true, false, true, true]);
    assert_eq!(bits_of_buffer(&copy), vec![false, false, true, true, true]);
}

#[test]
fn to_bytes_packs_least_significant_bit_first() {
    // bit 0 counts 1, bit 7 counts 128, bit 8 opens the second byte
    let mut bits = vec![false; 9];
    bits[0] = true;
    bits[7] = true;
    bits[8] = true;
    assert_eq!(buffer_of(&bits).to_bytes(), vec![0x81, 0x01]);
    assert_eq!(buffer_of(&[false, true, true]).to_bytes(), vec![0b110]);
    assert_eq!(BitBuffer::new().to_bytes(), Vec::<u8>::new());
    assert_eq!(buffer_of(&[true; 8]).to_bytes(), vec![0xff]);
}

#[test]
fn to_bytes_takes_one_byte_for_every_started_group_of_eight_bits() {
    for len in 0..40usize {
        let bytes = buffer_of(&vec![true; len]).to_bytes();
        assert_eq!(bytes.len(), (len + 7) / 8);
    }
}

#[test]
fn from_bytes_unpacks_the_asked_number_of_bits() {
    let buffer = BitBuffer::from_bytes(&[0x81, 0x01, 0xff], 9).unwrap();
    let mut expected = vec![false; 9];
    expected[0] = true;
    expected[7] = true;
    expected[8] = true;
    assert_eq!(bits_of_buffer(&buffer), expected);
    let none = BitBuffer::from_bytes(&[0xff], 0).unwrap();
    assert_eq!(none.len(), 0);
}

#[test]
fn from_bytes_needs_enough_bytes() {
    assert!(BitBuffer::from_bytes(&[0xff], 9).is_none());
    assert!(BitBuffer::from_bytes(&[], 1).is_none());
    assert!(BitBuffer::from_bytes(&[0xff], 8).is_some());
}

#[test]
fn from_bytes_refuses_more_bits_than_a_buffer_can_hold() {
    assert!(BitBuffer::from_bytes(&[0u8; 4], BitBuffer::max_len() + 1).is_none());
    assert_eq!(BitBuffer::max_len(), usize::MAX / 8);
}

#[test]
fn unpacking_packed_bits_gives_them_back() {
    let patterns: Vec<Vec<bool>> = vec![
        vec![],
        vec![true],
        vec![false, true, false, true, true, false, false, true],
        (0..19).map(|i| i % 3 == 0).collect(),
        (0..64).map(|i| i % 5 < 2).collect(),
    ];
    for bits in patterns {
        let bytes = buffer_of(&bits).to_bytes();
        let back = BitBuffer::from_bytes(&bytes, bits.len()).unwrap();
        assert_eq!(bits_of_buffer(&back), bits);
    }
}
