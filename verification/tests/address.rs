use bitlink::address::{Address, AddressIndexable};
use bitlink::bit_buffer::BitBuffer;

fn zeroed(len: usize) -> BitBuffer {
    let mut buffer = BitBuffer::new();
    for _ in 0..len {
        buffer.push(false);
    }
    buffer
}

fn listed(buffer: &BitBuffer) -> Vec<bool> {
    (0..buffer.len()).map(|i| buffer.get(i).unwrap()).collect()
}

#[test]
fn adding_to_an_address_moves_it_on() {
    assert_eq!(Address(12) + 30, Address(42));
    assert_eq!(Address(0) + 0, Address(0));
}

#[test]
fn adding_to_an_address_stops_at_the_largest_address() {
    assert_eq!(Address(usize::MAX) + 1, Address(usize::MAX));
    assert_eq!(Address(usize::MAX - 3) + 10, Address(usize::MAX));
    assert_eq!(Address(usize::MAX - 3) + 3, Address(usize::MAX));
}

#[test]
fn subtracting_addresses_gives_a_signed_distance() {
    assert_eq!(Address(600) - Address(60), 540);
    assert_eq!(Address(60) - Address(600), -540);
    assert_eq!(Address(7) - Address(7), 0);
}

#[test]
fn subtracting_addresses_stops_at_the_range_of_i64() {
    assert_eq!(Address(usize::MAX) - Address(0), i64::MAX);
    assert_eq!(Address(0) - Address(usize::MAX), i64::MIN);
}

#[test]
fn write16_lays_the_value_out_most_significant_bit_first() {
    let mut buffer = zeroed(16);
    buffer.write(Address(0), 0x8001);
    let mut expected = vec![false; 16];
    expected[0] = true;
    expected[15] = true;
    assert_eq!(listed(&buffer), expected);
}

#[test]
fn read16_reads_most_significant_bit_first() {
    let mut buffer = zeroed(20);
    buffer.set(2, true);
    // bit 2 is the most significant bit of the field at 2
    assert_eq!(buffer.index(Address(2)), 0x8000);
    // and bit 2 counts 2^13 in the field at 0
    assert_eq!(buffer.index(Address(0)), 0x2000);
    buffer.set(17, true);
    assert_eq!(buffer.index(Address(2)), 0x8001);
}

#[test]
fn read16_after_write16_gives_the_value_back() {
    for at in [0usize, 1, 5, 6, 7, 8, 13, 24] {
        for value in [0u16, 1, 2, 0x8000, 0x8001, 0xffff, 0x1234, 0xa5a5, 100, 90] {
            let mut buffer = zeroed(40);
            buffer.write(Address(at), value);
            assert_eq!(buffer.index(Address(at)), value);
            assert_eq!(buffer.len(), 40);
        }
    }
}

#[test]
fn write16_leaves_the_other_bits_alone() {
    let mut buffer = BitBuffer::new();
    for _ in 0..30 {
        buffer.push(true);
    }
    buffer.write(Address(7), 0);
    let expected: Vec<bool> = (0..30).map(|i| !(7..23).contains(&i)).collect();
    assert_eq!(listed(&buffer), expected);
}

#[test]
fn read16_takes_bits_past_the_end_as_zero() {
    let mut buffer = BitBuffer::new();
    for _ in 0..4 {
        buffer.push(true);
    }
    // four set bits, then twelve missing ones
    assert_eq!(buffer.index(Address(0)), 0xf000);
    assert_eq!(buffer.index(Address(2)), 0xc000);
    assert_eq!(buffer.index(Address(4)), 0);
    assert_eq!(buffer.index(Address(1000)), 0);
    assert_eq!(buffer.index(Address(usize::MAX)), 0);
}

#[test]
fn write16_drops_the_bits_past_the_end() {
    let mut buffer = zeroed(10);
    buffer.write(Address(4), 0xffff);
    let expected: Vec<bool> = (0..10).map(|i| i >= 4).collect();
    assert_eq!(listed(&buffer), expected);
    // only the six leading bits of the field were kept
    assert_eq!(buffer.index(Address(4)), 0xfc00);
    let mut untouched = zeroed(3);
    untouched.write(Address(3), 0xffff);
    untouched.write(Address(usize::MAX), 0xffff);
    assert_eq!(listed(&untouched), vec![false; 3]);
}
