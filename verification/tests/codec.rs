use bitlink::codec::{byte_bit, read_u32, read_u64, write_bytes, write_u32, write_u64, write_zeros};

#[test]
fn write_u32_is_little_endian() {
    let mut out = vec![0xaa];
    write_u32(&mut out, 0x0403_0201);
    assert_eq!(out, vec![0xaa, 1, 2, 3, 4]);
    let mut max = Vec::new();
    write_u32(&mut max, u32::MAX);
    assert_eq!(max, vec![0xff; 4]);
}

#[test]
fn write_u64_is_little_endian() {
    let mut out = Vec::new();
    write_u64(&mut out, 0x0807_0605_0403_0201);
    assert_eq!(out, vec![1, 2, 3, 4, 5, 6, 7, 8]);
    let mut small = Vec::new();
    write_u64(&mut small, 18);
    assert_eq!(small, vec![18, 0, 0, 0, 0, 0, 0, 0]);
}

#[test]
fn read_u32_reads_at_the_offset() {
    let data = [9, 1, 2, 3, 4, 9];
    assert_eq!(read_u32(&data, 1), 0x0403_0201);
    assert_eq!(read_u32(&[0xff; 4], 0), u32::MAX);
}

#[test]
fn read_u64_reads_at_the_offset() {
    let data = [9, 9, 1, 2, 3, 4, 5, 6, 7, 8];
    assert_eq!(read_u64(&data, 2), 0x0807_0605_0403_0201);
    assert_eq!(read_u64(&[0xff; 8], 0), u64::MAX);
}

#[test]
fn integers_survive_writing_and_reading() {
    for value in [0u64, 1, 255, 256, 65535, 65536, 1 << 32, (1 << 32) - 1, u64::MAX, 0x0123_4567_89ab_cdef] {
        let mut out = vec![7u8; 3];
        write_u64(&mut out, value);
        assert_eq!(out.len(), 11);
        assert_eq!(read_u64(&out, 3), value);
        let low = value as u32;
        let mut short = Vec::new();
        write_u32(&mut short, low);
        assert_eq!(short.len(), 4);
        assert_eq!(read_u32(&short, 0), low);
    }
}

#[test]
fn write_zeros_and_write_bytes_append() {
    let mut out = vec![1u8];
    write_zeros(&mut out, 3);
    write_bytes(&mut out, &[5, 6]);
    write_zeros(&mut out, 0);
    write_bytes(&mut out, &[]);
    assert_eq!(out, vec![1, 0, 0, 0, 5, 6]);
}

#[test]
fn byte_bit_tells_the_binary_digits() {
    assert!(byte_bit(0b0000_0001, 0));
    assert!(!byte_bit(0b0000_0001, 1));
    assert!(byte_bit(0b1000_0000, 7));
    assert!(!byte_bit(0b0111_1111, 7));
    assert!(byte_bit(0b0010_0000, 5));
    assert!(!byte_bit(0xff, 8));
}
