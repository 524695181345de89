use jpeg_decoder::jpeg_error::JpegError;
use jpeg_decoder::jpeg_raw_data::JpegBitStreamReader;
use jpeg_decoder::jpeg_raw_data::JpegRawData;
use jpeg_decoder::jpeg_raw_data::JpegReader;

fn raw(bytes: &[u8]) -> JpegRawData {
    let mut r = JpegRawData::new();
    r.load(bytes.to_vec());
    r
}

#[test]
fn raw_data_reads_bytes_and_words() {
    let empty = JpegRawData::new();
    assert_eq!(empty.get_size(), 0);
    assert_eq!(empty.read_u8(0), None);
    let r = raw(&[0x12, 0x34, 0x56]);
    assert_eq!(r.get_size(), 3);
    assert_eq!(r.read_u8(0), Some(0x12));
    assert_eq!(r.read_u8(2), Some(0x56));
    assert_eq!(r.read_u8(3), None);
    assert_eq!(r.read_u16be(0), Some(0x1234));
    assert_eq!(r.read_u16be(1), Some(0x3456));
    assert_eq!(r.read_u16be(2), None);
    assert_eq!(r.read_u16be(usize::MAX), None);
}

#[test]
fn byte_reader_walks_the_data() {
    let r = raw(&[0xFF, 0xD8, 0x01, 0x02, 0x03]);
    let mut reader = JpegReader::new(&r);
    assert_eq!(reader.get_pos(), 0);
    assert!(!reader.is_end());
    assert_eq!(reader.read_u16be(), Ok(0xFFD8));
    assert_eq!(reader.get_pos(), 2);
    let mut copy = reader.copy();
    assert_eq!(copy.read_u8(), Ok(0x01));
    assert_eq!(reader.get_pos(), 2);
    assert_eq!(copy.get_pos(), 3);
    reader.move_pos(2);
    assert_eq!(reader.get_pos(), 4);
    assert_eq!(reader.read_u16be(), Err(JpegError::TruncatedInput));
    assert_eq!(reader.get_pos(), 4);
    assert_eq!(reader.read_u8(), Ok(0x03));
    assert!(reader.is_end());
    assert_eq!(reader.read_u8(), Err(JpegError::TruncatedInput));
    assert_eq!(reader.get_pos(), 5);
    reader.move_pos(-3);
    assert_eq!(reader.get_pos(), 2);
    reader.move_pos(-7);
    assert_eq!(reader.get_pos(), 0);
    reader.move_pos(isize::MIN);
    assert_eq!(reader.get_pos(), 0);
    reader.set_pos(9);
    assert!(reader.is_end());
}

#[test]
fn peek_reads_sixteen_bits_at_any_bit_position() {
    let r = raw(&[0b1010_0101, 0b1100_0011, 0b1111_0000, 0x11]);
    let mut b = JpegBitStreamReader::new(&r);
    assert_eq!(b.read_bits16(), 0b1010_0101_1100_0011);
    b.set_pos(0, 1);
    assert_eq!(b.read_bits16(), 0b0100_1011_1000_0111);
    b.set_pos(0, 4);
    assert_eq!(b.read_bits16(), 0b0101_1100_0011_1111);
    b.set_pos(0, 7);
    assert_eq!(b.read_bits16(), 0b1110_0001_1111_1000);
    b.set_pos(1, 0);
    assert_eq!(b.read_bits16(), 0b1100_0011_1111_0000);
    // Peeking does not move the cursor.
    assert_eq!(b.get_pos(), 1);
    assert_eq!(b.read_bits16(), 0b1100_0011_1111_0000);
}

#[test]
fn peek_pads_with_zeros_behind_the_data() {
    let r = raw(&[0xAB]);
    let mut b = JpegBitStreamReader::new(&r);
    assert_eq!(b.read_bits16(), 0xAB00);
    b.set_pos(0, 4);
    assert_eq!(b.read_bits16(), 0xB000);
    b.set_pos(1, 0);
    assert_eq!(b.read_bits16(), 0);
    assert!(b.is_end());
}

#[test]
fn stuffed_zero_is_skipped_by_peek_and_consume() {
    let stuffed = raw(&[0x12, 0xFF, 0x00, 0x34, 0x56]);
    let plain = raw(&[0x12, 0xFE, 0x34, 0x56]);
    let mut a = JpegBitStreamReader::new(&stuffed);
    let mut b = JpegBitStreamReader::new(&plain);
    assert_eq!(a.read_bits16(), 0x12FF);
    assert_eq!(b.read_bits16(), 0x12FE);
    // Bit by bit the two streams differ in the one bit only.
    for i in 0..32usize {
        a.set_pos(0, 0);
        b.set_pos(0, 0);
        assert_eq!(a.move_bitpos(i), Ok(()));
        assert_eq!(b.move_bitpos(i), Ok(()));
        let wa = a.read_bits16() as u32;
        let wb = b.read_bits16() as u32;
        let bit = if i <= 15 { 1u32 << i } else { 0 };
        assert_eq!(wa, wb | bit, "offset {}", i);
    }
    a.set_pos(0, 0);
    assert_eq!(a.move_bitpos(8), Ok(()));
    assert_eq!(a.get_pos(), 1);
    assert_eq!(a.read_bits16(), 0xFF34);
    assert_eq!(a.move_bitpos(8), Ok(()));
    // Behind the 0xFF the stuffed zero is skipped.
    assert_eq!(a.get_pos(), 3);
    assert_eq!(a.read_bits16(), 0x3456);
    a.set_pos(1, 3);
    assert_eq!(a.read_bits16(), 0xF9A2);
    assert_eq!(a.move_bitpos(6), Ok(()));
    assert_eq!(a.get_pos(), 3);
    assert_eq!(a.read_bits16(), 0x68AC);
}

#[test]
fn two_stuffed_bytes_in_a_row() {
    let r = raw(&[0xFF, 0x00, 0xFF, 0x00, 0x81]);
    let mut b = JpegBitStreamReader::new(&r);
    assert_eq!(b.read_bits16(), 0xFFFF);
    assert_eq!(b.move_bitpos(4), Ok(()));
    assert_eq!(b.read_bits16(), 0xFFF8);
    assert_eq!(b.move_bitpos(16), Ok(()));
    assert_eq!(b.get_pos(), 4);
    assert_eq!(b.read_bits16(), 0x1000);
    assert_eq!(b.move_bitpos(4), Ok(()));
    assert_eq!(b.get_pos(), 5);
    assert!(b.is_end());
}

#[test]
fn reader_never_passes_a_marker() {
    let r = raw(&[0x12, 0x34, 0xFF, 0xD9, 0x77]);
    let mut b = JpegBitStreamReader::new(&r);
    // The bits of the marker read as zero.
    assert_eq!(b.move_bitpos(8), Ok(()));
    assert_eq!(b.read_bits16(), 0x3400);
    assert_eq!(b.move_bitpos(8), Ok(()));
    assert_eq!(b.get_pos(), 2);
    assert_eq!(b.read_bits16(), 0);
    assert_eq!(b.move_bitpos(0), Ok(()));
    assert_eq!(b.move_bitpos(1), Err(JpegError::TruncatedInput));
    assert_eq!(b.get_pos(), 2);
    b.set_pos(0, 0);
    assert_eq!(b.move_bitpos(16), Ok(()));
    assert_eq!(b.get_pos(), 2);
    b.set_pos(0, 0);
    assert_eq!(b.move_bitpos(17), Err(JpegError::TruncatedInput));
    assert_eq!(b.get_pos(), 0);
    b.set_pos(1, 5);
    assert_eq!(b.move_bitpos(3), Ok(()));
    assert_eq!(b.get_pos(), 2);
    b.set_pos(1, 5);
    assert_eq!(b.move_bitpos(4), Err(JpegError::TruncatedInput));
    assert_eq!(b.get_pos(), 1);
}

#[test]
fn ff_at_the_end_of_the_data_ends_the_stream() {
    let r = raw(&[0x12, 0xFF]);
    let mut b = JpegBitStreamReader::new(&r);
    assert_eq!(b.read_bits16(), 0x1200);
    assert_eq!(b.move_bitpos(8), Ok(()));
    assert_eq!(b.move_bitpos(1), Err(JpegError::TruncatedInput));
}

#[test]
fn consume_of_many_bits() {
    let mut bytes = vec![0u8; 100];
    bytes[50] = 0xFF;
    bytes[51] = 0x00;
    bytes[99] = 0x5A;
    let r = raw(&bytes);
    let mut b = JpegBitStreamReader::new(&r);
    assert_eq!(b.move_bitpos(98 * 8 + 3), Ok(()));
    assert_eq!(b.get_pos(), 99);
    assert_eq!(b.read_bits16(), 0xD000);
    assert_eq!(b.move_bitpos(5), Ok(()));
    assert_eq!(b.get_pos(), 100);
    b.set_pos(0, 0);
    assert_eq!(b.move_bitpos(99 * 8 + 1), Err(JpegError::TruncatedInput));
    assert_eq!(b.move_bitpos(usize::MAX), Err(JpegError::TruncatedInput));
    assert_eq!(b.get_pos(), 0);
}

#[test]
fn bit_reader_copy_is_independent() {
    let r = raw(&[1, 2, 3, 4]);
    let mut a = JpegBitStreamReader::new(&r);
    a.set_pos(1, 3);
    let mut b = a.copy();
    assert_eq!(b.get_pos(), 1);
    assert_eq!(a.read_bits16(), b.read_bits16());
    assert_eq!(b.move_bitpos(7), Ok(()));
    assert_eq!(b.get_pos(), 2);
    assert_eq!(a.get_pos(), 1);
}

#[test]
fn check_marker_moves_behind_a_marker() {
    let r = raw(&[0x12, 0xFF, 0xD0, 0x34, 0xFF, 0x00, 0xFF]);
    let mut b = JpegBitStreamReader::new(&r);
    assert!(!b.check_marker());
    assert_eq!(b.get_pos(), 0);
    b.set_pos(0, 3);
    assert!(b.check_marker());
    assert_eq!(b.get_pos(), 3);
    assert_eq!(b.read_bits16(), 0x34FF);
    b.set_pos(1, 0);
    assert!(b.check_marker());
    assert_eq!(b.get_pos(), 3);
    // A stuffed zero is no marker, and a lone 0xFF at the end is none.
    b.set_pos(4, 0);
    assert!(!b.check_marker());
    assert_eq!(b.get_pos(), 4);
    b.set_pos(6, 0);
    assert!(!b.check_marker());
    b.set_pos(9, 0);
    assert!(!b.check_marker());
}
