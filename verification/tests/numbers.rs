//! LEB128 numbers.

use wasm_module::leb::{read_u32, LebError};

/// Reads the number at the start of `bytes`, and returns it with the position
/// after it.
fn read_first(bytes: &[u8]) -> (Result<u32, LebError>, usize) {
    let mut pos = 0;
    let res = read_u32(bytes, &mut pos);
    (res, pos)
}

#[test]
fn reads_one_byte_numbers() {
    assert_eq!(read_first(&[0x00]), (Ok(0), 1));
    assert_eq!(read_first(&[0x01]), (Ok(1), 1));
    assert_eq!(read_first(&[0x7F]), (Ok(127), 1));
}

#[test]
fn reads_numbers_of_several_bytes() {
    assert_eq!(read_first(&[0x80, 0x01]), (Ok(128), 2));
    assert_eq!(read_first(&[0xE5, 0x8E, 0x26]), (Ok(624485), 3));
    assert_eq!(read_first(&[0x80, 0x80, 0x80, 0x80, 0x01]), (Ok(1 << 28), 5));
}

#[test]
fn reads_the_largest_number() {
    assert_eq!(read_first(&[0xFF, 0xFF, 0xFF, 0xFF, 0x0F]), (Ok(u32::MAX), 5));
}

#[test]
fn accepts_an_encoding_that_is_not_the_shortest() {
    assert_eq!(read_first(&[0x83, 0x00]), (Ok(3), 2));
    assert_eq!(read_first(&[0x83, 0x80, 0x80, 0x80, 0x00]), (Ok(3), 5));
}

#[test]
fn leaves_what_follows_the_number() {
    let bytes = [0xAA, 0x80, 0x01, 0x55];
    let mut pos = 1;
    assert_eq!(read_u32(&bytes, &mut pos), Ok(128));
    assert_eq!(pos, 3);
}

#[test]
fn rejects_a_number_that_the_input_cuts_off() {
    assert_eq!(read_first(&[]), (Err(LebError::UnexpectedEof), 0));
    assert_eq!(read_first(&[0x80]), (Err(LebError::UnexpectedEof), 0));
    assert_eq!(read_first(&[0x80, 0x80, 0x80, 0x80]), (Err(LebError::UnexpectedEof), 0));
}

#[test]
fn rejects_a_number_of_more_than_five_bytes() {
    assert_eq!(
        read_first(&[0x80, 0x80, 0x80, 0x80, 0x80, 0x00]),
        (Err(LebError::TooLong), 0)
    );
    assert_eq!(read_first(&[0xFF; 5]), (Err(LebError::TooLong), 0));
}

#[test]
fn rejects_a_number_of_more_than_32_bits() {
    assert_eq!(
        read_first(&[0xFF, 0xFF, 0xFF, 0xFF, 0x10]),
        (Err(LebError::Overflow), 0)
    );
    assert_eq!(
        read_first(&[0x80, 0x80, 0x80, 0x80, 0x7F]),
        (Err(LebError::Overflow), 0)
    );
}

#[test]
fn rejects_a_position_past_the_end() {
    let mut pos = 7;
    assert_eq!(read_u32(&[0x01], &mut pos), Err(LebError::UnexpectedEof));
    assert_eq!(pos, 7);
}
