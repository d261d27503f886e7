//! Tests of the radix-prefixed numeric literal parser.

use chip8_asm::error::Error;
use chip8_asm::parser::parse_imm;

fn parse(text: &str, max: u16) -> Result<u16, Error> {
    parse_imm(&text.as_bytes().to_vec(), max)
}

#[test]
fn every_radix_yields_4095() {
    assert_eq!(parse("0x0FFF", 0x0FFF), Ok(4095));
    assert_eq!(parse("0b111111111111", 0x0FFF), Ok(4095));
    assert_eq!(parse("07777", 0x0FFF), Ok(4095));
    assert_eq!(parse("4095", 0x0FFF), Ok(4095));
}

#[test]
fn value_4096_exceeds_the_address_ceiling() {
    assert_eq!(parse("0x1000", 0x0FFF), Err(Error::ExceedBounds(4096, 4095)));
    assert_eq!(parse("0b1000000000000", 0x0FFF), Err(Error::ExceedBounds(4096, 4095)));
    assert_eq!(parse("010000", 0x0FFF), Err(Error::ExceedBounds(4096, 4095)));
    assert_eq!(parse("4096", 0x0FFF), Err(Error::ExceedBounds(4096, 4095)));
}

#[test]
fn byte_and_nibble_ceilings() {
    assert_eq!(parse("255", 0xFF), Ok(255));
    assert_eq!(parse("256", 0xFF), Err(Error::ExceedBounds(256, 255)));
    assert_eq!(parse("15", 0x0F), Ok(15));
    assert_eq!(parse("0x10", 0x0F), Err(Error::ExceedBounds(16, 15)));
}

#[test]
fn hex_digits_are_case_insensitive() {
    assert_eq!(parse("0xab", 0xFF), Ok(0xAB));
    assert_eq!(parse("0xAB", 0xFF), Ok(0xAB));
}

#[test]
fn bad_digit_strings_fail_number_format() {
    assert_eq!(parse("0x", 0x0FFF), Err(Error::NumParse));
    assert_eq!(parse("0b", 0x0FFF), Err(Error::NumParse));
    assert_eq!(parse("0xG1", 0x0FFF), Err(Error::NumParse));
    assert_eq!(parse("09", 0x0FFF), Err(Error::NumParse));
    assert_eq!(parse("0b12", 0x0FFF), Err(Error::NumParse));
    assert_eq!(parse("12a", 0x0FFF), Err(Error::NumParse));
    // beyond the 16-bit target width in any radix
    assert_eq!(parse("65536", 0x0FFF), Err(Error::NumParse));
    assert_eq!(parse("0xFFFFFFFFFFFFFFFFFF", 0x0FFF), Err(Error::NumParse));
}

#[test]
fn zero_parses_in_every_radix() {
    assert_eq!(parse("0", 0x0FFF), Ok(0));
    assert_eq!(parse("0x0", 0x0FFF), Ok(0));
    assert_eq!(parse("0b0", 0x0FFF), Ok(0));
    assert_eq!(parse("00", 0x0FFF), Ok(0));
}
