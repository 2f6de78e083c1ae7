use vstd::prelude::*;

use crate::error::Error;

verus! {

/// The segments of the sixteen hexadecimal digits. Bit 0 is the top bar; the
/// bars follow clockwise up to bit 5, bit 6 is the middle bar.
pub const HEX_NUMBER_FONT_TABLE: [u16; 16] = [
    0x3F,  // 0
    0x06,  // 1
    0x5B,  // 2
    0x4F,  // 3
    0x66,  // 4
    0x6D,  // 5
    0x7D,  // 6
    0x07,  // 7
    0x7F,  // 8
    0x6F,  // 9
    0x77,  // A
    0x7C,  // b
    0x39,  // C
    0x5E,  // d
    0x79,  // E
    0x71,  // F
];

/// The minus sign: the middle bar alone.
pub const MINUS_SIGN: u16 = 0x40;

/// The bit of a digit's pattern that is its decimal point.
pub const DOT_BIT: u8 = 7;

/// The bit of the colon's slot that lights the colon.
pub const COLON_BIT: u8 = 1;

/// The pattern of a hexadecimal digit.
pub open spec fn hex_font(value: int) -> u16 {
    HEX_NUMBER_FONT_TABLE[value]
}

/// Looks up the pattern of a hexadecimal digit.
pub fn font_pattern(value: u8) -> (pattern: u16)
    requires
        value < 16,
    ensures
        pattern == hex_font(value as int),
{
    HEX_NUMBER_FONT_TABLE[value as usize]
}

/// The value of the hexadecimal digit with the given character code, in
/// either case; `None` for any other character. The digits `0` to `9` have the
/// codes 0x30 to 0x39, the letters `A` to `F` 0x41 to 0x46, `a` to `f` 0x61 to
/// 0x66.
pub open spec fn hex_value(code: u8) -> Option<u8> {
    if 0x30 <= code <= 0x39 {
        Some((code - 0x30) as u8)
    } else if 0x41 <= code <= 0x46 {
        Some((code - 0x41 + 10) as u8)
    } else if 0x61 <= code <= 0x66 {
        Some((code - 0x61 + 10) as u8)
    } else {
        None
    }
}

/// The pattern of the character with the given code: that of its value for a
/// hexadecimal digit, the middle bar for the minus sign (code 0x2D), none for
/// any other.
pub open spec fn char_pattern(code: u8) -> Option<u16> {
    match hex_value(code) {
        Some(value) => Some(hex_font(value as int)),
        None => if code == 0x2D {
            Some(MINUS_SIGN)
        } else {
            None
        },
    }
}

/// Whether the code is that of a decimal digit.
fn is_digit(code: u8) -> (yes: bool)
    ensures
        yes == (0x30 <= code <= 0x39),
{
    0x30 <= code && code <= 0x39
}

/// Whether the code is that of a hexadecimal digit, in either case.
fn is_hex_digit(code: u8) -> (yes: bool)
    ensures
        yes == hex_value(code).is_some(),
{
    is_digit(code) || (0x41 <= code && code <= 0x46) || (0x61 <= code && code <= 0x66)
}

/// The code of the capital of a small letter; any other code as it is.
fn to_uppercase(code: u8) -> (upper: u8)
    ensures
        upper == if 0x61 <= code <= 0x7A { (code - 0x20) as u8 } else { code },
{
    if 0x61 <= code && code <= 0x7A {
        code - 0x20
    } else {
        code
    }
}

/// Finds the pattern of a character by its code. Only the hexadecimal digits,
/// in either case, and the minus sign have one.
pub fn encode_char(code: u8) -> (res: Result<u16, Error>)
    ensures
        res == match char_pattern(code) {
            Some(pattern) => Ok::<u16, Error>(pattern),
            None => Err::<u16, Error>(Error::NotValidChar),
        },
{
    if is_hex_digit(code) {
        let value: u8 = if is_digit(code) {
            code - 0x30
        } else {
            0x0A + (to_uppercase(code) - 0x41)
        };
        Ok(font_pattern(value))
    } else if code == 0x2D {
        Ok(MINUS_SIGN)
    } else {
        Err(Error::NotValidChar)
    }
}

} // verus!
