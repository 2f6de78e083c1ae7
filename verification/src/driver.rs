use vstd::prelude::*;

use ascii::AsciiChar;
use ht16k33::i2c_mock::I2cMock;
use ht16k33::{DisplayData, DisplayDataAddress, LedLocation, HT16K33};

use crate::buffer::{with_cell, DisplayBuffer, ROWS};

verus! {

/// The driver of the `ht16k33` crate. It owns the buffer that is drawn on.
#[verifier::external_type_specification]
#[verifier::external_body]
#[verifier::reject_recursive_types(I2C)]
pub struct ExHT16K33<I2C>(HT16K33<I2C>);

/// The simulated bus of the `ht16k33` crate.
#[verifier::external_type_specification]
#[verifier::external_body]
pub struct ExI2cMock(I2cMock);

/// A character of the `ascii` crate.
#[verifier::external_type_specification]
#[verifier::external_body]
pub struct ExAsciiChar(AsciiChar);

/// The bits of the sixteen rows of a driver's display buffer, row 0 first, as
/// `HT16K33::display_buffer` hands them out.
pub uninterp spec fn driver_rows(display: HT16K33<I2cMock>) -> Seq<u8>;

/// The code of a character, which `AsciiChar::as_byte` returns.
pub uninterp spec fn ascii_code(value: AsciiChar) -> u8;

/// `AsciiChar::as_byte`: the character's code.
pub assume_specification[ AsciiChar::as_byte ](value: AsciiChar) -> (code: u8)
    ensures
        code == ascii_code(value),
;

/// Makes one call of `HT16K33::update_display_buffer`, for the row with the
/// number `row` and the cells that `mask` names.
///
/// The driver sets the bits of `mask` in that row of its buffer when `on` is
/// true and clears them when it is false. It changes no other bit and no other
/// row, and sends nothing to the device. A row number below sixteen and every
/// mask pass the driver's address and data types unchanged.
#[verifier::external_body]
fn write_driver_cell(display: &mut HT16K33<I2cMock>, row: u8, mask: u8, on: bool)
    requires
        row < ROWS,
    ensures
        driver_rows(*final(display)) == with_cell(driver_rows(*old(display)), row as int, mask, on),
{
    let row = DisplayDataAddress::from_bits_truncate(row);
    let common = DisplayData::from_bits_truncate(mask);
    display.update_display_buffer(LedLocation { row, common }, on);
}

/// The driver as a display buffer: its rows are those of the driver's own buffer.
impl DisplayBuffer for HT16K33<I2cMock> {
    open spec fn rows(&self) -> Seq<u8> {
        driver_rows(*self)
    }

    fn write_cell(&mut self, row: u8, mask: u8, on: bool) {
        write_driver_cell(self, row, mask, on);
    }
}

} // verus!
