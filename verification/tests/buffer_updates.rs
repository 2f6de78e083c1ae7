use adafruit_7segment::{Index, SevenSegment};
use ascii::AsciiChar;
use ht16k33::i2c_mock::I2cMock;
use ht16k33::HT16K33;

const ADDRESS: u8 = 0;

#[test]
fn update_buffer_with_dot() {
    let mut i2c = I2cMock::new();
    let mut ht16k33 = HT16K33::new(i2c, ADDRESS);

    ht16k33.update_buffer_with_dot(Index::One, true);
    assert_eq!(ht16k33.display_buffer()[0].bits(), 0b1000_0000);
    assert_eq!(ht16k33.display_buffer()[1].bits(), 0b0000_0000);
    assert_eq!(ht16k33.display_buffer()[2].bits(), 0b0000_0000);
    assert_eq!(ht16k33.display_buffer()[3].bits(), 0b0000_0000);
    assert_eq!(ht16k33.display_buffer()[4].bits(), 0b0000_0000);
    assert_eq!(ht16k33.display_buffer()[5].bits(), 0b0000_0000);
    assert_eq!(ht16k33.display_buffer()[6].bits(), 0b0000_0000);
    assert_eq!(ht16k33.display_buffer()[7].bits(), 0b0000_0000);
    assert_eq!(ht16k33.display_buffer()[8].bits(), 0b0000_0000);
    assert_eq!(ht16k33.display_buffer()[9].bits(), 0b0000_0000);

    ht16k33.update_buffer_with_dot(Index::Two, true);
    assert_eq!(ht16k33.display_buffer()[0].bits(), 0b1000_0000);
    assert_eq!(ht16k33.display_buffer()[1].bits(), 0b0000_0000);
    assert_eq!(ht16k33.display_buffer()[2].bits(), 0b1000_0000);
    assert_eq!(ht16k33.display_buffer()[3].bits(), 0b0000_0000);
    assert_eq!(ht16k33.display_buffer()[4].bits(), 0b0000_0000);
    assert_eq!(ht16k33.display_buffer()[5].bits(), 0b0000_0000);
    assert_eq!(ht16k33.display_buffer()[6].bits(), 0b0000_0000);
    assert_eq!(ht16k33.display_buffer()[7].bits(), 0b0000_0000);
    assert_eq!(ht16k33.display_buffer()[8].bits(), 0b0000_0000);
    assert_eq!(ht16k33.display_buffer()[9].bits(), 0b0000_0000);

    ht16k33.update_buffer_with_dot(Index::Three, true);
    assert_eq!(ht16k33.display_buffer()[0].bits(), 0b1000_0000);
    assert_eq!(ht16k33.display_buffer()[1].bits(), 0b0000_0000);
    assert_eq!(ht16k33.display_buffer()[2].bits(), 0b1000_0000);
    assert_eq!(ht16k33.display_buffer()[3].bits(), 0b0000_0000);
    assert_eq!(ht16k33.display_buffer()[4].bits(), 0b0000_0000);
    assert_eq!(ht16k33.display_buffer()[5].bits(), 0b0000_0000);
    assert_eq!(ht16k33.display_buffer()[6].bits(), 0b1000_0000);
    assert_eq!(ht16k33.display_buffer()[7].bits(), 0b0000_0000);
    assert_eq!(ht16k33.display_buffer()[8].bits(), 0b0000_0000);
    assert_eq!(ht16k33.display_buffer()[9].bits(), 0b0000_0000);

    ht16k33.update_buffer_with_dot(Index::Four, true);
    assert_eq!(ht16k33.display_buffer()[0].bits(), 0b1000_0000);
    assert_eq!(ht16k33.display_buffer()[1].bits(), 0b0000_0000);
    assert_eq!(ht16k33.display_buffer()[2].bits(), 0b1000_0000);
    assert_eq!(ht16k33.display_buffer()[3].bits(), 0b0000_0000);
    assert_eq!(ht16k33.display_buffer()[4].bits(), 0b0000_0000);
    assert_eq!(ht16k33.display_buffer()[5].bits(), 0b0000_0000);
    assert_eq!(ht16k33.display_buffer()[6].bits(), 0b1000_0000);
    assert_eq!(ht16k33.display_buffer()[7].bits(), 0b0000_0000);
    assert_eq!(ht16k33.display_buffer()[8].bits(), 0b1000_0000);
    assert_eq!(ht16k33.display_buffer()[9].bits(), 0b0000_0000);

    i2c = ht16k33.destroy();
    assert_eq!(i2c.data_values, [0u8; 16]);
}

#[test]
fn update_buffer_with_colon() {
    let mut i2c = I2cMock::new();
    let mut ht16k33 = HT16K33::new(i2c, ADDRESS);

    // Enable colon
    ht16k33.update_buffer_with_colon(true);
    assert_eq!(ht16k33.display_buffer()[0].bits(), 0b0000_0000);
    assert_eq!(ht16k33.display_buffer()[1].bits(), 0b0000_0000);
    assert_eq!(ht16k33.display_buffer()[2].bits(), 0b0000_0000);
    assert_eq!(ht16k33.display_buffer()[3].bits(), 0b0000_0000);
    assert_eq!(ht16k33.display_buffer()[4].bits(), 0b0000_0010);
    assert_eq!(ht16k33.display_buffer()[5].bits(), 0b0000_0000);
    assert_eq!(ht16k33.display_buffer()[6].bits(), 0b0000_0000);

    i2c = ht16k33.destroy();
    assert_eq!(i2c.data_values, [0u8; 16]);
}

#[test]
fn update_buffer_with_digit() {
    let mut i2c = I2cMock::new();
    let mut ht16k33 = HT16K33::new(i2c, ADDRESS);

    // Write an A
    ht16k33.update_buffer_with_digit(Index::One, 0x0A);
    assert_eq!(ht16k33.display_buffer()[0].bits(), 0b0111_0111);

    // Write an B
    ht16k33.update_buffer_with_digit(Index::One, 0x0B);
    assert_eq!(ht16k33.display_buffer()[0].bits(), 0b0111_1100);

    // Write an 0
    ht16k33.update_buffer_with_digit(Index::One, 0x00);
    assert_eq!(ht16k33.display_buffer()[0].bits(), 0b0011_1111);

    // Write an 9
    ht16k33.update_buffer_with_digit(Index::One, 0x09);
    assert_eq!(ht16k33.display_buffer()[0].bits(), 0b0110_1111);

    i2c = ht16k33.destroy();
    assert_eq!(i2c.data_values, [0u8; 16]);
}

#[test]
fn update_buffer_with_char() {
    let mut i2c = I2cMock::new();
    let mut ht16k33 = HT16K33::new(i2c, ADDRESS);

    // Write an A
    assert!(ht16k33
        .update_buffer_with_char(Index::One, AsciiChar::new('A'))
        .is_ok());
    assert_eq!(ht16k33.display_buffer()[0].bits(), 0b0111_0111);

    // Write an a
    assert!(ht16k33
        .update_buffer_with_char(Index::One, AsciiChar::new('a'))
        .is_ok());
    assert_eq!(ht16k33.display_buffer()[0].bits(), 0b0111_0111);

    // Write an B
    assert!(ht16k33
        .update_buffer_with_char(Index::One, AsciiChar::new('B'))
        .is_ok());
    assert_eq!(ht16k33.display_buffer()[0].bits(), 0b0111_1100);

    // Write an b
    assert!(ht16k33
        .update_buffer_with_char(Index::One, AsciiChar::new('b'))
        .is_ok());
    assert_eq!(ht16k33.display_buffer()[0].bits(), 0b0111_1100);

    // Write an 0
    assert!(ht16k33
        .update_buffer_with_char(Index::One, AsciiChar::new('0'))
        .is_ok());
    assert_eq!(ht16k33.display_buffer()[0].bits(), 0b0011_1111);

    // Write an 9
    assert!(ht16k33
        .update_buffer_with_char(Index::One, AsciiChar::new('9'))
        .is_ok());
    assert_eq!(ht16k33.display_buffer()[0].bits(), 0b0110_1111);

    // Write an -
    assert!(ht16k33
        .update_buffer_with_char(Index::One, AsciiChar::new('-'))
        .is_ok());
    assert_eq!(ht16k33.display_buffer()[0].bits(), 0b0100_0000);

    i2c = ht16k33.destroy();
    assert_eq!(i2c.data_values, [0u8; 16]);
}
