use vstd::prelude::*;

use ascii::AsciiChar;

use crate::buffer::{
    cell_mask, cell_row, high_byte, low_byte, set_bit, update_bits, with_cell, with_pattern,
    DisplayBuffer,
};
use crate::driver::ascii_code;
use crate::error::Error;
use crate::float::{float_layout, layout_float, with_glyphs, Glyph, Scaled};
use crate::font::{
    char_pattern, encode_char, font_pattern, hex_font, COLON_BIT, DOT_BIT, MINUS_SIGN,
};
use crate::index::{physical_slot, slot_of, Index, COLON_SLOT};

verus! {

/// The rows after a hexadecimal digit was drawn at a position.
pub open spec fn with_digit(rows: Seq<u8>, index: Index, value: int) -> Seq<u8> {
    with_pattern(rows, slot_of(index.position()), hex_font(value))
}

/// The rows after the decimal point of a position was lit or put out.
pub open spec fn with_dot(rows: Seq<u8>, index: Index, on: bool) -> Seq<u8> {
    with_cell(rows, cell_row(slot_of(index.position()), DOT_BIT as int), cell_mask(DOT_BIT), on)
}

/// The rows after the colon was lit or put out.
pub open spec fn with_colon(rows: Seq<u8>, on: bool) -> Seq<u8> {
    with_cell(rows, cell_row(COLON_SLOT as int, COLON_BIT as int), cell_mask(COLON_BIT), on)
}

/// The rows after the character with the given code was drawn at a position,
/// or `None` where the character has no pattern.
pub open spec fn with_char(rows: Seq<u8>, index: Index, code: u8) -> Option<Seq<u8>> {
    match char_pattern(code) {
        Some(pattern) => Some(with_pattern(rows, slot_of(index.position()), pattern)),
        None => None,
    }
}

/// Drawing on a four-digit seven-segment display with a colon.
pub trait SevenSegment: DisplayBuffer {
    /// Update the buffer with a digit value (0 to F) at the specified index.
    fn update_buffer_with_digit(&mut self, index: Index, value: u8)
        requires
            value < 16,
        ensures
            final(self).rows() == with_digit(old(self).rows(), index, value as int),
    ;

    /// Update the buffer to turn the . on or off at the specified index.
    fn update_buffer_with_dot(&mut self, index: Index, dot_on: bool)
        ensures
            final(self).rows() == with_dot(old(self).rows(), index, dot_on),
    ;

    /// Update the buffer to turn the : on or off.
    fn update_buffer_with_colon(&mut self, colon_on: bool)
        ensures
            final(self).rows() == with_colon(old(self).rows(), colon_on),
    ;

    /// Update the buffer with an ascii character at the specified index.
    fn update_buffer_with_char(&mut self, index: Index, value: AsciiChar) -> (res: Result<
        (),
        Error,
    >)
        ensures
            match with_char(old(self).rows(), index, ascii_code(value)) {
                Some(rows) => res is Ok && final(self).rows() == rows,
                None => res == Err::<(), Error>(Error::NotValidChar) && final(self).rows() == old(
                    self,
                ).rows(),
            },
    ;

    /// Update the buffer with a formatted number not starting before the specified index.
    ///
    /// The positions from `index` to the last one are all drawn anew, as
    /// `layout_float` lays the number out; the positions before `index` and the
    /// colon stay as they are. Where the number is refused nothing is drawn.
    fn update_buffer_with_float(&mut self, index: Index, value: &Scaled, base: u8) -> (res: Result<
        (),
        Error,
    >)
        requires
            2 <= base <= 16,
        ensures
            match float_layout(index.position(), value.negative, value.magnitudes(), base as nat) {
                Some(glyphs) => res is Ok && final(self).rows() == with_glyphs(
                    old(self).rows(),
                    index.position(),
                    glyphs,
                ),
                None => res == Err::<(), Error>(Error::InsufficientDigits) && final(self).rows()
                    == old(self).rows(),
            },
    ;
}

/// A decimal point that is lit after its digit was drawn gives the pattern of
/// the digit with the point.
proof fn lemma_dot_joins_pattern(pattern: u16)
    by (bit_vector)
    ensures
        low_byte(pattern) | cell_mask(DOT_BIT) == low_byte(pattern | 0x80),
        high_byte(pattern) == high_byte(pattern | 0x80),
{
}

impl<D: DisplayBuffer> SevenSegment for D {
    fn update_buffer_with_digit(&mut self, index: Index, value: u8) {
        let bits: u16 = font_pattern(value);
        update_bits(self, index, bits);
    }

    fn update_buffer_with_dot(&mut self, index: Index, dot_on: bool) {
        let pos: u8 = physical_slot(index);
        set_bit(self, pos, DOT_BIT, dot_on);
    }

    fn update_buffer_with_colon(&mut self, colon_on: bool) {
        set_bit(self, COLON_SLOT, COLON_BIT, colon_on);
    }

    fn update_buffer_with_char(&mut self, index: Index, value: AsciiChar) -> (res: Result<
        (),
        Error,
    >) {
        match encode_char(value.as_byte()) {
            Ok(bits) => {
                update_bits(self, index, bits);
                Ok(())
            },
            Err(e) => Err(e),
        }
    }

    fn update_buffer_with_float(&mut self, index: Index, value: &Scaled, base: u8) -> (res: Result<
        (),
        Error,
    >) {
        let glyphs: Vec<Glyph> = match layout_float(index, value, base) {
            Ok(glyphs) => glyphs,
            Err(e) => {
                return Err(e);
            },
        };
        let start: u8 = u8::from(index);
        let ghost before = self.rows();

        // Draw from the last position leftwards: digits, then sign, then blanks.
        let mut i: usize = glyphs.len();
        while i > 0
            invariant
                i <= glyphs@.len() == 4 - start,
                start <= 3,
                2 <= base <= 16,
                forall|j: int| 0 <= j < glyphs@.len() ==> (#[trigger] glyphs@[j]).fits(base as int),
                self.rows() == with_glyphs(before, start + i, glyphs@.skip(i as int)),
            decreases i,
        {
            i = i - 1;
            let at: Index = Index::from(start + i as u8);
            let glyph: Glyph = glyphs[i];
            let ghost seen = self.rows();
            match glyph {
                Glyph::Blank => {
                    update_bits(self, at, 0);
                },
                Glyph::Minus => {
                    update_bits(self, at, MINUS_SIGN);
                },
                Glyph::Digit { value, dot } => {
                    self.update_buffer_with_digit(at, value);
                    if dot {
                        self.update_buffer_with_dot(at, true);
                        proof {
                            lemma_dot_joins_pattern(hex_font(value as int));
                        }
                    }
                },
            }
            proof {
                assert(self.rows() =~= with_pattern(seen, slot_of(at.position()), glyph.pattern()));
                assert(glyphs@.skip(i as int).skip(1) =~= glyphs@.skip(i + 1));
                assert(glyphs@.skip(i as int)[0] == glyph);
            }
        }
        proof {
            assert(glyphs@.skip(0) =~= glyphs@);
        }
        Ok(())
    }
}

} // verus!
