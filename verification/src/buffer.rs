use vstd::prelude::*;

use crate::index::{physical_slot, slot_of, Index};

verus! {

/// The number of rows of the buffer.
pub const ROWS: u8 = 16;

/// The rows after one cell write: in row `row` the bits of `mask` are set or
/// cleared, every other row is as it was.
pub open spec fn with_cell(rows: Seq<u8>, row: int, mask: u8, on: bool) -> Seq<u8> {
    Seq::new(
        16,
        |r: int|
            if r == row {
                if on {
                    rows[r] | mask
                } else {
                    rows[r] & !mask
                }
            } else {
                rows[r]
            },
    )
}

/// The low eight bits of a pattern: the segments of the slot's first row.
pub open spec fn low_byte(pattern: u16) -> u8 {
    (pattern & 0xff) as u8
}

/// The high eight bits of a pattern: the segments of the slot's second row.
pub open spec fn high_byte(pattern: u16) -> u8 {
    (pattern >> 8) as u8
}

/// The rows after a slot was given a pattern: its two rows hold the pattern's
/// two bytes, every other row is as it was.
pub open spec fn with_pattern(rows: Seq<u8>, slot: int, pattern: u16) -> Seq<u8> {
    Seq::new(
        16,
        |r: int|
            if r == 2 * slot {
                low_byte(pattern)
            } else if r == 2 * slot + 1 {
                high_byte(pattern)
            } else {
                rows[r]
            },
    )
}

/// The row that holds bit `bit` of slot `slot`: a slot has two rows, the first
/// for the bits 0 to 7, the second for the bits 8 to 15.
pub open spec fn cell_row(slot: int, bit: int) -> int {
    if bit >= 8 {
        slot * 2 + 1
    } else {
        slot * 2
    }
}

/// The place of bit `bit` within its row, as a mask of one bit.
pub open spec fn cell_mask(bit: u8) -> u8 {
    1u8 << (bit % 8)
}

/// A display buffer: sixteen rows of eight cells, written one cell at a time.
pub trait DisplayBuffer: Sized {
    /// The rows of the buffer, one byte each.
    spec fn rows(&self) -> Seq<u8>;

    /// Sets or clears the cells of row `row` that `mask` names.
    fn write_cell(&mut self, row: u8, mask: u8, on: bool)
        requires
            row < ROWS,
        ensures
            final(self).rows() == with_cell(old(self).rows(), row as int, mask, on),
    ;
}

/// Sets or clears one segment: bit `bit` of the physical slot `slot`.
pub fn set_bit<D: DisplayBuffer>(display: &mut D, slot: u8, bit: u8, on: bool)
    requires
        slot <= 4,
        bit < 16,
    ensures
        final(display).rows() == with_cell(
            old(display).rows(),
            cell_row(slot as int, bit as int),
            cell_mask(bit),
            on,
        ),
{
    let row: u8 = if bit < 8 {
        slot * 2
    } else {
        slot * 2 + 1
    };
    let mask: u8 = 1u8 << (bit % 8);
    display.write_cell(row, mask, on);
}

/// The low `n` bits of a byte, for `n` up to 8.
spec fn low_mask(n: u8) -> u8 {
    if n >= 8 {
        0xffu8
    } else {
        !(0xffu8 << n)
    }
}

/// A byte that has the low `n` bits of `new` and the other bits of `old`.
spec fn merged(old: u8, new: u8, n: u8) -> u8 {
    (new & low_mask(n)) | (old & !low_mask(n))
}

/// The rows when the low `n` bits of a pattern have been written to a slot.
spec fn partly(rows: Seq<u8>, slot: int, pattern: u16, n: u8) -> Seq<u8> {
    Seq::new(
        16,
        |r: int|
            if r == 2 * slot {
                merged(rows[r], low_byte(pattern), if n < 8 { n } else { 8 })
            } else if r == 2 * slot + 1 {
                merged(rows[r], high_byte(pattern), if n < 8 { 0 } else { (n - 8) as u8 })
            } else {
                rows[r]
            },
    )
}

proof fn lemma_merge_step(old: u8, new: u8, n: u8)
    by (bit_vector)
    requires
        n < 8,
    ensures
        (new >> n) & 1 == 1 ==> merged(old, new, n) | (1u8 << n) == merged(old, new, (n + 1) as u8),
        (new >> n) & 1 != 1 ==> merged(old, new, n) & !(1u8 << n) == merged(old, new, (n + 1) as u8),
{
}

proof fn lemma_merge_ends(old: u8, new: u8)
    by (bit_vector)
    ensures
        merged(old, new, 0) == old,
        merged(old, new, 8) == new,
{
}

proof fn lemma_pattern_bit(pattern: u16, bit: u8)
    by (bit_vector)
    requires
        bit < 16,
    ensures
        bit < 8 ==> ((pattern >> bit) & 1 == 1) == ((low_byte(pattern) >> bit) & 1 == 1),
        bit >= 8 ==> ((pattern >> bit) & 1 == 1) == ((high_byte(pattern) >> ((bit - 8) as u8)) & 1
            == 1),
{
}

/// Gives a digit position a pattern of sixteen segments.
///
/// Every bit of the pattern is written, from bit 0 up: the segments that the
/// pattern names are lit and all others of the position are put out, whatever
/// they showed before.
pub fn update_bits<D: DisplayBuffer>(display: &mut D, index: Index, pattern: u16)
    ensures
        final(display).rows() == with_pattern(
            old(display).rows(),
            slot_of(index.position()),
            pattern,
        ),
{
    let slot: u8 = physical_slot(index);
    let ghost before = display.rows();
    let mut bit: u8 = 0;
    while bit < 16
        invariant
            bit <= 16,
            slot <= 4,
            bit == 0 ==> display.rows() == before,
            bit > 0 ==> display.rows() == partly(before, slot as int, pattern, bit),
        decreases 16 - bit,
    {
        let on: bool = (pattern >> bit) & 1 == 1;
        let ghost row = cell_row(slot as int, bit as int);
        let ghost seen = display.rows()[row];
        set_bit(display, slot, bit, on);
        proof {
            let low = low_byte(pattern);
            let high = high_byte(pattern);
            lemma_pattern_bit(pattern, bit);
            lemma_merge_ends(before[2 * slot], low);
            lemma_merge_ends(before[2 * slot + 1], high);
            if bit < 8 {
                assert(bit % 8 == bit);
                assert(seen == merged(before[row], low, bit));
                lemma_merge_step(before[row], low, bit);
            } else {
                assert(bit % 8 == bit - 8);
                assert(seen == merged(before[row], high, (bit - 8) as u8));
                lemma_merge_step(before[row], high, (bit - 8) as u8);
            }
            assert(display.rows() =~= partly(before, slot as int, pattern, (bit + 1) as u8));
        }
        bit = bit + 1;
    }
    proof {
        lemma_merge_ends(before[2 * slot], low_byte(pattern));
        lemma_merge_ends(before[2 * slot + 1], high_byte(pattern));
        assert(display.rows() =~= with_pattern(before, slot as int, pattern));
    }
}

} // verus!
