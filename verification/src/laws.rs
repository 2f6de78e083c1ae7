use vstd::prelude::*;
use vstd::arithmetic::div_mod::{lemma_div_decreases, lemma_fundamental_div_mod};
use vstd::arithmetic::power::pow;

use crate::buffer::{cell_mask, high_byte, low_byte};
use crate::float::{
    digits, float_layout, glyph_at, glyphs_value, lemma_digits_len, room, settle, shown_digits,
    with_glyphs, Glyph,
};
use crate::font::{COLON_BIT, DOT_BIT};
use crate::index::{slot_of, Index, COLON_SLOT};
use crate::segment::{with_char, with_colon, with_digit, with_dot};

verus! {

/// A letter is drawn the same in either case: a small letter and its capital
/// give the same rows, or are both refused.
pub proof fn lemma_char_case_insensitive(rows: Seq<u8>, index: Index, small: u8)
    requires
        0x61 <= small <= 0x7A,
    ensures
        with_char(rows, index, small) == with_char(rows, index, (small - 0x20) as u8),
{
}

/// Drawing the same digit twice at a position leaves the rows as drawing it
/// once does.
pub proof fn lemma_digit_idempotent(rows: Seq<u8>, index: Index, value: int)
    ensures
        with_digit(with_digit(rows, index, value), index, value) == with_digit(rows, index, value),
{
    assert(with_digit(with_digit(rows, index, value), index, value) =~= with_digit(
        rows,
        index,
        value,
    ));
}

/// No digit stands in the colon's slot: the first two digits hold the slots 0
/// and 1, the last two the slots 3 and 4, and two digits never share a slot.
pub proof fn lemma_colon_slot_is_free(index: Index, other: Index)
    ensures
        slot_of(index.position()) != COLON_SLOT,
        0 <= slot_of(index.position()) <= 4,
        index.position() >= 2 ==> slot_of(index.position()) == index.position() + 1,
        index.position() < 2 ==> slot_of(index.position()) == index.position(),
        slot_of(index.position()) == slot_of(other.position()) ==> index == other,
{
}

proof fn lemma_one_bit(seen: u8, bit: u8)
    by (bit_vector)
    requires
        bit < 8,
    ensures
        (seen | cell_mask(bit)) & !cell_mask(bit) == seen & !cell_mask(bit),
        (seen & !cell_mask(bit)) & !cell_mask(bit) == seen & !cell_mask(bit),
        (seen | cell_mask(bit)) & cell_mask(bit) == cell_mask(bit),
        (seen & !cell_mask(bit)) & cell_mask(bit) == 0,
        cell_mask(bit) != 0,
{
}

/// Lighting or putting out a decimal point changes the point's own bit and
/// nothing else: every other row, and every other bit of its row, is as it was.
pub proof fn lemma_dot_changes_one_bit(rows: Seq<u8>, index: Index, on: bool)
    ensures
        forall|r: int|
            0 <= r < 16 && r != 2 * slot_of(index.position()) ==> #[trigger] with_dot(
                rows,
                index,
                on,
            )[r] == rows[r],
        with_dot(rows, index, on)[2 * slot_of(index.position())] & !cell_mask(DOT_BIT) == rows[2
            * slot_of(index.position())] & !cell_mask(DOT_BIT),
        on <==> with_dot(rows, index, on)[2 * slot_of(index.position())] & cell_mask(DOT_BIT) != 0,
{
    lemma_one_bit(rows[2 * slot_of(index.position())], DOT_BIT);
}

/// Lighting or putting out the colon changes the colon's own bit and nothing
/// else. Its row belongs to no digit.
pub proof fn lemma_colon_changes_one_bit(rows: Seq<u8>, index: Index, on: bool)
    ensures
        forall|r: int| 0 <= r < 16 && r != 2 * COLON_SLOT ==> #[trigger] with_colon(rows, on)[r] == rows[r],
        with_colon(rows, on)[2 * COLON_SLOT] & !cell_mask(COLON_BIT) == rows[2 * COLON_SLOT] & !cell_mask(
            COLON_BIT,
        ),
        on <==> with_colon(rows, on)[2 * COLON_SLOT] & cell_mask(COLON_BIT) != 0,
        2 * COLON_SLOT != 2 * slot_of(index.position()),
        2 * COLON_SLOT != 2 * slot_of(index.position()) + 1,
{
    lemma_one_bit(rows[2 * COLON_SLOT], COLON_BIT);
}

/// A digit takes its whole position: what the position showed before, its
/// decimal point too, does not matter once the digit is drawn. So a point that
/// is set, then drawn over, then set again is the point on the new digit.
pub proof fn lemma_digit_covers_dot(rows: Seq<u8>, index: Index, first: bool, value: int, again: bool)
    ensures
        with_digit(with_dot(rows, index, first), index, value) == with_digit(rows, index, value),
        with_dot(with_digit(with_dot(rows, index, first), index, value), index, again) == with_dot(
            with_digit(rows, index, value),
            index,
            again,
        ),
{
    assert(with_digit(with_dot(rows, index, first), index, value) =~= with_digit(rows, index, value));
}

/// The colon and the digits do not touch each other: drawing a digit and
/// setting the colon give the same rows in either order, and the digit leaves
/// the colon's row as it was.
pub proof fn lemma_colon_independent_of_digits(rows: Seq<u8>, index: Index, value: int, on: bool)
    ensures
        with_colon(with_digit(rows, index, value), on) == with_digit(with_colon(rows, on), index, value),
        with_digit(rows, index, value)[2 * COLON_SLOT] == rows[2 * COLON_SLOT],
{
    assert(with_colon(with_digit(rows, index, value), on) =~= with_digit(
        with_colon(rows, on),
        index,
        value,
    ));
}

/// Drawing glyphs changes the rows of their positions and no other: each
/// position from `start` on holds the two bytes of its glyph's pattern, and the
/// rows of the positions before `start` and of the colon are as they were.
pub proof fn lemma_glyphs_row_by_row(rows: Seq<u8>, start: int, glyphs: Seq<Glyph>)
    requires
        0 <= start,
        start + glyphs.len() <= 4,
    ensures
        forall|p: int|
            start <= p < start + glyphs.len() ==> {
                &&& with_glyphs(rows, start, glyphs)[2 * #[trigger] slot_of(p)] == low_byte(
                    glyphs[p - start].pattern(),
                )
                &&& with_glyphs(rows, start, glyphs)[2 * slot_of(p) + 1] == high_byte(
                    glyphs[p - start].pattern(),
                )
            },
        forall|r: int|
            0 <= r < 16 && (r < 2 * slot_of(start) || r == 2 * COLON_SLOT || r == 2 * COLON_SLOT + 1
                || r >= 10) ==> #[trigger] with_glyphs(rows, start, glyphs)[r] == rows[r],
    decreases glyphs.len(),
{
    if glyphs.len() > 0 {
        let rest = glyphs.skip(1);
        lemma_glyphs_row_by_row(rows, start + 1, rest);
        assert forall|p: int| start <= p < start + glyphs.len() implies {
            &&& with_glyphs(rows, start, glyphs)[2 * #[trigger] slot_of(p)] == low_byte(
                glyphs[p - start].pattern(),
            )
            &&& with_glyphs(rows, start, glyphs)[2 * slot_of(p) + 1] == high_byte(
                glyphs[p - start].pattern(),
            )
        } by {
            if p > start {
                assert(rest[p - (start + 1)] == glyphs[p - start]);
            }
        }
        assert forall|r: int|
            0 <= r < 16 && (r < 2 * slot_of(start) || r == 2 * COLON_SLOT || r == 2 * COLON_SLOT + 1
                || r >= 10) implies #[trigger] with_glyphs(rows, start, glyphs)[r] == rows[r] by {
            assert(with_glyphs(rows, start + 1, rest)[r] == rows[r]);
        }
    }
}

/// The number that digits, least significant first, stand for in `base`.
spec fn digits_value(shown: Seq<u8>, base: nat) -> nat
    decreases shown.len(),
{
    if shown.len() == 0 {
        0
    } else {
        shown[0] as nat + base * digits_value(shown.skip(1), base)
    }
}

/// The number that the digits from `offset` on stand for; nothing beyond the
/// last digit.
spec fn tail_value(shown: Seq<u8>, base: nat, offset: int) -> nat {
    if 0 <= offset <= shown.len() {
        digits_value(shown.skip(offset), base)
    } else {
        0
    }
}

proof fn lemma_digits_value(n: nat, base: nat, least: nat)
    requires
        2 <= base <= 16,
    ensures
        digits_value(digits(n, base, least), base) == n,
    decreases n, least,
{
    if n == 0 && least == 0 {
    } else {
        let fewer: nat = if least == 0 { 0 } else { (least - 1) as nat };
        let tail = digits(n / base, base, fewer);
        let all = digits(n, base, least);
        if n > 0 {
            lemma_div_decreases(n as int, base as int);
        }
        lemma_digits_value(n / base, base, fewer);
        assert(all == seq![(n % base) as u8] + tail);
        assert(all.skip(1) =~= tail);
        assert(all[0] == (n % base) as u8);
        lemma_fundamental_div_mod(n as int, base as int);
    }
}

proof fn lemma_glyphs_value(shown: Seq<u8>, point: nat, negative: bool, base: nat, width: nat, m: nat)
    requires
        m <= width,
        shown.len() <= width,
    ensures
        glyphs_value(
            Seq::new(width, |j: int| glyph_at(shown, point, negative, width - 1 - j)).take(m as int),
            base,
        ) == tail_value(shown, base, width - m),
    decreases m,
{
    let glyphs = Seq::new(width, |j: int| glyph_at(shown, point, negative, width - 1 - j));
    if m == 0 {
        assert(glyphs.take(0).len() == 0);
        if width == shown.len() {
            assert(shown.skip(width as int).len() == 0);
        }
    } else {
        let offset = width - m;
        lemma_glyphs_value(shown, point, negative, base, width, (m - 1) as nat);
        assert(glyphs.take(m as int).drop_last() =~= glyphs.take(m - 1));
        assert(glyphs.take(m as int).last() == glyph_at(shown, point, negative, offset));
        let fewer = glyphs_value(glyphs.take(m - 1), base);
        assert(fewer == tail_value(shown, base, offset + 1));
        if offset < shown.len() {
            assert(shown.skip(offset).skip(1) =~= shown.skip(offset + 1));
            assert(shown.skip(offset)[0] == shown[offset]);
            assert(fewer * base == base * fewer) by (nonlinear_arith);
        } else {
            assert(fewer == 0) by {
                if offset == shown.len() {
                    assert(shown.skip(offset).len() == 0);
                }
            }
            assert(fewer * base == 0) by (nonlinear_arith)
                requires
                    fewer == 0,
            ;
        }
    }
}

/// The precision that is kept is the greatest one at which the magnitude is
/// below the limit; none is kept exactly if the magnitude is below the limit at
/// no precision.
pub proof fn lemma_settle_is_greatest(magnitudes: Seq<u32>, limit: int, candidates: nat)
    requires
        candidates <= magnitudes.len(),
    ensures
        match settle(magnitudes, limit, candidates) {
            Some(kept) => {
                &&& kept < candidates
                &&& magnitudes[kept as int] < limit
                &&& forall|k: int| kept < k < candidates ==> magnitudes[k] >= limit
            },
            None => forall|k: int| 0 <= k < candidates ==> magnitudes[k] >= limit,
        },
    decreases candidates,
{
    if candidates > 0 && magnitudes[candidates - 1] >= limit {
        lemma_settle_is_greatest(magnitudes, limit, (candidates - 1) as nat);
    }
}

/// What a layout shows is the magnitude it settled on.
///
/// Where a number is laid out, the digits on the display, read in the base as
/// one whole number, are the magnitude at the precision that was kept; the
/// decimal point stands that many digits from the right, and nowhere else; and
/// a minus sign stands on the display exactly if the number is negative.
pub proof fn lemma_layout_round_trip(index: Index, negative: bool, magnitudes: Seq<u32>, base: nat)
    requires
        2 <= base <= 16,
        float_layout(index.position(), negative, magnitudes, base) is Some,
    ensures
        ({
            let glyphs = float_layout(index.position(), negative, magnitudes, base)->Some_0;
            let limit = pow(base as int, room(index.position(), negative) as nat);
            let precision = settle(magnitudes, limit, magnitudes.len())->Some_0;
            let n = magnitudes[precision as int];
            &&& settle(magnitudes, limit, magnitudes.len()) is Some
            &&& glyphs.len() == 4 - index.position()
            &&& glyphs_value(glyphs, base) == n
            &&& forall|j: int|
                0 <= j < glyphs.len() ==> ((#[trigger] glyphs[j] matches Glyph::Digit { dot, .. }
                    && dot) <==> n != 0 && precision != 0 && j == glyphs.len() - 1 - precision)
            &&& negative <==> exists|j: int| 0 <= j < glyphs.len() && #[trigger] glyphs[j] is Minus
        }),
{
    let start = index.position();
    let glyphs = float_layout(start, negative, magnitudes, base)->Some_0;
    let limit = pow(base as int, room(start, negative) as nat);
    let precision = settle(magnitudes, limit, magnitudes.len())->Some_0;
    lemma_settle_is_greatest(magnitudes, limit, magnitudes.len());
    let n = magnitudes[precision as int] as nat;
    let shown = shown_digits(n, base, precision);
    let point: nat = if n == 0 { 0 } else { precision };
    let width = (4 - start) as nat;
    assert(glyphs == Seq::new(width, |j: int| glyph_at(shown, point, negative, width - 1 - j)));
    lemma_glyphs_value(shown, point, negative, base, width, width);
    assert(glyphs.take(width as int) =~= glyphs);
    assert(shown.skip(0) =~= shown);
    if n == 0 {
        assert(shown.skip(1).len() == 0);
        assert(digits_value(shown, base) == 0) by {
            assert(digits_value(shown.skip(1), base) == 0);
            assert(base * 0 == 0);
        }
    } else {
        lemma_digits_value(n, base, precision + 1);
        lemma_digits_len(n, base, precision + 1, room(start, negative) as nat);
    }
    if negative {
        assert(glyphs[width - 1 - shown.len()] is Minus);
    }
}

} // verus!
