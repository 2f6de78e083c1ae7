use vstd::prelude::*;
use vstd::arithmetic::div_mod::{lemma_div_decreases, lemma_multiply_divide_lt};
use vstd::arithmetic::power::{lemma_pow_increases, lemma_pow_positive, pow};

use crate::buffer::with_pattern;
use crate::error::Error;
use crate::font::{hex_font, MINUS_SIGN};
use crate::index::{slot_of, Index};

verus! {

/// A number as the layout sees it: its sign, and its magnitude at each precision.
///
/// `whole` is the magnitude rounded to a whole number. `fractional[i]` is the
/// magnitude times the base to the power `i + 1`, rounded to a whole number: the
/// number with `i + 1` digits after the point, read without the point. The
/// length of `fractional` is the number of fractional digits that are asked for.
#[derive(Debug)]
pub struct Scaled {
    /// Whether the number is below zero.
    pub negative: bool,
    /// The magnitude with no fractional digit.
    pub whole: u32,
    /// The magnitude with one, two, ... fractional digits.
    pub fractional: Vec<u32>,
}

impl Scaled {
    /// The magnitudes by precision: entry `k` has `k` fractional digits.
    pub open spec fn magnitudes(&self) -> Seq<u32> {
        seq![self.whole] + self.fractional@
    }

    /// The magnitude with `precision` fractional digits.
    pub fn magnitude(&self, precision: usize) -> (m: u32)
        requires
            precision <= self.fractional@.len(),
        ensures
            m == self.magnitudes()[precision as int],
    {
        if precision == 0 {
            self.whole
        } else {
            self.fractional[precision - 1]
        }
    }
}

/// What one digit position shows.
#[derive(Clone, Copy, Debug, PartialEq, Eq, Structural)]
pub enum Glyph {
    /// Nothing is lit.
    Blank,
    /// The minus sign.
    Minus,
    /// A digit, with or without its decimal point.
    Digit {
        /// The digit's value, below the base.
        value: u8,
        /// Whether the decimal point behind the digit is lit.
        dot: bool,
    },
}

impl Glyph {
    /// The segments of the glyph: none, the minus sign, or those of the digit,
    /// with bit 7 for the decimal point.
    pub open spec fn pattern(self) -> u16 {
        match self {
            Glyph::Blank => 0,
            Glyph::Minus => MINUS_SIGN,
            Glyph::Digit { value, dot } => if dot {
                hex_font(value as int) | 0x80
            } else {
                hex_font(value as int)
            },
        }
    }

    /// Whether the glyph can stand in a number of the given base.
    pub open spec fn fits(self, base: int) -> bool {
        self matches Glyph::Digit { value, .. } ==> value < base
    }
}

/// The rows after the glyphs were drawn at the positions from `start` on, one
/// position for each glyph: every such position holds the pattern of its
/// glyph, every other row is as it was.
pub open spec fn with_glyphs(rows: Seq<u8>, start: int, glyphs: Seq<Glyph>) -> Seq<u8>
    decreases glyphs.len(),
{
    if glyphs.len() == 0 {
        rows
    } else {
        with_pattern(
            with_glyphs(rows, start + 1, glyphs.skip(1)),
            slot_of(start),
            glyphs[0].pattern(),
        )
    }
}

/// The number that a row of glyphs shows when it is read in `base` without its
/// sign and its point: each digit counts by its place, a blank and a minus sign
/// count nothing.
pub open spec fn glyphs_value(glyphs: Seq<Glyph>, base: nat) -> nat
    decreases glyphs.len(),
{
    if glyphs.len() == 0 {
        0
    } else {
        glyphs_value(glyphs.drop_last(), base) * base + match glyphs.last() {
            Glyph::Digit { value, .. } => value as nat,
            _ => 0,
        }
    }
}

/// The digit positions that are left for digits when the number starts at
/// position `start`: all positions from there to the last, less one for a sign.
pub open spec fn room(start: int, negative: bool) -> int {
    if negative {
        3 - start
    } else {
        4 - start
    }
}

/// The greatest precision among the first `candidates` at which the magnitude
/// is below `limit`, if there is one.
pub open spec fn settle(magnitudes: Seq<u32>, limit: int, candidates: nat) -> Option<nat>
    decreases candidates,
{
    if candidates == 0 {
        None
    } else if magnitudes[candidates - 1] < limit {
        Some((candidates - 1) as nat)
    } else {
        settle(magnitudes, limit, (candidates - 1) as nat)
    }
}

/// The digits of `n` in `base`, least significant first, with zeros added at
/// the high end until there are `least` of them.
pub open spec fn digits(n: nat, base: nat, least: nat) -> Seq<u8>
    decreases n, least,
{
    if base < 2 || (n == 0 && least == 0) {
        Seq::empty()
    } else {
        proof {
            if n > 0 {
                lemma_div_decreases(n as int, base as int);
            }
        }
        seq![(n % base) as u8] + digits(n / base, base, if least == 0 { 0 } else { (least - 1) as nat })
    }
}

/// The digits that are drawn for the magnitude `n` with `precision` fractional
/// digits: zero is a single digit, any other number has all its digits and at
/// least one before the point.
pub open spec fn shown_digits(n: nat, base: nat, precision: nat) -> Seq<u8> {
    if n == 0 {
        seq![0u8]
    } else {
        digits(n, base, precision + 1)
    }
}

/// The glyph at `offset` positions from the right end of the display.
pub open spec fn glyph_at(
    shown: Seq<u8>,
    point: nat,
    negative: bool,
    offset: int,
) -> Glyph {
    if offset < shown.len() {
        Glyph::Digit { value: shown[offset], dot: point != 0 && offset == point }
    } else if offset == shown.len() && negative {
        Glyph::Minus
    } else {
        Glyph::Blank
    }
}

/// The glyphs for the positions `start` to 3, left to right, or `None` where the
/// number cannot be shown.
///
/// Precision is given up, one fractional digit at a time, until the magnitude
/// is below `base` to the power of the room there is; the number cannot be
/// shown if even the whole magnitude is not. Nor can it be shown if its digits
/// and its sign then need more positions than there are.
pub open spec fn float_layout(
    start: int,
    negative: bool,
    magnitudes: Seq<u32>,
    base: nat,
) -> Option<Seq<Glyph>> {
    let limit = pow(base as int, room(start, negative) as nat);
    match settle(magnitudes, limit, magnitudes.len()) {
        None => None,
        Some(precision) => {
            let n = magnitudes[precision as int] as nat;
            let shown = shown_digits(n, base, precision);
            let point = if n == 0 { 0 } else { precision };
            if shown.len() > room(start, negative) {
                None
            } else {
                Some(Seq::new((4 - start) as nat, |j: int| glyph_at(shown, point, negative, 3 - start - j)))
            }
        },
    }
}

/// `base` to the power `exponent`.
fn power(base: u8, exponent: u8) -> (p: u32)
    requires
        2 <= base <= 16,
        exponent <= 4,
    ensures
        p == pow(base as int, exponent as nat),
        1 <= p <= 65536,
{
    let mut p: u32 = 1;
    let mut i: u8 = 0;
    proof {
        reveal(pow);
        assert(pow(16, 4) == 65536) by {
            reveal_with_fuel(pow, 5);
        }
    }
    while i < exponent
        invariant
            i <= exponent <= 4,
            2 <= base <= 16,
            p == pow(base as int, i as nat),
            1 <= p <= pow(16, i as nat),
            pow(16, 4) == 65536,
        decreases exponent - i,
    {
        proof {
            let bound = pow(16, i as nat);
            assert(pow(base as int, (i + 1) as nat) == base * pow(base as int, i as nat)) by {
                reveal(pow);
            }
            assert(pow(16, (i + 1) as nat) == 16 * bound) by {
                reveal(pow);
            }
            assert(1 <= p * base <= 16 * bound && p * base == base * p) by (nonlinear_arith)
                requires
                    1 <= p <= bound,
                    2 <= base <= 16,
            ;
            lemma_pow_increases(16, (i + 1) as nat, 4);
        }
        p = p * (base as u32);
        i = i + 1;
    }
    proof {
        lemma_pow_increases(16, exponent as nat, 4);
    }
    p
}

/// `digits` gives at least the digits asked for, and no more than a number
/// below `base` to the power `width` needs.
pub proof fn lemma_digits_len(n: nat, base: nat, least: nat, width: nat)
    requires
        base >= 2,
        n < pow(base as int, width),
    ensures
        digits(n, base, least).len() >= least,
        digits(n, base, least).len() <= if width >= least { width } else { least },
    decreases n, least,
{
    if n == 0 && least == 0 {
    } else {
        let fewer: nat = if least == 0 { 0 } else { (least - 1) as nat };
        let narrower: nat = if width == 0 { 0 } else { (width - 1) as nat };
        lemma_pow_positive(base as int, narrower);
        if n > 0 {
            lemma_div_decreases(n as int, base as int);
            assert(width > 0 && pow(base as int, width) == base * pow(base as int, narrower)) by {
                reveal(pow);
            }
            lemma_multiply_divide_lt(n as int, base as int, pow(base as int, narrower));
        }
        assert(n / base < pow(base as int, narrower));
        lemma_digits_len(n / base, base, fewer, narrower);
    }
}

/// Lays a number out on the positions from `index` to the last one.
///
/// The result holds one glyph for each of these positions, left to right: blanks,
/// then the minus sign of a negative number, then the digits with the decimal
/// point. Fractional digits are given up from the right as long as the number is
/// too large for the room there is. The number is refused, with
/// `InsufficientDigits`, where it does not fit without any fractional digit, and
/// where the digits that are left and the sign need more positions than there
/// are.
pub fn layout_float(index: Index, value: &Scaled, base: u8) -> (res: Result<Vec<Glyph>, Error>)
    requires
        2 <= base <= 16,
    ensures
        match float_layout(index.position(), value.negative, value.magnitudes(), base as nat) {
            Some(glyphs) => res is Ok && res->Ok_0@ == glyphs,
            None => res is Err && res->Err_0 == Error::InsufficientDigits,
        },
        res matches Ok(glyphs) ==> forall|j: int|
            0 <= j < glyphs@.len() ==> (#[trigger] glyphs@[j]).fits(base as int),
{
    let start: u8 = u8::from(index);
    let positions: u8 = 4 - start;
    let free: u8 = if value.negative {
        positions - 1
    } else {
        positions
    };
    let limit: u32 = power(base, free);
    let ghost magnitudes = value.magnitudes();

    let mut precision: usize = value.fractional.len();
    while value.magnitude(precision) >= limit
        invariant
            precision <= value.fractional@.len(),
            magnitudes == value.magnitudes(),
            limit == pow(base as int, room(index.position(), value.negative) as nat),
            settle(magnitudes, limit as int, magnitudes.len()) == settle(
                magnitudes,
                limit as int,
                (precision + 1) as nat,
            ),
        decreases precision,
    {
        if precision == 0 {
            assert(settle(magnitudes, limit as int, 1) == settle(magnitudes, limit as int, 0));
            return Err(Error::InsufficientDigits);
        }
        precision = precision - 1;
    }
    let n: u32 = value.magnitude(precision);
    let ghost shown = shown_digits(n as nat, base as nat, precision as nat);
    proof {
        assert(settle(magnitudes, limit as int, magnitudes.len()) == Some(precision as nat));
        if n != 0 {
            lemma_digits_len(n as nat, base as nat, (precision + 1) as nat, free as nat);
        }
    }
    if (n == 0 && free == 0) || (n != 0 && precision >= free as usize) {
        return Err(Error::InsufficientDigits);
    }
    let mut glyphs: Vec<Glyph> = Vec::new();
    while glyphs.len() < positions as usize
        invariant
            glyphs@.len() <= positions,
            forall|j: int| 0 <= j < glyphs@.len() ==> glyphs@[j] == Glyph::Blank,
        decreases positions - glyphs@.len(),
    {
        glyphs.push(Glyph::Blank);
    }

    let mut count: u8 = 0;
    if n == 0 {
        glyphs.set((positions - 1) as usize, Glyph::Digit { value: 0, dot: false });
        count = 1;
    } else {
        let mut rest: u32 = n;
        while rest != 0 || count as usize <= precision
            invariant
                2 <= base <= 16,
                n != 0,
                shown == digits(n as nat, base as nat, (precision + 1) as nat),
                count <= shown.len() <= free <= positions <= 4,
                glyphs@.len() == positions,
                shown.skip(count as int) == digits(
                    rest as nat,
                    base as nat,
                    if count <= precision { (precision + 1 - count) as nat } else { 0 },
                ),
                forall|j: int| 0 <= j < positions ==> glyphs@[j] == if positions - 1 - j < count {
                    Glyph::Digit {
                        value: shown[positions - 1 - j],
                        dot: precision != 0 && positions - 1 - j == precision,
                    }
                } else {
                    Glyph::Blank
                },
                forall|j: int| 0 <= j < positions ==> (#[trigger] glyphs@[j]).fits(base as int),
            decreases shown.len() - count,
        {
            proof {
                let left = shown.skip(count as int);
                assert(left.len() > 0);
                assert(left[0] == shown[count as int]);
                assert(left.skip(1) =~= shown.skip(count + 1));
                let fewer: nat = if count < precision { (precision - count) as nat } else { 0 };
                let tail = digits((rest as nat) / (base as nat), base as nat, fewer);
                assert(left == seq![((rest as nat) % (base as nat)) as u8] + tail);
                assert(left.skip(1) =~= tail);
            }
            let digit: u8 = (rest % (base as u32)) as u8;
            let at: usize = (positions - 1 - count) as usize;
            glyphs.set(at, Glyph::Digit { value: digit, dot: precision != 0 && count as usize == precision });
            rest = rest / (base as u32);
            count = count + 1;
        }
        proof {
            assert(shown.skip(count as int).len() == 0);
        }
    }
    if value.negative {
        glyphs.set((positions - 1 - count) as usize, Glyph::Minus);
    }
    proof {
        let point: nat = if n == 0 { 0 } else { precision as nat };
        assert(glyphs@ =~= Seq::new(
            (4 - start) as nat,
            |j: int| glyph_at(shown, point, value.negative, 3 - start - j),
        ));
    }
    Ok(glyphs)
}

} // verus!
