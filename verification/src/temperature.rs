//! Reading a temperature from wherever the board happens to keep one.
use vstd::arithmetic::div_mod::lemma_div_denominator;
use vstd::arithmetic::power::{lemma_pow0, lemma_pow1, lemma_pow_positive, pow};
use vstd::prelude::*;

use crate::text::{
    decimal, joined, law_digits_stand_for_the_number, law_pieces_that_fit_are_written, lemma_decimal_is_plain, lemma_decimal_length,
    lemma_decimal_starts_with_a_digit, lemma_decimals_look_different, lemma_next_piece, size,
    ten_to, written, Full, TextBuf,
};

verus! {

/// How often the source is sampled, in microseconds. Deliberately not the same
/// as [`crate::display::PERIOD`]: sampling a sensor and repainting a panel are
/// separate jobs, and neither should be pinned to the other's rate.
pub const PERIOD: u64 = 2_000_000;

/// A temperature, in tenths of a degree Celsius.
///
/// Integer tenths rather than a float on purpose: most microcontrollers this
/// targets have no FPU, and `core`'s float formatter is several KiB of flash to
/// print a number this screen shows to one decimal place anyway.
#[derive(Clone, Copy, PartialEq, Eq, Debug, Structural)]
pub struct Celsius(i16);

/// How far `tenths` is from zero.
pub open spec fn magnitude(tenths: int) -> nat {
    if tenths < 0 {
        (-tenths) as nat
    } else {
        tenths as nat
    }
}

/// The sign in front of a reading: none unless it is below zero.
pub open spec fn sign(tenths: int) -> Seq<char> {
    if tenths < 0 {
        seq!['-']
    } else {
        seq![]
    }
}

/// A reading, in the pieces that it is written in: sign, whole degrees, point,
/// tenths.
pub open spec fn pieces(tenths: int) -> Seq<Seq<char>> {
    seq![
        sign(tenths),
        decimal(magnitude(tenths) / 10),
        seq!['.'],
        decimal(magnitude(tenths) % 10),
    ]
}

/// A reading as it is shown, in degrees with one decimal place.
pub open spec fn shown(tenths: int) -> Seq<char> {
    sign(tenths) + decimal(magnitude(tenths) / 10) + seq!['.'] + decimal(magnitude(tenths) % 10)
}

/// The pieces of a reading make up the reading.
pub proof fn lemma_pieces_make_the_reading(tenths: int)
    ensures
        joined(pieces(tenths)) == shown(tenths),
{
    let all = pieces(tenths);
    reveal_with_fuel(joined, 5);
    assert(joined(all) =~= shown(tenths));
}

impl Celsius {
    /// The reading in tenths of a degree.
    pub closed spec fn spec_tenths(self) -> i16 {
        self.0
    }

    /// Wraps a reading that is already in tenths of a degree.
    ///
    /// Most I2C parts report a raw integer that scales to exactly this, so a
    /// source can usually avoid touching a float at all.
    #[must_use]
    pub fn from_tenths(tenths: i16) -> (reading: Self)
        ensures
            reading.spec_tenths() == tenths,
    {
        Self(tenths)
    }

    /// The reading in tenths of a degree.
    #[must_use]
    #[verifier::when_used_as_spec(spec_tenths)]
    pub fn tenths(self) -> (tenths: i16)
        ensures
            tenths == self.spec_tenths(),
    {
        self.0
    }

    /// Writes the reading to `text`, a piece at a time, up to the first that
    /// does not fit.
    ///
    /// # Errors
    ///
    /// [`Full`] if there was no room for all of it.
    pub fn write_to<const N: usize>(self, text: &mut TextBuf<N>) -> (r: Result<(), Full>)
        ensures
            final(text)@ == written(old(text)@, pieces(self.tenths() as int), N as nat),
            r is Ok <==> size(old(text)@ + shown(self.tenths() as int)) <= N,
    {
        let ghost all = pieces(self.tenths() as int);
        proof {
            reveal_strlit("-");
            reveal_strlit("");
            reveal_strlit(".");
            assert("-"@ =~= seq!['-']);
            assert(""@ =~= seq![]);
            assert("."@ =~= seq!['.']);
            lemma_pieces_make_the_reading(self.tenths() as int);
            lemma_next_piece(text@, all, N as nat);
        }
        let below_zero = self.0 < 0;
        let magnitude: u64 = if below_zero {
            (-(self.0 as i32)) as u64
        } else {
            self.0 as u64
        };
        // Whole degrees lose the sign between -0.9 and 0.0, so it is written on
        // its own.
        let sign = if below_zero {
            "-"
        } else {
            ""
        };
        text.write_str(sign)?;
        proof {
            lemma_next_piece(text@, all.skip(1), N as nat);
            assert(all.drop_first() =~= all.skip(1));
        }
        text.write_decimal(magnitude / 10)?;
        proof {
            lemma_next_piece(text@, all.skip(2), N as nat);
            assert(all.skip(1).drop_first() =~= all.skip(2));
        }
        text.write_str(".")?;
        proof {
            lemma_next_piece(text@, all.skip(3), N as nat);
            assert(all.skip(2).drop_first() =~= all.skip(3));
        }
        text.write_decimal(magnitude % 10)
    }

    /// The reading as it is shown, in degrees with one decimal place.
    #[must_use]
    pub fn to_text(self) -> (text: TextBuf<8>)
        ensures
            text@ == shown(self.tenths() as int),
    {
        let mut text = TextBuf::new();
        proof {
            let tenths = self.tenths() as int;
            let none = Seq::<char>::empty();
            law_reading_is_short(tenths);
            lemma_pieces_make_the_reading(tenths);
            assert(none + shown(tenths) =~= shown(tenths));
            law_pieces_that_fit_are_written(none, pieces(tenths), 8);
        }
        let _ = self.write_to(&mut text);
        text
    }
}

/// A reading is its tenths: two readings are equal if and only if their tenths
/// are.
pub proof fn law_readings_are_their_tenths(a: Celsius, b: Celsius)
    ensures
        a == b <==> a.tenths() == b.tenths(),
{
}

/// No reading takes more than seven characters, of one byte each, and one
/// between -99.9 and 999.9 takes no more than five.
pub proof fn law_reading_is_short(tenths: int)
    requires
        i16::MIN <= tenths <= i16::MAX,
    ensures
        size(shown(tenths)) == shown(tenths).len(),
        shown(tenths).len() <= 7,
        -999 <= tenths <= 9999 ==> shown(tenths).len() <= 5,
{
    let whole = magnitude(tenths) / 10;
    let tenth = magnitude(tenths) % 10;
    reveal_with_fuel(ten_to, 5);
    lemma_decimal_length(whole, 4);
    if magnitude(tenths) <= 9999 {
        lemma_decimal_length(whole, 3);
    }
    if magnitude(tenths) <= 999 {
        lemma_decimal_length(whole, 2);
    }
    lemma_decimal_length(tenth, 1);
    lemma_decimal_is_plain(whole);
    lemma_decimal_is_plain(tenth);
    vstd::utf8::is_ascii_chars_encode_utf8(shown(tenths));
}

/// A reading is shown with a minus sign if it is below zero, and only then: the
/// tenths just below zero do not lose it.
pub proof fn law_sign_is_shown(tenths: int)
    ensures
        shown(tenths)[0] == '-' <==> tenths < 0,
{
    lemma_decimal_starts_with_a_digit(magnitude(tenths) / 10);
}

/// No two readings look alike.
pub proof fn law_readings_look_different(a: int, b: int)
    requires
        shown(a) == shown(b),
    ensures
        a == b,
{
    let (wa, wb) = (magnitude(a) / 10, magnitude(b) / 10);
    law_sign_is_shown(a);
    law_sign_is_shown(b);
    let skip = sign(a).len() as int;
    let end = shown(a).len() as int;
    assert(decimal(magnitude(a) % 10)[0] == shown(a)[end - 1]);
    assert(decimal(magnitude(b) % 10)[0] == shown(b)[end - 1]);
    assert(decimal(wa) =~= shown(a).subrange(skip, end - 2));
    assert(decimal(wb) =~= shown(b).subrange(skip, end - 2));
    lemma_decimals_look_different(wa, wb);
}

/// What becomes of an attempt to read the sensor.
#[derive(Clone, Copy, PartialEq, Eq, Debug, Structural)]
pub enum Sampled {
    /// A reading, to be published in place of the one before.
    Publish(Celsius),
    /// Nothing new: the last good value is left on screen rather than blanked.
    Keep,
}

/// Decides what becomes of what the source was read as. A source that could not
/// be read is expected to recover, so that is no reason to stop sampling.
#[must_use]
pub fn sampled(read: Option<Celsius>) -> (outcome: Sampled)
    ensures
        outcome == match read {
            Some(reading) => Sampled::Publish(reading),
            None => Sampled::Keep,
        },
{
    match read {
        Some(reading) => Sampled::Publish(reading),
        None => Sampled::Keep,
    }
}

/// The reading that is on screen after `outcome`, if `latest` was before.
pub open spec fn latest_after(latest: Option<Celsius>, outcome: Sampled) -> Option<Celsius> {
    match outcome {
        Sampled::Publish(reading) => Some(reading),
        Sampled::Keep => latest,
    }
}

/// The reading that is on screen after `outcomes`, in order.
pub open spec fn latest_after_all(latest: Option<Celsius>, outcomes: Seq<Sampled>) -> Option<
    Celsius,
>
    decreases outcomes.len(),
{
    if outcomes.len() == 0 {
        latest
    } else {
        latest_after(latest_after_all(latest, outcomes.drop_last()), outcomes.last())
    }
}

/// The last good reading stays, however many attempts to read fail after it.
pub proof fn law_failed_reads_keep_the_last_good_one(
    latest: Option<Celsius>,
    outcomes: Seq<Sampled>,
    good: int,
)
    requires
        0 <= good < outcomes.len(),
        outcomes[good] is Publish,
        forall|i: int| good < i < outcomes.len() ==> outcomes[i] is Keep,
    ensures
        latest_after_all(latest, outcomes) == Some(outcomes[good]->0),
    decreases outcomes.len(),
{
    if good < outcomes.len() - 1 {
        law_failed_reads_keep_the_last_good_one(latest, outcomes.drop_last(), good);
    }
}

/// A reading is shown as what it is. Without sign and point the text is the
/// tenths, digit by digit: the one that has `e` digits behind it counts the
/// `e`-th power of ten, with no more digits than it takes and at least one on
/// either side of the point. The point stands before the last digit, and a minus
/// sign in front if the reading is below zero.
pub proof fn law_reading_shows_its_tenths(tenths: int)
    ensures
        ({
            let text = shown(tenths);
            let len = text.len();
            let distance = if tenths < 0 {
                -tenths
            } else {
                tenths
            };
            let lead: int = if tenths < 0 {
                1
            } else {
                0
            };
            let digits = text.subrange(lead, len - 2).push(text.last());
            let count = digits.len();
            &&& len >= lead + 3
            &&& tenths < 0 ==> text[0] == '-'
            &&& text[len - 2] == '.'
            &&& distance < pow(10, count)
            &&& count > 2 ==> distance >= pow(10, (count - 1) as nat)
            &&& forall|i: int|
                0 <= i < count ==> #[trigger] digits[i] as int == '0' as int + distance / pow(
                    10,
                    (count - 1 - i) as nat,
                ) % 10
        }),
{
    let text = shown(tenths);
    let len = text.len();
    let distance = magnitude(tenths);
    let lead = sign(tenths).len() as int;
    let whole = decimal(distance / 10);
    let tenth = decimal(distance % 10);
    let digits = text.subrange(lead, len - 2).push(text.last());
    let count = digits.len();
    reveal(pow);
    lemma_pow0(10);
    lemma_pow1(10);
    law_digits_stand_for_the_number(distance / 10);
    law_digits_stand_for_the_number(distance % 10);
    assert(tenth.len() == 1);
    assert(text.subrange(lead, len - 2) =~= whole);
    assert(text.last() == tenth[0]);
    assert(count == whole.len() + 1);
    assert(pow(10, count) == 10 * pow(10, (count - 1) as nat));
    if count > 2 {
        assert(pow(10, (count - 1) as nat) == 10 * pow(10, (count - 2) as nat));
    }
    assert forall|i: int| 0 <= i < count implies #[trigger] digits[i] as int == '0' as int
        + distance as int / pow(10, (count - 1 - i) as nat) % 10 by {
        let e = (count - 1 - i) as nat;
        if e == 0 {
            assert(distance as int / 1 == distance as int);
            assert((distance % 10) as int / 1 == distance % 10);
        } else {
            let p = pow(10, (e - 1) as nat);
            assert(digits[i] == whole[i]);
            assert(pow(10, e) == 10 * p);
            lemma_pow_positive(10, (e - 1) as nat);
            lemma_div_denominator(distance as int, 10, p);
        }
    }
}

/// A reading is written in four pieces: sign, whole degrees, point and a single
/// digit of tenths.
pub proof fn law_reading_is_written_in_four_pieces(tenths: int)
    ensures
        pieces(tenths).len() == 4,
        joined(pieces(tenths)) == shown(tenths),
        pieces(tenths)[0].len() == if tenths < 0 {
            1int
        } else {
            0
        },
        pieces(tenths)[2] == seq!['.'],
        pieces(tenths)[3].len() == 1,
{
    lemma_pieces_make_the_reading(tenths);
    reveal(pow);
    lemma_pow1(10);
    law_digits_stand_for_the_number(magnitude(tenths) % 10);
}

/// A published reading is on screen at once, and keeping leaves what was there.
pub proof fn law_latest_is_the_last_published(latest: Option<Celsius>, reading: Celsius)
    ensures
        latest_after(latest, Sampled::Publish(reading)) == Some(reading),
        latest_after(latest, Sampled::Keep) == latest,
        latest_after_all(latest, Seq::empty()) == latest,
{
}

} // verus!
