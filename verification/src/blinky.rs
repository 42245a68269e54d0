//! The status screen of a board without a sensor: uptime and blink rate.
use vstd::prelude::*;
use vstd::utf8::is_ascii_chars;

use crate::blink::{as_millis, period_after, Wake};
use crate::screen::{pictures, tidy, area, Bird, Element, Font, Picture, Point, HEIGHT, WIDTH};
use crate::text::{
    decimal, lemma_bytes_of_joined, lemma_decimal_is_plain, lemma_decimal_length, lemma_next_piece, ten_to, written, Full, TextBuf,
};

verus! {

/// The name of the board on the boot splash.
pub const BOARD: &'static str = "esp32-c3";

/// Decides which blink period to show once woken. The screen is drawn afresh
/// either way, so a new period shows the moment it is asked for rather than
/// when the next redraw is due.
#[must_use]
pub fn period_to_show(period: u64, wake: Wake) -> (shown: u64)
    ensures
        shown == period_after(period, wake),
{
    match wake {
        Wake::Tick => period,
        Wake::Request(asked) => asked,
    }
}

/// The line with the uptime, in the pieces it is written in.
pub open spec fn line_pieces(uptime: nat) -> Seq<Seq<char>> {
    seq![seq!['u', 'p', ' '], decimal(uptime), seq![' ', 's']]
}

/// The line with the blink rate, in the pieces it is written in.
pub open spec fn rate_pieces(millis: nat) -> Seq<Seq<char>> {
    seq![seq!['b', 'l', 'i', 'n', 'k', ' '], decimal(millis), seq![' ', 'm', 's']]
}

/// The line with the uptime. Pieces that do not fit in 24 bytes are left out,
/// and all that would follow them.
pub open spec fn line_shown(uptime: nat) -> Seq<char> {
    written(seq![], line_pieces(uptime), 24)
}

/// The line with the blink rate for a period in microseconds. Pieces that do
/// not fit in 24 bytes are left out, and all that would follow them.
pub open spec fn rate_shown(period: nat) -> Seq<char> {
    written(seq![], rate_pieces(period / 1000), 24)
}

fn write_number(text: &mut TextBuf<24>, before: &str, number: u64, after: &str) -> (r: Result<
    (),
    Full,
>)
    ensures
        final(text)@ == written(
            old(text)@,
            seq![before@, decimal(number as nat), after@],
            24,
        ),
{
    let ghost all = seq![before@, decimal(number as nat), after@];
    proof {
        lemma_next_piece(text@, all, 24);
    }
    text.write_str(before)?;
    proof {
        lemma_next_piece(text@, all.skip(1), 24);
        assert(all.drop_first() =~= all.skip(1));
    }
    text.write_decimal(number)?;
    proof {
        lemma_next_piece(text@, all.skip(2), 24);
        assert(all.skip(1).drop_first() =~= all.skip(2));
    }
    text.write_str(after)
}

/// The line with the uptime, in seconds.
#[must_use]
pub fn line_text(uptime: u64) -> (text: TextBuf<24>)
    ensures
        text@ == line_shown(uptime as nat),
{
    proof {
        reveal_strlit("up ");
        reveal_strlit(" s");
        assert("up "@ =~= seq!['u', 'p', ' ']);
        assert(" s"@ =~= seq![' ', 's']);
    }
    let mut text = TextBuf::new();
    let _ = write_number(&mut text, "up ", uptime, " s");
    text
}

/// The line with the blink rate, for a period in microseconds.
#[must_use]
pub fn rate_text(period: u64) -> (text: TextBuf<24>)
    ensures
        text@ == rate_shown(period as nat),
{
    proof {
        reveal_strlit("blink ");
        reveal_strlit(" ms");
        assert("blink "@ =~= seq!['b', 'l', 'i', 'n', 'k', ' ']);
        assert(" ms"@ =~= seq![' ', 'm', 's']);
    }
    let mut text = TextBuf::new();
    let _ = write_number(&mut text, "blink ", as_millis(period), " ms");
    text
}

/// What the screen looks like, with these two lines.
pub open spec fn rate_screen_shown(line: Seq<char>, rate: Seq<char>) -> Seq<Picture> {
    seq![
        Picture::Border { width: WIDTH as nat, height: HEIGHT as nat },
        Picture::Bird { bird: Bird::Small, at: Point { x: 84, y: 6 } },
        Picture::Text { text: "kolibri"@, font: Font::Small, at: Point { x: 6, y: 6 } },
        Picture::Text { text: line, font: Font::Small, at: Point { x: 6, y: 24 } },
        Picture::Text { text: rate, font: Font::Small, at: Point { x: 6, y: 38 } },
    ]
}

/// What is on the screen.
pub struct RateScreen {
    /// The line with the uptime.
    pub line: TextBuf<24>,
    /// The line with the blink rate.
    pub rate: TextBuf<24>,
}

impl RateScreen {
    /// The screen when the firmware has been up for `uptime` seconds and the
    /// LED blinks at `period` microseconds.
    #[must_use]
    pub fn new(uptime: u64, period: u64) -> (screen: Self)
        ensures
            screen.line@ == line_shown(uptime as nat),
            screen.rate@ == rate_shown(period as nat),
    {
        RateScreen { line: line_text(uptime), rate: rate_text(period) }
    }

    /// The elements to draw.
    #[must_use]
    pub fn elements(&self) -> (elements: [Element<'_>; 5])
        ensures
            pictures(elements@) == rate_screen_shown(self.line@, self.rate@),
    {
        let elements = [
            Element::Border { width: WIDTH, height: HEIGHT },
            // Top right, clear of the widest line the text below can grow to.
            Element::Bird { bird: Bird::Small, at: Point { x: 84, y: 6 } },
            Element::Text { text: "kolibri", font: Font::Small, at: Point { x: 6, y: 6 } },
            Element::Text {
                text: self.line.as_str(),
                font: Font::Small,
                at: Point { x: 6, y: 24 },
            },
            Element::Text {
                text: self.rate.as_str(),
                font: Font::Small,
                at: Point { x: 6, y: 38 },
            },
        ];
        assert(pictures(elements@) =~= rate_screen_shown(self.line@, self.rate@));
        elements
    }
}

/// The text stays clear of the bird for the first three years, and the blink
/// rate ends before it for every period under a second.
pub proof fn law_text_stays_clear_of_the_bird(uptime: nat, period: nat)
    requires
        uptime < 100_000_000,
    ensures
        tidy(rate_screen_shown(line_shown(uptime), rate_shown(period)).drop_first()),
        period < 1_000_000 ==> area(
            rate_screen_shown(line_shown(uptime), rate_shown(period))[4],
        ).right <= 78,
{
    reveal_strlit("kolibri");
    reveal_with_fuel(ten_to, 9);
    lemma_decimal_length(uptime, 8);
    lemma_no_longer_than_three_pieces(line_pieces(uptime));
    lemma_no_longer_than_three_pieces(rate_pieces(period / 1000));
    if period < 1_000_000 {
        lemma_decimal_length(period / 1000, 3);
    }
}

proof fn lemma_no_longer_than_three_pieces(pieces: Seq<Seq<char>>)
    requires
        pieces.len() == 3,
    ensures
        written(seq![], pieces, 24).len() <= pieces[0].len() + pieces[1].len() + pieces[2].len(),
{
    reveal_with_fuel(written, 4);
    assert(pieces.drop_first() =~= pieces.skip(1));
    assert(pieces.skip(1).drop_first() =~= pieces.skip(2));
    assert(pieces.skip(2).drop_first() =~= pieces.skip(3));
}

/// The line with the uptime says how many seconds it is, and the line with the
/// rate how many whole milliseconds there are in the period. They are cut only
/// between their pieces, where the next one would go beyond 24 bytes: behind the
/// word, or behind the number.
pub proof fn law_lines_are_about_uptime_and_rate(uptime: nat, period: nat)
    ensures
        ({
            let line = line_shown(uptime);
            let up = seq!['u', 'p', ' '];
            let digits = decimal(uptime).len();
            if 3 + digits + 2 <= 24 {
                line == up + decimal(uptime) + seq![' ', 's']
            } else if 3 + digits <= 24 {
                line == up + decimal(uptime)
            } else {
                line == up
            }
        }),
        ({
            let rate = rate_shown(period);
            let blink = seq!['b', 'l', 'i', 'n', 'k', ' '];
            let millis = decimal(period / 1000);
            if 6 + millis.len() + 3 <= 24 {
                rate == blink + millis + seq![' ', 'm', 's']
            } else if 6 + millis.len() <= 24 {
                rate == blink + millis
            } else {
                rate == blink
            }
        }),
{
    lemma_three_plain_pieces(line_pieces(uptime), uptime);
    lemma_three_plain_pieces(rate_pieces(period / 1000), period / 1000);
}

proof fn lemma_three_plain_pieces(pieces: Seq<Seq<char>>, n: nat)
    requires
        pieces.len() == 3,
        is_ascii_chars(pieces[0]),
        pieces[0].len() <= 24,
        pieces[1] == decimal(n),
        is_ascii_chars(pieces[2]),
    ensures
        written(seq![], pieces, 24) == if pieces[0].len() + pieces[1].len() > 24 {
            pieces[0]
        } else if pieces[0].len() + pieces[1].len() + pieces[2].len() > 24 {
            pieces[0] + pieces[1]
        } else {
            pieces[0] + pieces[1] + pieces[2]
        },
{
    let none = Seq::<char>::empty();
    reveal_with_fuel(written, 4);
    lemma_decimal_is_plain(n);
    vstd::utf8::is_ascii_chars_encode_utf8(none);
    vstd::utf8::is_ascii_chars_encode_utf8(pieces[0]);
    vstd::utf8::is_ascii_chars_encode_utf8(pieces[2]);
    assert(pieces.drop_first() =~= pieces.skip(1));
    assert(pieces.skip(1).drop_first() =~= pieces.skip(2));
    assert(pieces.skip(2).drop_first() =~= pieces.skip(3));
    assert(none + pieces[0] =~= pieces[0]);
    lemma_bytes_of_joined(pieces[0], pieces[1]);
}

/// The screen puts up its border, the small bird in the right top corner, the
/// name of the project and below it both lines, in the small font, whatever they
/// say.
pub proof fn law_rate_screen_puts_up_both_lines(line: Seq<char>, rate: Seq<char>)
    ensures
        ({
            let drawn = rate_screen_shown(line, rate);
            &&& drawn.len() == 5
            &&& drawn[0] matches Picture::Border { width, height } && width == 128 && height == 64
            &&& drawn[1] matches Picture::Bird { bird, at } && bird is Small && at.x == 84 && at.y
                == 6
            &&& drawn[2] matches Picture::Text { text, font, at } && text == seq![
                'k',
                'o',
                'l',
                'i',
                'b',
                'r',
                'i',
            ] && font is Small && at.x == 6 && at.y == 6
            &&& drawn[3] matches Picture::Text { text, font, at } && text == line && font is Small
                && at.x == 6 && at.y == 24
            &&& drawn[4] matches Picture::Text { text, font, at } && text == rate && font is Small
                && at.x == 6 && at.y == 38
        }),
{
    reveal_strlit("kolibri");
    assert("kolibri"@ =~= seq!['k', 'o', 'l', 'i', 'b', 'r', 'i']);
}

} // verus!
