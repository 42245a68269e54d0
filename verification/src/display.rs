//! The boot splash and the status screen.
use vstd::prelude::*;
use vstd::utf8::encode_utf8;

use crate::screen::{
    all_within, inside_border, panel, pictures, tidy, Bird, Element, Font, Picture, Point,
    HEIGHT, WIDTH,
};
use crate::temperature::{
    law_reading_is_short, law_reading_shows_its_tenths, law_readings_are_their_tenths,
    law_readings_look_different, lemma_pieces_make_the_reading, magnitude, pieces, shown, Celsius,
};
use crate::text::{
    decimal, joined, law_pieces_that_fit_are_written, lemma_bytes_of_joined, lemma_decimal_is_plain,
    lemma_decimal_starts_with_a_digit, lemma_next_piece, size, written, Full, TextBuf,
};

verus! {

/// How often the panel is redrawn, in microseconds. Every redraw pushes the
/// whole 1 KiB frame over the bus, so this is the main cost of having a display
/// attached.
pub const PERIOD: u64 = 1_000_000;

/// How long the boot splash stays up before the status screen replaces it, in
/// microseconds.
pub const SPLASH_PERIOD: u64 = 2_000_000;

/// Framebuffer size: one bit per pixel over a 128x64 panel.
pub const BUFFER_BYTES_128X64: usize = 128 * 64 / 8;

/// I2C address of a stock SH1106 module. Boards with the SA0 jumper bridged
/// answer on `0x3D` instead.
pub const DEFAULT_ADDRESS: u8 = 0x3C;

/// SH1106 control byte that marks the following bytes as pixel data rather than
/// commands.
pub const DATA_BYTE: u8 = 0x40;

/// The two board-specific strings the screen puts up.
///
/// A struct rather than two `&str` arguments so they cannot be swapped by
/// accident.
#[derive(Clone, Copy, Debug)]
pub struct Labels {
    /// Short board or chip name for the boot splash, e.g. `"esp32-c3"`.
    pub board: &'static str,
    /// What the temperature describes, e.g. `"chip"`.
    pub source: &'static str,
}

/// What the boot splash looks like on a board called `board`: the hummingbird
/// the project is named after, with the names of project and board beside it.
pub open spec fn splash_shown(board: Seq<char>) -> Seq<Picture> {
    seq![
        Picture::Bird { bird: Bird::Large, at: Point { x: 4, y: 8 } },
        Picture::Text { text: "kolibri"@, font: Font::Small, at: Point { x: 76, y: 20 } },
        Picture::Text { text: board, font: Font::Small, at: Point { x: 76, y: 34 } },
    ]
}

/// The boot splash, for a board called `board`.
#[must_use]
pub fn splash(board: &str) -> (elements: [Element<'_>; 3])
    ensures
        pictures(elements@) == splash_shown(board@),
{
    let elements = [
        Element::Bird { bird: Bird::Large, at: Point { x: 4, y: 8 } },
        Element::Text { text: "kolibri", font: Font::Small, at: Point { x: 76, y: 20 } },
        Element::Text { text: board, font: Font::Small, at: Point { x: 76, y: 34 } },
    ];
    assert(pictures(elements@) =~= splash_shown(board@));
    elements
}

/// The unit behind a reading.
pub open spec fn unit() -> Seq<char> {
    seq![' ', '\u{b0}', 'C']
}

/// The large line of the status screen: the latest reading, or a placeholder
/// until there is one.
pub open spec fn value_shown(reading: Option<Celsius>) -> Seq<char> {
    match reading {
        Some(celsius) => shown(celsius.tenths() as int) + unit(),
        None => seq!['-', '-', '.', '-'] + unit(),
    }
}

/// The small line of the status screen, in the pieces it is written in.
pub open spec fn status_pieces(source: Seq<char>, uptime: nat) -> Seq<Seq<char>> {
    seq![source, seq![' ', ' ', 'u', 'p', ' '], decimal(uptime), seq![' ', 's']]
}

/// The small line of the status screen: what the reading describes, and for how
/// many seconds the firmware has been up. Pieces that do not fit in 24 bytes
/// are left out, and all that would follow them.
pub open spec fn status_shown(source: Seq<char>, uptime: nat) -> Seq<char> {
    written(seq![], status_pieces(source, uptime), 24)
}

/// The large line of the status screen.
#[must_use]
pub fn value_text(reading: Option<Celsius>) -> (text: TextBuf<16>)
    ensures
        text@ == value_shown(reading),
{
    let mut text = TextBuf::new();
    proof {
        lemma_value_fits(reading);
        reveal_strlit(" \u{b0}C");
        reveal_strlit("--.- \u{b0}C");
        assert(" \u{b0}C"@ =~= unit());
        assert("--.- \u{b0}C"@ =~= value_shown(None));
    }
    let _ = match reading {
        Some(celsius) => {
            let ghost tenths = celsius.tenths() as int;
            proof {
                law_pieces_that_fit_are_written(seq![], pieces(tenths), 16);
            }
            match celsius.write_to(&mut text) {
                Ok(_) => text.write_str(" \u{b0}C"),
                Err(e) => Err(e),
            }
        },
        None => text.write_str("--.- \u{b0}C"),
    };
    text
}

/// The large line always fits its buffer.
proof fn lemma_value_fits(reading: Option<Celsius>)
    ensures
        size(unit()) == 4,
        size(value_shown(reading)) <= 16,
        reading matches Some(celsius) ==> {
            let text = shown(celsius.tenths() as int);
            &&& joined(pieces(celsius.tenths() as int)) == text
            &&& Seq::<char>::empty() + text == text
            &&& size(text) <= 7
        },
{
    lemma_unit_takes_four_bytes();
    match reading {
        Some(celsius) => {
            let tenths = celsius.tenths() as int;
            law_reading_is_short(tenths);
            lemma_pieces_make_the_reading(tenths);
            lemma_bytes_of_joined(shown(tenths), unit());
            assert(Seq::<char>::empty() + shown(tenths) =~= shown(tenths));
        },
        None => {
            let dashes = seq!['-', '-', '.', '-'];
            vstd::utf8::is_ascii_chars_encode_utf8(dashes);
            lemma_bytes_of_joined(dashes, unit());
        },
    }
}

proof fn lemma_unit_takes_four_bytes()
    ensures
        size(unit()) == 4,
{
    reveal_with_fuel(encode_utf8, 4);
    let rest = unit().drop_first();
    assert(rest =~= seq!['\u{b0}', 'C']);
    assert(rest.drop_first() =~= seq!['C']);
    assert(rest.drop_first().drop_first() =~= seq![]);
}

/// The small line of the status screen.
#[must_use]
pub fn status_text(source: &str, uptime: u64) -> (text: TextBuf<24>)
    ensures
        text@ == status_shown(source@, uptime as nat),
{
    let mut text = TextBuf::new();
    let _ = write_status(&mut text, source, uptime);
    text
}

fn write_status(text: &mut TextBuf<24>, source: &str, uptime: u64) -> (r: Result<(), Full>)
    ensures
        final(text)@ == written(old(text)@, status_pieces(source@, uptime as nat), 24),
{
    let ghost all = status_pieces(source@, uptime as nat);
    proof {
        reveal_strlit("  up ");
        reveal_strlit(" s");
        assert("  up "@ =~= all[1]);
        assert(" s"@ =~= all[3]);
        lemma_next_piece(text@, all, 24);
    }
    text.write_str(source)?;
    proof {
        lemma_next_piece(text@, all.skip(1), 24);
        assert(all.drop_first() =~= all.skip(1));
    }
    text.write_str("  up ")?;
    proof {
        lemma_next_piece(text@, all.skip(2), 24);
        assert(all.skip(1).drop_first() =~= all.skip(2));
    }
    text.write_decimal(uptime)?;
    proof {
        lemma_next_piece(text@, all.skip(3), 24);
        assert(all.skip(2).drop_first() =~= all.skip(3));
    }
    text.write_str(" s")
}

/// What the status screen looks like, with these two lines: the border, the
/// small hummingbird, and the name of the project above them.
pub open spec fn status_screen_shown(value: Seq<char>, status: Seq<char>) -> Seq<Picture> {
    seq![
        Picture::Border { width: WIDTH as nat, height: HEIGHT as nat },
        Picture::Bird { bird: Bird::Small, at: Point { x: 86, y: 3 } },
        Picture::Text { text: "kolibri"@, font: Font::Small, at: Point { x: 5, y: 4 } },
        Picture::Text { text: value, font: Font::Large, at: Point { x: 5, y: 20 } },
        Picture::Text { text: status, font: Font::Small, at: Point { x: 5, y: 46 } },
    ]
}

/// What is on the status screen.
pub struct StatusScreen {
    /// The large line, with the reading.
    pub value: TextBuf<16>,
    /// The small line, with the source of the reading and the uptime.
    pub status: TextBuf<24>,
}

impl StatusScreen {
    /// The screen for the latest reading, if there is one, of `labels.source`,
    /// when the firmware has been up for `uptime` seconds.
    #[must_use]
    pub fn new(reading: Option<Celsius>, labels: Labels, uptime: u64) -> (screen: Self)
        ensures
            screen.value@ == value_shown(reading),
            screen.status@ == status_shown(labels.source@, uptime as nat),
    {
        StatusScreen { value: value_text(reading), status: status_text(labels.source, uptime) }
    }

    /// The elements to draw.
    ///
    /// Layout on the 128x64 panel, everything inside the 1 px border:
    ///
    /// - y 3..33, the bird, x 86..126
    /// - y 4..14, "kolibri"
    /// - y 20..40, the reading
    /// - y 46..56, source label and uptime
    #[must_use]
    pub fn elements(&self) -> (elements: [Element<'_>; 5])
        ensures
            pictures(elements@) == status_screen_shown(self.value@, self.status@),
    {
        let elements = [
            Element::Border { width: WIDTH, height: HEIGHT },
            Element::Bird { bird: Bird::Small, at: Point { x: 86, y: 3 } },
            Element::Text { text: "kolibri", font: Font::Small, at: Point { x: 5, y: 4 } },
            Element::Text {
                text: self.value.as_str(),
                font: Font::Large,
                at: Point { x: 5, y: 20 },
            },
            Element::Text {
                text: self.status.as_str(),
                font: Font::Small,
                at: Point { x: 5, y: 46 },
            },
        ];
        assert(pictures(elements@) =~= status_screen_shown(self.value@, self.status@));
        elements
    }
}

/// The boot splash fits the panel, and nothing in it overlaps, on every board
/// with a name of at most eight characters.
pub proof fn law_splash_fits_the_panel(board: Seq<char>)
    requires
        board.len() <= 8,
    ensures
        tidy(splash_shown(board)),
        all_within(splash_shown(board), panel()),
{
    reveal_strlit("kolibri");
}

/// The reading takes at most eight characters, so it stays clear of the bird,
/// from -99.9 to 999.9 degrees and while there is no reading at all. Nothing
/// else within the border ever overlaps.
pub proof fn law_reading_stays_clear_of_the_bird(
    reading: Option<Celsius>,
    source: Seq<char>,
    uptime: nat,
)
    requires
        reading matches Some(celsius) ==> -999 <= celsius.tenths() <= 9999,
    ensures
        value_shown(reading).len() <= 8,
        tidy(
            status_screen_shown(value_shown(reading), status_shown(source, uptime)).drop_first(),
        ),
{
    reveal_strlit("kolibri");
    if let Some(celsius) = reading {
        law_reading_is_short(celsius.tenths() as int);
    }
}

/// Everything on the status screen is inside the border, as long as the reading
/// is between -99.9 and 999.9 degrees and the small line has at most twenty
/// characters.
pub proof fn law_status_screen_fits_the_border(
    reading: Option<Celsius>,
    source: Seq<char>,
    uptime: nat,
)
    requires
        reading matches Some(celsius) ==> -999 <= celsius.tenths() <= 9999,
        source.len() + decimal(uptime).len() + 7 <= 20,
    ensures
        all_within(
            status_screen_shown(value_shown(reading), status_shown(source, uptime)).drop_first(),
            inside_border(),
        ),
{
    reveal_strlit("kolibri");
    law_reading_stays_clear_of_the_bird(reading, source, uptime);
    lemma_status_is_no_longer_than_its_pieces(source, uptime);
}

/// The small line is written in full whenever it fits in 24 bytes.
pub proof fn law_status_is_complete(source: Seq<char>, uptime: nat)
    requires
        size(source) + decimal(uptime).len() + 7 <= 24,
    ensures
        status_shown(source, uptime) == source + seq![' ', ' ', 'u', 'p', ' '] + decimal(uptime)
            + seq![' ', 's'],
{
    let all = status_pieces(source, uptime);
    let line = source + all[1] + all[2] + all[3];
    reveal_with_fuel(joined, 5);
    assert(Seq::<char>::empty() + joined(all) =~= line);
    lemma_decimal_is_plain(uptime);
    vstd::utf8::is_ascii_chars_encode_utf8(all[1]);
    vstd::utf8::is_ascii_chars_encode_utf8(all[3]);
    lemma_bytes_of_joined(source, all[1]);
    lemma_bytes_of_joined(source + all[1], all[2]);
    lemma_bytes_of_joined(source + all[1] + all[2], all[3]);
    law_pieces_that_fit_are_written(seq![], all, 24);
}

proof fn lemma_status_is_no_longer_than_its_pieces(source: Seq<char>, uptime: nat)
    ensures
        status_shown(source, uptime).len() <= source.len() + decimal(uptime).len() + 7,
{
    reveal_with_fuel(written, 5);
    let all = status_pieces(source, uptime);
    assert(all.drop_first() =~= all.skip(1));
    assert(all.skip(1).drop_first() =~= all.skip(2));
    assert(all.skip(2).drop_first() =~= all.skip(3));
    assert(all.skip(3).drop_first() =~= all.skip(4));
}

/// The large line is the reading as it is shown, with its unit behind it. It is
/// the placeholder only while there is no reading, and looks different for
/// different readings.
pub proof fn law_large_line_shows_the_reading(a: Celsius, b: Celsius)
    ensures
        value_shown(Some(a)) == shown(a.tenths() as int) + seq![' ', '\u{b0}', 'C'],
        value_shown(None) == seq!['-', '-', '.', '-', ' ', '\u{b0}', 'C'],
        value_shown(Some(a)) != value_shown(None),
        value_shown(Some(a)) == value_shown(Some(b)) ==> a == b,
{
    let tenths = a.tenths() as int;
    let degrees = seq![' ', '\u{b0}', 'C'];
    let (la, lb) = (value_shown(Some(a)), value_shown(Some(b)));
    assert(unit() =~= degrees);
    assert(value_shown(None) =~= seq!['-', '-', '.', '-', ' ', '\u{b0}', 'C']);
    law_reading_shows_its_tenths(tenths);
    lemma_reading_ends_in_a_digit(tenths);
    assert(la[la.len() - 4] == shown(tenths).last());
    assert(value_shown(None)[3] == '-');
    if la == lb {
        assert(shown(tenths) =~= la.take(la.len() - 3));
        assert(shown(b.tenths() as int) =~= lb.take(lb.len() - 3));
        law_readings_look_different(tenths, b.tenths() as int);
        law_readings_are_their_tenths(a, b);
    }
}

proof fn lemma_reading_ends_in_a_digit(tenths: int)
    ensures
        shown(tenths).len() >= 3,
        shown(tenths).last() != '-',
{
    lemma_decimal_starts_with_a_digit(magnitude(tenths) % 10);
    reveal_with_fuel(decimal, 1);
    lemma_decimal_is_plain(magnitude(tenths) / 10);
}

/// The small line is cut only between its pieces, where the next one would go
/// beyond 24 bytes: behind the source, behind "up", or behind the seconds.
pub proof fn law_small_line_is_cut_between_pieces(source: Seq<char>, uptime: nat)
    ensures
        ({
            let line = status_shown(source, uptime);
            let up = seq![' ', ' ', 'u', 'p', ' '];
            let bytes = size(source);
            let digits = decimal(uptime).len();
            if bytes > 24 {
                line == Seq::<char>::empty()
            } else if bytes + 5 > 24 {
                line == source
            } else if bytes + 5 + digits > 24 {
                line == source + up
            } else if bytes + 5 + digits + 2 > 24 {
                line == source + up + decimal(uptime)
            } else {
                line == source + up + decimal(uptime) + seq![' ', 's']
            }
        }),
{
    let all = status_pieces(source, uptime);
    let none = Seq::<char>::empty();
    reveal_with_fuel(written, 5);
    lemma_decimal_is_plain(uptime);
    vstd::utf8::is_ascii_chars_encode_utf8(none);
    vstd::utf8::is_ascii_chars_encode_utf8(all[1]);
    vstd::utf8::is_ascii_chars_encode_utf8(all[3]);
    assert(all.drop_first() =~= all.skip(1));
    assert(all.skip(1).drop_first() =~= all.skip(2));
    assert(all.skip(2).drop_first() =~= all.skip(3));
    assert(all.skip(3).drop_first() =~= all.skip(4));
    assert(none + source =~= source);
    lemma_bytes_of_joined(source, all[1]);
    lemma_bytes_of_joined(source + all[1], all[2]);
}

/// The splash puts up the large bird and beside it, below one another and in the
/// small font, the name of the project and that of the board, whatever it is.
pub proof fn law_splash_names_the_board(board: Seq<char>)
    ensures
        splash_shown(board).len() == 3,
        splash_shown(board)[0] matches Picture::Bird { bird, at } && bird is Large && at.x == 4
            && at.y == 8,
        splash_shown(board)[1] matches Picture::Text { text, font, at } && text == seq![
            'k',
            'o',
            'l',
            'i',
            'b',
            'r',
            'i',
        ] && font is Small && at.x == 76 && at.y == 20,
        splash_shown(board)[2] matches Picture::Text { text, font, at } && text == board
            && font is Small && at.x == 76 && at.y == 34,
{
    reveal_strlit("kolibri");
    assert("kolibri"@ =~= seq!['k', 'o', 'l', 'i', 'b', 'r', 'i']);
}

/// The status screen puts up its border, the small bird in the right top corner,
/// the name of the project, the large line in the large font and the small line
/// in the small one, whatever they say.
pub proof fn law_status_screen_puts_up_both_lines(value: Seq<char>, status: Seq<char>)
    ensures
        ({
            let drawn = status_screen_shown(value, status);
            &&& drawn.len() == 5
            &&& drawn[0] matches Picture::Border { width, height } && width == 128 && height == 64
            &&& drawn[1] matches Picture::Bird { bird, at } && bird is Small && at.x == 86 && at.y
                == 3
            &&& drawn[2] matches Picture::Text { text, font, at } && text == seq![
                'k',
                'o',
                'l',
                'i',
                'b',
                'r',
                'i',
            ] && font is Small && at.x == 5 && at.y == 4
            &&& drawn[3] matches Picture::Text { text, font, at } && text == value && font is Large
                && at.x == 5 && at.y == 20
            &&& drawn[4] matches Picture::Text { text, font, at } && text == status && font is Small
                && at.x == 5 && at.y == 46
        }),
{
    reveal_strlit("kolibri");
    assert("kolibri"@ =~= seq!['k', 'o', 'l', 'i', 'b', 'r', 'i']);
}

} // verus!
