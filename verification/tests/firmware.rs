//! Text, readings, screens and the blinking of the LED.
use kolibri::blink::{self, as_millis, state_name, Blinker, Reaction, Wake};
use kolibri::blinky::{line_text, period_to_show, rate_text, RateScreen};
use kolibri::display::{self, splash, status_text, value_text, Labels, StatusScreen};
use kolibri::heartbeat::{self, Heartbeat};
use kolibri::screen::{next, next_element, Bird, Drawing, Element, Font, Outcome, Point, Step};
use kolibri::temperature::{sampled, Celsius, Sampled};
use kolibri::text::{Full, TextBuf};

#[test]
fn a_buffer_takes_a_piece_whole_or_not_at_all() {
    let mut text = TextBuf::<8>::new();
    assert_eq!(text.as_str(), "");
    assert_eq!(text.write_str("12345"), Ok(()));
    assert_eq!(text.write_str("6789"), Err(Full));
    assert_eq!(text.as_str(), "12345");
    assert_eq!(text.write_str("678"), Ok(()));
    assert_eq!(text.as_str(), "12345678");
    assert_eq!(text.write_str(""), Ok(()));
    assert_eq!(text.write_str("9"), Err(Full));
    assert_eq!(text.as_str(), "12345678");
}

#[test]
fn room_is_counted_in_bytes() {
    let mut text = TextBuf::<4>::default();
    assert_eq!(text.write_str("\u{b0}"), Ok(()));
    assert_eq!(text.write_str("\u{20ac}"), Err(Full));
    assert_eq!(text.write_str("\u{b0}"), Ok(()));
    assert_eq!(text.as_str(), "\u{b0}\u{b0}");
}

#[test]
fn a_buffer_without_room_holds_nothing() {
    let mut text = TextBuf::<0>::new();
    assert_eq!(text.write_str(""), Ok(()));
    assert_eq!(text.write_str("a"), Err(Full));
    assert_eq!(text.as_str(), "");
}

#[test]
fn numbers_are_written_in_decimal() {
    for n in [0u64, 7, 10, 100, 1234567890, u64::MAX - 1, u64::MAX] {
        let mut text = TextBuf::<20>::new();
        assert_eq!(text.write_decimal(n), Ok(()));
        assert_eq!(text.as_str(), n.to_string());
    }
    let mut text = TextBuf::<2>::new();
    assert_eq!(text.write_decimal(100), Err(Full));
    assert_eq!(text.as_str(), "");
}

fn shown(tenths: i16) -> String {
    Celsius::from_tenths(tenths).to_text().as_str().to_string()
}

#[test]
fn a_reading_is_shown_in_degrees() {
    assert_eq!(shown(417), "41.7");
    assert_eq!(shown(0), "0.0");
    assert_eq!(shown(9), "0.9");
    assert_eq!(shown(-123), "-12.3");
    assert_eq!(shown(i16::MAX), "3276.7");
    assert_eq!(shown(i16::MIN), "-3276.8");
}

#[test]
fn a_reading_just_below_zero_keeps_its_sign() {
    assert_eq!(shown(-1), "-0.1");
    assert_eq!(shown(-5), "-0.5");
    assert_eq!(shown(-9), "-0.9");
    assert_eq!(shown(-10), "-1.0");
}

#[test]
fn every_reading_looks_different_and_short() {
    let mut seen = std::collections::HashSet::new();
    for tenths in i16::MIN..=i16::MAX {
        let text = shown(tenths);
        assert!(text.len() <= 7);
        assert_eq!(text.starts_with('-'), tenths < 0);
        assert!(seen.insert(text));
    }
}

#[test]
fn tenths_are_kept() {
    assert_eq!(Celsius::from_tenths(417).tenths(), 417);
    assert_eq!(Celsius::from_tenths(-1), Celsius::from_tenths(-1));
    assert_ne!(Celsius::from_tenths(-1), Celsius::from_tenths(1));
}

#[test]
fn a_reading_that_does_not_fit_stops_at_the_piece() {
    let mut text = TextBuf::<4>::new();
    assert_eq!(Celsius::from_tenths(-123).write_to(&mut text), Err(Full));
    assert_eq!(text.as_str(), "-12.");
    let mut text = TextBuf::<5>::new();
    assert_eq!(Celsius::from_tenths(-123).write_to(&mut text), Ok(()));
    assert_eq!(text.as_str(), "-12.3");
}

#[test]
fn a_failed_read_keeps_the_last_good_value() {
    let mut latest = None;
    let reads = [
        None,
        Some(Celsius::from_tenths(417)),
        None,
        None,
    ];
    for read in reads {
        if let Sampled::Publish(reading) = sampled(read) {
            latest = Some(reading);
        }
    }
    assert_eq!(latest, Some(Celsius::from_tenths(417)));
    assert_eq!(sampled(None), Sampled::Keep);
}

#[test]
fn the_large_line_shows_the_reading_or_a_placeholder() {
    assert_eq!(value_text(Some(Celsius::from_tenths(417))).as_str(), "41.7 \u{b0}C");
    assert_eq!(value_text(Some(Celsius::from_tenths(i16::MIN))).as_str(), "-3276.8 \u{b0}C");
    assert_eq!(value_text(None).as_str(), "--.- \u{b0}C");
    for tenths in -999..=9999 {
        let text = value_text(Some(Celsius::from_tenths(tenths)));
        assert!(text.as_str().chars().count() <= 8);
    }
}

#[test]
fn the_small_line_shows_source_and_uptime() {
    assert_eq!(status_text("chip", 5).as_str(), "chip  up 5 s");
    assert_eq!(status_text("chip", 12345).as_str(), "chip  up 12345 s");
    // 24 bytes are all there is room for.
    assert_eq!(status_text("sixteen letters.", 1).as_str(), "sixteen letters.  up 1 s");
    assert_eq!(status_text("sixteen letters.", 12).as_str(), "sixteen letters.  up 12");
    assert_eq!(status_text("sixteen letters.", 1234).as_str(), "sixteen letters.  up ");
    assert_eq!(status_text("this has twenty chars", 1).as_str(), "this has twenty chars");
    assert_eq!(status_text("a name that is far too long for it", 1).as_str(), "");
}

const LABELS: Labels = Labels {
    board: "esp32-c3",
    source: "chip",
};

fn texts<'a>(elements: &[Element<'a>]) -> Vec<(&'a str, Font, Point)> {
    let mut found = Vec::new();
    for element in elements {
        if let Element::Text { text, font, at } = *element {
            found.push((text, font, at));
        }
    }
    found
}

/// Left, top, right and bottom of an element.
fn area(element: &Element<'_>) -> (i32, i32, i32, i32) {
    match *element {
        Element::Border { width, height } => (0, 0, width as i32, height as i32),
        Element::Bird { bird, at } => {
            let (width, height) = match bird {
                Bird::Large => (64, 48),
                Bird::Small => (40, 30),
            };
            (at.x, at.y, at.x + width, at.y + height)
        }
        Element::Text { text, font, at } => {
            let count = text.chars().count() as i32;
            let (width, height) = match font {
                Font::Small => (6 * count, 10),
                Font::Large => (10 * count, 20),
            };
            (at.x, at.y, at.x + width, at.y + height)
        }
    }
}

fn overlap(one: &Element<'_>, two: &Element<'_>) -> bool {
    let (a, b) = (area(one), area(two));
    a.0 < b.2 && b.0 < a.2 && a.1 < b.3 && b.1 < a.3
}

#[test]
fn the_splash_shows_the_bird_and_two_names() {
    let elements = splash("esp32-c3");
    assert!(matches!(
        elements[0],
        Element::Bird {
            bird: Bird::Large,
            at: Point { x: 4, y: 8 }
        }
    ));
    assert_eq!(
        texts(&elements),
        vec![
            ("kolibri", Font::Small, Point { x: 76, y: 20 }),
            ("esp32-c3", Font::Small, Point { x: 76, y: 34 }),
        ]
    );
    for i in 0..3 {
        let (left, top, right, bottom) = area(&elements[i]);
        assert!(left >= 0 && top >= 0 && right <= 128 && bottom <= 64);
        for j in 0..i {
            assert!(!overlap(&elements[i], &elements[j]));
        }
    }
}

#[test]
fn the_status_screen_is_laid_out_inside_its_border() {
    for reading in [None, Some(Celsius::from_tenths(-999)), Some(Celsius::from_tenths(9999))] {
        let screen = StatusScreen::new(reading, LABELS, 86_400);
        let elements = screen.elements();
        assert!(matches!(
            elements[0],
            Element::Border {
                width: 128,
                height: 64
            }
        ));
        assert!(matches!(
            elements[1],
            Element::Bird {
                bird: Bird::Small,
                at: Point { x: 86, y: 3 }
            }
        ));
        assert_eq!(
            texts(&elements),
            vec![
                ("kolibri", Font::Small, Point { x: 5, y: 4 }),
                (value_text(reading).as_str(), Font::Large, Point { x: 5, y: 20 }),
                ("chip  up 86400 s", Font::Small, Point { x: 5, y: 46 }),
            ]
        );
        for i in 1..5 {
            let (left, top, right, bottom) = area(&elements[i]);
            assert!(left >= 1 && top >= 1 && right <= 127 && bottom <= 63);
            for j in 1..i {
                assert!(!overlap(&elements[i], &elements[j]));
            }
        }
    }
}

#[test]
fn the_rate_screen_shows_uptime_and_rate() {
    let screen = RateScreen::new(42, blink::PERIOD);
    let elements = screen.elements();
    assert!(matches!(
        elements[1],
        Element::Bird {
            bird: Bird::Small,
            at: Point { x: 84, y: 6 }
        }
    ));
    assert_eq!(
        texts(&elements),
        vec![
            ("kolibri", Font::Small, Point { x: 6, y: 6 }),
            ("up 42 s", Font::Small, Point { x: 6, y: 24 }),
            ("blink 500 ms", Font::Small, Point { x: 6, y: 38 }),
        ]
    );
    assert_eq!(area(&elements[4]).2, 78);
    for i in 1..5 {
        for j in 1..i {
            assert!(!overlap(&elements[i], &elements[j]));
        }
    }
    assert_eq!(rate_text(blink::PERIOD_FAST).as_str(), "blink 100 ms");
    assert_eq!(rate_text(999).as_str(), "blink 0 ms");
    assert_eq!(rate_text(u64::MAX).as_str(), "blink 18446744073709551");
    assert_eq!(line_text(u64::MAX).as_str(), "up 18446744073709551615");
    assert_eq!(period_to_show(500_000, Wake::Tick), 500_000);
    assert_eq!(period_to_show(500_000, Wake::Request(100_000)), 100_000);
}

#[test]
fn a_panel_that_cannot_be_brought_up_is_given_up() {
    assert_eq!(next(Step::Init, Outcome::Failed), Step::Stop);
    assert_eq!(next(Step::Stop, Outcome::Done), Step::Stop);
}

#[test]
fn a_panel_goes_through_the_splash_to_the_status_screen() {
    let mut step = Step::Init;
    let expected = [
        Step::DrawSplash,
        Step::FlushSplash,
        Step::HoldSplash,
        Step::StartClock,
        Step::Await,
        Step::DrawStatus,
        Step::FlushStatus,
        Step::Await,
    ];
    for following in expected {
        step = next(step, Outcome::Done);
        assert_eq!(step, following);
    }
}

#[test]
fn a_failed_splash_or_frame_is_skipped() {
    assert_eq!(next(Step::DrawSplash, Outcome::Failed), Step::StartClock);
    assert_eq!(next(Step::FlushSplash, Outcome::Failed), Step::StartClock);
    assert_eq!(next(Step::DrawStatus, Outcome::Failed), Step::Await);
    assert_eq!(next(Step::FlushStatus, Outcome::Failed), Step::Await);
}

#[test]
fn a_new_period_retunes_the_led_at_once() {
    let mut blinker = Blinker::new();
    assert_eq!(blinker.wake(Wake::Tick), Reaction::Toggle);
    assert_eq!(blinker.wake(Wake::Request(500_000)), Reaction::Wait);
    assert_eq!(blinker.wake(Wake::Request(100_000)), Reaction::Retune(100_000));
    assert_eq!(blinker.wake(Wake::Request(100_000)), Reaction::Wait);
    assert_eq!(blinker.wake(Wake::Tick), Reaction::Toggle);
    assert_eq!(blinker.period, 100_000);
    assert_eq!(Blinker::default(), Blinker::new());
}

#[test]
fn every_beat_retunes_the_led() {
    let mut heartbeat = Heartbeat::default();
    let mut blinker = Blinker::new();
    for beat in 1..=6 {
        let period = heartbeat.beat();
        assert_eq!(period, if beat % 2 == 1 { 100_000 } else { 500_000 });
        assert_eq!(blinker.wake(Wake::Request(period)), Reaction::Retune(period));
    }
}

#[test]
fn an_led_that_cannot_be_read_is_taken_to_be_off() {
    assert_eq!(state_name(Some(true)), "on");
    assert_eq!(state_name(Some(false)), "off");
    assert_eq!(state_name(None), "off");
}

#[test]
fn the_firmware_keeps_its_timings() {
    assert_eq!(as_millis(blink::PERIOD), 500);
    assert_eq!(as_millis(blink::PERIOD_FAST), 100);
    assert_eq!(as_millis(1_999), 1);
    assert_eq!(heartbeat::PERIOD, 5_000_000);
    assert_eq!(display::PERIOD, 1_000_000);
    assert_eq!(display::SPLASH_PERIOD, 2_000_000);
    assert_eq!(kolibri::temperature::PERIOD, 2_000_000);
    assert_eq!(display::BUFFER_BYTES_128X64, 1024);
    assert_eq!(display::DEFAULT_ADDRESS, 0x3C);
    assert_eq!(display::DATA_BYTE, 0x40);
}

#[test]
fn the_first_element_that_fails_ends_the_frame() {
    assert_eq!(next_element(0, 3, Outcome::Done), Drawing::Element(1));
    assert_eq!(next_element(1, 3, Outcome::Done), Drawing::Element(2));
    assert_eq!(next_element(2, 3, Outcome::Done), Drawing::Over(Outcome::Done));
    for drawn in 0..3 {
        assert_eq!(
            next_element(drawn, 3, Outcome::Failed),
            Drawing::Over(Outcome::Failed)
        );
    }
}
