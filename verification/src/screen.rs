//! What is drawn on a 128x64 panel, and in what order a panel is served.
//!
//! A frame is a list of [`Element`]s, drawn in order. [`next`] is the order of
//! events in a panel's life: what to do next, given how the last thing went.
use vstd::prelude::*;

verus! {

/// Width of the panel, in pixels.
pub const WIDTH: u32 = 128;

/// Height of the panel, in pixels.
pub const HEIGHT: u32 = 64;

/// A pixel on the panel. The origin is the top left corner.
#[derive(Clone, Copy, PartialEq, Eq, Debug, Structural)]
pub struct Point {
    /// Pixels from the left edge.
    pub x: i32,
    /// Pixels from the top edge.
    pub y: i32,
}

/// The hummingbird, in the two sizes it is drawn in.
#[derive(Clone, Copy, PartialEq, Eq, Debug, Structural)]
pub enum Bird {
    /// 64x48, for the boot splash.
    Large,
    /// 40x30, for the corner of a status screen.
    Small,
}

/// The fonts that text is set in. Every glyph of a font is equally wide.
#[derive(Clone, Copy, PartialEq, Eq, Debug, Structural)]
pub enum Font {
    /// 6x10, ASCII.
    Small,
    /// 10x20, ISO 8859-1, so that the degree sign is a real glyph.
    Large,
}

/// Something to draw.
#[derive(Clone, Copy, Debug)]
pub enum Element<'a> {
    /// A rectangle one pixel wide, its top left corner in the origin.
    Border {
        /// Width of the rectangle.
        width: u32,
        /// Height of the rectangle.
        height: u32,
    },
    /// The hummingbird.
    Bird {
        /// How large it is drawn.
        bird: Bird,
        /// Its top left corner.
        at: Point,
    },
    /// A line of text.
    Text {
        /// What it says.
        text: &'a str,
        /// What it is set in.
        font: Font,
        /// Its top left corner.
        at: Point,
    },
}

/// What an [`Element`] looks like.
pub ghost enum Picture {
    /// A rectangle one pixel wide, its top left corner in the origin.
    Border { width: nat, height: nat },
    /// The hummingbird.
    Bird { bird: Bird, at: Point },
    /// A line of text.
    Text { text: Seq<char>, font: Font, at: Point },
}

impl View for Element<'_> {
    type V = Picture;

    open spec fn view(&self) -> Picture {
        match *self {
            Element::Border { width, height } => Picture::Border {
                width: width as nat,
                height: height as nat,
            },
            Element::Bird { bird, at } => Picture::Bird { bird, at },
            Element::Text { text, font, at } => Picture::Text { text: text@, font, at },
        }
    }
}

/// What a list of elements looks like.
pub open spec fn pictures(elements: Seq<Element<'_>>) -> Seq<Picture> {
    Seq::new(elements.len(), |i: int| elements[i]@)
}

/// A rectangle of pixels. The right and bottom edges are the first pixels
/// outside.
pub ghost struct Area {
    pub left: int,
    pub top: int,
    pub right: int,
    pub bottom: int,
}

impl Area {
    /// Whether no pixel is in both.
    pub open spec fn clear_of(self, other: Area) -> bool {
        ||| self.right <= other.left
        ||| other.right <= self.left
        ||| self.bottom <= other.top
        ||| other.bottom <= self.top
    }

    /// Whether every pixel is in `other` too.
    pub open spec fn within(self, other: Area) -> bool {
        &&& other.left <= self.left
        &&& self.right <= other.right
        &&& other.top <= self.top
        &&& self.bottom <= other.bottom
    }
}

/// The whole panel.
pub open spec fn panel() -> Area {
    Area { left: 0, top: 0, right: WIDTH as int, bottom: HEIGHT as int }
}

/// What a border one pixel wide around the panel leaves free.
pub open spec fn inside_border() -> Area {
    Area { left: 1, top: 1, right: WIDTH - 1, bottom: HEIGHT - 1 }
}

/// The pixels that a picture may light.
pub open spec fn area(picture: Picture) -> Area {
    match picture {
        Picture::Border { width, height } => Area {
            left: 0,
            top: 0,
            right: width as int,
            bottom: height as int,
        },
        Picture::Bird { bird, at } => {
            let (width, height) = match bird {
                Bird::Large => (64int, 48int),
                Bird::Small => (40int, 30int),
            };
            Area { left: at.x as int, top: at.y as int, right: at.x + width, bottom: at.y + height }
        },
        Picture::Text { text, font, at } => {
            let (width, height) = match font {
                Font::Small => (6 * text.len(), 10int),
                Font::Large => (10 * text.len(), 20int),
            };
            Area { left: at.x as int, top: at.y as int, right: at.x + width, bottom: at.y + height }
        },
    }
}

/// Whether no two of `drawn` get in each other's way.
pub open spec fn tidy(drawn: Seq<Picture>) -> bool {
    forall|i: int, j: int|
        0 <= i < j < drawn.len() ==> area(#[trigger] drawn[i]).clear_of(area(#[trigger] drawn[j]))
}

/// Whether all of `drawn` is within `space`.
pub open spec fn all_within(drawn: Seq<Picture>, space: Area) -> bool {
    forall|i: int| 0 <= i < drawn.len() ==> area(#[trigger] drawn[i]).within(space)
}

/// What to do with a panel.
#[derive(Clone, Copy, PartialEq, Eq, Debug, Structural)]
pub enum Step {
    /// Bring the controller up.
    Init,
    /// Blank the framebuffer and draw the boot splash into it.
    DrawSplash,
    /// Push the boot splash to the panel.
    FlushSplash,
    /// Leave the boot splash up for a while.
    HoldSplash,
    /// Start the clock that paces the status screen.
    StartClock,
    /// Wait until the status screen is due.
    Await,
    /// Blank the framebuffer and draw the status screen into it.
    DrawStatus,
    /// Push the status screen to the panel.
    FlushStatus,
    /// Leave the panel alone for ever.
    Stop,
}

/// How a [`Step`] went.
#[derive(Clone, Copy, PartialEq, Eq, Debug, Structural)]
pub enum Outcome {
    /// It was done.
    Done,
    /// It failed.
    Failed,
}

/// What follows a step.
pub open spec fn following(step: Step, outcome: Outcome) -> Step {
    match (step, outcome) {
        (Step::Init, Outcome::Done) => Step::DrawSplash,
        (Step::Init, Outcome::Failed) => Step::Stop,
        (Step::DrawSplash, Outcome::Done) => Step::FlushSplash,
        (Step::FlushSplash, Outcome::Done) => Step::HoldSplash,
        (Step::DrawSplash | Step::FlushSplash, Outcome::Failed) => Step::StartClock,
        (Step::HoldSplash, _) => Step::StartClock,
        (Step::StartClock, _) => Step::Await,
        (Step::Await, _) => Step::DrawStatus,
        (Step::DrawStatus, Outcome::Done) => Step::FlushStatus,
        (Step::DrawStatus, Outcome::Failed) => Step::Await,
        (Step::FlushStatus, _) => Step::Await,
        (Step::Stop, _) => Step::Stop,
    }
}

/// Decides what follows a step, given how it went.
///
/// A panel that cannot be brought up is given up, which beats drawing into the
/// void for ever. After that a yanked cable shows up as a failed flush, and a
/// transient failure does not stop anything: a splash that fails is skipped,
/// and a status screen that fails is drawn again when the next one is due.
#[must_use]
pub fn next(step: Step, outcome: Outcome) -> (after: Step)
    ensures
        after == following(step, outcome),
{
    let done = outcome == Outcome::Done;
    match step {
        Step::Init => if done {
            Step::DrawSplash
        } else {
            Step::Stop
        },
        Step::DrawSplash => if done {
            Step::FlushSplash
        } else {
            Step::StartClock
        },
        Step::FlushSplash => if done {
            Step::HoldSplash
        } else {
            Step::StartClock
        },
        Step::HoldSplash => Step::StartClock,
        Step::StartClock => Step::Await,
        Step::Await => Step::DrawStatus,
        Step::DrawStatus => if done {
            Step::FlushStatus
        } else {
            Step::Await
        },
        Step::FlushStatus => Step::Await,
        Step::Stop => Step::Stop,
    }
}

/// What follows a step and all the ones after it, for as long as `outcomes`
/// lasts.
pub open spec fn following_all(step: Step, outcomes: Seq<Outcome>) -> Step
    decreases outcomes.len(),
{
    if outcomes.len() == 0 {
        step
    } else {
        following(following_all(step, outcomes.drop_last()), outcomes.last())
    }
}

/// Once a panel has been brought up nothing that fails later stops it.
pub proof fn law_screen_survives_failures(outcomes: Seq<Outcome>)
    requires
        outcomes.len() > 0,
        outcomes[0] is Done,
    ensures
        following_all(Step::Init, outcomes) != Step::Stop,
        following_all(Step::Init, outcomes) != Step::Init,
    decreases outcomes.len(),
{
    if outcomes.len() > 1 {
        law_screen_survives_failures(outcomes.drop_last());
    } else {
        reveal_with_fuel(following_all, 2);
    }
}

/// A panel that could not be brought up is never touched again.
pub proof fn law_failed_start_is_final(outcomes: Seq<Outcome>)
    requires
        outcomes.len() > 0,
        outcomes[0] is Failed,
    ensures
        following_all(Step::Init, outcomes) == Step::Stop,
    decreases outcomes.len(),
{
    if outcomes.len() > 1 {
        law_failed_start_is_final(outcomes.drop_last());
    } else {
        reveal_with_fuel(following_all, 2);
    }
}

/// Only a frame that has just been drawn in full is pushed to the panel, and the
/// splash is held only if it got there.
pub proof fn law_only_whole_frames_are_pushed(step: Step, outcome: Outcome)
    ensures
        following(step, outcome) == Step::FlushSplash <==> step is DrawSplash && outcome is Done,
        following(step, outcome) == Step::FlushStatus <==> step is DrawStatus && outcome is Done,
        following(step, outcome) == Step::HoldSplash <==> step is FlushSplash && outcome is Done,
{
}

/// The status screen takes over from the splash whatever became of it, and from
/// then on is drawn every time it is due, whatever became of the one before.
pub proof fn law_status_screen_keeps_coming(first: Outcome, second: Outcome, third: Outcome)
    ensures
        ({
            let outcomes = seq![first, second, third];
            exists|n: int|
                0 < n <= 3 && #[trigger] following_all(Step::DrawSplash, outcomes.take(n))
                    == Step::StartClock
        }),
        following_all(Step::StartClock, seq![first, second]) == Step::DrawStatus,
        ({
            let outcomes = seq![first, second, third];
            exists|n: int|
                1 < n <= 3 && #[trigger] following_all(Step::Await, outcomes.take(n)) == Step::Await
        }),
{
    reveal_with_fuel(following_all, 4);
    let outcomes = seq![first, second, third];
    assert(outcomes.take(1) =~= seq![first]);
    assert(outcomes.take(2) =~= seq![first, second]);
    assert(outcomes.take(3) =~= outcomes);
    assert(seq![first].drop_last() =~= seq![]);
    assert(seq![first, second].drop_last() =~= seq![first]);
    assert(outcomes.drop_last() =~= seq![first, second]);
    let n: int = if first is Failed {
        1
    } else if second is Failed {
        2
    } else {
        3
    };
    assert(following_all(Step::DrawSplash, outcomes.take(n)) == Step::StartClock);
    let m: int = if second is Failed {
        2
    } else {
        3
    };
    assert(following_all(Step::Await, outcomes.take(m)) == Step::Await);
}

/// How far the drawing of a frame has come.
#[derive(Clone, Copy, PartialEq, Eq, Debug, Structural)]
pub enum Drawing {
    /// The element at this index is to be drawn.
    Element(usize),
    /// The frame is over, and this is how it went.
    Over(Outcome),
}

/// What follows the attempt to draw the element at index `drawn` of `total`.
pub open spec fn following_element(drawn: nat, total: nat, outcome: Outcome) -> Drawing {
    match outcome {
        Outcome::Failed => Drawing::Over(Outcome::Failed),
        Outcome::Done => if drawn + 1 == total {
            Drawing::Over(Outcome::Done)
        } else {
            Drawing::Element((drawn + 1) as usize)
        },
    }
}

/// Decides how the drawing of a frame of `total` elements goes on after the one
/// at index `drawn`: elements are drawn in order, and the first that fails ends
/// the frame.
#[must_use]
pub fn next_element(drawn: usize, total: usize, outcome: Outcome) -> (r: Drawing)
    requires
        drawn < total,
    ensures
        r == following_element(drawn as nat, total as nat, outcome),
{
    match outcome {
        Outcome::Failed => Drawing::Over(Outcome::Failed),
        Outcome::Done => if drawn + 1 == total {
            Drawing::Over(Outcome::Done)
        } else {
            Drawing::Element(drawn + 1)
        },
    }
}

/// How far the drawing of a frame of `total` elements has come once `outcomes`
/// are in, in order. Nothing is drawn once the frame is over.
pub open spec fn drawing_after(total: nat, outcomes: Seq<Outcome>) -> Drawing
    decreases outcomes.len(),
{
    if outcomes.len() == 0 {
        Drawing::Element(0)
    } else {
        match drawing_after(total, outcomes.drop_last()) {
            Drawing::Element(drawn) => following_element(drawn as nat, total, outcomes.last()),
            over => over,
        }
    }
}

/// The elements of a frame are drawn one after the other for as long as none
/// fails. The frame is done once all are drawn, and over at the first that
/// fails.
pub proof fn law_first_failure_ends_the_frame(total: usize, outcomes: Seq<Outcome>)
    requires
        0 < outcomes.len() <= total,
        forall|i: int| 0 <= i < outcomes.len() - 1 ==> outcomes[i] is Done,
    ensures
        drawing_after(total as nat, outcomes) == if outcomes.last() is Failed {
            Drawing::Over(Outcome::Failed)
        } else if outcomes.len() == total {
            Drawing::Over(Outcome::Done)
        } else {
            Drawing::Element(outcomes.len() as usize)
        },
    decreases outcomes.len(),
{
    reveal_with_fuel(drawing_after, 2);
    if outcomes.len() > 1 {
        law_first_failure_ends_the_frame(total, outcomes.drop_last());
    }
}

/// Every step has its reasons, and no other: what came before, and how it went.
pub proof fn law_every_step_has_its_reasons(step: Step, outcome: Outcome)
    ensures
        following(step, outcome) !is Init,
        following(step, outcome) is Stop <==> step is Stop || (step is Init && outcome is Failed),
        following(step, outcome) is DrawSplash <==> step is Init && outcome is Done,
        following(step, outcome) is FlushSplash <==> step is DrawSplash && outcome is Done,
        following(step, outcome) is HoldSplash <==> step is FlushSplash && outcome is Done,
        following(step, outcome) is StartClock <==> step is HoldSplash || (outcome is Failed && (
        step is DrawSplash || step is FlushSplash)),
        following(step, outcome) is Await <==> step is StartClock || step is FlushStatus || (
        step is DrawStatus && outcome is Failed),
        following(step, outcome) is DrawStatus <==> step is Await,
        following(step, outcome) is FlushStatus <==> step is DrawStatus && outcome is Done,
{
}

/// The next element is drawn if this one was and there is one; the frame is over
/// at a failure, and done at the last element.
pub proof fn law_elements_follow_one_another(drawn: usize, total: usize, outcome: Outcome)
    requires
        drawn < total,
    ensures
        match following_element(drawn as nat, total as nat, outcome) {
            Drawing::Element(next) => outcome is Done && next == drawn + 1 && next < total,
            Drawing::Over(end) => end == outcome && (outcome is Failed || drawn + 1 == total),
        },
{
}

/// An element looks like what it is told to draw, where it is told to, and a list
/// of them like each of them in turn.
pub proof fn law_elements_look_like_what_they_draw(elements: Seq<Element<'_>>, i: int)
    requires
        0 <= i < elements.len(),
    ensures
        pictures(elements).len() == elements.len(),
        match (elements[i], pictures(elements)[i]) {
            (
                Element::Border { width, height },
                Picture::Border { width: w, height: h },
            ) => w == width && h == height,
            (Element::Bird { bird, at }, Picture::Bird { bird: b, at: p }) => b == bird && p.x
                == at.x && p.y == at.y,
            (Element::Text { text, font, at }, Picture::Text { text: t, font: f, at: p }) => t
                == text@ && f == font && p.x == at.x && p.y == at.y,
            _ => false,
        },
{
}

/// A line of text is as wide as its characters together, six or ten pixels each,
/// and ten or twenty high. The birds are 64x48 and 40x30.
pub proof fn law_pictures_cover_their_pixels(picture: Picture)
    ensures
        ({
            let Area { left, top, right, bottom } = area(picture);
            match picture {
                Picture::Border { width, height } => left == 0 && top == 0 && right == width
                    && bottom == height,
                Picture::Bird { bird: Bird::Large, at } => left == at.x && top == at.y && right
                    - left == 64 && bottom - top == 48,
                Picture::Bird { bird: Bird::Small, at } => left == at.x && top == at.y && right
                    - left == 40 && bottom - top == 30,
                Picture::Text { text, font: Font::Small, at } => left == at.x && top == at.y
                    && right - left == 6 * text.len() && bottom - top == 10,
                Picture::Text { text, font: Font::Large, at } => left == at.x && top == at.y
                    && right - left == 10 * text.len() && bottom - top == 20,
            }
        }),
{
}

/// Areas are clear of one another if they have no pixel in common.
pub proof fn law_clear_areas_share_no_pixel(one: Area, two: Area, x: int, y: int)
    requires
        one.clear_of(two),
        one.left <= x < one.right,
        one.top <= y < one.bottom,
    ensures
        !(two.left <= x < two.right && two.top <= y < two.bottom),
{
}

} // verus!
