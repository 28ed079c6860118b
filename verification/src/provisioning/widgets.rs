//! Headers, buttons, taps and two-way choices.

use vstd::prelude::*;

use crate::draw::{fill_op, text_op, Align, DrawOp, Font, Ink, Op, Scene};
use crate::touch::TouchPoint;
use crate::ui::{cleared, W};

verus! {

/// A tappable rectangular region on screen.
#[derive(Debug, Clone, Copy, PartialEq, Eq, Structural)]
pub struct Hit {
    pub x: i32,
    pub y: i32,
    pub w: i32,
    pub h: i32,
}

/// A size that is not negative.
pub open spec fn no_less_than_zero(n: int) -> int {
    if n < 0 {
        0
    } else {
        n
    }
}

/// A region of some size; a negative size counts as none.
pub open spec fn region(x: i32, y: i32, w: i32, h: i32) -> Hit {
    Hit { x, y, w: no_less_than_zero(w as int) as i32, h: no_less_than_zero(h as int) as i32 }
}

/// A point is in a region if and only if it is no further left than its left edge nor above its top
/// edge, and less than its width and its height away from these. Nothing is in a region whose size
/// is not positive.
pub proof fn law_regions(x: i32, y: i32, w: i32, h: i32, p: TouchPoint)
    ensures
        region(x, y, w, h).covers(p) <==> 0 <= p.x - x < w && 0 <= p.y - y < h,
{
}

impl Hit {
    /// A region; a negative size counts as none.
    pub fn new(x: i32, y: i32, w: i32, h: i32) -> (hit: Hit)
        ensures
            hit == region(x, y, w, h),
            hit.x == x,
            hit.y == y,
            hit.w == no_less_than_zero(w as int),
            hit.h == no_less_than_zero(h as int),
    {
        Hit {
            x,
            y,
            w: if w < 0 {
                0
            } else {
                w
            },
            h: if h < 0 {
                0
            } else {
                h
            },
        }
    }

    /// The point is in the region.
    pub open spec fn covers(self, p: TouchPoint) -> bool {
        self.x <= p.x < self.x + self.w && self.y <= p.y < self.y + self.h
    }

    /// Whether the point is in the region.
    pub fn contains(&self, p: TouchPoint) -> (yes: bool)
        ensures
            yes == self.covers(p),
    {
        let (px, py): (i64, i64) = (p.x as i64, p.y as i64);
        let (x, y): (i64, i64) = (self.x as i64, self.y as i64);
        px >= x && px < x + self.w as i64 && py >= y && py < y + self.h as i64
    }
}

/// A region whose label has a place within the range of coordinates.
pub open spec fn labelled(hit: Hit) -> bool {
    &&& 0 <= hit.w
    &&& 0 <= hit.h
    &&& hit.x + hit.w as int / 2 <= i32::MAX
    &&& i32::MIN <= hit.y + hit.h as int / 2 - 6
    &&& hit.y + hit.h as int / 2 <= i32::MAX
}

/// A scene with a button.
pub open spec fn button_drawn(base: Seq<Op>, hit: Hit, label: Seq<char>, active: bool) -> Seq<
    Op,
> {
    base.push(
        DrawOp::Key {
            x: hit.x,
            y: hit.y,
            w: hit.w as u32,
            h: hit.h as u32,
            ink: if active {
                Ink::Accent
            } else {
                Ink::Key
            },
        },
    ).push(
        text_op(
            label,
            hit.x + hit.w as int / 2,
            hit.y + hit.h as int / 2 - 6,
            Font::Six13,
            Ink::White,
            Align::Center,
        ),
    )
}

/// A button fills its region, in the accent colour if and only if it is active, and has its label
/// in the middle.
pub proof fn law_button_fills_its_region(base: Seq<Op>, hit: Hit, label: Seq<char>, active: bool)
    requires
        labelled(hit),
    ensures
        ({
            let s = button_drawn(base, hit, label, active);
            let n = base.len() as int;
            &&& s.len() == n + 2
            &&& s.take(n) == base
            &&& s[n] is Key && s[n]->Key_x == hit.x && s[n]->Key_y == hit.y && s[n]->Key_w == hit.w
                && s[n]->Key_h == hit.h
            &&& s[n]->Key_ink is Accent <==> active
            &&& s[n]->Key_ink is Key <==> !active
            &&& s[n + 1] is Text && s[n + 1]->Text_text == label && s[n + 1]->Text_align is Center
            &&& 2 * s[n + 1]->Text_x <= 2 * hit.x + hit.w <= 2 * s[n + 1]->Text_x + 1
            &&& s[n + 1]->Text_y == hit.y + hit.h as int / 2 - 6
        }),
{
    assert(button_drawn(base, hit, label, active).take(base.len() as int) =~= base);
}

/// Draw a button with its label in the middle.
pub fn button(scene: &mut Scene, hit: &Hit, label: &str, active: bool)
    requires
        labelled(*hit),
    ensures
        final(scene)@ == button_drawn(old(scene)@, *hit, label@, active),
{
    scene.push(
        DrawOp::Key {
            x: hit.x,
            y: hit.y,
            w: hit.w as u32,
            h: hit.h as u32,
            ink: if active {
                Ink::Accent
            } else {
                Ink::Key
            },
        },
    );
    scene.text(
        label,
        hit.x + hit.w / 2,
        hit.y + hit.h / 2 - 6,
        Font::Six13,
        Ink::White,
        Align::Center,
    );
}

/// A scene with nothing but a header.
pub open spec fn header_drawn(base: Seq<Op>, title: Seq<char>) -> Seq<Op> {
    cleared(base).push(fill_op(0, 0, W as int, 22, Ink::Accent)).push(
        text_op(title, W as int / 2, 3, Font::Nine15, Ink::Black, Align::Center),
    )
}

/// A header covers what was there and has its title across the top.
pub proof fn law_header_has_its_title(base: Seq<Op>, title: Seq<char>)
    ensures
        ({
            let s = header_drawn(base, title);
            let n = base.len() as int;
            &&& s.len() == n + 3
            &&& s.take(n) == base
            &&& s[n] is Clear && s[n]->Clear_ink is Background
            &&& s[n + 1] == (DrawOp::<Seq<char>>::Fill {
                x: 0,
                y: 0,
                w: 240,
                h: 22,
                ink: Ink::Accent,
            })
            &&& s[n + 2] == (DrawOp::Text {
                text: title,
                x: 120,
                y: 3,
                font: Font::Nine15,
                ink: Ink::Black,
                align: Align::Center,
            })
        }),
{
    assert(header_drawn(base, title).take(base.len() as int) =~= base);
}

/// Clear the panel and draw a header.
pub fn header(scene: &mut Scene, title: &str)
    ensures
        final(scene)@ == header_drawn(old(scene)@, title@),
{
    scene.clear(Ink::Background);
    scene.fill(0, 0, W as u32, 22, Ink::Accent);
    scene.text(title, W / 2, 3, Font::Nine15, Ink::Black, Align::Center);
}

/// Waits for a touch to be pressed and then released. Debounces by requiring a clean release.
#[derive(Debug, Clone, Copy, PartialEq, Eq, Structural)]
pub struct TapWaiter {
    /// Where the touch was pressed, once it was.
    pub pressed: Option<TouchPoint>,
}

impl TapWaiter {
    /// Nothing is pressed yet.
    pub fn new() -> (w: TapWaiter)
        ensures
            w.pressed is None,
    {
        TapWaiter { pressed: None }
    }

    /// The wait after one more reading.
    pub open spec fn after(self, reading: Option<TouchPoint>) -> TapWaiter {
        match (self.pressed, reading) {
            (None, r) => TapWaiter { pressed: r },
            (Some(p), Some(_)) => self,
            (Some(p), None) => TapWaiter { pressed: None },
        }
    }

    /// The tap that a reading completes, if it does.
    pub open spec fn tap(self, reading: Option<TouchPoint>) -> Option<TouchPoint> {
        match reading {
            Some(_) => None,
            None => self.pressed,
        }
    }

    /// Take in one reading of the panel; returns the press point once the touch is released.
    pub fn poll(&mut self, reading: Option<TouchPoint>) -> (tap: Option<TouchPoint>)
        ensures
            *final(self) == old(self).after(reading),
            tap == old(self).tap(reading),
    {
        match self.pressed {
            None => {
                self.pressed = reading;
                None
            },
            Some(p) => match reading {
                Some(_) => None,
                None => {
                    self.pressed = None;
                    Some(p)
                },
            },
        }
    }
}

/// The wait after some readings.
pub open spec fn waited(w: TapWaiter, readings: Seq<Option<TouchPoint>>) -> TapWaiter
    decreases readings.len(),
{
    if readings.len() == 0 {
        w
    } else {
        waited(w, readings.drop_last()).after(readings.last())
    }
}

/// A touch, however long it is held, is one tap, at the place where it was first pressed.
pub proof fn law_held_touch_is_one_tap(
    start: TapWaiter,
    first: TouchPoint,
    held: Seq<Option<TouchPoint>>,
)
    requires
        start.pressed is None,
        forall|i: int| 0 <= i < held.len() ==> (#[trigger] held[i]) is Some,
    ensures
        ({
            let w = waited(start.after(Some(first)), held);
            &&& w.tap(None) == Some(first)
            &&& forall|p: TouchPoint| #[trigger] w.tap(Some(p)) is None
            &&& w.after(None).pressed is None
        }),
    decreases held.len(),
{
    if held.len() > 0 {
        assert(held.last() is Some);
        law_held_touch_is_one_tap(start, first, held.drop_last());
    }
}

/// Without a press there is no tap, and a touch that is going on is none yet.
pub proof fn law_no_tap_without_a_press(w: TapWaiter, p: TouchPoint)
    ensures
        w.pressed is None ==> w.tap(None) is None && w.after(None) == w,
        w.tap(Some(p)) is None,
        w.pressed is None ==> w.after(Some(p)).pressed == Some(p),
{
}

/// The upper of two choices.
pub open spec fn first_choice() -> Hit {
    Hit { x: 20, y: 120, w: (W - 40) as i32, h: 40 }
}

/// The lower of two choices.
pub open spec fn second_choice() -> Hit {
    Hit { x: 20, y: 175, w: (W - 40) as i32, h: 40 }
}

/// A scene with a question and two choices.
pub open spec fn confirm_drawn(
    base: Seq<Op>,
    title: Seq<char>,
    question: Seq<char>,
    yes: Seq<char>,
    no: Seq<char>,
) -> Seq<Op> {
    button_drawn(
        button_drawn(
            header_drawn(base, title).push(
                text_op(question, W as int / 2, 60, Font::Six13, Ink::White, Align::Center),
            ),
            first_choice(),
            yes,
            true,
        ),
        second_choice(),
        no,
        false,
    )
}

/// Draw a two-choice confirmation screen.
pub fn draw_confirm(scene: &mut Scene, title: &str, question: &str, yes: &str, no: &str)
    ensures
        final(scene)@ == confirm_drawn(old(scene)@, title@, question@, yes@, no@),
{
    header(scene, title);
    scene.text(question, W / 2, 60, Font::Six13, Ink::White, Align::Center);
    let yes_hit = Hit::new(20, 120, W - 40, 40);
    let no_hit = Hit::new(20, 175, W - 40, 40);
    button(scene, &yes_hit, yes, true);
    button(scene, &no_hit, no, false);
}

/// What a tap on a two-choice confirmation screen chooses.
pub open spec fn confirmed(p: TouchPoint) -> Option<bool> {
    if first_choice().covers(p) {
        Some(true)
    } else if second_choice().covers(p) {
        Some(false)
    } else {
        None
    }
}

/// A tap on the upper of the two buttons, which is highlighted and says what `yes` says, chooses
/// it; a tap on the lower one, which says what `no` says, chooses the other; and no other tap
/// chooses anything.
pub proof fn law_choice_is_the_button_tapped(
    base: Seq<Op>,
    title: Seq<char>,
    question: Seq<char>,
    yes: Seq<char>,
    no: Seq<char>,
    p: TouchPoint,
)
    ensures
        confirmed(p) == Some(true) <==> 20 <= p.x < 220 && 120 <= p.y < 160,
        confirmed(p) == Some(false) <==> 20 <= p.x < 220 && 175 <= p.y < 215,
        ({
            let s = confirm_drawn(base, title, question, yes, no);
            let n = base.len() as int;
            &&& s.len() == n + 8
            &&& s.take(n) == base
            &&& s[n] is Clear
            &&& s[n + 2] is Text && s[n + 2]->Text_text == title
            &&& s[n + 3] is Text && s[n + 3]->Text_text == question
            &&& s[n + 4] == (DrawOp::<Seq<char>>::Key {
                x: 20,
                y: 120,
                w: 200,
                h: 40,
                ink: Ink::Accent,
            })
            &&& s[n + 5] == (DrawOp::Text {
                text: yes,
                x: 120,
                y: 134,
                font: Font::Six13,
                ink: Ink::White,
                align: Align::Center,
            })
            &&& s[n + 6] == (DrawOp::<Seq<char>>::Key {
                x: 20,
                y: 175,
                w: 200,
                h: 40,
                ink: Ink::Key,
            })
            &&& s[n + 7] == (DrawOp::Text {
                text: no,
                x: 120,
                y: 189,
                font: Font::Six13,
                ink: Ink::White,
                align: Align::Center,
            })
        }),
{
    assert(confirm_drawn(base, title, question, yes, no).take(base.len() as int) =~= base);
}

/// What a tap on a two-choice confirmation screen chooses, if anything.
pub fn confirm(tap: TouchPoint) -> (choice: Option<bool>)
    ensures
        choice == confirmed(tap),
{
    let yes_hit = Hit::new(20, 120, W - 40, 40);
    let no_hit = Hit::new(20, 175, W - 40, 40);
    if yes_hit.contains(tap) {
        Some(true)
    } else if no_hit.contains(tap) {
        Some(false)
    } else {
        None
    }
}

} // verus!
