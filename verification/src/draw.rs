//! What goes on the panel, as a list of things to draw.

use vstd::prelude::*;

verus! {

/// The colours in use.
#[derive(Debug, Clone, Copy, PartialEq, Eq, Structural)]
pub enum Ink {
    /// Near-black navy.
    Background,
    White,
    Black,
    Muted,
    /// Cyan-ish.
    Accent,
    Sun,
    Cloud,
    Rain,
    Warn,
    /// A key that is not highlighted.
    Key,
    AqiGood,
    AqiModerate,
    AqiSensitive,
    AqiUnhealthy,
    AqiHazardous,
}

/// The red (of 31), green (of 63) and blue (of 31) parts of a colour.
pub open spec fn channels(ink: Ink) -> (u8, u8, u8) {
    match ink {
        Ink::Background => (2, 4, 8),
        Ink::White => (31, 63, 31),
        Ink::Black => (0, 0, 0),
        Ink::Muted => (18, 38, 22),
        Ink::Accent => (8, 45, 31),
        Ink::Sun => (31, 50, 0),
        Ink::Cloud => (24, 48, 24),
        Ink::Rain => (10, 30, 31),
        Ink::Warn => (31, 30, 0),
        Ink::Key => (8, 16, 10),
        Ink::AqiGood => (6, 50, 6),
        Ink::AqiModerate => (31, 50, 0),
        Ink::AqiSensitive => (31, 32, 0),
        Ink::AqiUnhealthy => (31, 8, 4),
        Ink::AqiHazardous => (24, 0, 12),
    }
}

/// The palette: red, green and blue of each colour, of at most 31, 63 and 31.
pub proof fn law_palette()
    ensures
        channels(Ink::White) == (31u8, 63u8, 31u8),
        channels(Ink::Black) == (0u8, 0u8, 0u8),
        channels(Ink::Background) == (2u8, 4u8, 8u8),
        channels(Ink::Muted) == (18u8, 38u8, 22u8),
        channels(Ink::Accent) == (8u8, 45u8, 31u8),
        channels(Ink::Sun) == (31u8, 50u8, 0u8),
        channels(Ink::Cloud) == (24u8, 48u8, 24u8),
        channels(Ink::Rain) == (10u8, 30u8, 31u8),
        channels(Ink::Warn) == (31u8, 30u8, 0u8),
        channels(Ink::Key) == (8u8, 16u8, 10u8),
        channels(Ink::AqiGood) == (6u8, 50u8, 6u8),
        channels(Ink::AqiModerate) == (31u8, 50u8, 0u8),
        channels(Ink::AqiSensitive) == (31u8, 32u8, 0u8),
        channels(Ink::AqiUnhealthy) == (31u8, 8u8, 4u8),
        channels(Ink::AqiHazardous) == (24u8, 0u8, 12u8),
{
}

/// White and black are the ends of the range; the background is near to black and more blue than
/// anything; the sun and warnings are of red and green without blue, the rain mostly blue; and the
/// colours of the air quality go from green over yellow and orange to red and a dark red.
pub proof fn law_colours()
    ensures
        channels(Ink::White) == (31u8, 63u8, 31u8),
        channels(Ink::Black) == (0u8, 0u8, 0u8),
        ({
            let (r, g, b) = channels(Ink::Background);
            r < b && g < 2 * b && r <= 4 && g <= 8 && b <= 8
        }),
        ({
            let (r, g, b) = channels(Ink::Sun);
            r == 31 && 48 <= g < 63 && b == 0
        }),
        channels(Ink::AqiModerate) == channels(Ink::Sun),
        ({
            let (r, g, b) = channels(Ink::Warn);
            r == 31 && 24 <= g < 48 && b == 0
        }),
        ({
            let (r, g, b) = channels(Ink::Rain);
            b == 31 && r < b && g < 2 * b
        }),
        ({
            let (r, g, b) = channels(Ink::Accent);
            b == 31 && r < 16 && 32 < g < 63
        }),
        ({
            let (r, g, b) = channels(Ink::AqiGood);
            g >= 48 && r < 8 && b < 8
        }),
        ({
            let (r, g, b) = channels(Ink::AqiSensitive);
            r == 31 && 16 < g < 48 && b == 0
        }),
        ({
            let (r, g, b) = channels(Ink::AqiUnhealthy);
            r == 31 && g < 16 && b < 8
        }),
        ({
            let (r, g, b) = channels(Ink::AqiHazardous);
            16 < r < 31 && g == 0 && 8 < b < r
        }),
        ({
            let (r, g, b) = channels(Ink::Cloud);
            r == b && g == 2 * r && r > 16
        }),
        ({
            let (r, g, b) = channels(Ink::Muted);
            12 < r < b && b < 28 && 32 < g < 48
        }),
        ({
            let (r, g, b) = channels(Ink::Key);
            r <= b && b < 16 && g == 2 * r
        }),
{
}

impl Ink {
    /// The red (of 31), green (of 63) and blue (of 31) parts.
    pub fn rgb(self) -> (c: (u8, u8, u8))
        ensures
            c == channels(self),
            c.0 <= 31,
            c.1 <= 63,
            c.2 <= 31,
    {
        match self {
            Ink::Background => (2, 4, 8),
            Ink::White => (31, 63, 31),
            Ink::Black => (0, 0, 0),
            Ink::Muted => (18, 38, 22),
            Ink::Accent => (8, 45, 31),
            Ink::Sun => (31, 50, 0),
            Ink::Cloud => (24, 48, 24),
            Ink::Rain => (10, 30, 31),
            Ink::Warn => (31, 30, 0),
            Ink::Key => (8, 16, 10),
            Ink::AqiGood => (6, 50, 6),
            Ink::AqiModerate => (31, 50, 0),
            Ink::AqiSensitive => (31, 32, 0),
            Ink::AqiUnhealthy => (31, 8, 4),
            Ink::AqiHazardous => (24, 0, 12),
        }
    }
}

/// The fonts in use, by the size of a character.
#[derive(Debug, Clone, Copy, PartialEq, Eq, Structural)]
pub enum Font {
    Six10,
    Six13,
    Nine15,
    Ten20,
}

/// Which part of a text stands at its position.
#[derive(Debug, Clone, Copy, PartialEq, Eq, Structural)]
pub enum Align {
    Left,
    Center,
    Right,
}

/// Something to draw. Positions are in pixels from the top-left corner of the panel.
#[derive(Debug, PartialEq, Eq)]
pub enum DrawOp<T> {
    /// Fill the whole panel.
    Clear { ink: Ink },
    /// A line of text, its top at `y`.
    Text { text: T, x: i32, y: i32, font: Font, ink: Ink, align: Align },
    /// A straight line of the given thickness.
    Line { x1: i32, y1: i32, x2: i32, y2: i32, ink: Ink, width: u32 },
    /// A filled rectangle.
    Fill { x: i32, y: i32, w: u32, h: u32, ink: Ink },
    /// The outline of a rectangle, one pixel thick.
    Frame { x: i32, y: i32, w: u32, h: u32, ink: Ink },
    /// A filled rectangle with rounded corners.
    Key { x: i32, y: i32, w: u32, h: u32, ink: Ink },
    /// A filled circle.
    Disc { x: i32, y: i32, diameter: u32, ink: Ink },
    /// A filled triangle.
    Wedge { x1: i32, y1: i32, x2: i32, y2: i32, x3: i32, y3: i32, ink: Ink },
}

/// Something to draw, as a mathematical value.
pub type Op = DrawOp<Seq<char>>;

impl View for DrawOp<String> {
    type V = DrawOp<Seq<char>>;

    open spec fn view(&self) -> DrawOp<Seq<char>> {
        match *self {
            DrawOp::Clear { ink } => DrawOp::Clear { ink },
            DrawOp::Text { text, x, y, font, ink, align } => DrawOp::Text {
                text: text@,
                x,
                y,
                font,
                ink,
                align,
            },
            DrawOp::Line { x1, y1, x2, y2, ink, width } => DrawOp::Line {
                x1,
                y1,
                x2,
                y2,
                ink,
                width,
            },
            DrawOp::Fill { x, y, w, h, ink } => DrawOp::Fill { x, y, w, h, ink },
            DrawOp::Frame { x, y, w, h, ink } => DrawOp::Frame { x, y, w, h, ink },
            DrawOp::Key { x, y, w, h, ink } => DrawOp::Key { x, y, w, h, ink },
            DrawOp::Disc { x, y, diameter, ink } => DrawOp::Disc { x, y, diameter, ink },
            DrawOp::Wedge { x1, y1, x2, y2, x3, y3, ink } => DrawOp::Wedge {
                x1,
                y1,
                x2,
                y2,
                x3,
                y3,
                ink,
            },
        }
    }
}

/// Things to draw, in this order.
pub struct Scene {
    pub ops: Vec<DrawOp<String>>,
}

impl View for Scene {
    type V = Seq<Op>;

    open spec fn view(&self) -> Seq<Op> {
        self.ops@.map_values(|op: DrawOp<String>| op@)
    }
}

/// A text to draw.
pub open spec fn text_op(
    text: Seq<char>,
    x: int,
    y: int,
    font: Font,
    ink: Ink,
    align: Align,
) -> Op {
    DrawOp::Text { text, x: x as i32, y: y as i32, font, ink, align }
}

/// A filled rectangle to draw.
pub open spec fn fill_op(x: int, y: int, w: int, h: int, ink: Ink) -> Op {
    DrawOp::Fill { x: x as i32, y: y as i32, w: w as u32, h: h as u32, ink }
}

/// The outline of a rectangle to draw.
pub open spec fn frame_op(x: int, y: int, w: int, h: int, ink: Ink) -> Op {
    DrawOp::Frame { x: x as i32, y: y as i32, w: w as u32, h: h as u32, ink }
}

/// A filled circle to draw.
pub open spec fn disc_op(x: int, y: int, diameter: int, ink: Ink) -> Op {
    DrawOp::Disc { x: x as i32, y: y as i32, diameter: diameter as u32, ink }
}

/// A line to draw.
pub open spec fn line_op(x1: int, y1: int, x2: int, y2: int, ink: Ink, width: u32) -> Op {
    DrawOp::Line { x1: x1 as i32, y1: y1 as i32, x2: x2 as i32, y2: y2 as i32, ink, width }
}

impl Scene {
    /// Nothing to draw yet.
    pub fn new() -> (s: Scene)
        ensures
            s@ == Seq::<Op>::empty(),
    {
        let s = Scene { ops: Vec::new() };
        assert(s@ =~= Seq::<Op>::empty());
        s
    }

    /// One more thing to draw.
    pub fn push(&mut self, op: DrawOp<String>)
        ensures
            final(self)@ == old(self)@.push(op@),
    {
        self.ops.push(op);
        assert(self@ =~= old(self)@.push(op@));
    }

    /// Fill the whole panel.
    pub fn clear(&mut self, ink: Ink)
        ensures
            final(self)@ == old(self)@.push(DrawOp::Clear { ink }),
    {
        self.push(DrawOp::Clear { ink });
    }

    /// A line of text.
    pub fn text(&mut self, text: &str, x: i32, y: i32, font: Font, ink: Ink, align: Align)
        ensures
            final(self)@ == old(self)@.push(
                text_op(text@, x as int, y as int, font, ink, align),
            ),
    {
        self.push(DrawOp::Text { text: text.to_owned(), x, y, font, ink, align });
    }

    /// A filled rectangle.
    pub fn fill(&mut self, x: i32, y: i32, w: u32, h: u32, ink: Ink)
        ensures
            final(self)@ == old(self)@.push(fill_op(x as int, y as int, w as int, h as int, ink)),
    {
        self.push(DrawOp::Fill { x, y, w, h, ink });
    }

    /// The outline of a rectangle.
    pub fn frame(&mut self, x: i32, y: i32, w: u32, h: u32, ink: Ink)
        ensures
            final(self)@ == old(self)@.push(frame_op(x as int, y as int, w as int, h as int, ink)),
    {
        self.push(DrawOp::Frame { x, y, w, h, ink });
    }

    /// A filled circle.
    pub fn disc(&mut self, x: i32, y: i32, diameter: u32, ink: Ink)
        ensures
            final(self)@ == old(self)@.push(disc_op(x as int, y as int, diameter as int, ink)),
    {
        self.push(DrawOp::Disc { x, y, diameter, ink });
    }

    /// A straight line.
    pub fn line(&mut self, x1: i32, y1: i32, x2: i32, y2: i32, ink: Ink, width: u32)
        ensures
            final(self)@ == old(self)@.push(
                line_op(x1 as int, y1 as int, x2 as int, y2 as int, ink, width),
            ),
    {
        self.push(DrawOp::Line { x1, y1, x2, y2, ink, width });
    }
}

} // verus!
