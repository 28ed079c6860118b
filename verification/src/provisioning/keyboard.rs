//! Text entry on an on-screen keyboard.

use vstd::prelude::*;

use crate::draw::{frame_op, text_op, Align, DrawOp, Font, Ink, Op, Scene};
use crate::provisioning::widgets::{button, button_drawn, header, header_drawn, Hit};
use crate::touch::TouchPoint;
use crate::ui::{H, W};

verus! {

/// Keyboard layouts.
#[derive(Debug, Clone, Copy, PartialEq, Eq, Structural)]
pub enum Keyboard {
    Full,
    Numeric,
}

/// How many rows of keys a keyboard has.
pub const KEY_ROWS: usize = 4;

/// The keys of a row.
pub open spec fn key_row(kind: Keyboard, shift: bool, r: int) -> Seq<char> {
    match kind {
        Keyboard::Full => if r == 0 {
            "1234567890"@
        } else if r == 1 {
            if shift {
                "QWERTYUIOP"@
            } else {
                "qwertyuiop"@
            }
        } else if r == 2 {
            if shift {
                "ASDFGHJKL"@
            } else {
                "asdfghjkl"@
            }
        } else {
            if shift {
                "ZXCVBNM-_."@
            } else {
                "zxcvbnm-_."@
            }
        },
        Keyboard::Numeric => if r == 0 {
            "123"@
        } else if r == 1 {
            "456"@
        } else if r == 2 {
            "789"@
        } else {
            "-0."@
        },
    }
}

/// How many keys the rows have.
proof fn lemma_row_len(kind: Keyboard, shift: bool, r: int)
    ensures
        3 <= key_row(kind, shift, r).len() <= 10,
{
    reveal_strlit("1234567890");
    reveal_strlit("QWERTYUIOP");
    reveal_strlit("qwertyuiop");
    reveal_strlit("ASDFGHJKL");
    reveal_strlit("asdfghjkl");
    reveal_strlit("ZXCVBNM-_.");
    reveal_strlit("zxcvbnm-_.");
    reveal_strlit("123");
    reveal_strlit("456");
    reveal_strlit("789");
    reveal_strlit("-0.");
}

/// Every keyboard has a first key.
pub proof fn lemma_first_key(kind: Keyboard, shift: bool)
    ensures
        key_row(kind, shift, 0).len() > 0,
{
    lemma_row_len(kind, shift, 0);
}

/// A letter's capital; any other character itself.
pub open spec fn capital(c: char) -> char {
    if 'a' <= c && c <= 'z' {
        ((c as u32) - 32) as char
    } else {
        c
    }
}

/// Shift turns the letters of the full keyboard into capitals and leaves its other keys alone; the
/// numeric keyboard stays as it is.
pub proof fn law_shift_makes_capitals(r: int, c: int)
    requires
        0 <= r < KEY_ROWS,
        0 <= c < key_row(Keyboard::Full, false, r).len(),
    ensures
        key_row(Keyboard::Full, true, r).len() == key_row(Keyboard::Full, false, r).len(),
        key_row(Keyboard::Full, true, r)[c] == capital(key_row(Keyboard::Full, false, r)[c]),
        ({
            let key = key_row(Keyboard::Full, false, r)[c];
            let shifted = key_row(Keyboard::Full, true, r)[c];
            shifted as int == if 'a' <= key <= 'z' {
                key as int - 32
            } else {
                key as int
            }
        }),
        key_row(Keyboard::Numeric, true, r) == key_row(Keyboard::Numeric, false, r),
{
    reveal_strlit("1234567890");
    reveal_strlit("QWERTYUIOP");
    reveal_strlit("qwertyuiop");
    reveal_strlit("ASDFGHJKL");
    reveal_strlit("asdfghjkl");
    reveal_strlit("ZXCVBNM-_.");
    reveal_strlit("zxcvbnm-_.");
}

/// The full keyboard has the digits from one to zero in its first row, the letters below them in
/// the order of typewriters, and a dash, an underscore and a dot behind the last of them; the
/// numeric one has the digits three to a row, and a dash and a dot around the zero.
pub proof fn law_keyboard_layout(shift: bool)
    ensures
        key_row(Keyboard::Full, shift, 0) == "1234567890"@,
        key_row(Keyboard::Full, false, 1) == "qwertyuiop"@,
        key_row(Keyboard::Full, false, 2) == "asdfghjkl"@,
        key_row(Keyboard::Full, false, 3) == "zxcvbnm"@ + "-_."@,
        key_row(Keyboard::Full, true, 1) == "QWERTYUIOP"@,
        key_row(Keyboard::Full, true, 2) == "ASDFGHJKL"@,
        key_row(Keyboard::Full, true, 3) == "ZXCVBNM"@ + "-_."@,
        forall|r: int, i: int|
            0 <= r < 3 && 0 <= i < 3 ==> (#[trigger] key_row(Keyboard::Numeric, shift, r)[i]) as int
                == 0x31 + 3 * r + i,
        forall|r: int|
            0 <= r < 3 ==> (#[trigger] key_row(Keyboard::Numeric, shift, r)).len() == 3,
        key_row(Keyboard::Numeric, shift, 3) == seq!['-', '0', '.'],
{
    reveal_strlit("123");
    reveal_strlit("456");
    reveal_strlit("789");
    reveal_strlit("-0.");
    reveal_strlit("zxcvbnm");
    reveal_strlit("ZXCVBNM");
    reveal_strlit("-_.");
    reveal_strlit("zxcvbnm-_.");
    reveal_strlit("ZXCVBNM-_.");
    assert("zxcvbnm"@ + "-_."@ =~= "zxcvbnm-_."@);
    assert("ZXCVBNM"@ + "-_."@ =~= "ZXCVBNM-_."@);
    assert("-0."@ =~= seq!['-', '0', '.']);
}

impl Keyboard {
    /// The keys of a row.
    pub fn row(self, shift: bool, r: usize) -> (s: &'static str)
        ensures
            s@ == key_row(self, shift, r as int),
    {
        match self {
            Keyboard::Full => match (r, shift) {
                (0, _) => "1234567890",
                (1, true) => "QWERTYUIOP",
                (1, false) => "qwertyuiop",
                (2, true) => "ASDFGHJKL",
                (2, false) => "asdfghjkl",
                (_, true) => "ZXCVBNM-_.",
                (_, false) => "zxcvbnm-_.",
            },
            Keyboard::Numeric => match r {
                0 => "123",
                1 => "456",
                2 => "789",
                _ => "-0.",
            },
        }
    }

    /// All keys, row by row.
    pub fn rows(self, shift: bool) -> (rows: Vec<Vec<char>>)
        ensures
            rows@.len() == KEY_ROWS,
            forall|r: int| 0 <= r < KEY_ROWS ==> (#[trigger] rows@[r])@ == key_row(self, shift, r),
    {
        let mut rows: Vec<Vec<char>> = Vec::new();
        let mut r: usize = 0;
        while r < KEY_ROWS
            invariant
                r <= KEY_ROWS,
                rows@.len() == r,
                forall|j: int| 0 <= j < r ==> (#[trigger] rows@[j])@ == key_row(self, shift, j),
            decreases KEY_ROWS - r,
        {
            let s: &str = self.row(shift, r);
            let n: usize = s.unicode_len();
            let mut keys: Vec<char> = Vec::new();
            let mut c: usize = 0;
            while c < n
                invariant
                    c <= n,
                    n == s@.len(),
                    keys@ == s@.take(c as int),
                decreases n - c,
            {
                keys.push(s.get_char(c));
                c = c + 1;
                assert(keys@ =~= s@.take(c as int));
            }
            assert(keys@ =~= s@);
            rows.push(keys);
            r = r + 1;
        }
        rows
    }
}

/// From one key of a row of `n` keys to the next.
pub open spec fn key_pitch(n: int) -> int {
    (W - 3) / n
}

/// The region of key `c` of row `r`, the row having `n` keys.
pub open spec fn key_hit(n: int, r: int, c: int) -> Hit {
    Hit {
        x: (3 + c * key_pitch(n)) as i32,
        y: (70 + r * 33) as i32,
        w: (key_pitch(n) - 3) as i32,
        h: 30,
    }
}

/// Keys lie side by side on the panel.
proof fn lemma_key_hit(n: int, r: int, c: int)
    requires
        3 <= n <= 10,
        0 <= r < KEY_ROWS,
        0 <= c < n,
    ensures
        23 <= key_pitch(n) <= 79,
        0 <= c * key_pitch(n) <= 237 - key_pitch(n),
        key_hit(n, r, c).x == 3 + c * key_pitch(n),
        key_hit(n, r, c).y == 70 + r * 33,
        key_hit(n, r, c).w == key_pitch(n) - 3,
{
    let p = key_pitch(n);
    assert(p == 237int / n);
    assert(23 <= p <= 79) by (nonlinear_arith)
        requires
            p == 237int / n,
            3 <= n <= 10,
    ;
    assert(0 <= c * p <= 237 - p) by (nonlinear_arith)
        requires
            p == 237int / n,
            3 <= n <= 10,
            0 <= c < n,
            p >= 0,
    ;
}

/// The region of a key.
fn hit_of_key(n: usize, r: usize, c: usize) -> (hit: Hit)
    requires
        3 <= n <= 10,
        r < KEY_ROWS,
        c < n,
    ensures
        hit == key_hit(n as int, r as int, c as int),
        0 <= hit.x <= 1000,
        0 <= hit.y <= 1000,
        0 <= hit.w <= 1000,
        hit.h == 30,
{
    proof {
        lemma_key_hit(n as int, r as int, c as int);
    }
    let pitch: i32 = (W - 3) / (n as i32);
    Hit::new(3 + c as i32 * pitch, 70 + r as i32 * 33, pitch - 3, 30)
}

/// A scene with the first `c` keys of a row.
pub open spec fn row_drawn(base: Seq<Op>, row: Seq<char>, r: int, c: nat) -> Seq<Op>
    decreases c,
{
    if c == 0 {
        base
    } else {
        button_drawn(
            row_drawn(base, row, r, (c - 1) as nat),
            key_hit(row.len() as int, r, c - 1),
            seq![row[c - 1]],
            false,
        )
    }
}

/// A scene with the first `r` rows of keys.
pub open spec fn keys_drawn(base: Seq<Op>, kind: Keyboard, shift: bool, r: nat) -> Seq<Op>
    decreases r,
{
    if r == 0 {
        base
    } else {
        let row = key_row(kind, shift, r - 1);
        row_drawn(keys_drawn(base, kind, shift, (r - 1) as nat), row, r - 1, row.len())
    }
}

/// Draw the character grid.
pub fn draw_keyboard(scene: &mut Scene, kind: Keyboard, shift: bool)
    ensures
        final(scene)@ == keys_drawn(old(scene)@, kind, shift, KEY_ROWS as nat),
{
    let rows: Vec<Vec<char>> = kind.rows(shift);
    let mut r: usize = 0;
    while r < KEY_ROWS
        invariant
            rows@.len() == KEY_ROWS,
            forall|j: int| 0 <= j < KEY_ROWS ==> (#[trigger] rows@[j])@ == key_row(kind, shift, j),
            r <= KEY_ROWS,
            scene@ == keys_drawn(old(scene)@, kind, shift, r as nat),
        decreases KEY_ROWS - r,
    {
        let row = &rows[r];
        let ghost base = scene@;
        proof {
            lemma_row_len(kind, shift, r as int);
        }
        let mut c: usize = 0;
        while c < row.len()
            invariant
                row@ == key_row(kind, shift, r as int),
                3 <= row@.len() <= 10,
                r < KEY_ROWS,
                c <= row@.len(),
                scene@ == row_drawn(base, row@, r as int, c as nat),
            decreases row@.len() - c,
        {
            let hit = hit_of_key(row.len(), r, c);
            let mut label: String = String::new();
            label.push(row[c]);
            assert(label@ =~= seq![row@[c as int]]);
            button(scene, &hit, label.as_str(), false);
            c = c + 1;
        }
        r = r + 1;
    }
}

/// The first key from `c` on of a row that a point is in.
pub open spec fn key_in_row(row: Seq<char>, r: int, c: int, p: TouchPoint) -> Option<char>
    decreases row.len() - c,
{
    if c >= row.len() {
        None
    } else if key_hit(row.len() as int, r, c).covers(p) {
        Some(row[c])
    } else {
        key_in_row(row, r, c + 1, p)
    }
}

/// The first key from row `r` on that a point is in.
pub open spec fn key_at(kind: Keyboard, shift: bool, r: int, p: TouchPoint) -> Option<char>
    decreases KEY_ROWS - r,
{
    if r >= KEY_ROWS {
        None
    } else {
        match key_in_row(key_row(kind, shift, r), r, 0, p) {
            Some(c) => Some(c),
            None => key_at(kind, shift, r + 1, p),
        }
    }
}

/// The key that a tap hits, if any.
pub fn key_tapped(kind: Keyboard, shift: bool, tap: TouchPoint) -> (key: Option<char>)
    ensures
        key == key_at(kind, shift, 0, tap),
{
    let rows: Vec<Vec<char>> = kind.rows(shift);
    let mut r: usize = 0;
    while r < KEY_ROWS
        invariant
            rows@.len() == KEY_ROWS,
            forall|j: int| 0 <= j < KEY_ROWS ==> (#[trigger] rows@[j])@ == key_row(kind, shift, j),
            r <= KEY_ROWS,
            key_at(kind, shift, 0, tap) == key_at(kind, shift, r as int, tap),
        decreases KEY_ROWS - r,
    {
        let row = &rows[r];
        proof {
            lemma_row_len(kind, shift, r as int);
        }
        let mut c: usize = 0;
        while c < row.len()
            invariant
                row@ == key_row(kind, shift, r as int),
                3 <= row@.len() <= 10,
                r < KEY_ROWS,
                c <= row@.len(),
                key_at(kind, shift, 0, tap) == key_at(kind, shift, r as int, tap),
                key_in_row(row@, r as int, 0, tap) == key_in_row(row@, r as int, c as int, tap),
            decreases row@.len() - c,
        {
            let hit = hit_of_key(row.len(), r, c);
            if hit.contains(tap) {
                return Some(row[c]);
            }
            c = c + 1;
        }
        r = r + 1;
    }
    None
}

/// The region of the shift key.
pub open spec fn shift_hit() -> Hit {
    Hit { x: 3, y: (H - 38) as i32, w: 44, h: 32 }
}

/// The region of the space bar.
pub open spec fn space_hit() -> Hit {
    Hit { x: 50, y: (H - 38) as i32, w: (W - 147) as i32, h: 32 }
}

/// The region of the backspace key.
pub open spec fn backspace_hit() -> Hit {
    Hit { x: (W - 94) as i32, y: (H - 38) as i32, w: 44, h: 32 }
}

/// The region of the key that ends the entry.
pub open spec fn done_hit() -> Hit {
    Hit { x: (W - 47) as i32, y: (H - 38) as i32, w: 44, h: 32 }
}

/// A scene with the bottom control row. Only the full keyboard has a shift key.
pub open spec fn controls_drawn(base: Seq<Op>, kind: Keyboard) -> Seq<Op> {
    let shift = match kind {
        Keyboard::Full => button_drawn(base, shift_hit(), "Sh"@, false),
        Keyboard::Numeric => base,
    };
    button_drawn(
        button_drawn(
            button_drawn(shift, space_hit(), "space"@, false),
            backspace_hit(),
            "<-"@,
            false,
        ),
        done_hit(),
        "OK"@,
        true,
    )
}

/// Draw the bottom control row (shift / space / backspace / done).
pub fn draw_key_controls(scene: &mut Scene, kind: Keyboard)
    ensures
        final(scene)@ == controls_drawn(old(scene)@, kind),
{
    let y: i32 = H - 38;
    let shift = Hit::new(3, y, 44, 32);
    let space = Hit::new(50, y, W - 50 - 3 - 94, 32);
    let backspace = Hit::new(W - 94, y, 44, 32);
    let done = Hit::new(W - 47, y, 44, 32);
    if kind == Keyboard::Full {
        button(scene, &shift, "Sh", false);
    }
    button(scene, &space, "space", false);
    button(scene, &backspace, "<-", false);
    button(scene, &done, "OK", true);
}

/// A text being entered, as a mathematical value.
#[verifier::ext_equal]
pub ghost struct Entry {
    pub kind: Keyboard,
    pub buffer: Seq<char>,
    pub shift: bool,
}

/// A text being entered.
pub struct TextEntry {
    pub kind: Keyboard,
    pub buffer: String,
    pub shift: bool,
}

impl View for TextEntry {
    type V = Entry;

    open spec fn view(&self) -> Entry {
        Entry { kind: self.kind, buffer: self.buffer@, shift: self.shift }
    }
}

/// An entry begins with no text and without capitals.
pub proof fn law_entry_begins_blank(kind: Keyboard)
    ensures
        blank_entry(kind).kind == kind,
        blank_entry(kind).buffer.len() == 0,
        !blank_entry(kind).shift,
{
}

/// Nothing entered yet.
pub open spec fn blank_entry(kind: Keyboard) -> Entry {
    Entry { kind, buffer: Seq::empty(), shift: false }
}

impl Entry {
    /// A tap ends the entry.
    pub open spec fn ends(self, p: TouchPoint) -> bool {
        done_hit().covers(p)
    }

    /// The entry after a tap that does not end it.
    pub open spec fn after(self, p: TouchPoint) -> Entry {
        if backspace_hit().covers(p) {
            Entry {
                buffer: if self.buffer.len() > 0 {
                    self.buffer.drop_last()
                } else {
                    self.buffer
                },
                ..self
            }
        } else if self.kind is Full && shift_hit().covers(p) {
            Entry { shift: !self.shift, ..self }
        } else if space_hit().covers(p) {
            Entry { buffer: self.buffer.push(' '), ..self }
        } else {
            match key_at(self.kind, self.shift, 0, p) {
                Some(c) => Entry { buffer: self.buffer.push(c), ..self },
                None => self,
            }
        }
    }

    /// The screen for the entry.
    pub open spec fn drawn(self, base: Seq<Op>, title: Seq<char>) -> Seq<Op> {
        controls_drawn(
            keys_drawn(
                header_drawn(base, title).push(frame_op(6, 28, W - 12, 26, Ink::Muted)).push(
                    text_op(
                        if self.buffer.len() == 0 {
                            "_"@
                        } else {
                            self.buffer
                        },
                        12,
                        34,
                        Font::Six13,
                        Ink::White,
                        Align::Left,
                    ),
                ),
                self.kind,
                self.shift,
                KEY_ROWS as nat,
            ),
            self.kind,
        )
    }
}

impl TextEntry {
    /// Nothing entered yet.
    pub fn new(kind: Keyboard) -> (t: TextEntry)
        ensures
            t@ == blank_entry(kind),
    {
        let t = TextEntry { kind, buffer: String::new(), shift: false };
        assert(t@ =~= blank_entry(kind));
        t
    }

    /// Draw the text field showing the current buffer (as typed), the keys and the controls.
    pub fn draw(&self, scene: &mut Scene, title: &str)
        ensures
            final(scene)@ == self@.drawn(old(scene)@, title@),
    {
        header(scene, title);
        scene.frame(6, 28, (W - 12) as u32, 26, Ink::Muted);
        if self.buffer.as_str().unicode_len() == 0 {
            scene.text("_", 12, 34, Font::Six13, Ink::White, Align::Left);
        } else {
            scene.text(self.buffer.as_str(), 12, 34, Font::Six13, Ink::White, Align::Left);
        }
        draw_keyboard(scene, self.kind, self.shift);
        draw_key_controls(scene, self.kind);
    }

    /// Take in a tap; returns whether it ends the entry.
    pub fn enter_text(&mut self, tap: TouchPoint) -> (done: bool)
        ensures
            done == old(self)@.ends(tap),
            final(self)@ == if done {
                old(self)@
            } else {
                old(self)@.after(tap)
            },
    {
        let y: i32 = H - 38;
        let shift = Hit::new(3, y, 44, 32);
        let space = Hit::new(50, y, W - 50 - 3 - 94, 32);
        let backspace = Hit::new(W - 94, y, 44, 32);
        let done = Hit::new(W - 47, y, 44, 32);
        if done.contains(tap) {
            return true;
        }
        if backspace.contains(tap) {
            let dropped: Option<char> = self.buffer.pop();
        } else if self.kind == Keyboard::Full && shift.contains(tap) {
            self.shift = !self.shift;
        } else if space.contains(tap) {
            self.buffer.push(' ');
        } else {
            match key_tapped(self.kind, self.shift, tap) {
                Some(c) => {
                    self.buffer.push(c);
                },
                None => {},
            }
        }
        false
    }
}

/// A tap anywhere on a key, which has its share of the width of its row less three pixels, types
/// what is on it.
pub proof fn law_keys_type_where_they_are(e: Entry, r: int, c: int, p: TouchPoint)
    requires
        0 <= r < 4,
        0 <= c < key_row(e.kind, e.shift, r).len(),
        70 + 33 * r <= p.y < 100 + 33 * r,
        ({
            let pitch = 237int / (key_row(e.kind, e.shift, r).len() as int);
            3 + c * pitch <= p.x < (c + 1) * pitch
        }),
    ensures
        !e.ends(p),
        e.after(p) == (Entry { buffer: e.buffer.push(key_row(e.kind, e.shift, r)[c]), ..e }),
{
    let row = key_row(e.kind, e.shift, r);
    lemma_row_len(e.kind, e.shift, r);
    let n = row.len() as int;
    lemma_key_hit(n, r, c);
    let w = key_pitch(n);
    assert((c + 1) * w == c * w + w) by (nonlinear_arith);
    lemma_rows_before(e.kind, e.shift, 0, r, p);
    lemma_keys_before(row, r, 0, c, p);
}

/// No key of an earlier row is where a key of a later one is.
proof fn lemma_rows_before(kind: Keyboard, shift: bool, from: int, r: int, p: TouchPoint)
    requires
        0 <= from <= r < KEY_ROWS,
        70 + r * 33 <= p.y,
    ensures
        key_at(kind, shift, from, p) == key_at(kind, shift, r, p),
    decreases r - from,
{
    if from < r {
        lemma_row_len(kind, shift, from);
        lemma_no_key(key_row(kind, shift, from), from, 0, p);
        lemma_rows_before(kind, shift, from + 1, r, p);
    }
}

/// No earlier key of a row is where a later one is.
proof fn lemma_keys_before(row: Seq<char>, r: int, from: int, c: int, p: TouchPoint)
    requires
        0 <= r < KEY_ROWS,
        0 <= from <= c < row.len(),
        3 <= row.len() <= 10,
        key_hit(row.len() as int, r, c).covers(p),
    ensures
        key_in_row(row, r, from, p) == Some(row[c]),
    decreases c - from,
{
    let n = row.len() as int;
    lemma_key_hit(n, r, from);
    lemma_key_hit(n, r, c);
    if from < c {
        let w = key_pitch(n);
        assert(from * w + w <= c * w) by (nonlinear_arith)
            requires
                from < c,
                w >= 0,
        ;
        lemma_keys_before(row, r, from + 1, c, p);
    }
}

/// Where there is no key nothing is typed: what a tap types is on a key that it is on.
pub proof fn law_only_keys_type(kind: Keyboard, shift: bool, p: TouchPoint)
    ensures
        key_at(kind, shift, 0, p) matches Some(ch) ==> exists|r: int, c: int|
            {
                let row = key_row(kind, shift, r);
                &&& 0 <= r < 4
                &&& 0 <= c < row.len()
                &&& #[trigger] key_row(kind, shift, r)[c] == ch
                &&& 70 + 33 * r <= p.y < 100 + 33 * r
                &&& 3 + c * (237int / (row.len() as int)) <= p.x
                &&& p.x < (c + 1) * (237int / (row.len() as int))
            },
{
    lemma_some_key(kind, shift, 0, p);
}

proof fn lemma_some_key(kind: Keyboard, shift: bool, from: int, p: TouchPoint)
    requires
        0 <= from <= KEY_ROWS,
    ensures
        key_at(kind, shift, from, p) matches Some(ch) ==> exists|r: int, c: int|
            {
                let row = key_row(kind, shift, r);
                &&& 0 <= r < 4
                &&& 0 <= c < row.len()
                &&& #[trigger] key_row(kind, shift, r)[c] == ch
                &&& 70 + 33 * r <= p.y < 100 + 33 * r
                &&& 3 + c * (237int / (row.len() as int)) <= p.x
                &&& p.x < (c + 1) * (237int / (row.len() as int))
            },
    decreases KEY_ROWS - from,
{
    if from < KEY_ROWS {
        let row = key_row(kind, shift, from);
        lemma_row_len(kind, shift, from);
        let c = lemma_some_key_in_row(row, from, 0, p);
        if key_in_row(row, from, 0, p) is Some {
            let n = row.len() as int;
            lemma_key_hit(n, from, c);
            let w = key_pitch(n);
            assert((c + 1) * w == c * w + w) by (nonlinear_arith);
            assert(key_row(kind, shift, from)[c] == row[c]);
        } else {
            lemma_some_key(kind, shift, from + 1, p);
        }
    }
}

proof fn lemma_some_key_in_row(row: Seq<char>, r: int, from: int, p: TouchPoint) -> (c: int)
    requires
        0 <= from <= row.len(),
    ensures
        key_in_row(row, r, from, p) matches Some(ch) ==> from <= c < row.len() && row[c] == ch
            && key_hit(row.len() as int, r, c).covers(p),
    decreases row.len() - from,
{
    if from < row.len() && !key_hit(row.len() as int, r, from).covers(p) {
        lemma_some_key_in_row(row, r, from + 1, p)
    } else {
        from
    }
}

/// The controls stand below the keys: shift, which only the full keyboard has and which changes
/// nothing but itself, the space bar, backspace, which takes back one character if there is any,
/// and the key that ends the entry.
pub proof fn law_controls(e: Entry, p: TouchPoint)
    ensures
        e.ends(p) <==> 282 <= p.y < 314 && 193 <= p.x < 237,
        282 <= p.y < 314 && 146 <= p.x < 190 && e.buffer.len() > 0 ==> e.after(p) == (Entry {
            buffer: e.buffer.take(e.buffer.len() - 1),
            ..e
        }),
        282 <= p.y < 314 && 146 <= p.x < 190 && e.buffer.len() == 0 ==> e.after(p) == e,
        282 <= p.y < 314 && 50 <= p.x < 143 ==> e.after(p) == (Entry {
            buffer: e.buffer + seq![' '],
            ..e
        }),
        282 <= p.y < 314 && 3 <= p.x < 47 && e.kind is Full ==> e.after(p) == (Entry {
            shift: !e.shift,
            ..e
        }),
        282 <= p.y < 314 && 3 <= p.x < 47 && e.kind is Numeric ==> e.after(p) == e,
        p.y < 70 || 199 <= p.y < 282 || 314 <= p.y ==> !e.ends(p) && e.after(p) == e,
        e.after(p).kind == e.kind,
{
    if key_at(e.kind, e.shift, 0, p) is Some {
        law_only_keys_type(e.kind, e.shift, p);
    }
    if e.buffer.len() > 0 {
        assert(e.buffer.drop_last() =~= e.buffer.take(e.buffer.len() - 1));
    }
    assert(e.buffer.push(' ') =~= e.buffer + seq![' ']);
}

/// The screen for an entry covers what was there and shows its title, the text as it was typed or a
/// line where there is none yet, every key of the keyboard with what it types at its place, and
/// the controls.
pub proof fn law_entry_is_shown_as_typed(
    e: Entry,
    base: Seq<Op>,
    title: Seq<char>,
    r: int,
    c: int,
)
    requires
        0 <= r < 4,
        0 <= c < key_row(e.kind, e.shift, r).len(),
    ensures
        ({
            let s = e.drawn(base, title);
            let n = base.len() as int;
            let pitch = 237int / (key_row(e.kind, e.shift, r).len() as int);
            &&& s[n] is Clear
            &&& s.len() > n + 4
            &&& s[n + 2] is Text && s[n + 2]->Text_text == title
            &&& s[n + 4] is Text && s[n + 4]->Text_x == 12 && s[n + 4]->Text_y == 34
            &&& s[n + 4]->Text_text == if e.buffer.len() == 0 {
                seq!['_']
            } else {
                e.buffer
            }
            &&& exists|k: int|
                {
                    &&& n <= k < s.len() - 1
                    &&& (#[trigger] s[k]) is Key
                    &&& s[k]->Key_x == 3 + c * pitch
                    &&& s[k]->Key_y == 70 + 33 * r
                    &&& s[k]->Key_w == pitch - 3
                    &&& s[k]->Key_h == 30
                    &&& s[k + 1] is Text
                    &&& s[k + 1]->Text_text == seq![key_row(e.kind, e.shift, r)[c]]
                }
            &&& s[s.len() - 2] == (DrawOp::<Seq<char>>::Key {
                x: 193,
                y: 282,
                w: 44,
                h: 32,
                ink: Ink::Accent,
            })
            &&& s[s.len() - 1] is Text && s[s.len() - 1]->Text_text == "OK"@
            &&& s[s.len() - 4] == (DrawOp::<Seq<char>>::Key {
                x: 146,
                y: 282,
                w: 44,
                h: 32,
                ink: Ink::Key,
            })
            &&& s[s.len() - 3] is Text && s[s.len() - 3]->Text_text == "<-"@
            &&& s[s.len() - 6] == (DrawOp::<Seq<char>>::Key {
                x: 50,
                y: 282,
                w: 93,
                h: 32,
                ink: Ink::Key,
            })
            &&& s[s.len() - 5] is Text && s[s.len() - 5]->Text_text == "space"@
            &&& e.kind is Full ==> s[s.len() - 8] == (DrawOp::<Seq<char>>::Key {
                x: 3,
                y: 282,
                w: 44,
                h: 32,
                ink: Ink::Key,
            }) && s[s.len() - 7] is Text && s[s.len() - 7]->Text_text == "Sh"@
        }),
{
    reveal_strlit("_");
    assert("_"@ =~= seq!['_']);
    let n = base.len() as int;
    let field = header_drawn(base, title).push(frame_op(6, 28, W - 12, 26, Ink::Muted)).push(
        text_op(
            if e.buffer.len() == 0 {
                "_"@
            } else {
                e.buffer
            },
            12,
            34,
            Font::Six13,
            Ink::White,
            Align::Left,
        ),
    );
    let keys = keys_drawn(field, e.kind, e.shift, 4);
    let s = e.drawn(base, title);
    lemma_keys_drawn(field, e.kind, e.shift, 4, r, c);
    assert(keys.is_prefix_of(s));
    assert(field.is_prefix_of(s));
    assert(s[n] == field[n] && s[n + 2] == field[n + 2] && s[n + 4] == field[n + 4]);
    assert(key_shown(keys, n, e.kind, e.shift, r, c));
    lemma_key_stays(keys, s, n, e.kind, e.shift, r, c);
    lemma_row_len(e.kind, e.shift, r);
    lemma_key_hit(key_row(e.kind, e.shift, r).len() as int, r, c);
}

/// A key is drawn at its place, with what it types on it.
spec fn key_shown(
    s: Seq<Op>,
    from: int,
    kind: Keyboard,
    shift: bool,
    r: int,
    c: int,
) -> bool {
    let row = key_row(kind, shift, r);
    let hit = key_hit(row.len() as int, r, c);
    exists|k: int|
        {
            &&& from <= k < s.len() - 1
            &&& (#[trigger] s[k]) is Key
            &&& s[k]->Key_x == hit.x
            &&& s[k]->Key_y == hit.y
            &&& s[k]->Key_w == hit.w
            &&& s[k]->Key_h == hit.h
            &&& s[k + 1] is Text
            &&& s[k + 1]->Text_text == seq![row[c]]
        }
}

proof fn lemma_key_stays(
    s: Seq<Op>,
    t: Seq<Op>,
    from: int,
    kind: Keyboard,
    shift: bool,
    r: int,
    c: int,
)
    requires
        0 <= from,
        s.is_prefix_of(t),
        key_shown(s, from, kind, shift, r, c),
    ensures
        key_shown(t, from, kind, shift, r, c),
{
    let row = key_row(kind, shift, r);
    let hit = key_hit(row.len() as int, r, c);
    let k = choose|k: int|
        {
            &&& from <= k < s.len() - 1
            &&& (#[trigger] s[k]) is Key
            &&& s[k]->Key_x == hit.x
            &&& s[k]->Key_y == hit.y
            &&& s[k]->Key_w == hit.w
            &&& s[k]->Key_h == hit.h
            &&& s[k + 1] is Text
            &&& s[k + 1]->Text_text == seq![row[c]]
        };
    assert(t[k] == s[k] && t[k + 1] == s[k + 1]);
}

proof fn lemma_row_drawn(base: Seq<Op>, kind: Keyboard, shift: bool, r: int, n: nat, c: int)
    requires
        0 <= r < 4,
        n <= key_row(kind, shift, r).len(),
    ensures
        base.is_prefix_of(row_drawn(base, key_row(kind, shift, r), r, n)),
        0 <= c < n ==> key_shown(
            row_drawn(base, key_row(kind, shift, r), r, n),
            base.len() as int,
            kind,
            shift,
            r,
            c,
        ),
    decreases n,
{
    if n > 0 {
        let row = key_row(kind, shift, r);
        let before = row_drawn(base, row, r, (n - 1) as nat);
        let s = row_drawn(base, row, r, n);
        lemma_row_drawn(base, kind, shift, r, (n - 1) as nat, c);
        assert(before.is_prefix_of(s));
        if 0 <= c < n - 1 {
            lemma_key_stays(before, s, base.len() as int, kind, shift, r, c);
        } else if c == n - 1 {
            lemma_row_len(kind, shift, r);
            lemma_key_hit(row.len() as int, r, c);
            assert(s[before.len() as int] is Key);
        }
    }
}

proof fn lemma_keys_drawn(base: Seq<Op>, kind: Keyboard, shift: bool, n: nat, r: int, c: int)
    requires
        n <= 4,
        0 <= r < 4,
        0 <= c < key_row(kind, shift, r).len(),
    ensures
        base.is_prefix_of(keys_drawn(base, kind, shift, n)),
        r < n ==> key_shown(
            keys_drawn(base, kind, shift, n),
            base.len() as int,
            kind,
            shift,
            r,
            c,
        ),
    decreases n,
{
    if n > 0 {
        let row = key_row(kind, shift, n - 1);
        let before = keys_drawn(base, kind, shift, (n - 1) as nat);
        let s = keys_drawn(base, kind, shift, n);
        lemma_keys_drawn(base, kind, shift, (n - 1) as nat, r, c);
        lemma_row_drawn(before, kind, shift, n - 1, row.len(), c);
        assert(before.is_prefix_of(s));
        assert(base.is_prefix_of(s));
        if r < n - 1 {
            lemma_key_stays(before, s, base.len() as int, kind, shift, r, c);
        } else if r == n - 1 {
            lemma_shown_later(s, base.len() as int, before.len() as int, kind, shift, r, c);
        }
    }
}

proof fn lemma_shown_later(
    s: Seq<Op>,
    from: int,
    later: int,
    kind: Keyboard,
    shift: bool,
    r: int,
    c: int,
)
    requires
        from <= later,
        key_shown(s, later, kind, shift, r, c),
    ensures
        key_shown(s, from, kind, shift, r, c),
{
}

/// The middle of a key.
pub open spec fn key_center(n: int, r: int, c: int) -> TouchPoint {
    TouchPoint {
        x: (3 + c * key_pitch(n) + key_pitch(n) / 2 - 2) as i32,
        y: (70 + r * 33 + 15) as i32,
    }
}

/// Every key types its character: a tap in its middle appends the character and changes nothing
/// else.
pub proof fn law_every_key_types(e: Entry, r: int, c: int)
    requires
        0 <= r < KEY_ROWS,
        0 <= c < key_row(e.kind, e.shift, r).len(),
    ensures
        ({
            let row = key_row(e.kind, e.shift, r);
            let p = key_center(row.len() as int, r, c);
            !e.ends(p) && e.after(p) == (Entry { buffer: e.buffer.push(row[c]), ..e })
        }),
{
    lemma_row_len(e.kind, e.shift, r);
    let row = key_row(e.kind, e.shift, r);
    let n = row.len() as int;
    lemma_key_hit(n, r, c);
    let p = key_center(n, r, c);
    assert(p.x == 3 + c * key_pitch(n) + key_pitch(n) / 2 - 2);
    lemma_earlier_rows(e.kind, e.shift, 0, r, p);
    lemma_earlier_keys(row, r, 0, c, p);
}

/// No key of an earlier row is in the way.
proof fn lemma_earlier_rows(kind: Keyboard, shift: bool, from: int, r: int, p: TouchPoint)
    requires
        0 <= from <= r < KEY_ROWS,
        p.y == 70 + r * 33 + 15,
    ensures
        key_at(kind, shift, from, p) == key_at(kind, shift, r, p),
    decreases r - from,
{
    if from < r {
        lemma_row_len(kind, shift, from);
        lemma_no_key(key_row(kind, shift, from), from, 0, p);
        lemma_earlier_rows(kind, shift, from + 1, r, p);
    }
}

proof fn lemma_no_key(row: Seq<char>, r: int, c: int, p: TouchPoint)
    requires
        0 <= r < KEY_ROWS,
        0 <= c <= row.len(),
        3 <= row.len() <= 10,
        p.y >= 70 + r * 33 + 30,
    ensures
        key_in_row(row, r, c, p) is None,
    decreases row.len() - c,
{
    if c < row.len() {
        lemma_key_hit(row.len() as int, r, c);
        lemma_no_key(row, r, c + 1, p);
    }
}

/// No earlier key of the row is in the way.
proof fn lemma_earlier_keys(row: Seq<char>, r: int, from: int, c: int, p: TouchPoint)
    requires
        0 <= r < KEY_ROWS,
        0 <= from <= c < row.len(),
        3 <= row.len() <= 10,
        p.x == 3 + c * key_pitch(row.len() as int) + key_pitch(row.len() as int) / 2 - 2,
        p.y == 70 + r * 33 + 15,
    ensures
        key_in_row(row, r, from, p) == Some(row[c]),
    decreases c - from,
{
    let n = row.len() as int;
    lemma_key_hit(n, r, from);
    if from < c {
        let w = key_pitch(n);
        assert(from * w + w <= c * w) by (nonlinear_arith)
            requires
                from < c,
                w >= 0,
        ;
        lemma_earlier_keys(row, r, from + 1, c, p);
    }
}

/// Backspace takes back what was typed last.
pub proof fn law_backspace_undoes_typing(e: Entry, r: int, c: int, back: TouchPoint)
    requires
        0 <= r < KEY_ROWS,
        0 <= c < key_row(e.kind, e.shift, r).len(),
        backspace_hit().covers(back),
    ensures
        e.after(key_center(key_row(e.kind, e.shift, r).len() as int, r, c)).after(back) == e,
{
    law_every_key_types(e, r, c);
    let row = key_row(e.kind, e.shift, r);
    assert(e.buffer.push(row[c]).drop_last() =~= e.buffer);
}

} // verus!
