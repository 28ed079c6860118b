//! Picking from lists: networks, page by page, and security types.

use vstd::prelude::*;

use crate::config::{all_auths, auth_label, WifiAuth};
use crate::draw::{text_op, Align, DrawOp, Font, Ink, Op, Scene};
use crate::provisioning::widgets::{
    button, button_drawn, header, header_drawn, Hit,
};
use crate::touch::TouchPoint;
use crate::ui::{H, W};

verus! {

/// How many networks a page shows.
pub const PAGE: usize = 8;

/// The end of the page that begins at `offset`.
pub open spec fn page_end(len: nat, offset: nat) -> nat {
    if offset + PAGE < len {
        offset + PAGE as nat
    } else {
        len
    }
}

/// The region of a page's row.
pub open spec fn row_hit(row: int) -> Hit {
    Hit { x: 6, y: (30 + row * 26) as i32, w: (W - 12) as i32, h: 22 }
}

/// The region that pages up.
pub open spec fn up_hit() -> Hit {
    Hit { x: 6, y: (H - 34) as i32, w: 60, h: 28 }
}

/// The region that pages down.
pub open spec fn down_hit() -> Hit {
    Hit { x: 72, y: (H - 34) as i32, w: 60, h: 28 }
}

/// The region for typing a name by hand.
pub open spec fn manual_hit() -> Hit {
    Hit { x: (W - 96) as i32, y: (H - 34) as i32, w: 90, h: 28 }
}

/// A scene with the first `n` rows of the page at `offset`.
pub open spec fn rows_drawn(
    base: Seq<Op>,
    ssids: Seq<String>,
    offset: nat,
    n: nat,
) -> Seq<Op>
    decreases n,
{
    if n == 0 {
        base
    } else {
        let row = n - 1;
        button_drawn(
            rows_drawn(base, ssids, offset, row as nat),
            row_hit(row),
            ""@,
            false,
        ).push(
            text_op(
                ssids[offset + row]@,
                14,
                30 + row * 26 + 4,
                Font::Six13,
                Ink::White,
                Align::Left,
            ),
        )
    }
}

/// A scene with the page of networks at `offset`.
pub open spec fn picker_drawn(base: Seq<Op>, ssids: Seq<String>, offset: nat) -> Seq<Op> {
    let end = page_end(ssids.len(), offset);
    let rows = rows_drawn(
        header_drawn(base, "Select Wi-Fi"@),
        ssids,
        offset,
        (end - offset) as nat,
    );
    button_drawn(
        button_drawn(
            button_drawn(rows, up_hit(), "Up"@, offset > 0),
            down_hit(),
            "Down"@,
            end < ssids.len(),
        ),
        manual_hit(),
        "Manual"@,
        false,
    )
}

/// What the first `n` rows of a page add to a scene.
proof fn lemma_rows_drawn(base: Seq<Op>, ssids: Seq<String>, offset: nat, n: nat, row: int)
    requires
        n <= 8,
        0 <= row < n || (row == 0 && n == 0),
    ensures
        ({
            let s = rows_drawn(base, ssids, offset, n);
            let k = base.len() + 3 * row;
            &&& s.len() == base.len() + 3 * n
            &&& s.take(base.len() as int) == base
            &&& row < n ==> s[k] is Key && s[k]->Key_x == 6 && s[k]->Key_y == 30 + 26 * row
                && s[k]->Key_w == 228 && s[k]->Key_h == 22 && s[k]->Key_ink is Key && s[k + 1] is Text
                && s[k + 1]->Text_text.len() == 0 && s[k + 2] == (DrawOp::Text {
                text: ssids[offset + row]@,
                x: 14,
                y: (34 + 26 * row) as i32,
                font: Font::Six13,
                ink: Ink::White,
                align: Align::Left,
            })
        }),
    decreases n,
{
    let s = rows_drawn(base, ssids, offset, n);
    reveal_strlit("");
    if n > 0 {
        let before = rows_drawn(base, ssids, offset, (n - 1) as nat);
        if row < n - 1 {
            lemma_rows_drawn(base, ssids, offset, (n - 1) as nat, row);
            let k = base.len() + 3 * row;
            assert(s[k] == before[k] && s[k + 1] == before[k + 1] && s[k + 2] == before[k + 2]);
        } else {
            lemma_rows_drawn(base, ssids, offset, (n - 1) as nat, 0);
        }
        assert(s.take(base.len() as int) =~= before.take(base.len() as int));
    } else {
        assert(s.take(base.len() as int) =~= base);
    }
}

/// The page that begins at an offset shows the networks from there on, eight of them or as many as
/// are left, one below the other in the rows that pick them. Up is highlighted if there are
/// networks before the page, and Down if there are any behind it.
pub proof fn law_page_shows_its_networks(
    base: Seq<Op>,
    ssids: Seq<String>,
    offset: nat,
    row: int,
)
    requires
        offset < ssids.len(),
        0 <= row < 8,
        offset + row < ssids.len(),
    ensures
        ({
            let s = picker_drawn(base, ssids, offset);
            let rows = if ssids.len() - offset < 8 {
                ssids.len() - offset
            } else {
                8
            };
            let n = base.len() as int;
            let k = n + 3 + 3 * row;
            let end = n + 3 + 3 * rows;
            &&& s.len() == end + 6
            &&& s.take(n) == base
            &&& s[n] is Clear
            &&& s[k] is Key && s[k]->Key_x == 6 && s[k]->Key_y == 30 + 26 * row && s[k]->Key_w
                == 228 && s[k]->Key_h == 22 && s[k]->Key_ink is Key
            &&& s[k + 1] is Text && s[k + 1]->Text_text.len() == 0
            &&& s[k + 2] == (DrawOp::Text {
                text: ssids[offset + row]@,
                x: 14,
                y: (34 + 26 * row) as i32,
                font: Font::Six13,
                ink: Ink::White,
                align: Align::Left,
            })
            &&& s[end] == (DrawOp::<Seq<char>>::Key {
                x: 6,
                y: 286,
                w: 60,
                h: 28,
                ink: if offset > 0 {
                    Ink::Accent
                } else {
                    Ink::Key
                },
            })
            &&& s[end + 1] is Text && s[end + 1]->Text_text == "Up"@
            &&& s[end + 2] == (DrawOp::<Seq<char>>::Key {
                x: 72,
                y: 286,
                w: 60,
                h: 28,
                ink: if ssids.len() - offset > 8 {
                    Ink::Accent
                } else {
                    Ink::Key
                },
            })
            &&& s[end + 3] is Text && s[end + 3]->Text_text == "Down"@
            &&& s[end + 4] is Key && s[end + 4]->Key_x == 144 && s[end + 4]->Key_y == 286
            &&& s[end + 5] is Text && s[end + 5]->Text_text == "Manual"@
        }),
{
    let n = base.len() as int;
    let head = header_drawn(base, "Select Wi-Fi"@);
    let end = page_end(ssids.len(), offset);
    let rows = rows_drawn(head, ssids, offset, (end - offset) as nat);
    lemma_rows_drawn(head, ssids, offset, (end - offset) as nat, row);
    let s = picker_drawn(base, ssids, offset);
    let k = n + 3 + 3 * row;
    assert(s[k] == rows[k] && s[k + 1] == rows[k + 1] && s[k + 2] == rows[k + 2]);
    assert(s[n] == rows[n] && rows[n] == rows.take(n + 3)[n]);
    assert(s.take(n) =~= rows.take(n + 3).take(n));
    assert(head.take(n) =~= base);
}

/// The list of networks says at its top what it is for.
pub proof fn law_picker_has_its_title(base: Seq<Op>, ssids: Seq<String>, offset: nat)
    requires
        offset < ssids.len(),
    ensures
        picker_drawn(base, ssids, offset).len() > base.len() + 2,
        picker_drawn(base, ssids, offset)[base.len() as int + 2] is Text,
        picker_drawn(base, ssids, offset)[base.len() as int + 2]->Text_text == "Select Wi-Fi"@,
{
    let head = header_drawn(base, "Select Wi-Fi"@);
    let end = page_end(ssids.len(), offset);
    let rows = rows_drawn(head, ssids, offset, (end - offset) as nat);
    lemma_rows_drawn(head, ssids, offset, (end - offset) as nat, 0);
    let k = base.len() as int + 2;
    assert(rows.take(head.len() as int)[k] == head[k]);
    assert(picker_drawn(base, ssids, offset)[k] == rows[k]);
}

fn end_of_page(len: usize, offset: usize) -> (end: usize)
    requires
        offset <= len,
    ensures
        end == page_end(len as nat, offset as nat),
{
    if len - offset > PAGE {
        offset + PAGE
    } else {
        len
    }
}

/// Draw the page of networks at `offset`, with Up/Down paging and manual entry below.
pub fn draw_picker(scene: &mut Scene, ssids: &Vec<String>, offset: usize)
    requires
        offset < ssids@.len(),
    ensures
        final(scene)@ == picker_drawn(old(scene)@, ssids@, offset as nat),
{
    header(scene, "Select Wi-Fi");
    let end: usize = end_of_page(ssids.len(), offset);
    let ghost base = scene@;
    let mut row: usize = 0;
    while row < end - offset
        invariant
            offset < ssids@.len(),
            end == page_end(ssids@.len(), offset as nat),
            row <= end - offset <= PAGE,
            scene@ == rows_drawn(base, ssids@, offset as nat, row as nat),
        decreases end - offset - row,
    {
        let y: i32 = 30 + row as i32 * 26;
        let hit = Hit::new(6, y, W - 12, 22);
        button(scene, &hit, "", false);
        scene.text(
            ssids[offset + row].as_str(),
            14,
            y + 4,
            Font::Six13,
            Ink::White,
            Align::Left,
        );
        row = row + 1;
    }
    let up = Hit::new(6, H - 34, 60, 28);
    let down = Hit::new(72, H - 34, 60, 28);
    let manual = Hit::new(W - 96, H - 34, 90, 28);
    button(scene, &up, "Up", offset > 0);
    button(scene, &down, "Down", end < ssids.len());
    button(scene, &manual, "Manual", false);
}

/// What a tap on the list of networks means.
#[derive(Debug, Clone, Copy, PartialEq, Eq, Structural)]
pub enum Pick {
    /// Show the page at this offset.
    Page(usize),
    /// Type a name by hand.
    Manual,
    /// This network.
    Network(usize),
    /// Nothing.
    Nothing,
}

/// The first row from `row` on, below `n`, that a point is in.
pub open spec fn row_at(p: TouchPoint, row: int, n: int) -> Option<int>
    decreases n - row,
{
    if row >= n {
        None
    } else if row_hit(row).covers(p) {
        Some(row)
    } else {
        row_at(p, row + 1, n)
    }
}

/// What a tap on the page at `offset` of `len` networks means.
pub open spec fn picked(len: nat, offset: nat, p: TouchPoint) -> Pick {
    let end = page_end(len, offset);
    if up_hit().covers(p) && offset > 0 {
        Pick::Page(
            if offset > PAGE {
                (offset - PAGE) as usize
            } else {
                0
            },
        )
    } else if down_hit().covers(p) && end < len {
        Pick::Page((offset + PAGE) as usize)
    } else if manual_hit().covers(p) {
        Pick::Manual
    } else {
        match row_at(p, 0, end - offset) {
            Some(row) => Pick::Network((offset + row) as usize),
            None => Pick::Nothing,
        }
    }
}

/// What a tap on the page at `offset` of `len` networks means. Pages that are shown next begin
/// inside the list.
pub fn select_ssid(len: usize, offset: usize, tap: TouchPoint) -> (pick: Pick)
    requires
        offset < len,
    ensures
        pick == picked(len as nat, offset as nat, tap),
        pick matches Pick::Page(o) ==> o < len,
        pick matches Pick::Network(i) ==> i < len,
{
    let end: usize = end_of_page(len, offset);
    let up = Hit::new(6, H - 34, 60, 28);
    let down = Hit::new(72, H - 34, 60, 28);
    let manual = Hit::new(W - 96, H - 34, 90, 28);
    if up.contains(tap) && offset > 0 {
        return Pick::Page(
            if offset > PAGE {
                offset - PAGE
            } else {
                0
            },
        );
    }
    if down.contains(tap) && end < len {
        return Pick::Page(offset + PAGE);
    }
    if manual.contains(tap) {
        return Pick::Manual;
    }
    let mut row: usize = 0;
    while row < end - offset
        invariant
            offset < len,
            end == page_end(len as nat, offset as nat),
            row <= end - offset <= PAGE,
            row_at(tap, 0, end - offset) == row_at(tap, row as int, end - offset),
        decreases end - offset - row,
    {
        let hit = Hit::new(6, 30 + row as i32 * 26, W - 12, 22);
        if hit.contains(tap) {
            return Pick::Network(offset + row);
        }
        row = row + 1;
    }
    Pick::Nothing
}

/// Which row a point is in.
proof fn lemma_row_found(p: TouchPoint, from: int, n: int)
    requires
        0 <= from <= n <= 8,
    ensures
        row_at(p, from, n) is Some <==> exists|row: int|
            from <= row < n && #[trigger] row_hit(row).covers(p),
        row_at(p, from, n) matches Some(row) ==> from <= row < n && row_hit(row).covers(p),
    decreases n - from,
{
    if from < n {
        lemma_row_found(p, from + 1, n);
    }
}

/// A tap picks a network if and only if it is on one of the rows of the page, of which there are
/// eight or as many as there are networks left, and then the network of that row. Below the rows,
/// Up goes to the page before, if there is one, Down to the next, if there is one, and Manual is
/// for typing a name. No other tap means anything.
pub proof fn law_taps_on_the_list(len: nat, offset: nat, p: TouchPoint)
    requires
        offset < len <= usize::MAX,
    ensures
        ({
            let rows = if len - offset < 8 {
                len - offset
            } else {
                8
            };
            let low = 286 <= p.y < 314;
            let up = low && 6 <= p.x < 66 && offset > 0;
            let down = low && 72 <= p.x < 132 && len - offset > 8;
            let manual = low && 144 <= p.x < 234;
            let pick = picked(len, offset, p);
            &&& up ==> pick == Pick::Page(
                (if offset < 8 {
                    0
                } else {
                    offset - 8
                }) as usize,
            )
            &&& down ==> pick == Pick::Page((offset + 8) as usize)
            &&& pick is Page <==> up || down
            &&& pick is Manual <==> manual
            &&& forall|row: int|
                0 <= row < rows && 6 <= p.x < 234 && 30 + 26 * row <= p.y < 52 + 26 * row
                    ==> #[trigger] row_pick(offset, row) == pick
            &&& pick matches Pick::Network(i) ==> {
                let row = i - offset;
                &&& 0 <= row < rows
                &&& 6 <= p.x < 234
                &&& 30 + 26 * row <= p.y < 52 + 26 * row
            }
        }),
{
    let n = page_end(len, offset) - offset;
    lemma_row_found(p, 0, n);
    assert forall|row: int|
        0 <= row < n && 6 <= p.x < 234 && 30 + 26 * row <= p.y < 52 + 26 * row implies
        #[trigger] row_pick(offset, row) == picked(len, offset, p) by {
        assert(row_hit(row).covers(p));
        let found = row_at(p, 0, n)->0;
        assert(row_hit(found).covers(p));
        assert(found == row);
    }
}

/// The pick of the network in a row of the page at `offset`.
pub open spec fn row_pick(offset: nat, row: int) -> Pick {
    Pick::Network((offset + row) as usize)
}

/// The offset after some taps on Down from the first page.
pub open spec fn paged_down(len: nat, taps: nat) -> nat
    decreases taps,
{
    if taps == 0 {
        0
    } else {
        let before = paged_down(len, (taps - 1) as nat);
        match picked(len, before, TouchPoint { x: 80, y: 300 }) {
            Pick::Page(offset) => offset as nat,
            _ => before,
        }
    }
}

/// Every network can be picked: paging down brings up its page, and a tap on its row there picks
/// it.
pub proof fn law_every_network_can_be_picked(len: nat, i: nat)
    requires
        i < len <= usize::MAX,
    ensures
        ({
            let offset = paged_down(len, i / PAGE as nat);
            let row = (i - offset) as int;
            let p = TouchPoint { x: 120, y: (30 + row * 26 + 10) as i32 };
            offset <= i < page_end(len, offset) && picked(len, offset, p) == Pick::Network(
                i as usize,
            )
        }),
{
    let n = i / PAGE as nat;
    lemma_paged_down(len, n);
    let offset = paged_down(len, n);
    let row = i - offset;
    let p = TouchPoint { x: 120, y: (30 + row * 26 + 10) as i32 };
    lemma_row_at(p, 0, row, page_end(len, offset) - offset);
}

proof fn lemma_paged_down(len: nat, n: nat)
    requires
        n * 8 < len <= usize::MAX,
    ensures
        paged_down(len, n) == n * 8,
    decreases n,
{
    if n > 0 {
        lemma_paged_down(len, (n - 1) as nat);
    }
}

proof fn lemma_row_at(p: TouchPoint, from: int, row: int, n: int)
    requires
        0 <= from <= row < n <= 8,
        p.x == 120,
        p.y == 30 + row * 26 + 10,
    ensures
        row_at(p, from, n) == Some(row),
    decreases row - from,
{
    if from < row {
        lemma_row_at(p, from + 1, row, n);
    }
}

/// The region of a security type's row.
pub open spec fn auth_hit(i: int) -> Hit {
    Hit { x: 20, y: (40 + i * 48) as i32, w: (W - 40) as i32, h: 40 }
}

/// A scene with the first `n` security types.
pub open spec fn auths_drawn(base: Seq<Op>, n: nat) -> Seq<Op>
    decreases n,
{
    if n == 0 {
        base
    } else {
        button_drawn(
            auths_drawn(base, (n - 1) as nat),
            auth_hit(n - 1),
            auth_label(all_auths()[n - 1]),
            n == 1,
        )
    }
}

/// A scene with the choice of security types.
pub open spec fn security_drawn(base: Seq<Op>) -> Seq<Op> {
    auths_drawn(header_drawn(base, "Wi-Fi security"@), all_auths().len())
}

/// Draw the choice of security types, the default highlighted.
pub fn draw_security(scene: &mut Scene)
    ensures
        final(scene)@ == security_drawn(old(scene)@),
{
    header(scene, "Wi-Fi security");
    let auths: Vec<WifiAuth> = WifiAuth::all();
    let ghost base = scene@;
    let mut i: usize = 0;
    while i < auths.len()
        invariant
            auths@ == all_auths(),
            i <= auths@.len(),
            scene@ == auths_drawn(base, i as nat),
        decreases auths@.len() - i,
    {
        let hit = Hit::new(20, 40 + i as i32 * 48, W - 40, 40);
        button(scene, &hit, auths[i].label(), i == 0);
        i = i + 1;
    }
}

/// The first security type from `i` on whose row a point is in.
pub open spec fn auth_at(p: TouchPoint, i: int) -> Option<WifiAuth>
    decreases all_auths().len() - i,
{
    if i >= all_auths().len() {
        None
    } else if auth_hit(i).covers(p) {
        Some(all_auths()[i])
    } else {
        auth_at(p, i + 1)
    }
}

/// The security type a tap picks, if any.
pub fn select_security(tap: TouchPoint) -> (r: Option<WifiAuth>)
    ensures
        r == auth_at(tap, 0),
{
    let auths: Vec<WifiAuth> = WifiAuth::all();
    let mut i: usize = 0;
    while i < auths.len()
        invariant
            auths@ == all_auths(),
            i <= auths@.len(),
            auth_at(tap, 0) == auth_at(tap, i as int),
        decreases auths@.len() - i,
    {
        let hit = Hit::new(20, 40 + i as i32 * 48, W - 40, 40);
        if hit.contains(tap) {
            return Some(auths[i]);
        }
        i = i + 1;
    }
    None
}

/// Which security type's row a point is in.
proof fn lemma_auth_found(p: TouchPoint, from: int)
    requires
        0 <= from <= 5,
    ensures
        auth_at(p, from) is Some <==> exists|i: int|
            from <= i < 5 && #[trigger] auth_hit(i).covers(p),
        forall|i: int|
            from <= i < 5 && #[trigger] auth_hit(i).covers(p) ==> auth_at(p, from) == Some(
                all_auths()[i],
            ),
    decreases 5 - from,
{
    if from < 5 {
        lemma_auth_found(p, from + 1);
    }
}

/// A tap picks a security type exactly where its button is: they stand one below the other in their
/// order, each with its name, and the first of them is highlighted and no other.
pub proof fn law_security_types_are_where_they_are_drawn(base: Seq<Op>, i: int, p: TouchPoint)
    requires
        0 <= i < 5,
    ensures
        20 <= p.x < 220 && 40 + 48 * i <= p.y < 80 + 48 * i ==> auth_at(p, 0) == Some(
            all_auths()[i],
        ),
        auth_at(p, 0) is Some <==> 20 <= p.x < 220 && exists|k: int|
            0 <= k < 5 && 40 <= p.y - #[trigger] (48 * k) < 80,
        ({
            let s = security_drawn(base);
            let n = base.len() as int;
            let k = n + 3 + 2 * i;
            &&& s.len() == n + 13
            &&& s.take(n) == base
            &&& s[n] is Clear
            &&& s[k] is Key && s[k]->Key_x == 20 && s[k]->Key_y == 40 + 48 * i && s[k]->Key_w == 200
                && s[k]->Key_h == 40
            &&& s[k]->Key_ink is Accent <==> i == 0
            &&& s[k + 1] is Text && s[k + 1]->Text_text == auth_label(all_auths()[i])
        }),
{
    lemma_auth_found(p, 0);
    if auth_at(p, 0) is Some {
        let k = choose|k: int| 0 <= k < 5 && #[trigger] auth_hit(k).covers(p);
        assert(40 <= p.y - 48 * k < 80);
    }
    if 20 <= p.x < 220 && exists|k: int| 0 <= k < 5 && 40 <= p.y - #[trigger] (48 * k) < 80 {
        let k = choose|k: int| 0 <= k < 5 && 40 <= p.y - #[trigger] (48 * k) < 80;
        assert(auth_hit(k).covers(p));
    }
    if 20 <= p.x < 220 && 40 + 48 * i <= p.y < 80 + 48 * i {
        assert(auth_hit(i).covers(p));
    }
    let head = header_drawn(base, "Wi-Fi security"@);
    lemma_auths_drawn(head, 5, i);
    assert(head.take(base.len() as int) =~= base);
    let s = security_drawn(base);
    let n = base.len() as int;
    assert(s.take(n) =~= s.take(n + 3).take(n));
    assert(s[n] == s.take(n + 3)[n]);
}

proof fn lemma_auths_drawn(base: Seq<Op>, n: nat, i: int)
    requires
        n <= 5,
        0 <= i < n || (i == 0 && n == 0),
    ensures
        ({
            let s = auths_drawn(base, n);
            let k = base.len() + 2 * i;
            &&& s.len() == base.len() + 2 * n
            &&& s.take(base.len() as int) == base
            &&& i < n ==> {
                &&& s[k] is Key && s[k]->Key_x == 20 && s[k]->Key_y == 40 + 48 * i && s[k]->Key_w
                    == 200 && s[k]->Key_h == 40
                &&& s[k]->Key_ink is Accent <==> i == 0
                &&& s[k + 1] is Text && s[k + 1]->Text_text == auth_label(all_auths()[i])
            }
        }),
    decreases n,
{
    let s = auths_drawn(base, n);
    if n > 0 {
        let before = auths_drawn(base, (n - 1) as nat);
        if i < n - 1 {
            lemma_auths_drawn(base, (n - 1) as nat, i);
            let k = base.len() + 2 * i;
            assert(s[k] == before[k] && s[k + 1] == before[k + 1]);
        } else {
            lemma_auths_drawn(base, (n - 1) as nat, 0);
        }
        assert(s.take(base.len() as int) =~= before.take(base.len() as int));
    } else {
        assert(s.take(base.len() as int) =~= base);
    }
}

/// The choice of security types says at its top what it is for.
pub proof fn law_security_has_its_title(base: Seq<Op>)
    ensures
        security_drawn(base).len() > base.len() + 2,
        security_drawn(base)[base.len() as int + 2] is Text,
        security_drawn(base)[base.len() as int + 2]->Text_text == "Wi-Fi security"@,
{
    let head = header_drawn(base, "Wi-Fi security"@);
    lemma_auths_drawn(head, 5, 0);
    let k = base.len() as int + 2;
    assert(security_drawn(base).take(head.len() as int)[k] == head[k]);
}

/// Every security type can be picked by a tap on its row.
pub proof fn law_every_security_type_can_be_picked(i: int)
    requires
        0 <= i < all_auths().len(),
    ensures
        auth_at(TouchPoint { x: 120, y: (40 + i * 48 + 20) as i32 }, 0) == Some(all_auths()[i]),
{
    lemma_auth_at(TouchPoint { x: 120, y: (40 + i * 48 + 20) as i32 }, 0, i);
}

proof fn lemma_auth_at(p: TouchPoint, from: int, i: int)
    requires
        0 <= from <= i < all_auths().len(),
        p.x == 120,
        p.y == 40 + i * 48 + 20,
    ensures
        auth_at(p, from) == Some(all_auths()[i]),
    decreases i - from,
{
    if from < i {
        lemma_auth_at(p, from + 1, i);
    }
}

} // verus!
