//! The radar view: a window onto the map, and the parts of tiles that fill it.

use vstd::prelude::*;
use vstd::string::StringExecFns;

use crate::draw::{line_op, Ink, Op, Scene};
use crate::png_stream::format::{pixel_in_row, pixel_value, Row};
use crate::radar::frame::{
    blend_over, from_le, high_byte, law_transparent_pixel_keeps_frame, le16, lemma_le16, low_byte,
    over_pixel, to_le, HEADER_LEN,
};
use crate::radar::geometry::{
    center, centered, law_centering_keeps_position, tile_count, tiles_at, TILE_SIZE,
};
use crate::storage::{card_path, law_paths_stand_below_the_mount_point, path};
use crate::text::{decimal, joined, lemma_decimal_ends, push_decimal, same_text};

verus! {

/// Pixels along a side of the view.
pub const VIEW_SIZE: u32 = 240;

/// A window of `VIEW_SIZE` by `VIEW_SIZE` pixels in slippy-map pixel space.
#[derive(Debug, Clone, Copy, PartialEq, Eq, Structural)]
pub struct RadarView {
    pub x0: u32,
    pub y0: u32,
    pub zoom: u8,
}

/// A stretch of a tile along an axis, and where in the window it goes.
#[derive(Debug, Clone, Copy, PartialEq, Eq, Structural)]
pub struct Piece {
    pub tile: u32,
    pub crop: u32,
    pub len: u32,
    pub dest: u32,
}

/// The part of a tile that shows in the window, and where.
#[derive(Debug, Clone, Copy, PartialEq, Eq, Structural)]
pub struct Patch {
    pub tile_x: u32,
    pub tile_y: u32,
    pub crop_x: u32,
    pub crop_y: u32,
    pub w: u32,
    pub h: u32,
    pub dest_x: u32,
    pub dest_y: u32,
}

/// The stretches of tiles that a window that begins at `start` has along an axis.
pub open spec fn pieces(start: u32) -> Seq<Piece> {
    let tile = (start / 256) as u32;
    let crop = (start % 256) as u32;
    if crop <= 16 {
        seq![Piece { tile, crop, len: VIEW_SIZE, dest: 0 }]
    } else {
        let len = (256 - crop) as u32;
        seq![
            Piece { tile, crop, len, dest: 0 },
            Piece { tile: (tile + 1) as u32, crop: 0, len: (VIEW_SIZE - len) as u32, dest: len },
        ]
    }
}

fn axis_pieces(start: u32) -> (v: Vec<Piece>)
    ensures
        v@ == pieces(start),
        1 <= v@.len() <= 2,
{
    let tile: u32 = start / 256;
    let crop: u32 = start % 256;
    let mut v: Vec<Piece> = Vec::new();
    if crop <= 16 {
        v.push(Piece { tile, crop, len: VIEW_SIZE, dest: 0 });
    } else {
        let len: u32 = 256 - crop;
        v.push(Piece { tile, crop, len, dest: 0 });
        v.push(Piece { tile: tile + 1, crop: 0, len: VIEW_SIZE - len, dest: len });
    }
    assert(v@ =~= pieces(start));
    v
}

/// Where two stretches cross.
pub open spec fn crossing(x: Piece, y: Piece) -> Patch {
    Patch {
        tile_x: x.tile,
        tile_y: y.tile,
        crop_x: x.crop,
        crop_y: y.crop,
        w: x.len,
        h: y.len,
        dest_x: x.dest,
        dest_y: y.dest,
    }
}

/// The crossings of stretches, row by row.
pub open spec fn crossings(xs: Seq<Piece>, ys: Seq<Piece>) -> Seq<Patch> {
    Seq::new(
        xs.len() * ys.len(),
        |k: int| crossing(xs[k % (xs.len() as int)], ys[k / (xs.len() as int)]),
    )
}

/// The column or row of the window lies in the stretch.
pub open spec fn in_piece(p: Piece, i: int) -> bool {
    p.dest <= i < p.dest + p.len
}

/// The pixel of the window lies in the patch.
pub open spec fn in_patch(p: Patch, i: int, j: int) -> bool {
    p.dest_x <= i < p.dest_x + p.w && p.dest_y <= j < p.dest_y + p.h
}

impl RadarView {
    /// The window lies within the map.
    pub open spec fn valid(self) -> bool {
        &&& self.zoom < 24
        &&& self.x0 + VIEW_SIZE <= 256 * tiles_at(self.zoom)
        &&& self.y0 + VIEW_SIZE <= 256 * tiles_at(self.zoom)
    }

    /// The parts of tiles that fill the window.
    pub open spec fn patches(self) -> Seq<Patch> {
        crossings(pieces(self.x0), pieces(self.y0))
    }

    /// The window around a pixel of the map.
    pub open spec fn window(px: u32, py: u32, zoom: u8) -> RadarView {
        RadarView {
            x0: centered(px as int, 240, 256 * tiles_at(zoom)) as u32,
            y0: centered(py as int, 240, 256 * tiles_at(zoom)) as u32,
            zoom,
        }
    }

    /// The window centred on a position, given as a pixel of the map, so the viewer is in the
    /// middle of the screen rather than wherever they happen to fall inside one tile. At the edge
    /// of the map the window stays on the map.
    pub fn centered_on(px: u32, py: u32, zoom: u8) -> (v: RadarView)
        requires
            zoom < 24,
        ensures
            v.valid(),
            v == RadarView::window(px, py, zoom),
    {
        let world: u32 = tile_count(zoom) * TILE_SIZE;
        RadarView { x0: center(px, VIEW_SIZE, world), y0: center(py, VIEW_SIZE, world), zoom }
    }

    /// Where in the window a pixel of the map shows, if it does.
    pub open spec fn located(self, px: int, py: int) -> Option<(int, int)> {
        if self.x0 <= px < self.x0 + VIEW_SIZE && self.y0 <= py < self.y0 + VIEW_SIZE {
            Some((px - self.x0, py - self.y0))
        } else {
            None
        }
    }

    /// Where in the window a pixel of the map shows, if it does.
    pub fn locate(&self, px: u32, py: u32) -> (r: Option<(i32, i32)>)
        ensures
            match self.located(px as int, py as int) {
                Some((x, y)) => r == Some((x as i32, y as i32)),
                None => r is None,
            },
            r matches Some((x, y)) ==> self.x0 + x == px && self.y0 + y == py,
    {
        if px >= self.x0 && px - self.x0 < VIEW_SIZE && py >= self.y0 && py - self.y0 < VIEW_SIZE {
            Some(((px - self.x0) as i32, (py - self.y0) as i32))
        } else {
            None
        }
    }

    /// Intersect the window with the tiles: a crop plus a destination offset for each tile that
    /// shows in it.
    pub fn tiles(&self) -> (v: Vec<Patch>)
        ensures
            v@ == self.patches(),
            1 <= v@.len() <= 4,
    {
        let xs: Vec<Piece> = axis_pieces(self.x0);
        let ys: Vec<Piece> = axis_pieces(self.y0);
        let mut v: Vec<Patch> = Vec::new();
        v.push(cross(&xs[0], &ys[0]));
        if xs.len() == 2 {
            v.push(cross(&xs[1], &ys[0]));
        }
        if ys.len() == 2 {
            v.push(cross(&xs[0], &ys[1]));
            if xs.len() == 2 {
                v.push(cross(&xs[1], &ys[1]));
            }
        }
        proof {
            assert(1 * 1 == 1 && 1 * 2 == 2 && 2 * 1 == 2 && 2 * 2 == 4);
            assert(xs@.len() * ys@.len() == v@.len());
            assert(v@ =~= crossings(xs@, ys@));
        }
        v
    }

    /// The name of the file that the basemap of this window is kept in.
    pub open spec fn basemap_file(self) -> Seq<char> {
        "base_"@ + decimal(self.zoom as nat) + "_"@ + decimal(self.x0 as nat) + "_"@ + decimal(
            self.y0 as nat,
        ) + ".rgb565"@
    }

    fn basemap_name(&self) -> (name: String)
        ensures
            name@ == self.basemap_file(),
    {
        let mut name: String = "base_".to_owned();
        push_decimal(&mut name, self.zoom as u64);
        name.append("_");
        push_decimal(&mut name, self.x0 as u64);
        name.append("_");
        push_decimal(&mut name, self.y0 as u64);
        name.append(".rgb565");
        name
    }

    /// The file that the basemap of this window is kept in.
    pub fn basemap_path(&self) -> (p: String)
        ensures
            p@ == card_path("radar/"@ + self.basemap_file()),
    {
        let name: String = joined("radar/", self.basemap_name().as_str());
        path(name.as_str())
    }

    /// The file `name` beside the frames is the basemap of another window.
    pub open spec fn stale_basemap(self, name: Seq<char>) -> bool {
        "base_"@.is_prefix_of(name) && name != self.basemap_file()
    }

    /// Whether the file `name` beside the frames is the basemap of another window.
    pub fn is_stale_basemap(&self, name: &str) -> (yes: bool)
        ensures
            yes == self.stale_basemap(name@),
    {
        proof {
            reveal_strlit("base_");
        }
        if name.unicode_len() < 5 {
            return false;
        }
        let start: &str = name.substring_char(0, 5);
        same_text(start, "base_") && !same_text(name, self.basemap_name().as_str())
    }
}

/// A text in parts, taken apart from the front.
proof fn lemma_parts(
    head: Seq<char>,
    a: Seq<char>,
    bar: Seq<char>,
    b: Seq<char>,
    c: Seq<char>,
    tail: Seq<char>,
)
    ensures
        head + a + bar + b + bar + c + tail == head + (a + (bar + (b + (bar + (c + tail))))),
{
    assert(head + a + bar + b + bar + c + tail =~= head + (a + (bar + (b + (bar + (c + tail))))));
}

/// What follows a common beginning is the same in equal texts.
proof fn lemma_rest(head: Seq<char>, s: Seq<char>, t: Seq<char>)
    requires
        head + s == head + t,
    ensures
        s == t,
{
    assert(s =~= (head + s).skip(head.len() as int));
    assert(t =~= (head + t).skip(head.len() as int));
}

/// The basemaps of different windows are in different files.
pub proof fn law_basemaps_have_files_of_their_own(v: RadarView, w: RadarView)
    requires
        v.basemap_file() == w.basemap_file(),
    ensures
        v == w,
{
    let head = "base_"@;
    let bar = "_"@;
    let tail = ".rgb565"@;
    let (vz, vx, vy) = (v.zoom as nat, v.x0 as nat, v.y0 as nat);
    let (wz, wx, wy) = (w.zoom as nat, w.x0 as nat, w.y0 as nat);
    let v3 = decimal(vy) + tail;
    let w3 = decimal(wy) + tail;
    let v2 = decimal(vx) + (bar + v3);
    let w2 = decimal(wx) + (bar + w3);
    lemma_parts(head, decimal(vz), bar, decimal(vx), decimal(vy), tail);
    lemma_parts(head, decimal(wz), bar, decimal(wx), decimal(wy), tail);
    lemma_rest(head, decimal(vz) + (bar + v2), decimal(wz) + (bar + w2));
    assert(bar.len() == 1 && bar[0] == '_' && tail.len() > 0 && tail[0] == '.') by {
        reveal_strlit("_");
        reveal_strlit(".rgb565");
    }
    assert((bar + v2)[0] == '_' && (bar + w2)[0] == '_');
    lemma_decimal_ends(vz, wz, bar + v2, bar + w2);
    lemma_rest(bar, v2, w2);
    assert((bar + v3)[0] == '_' && (bar + w3)[0] == '_');
    lemma_decimal_ends(vx, wx, bar + v3, bar + w3);
    lemma_rest(bar, v3, w3);
    lemma_decimal_ends(vy, wy, tail, tail);
}

/// A position on the map shows in the window that is centred on it, and stands in the middle of it
/// unless the edge of the map is near.
pub proof fn law_position_shows_in_its_window(px: u32, py: u32, zoom: u8)
    requires
        zoom < 24,
        px < 256 * tiles_at(zoom),
        py < 256 * tiles_at(zoom),
    ensures
        ({
            let v = RadarView::window(px, py, zoom);
            let world = 256 * tiles_at(zoom);
            &&& v.zoom == zoom
            &&& v.x0 + 240 <= world && v.y0 + 240 <= world
            &&& v.located(px as int, py as int) is Some
            &&& 120 <= px <= world - 120 && 120 <= py <= world - 120 ==> v.located(
                px as int,
                py as int,
            ) == Some((120int, 120int))
            &&& px < 120 ==> v.x0 == 0
            &&& py < 120 ==> v.y0 == 0
            &&& px > world - 120 ==> v.x0 == world - 240
            &&& py > world - 120 ==> v.y0 == world - 240
        }),
{
    let world = 256 * tiles_at(zoom);
    vstd::arithmetic::power2::lemma_pow2_pos(zoom as nat);
    if zoom < 23 {
        vstd::arithmetic::power2::lemma_pow2_strictly_increases(zoom as nat, 23);
    }
    vstd::arithmetic::power2::lemma2_to64();
    law_centering_keeps_position(px as int, 240, world);
    law_centering_keeps_position(py as int, 240, world);
}

/// A pixel of the map shows in the window exactly within 240 pixels right of and below its corner,
/// and as far from the corner as it is on the map.
pub proof fn law_window_is_a_part_of_the_map(v: RadarView, px: int, py: int)
    ensures
        v.located(px, py) is Some <==> v.x0 <= px < v.x0 + 240 && v.y0 <= py < v.y0 + 240,
        v.located(px, py) matches Some((x, y)) ==> v.x0 + x == px && v.y0 + y == py,
{
}

/// Of the files beside the frames, those that keep the basemaps of other windows are stale, and
/// neither that of this window nor any file of another kind is.
pub proof fn law_basemaps_of_other_windows_are_stale(v: RadarView, w: RadarView, i: nat)
    ensures
        v.stale_basemap(w.basemap_file()) <==> v != w,
        !v.stale_basemap("frame_"@ + decimal(i) + ".rgb565"@),
        !v.stale_basemap("tile_"@ + decimal(i) + ".png"@),
        card_path("radar/"@ + v.basemap_file()) == "/sdcard/radar/base_"@ + decimal(v.zoom as nat)
            + "_"@ + decimal(v.x0 as nat) + "_"@ + decimal(v.y0 as nat) + ".rgb565"@,
{
    reveal_strlit("base_");
    reveal_strlit("frame_");
    reveal_strlit("tile_");
    reveal_strlit("radar/");
    reveal_strlit("/sdcard/");
    reveal_strlit("/sdcard/radar/base_");
    if v != w && v.basemap_file() == w.basemap_file() {
        law_basemaps_have_files_of_their_own(v, w);
    }
    assert("base_"@[0] == 'b');
    assert(("frame_"@ + decimal(i) + ".rgb565"@)[0] == 'f');
    assert(("tile_"@ + decimal(i) + ".png"@)[0] == 't');
    let relative = "radar/"@ + v.basemap_file();
    assert(relative[0] == 'r');
    law_paths_stand_below_the_mount_point(relative);
    assert("/sdcard/"@ + "radar/"@ + "base_"@ =~= "/sdcard/radar/base_"@);
    assert("/sdcard/"@ + relative =~= "/sdcard/"@ + "radar/"@ + "base_"@ + decimal(v.zoom as nat)
        + "_"@ + decimal(v.x0 as nat) + "_"@ + decimal(v.y0 as nat) + ".rgb565"@);
}

fn cross(x: &Piece, y: &Piece) -> (p: Patch)
    ensures
        p == crossing(*x, *y),
{
    Patch {
        tile_x: x.tile,
        tile_y: y.tile,
        crop_x: x.crop,
        crop_y: y.crop,
        w: x.len,
        h: y.len,
        dest_x: x.dest,
        dest_y: y.dest,
    }
}

/// The stretches along an axis lie in the tiles, and each place of the window is in exactly one of
/// them, which has the right part of the map there.
proof fn lemma_pieces(start: u32, i: int) -> (k: int)
    requires
        0 <= i < VIEW_SIZE,
    ensures
        0 <= k < pieces(start).len() <= 2,
        in_piece(pieces(start)[k], i),
        forall|m: int|
            0 <= m < pieces(start).len() && in_piece(#[trigger] pieces(start)[m], i) ==> m == k,
        pieces(start)[k].tile * 256 + pieces(start)[k].crop + (i - pieces(start)[k].dest) == start
            + i,
        forall|m: int|
            0 <= m < pieces(start).len() ==> (#[trigger] pieces(start)[m]).crop
                + pieces(start)[m].len <= TILE_SIZE && pieces(start)[m].dest
                + pieces(start)[m].len <= VIEW_SIZE && pieces(start)[m].len > 0,
{
    let p = pieces(start);
    if p.len() == 1 || i < p[0].len {
        0
    } else {
        1
    }
}

/// Row and column of a place in a grid of `n` columns and `m` rows.
proof fn lemma_grid(a: int, n: int, m: int)
    requires
        0 <= a < n * m,
        n > 0,
    ensures
        0 <= a % n < n,
        0 <= a / n < m,
        a == a / n * n + a % n,
{
    vstd::arithmetic::div_mod::lemma_fundamental_div_mod(a, n);
    vstd::arithmetic::div_mod::lemma_mod_bound(a, n);
    let q = a / n;
    assert(n * q == q * n) by (nonlinear_arith);
    assert(0 <= q < m) by (nonlinear_arith)
        requires
            0 <= a < n * m,
            n > 0,
            q == a / n,
    ;
}

/// The patches tile the window: every pixel of it lies in exactly one patch, and the tile shows
/// there what the map has at that place.
pub proof fn law_patches_tile_the_window(v: RadarView, i: int, j: int)
    requires
        v.valid(),
        0 <= i < VIEW_SIZE,
        0 <= j < VIEW_SIZE,
    ensures
        exists|k: int|
            {
                &&& 0 <= k < v.patches().len()
                &&& in_patch(#[trigger] v.patches()[k], i, j)
                &&& v.patches()[k].tile_x * 256 + v.patches()[k].crop_x + (i
                    - v.patches()[k].dest_x) == v.x0 + i
                &&& v.patches()[k].tile_y * 256 + v.patches()[k].crop_y + (j
                    - v.patches()[k].dest_y) == v.y0 + j
            },
        forall|a: int, b: int|
            0 <= a < v.patches().len() && 0 <= b < v.patches().len() && in_patch(
                #[trigger] v.patches()[a],
                i,
                j,
            ) && in_patch(#[trigger] v.patches()[b], i, j) ==> a == b,
{
    let xs = pieces(v.x0);
    let ys = pieces(v.y0);
    let kx = lemma_pieces(v.x0, i);
    let ky = lemma_pieces(v.y0, j);
    let all = v.patches();
    let n = xs.len() as int;
    let k = ky * n + kx;
    let m = ys.len() as int;
    vstd::arithmetic::div_mod::lemma_fundamental_div_mod_converse(k, n, ky, kx);
    assert(0 <= k < n * m) by (nonlinear_arith)
        requires
            k == ky * n + kx,
            0 <= kx < n,
            0 <= ky < m,
    ;
    assert(all[k] == crossing(xs[kx], ys[ky]));
    assert forall|a: int|
        0 <= a < all.len() && in_patch(#[trigger] all[a], i, j) implies a == k by {
        let ax = a % n;
        let ay = a / n;
        lemma_grid(a, n, ys.len() as int);
        assert(all[a] == crossing(xs[ax], ys[ay]));
        assert(in_piece(xs[ax], i));
        assert(in_piece(ys[ay], j));
    }
}

/// The tiles of a window are tiles of the map, and the crops lie within them.
pub proof fn law_patches_lie_in_tiles(v: RadarView, k: int)
    requires
        v.valid(),
        0 <= k < v.patches().len(),
    ensures
        ({
            let p = v.patches()[k];
            &&& p.tile_x < tiles_at(v.zoom)
            &&& p.tile_y < tiles_at(v.zoom)
            &&& p.placed()
        }),
{
    let xs = pieces(v.x0);
    let ys = pieces(v.y0);
    let n = xs.len() as int;
    let kx0 = lemma_pieces(v.x0, 0);
    let ky0 = lemma_pieces(v.y0, 0);
    let kx = k % n;
    let ky = k / n;
    lemma_grid(k, n, ys.len() as int);
    assert(v.patches()[k] == crossing(xs[kx], ys[ky]));
    assert(xs[kx].crop + xs[kx].len <= TILE_SIZE);
    assert(ys[ky].crop + ys[ky].len <= TILE_SIZE);
}

impl Patch {
    /// The crop lies within its tile, and the patch within the window.
    pub open spec fn placed(self) -> bool {
        &&& 0 < self.w
        &&& 0 < self.h
        &&& self.crop_x + self.w <= TILE_SIZE
        &&& self.crop_y + self.h <= TILE_SIZE
        &&& self.dest_x + self.w <= VIEW_SIZE
        &&& self.dest_y + self.h <= VIEW_SIZE
    }

    /// The crop lies within an image of this size.
    pub open spec fn within(self, width: u32, height: u32) -> bool {
        self.crop_x + self.w <= width && self.crop_y + self.h <= height
    }

    /// A scanline after scanline `y` has a part that shows.
    pub open spec fn shows_after(self, y: u32) -> bool {
        y + 1 < self.crop_y + self.h
    }

    /// Whether the crop lies within an image of this size.
    pub fn fits(&self, width: u32, height: u32) -> (yes: bool)
        requires
            self.placed(),
        ensures
            yes == self.within(width, height),
    {
        self.crop_x + self.w <= width && self.crop_y + self.h <= height
    }

    /// Whether a scanline after scanline `y` has a part that shows.
    pub fn goes_on(&self, y: u32) -> (yes: bool)
        requires
            self.placed(),
        ensures
            yes == self.shows_after(y),
    {
        y < self.crop_y + self.h - 1
    }

    /// Where in a frame file the part of a scanline goes that shows: the offset of its first byte,
    /// and how many bytes it has.
    pub open spec fn span(self, y: int) -> Option<(int, int)> {
        if self.crop_y <= y < self.crop_y + self.h {
            Some(
                (
                    HEADER_LEN + ((self.dest_y + (y - self.crop_y)) * VIEW_SIZE + self.dest_x) * 2,
                    self.w * 2,
                ),
            )
        } else {
            None
        }
    }

    /// Where in a frame file the part of scanline `y` goes that shows, if any: the offset of its
    /// first byte, and how many bytes it has.
    pub fn row_span(&self, y: u32) -> (r: Option<(u64, usize)>)
        requires
            self.placed(),
        ensures
            match self.span(y as int) {
                Some((offset, len)) => r == Some((offset as u64, len as usize)) && offset >= 0
                    && offset + len <= HEADER_LEN + VIEW_SIZE * VIEW_SIZE * 2,
                None => r is None,
            },
    {
        if y >= self.crop_y && y - self.crop_y < self.h {
            let row: u64 = (self.dest_y + (y - self.crop_y)) as u64;
            Some(((row * 240 + self.dest_x as u64) * 2 + 8, self.w as usize * 2))
        } else {
            None
        }
    }
}

/// A crop lies within an image if and only if its last column and its last row do. There is more to
/// come after a scanline if and only if a later one has a part that shows, which is written in its
/// row of the frame, `w` pixels from `dest_x` on.
pub proof fn law_patches_take_their_scanlines(p: Patch, width: u32, height: u32, y: u32)
    requires
        p.placed(),
    ensures
        p.within(width, height) <==> p.crop_x + p.w - 1 < width && p.crop_y + p.h - 1 < height,
        p.shows_after(y) <==> exists|later: int| later > y && (#[trigger] p.span(later)) is Some,
        p.span(y as int) is Some <==> p.crop_y <= y < p.crop_y + p.h,
        p.span(y as int) matches Some((offset, len)) ==> len == 2 * p.w && offset == 8 + 2 * (240
            * (p.dest_y + y - p.crop_y) + p.dest_x),
{
    if p.shows_after(y) {
        assert(p.span(p.crop_y + p.h - 1) is Some);
    }
}

/// The part of a scanline that shows, on top of the pixels of a frame.
pub open spec fn laid_over(row: Row, p: Patch, under: Seq<u8>) -> Seq<u8> {
    Seq::new(
        under.len(),
        |i: int|
            {
                let k = i / 2;
                let v = over_pixel(
                    pixel_value(row.format@, row.data@, p.crop_x + k),
                    le16(under[2 * k], under[2 * k + 1]),
                );
                if i % 2 == 0 {
                    low_byte(v)
                } else {
                    high_byte(v)
                }
            },
    )
}

/// Blend the part of a scanline that shows into the pixels of a frame below it.
pub fn blend_row(row: &Row, patch: &Patch, pixels: &mut Vec<u8>)
    requires
        patch.placed(),
        row.format@.valid(),
        old(pixels)@.len() == patch.w * 2,
        forall|k: int|
            patch.crop_x <= k < patch.crop_x + patch.w ==> #[trigger] pixel_in_row(
                row.format@,
                row.data@,
                k,
            ),
    ensures
        final(pixels)@ == laid_over(*row, *patch, old(pixels)@),
{
    let ghost under = pixels@;
    let ghost whole = laid_over(*row, *patch, under);
    let mut k: usize = 0;
    while k < patch.w as usize
        invariant
            patch.placed(),
            row.format@.valid(),
            under.len() == patch.w * 2,
            pixels@.len() == under.len(),
            whole == laid_over(*row, *patch, under),
            k <= patch.w,
            forall|i: int|
                patch.crop_x <= i < patch.crop_x + patch.w ==> #[trigger] pixel_in_row(
                    row.format@,
                    row.data@,
                    i,
                ),
            forall|i: int| 0 <= i < 2 * k ==> pixels@[i] == whole[i],
            forall|i: int| 2 * k <= i < under.len() ==> pixels@[i] == under[i],
        decreases patch.w - k,
    {
        let below: u16 = from_le(pixels[2 * k], pixels[2 * k + 1]);
        assert(pixel_in_row(row.format@, row.data@, patch.crop_x + k));
        let v: u16 = blend_over(row.pixel(patch.crop_x as usize + k), below);
        let (low, high) = to_le(v);
        pixels.set(2 * k, low);
        pixels.set(2 * k + 1, high);
        proof {
            assert((2 * k as int) / 2 == k);
            assert((2 * k + 1) / 2 == k);
            assert(whole[2 * k as int] == low);
            assert(whole[2 * k + 1] == high);
        }
        k = k + 1;
    }
    assert(pixels@ =~= whole);
}

/// Where the transparent parts of a tile lie the frame stays as it was.
#[verifier::spinoff_prover]
pub proof fn law_transparent_row_keeps_frame(row: Row, p: Patch, under: Seq<u8>, k: int)
    requires
        0 <= k,
        2 * k + 1 < under.len(),
        pixel_value(row.format@, row.data@, p.crop_x + k).3 == 0,
    ensures
        laid_over(row, p, under)[2 * k] == under[2 * k],
        laid_over(row, p, under)[2 * k + 1] == under[2 * k + 1],
{
    let px = pixel_value(row.format@, row.data@, p.crop_x + k);
    let v = le16(under[2 * k], under[2 * k + 1]);
    lemma_clear_pixel(px, under[2 * k], under[2 * k + 1]);
    assert((2 * k) / 2 == k);
    assert((2 * k + 1) / 2 == k);
    assert(laid_over(row, p, under)[2 * k] == low_byte(over_pixel(px, v)));
    assert(laid_over(row, p, under)[2 * k + 1] == high_byte(over_pixel(px, v)));
}

proof fn lemma_clear_pixel(px: (u8, u8, u8, u8), low: u8, high: u8)
    requires
        px.3 == 0,
    ensures
        low_byte(over_pixel(px, le16(low, high))) == low,
        high_byte(over_pixel(px, le16(low, high))) == high,
{
    law_transparent_pixel_keeps_frame(px.0, px.1, px.2, le16(low, high));
    assert(px == (px.0, px.1, px.2, 0u8));
    lemma_le16(low, high);
}

/// How long a frame file of the window is.
pub open spec fn frame_file_len() -> int {
    HEADER_LEN + VIEW_SIZE * VIEW_SIZE * 2
}

/// A frame file holds 8 bytes of header and two bytes for each of 240 by 240 pixels.
pub proof fn law_frame_files_hold_the_view()
    ensures
        frame_file_len() == 8 + 2 * 57600,
{
}

/// A frame file after the part of a scanline that shows was blended into its place.
pub open spec fn edited(file: Seq<u8>, row: Row, p: Patch, y: int) -> Seq<u8> {
    match p.span(y) {
        Some((offset, len)) => file.take(offset) + laid_over(
            row,
            p,
            file.subrange(offset, offset + len),
        ) + file.skip(offset + len),
        None => file,
    }
}

/// A frame file after the first `n` scanlines of a tile.
pub open spec fn assembled(file: Seq<u8>, rows: Seq<Row>, p: Patch, n: nat) -> Seq<u8>
    decreases n,
{
    if n == 0 {
        file
    } else {
        let y = n - 1;
        edited(assembled(file, rows, p, y as nat), rows[y], p, y)
    }
}

/// The pixel of a frame file at a place of the window.
pub open spec fn pixel_at(file: Seq<u8>, i: int, j: int) -> u16 {
    let o = HEADER_LEN + (j * VIEW_SIZE + i) * 2;
    le16(file[o], file[o + 1])
}

/// The pixel that a tile puts at a place of its patch, on top of the one that is there.
pub open spec fn composed(file: Seq<u8>, rows: Seq<Row>, p: Patch, i: int, j: int) -> u16 {
    let row = rows[p.crop_y + (j - p.dest_y)];
    over_pixel(
        pixel_value(row.format@, row.data@, p.crop_x + (i - p.dest_x)),
        pixel_at(file, i, j),
    )
}

/// What one scanline does to a pixel of a frame file: it changes the pixels in its place and no
/// others.
proof fn lemma_edited(file: Seq<u8>, row: Row, p: Patch, y: int, i: int, j: int)
    requires
        p.placed(),
        file.len() == frame_file_len(),
        0 <= i < VIEW_SIZE,
        0 <= j < VIEW_SIZE,
    ensures
        edited(file, row, p, y).len() == file.len(),
        edited(file, row, p, y).take(8) == file.take(8),
        pixel_at(edited(file, row, p, y), i, j) == if in_patch(p, i, j) && y == p.crop_y + (j
            - p.dest_y) {
            over_pixel(
                pixel_value(row.format@, row.data@, p.crop_x + (i - p.dest_x)),
                pixel_at(file, i, j),
            )
        } else {
            pixel_at(file, i, j)
        },
{
    let after = edited(file, row, p, y);
    let o = 8 + (j * 240 + i) * 2;
    match p.span(y) {
        None => {},
        Some((offset, len)) => {
            let r = p.dest_y + (y - p.crop_y);
            assert(offset == 8 + (r * 240 + p.dest_x) * 2);
            let under = file.subrange(offset, offset + len);
            let mid = laid_over(row, p, under);
            assert(mid.len() == len);
            assert(after.len() == file.len());
            assert(after.take(8) =~= file.take(8));
            if offset <= o < offset + len {
                let k = i - p.dest_x;
                assert(j == r);
                assert(o - offset == 2 * k);
                assert(after[o] == mid[2 * k]);
                assert(after[o + 1] == mid[2 * k + 1]);
                assert((2 * k) / 2 == k);
                assert((2 * k + 1) / 2 == k);
                assert(under[2 * k] == file[o]);
                assert(under[2 * k + 1] == file[o + 1]);
                let v = over_pixel(
                    pixel_value(row.format@, row.data@, p.crop_x + k),
                    le16(file[o], file[o + 1]),
                );
                assert(mid[2 * k] == low_byte(v));
                assert(mid[2 * k + 1] == high_byte(v));
                assert(le16(low_byte(v), high_byte(v)) == v);
            } else {
                assert(after[o] == file[o]);
                assert(after[o + 1] == file[o + 1]);
            }
        },
    }
}

proof fn lemma_assembled(file: Seq<u8>, rows: Seq<Row>, p: Patch, n: nat, i: int, j: int)
    requires
        p.placed(),
        file.len() == frame_file_len(),
        0 <= i < VIEW_SIZE,
        0 <= j < VIEW_SIZE,
    ensures
        assembled(file, rows, p, n).len() == file.len(),
        assembled(file, rows, p, n).take(8) == file.take(8),
        pixel_at(assembled(file, rows, p, n), i, j) == if in_patch(p, i, j) && p.crop_y + (j
            - p.dest_y) < n {
            composed(file, rows, p, i, j)
        } else {
            pixel_at(file, i, j)
        },
    decreases n,
{
    if n > 0 {
        let y = n - 1;
        lemma_assembled(file, rows, p, y as nat, i, j);
        lemma_edited(assembled(file, rows, p, y as nat), rows[y], p, y, i, j);
    }
}

/// Blending a tile into a frame file scanline by scanline lays the crop over the pixels of its
/// patch, once each, and leaves the rest of the frame and its header as they were.
pub proof fn law_tile_fills_its_patch(file: Seq<u8>, rows: Seq<Row>, p: Patch, i: int, j: int)
    requires
        p.placed(),
        file.len() == frame_file_len(),
        rows.len() >= p.crop_y + p.h,
        0 <= i < VIEW_SIZE,
        0 <= j < VIEW_SIZE,
    ensures
        ({
            let after = assembled(file, rows, p, rows.len());
            &&& after.len() == file.len()
            &&& after.take(HEADER_LEN as int) == file.take(HEADER_LEN as int)
            &&& pixel_at(after, i, j) == if in_patch(p, i, j) {
                composed(file, rows, p, i, j)
            } else {
                pixel_at(file, i, j)
            }
        }),
{
    lemma_assembled(file, rows, p, rows.len(), i, j);
}

/// A frame file after the tiles of the first `k` patches of a window, each given by its scanlines.
pub open spec fn frame_after(base: Seq<u8>, v: RadarView, tiles: Seq<Seq<Row>>, k: nat) -> Seq<u8>
    decreases k,
{
    if k == 0 {
        base
    } else {
        let q = k - 1;
        assembled(
            frame_after(base, v, tiles, q as nat),
            tiles[q],
            v.patches()[q],
            tiles[q].len(),
        )
    }
}

proof fn lemma_frame_after(
    base: Seq<u8>,
    v: RadarView,
    tiles: Seq<Seq<Row>>,
    k: nat,
    i: int,
    j: int,
    m: int,
)
    requires
        v.valid(),
        base.len() == frame_file_len(),
        k <= v.patches().len(),
        tiles.len() == v.patches().len(),
        forall|q: int| 0 <= q < tiles.len() ==> (#[trigger] tiles[q]).len() == TILE_SIZE,
        0 <= i < VIEW_SIZE,
        0 <= j < VIEW_SIZE,
        0 <= m < v.patches().len(),
        in_patch(v.patches()[m], i, j),
    ensures
        frame_after(base, v, tiles, k).len() == base.len(),
        frame_after(base, v, tiles, k).take(8) == base.take(8),
        pixel_at(frame_after(base, v, tiles, k), i, j) == if m < k {
            composed(base, tiles[m], v.patches()[m], i, j)
        } else {
            pixel_at(base, i, j)
        },
    decreases k,
{
    if k > 0 {
        let q = k - 1;
        lemma_frame_after(base, v, tiles, q as nat, i, j, m);
        law_patches_lie_in_tiles(v, q);
        law_patches_tile_the_window(v, i, j);
        let before = frame_after(base, v, tiles, q as nat);
        law_tile_fills_its_patch(before, tiles[q], v.patches()[q], i, j);
        assert(in_patch(v.patches()[q], i, j) <==> q == m);
    }
}

/// A frame that is assembled from all tiles of a window shows, at every place, the pixel that the
/// tile of that place has there, on top of the pixel of the basemap.
pub proof fn law_frame_shows_every_tile(
    base: Seq<u8>,
    v: RadarView,
    tiles: Seq<Seq<Row>>,
    i: int,
    j: int,
)
    requires
        v.valid(),
        base.len() == frame_file_len(),
        tiles.len() == v.patches().len(),
        forall|q: int| 0 <= q < tiles.len() ==> (#[trigger] tiles[q]).len() == TILE_SIZE,
        0 <= i < VIEW_SIZE,
        0 <= j < VIEW_SIZE,
    ensures
        ({
            let frame = frame_after(base, v, tiles, v.patches().len());
            &&& frame.len() == base.len()
            &&& frame.take(HEADER_LEN as int) == base.take(HEADER_LEN as int)
            &&& exists|m: int|
                0 <= m < v.patches().len() && in_patch(#[trigger] v.patches()[m], i, j) && pixel_at(
                    frame,
                    i,
                    j,
                ) == composed(base, tiles[m], v.patches()[m], i, j)
        }),
{
    law_patches_tile_the_window(v, i, j);
    let m = choose|m: int|
        0 <= m < v.patches().len() && in_patch(#[trigger] v.patches()[m], i, j);
    lemma_frame_after(base, v, tiles, v.patches().len(), i, j, m);
}

/// At every place of the window the assembled frame shows the pixel that the tiles have at that
/// place of the map, each tile being 256 pixels wide and high, on top of the pixel of the basemap
/// at the same place.
pub proof fn law_frame_is_a_window_onto_the_map(
    base: Seq<u8>,
    v: RadarView,
    tiles: Seq<Seq<Row>>,
    i: int,
    j: int,
)
    requires
        v.valid(),
        base.len() == frame_file_len(),
        tiles.len() == v.patches().len(),
        forall|q: int| 0 <= q < tiles.len() ==> (#[trigger] tiles[q]).len() == TILE_SIZE,
        0 <= i < 240,
        0 <= j < 240,
    ensures
        ({
            let frame = frame_after(base, v, tiles, v.patches().len());
            let (x, y) = (v.x0 + i, v.y0 + j);
            let at = 8 + 2 * (240 * j + i);
            exists|m: int|
                {
                    let row = tiles[m][y % 256];
                    &&& 0 <= m < v.patches().len()
                    &&& (#[trigger] v.patches()[m]).tile_x == x / 256
                    &&& v.patches()[m].tile_y == y / 256
                    &&& frame[at] + 256 * frame[at + 1] == over_pixel(
                        pixel_value(row.format@, row.data@, x % 256),
                        (base[at] + 256 * base[at + 1]) as u16,
                    )
                }
        }),
{
    law_patches_tile_the_window(v, i, j);
    let m = choose|k: int|
        {
            &&& 0 <= k < v.patches().len()
            &&& in_patch(#[trigger] v.patches()[k], i, j)
            &&& v.patches()[k].tile_x * 256 + v.patches()[k].crop_x + (i - v.patches()[k].dest_x)
                == v.x0 + i
            &&& v.patches()[k].tile_y * 256 + v.patches()[k].crop_y + (j - v.patches()[k].dest_y)
                == v.y0 + j
        };
    let p = v.patches()[m];
    law_patches_lie_in_tiles(v, m);
    lemma_frame_after(base, v, tiles, v.patches().len(), i, j, m);
    let (x, y) = (v.x0 + i, v.y0 + j);
    let cx = p.crop_x + (i - p.dest_x);
    let cy = p.crop_y + (j - p.dest_y);
    assert(0 <= cx < 256 && 0 <= cy < 256);
    assert(x / 256 == p.tile_x && x % 256 == cx);
    assert(y / 256 == p.tile_y && y % 256 == cy);
}

/// A crosshair has two arms of equal length, one level and one upright, that cross at its place.
pub proof fn law_crosshair_marks_its_place(base: Seq<Op>, x: int, y: int)
    requires
        i32::MIN <= x - 6,
        x + 6 <= i32::MAX,
        i32::MIN <= y - 6,
        y + 6 <= i32::MAX,
    ensures
        ({
            let s = crosshair_drawn(base, x, y);
            let n = base.len() as int;
            &&& s.len() == n + 2
            &&& s.take(n) == base
            &&& s[n] is Line && s[n + 1] is Line
            &&& s[n]->Line_y1 == y && s[n]->Line_y2 == y
            &&& s[n]->Line_x1 + s[n]->Line_x2 == 2 * x && s[n]->Line_x2 - s[n]->Line_x1 == 12
            &&& s[n + 1]->Line_x1 == x && s[n + 1]->Line_x2 == x
            &&& s[n + 1]->Line_y1 + s[n + 1]->Line_y2 == 2 * y
            &&& s[n + 1]->Line_y2 - s[n + 1]->Line_y1 == 12
        }),
{
    assert(crosshair_drawn(base, x, y).take(base.len() as int) =~= base);
}

/// A scene with a crosshair.
pub open spec fn crosshair_drawn(base: Seq<Op>, x: int, y: int) -> Seq<Op> {
    base.push(line_op(x - 6, y, x + 6, y, Ink::Warn, 1)).push(
        line_op(x, y - 6, x, y + 6, Ink::Warn, 1),
    )
}

/// Mark a place on the panel with a crosshair.
pub fn draw_crosshair(scene: &mut Scene, x: i32, y: i32)
    requires
        i32::MIN <= x - 6,
        x + 6 <= i32::MAX,
        i32::MIN <= y - 6,
        y + 6 <= i32::MAX,
    ensures
        final(scene)@ == crosshair_drawn(old(scene)@, x as int, y as int),
{
    scene.line(x - 6, y, x + 6, y, Ink::Warn, 1);
    scene.line(x, y - 6, x, y + 6, Ink::Warn, 1);
}

} // verus!
