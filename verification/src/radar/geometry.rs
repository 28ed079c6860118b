//! Which part of a tile goes where.

use vstd::prelude::*;

use crate::config::{RADAR_VIEW_HEIGHT, RADAR_VIEW_WIDTH};

verus! {

/// Radar tiles are always 256x256 pixels.
pub const TILE_SIZE: u32 = 256;

/// Source crop plus target size for the row-wise decoder.
#[derive(Debug, Clone, Copy, PartialEq, Eq, Structural)]
pub struct Geometry {
    pub crop_x: u32,
    pub crop_y: u32,
    pub crop_w: u32,
    pub crop_h: u32,
    pub out_w: u32,
    pub out_h: u32,
}

/// Where a stretch of `size` begins so that `at` is in its middle, as far as it then lies within
/// `limit`.
pub open spec fn centered(at: int, size: int, limit: int) -> int {
    let start = if at < size / 2 {
        0
    } else {
        at - size / 2
    };
    if start > limit - size {
        limit - size
    } else {
        start
    }
}

/// Where a stretch of `size` begins so that `at` is in its middle, as far as it then lies within
/// `limit`.
pub fn center(at: u32, size: u32, limit: u32) -> (start: u32)
    requires
        size <= limit,
    ensures
        start == centered(at as int, size as int, limit as int),
        start + size <= limit,
{
    let start: u32 = if at < size / 2 {
        0
    } else {
        at - size / 2
    };
    if start > limit - size {
        limit - size
    } else {
        start
    }
}

/// A crop of the display's size around a pixel of a tile.
pub open spec fn around(px: u32, py: u32) -> Geometry {
    Geometry {
        crop_x: centered(px as int, 240, 256) as u32,
        crop_y: centered(py as int, 240, 256) as u32,
        crop_w: 240,
        crop_h: 240,
        out_w: 240,
        out_h: 240,
    }
}

/// The frame around a pixel of a tile fills the view with pixels of the tile as they are. The pixel
/// is in it, and in the middle of it unless it is within 120 pixels of the top or left edge of the
/// tile, or within as many of the others; then the frame begins or ends with the tile.
pub proof fn law_frame_is_around_the_position(px: u32, py: u32)
    requires
        px < 256,
        py < 256,
    ensures
        ({
            let g = around(px, py);
            &&& g.out_w == 240 && g.out_h == 240 && g.crop_w == 240 && g.crop_h == 240
            &&& g.crop_x + 240 <= 256 && g.crop_y + 240 <= 256
            &&& forall|x: int| 0 <= x < 240 ==> #[trigger] g.source_x(x) == g.crop_x + x
            &&& forall|y: int| 0 <= y < 240 ==> #[trigger] g.source_y(y) == g.crop_y + y
            &&& 120 <= px <= 136 ==> g.source_x(120) == px
            &&& 120 <= py <= 136 ==> g.source_y(120) == py
            &&& px < 120 ==> g.crop_x == 0
            &&& py < 120 ==> g.crop_y == 0
            &&& px > 136 ==> g.crop_x == 16
            &&& py > 136 ==> g.crop_y == 16
        }),
{
}

impl Geometry {
    /// There is something to crop, and the frame's size fits its header.
    pub open spec fn valid(self) -> bool {
        &&& self.crop_w > 0
        &&& self.crop_h > 0
        &&& 0 < self.out_w <= u16::MAX
        &&& 0 < self.out_h <= u16::MAX
    }

    /// The crop lies within an image.
    pub open spec fn fits(self, width: u32, height: u32) -> bool {
        self.crop_x + self.crop_w <= width && self.crop_y + self.crop_h <= height
    }

    /// The column of the image that a column of the frame shows.
    pub open spec fn source_x(self, x: int) -> int {
        self.crop_x + x * self.crop_w / (self.out_w as int)
    }

    /// The row of the image that a row of the frame shows.
    pub open spec fn source_y(self, y: int) -> int {
        self.crop_y + y * self.crop_h / (self.out_h as int)
    }

    /// A crop of the display's size, centred on the position within its tile so the viewer's
    /// location stays in the middle of the radar view. The position is that of a pixel of the
    /// tile.
    pub fn centered_on(px: u32, py: u32) -> (g: Geometry)
        ensures
            g == around(px, py),
            g.valid(),
            g.fits(TILE_SIZE, TILE_SIZE),
    {
        let out_w: u32 = if RADAR_VIEW_WIDTH as u32 <= TILE_SIZE {
            RADAR_VIEW_WIDTH as u32
        } else {
            TILE_SIZE
        };
        let out_h: u32 = if RADAR_VIEW_HEIGHT as u32 <= TILE_SIZE {
            RADAR_VIEW_HEIGHT as u32
        } else {
            TILE_SIZE
        };
        Geometry {
            crop_x: center(px, out_w, TILE_SIZE),
            crop_y: center(py, out_h, TILE_SIZE),
            crop_w: out_w,
            crop_h: out_h,
            out_w,
            out_h,
        }
    }
}

/// A stretch that is centred on a position contains it, and has it in its middle unless the limits
/// are in the way.
pub proof fn law_centering_keeps_position(at: int, size: int, limit: int)
    requires
        0 < size <= limit,
        0 <= at < limit,
    ensures
        ({
            let start = centered(at, size, limit);
            &&& 0 <= start <= limit - size
            &&& start <= at < start + size
            &&& size / 2 <= at <= limit - size + size / 2 ==> at - start == size / 2
            &&& at < size / 2 ==> start == 0
            &&& at > limit - size + size / 2 ==> start == limit - size
        }),
{
}

/// Rows and columns of the frame show rows and columns of the crop, in order.
pub proof fn law_resampling_stays_in_crop(g: Geometry, a: int, b: int)
    requires
        g.valid(),
        0 <= a <= b,
    ensures
        b < g.out_w ==> g.crop_x <= g.source_x(a) <= g.source_x(b) < g.crop_x + g.crop_w,
        b < g.out_h ==> g.crop_y <= g.source_y(a) <= g.source_y(b) < g.crop_y + g.crop_h,
{
    if b < g.out_w {
        lemma_scaled(a, b, g.crop_w as int, g.out_w as int);
    }
    if b < g.out_h {
        lemma_scaled(a, b, g.crop_h as int, g.out_h as int);
    }
}

/// Each column of the frame shows the column that is as far into the crop as it is into the frame,
/// rounded down, and each row likewise.
pub proof fn law_resampling_is_proportional(g: Geometry, x: int, y: int)
    requires
        g.valid(),
        0 <= x < g.out_w,
        0 <= y < g.out_h,
    ensures
        ({
            let sx = g.source_x(x) - g.crop_x;
            let sy = g.source_y(y) - g.crop_y;
            &&& sx * g.out_w <= x * g.crop_w < (sx + 1) * g.out_w
            &&& sy * g.out_h <= y * g.crop_h < (sy + 1) * g.out_h
        }),
{
    lemma_floor(x * g.crop_w, g.out_w as int);
    lemma_floor(y * g.crop_h, g.out_h as int);
}

proof fn lemma_floor(p: int, d: int)
    requires
        d > 0,
    ensures
        (p / d) * d <= p < (p / d + 1) * d,
{
    vstd::arithmetic::div_mod::lemma_fundamental_div_mod(p, d);
    vstd::arithmetic::div_mod::lemma_mod_bound(p, d);
    let q = p / d;
    assert(q * d <= p < (q + 1) * d) by (nonlinear_arith)
        requires
            p == d * q + p % d,
            0 <= p % d < d,
    ;
}

/// Scaling keeps order and range.
pub proof fn lemma_scaled(a: int, b: int, from: int, to: int)
    requires
        0 <= a <= b < to,
        from > 0,
    ensures
        0 <= a * from / to <= b * from / to < from,
        0 <= a * from <= b * from,
{
    assert(0 <= a * from <= b * from) by (nonlinear_arith)
        requires
            0 <= a <= b,
            from > 0,
    ;
    let p = a * from;
    let q = b * from;
    assert(0 <= p / to <= q / to) by (nonlinear_arith)
        requires
            0 <= p <= q,
            to > 0,
    ;
    assert(q / to < from) by (nonlinear_arith)
        requires
            q == b * from,
            0 <= b < to,
            from > 0,
    ;
}

/// A tile's number along an axis, held to the tiles there are at a zoom level.
pub open spec fn clamped_tile(at: u32, tiles: int) -> int {
    if at < tiles {
        at as int
    } else {
        tiles - 1
    }
}

/// How many tiles there are along an axis at a zoom level.
pub open spec fn tiles_at(zoom: u8) -> int {
    vstd::arithmetic::power2::pow2(zoom as nat) as int
}

/// The map is one tile at the first zoom level, and each further one has twice as many along an
/// axis.
pub proof fn law_zooming_doubles_the_tiles(zoom: u8)
    requires
        zoom < 255,
    ensures
        tiles_at(0) == 1,
        tiles_at((zoom + 1) as u8) == 2 * tiles_at(zoom),
{
    vstd::arithmetic::power2::lemma2_to64();
    vstd::arithmetic::power2::lemma_pow2_unfold((zoom + 1) as nat);
}

/// A position on the map is in the tile of its number, and one beyond the map in the last.
pub proof fn law_tiles_end_with_the_map(at: u32, zoom: u8)
    requires
        zoom < 32,
    ensures
        at < tiles_at(zoom) ==> clamped_tile(at, tiles_at(zoom)) == at,
        at >= tiles_at(zoom) ==> clamped_tile(at, tiles_at(zoom)) == tiles_at(zoom) - 1,
{
}

/// How many tiles there are along an axis at a zoom level.
pub fn tile_count(zoom: u8) -> (n: u32)
    requires
        zoom < 32,
    ensures
        n == tiles_at(zoom),
        1 <= n <= 0x8000_0000,
        zoom < 24 ==> n <= 0x80_0000,
{
    let mut n: u32 = 1;
    let mut z: u8 = 0;
    proof {
        vstd::arithmetic::power2::lemma2_to64();
        if zoom < 31 {
            vstd::arithmetic::power2::lemma_pow2_strictly_increases(zoom as nat, 31);
        }
        if zoom < 23 {
            vstd::arithmetic::power2::lemma_pow2_strictly_increases(zoom as nat, 23);
        }
        if zoom > 0 {
            vstd::arithmetic::power2::lemma_pow2_strictly_increases(0, zoom as nat);
        }
    }
    while z < zoom
        invariant
            z <= zoom < 32,
            n == tiles_at(z),
            1 <= n,
            n <= tiles_at(zoom),
            tiles_at(zoom) <= 0x8000_0000,
        decreases zoom - z,
    {
        proof {
            vstd::arithmetic::power2::lemma_pow2_unfold((z + 1) as nat);
            if z + 1 < zoom {
                vstd::arithmetic::power2::lemma_pow2_strictly_increases(
                    (z + 1) as nat,
                    zoom as nat,
                );
            }
        }
        n = n * 2;
        z = z + 1;
    }
    n
}

/// Integer tile index containing a position along an axis: the whole part of its tile coordinate,
/// held to the tiles there are.
pub fn tile_index(at: u32, zoom: u8) -> (i: u32)
    requires
        zoom < 32,
    ensures
        i == clamped_tile(at, tiles_at(zoom)),
        i < tiles_at(zoom),
{
    let n: u32 = tile_count(zoom);
    if at < n {
        at
    } else {
        n - 1
    }
}

} // verus!
