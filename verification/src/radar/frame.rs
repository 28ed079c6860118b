//! Frame files and the pixels in them.
//!
//! Frame files are raw Rgb565 prefixed with an 8-byte header: `R565`, then width and height as
//! little-endian numbers of two bytes.

use vstd::prelude::*;

verus! {

/// Bytes of the header of a frame file.
pub const HEADER_LEN: usize = 8;

/// Rows pushed to the panel at a time when streaming a frame.
pub const BLIT_ROWS: u16 = 4;

/// Background the (mostly transparent) radar tiles are composited onto.
pub open spec fn radar_background() -> (u8, u8, u8) {
    (8, 12, 20)
}

/// A channel value composited onto a background.
pub open spec fn blended(value: u8, alpha: u8, background: u8) -> u8 {
    ((value * alpha + background * (255 - alpha)) / 255) as u8
}

/// A weighted mean stays between its parts.
proof fn lemma_blended(value: u8, alpha: u8, background: u8)
    ensures
        ({
            let sum = value * alpha + background * (255 - alpha);
            let low = if value < background {
                value
            } else {
                background
            };
            let high = if value < background {
                background
            } else {
                value
            };
            &&& 0 <= value * alpha <= 65025
            &&& 0 <= background * (255 - alpha) <= 65025
            &&& low * 255 <= sum <= high * 255
            &&& low <= sum / 255 <= high
            &&& sum <= 65025
        }),
{
    let v = value as int;
    let a = alpha as int;
    let b = background as int;
    let low = if v < b {
        v
    } else {
        b
    };
    let high = if v < b {
        b
    } else {
        v
    };
    assert(0 <= v * a <= 65025) by (nonlinear_arith)
        requires
            0 <= v <= 255,
            0 <= a <= 255,
    ;
    assert(0 <= b * (255 - a) <= 65025) by (nonlinear_arith)
        requires
            0 <= b <= 255,
            0 <= a <= 255,
    ;
    assert(low * 255 <= v * a + b * (255 - a) <= high * 255) by (nonlinear_arith)
        requires
            0 <= a <= 255,
            low <= v <= high,
            low <= b <= high,
            0 <= low,
    ;
}

/// Composite one channel of a (possibly transparent) radar pixel onto a background.
pub fn blend(value: u8, alpha: u8, background: u8) -> (v: u8)
    ensures
        v == blended(value, alpha, background),
{
    proof {
        lemma_blended(value, alpha, background);
    }
    let a: u32 = alpha as u32;
    ((value as u32 * a + background as u32 * (255 - a)) / 255) as u8
}

/// An opaque pixel replaces the background, a transparent one leaves it, and any other falls
/// between the two.
pub proof fn law_blend_lies_between(value: u8, alpha: u8, background: u8)
    ensures
        blended(value, 255, background) == value,
        blended(value, 0, background) == background,
        value <= background ==> value <= blended(value, alpha, background) <= background,
        background <= value ==> background <= blended(value, alpha, background) <= value,
{
    lemma_blended(value, alpha, background);
    assert(value * 0 + background * 255 == background * 255);
    assert(value * 255 + background * 0 == value * 255);
}

/// A blended channel is the mean of value and background, weighted by the alpha and by what it
/// lacks of 255, rounded down.
pub proof fn law_blend_is_the_weighted_mean(value: u8, alpha: u8, background: u8)
    ensures
        255 * blended(value, alpha, background) <= value * alpha + background * (255 - alpha),
        value * alpha + background * (255 - alpha) < 255 * blended(value, alpha, background) + 255,
{
    lemma_blended(value, alpha, background);
}

/// A colour in sixteen bits: five of red, six of green, five of blue.
pub open spec fn packed(r: u8, g: u8, b: u8) -> u16 {
    (r / 8 * 2048 + g / 4 * 32 + b / 8) as u16
}

/// A colour in sixteen bits.
pub fn rgb565(r: u8, g: u8, b: u8) -> (v: u16)
    ensures
        v == packed(r, g, b),
{
    let v: u16 = ((r as u16 & 0xF8) << 8) | ((g as u16 & 0xFC) << 3) | (b as u16 >> 3);
    assert(v as u32 == (r as u32 / 8) * 2048 + (g as u32 / 4) * 32 + b as u32 / 8) by (bit_vector)
        requires
            v == ((r as u16 & 0xF8) << 8) | ((g as u16 & 0xFC) << 3) | (b as u16 >> 3),
    ;
    v
}

/// A packed colour has the five highest bits of red at its top, then the six highest of green, then
/// the five highest of blue.
pub proof fn law_packed_channels(r: u8, g: u8, b: u8)
    ensures
        packed(r, g, b) as int / 2048 == r as int / 8,
        packed(r, g, b) as int / 32 % 64 == g as int / 4,
        packed(r, g, b) as int % 32 == b as int / 8,
{
}

/// The red, green and blue of a colour in sixteen bits, each scaled to the full range.
pub open spec fn unpacked(v: u16) -> (u8, u8, u8) {
    (
        (v / 2048 * 255 / 31) as u8,
        (v / 32 % 64 * 255 / 63) as u8,
        (v % 32 * 255 / 31) as u8,
    )
}

/// The red, green and blue of a colour in sixteen bits.
pub fn split565(v: u16) -> (c: (u8, u8, u8))
    ensures
        c == unpacked(v),
{
    let r: u32 = v as u32 / 2048;
    let g: u32 = v as u32 / 32 % 64;
    let b: u32 = v as u32 % 32;
    ((r * 255 / 31) as u8, (g * 255 / 63) as u8, (b * 255 / 31) as u8)
}

/// A colour in sixteen bits survives being taken apart and put together again.
pub proof fn law_packing_is_stable(v: u16)
    ensures
        ({
            let (r, g, b) = unpacked(v);
            packed(r, g, b) == v
        }),
{
    let r = v / 2048;
    let g = v / 32 % 64;
    let b = v % 32;
    assert(r * 255 / 31 / 8 == r);
    assert(g * 255 / 63 / 4 == g);
    assert(b * 255 / 31 / 8 == b);
}

/// Each unpacked channel is in the same place of 0 to 255 as the packed one is of 0 to 31, or of 0
/// to 63 for green, rounded down.
pub proof fn law_unpacked_channels(v: u16)
    ensures
        ({
            let (r, g, b) = unpacked(v);
            &&& 31 * r <= v as int / 2048 * 255 < 31 * r + 31
            &&& 63 * g <= v as int / 32 % 64 * 255 < 63 * g + 63
            &&& 31 * b <= v as int % 32 * 255 < 31 * b + 31
        }),
{
}

/// A pixel of a tile on top of a pixel of a frame.
#[verifier::opaque]
pub open spec fn over_pixel(p: (u8, u8, u8, u8), under: u16) -> u16 {
    let (r, g, b) = unpacked(under);
    packed(blended(p.0, p.3, r), blended(p.1, p.3, g), blended(p.2, p.3, b))
}

/// Where a tile is transparent the frame below it shows unchanged.
pub proof fn law_transparent_pixel_keeps_frame(r: u8, g: u8, b: u8, under: u16)
    ensures
        over_pixel((r, g, b, 0), under) == under,
{
    reveal(over_pixel);
    let (ur, ug, ub) = unpacked(under);
    law_packing_is_stable(under);
    law_blend_lies_between(r, 0, ur);
    law_blend_lies_between(g, 0, ug);
    law_blend_lies_between(b, 0, ub);
}

/// Whatever the alpha, each channel of a pixel on top of a frame's is the mean of the two, weighted
/// by the alpha and by what it lacks of 255, cut to the bits that the frame keeps of it.
pub proof fn law_over_pixel_channels(p: (u8, u8, u8, u8), under: u16)
    ensures
        ({
            let v = over_pixel(p, under) as int;
            let a = p.3 as int;
            let (r, g, b) = (
                under as int / 2048 * 255 / 31,
                under as int / 32 % 64 * 255 / 63,
                under as int % 32 * 255 / 31,
            );
            &&& v / 2048 == (p.0 * a + r * (255 - a)) / 255 / 8
            &&& v / 32 % 64 == (p.1 * a + g * (255 - a)) / 255 / 4
            &&& v % 32 == (p.2 * a + b * (255 - a)) / 255 / 8
        }),
{
    reveal(over_pixel);
    let (r, g, b) = unpacked(under);
    lemma_blended(p.0, p.3, r);
    lemma_blended(p.1, p.3, g);
    lemma_blended(p.2, p.3, b);
    law_packed_channels(blended(p.0, p.3, r), blended(p.1, p.3, g), blended(p.2, p.3, b));
}

/// A pixel of a tile on top of a pixel of a frame.
pub fn blend_over(p: (u8, u8, u8, u8), under: u16) -> (v: u16)
    ensures
        v == over_pixel(p, under),
{
    proof {
        reveal(over_pixel);
    }
    let (r, g, b) = split565(under);
    rgb565(blend(p.0, p.3, r), blend(p.1, p.3, g), blend(p.2, p.3, b))
}

/// A pixel of a tile on top of the flat background.
pub open spec fn flat_pixel(p: (u8, u8, u8, u8)) -> u16 {
    let bg = radar_background();
    packed(blended(p.0, p.3, bg.0), blended(p.1, p.3, bg.1), blended(p.2, p.3, bg.2))
}

/// A pixel of a tile on top of the flat background.
pub fn blend_flat(p: (u8, u8, u8, u8)) -> (v: u16)
    ensures
        v == flat_pixel(p),
{
    rgb565(blend(p.0, p.3, 8), blend(p.1, p.3, 12), blend(p.2, p.3, 20))
}

/// Whatever the alpha, each channel of a tile's pixel on the flat background is the mean of the
/// pixel and the navy (8, 12, 20), weighted by the alpha and by what it lacks of 255, cut to the
/// five bits of red, six of green and five of blue.
pub proof fn law_flat_pixel_channels(p: (u8, u8, u8, u8))
    ensures
        ({
            let v = flat_pixel(p) as int;
            let a = p.3 as int;
            &&& v / 2048 == (p.0 * a + 8 * (255 - a)) / 255 / 8
            &&& v / 32 % 64 == (p.1 * a + 12 * (255 - a)) / 255 / 4
            &&& v % 32 == (p.2 * a + 20 * (255 - a)) / 255 / 8
        }),
{
    lemma_blended(p.0, p.3, 8);
    lemma_blended(p.1, p.3, 12);
    lemma_blended(p.2, p.3, 20);
    law_packed_channels(blended(p.0, p.3, 8), blended(p.1, p.3, 12), blended(p.2, p.3, 20));
}

/// The low byte of a number of two bytes.
pub open spec fn low_byte(v: u16) -> u8 {
    (v % 256) as u8
}

/// The high byte of a number of two bytes.
pub open spec fn high_byte(v: u16) -> u8 {
    (v / 256) as u8
}

/// A number of two bytes, the low one first.
pub open spec fn le16(low: u8, high: u8) -> u16 {
    (low + high * 256) as u16
}

/// Two bytes are the low and the high byte of the number they make.
pub proof fn lemma_le16(low: u8, high: u8)
    ensures
        low_byte(le16(low, high)) == low,
        high_byte(le16(low, high)) == high,
{
}

/// The two bytes of a number, the low one first.
pub fn to_le(v: u16) -> (b: (u8, u8))
    ensures
        b.0 == low_byte(v),
        b.1 == high_byte(v),
        le16(b.0, b.1) == v,
{
    ((v % 256) as u8, (v / 256) as u8)
}

/// The number in two bytes, the low one first.
pub fn from_le(low: u8, high: u8) -> (v: u16)
    ensures
        v == le16(low, high),
{
    low as u16 + high as u16 * 256
}

/// The header of a frame.
pub open spec fn header_bytes(width: u16, height: u16) -> Seq<u8> {
    seq![
        0x52u8,
        0x35,
        0x36,
        0x35,
        low_byte(width),
        high_byte(width),
        low_byte(height),
        high_byte(height),
    ]
}

/// Append the header of a frame.
pub fn write_header(out: &mut Vec<u8>, width: u16, height: u16)
    ensures
        final(out)@ == old(out)@ + header_bytes(width, height),
{
    let (w0, w1) = to_le(width);
    let (h0, h1) = to_le(height);
    out.push(0x52);
    out.push(0x35);
    out.push(0x36);
    out.push(0x35);
    out.push(w0);
    out.push(w1);
    out.push(h0);
    out.push(h1);
    assert(out@ =~= old(out)@ + header_bytes(width, height));
}

/// Why a frame cannot be shown.
#[derive(Debug, Clone, Copy, PartialEq, Eq, Structural)]
pub enum FrameError {
    /// The file does not begin like a frame.
    NotFrame,
    /// The frame has no pixels.
    Empty,
}

/// The width and height in the header of a frame.
pub open spec fn header_size(b: Seq<u8>) -> Result<(u16, u16), FrameError> {
    if !(b[0] == 0x52 && b[1] == 0x35 && b[2] == 0x36 && b[3] == 0x35) {
        Err(FrameError::NotFrame)
    } else if le16(b[4], b[5]) == 0 || le16(b[6], b[7]) == 0 {
        Err(FrameError::Empty)
    } else {
        Ok((le16(b[4], b[5]), le16(b[6], b[7])))
    }
}

/// Read the width and height in the header of a frame.
pub fn read_header(b: &[u8]) -> (r: Result<(u16, u16), FrameError>)
    requires
        b@.len() == HEADER_LEN,
    ensures
        r == header_size(b@),
{
    if !(b[0] == 0x52 && b[1] == 0x35 && b[2] == 0x36 && b[3] == 0x35) {
        return Err(FrameError::NotFrame);
    }
    let width: u16 = from_le(b[4], b[5]);
    let height: u16 = from_le(b[6], b[7]);
    if width == 0 || height == 0 {
        return Err(FrameError::Empty);
    }
    Ok((width, height))
}

/// A header reads back as what was written, unless the frame is empty, which is refused.
pub proof fn law_header_reads_back(width: u16, height: u16)
    ensures
        header_bytes(width, height).len() == HEADER_LEN,
        header_size(header_bytes(width, height)) == if width == 0 || height == 0 {
            Err(FrameError::Empty)
        } else {
            Ok((width, height))
        },
{
    assert(le16(low_byte(width), high_byte(width)) == width);
    assert(le16(low_byte(height), high_byte(height)) == height);
}

/// A frame begins with the characters `R565`, then its width and its height, the low byte of each
/// before the high one.
pub proof fn law_header_layout(width: u16, height: u16)
    ensures
        ({
            let b = header_bytes(width, height);
            &&& b.len() == 8
            &&& b[0] == 'R' as int && b[1] == '5' as int && b[2] == '6' as int && b[3] == '5' as int
            &&& b[4] + 256 * b[5] == width
            &&& b[6] + 256 * b[7] == height
        }),
{
}

/// Bytes are the header of a frame if and only if they begin with `R565` and give neither a width
/// nor a height of zero; then they give these. What does not begin so is no frame, and otherwise
/// the frame is empty.
pub proof fn law_header_is_checked(b: Seq<u8>)
    requires
        b.len() == 8,
    ensures
        ({
            let named = b[0] == 'R' as int && b[1] == '5' as int && b[2] == '6' as int && b[3]
                == '5' as int;
            let width = b[4] + 256 * b[5];
            let height = b[6] + 256 * b[7];
            &&& !named <==> header_size(b) == Err::<(u16, u16), _>(FrameError::NotFrame)
            &&& named && (width == 0 || height == 0) <==> header_size(b) == Err::<(u16, u16), _>(
                FrameError::Empty,
            )
            &&& header_size(b) matches Ok((w, h)) ==> w == width && h == height
        }),
{
}

/// The pixels in bytes, two bytes each.
pub open spec fn pixels_of(b: Seq<u8>) -> Seq<u16> {
    Seq::new(b.len() / 2, |i: int| le16(b[2 * i], b[2 * i + 1]))
}

/// The pixels in bytes, two bytes each; an odd byte at the end is no pixel.
pub fn band_pixels(b: &[u8]) -> (v: Vec<u16>)
    ensures
        v@ == pixels_of(b@),
{
    let n: usize = b.len() / 2;
    let mut v: Vec<u16> = Vec::new();
    let mut i: usize = 0;
    while i < n
        invariant
            n == b@.len() / 2,
            i <= n,
            v@.len() == i,
            forall|j: int| 0 <= j < i ==> v@[j] == le16(b@[2 * j], b@[2 * j + 1]),
        decreases n - i,
    {
        assert(b.len() == b@.len());
        v.push(from_le(b[2 * i], b[2 * i + 1]));
        i = i + 1;
    }
    assert(v@ =~= pixels_of(b@));
    v
}

/// Every two bytes are a pixel, the low byte first.
pub proof fn law_pixels_have_two_bytes(b: Seq<u8>, i: int)
    requires
        0 <= i,
        2 * i + 1 < b.len(),
    ensures
        pixels_of(b).len() == b.len() as int / 2,
        pixels_of(b)[i] == b[2 * i] + 256 * b[2 * i + 1],
{
}

/// A band of rows on its way to the panel.
#[derive(Debug, Clone, Copy, PartialEq, Eq, Structural)]
pub struct Band {
    /// How many rows it has.
    pub rows: u16,
    /// How many bytes of the frame it is.
    pub bytes: usize,
    /// The window on the panel that it fills, corners included.
    pub x0: u16,
    pub y0: u16,
    pub x1: u16,
    pub y1: u16,
}

/// How many rows the band at `row` has.
pub open spec fn band_rows(height: u16, row: u16) -> int {
    if height - row < BLIT_ROWS {
        height - row
    } else {
        BLIT_ROWS as int
    }
}

/// The band at `row` of a frame of `width` by `height` pixels whose top-left corner goes to (`x`,
/// `y`).
pub open spec fn band_at(x: u16, y: u16, width: u16, height: u16, row: u16) -> Band {
    let rows = band_rows(height, row);
    Band {
        rows: rows as u16,
        bytes: (width * 2 * rows) as usize,
        x0: x,
        y0: (y + row) as u16,
        x1: (x + width - 1) as u16,
        y1: (y + row + rows - 1) as u16,
    }
}

/// Stream a frame onto the panel a few rows at a time: the band that comes at `row`.
pub fn blit_frame(x: u16, y: u16, width: u16, height: u16, row: u16) -> (band: Band)
    requires
        width > 0,
        row < height,
        x + width <= 0xffff,
        y + height <= 0xffff,
    ensures
        band == band_at(x, y, width, height, row),
        0 < band.rows <= height - row,
{
    let rows: u16 = if height - row < BLIT_ROWS {
        height - row
    } else {
        BLIT_ROWS
    };
    assert(0 <= width * 2 * rows <= 0x80000) by (nonlinear_arith)
        requires
            0 <= width <= 0xffff,
            0 <= rows <= 4,
    ;
    let bytes: usize = width as usize * 2 * rows as usize;
    Band { rows, bytes, x0: x, y0: y + row, x1: x + width - 1, y1: y + row + rows - 1 }
}

/// The bands of a frame from `row` on.
pub open spec fn bands(x: u16, y: u16, width: u16, height: u16, row: u16) -> Seq<Band>
    decreases height - row,
{
    if row >= height {
        Seq::empty()
    } else {
        seq![band_at(x, y, width, height, row)] + bands(
            x,
            y,
            width,
            height,
            (row + band_rows(height, row)) as u16,
        )
    }
}

/// Together the bands are the whole frame: they follow one another down the panel without a gap or
/// an overlap, each as wide as the frame, and their bytes are all the frame's pixels.
pub proof fn law_bands_make_up_the_frame(x: u16, y: u16, width: u16, height: u16, row: u16)
    requires
        width > 0,
        row <= height,
        x + width <= 0xffff,
        y + height <= 0xffff,
    ensures
        ({
            let b = bands(x, y, width, height, row);
            &&& row < height ==> b.len() > 0 && b[0].y0 == y + row && b.last().y1 == y + height - 1
            &&& forall|i: int|
                0 <= i < b.len() ==> (#[trigger] b[i]).x0 == x && b[i].x1 == x + width - 1
                    && b[i].bytes == width * 2 * b[i].rows && b[i].y1 == b[i].y0 + b[i].rows - 1
            &&& forall|i: int, j: int|
                0 <= i && j == i + 1 && j < b.len() ==> (#[trigger] b[j]).y0 == (
                #[trigger] b[i]).y1 + 1
            &&& total_rows(b) == height - row
            &&& forall|i: int| 0 <= i < b.len() ==> 1 <= (#[trigger] b[i]).rows <= 4
            &&& forall|i: int| 0 <= i < b.len() - 1 ==> (#[trigger] b[i]).rows == 4
        }),
    decreases height - row,
{
    if row < height {
        let rows = band_rows(height, row);
        let next = (row + rows) as u16;
        law_bands_make_up_the_frame(x, y, width, height, next);
        let first = band_at(x, y, width, height, row);
        let rest = bands(x, y, width, height, next);
        let b = bands(x, y, width, height, row);
        assert(b =~= seq![first] + rest);
        assert(0 <= width * 2 * rows <= 0x80000) by (nonlinear_arith)
            requires
                0 <= width <= 0xffff,
                0 <= rows <= 4,
        ;
        assert(b.drop_first() =~= rest);
        assert forall|i: int| 0 <= i < b.len() implies (#[trigger] b[i]).x0 == x && b[i].x1 == x
            + width - 1 && b[i].bytes == width * 2 * b[i].rows && b[i].y1 == b[i].y0 + b[i].rows
            - 1 by {
            if i > 0 {
                assert(b[i] == rest[i - 1]);
            }
        }
        assert forall|i: int| 0 <= i < b.len() implies 1 <= (#[trigger] b[i]).rows <= 4 && (i
            < b.len() - 1 ==> b[i].rows == 4) by {
            if i > 0 {
                assert(b[i] == rest[i - 1]);
            }
        }
        assert forall|i: int, j: int| 0 <= i && j == i + 1 && j < b.len() implies (
        #[trigger] b[j]).y0 == (#[trigger] b[i]).y1 + 1 by {
            if i > 0 {
                assert(b[i] == rest[i - 1]);
                assert(b[j] == rest[i]);
            } else {
                assert(b[1] == rest[0]);
            }
        }
        if rest.len() > 0 {
            assert(b.last() == rest.last());
        }
    }
}

/// How many rows bands have together.
pub open spec fn total_rows(b: Seq<Band>) -> int
    decreases b.len(),
{
    if b.len() == 0 {
        0
    } else {
        b[0].rows + total_rows(b.drop_first())
    }
}

} // verus!
