//! What the image header says of the pixels, and how pixels are read out of a scanline.

use vstd::prelude::*;

use crate::png_stream::error::PngError;

verus! {

/// The colour types a PNG can have.
#[derive(Debug, Clone, Copy, PartialEq, Eq, Structural)]
pub enum ColorType {
    Grayscale,
    Rgb,
    Indexed,
    GrayscaleAlpha,
    Rgba,
}

/// The colour type a header byte stands for.
pub open spec fn color_type(value: u8) -> Option<ColorType> {
    match value {
        0 => Some(ColorType::Grayscale),
        2 => Some(ColorType::Rgb),
        3 => Some(ColorType::Indexed),
        4 => Some(ColorType::GrayscaleAlpha),
        6 => Some(ColorType::Rgba),
        _ => None,
    }
}

/// How many samples a pixel has.
pub open spec fn channel_count(color: ColorType) -> nat {
    match color {
        ColorType::Grayscale => 1,
        ColorType::Indexed => 1,
        ColorType::GrayscaleAlpha => 2,
        ColorType::Rgb => 3,
        ColorType::Rgba => 4,
    }
}

/// The bit depths that pixels can be read at: one, two, four or eight bits for single-sample
/// pixels, eight bits otherwise.
pub open spec fn depth_supported(color: ColorType, depth: u8) -> bool {
    if color is Indexed || color is Grayscale {
        depth == 1 || depth == 2 || depth == 4 || depth == 8
    } else {
        depth == 8
    }
}

/// The bit depths that a header may declare: eight bits, or one, two or four for palette images.
pub open spec fn depth_declared(color: ColorType, depth: u8) -> bool {
    depth_supported(color, depth) && (color is Grayscale ==> depth == 8)
}

/// The header byte of a colour type says by its lowest bit that there is a palette, by the next
/// that there is colour, and by the one above that there is an opacity; a palette takes colour and
/// has no opacity, and no other byte stands for a colour type. A pixel has one sample, or three if
/// it is of a colour of its own, and one more for its opacity.
pub proof fn law_color_types(value: u8)
    ensures
        color_type(value) == Some(ColorType::Grayscale) <==> value == 0,
        color_type(value) == Some(ColorType::Rgb) <==> value == 2,
        color_type(value) == Some(ColorType::Indexed) <==> value == 2 + 1,
        color_type(value) == Some(ColorType::GrayscaleAlpha) <==> value == 4,
        color_type(value) == Some(ColorType::Rgba) <==> value == 4 + 2,
        channel_count(ColorType::Grayscale) == 1,
        channel_count(ColorType::Indexed) == 1,
        channel_count(ColorType::Rgb) == 3,
        channel_count(ColorType::GrayscaleAlpha) == channel_count(ColorType::Grayscale) + 1,
        channel_count(ColorType::Rgba) == channel_count(ColorType::Rgb) + 1,
{
}

/// A header may declare samples of eight bits, and for images with a palette of one, two or four
/// bits as well. Grey samples of fewer bits can be read all the same.
pub proof fn law_depths(color: ColorType, depth: u8)
    ensures
        depth_declared(color, depth) <==> depth == 8 || (color is Indexed && (depth == 1 || depth
            == 2 || depth == 4)),
        depth_supported(color, depth) <==> depth_declared(color, depth) || (color is Grayscale && (
        depth == 1 || depth == 2 || depth == 4)),
{
}

impl ColorType {
    /// The colour type that the header byte `value` stands for.
    pub fn from_byte(value: u8) -> (result: Result<ColorType, PngError>)
        ensures
            result == match color_type(value) {
                Some(color) => Ok::<ColorType, PngError>(color),
                None => Err(PngError::UnsupportedColorType(value)),
            },
    {
        match value {
            0 => Ok(ColorType::Grayscale),
            2 => Ok(ColorType::Rgb),
            3 => Ok(ColorType::Indexed),
            4 => Ok(ColorType::GrayscaleAlpha),
            6 => Ok(ColorType::Rgba),
            other => Err(PngError::UnsupportedColorType(other)),
        }
    }

    /// How many samples a pixel has.
    pub fn channels(self) -> (n: usize)
        ensures
            n == channel_count(self),
    {
        match self {
            ColorType::Grayscale | ColorType::Indexed => 1,
            ColorType::GrayscaleAlpha => 2,
            ColorType::Rgb => 3,
            ColorType::Rgba => 4,
        }
    }

    /// Whether images of this colour type may have samples of `depth` bits: only images with 8-bit
    /// channels are supported, or palette images at 1/2/4/8 bits.
    pub fn accepts_depth(self, depth: u8) -> (ok: bool)
        ensures
            ok == depth_declared(self, depth),
    {
        match self {
            ColorType::Indexed => depth == 1 || depth == 2 || depth == 4 || depth == 8,
            _ => depth == 8,
        }
    }
}

/// Everything the per-pixel accessor needs about the image.
pub struct Format {
    pub color: ColorType,
    pub depth: u8,
    /// RGB triples, for indexed images.
    pub palette: Vec<u8>,
    /// Per-index alpha, for indexed images.
    pub transparency: Vec<u8>,
}

/// A pixel format as a mathematical value.
#[verifier::ext_equal]
pub ghost struct FormatModel {
    pub color: ColorType,
    pub depth: u8,
    pub palette: Seq<u8>,
    pub transparency: Seq<u8>,
}

impl FormatModel {
    /// The bit depth is one that pixels of the colour type can be read at.
    pub open spec fn valid(self) -> bool {
        depth_supported(self.color, self.depth)
    }

    /// Bits per pixel.
    pub open spec fn pixel_bits(self) -> nat {
        channel_count(self.color) * self.depth as nat
    }

    /// Bytes per pixel, rounded up.
    pub open spec fn bpp(self) -> nat {
        (self.pixel_bits() + 7) as nat / 8
    }

    /// Bytes in a scanline of `width` pixels, rounded up.
    pub open spec fn stride(self, width: nat) -> nat {
        (width * self.pixel_bits() + 7) as nat / 8
    }
}

impl View for Format {
    type V = FormatModel;

    open spec fn view(&self) -> FormatModel {
        FormatModel {
            color: self.color,
            depth: self.depth,
            palette: self.palette@,
            transparency: self.transparency@,
        }
    }
}

fn eighths(bits: usize) -> (bytes: usize)
    ensures
        bytes == (bits + 7) as int / 8,
{
    if bits % 8 == 0 {
        bits / 8
    } else {
        bits / 8 + 1
    }
}

impl Format {
    /// Bytes per pixel, rounded up; the distance filters look back by.
    pub fn filter_bpp(&self) -> (n: usize)
        requires
            self@.valid(),
        ensures
            n == self@.bpp(),
            n >= 1,
    {
        let channels: usize = self.color.channels();
        let depth: usize = self.depth as usize;
        proof {
            lemma_pixel_bits(self@);
        }
        eighths(channels * depth)
    }

    /// Bytes in a scanline of `width` pixels, or `None` where that many bits cannot be counted.
    pub fn stride(&self, width: u32) -> (n: Option<usize>)
        requires
            self@.valid(),
        ensures
            n is Some <==> width as nat * self@.pixel_bits() <= usize::MAX,
            n matches Some(bytes) ==> bytes == self@.stride(width as nat),
    {
        let channels: usize = self.color.channels();
        let depth: usize = self.depth as usize;
        proof {
            lemma_pixel_bits(self@);
        }
        let bits: usize = channels * depth;
        match (width as usize).checked_mul(bits) {
            Some(total) => Some(eighths(total)),
            None => None,
        }
    }
}

/// A supported pixel takes between one bit and four bytes.
pub proof fn lemma_pixel_bits(f: FormatModel)
    requires
        f.valid(),
    ensures
        1 <= f.pixel_bits() <= 32,
        1 <= f.bpp() <= 4,
        channel_count(f.color) == 1 || f.pixel_bits() == 8 * channel_count(f.color),
{
    assert(f.pixel_bits() == channel_count(f.color) * f.depth as nat);
    match f.color {
        ColorType::Grayscale => {
            assert(f.pixel_bits() == f.depth) by (nonlinear_arith)
                requires
                    f.pixel_bits() == 1 * f.depth as nat,
            ;
        },
        ColorType::Indexed => {
            assert(f.pixel_bits() == f.depth) by (nonlinear_arith)
                requires
                    f.pixel_bits() == 1 * f.depth as nat,
            ;
        },
        ColorType::GrayscaleAlpha => {
            assert(f.pixel_bits() == 16);
        },
        ColorType::Rgb => {
            assert(f.pixel_bits() == 24);
        },
        ColorType::Rgba => {
            assert(f.pixel_bits() == 32);
        },
    }
}

/// A scanline has as many whole bytes as hold the bits of its pixels, and filters look back by as
/// many as hold those of one pixel.
pub proof fn law_scanlines_have_whole_bytes(f: FormatModel, width: nat)
    requires
        f.valid(),
    ensures
        ({
            let samples = match f.color {
                ColorType::Grayscale | ColorType::Indexed => 1int,
                ColorType::GrayscaleAlpha => 2,
                ColorType::Rgb => 3,
                ColorType::Rgba => 4,
            };
            let bits = width * (samples * f.depth);
            &&& 8 * f.stride(width) - 8 < bits <= 8 * f.stride(width)
            &&& 8 * f.bpp() - 8 < samples * f.depth <= 8 * f.bpp()
        }),
{
}

/// The byte at `i`, zero past the end.
pub open spec fn byte_or_zero(data: Seq<u8>, i: int) -> u8 {
    if 0 <= i < data.len() {
        data[i]
    } else {
        0
    }
}

/// The bit depth a sample is read with: anything but two, four and eight reads single bits.
pub open spec fn effective_depth(depth: u8) -> u8 {
    if depth == 8 || depth == 4 || depth == 2 {
        depth
    } else {
        1
    }
}

/// The largest sample of `depth` bits.
pub open spec fn max_sample(depth: u8) -> u8 {
    match effective_depth(depth) {
        8 => 255,
        4 => 15,
        2 => 3,
        _ => 1,
    }
}

/// Sample `x` of a line of `depth`-bit samples, packed from the most significant bit of each
/// byte down; bits past the end of the line are zero.
pub open spec fn sample(data: Seq<u8>, x: int, depth: u8) -> u8 {
    let d = effective_depth(depth);
    let bit = x * d;
    (byte_or_zero(data, bit / 8) >> ((8 - d - bit % 8) as u8)) & max_sample(depth)
}

/// A sample scaled up to a full byte: the largest one is 255, full white where it is grey.
pub open spec fn scaled_gray(raw: u8, depth: u8) -> u8 {
    (raw * 255 / max_sample(depth) as int) as u8
}

/// The straight (non-premultiplied) RGBA value of pixel `x` in an unfiltered scanline.
pub open spec fn pixel_value(f: FormatModel, data: Seq<u8>, x: int) -> (u8, u8, u8, u8) {
    match f.color {
        ColorType::Indexed => {
            let index = sample(data, x, f.depth) as int;
            let alpha = if index < f.transparency.len() {
                f.transparency[index]
            } else {
                255
            };
            if index * 3 + 3 <= f.palette.len() {
                (f.palette[index * 3], f.palette[index * 3 + 1], f.palette[index * 3 + 2], alpha)
            } else {
                (0, 0, 0, alpha)
            }
        },
        ColorType::Grayscale => {
            let v = scaled_gray(sample(data, x, f.depth), f.depth);
            (v, v, v, 255)
        },
        ColorType::GrayscaleAlpha => (data[x * 2], data[x * 2], data[x * 2], data[x * 2 + 1]),
        ColorType::Rgb => (data[x * 3], data[x * 3 + 1], data[x * 3 + 2], 255),
        ColorType::Rgba => (data[x * 4], data[x * 4 + 1], data[x * 4 + 2], data[x * 4 + 3]),
    }
}

/// Whether pixel `x` can be read: colour types of whole-byte samples need its bytes to be there.
pub open spec fn pixel_in_row(f: FormatModel, data: Seq<u8>, x: int) -> bool {
    f.color is Indexed || f.color is Grayscale || (x + 1) * channel_count(f.color) <= data.len()
}

fn byte_at(data: &[u8], i: usize) -> (b: u8)
    ensures
        b == byte_or_zero(data@, i as int),
{
    if i < data.len() {
        data[i]
    } else {
        0
    }
}

/// Read one 1/2/4/8-bit sample as it stands in the line.
fn raw_sample(data: &[u8], x: usize, depth: u8) -> (s: u8)
    ensures
        s == sample(data@, x as int, depth),
        s <= max_sample(depth),
{
    match depth {
        8 => {
            let b: u8 = byte_at(data, x);
            assert((b >> 0u8) & 255u8 == b) by (bit_vector);
            b
        },
        4 => {
            let b: u8 = byte_at(data, x / 2);
            let shift: u8 = 4 * (1 - (x % 2) as u8);
            let s: u8 = (b >> shift) & 0x0f;
            assert((b >> shift) & 0x0fu8 <= 15) by (bit_vector);
            s
        },
        2 => {
            let b: u8 = byte_at(data, x / 4);
            let shift: u8 = 2 * (3 - (x % 4) as u8);
            let s: u8 = (b >> shift) & 0x03;
            assert((b >> shift) & 0x03u8 <= 3) by (bit_vector);
            s
        },
        _ => {
            let b: u8 = byte_at(data, x / 8);
            let shift: u8 = 7 - (x % 8) as u8;
            let s: u8 = (b >> shift) & 0x01;
            assert((b >> shift) & 0x01u8 <= 1) by (bit_vector);
            s
        },
    }
}

/// Read one 1/2/4/8-bit sample, scaled up to a full byte.
pub fn sub_byte_sample(data: &[u8], x: usize, depth: u8) -> (s: u8)
    ensures
        s == scaled_gray(sample(data@, x as int, depth), depth),
{
    let raw: u8 = raw_sample(data, x, depth);
    let top: u16 = match depth {
        8 => 255,
        4 => 15,
        2 => 3,
        _ => 1,
    };
    let scaled: u16 = raw as u16 * 255 / top;
    scaled as u8
}

/// One unfiltered source scanline, with pixel access resolved lazily.
pub struct Row<'a> {
    pub data: &'a [u8],
    pub format: &'a Format,
}

impl<'a> Row<'a> {
    /// The pixel at `x` as straight (non-premultiplied) RGBA.
    pub fn pixel(&self, x: usize) -> (p: (u8, u8, u8, u8))
        requires
            self.format@.valid(),
            pixel_in_row(self.format@, self.data@, x as int),
        ensures
            p == pixel_value(self.format@, self.data@, x as int),
    {
        let f = self.format;
        proof {
            assert(self.data.len() == self.data@.len());
            let c = channel_count(f.color);
            let n = self.data@.len();
            if !(f.color is Indexed || f.color is Grayscale) {
                assert((c == 2 ==> x * 2 + 2 <= n) && (c == 3 ==> x * 3 + 3 <= n) && (c == 4 ==> x
                    * 4 + 4 <= n)) by (nonlinear_arith)
                    requires
                        (x + 1) * c <= n,
                ;
            }
        }
        match f.color {
            ColorType::Indexed => {
                let index: usize = raw_sample(self.data, x, f.depth) as usize;
                let alpha: u8 = if index < f.transparency.len() {
                    f.transparency[index]
                } else {
                    255
                };
                if index * 3 + 3 <= f.palette.len() {
                    (f.palette[index * 3], f.palette[index * 3 + 1], f.palette[index * 3 + 2], alpha)
                } else {
                    (0, 0, 0, alpha)
                }
            },
            ColorType::Grayscale => {
                // The sample is scaled up so 1/2/4-bit greys span the full range.
                let v: u8 = sub_byte_sample(self.data, x, f.depth);
                (v, v, v, 255)
            },
            ColorType::GrayscaleAlpha => {
                (self.data[x * 2], self.data[x * 2], self.data[x * 2], self.data[x * 2 + 1])
            },
            ColorType::Rgb => (self.data[x * 3], self.data[x * 3 + 1], self.data[x * 3 + 2], 255),
            ColorType::Rgba => {
                (self.data[x * 4], self.data[x * 4 + 1], self.data[x * 4 + 2], self.data[x * 4 + 3])
            },
        }
    }
}

/// Grey samples span the full range at every depth: the smallest is black and the largest white.
pub proof fn law_gray_spans_full_range(depth: u8)
    ensures
        scaled_gray(0, depth) == 0,
        scaled_gray(max_sample(depth), depth) == 255,
{
}

/// Samples of eight bits are the bytes of the line. Of four bits there are two to a byte, of two
/// bits four, and of one bit eight, the first of them in the highest bits. Behind the end of the
/// line they are zero.
pub proof fn law_samples_are_packed_from_the_top(data: Seq<u8>, x: int)
    requires
        0 <= x,
    ensures
        x < data.len() ==> sample(data, x, 8) == data[x],
        x / 2 < data.len() ==> sample(data, x, 4) == if x % 2 == 0 {
            data[x / 2] as int / 16
        } else {
            data[x / 2] as int % 16
        },
        x / 4 < data.len() ==> sample(data, x, 2) == if x % 4 == 0 {
            data[x / 4] as int / 64
        } else if x % 4 == 1 {
            data[x / 4] as int / 16 % 4
        } else if x % 4 == 2 {
            data[x / 4] as int / 4 % 4
        } else {
            data[x / 4] as int % 4
        },
        x / 8 < data.len() ==> sample(data, x, 1) == if x % 8 == 0 {
            data[x / 8] as int / 128
        } else if x % 8 == 1 {
            data[x / 8] as int / 64 % 2
        } else if x % 8 == 2 {
            data[x / 8] as int / 32 % 2
        } else if x % 8 == 3 {
            data[x / 8] as int / 16 % 2
        } else if x % 8 == 4 {
            data[x / 8] as int / 8 % 2
        } else if x % 8 == 5 {
            data[x / 8] as int / 4 % 2
        } else if x % 8 == 6 {
            data[x / 8] as int / 2 % 2
        } else {
            data[x / 8] as int % 2
        },
        x >= data.len() ==> sample(data, x, 8) == 0,
        x / 2 >= data.len() ==> sample(data, x, 4) == 0,
        x / 4 >= data.len() ==> sample(data, x, 2) == 0,
        x / 8 >= data.len() ==> sample(data, x, 1) == 0,
{
    let b8 = byte_or_zero(data, x);
    let b4 = byte_or_zero(data, x / 2);
    let b2 = byte_or_zero(data, x / 4);
    let b1 = byte_or_zero(data, x / 8);
    assert((x * 8) / 8 == x && (x * 8) % 8 == 0);
    assert((x * 4) / 8 == x / 2 && (x * 4) % 8 == 4 * (x % 2));
    assert((x * 2) / 8 == x / 4 && (x * 2) % 8 == 2 * (x % 4));
    assert((x * 1) / 8 == x / 8 && (x * 1) % 8 == x % 8);
    assert((b8 >> 0u8) & 255u8 == b8) by (bit_vector);
    assert((b4 >> 4u8) & 15u8 == b4 / 16 && (b4 >> 0u8) & 15u8 == b4 % 16) by (bit_vector);
    assert((b2 >> 6u8) & 3u8 == b2 / 64 && (b2 >> 4u8) & 3u8 == b2 / 16 % 4 && (b2 >> 2u8) & 3u8
        == b2 / 4 % 4 && (b2 >> 0u8) & 3u8 == b2 % 4) by (bit_vector);
    assert((b1 >> 7u8) & 1u8 == b1 / 128 && (b1 >> 6u8) & 1u8 == b1 / 64 % 2 && (b1 >> 5u8) & 1u8
        == b1 / 32 % 2 && (b1 >> 4u8) & 1u8 == b1 / 16 % 2 && (b1 >> 3u8) & 1u8 == b1 / 8 % 2 && (b1
        >> 2u8) & 1u8 == b1 / 4 % 2 && (b1 >> 1u8) & 1u8 == b1 / 2 % 2 && (b1 >> 0u8) & 1u8 == b1
        % 2) by (bit_vector);
}

/// A sample is scaled in proportion: of eight bits it stays as it is, and of fewer bits its steps
/// are equal and fill the range.
pub proof fn law_samples_scale_in_proportion(raw: u8)
    ensures
        scaled_gray(raw, 8) == raw,
        raw < 16 ==> scaled_gray(raw, 4) == 17 * raw,
        raw < 4 ==> scaled_gray(raw, 2) == 85 * raw,
        raw < 2 ==> scaled_gray(raw, 1) == 255 * raw,
{
    assert(max_sample(8) == 255 && max_sample(4) == 15 && max_sample(2) == 3 && max_sample(1) == 1);
    assert(raw * 255 / 255 == raw);
    assert(raw * 255 / 15 == 17 * raw);
    assert(raw * 255 / 3 == 85 * raw);
}

/// A pixel of a colour type with whole bytes is its bytes in their order, red, green and blue, or
/// grey for all three, and is opaque unless it has a byte for its opacity. A grey pixel is its
/// sample, scaled, for all three. A pixel of an image with a palette is the entry of its sample,
/// black where the palette has no such entry, with the opacity listed for it, and opaque where none
/// is.
pub proof fn law_pixels(f: FormatModel, data: Seq<u8>, x: int)
    ensures
        ({
            let p = pixel_value(f, data, x);
            let i = sample(data, x, f.depth) as int;
            &&& f.color is Rgba ==> p == (
                data[4 * x],
                data[4 * x + 1],
                data[4 * x + 2],
                data[4 * x + 3],
            )
            &&& f.color is Rgb ==> p == (data[3 * x], data[3 * x + 1], data[3 * x + 2], 255u8)
            &&& f.color is GrayscaleAlpha ==> p.0 == data[2 * x] && p.1 == data[2 * x] && p.2
                == data[2 * x] && p.3 == data[2 * x + 1]
            &&& f.color is Grayscale ==> p.0 == p.1 && p.1 == p.2 && p.3 == 255
            &&& f.color is Grayscale && f.depth == 8 && 0 <= x < data.len() ==> p.0 == data[x]
            &&& f.color is Grayscale && f.depth == 4 ==> p.0 == 17 * i
            &&& f.color is Grayscale && f.depth == 2 ==> p.0 == 85 * i
            &&& f.color is Grayscale && f.depth == 1 ==> p.0 == 255 * i
            &&& f.color is Indexed && 3 * i + 2 < f.palette.len() ==> p.0 == f.palette[3 * i]
                && p.1 == f.palette[3 * i + 1] && p.2 == f.palette[3 * i + 2]
            &&& f.color is Indexed && 3 * i + 2 >= f.palette.len() ==> p.0 == 0 && p.1 == 0 && p.2
                == 0
            &&& f.color is Indexed && i < f.transparency.len() ==> p.3 == f.transparency[i]
            &&& f.color is Indexed && i >= f.transparency.len() ==> p.3 == 255
        }),
{
    if f.color is Grayscale {
        let raw = sample(data, x, f.depth);
        law_samples_scale_in_proportion(raw);
        lemma_sample_bound(data, x, f.depth);
        if f.depth == 8 && 0 <= x < data.len() {
            law_samples_are_packed_from_the_top(data, x);
        }
    }
}

proof fn lemma_sample_bound(data: Seq<u8>, x: int, depth: u8)
    ensures
        sample(data, x, depth) <= max_sample(depth),
{
    let d = effective_depth(depth);
    let bit = x * d;
    let shift: u8 = (8 - d - bit % 8) as u8;
    let b = byte_or_zero(data, bit / 8);
    let m = max_sample(depth);
    assert((b >> shift) & m <= m) by (bit_vector);
}

/// Every pixel of a scanline as long as its stride can be read.
pub proof fn law_stride_covers_pixels(f: FormatModel, width: nat, data: Seq<u8>, x: int)
    requires
        f.valid(),
        data.len() == f.stride(width),
        0 <= x < width,
    ensures
        pixel_in_row(f, data, x),
{
    lemma_pixel_bits(f);
    if !(f.color is Indexed || f.color is Grayscale) {
        let c = channel_count(f.color);
        assert(f.pixel_bits() == 8 * c);
        assert(width * (8 * c) == 8 * (width * c)) by (nonlinear_arith);
        assert((x + 1) * c <= width * c) by (nonlinear_arith)
            requires
                0 <= x < width,
                c >= 0,
        ;
    }
}

} // verus!
