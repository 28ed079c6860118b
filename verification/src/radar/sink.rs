//! From decoded scanlines to the pixels of a frame.

use vstd::prelude::*;

use crate::png_stream::decoder::{decode, decoded, image, satisfied, Image};
use crate::png_stream::error::PngError;
use crate::png_stream::format::{
    law_stride_covers_pixels, pixel_in_row, pixel_value, FormatModel, Row,
};
use crate::png_stream::inflate::Scratch;
use crate::png_stream::rows::{delivered, DecodeError, RowEvent, RowSink, SinkLog};
use crate::radar::frame::{
    blend_flat, flat_pixel, header_bytes, high_byte, low_byte, to_le, write_header, HEADER_LEN,
};
use crate::radar::geometry::{law_resampling_stays_in_crop, lemma_scaled, Geometry};

verus! {

/// The crop does not lie within the image.
#[derive(Debug, Clone, Copy, PartialEq, Eq, Structural)]
pub struct CropError {
    pub width: u32,
    pub height: u32,
}

/// A row of the frame: the pixels of a scanline, cropped and resampled, on the flat background.
pub open spec fn row_bytes(format: FormatModel, data: Seq<u8>, g: Geometry) -> Seq<u8> {
    Seq::new(
        (g.out_w * 2) as nat,
        |i: int|
            {
                let v = flat_pixel(pixel_value(format, data, g.source_x(i / 2)));
                if i % 2 == 0 {
                    low_byte(v)
                } else {
                    high_byte(v)
                }
            },
    )
}

/// Every pixel of the crop can be read from a scanline.
pub open spec fn row_readable(format: FormatModel, data: Seq<u8>, g: Geometry) -> bool {
    forall|x: int|
        0 <= x < g.out_w ==> pixel_in_row(format, data, #[trigger] g.source_x(x)) && g.source_x(x)
            < u32::MAX
}

/// The two bytes of a pixel in a row.
proof fn lemma_row_pair(format: FormatModel, data: Seq<u8>, g: Geometry, x: int)
    requires
        0 <= x < g.out_w,
    ensures
        ({
            let v = flat_pixel(pixel_value(format, data, g.source_x(x)));
            let whole = row_bytes(format, data, g);
            &&& whole.len() == 2 * g.out_w
            &&& whole.take(2 * (x + 1)) == whole.take(2 * x).push(low_byte(v)).push(high_byte(v))
        }),
{
    let whole = row_bytes(format, data, g);
    assert((2 * x) / 2 == x);
    assert((2 * x + 1) / 2 == x);
    let v = flat_pixel(pixel_value(format, data, g.source_x(x)));
    assert(whole[2 * x] == low_byte(v));
    assert(whole[2 * x + 1] == high_byte(v));
    assert(whole.take(2 * (x + 1)) =~= whole.take(2 * x).push(low_byte(v)).push(high_byte(v)));
}

/// The column of the image that a column of the frame shows.
fn source_column(g: &Geometry, x: u32) -> (c: u64)
    requires
        g.valid(),
        x < g.out_w,
    ensures
        c == g.source_x(x as int),
{
    proof {
        lemma_scaled(x as int, x as int, g.crop_w as int, g.out_w as int);
        assert(x * g.crop_w <= 0xffff * 0xffff_ffff) by (nonlinear_arith)
            requires
                0 <= x <= 0xffff,
                0 <= g.crop_w <= 0xffff_ffff,
        ;
    }
    g.crop_x as u64 + x as u64 * g.crop_w as u64 / g.out_w as u64
}

/// Append one decoded source scanline as a horizontally resampled Rgb565 row.
pub fn convert_row(src: &Row, geom: &Geometry, dst: &mut Vec<u8>)
    requires
        geom.valid(),
        src.format@.valid(),
        row_readable(src.format@, src.data@, *geom),
    ensures
        final(dst)@ == old(dst)@ + row_bytes(src.format@, src.data@, *geom),
{
    let ghost whole = row_bytes(src.format@, src.data@, *geom);
    let mut x: u32 = 0;
    assert(dst@ =~= old(dst)@ + whole.take(0));
    while x < geom.out_w
        invariant
            geom.valid(),
            src.format@.valid(),
            row_readable(src.format@, src.data@, *geom),
            whole == row_bytes(src.format@, src.data@, *geom),
            x <= geom.out_w,
            dst@ == old(dst)@ + whole.take(2 * x),
        decreases geom.out_w - x,
    {
        let src_x: u64 = source_column(geom, x);
        assert(pixel_in_row(src.format@, src.data@, geom.source_x(x as int)));
        let v: u16 = blend_flat(src.pixel(src_x as usize));
        let (low, high) = to_le(v);
        dst.push(low);
        dst.push(high);
        proof {
            lemma_row_pair(src.format@, src.data@, *geom, x as int);
            assert(dst@ =~= old(dst)@ + whole.take(2 * x).push(low).push(high));
        }
        x = x + 1;
    }
    assert(whole.take(2 * x) =~= whole);
}

/// How many rows of the frame, from row `k` on, can be made from the first `n` scanlines.
pub open spec fn filled_from(g: Geometry, k: int, n: int) -> int
    decreases g.out_h - k,
{
    if k >= g.out_h || g.source_y(k) >= n {
        k
    } else {
        filled_from(g, k + 1, n)
    }
}

/// How many rows of the frame can be made from the first `n` scanlines.
pub open spec fn filled(g: Geometry, n: int) -> int {
    filled_from(g, 0, n)
}

proof fn lemma_filled_from(g: Geometry, k: int, n: int, f: int)
    requires
        0 <= k <= f <= g.out_h,
        forall|j: int| 0 <= j < f ==> #[trigger] g.source_y(j) < n,
        f < g.out_h ==> g.source_y(f) >= n,
    ensures
        filled_from(g, k, n) == f,
    decreases f - k,
{
    if k < f {
        assert(g.source_y(k) < n);
        lemma_filled_from(g, k + 1, n, f);
    }
}

/// What the number of rows that can be made means.
proof fn lemma_filled(g: Geometry, k: int, n: int)
    requires
        g.valid(),
        0 <= k <= g.out_h,
        forall|j: int| 0 <= j < k ==> #[trigger] g.source_y(j) < n,
    ensures
        ({
            let f = filled_from(g, k, n);
            &&& k <= f <= g.out_h
            &&& forall|j: int| 0 <= j < f ==> #[trigger] g.source_y(j) < n
            &&& f < g.out_h ==> g.source_y(f) >= n
        }),
    decreases g.out_h - k,
{
    if k < g.out_h && g.source_y(k) < n {
        lemma_filled(g, k + 1, n);
    }
}

/// The first `k` rows of a frame, from the scanlines a sink received.
pub open spec fn frame_body<E>(g: Geometry, events: Seq<RowEvent<E>>, k: int) -> Seq<u8>
    decreases k,
{
    if k <= 0 {
        Seq::empty()
    } else {
        let event = events[g.source_y(k - 1)];
        frame_body(g, events, k - 1) + row_bytes(event.format, event.data, g)
    }
}

/// Scanlines received later do not change the rows made so far.
proof fn lemma_body_stays<E>(g: Geometry, events: Seq<RowEvent<E>>, more: Seq<RowEvent<E>>, k: int)
    requires
        g.valid(),
        k <= g.out_h,
        events.len() <= more.len(),
        forall|j: int| 0 <= j < k ==> #[trigger] g.source_y(j) < events.len(),
        forall|i: int| 0 <= i < events.len() ==> (#[trigger] events[i]) == more[i],
    ensures
        frame_body(g, more, k) == frame_body(g, events, k),
    decreases k,
{
    if k > 0 {
        lemma_body_stays(g, events, more, k - 1);
        lemma_scaled(k - 1, k - 1, g.crop_h as int, g.out_h as int);
        let i = g.source_y(k - 1);
        assert(events[i] == more[i]);
    }
}

/// Turns decoded scanlines into the cropped, resampled Rgb565 frame body.
pub struct FrameSink {
    geom: Geometry,
    out: Vec<u8>,
    out_y: u32,
    log: Ghost<SinkLog<CropError>>,
    head: Ghost<Seq<u8>>,
}

impl FrameSink {
    /// The crop and the frame's size.
    pub closed spec fn geom(&self) -> Geometry {
        self.geom
    }

    /// All that has been written.
    pub closed spec fn written(&self) -> Seq<u8> {
        self.out@
    }

    /// What had been written before the first row.
    pub closed spec fn head(&self) -> Seq<u8> {
        self.head@
    }

    /// How many rows have been written.
    pub closed spec fn rows_written(&self) -> int {
        self.out_y as int
    }

    /// A sink that writes its rows behind `out`.
    pub fn new(geom: Geometry, out: Vec<u8>) -> (s: FrameSink)
        requires
            geom.valid(),
        ensures
            s.ready(),
            s.geom() == geom,
            s.head() == out@,
            s.log() == SinkLog::<CropError>::blank(),
    {
        let s = FrameSink {
            geom,
            out,
            out_y: 0,
            log: Ghost(SinkLog::blank()),
            head: Ghost(out@),
        };
        proof {
            lemma_scaled(0, 0, geom.crop_h as int, geom.out_h as int);
            assert(filled(geom, 0) == 0);
            assert(s.out@ =~= s.head@ + frame_body(geom, s.log@.rows, 0));
        }
        s
    }

    /// Give back what was written, and how many rows of it there are.
    pub fn finish(self) -> (r: (Vec<u8>, u32))
        ensures
            r.0@ == self.written(),
            r.1 == self.rows_written(),
    {
        (self.out, self.out_y)
    }
}

impl RowSink for FrameSink {
    type Fault = CropError;

    type Config = (Geometry, Seq<u8>);

    open spec fn config(&self) -> (Geometry, Seq<u8>) {
        (self.geom(), self.head())
    }

    open spec fn ready(&self) -> bool {
        let g = self.geom();
        let log = self.log();
        &&& g.valid()
        &&& log.opened matches Some((width, height, Ok(()))) ==> g.fits(width, height)
        &&& log.opened matches Some((width, height, Err(e))) ==> !g.fits(width, height) && e == (
        CropError { width, height })
        &&& self.rows_written() == filled(g, log.rows.len() as int)
        &&& self.written() == self.head() + frame_body(g, log.rows, self.rows_written())
        &&& forall|i: int|
            0 <= i < log.rows.len() ==> (#[trigger] log.rows[i]).reply == Ok::<bool, CropError>(
                filled(g, i + 1) < g.out_h,
            )
    }

    closed spec fn log(&self) -> SinkLog<CropError> {
        self.log@
    }

    fn start(&mut self, width: u32, height: u32) -> (r: Result<(), CropError>)
    {
        let g = self.geom;
        let right: u64 = g.crop_x as u64 + g.crop_w as u64;
        let bottom: u64 = g.crop_y as u64 + g.crop_h as u64;
        let r: Result<(), CropError> = if right > width as u64 || bottom > height as u64 {
            Err(CropError { width, height })
        } else {
            Ok(())
        };
        self.log = Ghost(SinkLog { opened: Some((width, height, r)), rows: Seq::empty() });
        r
    }

    #[verifier::rlimit(30)]
    fn row(&mut self, y: u32, row: &Row) -> (r: Result<bool, CropError>)
    {
        // Nearest-neighbour vertical resampling: emit every output row that maps onto the source
        // row we are currently holding.
        let g = self.geom;
        let ghost n = y as int;
        let ghost old_rows = self.log@.rows;
        let ghost event0 = RowEvent::<CropError> {
            y,
            format: row.format@,
            data: row.data@,
            reply: Ok(true),
        };
        let ghost events = old_rows.push(event0);
        let ghost head = self.head@;
        let ghost opened = self.log@.opened;
        proof {
            lemma_filled(g, 0, n);
            lemma_body_stays(g, old_rows, events, self.out_y as int);
            lemma_readable(g, row.format@, row.data@, opened);
        }
        while self.out_y < g.out_h && source_row(&g, self.out_y) == y as u64
            invariant
                g.valid(),
                g == self.geom,
                n == y,
                head == self.head@,
                self.log@.rows == old_rows,
                self.log@.opened == opened,
                old_rows.len() == n,
                events == old_rows.push(event0),
                event0.format == row.format@,
                event0.data == row.data@,
                row.format@.valid(),
                row_readable(row.format@, row.data@, g),
                self.out_y <= g.out_h,
                forall|j: int| 0 <= j < self.out_y ==> #[trigger] g.source_y(j) < n + 1,
                self.out_y < g.out_h ==> g.source_y(self.out_y as int) >= n,
                self.out@ == head + frame_body(g, events, self.out_y as int),
            decreases g.out_h - self.out_y,
        {
            let ghost k = self.out_y as int;
            convert_row(row, &g, &mut self.out);
            self.out_y = self.out_y + 1;
            proof {
                assert(events[g.source_y(k)] == event0);
                assert(self.out@ =~= head + frame_body(g, events, k + 1));
                if self.out_y < g.out_h {
                    law_resampling_stays_in_crop(g, k, k + 1);
                }
            }
        }
        let keep_going = self.out_y < g.out_h;
        let ghost event = RowEvent::<CropError> { reply: Ok(keep_going), ..event0 };
        proof {
            lemma_filled_from(g, 0, n + 1, self.out_y as int);
            lemma_body_same(g, events, old_rows.push(event), self.out_y as int);
        }
        self.log = Ghost(SinkLog { opened, rows: old_rows.push(event) });
        Ok(keep_going)
    }
}

/// What a frame is made of does not depend on what the sink replied.
proof fn lemma_body_same<E>(g: Geometry, a: Seq<RowEvent<E>>, b: Seq<RowEvent<E>>, k: int)
    requires
        g.valid(),
        k <= g.out_h,
        a.len() == b.len(),
        forall|j: int| 0 <= j < k ==> #[trigger] g.source_y(j) < a.len(),
        forall|i: int|
            0 <= i < a.len() ==> (#[trigger] a[i]).format == b[i].format && a[i].data == b[i].data,
    ensures
        frame_body(g, a, k) == frame_body(g, b, k),
    decreases k,
{
    if k > 0 {
        lemma_body_same(g, a, b, k - 1);
        lemma_scaled(k - 1, k - 1, g.crop_h as int, g.out_h as int);
        assert(a[g.source_y(k - 1)].format == b[g.source_y(k - 1)].format);
    }
}

/// A scanline of an image that the crop fits can be read.
proof fn lemma_readable(
    g: Geometry,
    format: FormatModel,
    data: Seq<u8>,
    opened: Option<(u32, u32, Result<(), CropError>)>,
)
    requires
        g.valid(),
        opened matches Some((width, height, Ok(()))) && g.fits(width, height)
            && format.valid() && data.len() == format.stride(width as nat),
    ensures
        row_readable(format, data, g),
{
    let (width, height, ok) = opened->0;
    assert forall|x: int| 0 <= x < g.out_w implies pixel_in_row(
        format,
        data,
        #[trigger] g.source_x(x),
    ) && g.source_x(x) < u32::MAX by {
        law_resampling_stays_in_crop(g, x, x);
        law_stride_covers_pixels(format, width as nat, data, g.source_x(x));
    }
}

/// The row of the image that a row of the frame shows.
fn source_row(g: &Geometry, k: u32) -> (y: u64)
    requires
        g.valid(),
        k < g.out_h,
    ensures
        y == g.source_y(k as int),
{
    proof {
        lemma_scaled(k as int, k as int, g.crop_h as int, g.out_h as int);
        assert(k * g.crop_h <= 0xffff * 0xffff_ffff) by (nonlinear_arith)
            requires
                0 <= k <= 0xffff,
                0 <= g.crop_h <= 0xffff_ffff,
        ;
    }
    g.crop_y as u64 + k as u64 * g.crop_h as u64 / g.out_h as u64
}

/// How many scanlines it takes to fill the frame.
pub open spec fn rows_needed(g: Geometry) -> int {
    g.source_y(g.out_h - 1) + 1
}

/// The first `k` rows of a frame, from the scanlines of an image.
pub open spec fn body_bytes(g: Geometry, format: FormatModel, rows: Seq<Seq<u8>>, k: int) -> Seq<
    u8,
>
    decreases k,
{
    if k <= 0 {
        Seq::empty()
    } else {
        body_bytes(g, format, rows, k - 1) + row_bytes(format, rows[g.source_y(k - 1)], g)
    }
}

/// A whole frame file.
pub open spec fn frame_bytes(g: Geometry, format: FormatModel, rows: Seq<Seq<u8>>) -> Seq<u8> {
    header_bytes(g.out_w as u16, g.out_h as u16) + body_bytes(g, format, rows, g.out_h as int)
}

/// A frame file has exactly the size that its header declares.
pub proof fn law_frame_has_declared_size(g: Geometry, format: FormatModel, rows: Seq<Seq<u8>>)
    requires
        g.valid(),
    ensures
        frame_bytes(g, format, rows).len() == HEADER_LEN + 2 * g.out_w * g.out_h,
{
    lemma_body_len(g, format, rows, g.out_h as int);
}

proof fn lemma_body_len(g: Geometry, format: FormatModel, rows: Seq<Seq<u8>>, k: int)
    requires
        k >= 0,
    ensures
        body_bytes(g, format, rows, k).len() == 2 * g.out_w * k,
    decreases k,
{
    if k > 0 {
        lemma_body_len(g, format, rows, k - 1);
        let w = 2 * g.out_w;
        assert(w * (k - 1) + w == w * k) by (nonlinear_arith);
    } else {
        assert(2 * g.out_w * 0 == 0) by (nonlinear_arith);
    }
}

/// Every pixel of a frame file is the pixel of the image in the row and the column that its own row
/// and column show, on the flat background; pixels come row by row behind the header, the low byte
/// of each first.
pub proof fn law_frame_shows_the_image(
    g: Geometry,
    format: FormatModel,
    rows: Seq<Seq<u8>>,
    x: int,
    y: int,
)
    requires
        g.valid(),
        0 <= x < g.out_w,
        0 <= y < g.out_h,
    ensures
        ({
            let file = frame_bytes(g, format, rows);
            let at = 8 + 2 * (y * g.out_w + x);
            &&& 0 <= at < file.len() - 1
            &&& file[at] + 256 * file[at + 1] == flat_pixel(
                pixel_value(format, rows[g.source_y(y)], g.source_x(x)),
            )
        }),
{
    let file = frame_bytes(g, format, rows);
    let body = body_bytes(g, format, rows, g.out_h as int);
    let at = 2 * (y * g.out_w + x);
    lemma_body_pixel(g, format, rows, g.out_h as int, x, y);
    assert(file[8 + at] == body[at]);
    assert(file[8 + at + 1] == body[at + 1]);
}

proof fn lemma_body_pixel(
    g: Geometry,
    format: FormatModel,
    rows: Seq<Seq<u8>>,
    k: int,
    x: int,
    y: int,
)
    requires
        0 <= x < g.out_w,
        0 <= y < k,
    ensures
        ({
            let body = body_bytes(g, format, rows, k);
            let at = 2 * (y * g.out_w + x);
            let v = flat_pixel(pixel_value(format, rows[g.source_y(y)], g.source_x(x)));
            &&& 0 <= at < body.len() - 1
            &&& body[at] == low_byte(v)
            &&& body[at + 1] == high_byte(v)
        }),
    decreases k,
{
    let body = body_bytes(g, format, rows, k);
    let before = body_bytes(g, format, rows, k - 1);
    let last = row_bytes(format, rows[g.source_y(k - 1)], g);
    let at = 2 * (y * g.out_w + x);
    lemma_body_len(g, format, rows, k - 1);
    assert(body == before + last);
    if y < k - 1 {
        lemma_body_pixel(g, format, rows, k - 1, x, y);
        assert(body[at] == before[at] && body[at + 1] == before[at + 1]);
    } else {
        assert(2 * g.out_w * (k - 1) + 2 * x == at) by (nonlinear_arith)
            requires
                at == 2 * (y * g.out_w + x),
                y == k - 1,
        ;
        assert(before.len() >= 0);
        assert(body[at] == last[2 * x]);
        assert(body[at + 1] == last[2 * x + 1]);
        assert((2 * x) / 2 == x && (2 * x + 1) / 2 == x);
    }
}

/// Why a tile gave no frame.
#[derive(Debug, Clone, Copy, PartialEq, Eq, Structural)]
pub enum TileError {
    /// The image cannot be read.
    Png(PngError),
    /// The image is too small for the crop.
    Crop(CropError),
}

/// What decoding a tile gives: a frame, as soon as enough scanlines could be read.
pub open spec fn framed(im: Image, g: Geometry, r: Result<Seq<u8>, TileError>) -> bool {
    match im.header {
        None => im.lines.end is Err && r == Err::<Seq<u8>, TileError>(
            TileError::Png(im.lines.end->Err_0),
        ),
        Some((width, height, format)) => if !g.fits(width, height) {
            r == Err::<Seq<u8>, TileError>(TileError::Crop(CropError { width, height }))
        } else if im.lines.rows.len() >= rows_needed(g) {
            r == Ok::<Seq<u8>, TileError>(frame_bytes(g, format, im.lines.rows))
        } else {
            im.lines.end is Err && r == Err::<Seq<u8>, TileError>(
                TileError::Png(im.lines.end->Err_0),
            )
        },
    }
}

/// A tile gives a frame if and only if its header can be read, the crop lies within the image, and
/// the scanlines can be read down to the last that the frame shows; what is below that does not
/// matter. A crop that does not lie within the image is the problem even where scanlines cannot be
/// read.
pub proof fn law_tile_gives_a_frame(im: Image, g: Geometry, r: Result<Seq<u8>, TileError>)
    requires
        g.valid(),
        framed(im, g, r),
    ensures
        ({
            let inside = im.header matches Some((width, height, format)) && g.crop_x + g.crop_w
                <= width && g.crop_y + g.crop_h <= height;
            &&& r is Ok <==> inside && im.lines.rows.len() > g.source_y(g.out_h - 1)
            &&& (r matches Err(TileError::Crop(e))) <==> im.header is Some && !inside
            &&& r matches Err(TileError::Crop(e)) ==> (e.width, e.height) == ((im.header->0).0, (
            im.header->0).1)
            &&& r matches Err(TileError::Png(e)) ==> im.lines.end == Err::<(), PngError>(e)
            &&& r matches Ok(file) ==> file == frame_bytes(g, (im.header->0).2, im.lines.rows)
        }),
{
}

/// The outcome of decoding a tile, as a mathematical value.
pub open spec fn frame_view(r: Result<Vec<u8>, TileError>) -> Result<Seq<u8>, TileError> {
    match r {
        Ok(v) => Ok(v@),
        Err(e) => Err(e),
    }
}

/// Rows made from a sink's log are rows made from the image.
proof fn lemma_body_of_image<E>(
    g: Geometry,
    events: Seq<RowEvent<E>>,
    format: FormatModel,
    rows: Seq<Seq<u8>>,
    k: int,
)
    requires
        g.valid(),
        k <= g.out_h,
        events.len() <= rows.len(),
        forall|j: int| 0 <= j < k ==> #[trigger] g.source_y(j) < events.len(),
        forall|i: int|
            0 <= i < events.len() ==> (#[trigger] events[i]).format == format && events[i].data
                == rows[i],
    ensures
        frame_body(g, events, k) == body_bytes(g, format, rows, k),
    decreases k,
{
    if k > 0 {
        lemma_body_of_image(g, events, format, rows, k - 1);
        lemma_scaled(k - 1, k - 1, g.crop_h as int, g.out_h as int);
        assert(events[g.source_y(k - 1)].format == format);
    }
}

/// What a sink's replies say of the frame: the sink stopped if and only if the frame is full.
proof fn lemma_outcome(
    g: Geometry,
    im: Image,
    log: SinkLog<CropError>,
    r: Result<(), DecodeError<CropError>>,
    width: u32,
    height: u32,
    format: FormatModel,
)
    requires
        g.valid(),
        g.fits(width, height),
        im.header == Some((width, height, format)),
        log.accepted(width, height),
        decoded(im, SinkLog::blank(), log, r),
        r is Ok ==> satisfied(log.rows, height),
        forall|i: int|
            0 <= i < log.rows.len() ==> (#[trigger] log.rows[i]).reply == Ok::<bool, CropError>(
                filled(g, i + 1) < g.out_h,
            ),
    ensures
        match r {
            Ok(()) => {
                &&& filled(g, log.rows.len() as int) == g.out_h
                &&& im.lines.rows.len() >= rows_needed(g)
                &&& log.rows.len() <= im.lines.rows.len()
                &&& forall|j: int| 0 <= j < g.out_h ==> #[trigger] g.source_y(j) < log.rows.len()
                &&& forall|i: int|
                    0 <= i < log.rows.len() ==> (#[trigger] log.rows[i]).format == format
                        && log.rows[i].data == im.lines.rows[i]
            },
            Err(DecodeError::Png(e)) => im.lines.rows.len() < rows_needed(g) && im.lines.end
                == Err::<(), PngError>(e),
            Err(DecodeError::Sink(e)) => false,
        },
{
    reveal(delivered);
    let n = log.rows.len() as int;
    lemma_filled(g, 0, n);
    let f = filled(g, n);
    if n > 0 {
        assert(log.rows[n - 1] == log.rows.last());
    } else {
        lemma_scaled(0, 0, g.crop_h as int, g.out_h as int);
    }
    if f < g.out_h {
        law_resampling_stays_in_crop(g, f, g.out_h - 1);
    } else {
        assert(g.source_y(g.out_h - 1) < n);
    }
}

/// Decode a tile into a raw Rgb565 frame, one scanline at a time.
#[verifier::rlimit(40)]
pub fn decode_to_frame(src: &[u8], geom: &Geometry, scratch: &mut Scratch) -> (r: Result<
    Vec<u8>,
    TileError,
>)
    requires
        geom.valid(),
        old(scratch).valid(),
    ensures
        final(scratch).valid(),
        framed(image(src@, old(scratch).window()), *geom, frame_view(r)),
{
    let ghost im = image(src@, scratch.window());
    let ghost g = *geom;
    let mut out: Vec<u8> = Vec::new();
    write_header(&mut out, geom.out_w as u16, geom.out_h as u16);
    let ghost head = header_bytes(g.out_w as u16, g.out_h as u16);
    assert(out@ =~= head);
    let mut sink = FrameSink::new(*geom, out);
    let done = decode(src, &mut sink, scratch);
    let ghost log = sink.log();
    proof {
        if let Some((width, height, format)) = im.header {
            if g.fits(width, height) {
                lemma_outcome(g, im, log, done, width, height, format);
            }
        }
    }
    match done {
        Err(DecodeError::Png(e)) => Err(TileError::Png(e)),
        Err(DecodeError::Sink(e)) => Err(TileError::Crop(e)),
        Ok(()) => {
            let (frame, _rows) = sink.finish();
            proof {
                let (width, height, format) = im.header->0;
                lemma_body_of_image(g, log.rows, format, im.lines.rows, g.out_h as int);
            }
            Ok(frame)
        },
    }
}

} // verus!
