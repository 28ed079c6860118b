//! The image data chunks, and decoding as a whole.

use vstd::prelude::*;

use crate::png_stream::error::{InflateStatus, PngError};
use crate::png_stream::format::FormatModel;
use crate::png_stream::header::{
    chunk_kind, chunk_len, header_of, read_chunk_start, skip_piece, Header, HeaderOutcome,
    HeaderReader, HeaderStep, Kind, SKIP_CHUNK,
};
use crate::png_stream::inflate::{
    inflate_outcome, pump, InflateOutcome, PumpEnd, Pumped, Scratch, Stream, WINDOW,
};
use crate::png_stream::rows::{
    delivered, lemma_delivered_extend, lemma_delivered_join, lemma_delivered_none,
    lemma_scan_append, scan, within_height, zero_row, DecodeError, Fed, RowEvent, RowSink, Rows,
    Scan, SinkLog, Verdict,
};

verus! {

/// Bytes of compressed data handed to the inflater per call.
pub const IN_CHUNK: usize = 512;

/// How the image data ended.
pub ghost enum BodyEnd {
    /// The image is complete.
    Full,
    /// The compressed stream came to its end.
    Done,
    /// The compressed stream is unusable.
    Bad(InflateStatus),
    /// The file came to its end.
    Starved,
}

/// The inflated image data, and how it ended.
#[verifier::ext_equal]
pub ghost struct Body {
    pub out: Seq<u8>,
    pub end: BodyEnd,
}

/// The smaller of two numbers.
pub open spec fn least(a: int, b: int) -> int {
    if a < b {
        a
    } else {
        b
    }
}

/// How many bytes of a chunk's payload are handed to the inflater next.
pub open spec fn piece_len(remaining: u32) -> int {
    least(IN_CHUNK as int, remaining as int)
}

/// How many bytes are read for that: at the end of the payload the checksum comes along.
pub open spec fn piece_span(remaining: u32) -> int {
    piece_len(remaining) + if remaining <= IN_CHUNK {
        4int
    } else {
        0
    }
}

/// How the image data ends where inflating a last piece of input ends.
pub open spec fn body_end(end: PumpEnd) -> BodyEnd {
    match end {
        PumpEnd::NeedInput => BodyEnd::Starved,
        PumpEnd::Full => BodyEnd::Full,
        PumpEnd::Done => BodyEnd::Done,
        PumpEnd::Bad(status) => BodyEnd::Bad(status),
    }
}

/// What is inflated from the chunks in `b`, up to `need` bytes. The first `remaining` bytes of `b`
/// are the rest of a chunk's payload; image data is the payload of all image data chunks up to the
/// end chunk, one after the other.
pub open spec fn body(stream: Stream, b: Seq<u8>, remaining: u32, need: nat) -> Body
    decreases b.len(),
{
    if remaining == 0 {
        if b.len() < 8 {
            Body { out: Seq::empty(), end: BodyEnd::Starved }
        } else {
            let len = chunk_len(b);
            let kind = chunk_kind(b);
            if kind is Iend {
                let p = pump(stream, Seq::empty(), true, need);
                Body { out: p.out, end: body_end(p.end) }
            } else if kind is Idat && len > 0 {
                body(stream, b.skip(8), len, need)
            } else if b.len() < len + 12 {
                Body { out: Seq::empty(), end: BodyEnd::Starved }
            } else {
                body(stream, b.skip(len + 12), 0, need)
            }
        }
    } else if b.len() < piece_span(remaining) {
        Body { out: Seq::empty(), end: BodyEnd::Starved }
    } else {
        let p = pump(stream, b.take(piece_len(remaining)), false, need);
        if p.end is NeedInput {
            let r = body(
                p.stream,
                b.skip(piece_span(remaining)),
                (remaining - piece_len(remaining)) as u32,
                (need - p.out.len()) as nat,
            );
            Body { out: p.out + r.out, end: r.end }
        } else {
            Body { out: p.out, end: body_end(p.end) }
        }
    }
}

/// Scanlines still to come, and how decoding ends after them if the sink takes them all.
#[verifier::ext_equal]
pub ghost struct Lines {
    pub rows: Seq<Seq<u8>>,
    pub end: Result<(), PngError>,
}

/// The scanlines in inflated image data, and the end of decoding: `first` scanlines came before
/// them, and the image has `height` in all.
pub open spec fn lines(s: Scan, end: BodyEnd, first: nat, height: u32) -> Lines {
    Lines {
        rows: s.rows,
        end: match s.bad {
            Some(filter) => Err(PngError::UnknownFilter(filter)),
            None => match end {
                BodyEnd::Full => Ok(()),
                BodyEnd::Done => Err(PngError::EndedAfter((first + s.rows.len()) as u32, height)),
                BodyEnd::Bad(status) => Err(PngError::Corrupt(status)),
                BodyEnd::Starved => Err(PngError::UnexpectedEnd),
            },
        },
    }
}

/// An image as its file gives it: its dimensions and format, if they can be read at all, its
/// scanlines, and how decoding ends after them.
#[verifier::ext_equal]
pub ghost struct Image {
    pub header: Option<(u32, u32, FormatModel)>,
    pub lines: Lines,
}

/// Why a header cannot be read, if it cannot.
pub open spec fn header_error(h: HeaderOutcome) -> Option<PngError> {
    match h {
        HeaderOutcome::Short => Some(PngError::UnexpectedEnd),
        HeaderOutcome::Bad(e) => Some(e),
        HeaderOutcome::Found { .. } => None,
    }
}

/// The image data from the start of the first image data chunk's payload.
pub open spec fn first_body(window: Seq<u8>, rest: Seq<u8>, len: u32, need: nat) -> Body {
    if len > 0 {
        body(Stream::fresh(window), rest, len, need)
    } else if rest.len() < 4 {
        Body { out: Seq::empty(), end: BodyEnd::Starved }
    } else {
        body(Stream::fresh(window), rest.skip(4), 0, need)
    }
}

/// The scanlines of an image whose header has been read.
pub open spec fn image_lines(
    width: u32,
    height: u32,
    format: FormatModel,
    window: Seq<u8>,
    rest: Seq<u8>,
    len: u32,
) -> Lines {
    if width as nat * format.pixel_bits() > usize::MAX {
        Lines { rows: Seq::empty(), end: Err(PngError::TooWide) }
    } else {
        let stride = format.stride(width as nat);
        let b = first_body(window, rest, len, (height * (stride + 1)) as nat);
        lines(scan(format.bpp() as int, stride, zero_row(stride), b.out), b.end, 0, height)
    }
}

/// The image in the file `b`, inflated over a window with the given content.
pub open spec fn image(b: Seq<u8>, window: Seq<u8>) -> Image {
    match header_of(b) {
        HeaderOutcome::Short => Image {
            header: None,
            lines: Lines { rows: Seq::empty(), end: Err(PngError::UnexpectedEnd) },
        },
        HeaderOutcome::Bad(e) => Image {
            header: None,
            lines: Lines { rows: Seq::empty(), end: Err(e) },
        },
        HeaderOutcome::Found { width, height, format, len, rest } => Image {
            header: Some((width, height, format)),
            lines: image_lines(width, height, format, window, rest, len),
        },
    }
}

/// Decoding is over: the sink has had the scanlines in order, as far as it wanted them, and the
/// result says how it ended.
pub open spec fn ended<E>(
    l: Lines,
    format: FormatModel,
    first: nat,
    before: Seq<RowEvent<E>>,
    after: Seq<RowEvent<E>>,
    r: Result<(), DecodeError<E>>,
) -> bool {
    match r {
        Ok(()) => delivered(before, after, format, first, l.rows, Verdict::Stopped) || (l.end is Ok
            && delivered(before, after, format, first, l.rows, Verdict::All)),
        Err(DecodeError::Png(e)) => l.end == Err::<(), PngError>(e) && delivered(
            before,
            after,
            format,
            first,
            l.rows,
            Verdict::All,
        ),
        Err(DecodeError::Sink(e)) => delivered(
            before,
            after,
            format,
            first,
            l.rows,
            Verdict::Failed(e),
        ),
    }
}

/// The sink has had every scanline of the image, or asked to stop.
pub open spec fn satisfied<E>(rows: Seq<RowEvent<E>>, height: u32) -> bool {
    rows.len() == height || (rows.len() > 0 && rows.last().reply == Ok::<bool, E>(false))
}

/// What a whole decoding leaves behind: without a readable header the sink is not touched;
/// otherwise it is told the dimensions and, if it accepts them, handed the scanlines.
pub open spec fn decoded<E>(
    im: Image,
    before: SinkLog<E>,
    after: SinkLog<E>,
    r: Result<(), DecodeError<E>>,
) -> bool {
    match im.header {
        None => after == before && im.lines.end is Err && r == Err::<(), DecodeError<E>>(
            DecodeError::Png(im.lines.end->Err_0),
        ),
        Some((width, height, format)) => match after.opened {
            Some((w, h, Ok(()))) => w == width && h == height && ended(
                im.lines,
                format,
                0,
                Seq::empty(),
                after.rows,
                r,
            ),
            Some((w, h, Err(e))) => w == width && h == height && after.rows.len() == 0 && r == Err::<
                (),
                DecodeError<E>,
            >(DecodeError::Sink(e)),
            None => false,
        },
    }
}

/// What becomes of an image: without a readable header there is nothing but the reason; with one
/// the image has the header's dimensions and format, and is too wide if a scanline cannot be
/// counted in bits, and otherwise has the scanlines in what its data inflates to, the first of
/// which has zeros above it, with as many bytes wanted as the scanlines take. It is complete if all
/// of these came; an unknown filter, a stream that ends too early or is unusable, or a file that
/// ends, each is an error of its own.
pub proof fn law_image_is_in_its_data(b: Seq<u8>, window: Seq<u8>)
    ensures
        ({
            let im = image(b, window);
            match header_of(b) {
                HeaderOutcome::Short => im.header is None && im.lines.rows.len() == 0
                    && im.lines.end == Err::<(), PngError>(PngError::UnexpectedEnd),
                HeaderOutcome::Bad(e) => im.header is None && im.lines.rows.len() == 0
                    && im.lines.end == Err::<(), PngError>(e),
                HeaderOutcome::Found { width, height, format, len, rest } => {
                    let stride = format.stride(width as nat);
                    let inflated = first_body(window, rest, len, (height * (stride + 1)) as nat);
                    let s = scan(
                        format.bpp() as int,
                        stride,
                        Seq::new(stride, |i: int| 0u8),
                        inflated.out,
                    );
                    let wide = width * format.pixel_bits() > usize::MAX;
                    &&& im.header == Some((width, height, format))
                    &&& wide ==> im.lines.rows.len() == 0 && im.lines.end == Err::<(), PngError>(
                        PngError::TooWide,
                    )
                    &&& !wide ==> {
                        &&& im.lines.rows == s.rows
                        &&& im.lines.end is Ok <==> s.bad is None && inflated.end is Full
                        &&& s.bad matches Some(f) ==> im.lines.end == Err::<(), PngError>(
                            PngError::UnknownFilter(f),
                        )
                        &&& s.bad is None && inflated.end is Done ==> im.lines.end == Err::<
                            (),
                            PngError,
                        >(PngError::EndedAfter(s.rows.len() as u32, height))
                        &&& s.bad is None && inflated.end is Starved ==> im.lines.end == Err::<
                            (),
                            PngError,
                        >(PngError::UnexpectedEnd)
                        &&& s.bad is None ==> (inflated.end matches BodyEnd::Bad(status)
                            ==> im.lines.end == Err::<(), PngError>(PngError::Corrupt(status)))
                    }
                },
            }
        }),
{
    if let HeaderOutcome::Found { width, height, format, len, rest } = header_of(b) {
        let stride = format.stride(width as nat);
        assert(zero_row(stride) =~= Seq::new(stride, |i: int| 0u8));
    }
}

/// A sink that is told of an image is told its dimensions, and is handed its scanlines from the top
/// on, numbered from zero. Where decoding succeeds it asked to stop or had every one of them and no
/// error followed; where it fails for the image the sink had all scanlines that could be read; and
/// where it fails for the sink, the sink's own reason is given.
pub proof fn law_sink_gets_the_image<E>(
    im: Image,
    after: SinkLog<E>,
    r: Result<(), DecodeError<E>>,
    i: int,
)
    requires
        decoded(im, SinkLog::blank(), after, r),
    ensures
        im.header is None ==> after.opened is None && after.rows.len() == 0 && r is Err,
        im.header matches Some((width, height, format)) ==> {
            &&& after.opened matches Some((w, h, reply)) && w == width && h == height
            &&& (after.opened->0).2 matches Err(e) ==> after.rows.len() == 0 && r == Err::<
                (),
                DecodeError<E>,
            >(DecodeError::Sink(e))
            &&& after.rows.len() <= im.lines.rows.len()
            &&& 0 <= i < after.rows.len() ==> after.rows[i].y == i && after.rows[i].data
                == im.lines.rows[i] && after.rows[i].format == format
            &&& r is Ok ==> {
                ||| after.rows.len() > 0 && after.rows.last().reply == Ok::<bool, E>(false)
                ||| after.rows.len() == im.lines.rows.len() && im.lines.end is Ok
            }
            &&& r matches Err(DecodeError::Png(e)) ==> after.rows.len() == im.lines.rows.len()
                && im.lines.end == Err::<(), PngError>(e)
        },
{
    reveal(delivered);
}

/// Which bytes come next.
#[derive(Debug, Clone, Copy, PartialEq, Eq, Structural)]
pub enum DataStage {
    /// The length and kind of a chunk.
    ChunkStart,
    /// Image data, of which so many bytes are left in the chunk.
    Piece(u32),
    /// Bytes that are passed over.
    Skip(u64),
}

/// Reads the image data chunks, inflates them and hands out the scanlines.
pub struct DataReader {
    stage: DataStage,
    rows: Rows,
    pos: usize,
}

/// Where decoding stands after a piece of image data.
pub enum DataStep {
    More(DataReader),
    Finished,
}

/// The scanlines of a stretch of a sink's log.
pub open spec fn data_since<E>(log: Seq<RowEvent<E>>, n: nat) -> Seq<Seq<u8>> {
    Seq::new((log.len() - n) as nat, |i: int| log[n + i].data)
}

/// What taking in a piece does: whatever bytes come after it, the scanlines handed out and those
/// still to come are together what they were before.
pub open spec fn data_step<E>(
    before: DataReader,
    block: Seq<u8>,
    scratch0: Scratch,
    scratch1: Scratch,
    log0: SinkLog<E>,
    log1: SinkLog<E>,
    r: Result<DataStep, DecodeError<E>>,
) -> bool {
    let format = before.rows().format();
    let first = before.rows().y() as nat;
    &&& log1.opened == log0.opened
    &&& within_height(log1.rows, before.rows().height(), r)
    &&& match r {
        Ok(DataStep::More(next)) => {
            let got = data_since(log1.rows, log0.rows.len());
            &&& next.valid()
            &&& next.rows().feeds(log1)
            &&& next.rows().format() == format
            &&& next.rows().width() == before.rows().width()
            &&& next.rows().height() == before.rows().height()
            &&& delivered(log0.rows, log1.rows, format, first, got, Verdict::All)
            &&& forall|rest: Seq<u8>| #[trigger]
                before.future(scratch0, block + rest) == (Lines {
                    rows: got + next.future(scratch1, rest).rows,
                    end: next.future(scratch1, rest).end,
                })
        },
        Ok(DataStep::Finished) => {
            &&& satisfied(log1.rows, before.rows().height())
            &&& forall|rest: Seq<u8>|
                ended(
                    #[trigger] before.future(scratch0, block + rest),
                    format,
                    first,
                    log0.rows,
                    log1.rows,
                    Ok(()),
                )
        },
        Err(e) => forall|rest: Seq<u8>|
            ended(
                #[trigger] before.future(scratch0, block + rest),
                format,
                first,
                log0.rows,
                log1.rows,
                Err(e),
            ),
    }
}

/// What inflating one piece of input came to.
enum PumpStep {
    /// The next piece is needed; the next output goes to this place in the window.
    NeedInput(usize),
    Finished,
}

impl DataReader {
    /// Which bytes come next.
    pub closed spec fn stage(&self) -> DataStage {
        self.stage
    }

    /// The scanline being assembled.
    pub closed spec fn rows(&self) -> Rows {
        self.rows
    }

    /// Where in the window the next output goes.
    pub closed spec fn pos(&self) -> nat {
        self.pos as nat
    }

    /// Scanlines are still to come, and something is left of what is being read.
    pub open spec fn valid(&self) -> bool {
        &&& self.rows().valid()
        &&& self.pos() < WINDOW
        &&& match self.stage() {
            DataStage::ChunkStart => true,
            DataStage::Piece(n) => n > 0,
            DataStage::Skip(n) => 0 < n <= u32::MAX + 4,
        }
    }

    /// How many bytes the next piece has.
    pub open spec fn wanted(&self) -> int {
        match self.stage() {
            DataStage::ChunkStart => 8,
            DataStage::Piece(n) => piece_span(n),
            DataStage::Skip(n) => least(SKIP_CHUNK as int, n as int),
        }
    }

    /// The image data still to come if `b` is all that is left of the file.
    pub open spec fn future_body(&self, scratch: Scratch, b: Seq<u8>) -> Body {
        let stream = scratch.stream(self.pos());
        let need = self.rows().need() as nat;
        match self.stage() {
            DataStage::ChunkStart => body(stream, b, 0, need),
            DataStage::Piece(n) => body(stream, b, n, need),
            DataStage::Skip(n) => if b.len() < n {
                Body { out: Seq::empty(), end: BodyEnd::Starved }
            } else {
                body(stream, b.skip(n as int), 0, need)
            },
        }
    }

    /// The scanlines still to come if `b` is all that is left of the file.
    pub open spec fn future(&self, scratch: Scratch, b: Seq<u8>) -> Lines {
        let rest = self.future_body(scratch, b);
        lines(
            self.rows().scanning(rest.out),
            rest.end,
            self.rows().y() as nat,
            self.rows().height(),
        )
    }

    /// How many bytes to read next.
    pub fn want(&self) -> (n: usize)
        requires
            self.valid(),
        ensures
            n == self.wanted(),
            n > 0,
    {
        match self.stage {
            DataStage::ChunkStart => 8,
            DataStage::Piece(n) => if n as usize <= IN_CHUNK {
                n as usize + 4
            } else {
                IN_CHUNK
            },
            DataStage::Skip(n) => skip_piece(n),
        }
    }
}

/// What inflating and feeding a piece of input does to the scanline being assembled.
spec fn pumped<E>(
    rows0: Rows,
    rows1: Rows,
    p: Pumped,
    scratch1: Scratch,
    log0: SinkLog<E>,
    log1: SinkLog<E>,
    r: Result<PumpStep, DecodeError<E>>,
) -> bool {
    let s = rows0.scanning(p.out);
    let f = rows0.format();
    let y = rows0.y() as nat;
    &&& log1.opened == log0.opened
    &&& within_height(log1.rows, rows0.height(), r)
    &&& match r {
        Ok(PumpStep::NeedInput(pos)) => {
            &&& p.end is NeedInput
            &&& delivered(log0.rows, log1.rows, f, y, s.rows, Verdict::All)
            &&& s.bad is None
            &&& rows1.valid()
            &&& rows1.feeds(log1)
            &&& rows1.format() == f
            &&& rows1.width() == rows0.width()
            &&& rows1.height() == rows0.height()
            &&& rows1.previous() == s.previous
            &&& rows1.pending() == s.pending
            &&& rows1.y() == y + s.rows.len()
            &&& rows1.need() == rows0.need() - p.out.len()
            &&& pos < WINDOW
            &&& scratch1.stream(pos as nat) == p.stream
        },
        Ok(PumpStep::Finished) => {
            &&& satisfied(log1.rows, rows0.height())
            &&& {
                ||| delivered(log0.rows, log1.rows, f, y, s.rows, Verdict::Stopped)
                ||| p.end is Full && s.bad is None && delivered(
                    log0.rows,
                    log1.rows,
                    f,
                    y,
                    s.rows,
                    Verdict::All,
                )
            }
        },
        Err(e) => !(p.end is NeedInput && e is Png && s.bad is None) && ended(
            lines(s, body_end(p.end), y, rows0.height()),
            f,
            y,
            log0.rows,
            log1.rows,
            Err(e),
        ),
    }
}

/// Scanlines found in one stretch of bytes and then in the next.
proof fn lemma_scanning(me: Rows, now: Rows, acc: Seq<u8>, x: Seq<u8>)
    requires
        me.scanning(acc).bad is None,
        now.format() == me.format(),
        now.width() == me.width(),
        now.previous() == me.scanning(acc).previous,
        now.pending() == me.scanning(acc).pending,
    ensures
        me.scanning(acc + x) == (Scan {
            rows: me.scanning(acc).rows + now.scanning(x).rows,
            ..now.scanning(x)
        }),
{
    assert(me.pending() + (acc + x) =~= (me.pending() + acc) + x);
    lemma_scan_append(
        me.format().bpp() as int,
        me.stride(),
        me.previous(),
        me.pending() + acc,
        x,
    );
}

/// An unknown filter ends the scanlines, whatever bytes come after it.
proof fn lemma_scanning_bad(me: Rows, acc: Seq<u8>, x: Seq<u8>)
    requires
        me.scanning(acc).bad is Some,
    ensures
        me.scanning(acc + x) == me.scanning(acc),
{
    assert(me.pending() + (acc + x) =~= (me.pending() + acc) + x);
    lemma_scan_append(
        me.format().bpp() as int,
        me.stride(),
        me.previous(),
        me.pending() + acc,
        x,
    );
}

/// The complete scanlines in a stretch of bytes are the first of those in a longer stretch.
proof fn lemma_scanning_prefix(me: Rows, acc: Seq<u8>, x: Seq<u8>)
    ensures
        me.scanning(acc).rows.len() <= me.scanning(acc + x).rows.len(),
        me.scanning(acc + x).rows == me.scanning(acc).rows + me.scanning(acc + x).rows.skip(
            me.scanning(acc).rows.len() as int,
        ),
{
    assert(me.pending() + (acc + x) =~= (me.pending() + acc) + x);
    lemma_scan_append(
        me.format().bpp() as int,
        me.stride(),
        me.previous(),
        me.pending() + acc,
        x,
    );
    let a = me.scanning(acc).rows;
    let b = me.scanning(acc + x).rows;
    assert(b =~= a + b.skip(a.len() as int));
}

/// One call of the inflater at the front of inflating a piece of input.
proof fn lemma_pump_call(
    stream: Stream,
    input: Seq<u8>,
    last: bool,
    need: nat,
    o: InflateOutcome,
    out: Seq<u8>,
    next: Stream,
)
    requires
        o == inflate_outcome(stream.calling(input, last)),
        stream.pos + o.produced <= WINDOW,
        o.window.len() == WINDOW,
        stream.pos < WINDOW,
        o.consumed <= input.len(),
        out == o.window.subrange(stream.pos as int, (stream.pos + o.produced) as int),
        next.calls == stream.calling(input, last),
        next.window == o.window,
        next.pos == if stream.pos + o.produced == WINDOW {
            0
        } else {
            stream.pos + o.produced
        },
        need > 0,
    ensures
        ({
            let p = pump(stream, input, last, need);
            &&& out.len() == o.produced
            &&& if o.produced >= need {
                p.out == out.take(need as int) && p.end is Full
            } else if o.status is Done {
                p == (Pumped { out, stream: next, end: PumpEnd::Done })
            } else if o.status is HasMoreOutput || o.status is NeedsMoreInput {
                if !last && o.consumed == input.len() {
                    p == (Pumped { out, stream: next, end: PumpEnd::NeedInput })
                } else if o.produced > 0 {
                    let q = pump(
                        next,
                        input.skip(o.consumed as int),
                        last,
                        (need - o.produced) as nat,
                    );
                    p == (Pumped { out: out + q.out, stream: q.stream, end: q.end })
                } else {
                    true
                }
            } else {
                p == (Pumped { out, stream: next, end: PumpEnd::Bad(o.status) })
            }
        }),
{
    assert(next == stream.after(input, last));
}

/// Inflate one piece of input and feed what comes out to the sink.
#[verifier::rlimit(60)]
fn pump_rows<S: RowSink>(
    rows: &mut Rows,
    start: usize,
    scratch: &mut Scratch,
    input: &[u8],
    last: bool,
    sink: &mut S,
) -> (r: Result<PumpStep, DecodeError<S::Fault>>)
    requires
        old(rows).valid(),
        old(scratch).valid(),
        start < WINDOW,
        old(sink).ready(),
        old(rows).feeds(old(sink).log()),
    ensures
        final(scratch).valid(),
        final(sink).ready(),
        final(sink).config() == old(sink).config(),
        pumped(
            *old(rows),
            *final(rows),
            pump(
                old(scratch).stream(start as nat),
                input@,
                last,
                old(rows).need() as nat,
            ),
            *final(scratch),
            old(sink).log(),
            final(sink).log(),
            r,
        ),
        last ==> !(r matches Ok(PumpStep::NeedInput(_))),
{
    let ghost me = *rows;
    let ghost log0 = sink.log();
    let ghost f = me.format();
    let ghost y0 = me.y() as nat;
    let ghost all = pump(scratch.stream(start as nat), input@, last, me.need() as nat);
    let ghost mut acc: Seq<u8> = Seq::empty();
    let mut pos: usize = start;
    let mut at: usize = 0;
    proof {
        me.lemma_need();
        assert(me.pending() + Seq::<u8>::empty() =~= me.pending());
        lemma_delivered_none(log0.rows, f, y0);
        assert(input@.skip(0) =~= input@);
        assert(acc + all.out =~= all.out);
    }
    loop
        invariant
            me == *old(rows),
            log0 == old(sink).log(),
            f == me.format(),
            y0 == me.y(),
            all == pump(
                old(scratch).stream(start as nat),
                input@,
                last,
                me.need() as nat,
            ),
            me.valid(),
            rows.valid(),
            rows.format() == f,
            rows.width() == me.width(),
            rows.height() == me.height(),
            rows.feeds(sink.log()),
            sink.log().opened == log0.opened,
            scratch.valid(),
            sink.ready(),
            sink.config() == old(sink).config(),
            pos < WINDOW,
            at <= input@.len(),
            rows.need() == me.need() - acc.len(),
            me.scanning(acc).bad is None,
            rows.previous() == me.scanning(acc).previous,
            rows.pending() == me.scanning(acc).pending,
            rows.y() == y0 + me.scanning(acc).rows.len(),
            delivered(
                log0.rows,
                sink.log().rows,
                f,
                y0,
                me.scanning(acc).rows,
                Verdict::All,
            ),
            ({
                let p = pump(
                    scratch.stream(pos as nat),
                    input@.skip(at as int),
                    last,
                    rows.need() as nat,
                );
                all.out == acc + p.out && all.stream == p.stream && all.end == p.end
            }),
        decreases rows.need(),
    {
        let ghost now = *rows;
        let ghost mid = sink.log();
        let ghost s = me.scanning(acc);
        let ghost p = pump(
            scratch.stream(pos as nat),
            input@.skip(at as int),
            last,
            now.need() as nat,
        );
        proof {
            now.lemma_need();
        }
        let piece = vstd::slice::slice_subrange(input, at, input.len());
        assert(piece@ =~= input@.skip(at as int));
        let ghost old_stream = scratch.stream(pos as nat);
        let (status, consumed, produced) = scratch.inflate(piece, pos, last);
        let out = scratch.output(pos, pos + produced);
        let ghost used = if out@.len() <= now.need() {
            out@
        } else {
            out@.take(now.need())
        };
        let ghost u = now.scanning(used);
        let pos1: usize = if pos + produced == WINDOW {
            0
        } else {
            pos + produced
        };
        proof {
            lemma_scanning(me, now, acc, used);
            lemma_pump_call(
                old_stream,
                piece@,
                last,
                now.need() as nat,
                inflate_outcome(old_stream.calling(piece@, last)),
                out@,
                scratch.stream(pos1 as nat),
            );
            if out@.len() == now.need() {
                assert(out@.take(now.need()) =~= out@);
            }
            // Whatever comes after, the output begins with these bytes.
            assert(all.out =~= (acc + used) + all.out.skip((acc + used).len() as int));
            lemma_scanning_prefix(me, acc + used, all.out.skip((acc + used).len() as int));
        }
        match rows.feed(out, sink) {
            Err(DecodeError::Sink(e)) => {
                proof {
                    let v = Verdict::Failed(e);
                    let after = sink.log().rows;
                    lemma_delivered_join(log0.rows, mid.rows, after, f, y0, s.rows, u.rows, v);
                    let whole = me.scanning(all.out).rows;
                    let tail = whole.skip((s.rows + u.rows).len() as int);
                    lemma_delivered_extend(log0.rows, after, f, y0, s.rows + u.rows, tail, v);
                }
                return Err(DecodeError::Sink(e));
            },
            Err(DecodeError::Png(e)) => {
                proof {
                    let v = Verdict::All;
                    let after = sink.log().rows;
                    lemma_delivered_join(log0.rows, mid.rows, after, f, y0, s.rows, u.rows, v);
                    lemma_scanning_bad(me, acc + used, all.out.skip((acc + used).len() as int));
                }
                return Err(DecodeError::Png(e));
            },
            Ok(Fed::Stopped) => {
                proof {
                    let v = Verdict::Stopped;
                    let after = sink.log().rows;
                    lemma_delivered_join(log0.rows, mid.rows, after, f, y0, s.rows, u.rows, v);
                    let whole = me.scanning(all.out).rows;
                    let tail = whole.skip((s.rows + u.rows).len() as int);
                    lemma_delivered_extend(log0.rows, after, f, y0, s.rows + u.rows, tail, v);
                    reveal(delivered);
                }
                return Ok(PumpStep::Finished);
            },
            Ok(Fed::Complete) => {
                proof {
                    let v = Verdict::All;
                    let after = sink.log().rows;
                    lemma_delivered_join(log0.rows, mid.rows, after, f, y0, s.rows, u.rows, v);
                    assert(all.out =~= acc + used);
                    lemma_delivered_len(mid.rows, after, f, now.y() as nat, u.rows);
                }
                return Ok(PumpStep::Finished);
            },
            Ok(Fed::More) => {
                proof {
                    let v = Verdict::All;
                    let after = sink.log().rows;
                    lemma_delivered_join(log0.rows, mid.rows, after, f, y0, s.rows, u.rows, v);
                    rows.lemma_need();
                }
            },
        }
        let ghost acc1 = acc + used;
        pos = pos1;
        at = at + consumed;
        match status {
            InflateStatus::Done => {
                assert(all.out =~= acc1);
                return Err(
                    DecodeError::Png(PngError::EndedAfter(rows.completed(), rows.total())),
                );
            },
            InflateStatus::HasMoreOutput | InflateStatus::NeedsMoreInput => {
                if !last && at == input.len() {
                    assert(all.out =~= acc1);
                    return Ok(PumpStep::NeedInput(pos));
                }
                proof {
                    let q = pump(
                        scratch.stream(pos as nat),
                        input@.skip(at as int),
                        last,
                        rows.need() as nat,
                    );
                    assert(piece@.skip(consumed as int) =~= input@.skip(at as int));
                    assert(acc + (used + q.out) =~= acc1 + q.out);
                    acc = acc1;
                }
            },
            other => {
                assert(all.out =~= acc1);
                return Err(DecodeError::Png(PngError::Corrupt(other)));
            },
        }
    }
}

/// Bytes still to come, behind a piece that has been taken in.
proof fn lemma_behind(block: Seq<u8>, rest: Seq<u8>, n: int)
    requires
        n >= 0,
    ensures
        (block + rest).skip(block.len() as int) == rest,
        (block + rest).take(block.len() as int) == block,
        rest.len() >= n ==> (block + rest).skip(block.len() + n) == rest.skip(n),
        rest.skip(0) == rest,
{
    assert((block + rest).skip(block.len() as int) =~= rest);
    assert((block + rest).take(block.len() as int) =~= block);
    if rest.len() >= n {
        assert((block + rest).skip(block.len() + n) =~= rest.skip(n));
    }
    assert(rest.skip(0) =~= rest);
}

/// A step that hands out nothing.
proof fn lemma_quiet_step<E>(
    before: DataReader,
    next: DataReader,
    block: Seq<u8>,
    scratch: Scratch,
    log: SinkLog<E>,
)
    requires
        next.valid(),
        next.rows() == before.rows(),
        next.rows().feeds(log),
        forall|rest: Seq<u8>| #[trigger]
            before.future(scratch, block + rest) == next.future(scratch, rest),
    ensures
        data_step(
            before,
            block,
            scratch,
            scratch,
            log,
            log,
            Ok::<DataStep, DecodeError<E>>(DataStep::More(next)),
        ),
{
    let got = data_since(log.rows, log.rows.len());
    assert(got =~= Seq::empty());
    next.rows().lemma_need();
    lemma_delivered_none(log.rows, before.rows().format(), before.rows().y() as nat);
    assert forall|rest: Seq<u8>| #[trigger]
        before.future(scratch, block + rest) == (Lines {
            rows: got + next.future(scratch, rest).rows,
            end: next.future(scratch, rest).end,
        }) by {
        assert(got + next.future(scratch, rest).rows =~= next.future(scratch, rest).rows);
    }
}

/// The scanlines a sink's log says it was handed.
proof fn lemma_data_since<E>(
    before: Seq<RowEvent<E>>,
    after: Seq<RowEvent<E>>,
    format: FormatModel,
    first: nat,
    rows: Seq<Seq<u8>>,
)
    requires
        delivered(before, after, format, first, rows, Verdict::All),
    ensures
        data_since(after, before.len()) == rows,
{
    reveal(delivered);
    assert(data_since(after, before.len()) =~= rows);
}

impl DataReader {
    /// Announce an image to the sink and get ready for its data.
    pub fn start<S: RowSink>(header: Header, scratch: &mut Scratch, sink: &mut S) -> (r: Result<
        DataReader,
        DecodeError<S::Fault>,
    >)
        requires
            header.format@.valid(),
            header.width > 0,
            header.height > 0,
            old(scratch).valid(),
            old(sink).ready(),
            old(sink).log() == SinkLog::<S::Fault>::blank(),
        ensures
            final(scratch).valid(),
            final(sink).ready(),
            final(sink).config() == old(sink).config(),
            final(sink).log().rows.len() == 0,
            ({
                let opened = final(sink).log().opened;
                let fits = header.width as nat * header.format@.pixel_bits() <= usize::MAX;
                match r {
                    Ok(reader) => {
                        &&& final(sink).log().accepted(header.width, header.height)
                        &&& reader.valid()
                        &&& reader.rows().feeds(final(sink).log())
                        &&& reader.rows().format() == header.format@
                        &&& reader.rows().width() == header.width
                        &&& reader.rows().height() == header.height
                        &&& reader.rows().y() == 0
                        &&& forall|b: Seq<u8>| #[trigger]
                            reader.future(*final(scratch), b) == image_lines(
                                header.width,
                                header.height,
                                header.format@,
                                old(scratch).window(),
                                b,
                                header.len,
                            )
                    },
                    Err(DecodeError::Png(e)) => {
                        &&& final(sink).log().accepted(header.width, header.height)
                        &&& !fits
                        &&& e == PngError::TooWide
                    },
                    Err(DecodeError::Sink(e)) => opened == Some(
                        (header.width, header.height, Err::<(), S::Fault>(e)),
                    ),
                }
            }),
    {
        match sink.start(header.width, header.height) {
            Err(e) => {
                return Err(DecodeError::Sink(e));
            },
            Ok(()) => {},
        }
        scratch.restart();
        let stage = if header.len > 0 {
            DataStage::Piece(header.len)
        } else {
            DataStage::Skip(4)
        };
        match Rows::new(header.width, header.height, header.format) {
            None => Err(DecodeError::Png(PngError::TooWide)),
            Some(rows) => {
                proof {
                    assert forall|x: Seq<u8>| #[trigger] rows.scanning(x) == scan(
                        rows.format().bpp() as int,
                        rows.stride(),
                        zero_row(rows.stride()),
                        x,
                    ) by {
                        assert(rows.pending() + x =~= x);
                    }
                }
                let reader = DataReader { stage, rows, pos: 0 };
                proof {
                    let h = header.height as int;
                    let w = reader.rows().stride() + 1;
                    assert(reader.rows().need() == h * w) by {
                        let d = reader.rows().height() - reader.rows().y();
                        assert(d * w == h * w) by (nonlinear_arith)
                            requires
                                d == h,
                        ;
                    }
                    let window = old(scratch).window();
                    assert(scratch.stream(reader.pos()) == Stream::fresh(window));
                    assert forall|b: Seq<u8>| #[trigger]
                        reader.future(*scratch, b) == image_lines(
                            header.width,
                            header.height,
                            header.format@,
                            window,
                            b,
                            header.len,
                        ) by {
                        let need = reader.rows().need() as nat;
                        assert(reader.future_body(*scratch, b) == first_body(
                            window,
                            b,
                            header.len,
                            need,
                        ));
                    }
                }
                Ok(reader)
            },
        }
    }

    /// Take in the next piece.
    pub fn supply<S: RowSink>(self, block: &[u8], scratch: &mut Scratch, sink: &mut S) -> (r:
        Result<DataStep, DecodeError<S::Fault>>)
        requires
            self.valid(),
            block@.len() == self.wanted(),
            old(scratch).valid(),
            old(sink).ready(),
            self.rows().feeds(old(sink).log()),
        ensures
            final(scratch).valid(),
            final(sink).ready(),
            final(sink).config() == old(sink).config(),
            data_step(
                self,
                block@,
                *old(scratch),
                *final(scratch),
                old(sink).log(),
                final(sink).log(),
                r,
            ),
    {
        match self.stage {
            DataStage::Skip(n) => self.supply_skipped(n, block, scratch, sink),
            DataStage::ChunkStart => self.supply_chunk_start(block, scratch, sink),
            DataStage::Piece(n) => self.supply_piece(n, block, scratch, sink),
        }
    }

    #[verifier::spinoff_prover]
    #[verifier::rlimit(40)]
    fn supply_skipped<S: RowSink>(
        self,
        n: u64,
        block: &[u8],
        scratch: &mut Scratch,
        sink: &mut S,
    ) -> (r: Result<DataStep, DecodeError<S::Fault>>)
        requires
            self.valid(),
            self.stage() == DataStage::Skip(n),
            block@.len() == self.wanted(),
            old(scratch).valid(),
            old(sink).ready(),
            self.rows().feeds(old(sink).log()),
        ensures
            final(scratch).valid(),
            final(sink).ready(),
            final(sink).config() == old(sink).config(),
            data_step(
                self,
                block@,
                *old(scratch),
                *final(scratch),
                old(sink).log(),
                final(sink).log(),
                r,
            ),
    {
        let left: u64 = n - block.len() as u64;
        let ghost before = self;
        let next = DataReader {
            stage: if left == 0 {
                DataStage::ChunkStart
            } else {
                DataStage::Skip(left)
            },
            rows: self.rows,
            pos: self.pos,
        };
        proof {
            assert forall|rest: Seq<u8>| #[trigger]
                before.future(*scratch, block@ + rest) == next.future(*scratch, rest) by {
                lemma_behind(block@, rest, left as int);
                assert(before.future_body(*scratch, block@ + rest) == next.future_body(
                    *scratch,
                    rest,
                ));
            }
            lemma_quiet_step(before, next, block@, *scratch, sink.log());
        }
        Ok(DataStep::More(next))
    }

    #[verifier::spinoff_prover]
    #[verifier::rlimit(40)]
    fn supply_chunk_start<S: RowSink>(
        self,
        block: &[u8],
        scratch: &mut Scratch,
        sink: &mut S,
    ) -> (r: Result<DataStep, DecodeError<S::Fault>>)
        requires
            self.valid(),
            self.stage() is ChunkStart,
            block@.len() == 8,
            old(scratch).valid(),
            old(sink).ready(),
            self.rows().feeds(old(sink).log()),
        ensures
            final(scratch).valid(),
            final(sink).ready(),
            final(sink).config() == old(sink).config(),
            data_step(
                self,
                block@,
                *old(scratch),
                *final(scratch),
                old(sink).log(),
                final(sink).log(),
                r,
            ),
    {
        let (len, kind) = read_chunk_start(block);
        let ghost before = self;
        let ghost stream = scratch.stream(self.pos());
        let ghost need = self.rows().need() as nat;
        proof {
            self.rows.lemma_need();
            assert forall|rest: Seq<u8>|
                before.future_body(*scratch, #[trigger] (block@ + rest)) == (if kind is Iend {
                    let p = pump(stream, Seq::empty(), true, need);
                    Body { out: p.out, end: body_end(p.end) }
                } else if kind is Idat && len > 0 {
                    body(stream, rest, len, need)
                } else if rest.len() < len + 4 {
                    Body { out: Seq::empty(), end: BodyEnd::Starved }
                } else {
                    body(stream, rest.skip(len + 4), 0, need)
                }) by {
                let b = block@ + rest;
                lemma_behind(block@, rest, len + 4);
                assert(chunk_len(b) == chunk_len(block@));
                assert(chunk_kind(b) == chunk_kind(block@));
            }
        }
        if let Kind::Iend = kind {
            let mut rows = self.rows;
            let none: Vec<u8> = Vec::new();
            let r = pump_rows(&mut rows, self.pos, scratch, none.as_slice(), true, sink);
            assert(none@ =~= Seq::empty());
            match r {
                Err(e) => Err(e),
                Ok(_) => Ok(DataStep::Finished),
            }
        } else {
            let next = DataReader {
                stage: if let Kind::Idat = kind {
                    if len > 0 {
                        DataStage::Piece(len)
                    } else {
                        DataStage::Skip(4)
                    }
                } else {
                    DataStage::Skip(len as u64 + 4)
                },
                rows: self.rows,
                pos: self.pos,
            };
            proof {
                assert forall|rest: Seq<u8>| #[trigger]
                    before.future(*scratch, block@ + rest) == next.future(*scratch, rest) by {
                    assert(before.future_body(*scratch, block@ + rest) == next.future_body(
                        *scratch,
                        rest,
                    ));
                }
                lemma_quiet_step(before, next, block@, *scratch, sink.log());
            }
            Ok(DataStep::More(next))
        }
    }

    fn supply_piece<S: RowSink>(
        self,
        n: u32,
        block: &[u8],
        scratch: &mut Scratch,
        sink: &mut S,
    ) -> (r: Result<DataStep, DecodeError<S::Fault>>)
        requires
            self.valid(),
            self.stage() == DataStage::Piece(n),
            block@.len() == piece_span(n),
            old(scratch).valid(),
            old(sink).ready(),
            self.rows().feeds(old(sink).log()),
        ensures
            final(scratch).valid(),
            final(sink).ready(),
            final(sink).config() == old(sink).config(),
            data_step(
                self,
                block@,
                *old(scratch),
                *final(scratch),
                old(sink).log(),
                final(sink).log(),
                r,
            ),
    {
        let take: usize = if n as usize <= IN_CHUNK {
            n as usize
        } else {
            IN_CHUNK
        };
        let left: u32 = n - take as u32;
        let ghost before = self;
        let ghost scratch0 = *scratch;
        let ghost log0 = sink.log();
        let input = vstd::slice::slice_subrange(block, 0, take);
        assert(input@ =~= block@.take(piece_len(n)));
        let mut rows = self.rows;
        proof {
            rows.lemma_need();
        }
        let r = pump_rows(&mut rows, self.pos, scratch, input, false, sink);
        let ghost log1 = sink.log();
        let ghost scratch1 = *scratch;
        match r {
            Err(e) => {
                proof {
                    assert forall|rest: Seq<u8>|
                        ended(
                            #[trigger] before.future(scratch0, block@ + rest),
                            before.rows().format(),
                            before.rows().y() as nat,
                            log0.rows,
                            log1.rows,
                            Err(e),
                        ) by {
                        lemma_piece_failed(
                            before,
                            scratch0,
                            n,
                            block@,
                            rest,
                            rows,
                            scratch1,
                            log0,
                            log1,
                            e,
                        );
                    }
                }
                Err(e)
            },
            Ok(PumpStep::Finished) => {
                proof {
                    assert forall|rest: Seq<u8>|
                        ended(
                            #[trigger] before.future(scratch0, block@ + rest),
                            before.rows().format(),
                            before.rows().y() as nat,
                            log0.rows,
                            log1.rows,
                            Ok(()),
                        ) by {
                        lemma_piece_finished(
                            before,
                            scratch0,
                            n,
                            block@,
                            rest,
                            rows,
                            scratch1,
                            log0,
                            log1,
                        );
                    }
                }
                Ok(DataStep::Finished)
            },
            Ok(PumpStep::NeedInput(pos)) => {
                let next = DataReader {
                    stage: if left > 0 {
                        DataStage::Piece(left)
                    } else {
                        DataStage::ChunkStart
                    },
                    rows,
                    pos,
                };
                proof {
                    let got = data_since(log1.rows, log0.rows.len());
                    lemma_data_since(
                        log0.rows,
                        log1.rows,
                        before.rows().format(),
                        before.rows().y() as nat,
                        piece_scan(before, scratch0, n, block@).rows,
                    );
                    assert forall|rest: Seq<u8>| #[trigger]
                        before.future(scratch0, block@ + rest) == (Lines {
                            rows: got + next.future(scratch1, rest).rows,
                            end: next.future(scratch1, rest).end,
                        }) by {
                        lemma_piece_more(
                            before,
                            scratch0,
                            n,
                            block@,
                            rest,
                            next,
                            scratch1,
                            log0,
                            log1,
                        );
                    }
                }
                Ok(DataStep::More(next))
            },
        }
    }
}

/// What inflating the next piece of a chunk's payload gives.
spec fn piece_pump(reader: DataReader, scratch: Scratch, n: u32, block: Seq<u8>) -> Pumped {
    pump(
        scratch.stream(reader.pos()),
        block.take(piece_len(n)),
        false,
        reader.rows().need() as nat,
    )
}

/// The scanlines in what inflating the next piece of a chunk's payload gives.
spec fn piece_scan(reader: DataReader, scratch: Scratch, n: u32, block: Seq<u8>) -> Scan {
    reader.rows().scanning(piece_pump(reader, scratch, n, block).out)
}

/// The image data still to come, split behind the next piece of a chunk's payload.
proof fn lemma_piece_body(
    reader: DataReader,
    scratch: Scratch,
    n: u32,
    block: Seq<u8>,
    rest: Seq<u8>,
)
    requires
        reader.valid(),
        reader.stage() == DataStage::Piece(n),
        block.len() == piece_span(n),
    ensures
        ({
            let p = piece_pump(reader, scratch, n, block);
            let need = reader.rows().need() as nat;
            let r = body(
                p.stream,
                rest,
                (n - piece_len(n)) as u32,
                (need - p.out.len()) as nat,
            );
            reader.future_body(scratch, block + rest) == if p.end is NeedInput {
                Body { out: p.out + r.out, end: r.end }
            } else {
                Body { out: p.out, end: body_end(p.end) }
            }
        }),
{
    let b = block + rest;
    lemma_behind(block, rest, 0);
    assert(b.take(piece_len(n)) =~= block.take(piece_len(n)));
}

/// The complete scanlines of the next piece are the first of those still to come.
proof fn lemma_piece_prefix(
    reader: DataReader,
    scratch: Scratch,
    n: u32,
    block: Seq<u8>,
    rest: Seq<u8>,
)
    requires
        reader.valid(),
        reader.stage() == DataStage::Piece(n),
        block.len() == piece_span(n),
    ensures
        ({
            let s = piece_scan(reader, scratch, n, block);
            let l = reader.future(scratch, block + rest);
            &&& s.rows.len() <= l.rows.len()
            &&& l.rows == s.rows + l.rows.skip(s.rows.len() as int)
            &&& s.bad is Some ==> l.rows == s.rows && l.end == Err::<(), PngError>(
                PngError::UnknownFilter(s.bad->0),
            )
        }),
{
    let p = piece_pump(reader, scratch, n, block);
    let s = piece_scan(reader, scratch, n, block);
    let me = reader.rows();
    lemma_piece_body(reader, scratch, n, block, rest);
    let out = reader.future_body(scratch, block + rest).out;
    let tail = out.skip(p.out.len() as int);
    assert(out =~= p.out + tail);
    lemma_scanning_prefix(me, p.out, tail);
    if s.bad is Some {
        lemma_scanning_bad(me, p.out, tail);
    }
}

proof fn lemma_piece_failed<E>(
    reader: DataReader,
    scratch: Scratch,
    n: u32,
    block: Seq<u8>,
    rest: Seq<u8>,
    rows1: Rows,
    scratch1: Scratch,
    log0: SinkLog<E>,
    log1: SinkLog<E>,
    e: DecodeError<E>,
)
    requires
        reader.valid(),
        reader.stage() == DataStage::Piece(n),
        block.len() == piece_span(n),
        pumped(
            reader.rows(),
            rows1,
            piece_pump(reader, scratch, n, block),
            scratch1,
            log0,
            log1,
            Err(e),
        ),
    ensures
        ended(
            reader.future(scratch, block + rest),
            reader.rows().format(),
            reader.rows().y() as nat,
            log0.rows,
            log1.rows,
            Err(e),
        ),
{
    let s = piece_scan(reader, scratch, n, block);
    let l = reader.future(scratch, block + rest);
    lemma_piece_body(reader, scratch, n, block, rest);
    lemma_piece_prefix(reader, scratch, n, block, rest);
    if let DecodeError::Sink(fault) = e {
        lemma_delivered_extend(
            log0.rows,
            log1.rows,
            reader.rows().format(),
            reader.rows().y() as nat,
            s.rows,
            l.rows.skip(s.rows.len() as int),
            Verdict::Failed(fault),
        );
    }
}

proof fn lemma_piece_finished<E>(
    reader: DataReader,
    scratch: Scratch,
    n: u32,
    block: Seq<u8>,
    rest: Seq<u8>,
    rows1: Rows,
    scratch1: Scratch,
    log0: SinkLog<E>,
    log1: SinkLog<E>,
)
    requires
        reader.valid(),
        reader.stage() == DataStage::Piece(n),
        block.len() == piece_span(n),
        pumped(
            reader.rows(),
            rows1,
            piece_pump(reader, scratch, n, block),
            scratch1,
            log0,
            log1,
            Ok::<PumpStep, DecodeError<E>>(PumpStep::Finished),
        ),
    ensures
        ended(
            reader.future(scratch, block + rest),
            reader.rows().format(),
            reader.rows().y() as nat,
            log0.rows,
            log1.rows,
            Ok(()),
        ),
{
    let s = piece_scan(reader, scratch, n, block);
    let l = reader.future(scratch, block + rest);
    let f = reader.rows().format();
    let y = reader.rows().y() as nat;
    lemma_piece_body(reader, scratch, n, block, rest);
    lemma_piece_prefix(reader, scratch, n, block, rest);
    if delivered(log0.rows, log1.rows, f, y, s.rows, Verdict::Stopped) {
        let tail = l.rows.skip(s.rows.len() as int);
        lemma_delivered_extend(log0.rows, log1.rows, f, y, s.rows, tail, Verdict::Stopped);
    }
}

proof fn lemma_piece_more<E>(
    reader: DataReader,
    scratch: Scratch,
    n: u32,
    block: Seq<u8>,
    rest: Seq<u8>,
    next: DataReader,
    scratch1: Scratch,
    log0: SinkLog<E>,
    log1: SinkLog<E>,
)
    requires
        reader.valid(),
        reader.stage() == DataStage::Piece(n),
        block.len() == piece_span(n),
        next.pos() < WINDOW,
        next.stage() == if n > piece_len(n) {
            DataStage::Piece((n - piece_len(n)) as u32)
        } else {
            DataStage::ChunkStart
        },
        pumped(
            reader.rows(),
            next.rows(),
            piece_pump(reader, scratch, n, block),
            scratch1,
            log0,
            log1,
            Ok::<PumpStep, DecodeError<E>>(PumpStep::NeedInput(next.pos() as usize)),
        ),
    ensures
        reader.future(scratch, block + rest) == (Lines {
            rows: piece_scan(reader, scratch, n, block).rows + next.future(scratch1, rest).rows,
            end: next.future(scratch1, rest).end,
        }),
{
    let p = piece_pump(reader, scratch, n, block);
    lemma_piece_body(reader, scratch, n, block, rest);
    reader.rows().lemma_need();
    next.rows().lemma_need();
    let tail = next.future_body(scratch1, rest);
    assert(reader.future_body(scratch, block + rest) == (Body {
        out: p.out + tail.out,
        end: tail.end,
    }));
    lemma_scanning(reader.rows(), next.rows(), p.out, tail.out);
}

/// Read the leading metadata chunks of `src`, stopping at the first image data. Returns what they
/// say, and where the first image data chunk's payload begins.
#[verifier::spinoff_prover]
#[verifier::rlimit(60)]
pub fn read_header(src: &[u8]) -> (r: Result<(Header, usize), PngError>)
    ensures
        match r {
            Ok((header, at)) => {
                &&& header.format@.valid()
                &&& header.width > 0
                &&& header.height > 0
                &&& at <= src@.len()
                &&& header_of(src@) == (HeaderOutcome::Found {
                    width: header.width,
                    height: header.height,
                    format: header.format@,
                    len: header.len,
                    rest: src@.skip(at as int),
                })
            },
            Err(e) => header_error(header_of(src@)) == Some(e),
        },
{
    let mut at: usize = 0;
    let mut reader = HeaderReader::new();
    assert(src@.skip(0) =~= src@);
    loop
        invariant
            reader.valid(),
            at <= src@.len(),
            reader.future(src@.skip(at as int)) == header_of(src@),
        decreases src@.len() - at, (if reader.wanted() == 0 {
            1int
        } else {
            0int
        }),
    {
        let n: usize = reader.want();
        if src.len() - at < n {
            proof {
                lemma_header_short(reader, src@.skip(at as int));
            }
            return Err(PngError::UnexpectedEnd);
        }
        let block = vstd::slice::slice_subrange(src, at, at + n);
        assert(src@.skip(at as int) =~= block@ + src@.skip(at + n));
        let step = reader.supply(block);
        at = at + n;
        match step {
            Err(e) => {
                return Err(e);
            },
            Ok(HeaderStep::More(next)) => {
                reader = next;
            },
            Ok(HeaderStep::Found(found)) => {
                return Ok((found, at));
            },
        }
    }
}

/// Decode `src`, handing every scanline to `sink` as it becomes available.
#[verifier::spinoff_prover]
#[verifier::rlimit(60)]
pub fn decode<S: RowSink>(src: &[u8], sink: &mut S, scratch: &mut Scratch) -> (r: Result<
    (),
    DecodeError<S::Fault>,
>)
    requires
        old(scratch).valid(),
        old(sink).ready(),
        old(sink).log() == SinkLog::<S::Fault>::blank(),
    ensures
        final(scratch).valid(),
        final(sink).ready(),
        final(sink).config() == old(sink).config(),
        decoded(image(src@, old(scratch).window()), old(sink).log(), final(sink).log(), r),
        r is Ok ==> (image(src@, old(scratch).window()).header matches Some((_, height, _))
            && satisfied(final(sink).log().rows, height)),
        image(src@, old(scratch).window()).header matches Some((_, height, _)) ==> within_height(
            final(sink).log().rows,
            height,
            r,
        ),
{
    let ghost im = image(src@, scratch.window());
    let (header, start): (Header, usize) = match read_header(src) {
        Err(e) => {
            return Err(DecodeError::Png(e));
        },
        Ok(found) => found,
    };
    let mut at: usize = start;
    let ghost format = header.format@;
    let ghost rest = src@.skip(at as int);
    let ghost window = scratch.window();
    let mut data = match DataReader::start(header, scratch, sink) {
        Err(e) => {
            proof {
                lemma_delivered_none(Seq::<RowEvent<S::Fault>>::empty(), format, 0);
                assert(sink.log().rows =~= Seq::empty());
            }
            return Err(e);
        },
        Ok(data) => data,
    };
    let ghost empty = Seq::<RowEvent<S::Fault>>::empty();
    let ghost mut got: Seq<Seq<u8>> = Seq::empty();
    proof {
        lemma_delivered_none(empty, format, 0);
        assert(sink.log().rows =~= empty);
        assert(got + im.lines.rows =~= im.lines.rows);
    }
    loop
        invariant
            data.valid(),
            at <= src@.len(),
            scratch.valid(),
            sink.ready(),
            sink.config() == old(sink).config(),
            data.rows().feeds(sink.log()),
            data.rows().format() == format,
            empty == Seq::<RowEvent<S::Fault>>::empty(),
            im == image(src@, old(scratch).window()),
            im.header == Some((data.rows().width(), data.rows().height(), format)),
            data.rows().y() == got.len(),
            delivered(empty, sink.log().rows, format, 0, got, Verdict::All),
            im.lines.rows == got + data.future(*scratch, src@.skip(at as int)).rows,
            im.lines.end == data.future(*scratch, src@.skip(at as int)).end,
        decreases src@.len() - at,
    {
        let n: usize = data.want();
        let ghost log0 = sink.log();
        let ghost now = data;
        let ghost scratch0 = *scratch;
        if src.len() - at < n {
            proof {
                lemma_data_short(data, *scratch, src@.skip(at as int));
                data.rows().lemma_need();
                assert(got + Seq::<Seq<u8>>::empty() =~= got);
            }
            return Err(DecodeError::Png(PngError::UnexpectedEnd));
        }
        let block = vstd::slice::slice_subrange(src, at, at + n);
        assert(src@.skip(at as int) =~= block@ + src@.skip(at + n));
        let ghost l = now.future(scratch0, src@.skip(at as int));
        let step = data.supply(block, scratch, sink);
        at = at + n;
        match step {
            Err(e) => {
                proof {
                    lemma_ended_join(empty, log0.rows, sink.log().rows, format, got, l, Err(e));
                }
                return Err(e);
            },
            Ok(DataStep::Finished) => {
                proof {
                    lemma_ended_join(empty, log0.rows, sink.log().rows, format, got, l, Ok(()));
                }
                return Ok(());
            },
            Ok(DataStep::More(next)) => {
                proof {
                    let more = data_since(sink.log().rows, log0.rows.len());
                    lemma_delivered_join(
                        empty,
                        log0.rows,
                        sink.log().rows,
                        format,
                        0,
                        got,
                        more,
                        Verdict::All,
                    );
                    let fut = next.future(*scratch, src@.skip(at as int)).rows;
                    assert(got + (more + fut) =~= (got + more) + fut);
                    lemma_delivered_len(log0.rows, sink.log().rows, format, got.len(), more);
                    got = got + more;
                }
                data = next;
            },
        }
    }
}

/// A sink that took every scanline of a run has that many more in its log.
proof fn lemma_delivered_len<E>(
    before: Seq<RowEvent<E>>,
    after: Seq<RowEvent<E>>,
    format: FormatModel,
    first: nat,
    rows: Seq<Seq<u8>>,
)
    requires
        delivered(before, after, format, first, rows, Verdict::All),
    ensures
        after.len() == before.len() + rows.len(),
{
    reveal(delivered);
}

/// The end of the last run is the end of them all.
proof fn lemma_ended_join<E>(
    a: Seq<RowEvent<E>>,
    b: Seq<RowEvent<E>>,
    c: Seq<RowEvent<E>>,
    format: FormatModel,
    got: Seq<Seq<u8>>,
    l: Lines,
    r: Result<(), DecodeError<E>>,
)
    requires
        delivered(a, b, format, 0, got, Verdict::All),
        ended(l, format, got.len(), b, c, r),
    ensures
        ended(Lines { rows: got + l.rows, end: l.end }, format, 0, a, c, r),
{
    match r {
        Ok(()) => {
            if delivered(b, c, format, got.len(), l.rows, Verdict::Stopped) {
                lemma_delivered_join(a, b, c, format, 0, got, l.rows, Verdict::Stopped);
            } else {
                lemma_delivered_join(a, b, c, format, 0, got, l.rows, Verdict::All);
            }
        },
        Err(DecodeError::Png(e)) => {
            lemma_delivered_join(a, b, c, format, 0, got, l.rows, Verdict::All);
        },
        Err(DecodeError::Sink(e)) => {
            lemma_delivered_join(a, b, c, format, 0, got, l.rows, Verdict::Failed(e));
        },
    }
}

/// A file that ends within the next piece of its header is too short.
proof fn lemma_header_short(reader: HeaderReader, b: Seq<u8>)
    requires
        reader.valid(),
        b.len() < reader.wanted(),
    ensures
        reader.future(b) is Short,
{
}

/// A file that ends within the next piece of its data starves the decoder.
proof fn lemma_data_short(data: DataReader, scratch: Scratch, b: Seq<u8>)
    requires
        data.valid(),
        b.len() < data.wanted(),
    ensures
        data.future(scratch, b) == (Lines {
            rows: Seq::<Seq<u8>>::empty(),
            end: Err::<(), PngError>(PngError::UnexpectedEnd),
        }),
{
    data.rows().lemma_need();
    let rows = data.rows();
    assert(rows.pending() + Seq::<u8>::empty() =~= rows.pending());
}

} // verus!
