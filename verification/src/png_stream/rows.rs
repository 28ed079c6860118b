//! Scanlines: where they come from in the inflated bytes, and where they go.

use vstd::prelude::*;

use crate::png_stream::error::PngError;
use crate::png_stream::filter::{lemma_unfiltered_len, unfilter, unfiltered};
use crate::png_stream::format::{lemma_pixel_bits, Format, FormatModel, Row};

verus! {

/// A scanline as a sink received it, and what the sink replied.
#[verifier::ext_equal]
pub ghost struct RowEvent<E> {
    pub y: u32,
    pub format: FormatModel,
    pub data: Seq<u8>,
    pub reply: Result<bool, E>,
}

/// Everything a sink has been told.
#[verifier::ext_equal]
pub ghost struct SinkLog<E> {
    /// The dimensions it was given, and what it replied.
    pub opened: Option<(u32, u32, Result<(), E>)>,
    /// The scanlines since then.
    pub rows: Seq<RowEvent<E>>,
}

impl<E> SinkLog<E> {
    /// Nothing has been said yet.
    pub open spec fn blank() -> SinkLog<E> {
        SinkLog { opened: None, rows: Seq::empty() }
    }

    /// An image of this size was announced and accepted.
    pub open spec fn accepted(self, width: u32, height: u32) -> bool {
        self.opened matches Some((w, h, reply)) && w == width && h == height && reply is Ok
    }
}

/// Receives the decoded image, one scanline at a time.
pub trait RowSink {
    /// Why the sink cannot go on.
    type Fault;

    /// What a sink was set up with.
    type Config;

    /// What the sink was set up with; it stays as it is.
    spec fn config(&self) -> Self::Config;

    /// The sink's own invariant.
    spec fn ready(&self) -> bool;

    /// What the sink has been told so far.
    spec fn log(&self) -> SinkLog<Self::Fault>;

    /// Called once, before any row, with the image dimensions.
    fn start(&mut self, width: u32, height: u32) -> (r: Result<(), Self::Fault>)
        requires
            old(self).ready(),
            old(self).log() == SinkLog::<Self::Fault>::blank(),
            width > 0,
            height > 0,
        ensures
            final(self).ready(),
            final(self).config() == old(self).config(),
            final(self).log() == (SinkLog {
                opened: Some((width, height, r)),
                rows: Seq::<RowEvent<Self::Fault>>::empty(),
            }),
    ;

    /// Called per scanline top to bottom. Return `Ok(false)` to stop early.
    fn row(&mut self, y: u32, row: &Row) -> (r: Result<bool, Self::Fault>)
        requires
            old(self).ready(),
            old(self).log().opened matches Some((width, height, Ok(()))) && y < height
                && row.format@.valid() && row.data@.len() == row.format@.stride(width as nat),
            y == old(self).log().rows.len(),
        ensures
            final(self).ready(),
            final(self).config() == old(self).config(),
            final(self).log() == (SinkLog {
                opened: old(self).log().opened,
                rows: old(self).log().rows.push(
                    (RowEvent { y, format: row.format@, data: row.data@, reply: r }),
                ),
            }),
    ;
}

/// Why an image was not decoded: the data is at fault, or the sink gave up.
#[derive(Debug, PartialEq, Eq)]
pub enum DecodeError<E> {
    Png(PngError),
    Sink(E),
}

/// A sink has had no more scanlines than the image has, and not all of them if the data is at
/// fault.
pub open spec fn within_height<T, E>(
    rows: Seq<RowEvent<E>>,
    height: u32,
    r: Result<T, DecodeError<E>>,
) -> bool {
    rows.len() <= height && (r matches Err(DecodeError::Png(_)) ==> rows.len() < height)
}

/// How a sink took a run of scanlines.
pub ghost enum Verdict<E> {
    /// It accepted every one of them.
    All,
    /// It asked to stop after one of them.
    Stopped,
    /// It failed on one of them.
    Failed(E),
}

/// Between two states of its log, a sink was handed the scanlines `rows`, numbered from `first`,
/// one after the other until it stopped or failed.
#[verifier::opaque]
pub open spec fn delivered<E>(
    before: Seq<RowEvent<E>>,
    after: Seq<RowEvent<E>>,
    format: FormatModel,
    first: nat,
    rows: Seq<Seq<u8>>,
    verdict: Verdict<E>,
) -> bool {
    let n = before.len();
    let k = after.len() - n;
    &&& 0 <= k <= rows.len()
    &&& after.take(n as int) == before
    &&& forall|i: int|
        n <= i < after.len() ==> {
            let event = #[trigger] after[i];
            &&& event.y == first + (i - n)
            &&& event.format == format
            &&& event.data == rows[i - n]
            &&& i + 1 < after.len() ==> event.reply == Ok::<bool, E>(true)
        }
    &&& match verdict {
        Verdict::All => k == rows.len() && (k > 0 ==> after.last().reply == Ok::<bool, E>(true)),
        Verdict::Stopped => k > 0 && after.last().reply == Ok::<bool, E>(false),
        Verdict::Failed(e) => k > 0 && after.last().reply == Err::<bool, E>(e),
    }
}

/// Two runs of scanlines handed over one after the other.
pub proof fn lemma_delivered_join<E>(
    a: Seq<RowEvent<E>>,
    b: Seq<RowEvent<E>>,
    c: Seq<RowEvent<E>>,
    format: FormatModel,
    first: nat,
    rows: Seq<Seq<u8>>,
    more: Seq<Seq<u8>>,
    verdict: Verdict<E>,
)
    requires
        delivered(a, b, format, first, rows, Verdict::All),
        delivered(b, c, format, (first + rows.len()) as nat, more, verdict),
    ensures
        delivered(a, c, format, first, rows + more, verdict),
{
    reveal(delivered);
    assert(c.take(a.len() as int) =~= c.take(b.len() as int).take(a.len() as int));
    assert forall|i: int| a.len() <= i < c.len() implies ({
        let event = #[trigger] c[i];
        &&& event.y == first + (i - a.len())
        &&& event.format == format
        &&& event.data == (rows + more)[i - a.len()]
        &&& i + 1 < c.len() ==> event.reply == Ok::<bool, E>(true)
    }) by {
        if i < b.len() {
            assert(c.take(b.len() as int)[i] == b[i]);
            if i + 1 == b.len() {
                assert(b[i] == b.last());
            }
        }
    }
    if c.len() == b.len() && b.len() > a.len() {
        assert(c =~= b);
    }
}

/// No scanlines at all.
pub proof fn lemma_delivered_none<E>(a: Seq<RowEvent<E>>, format: FormatModel, first: nat)
    ensures
        delivered(a, a, format, first, Seq::empty(), Verdict::All),
{
    reveal(delivered);
    assert(a.take(a.len() as int) =~= a);
}

/// A run that did not go to its end is as well the beginning of a longer run.
pub proof fn lemma_delivered_extend<E>(
    a: Seq<RowEvent<E>>,
    b: Seq<RowEvent<E>>,
    format: FormatModel,
    first: nat,
    rows: Seq<Seq<u8>>,
    more: Seq<Seq<u8>>,
    verdict: Verdict<E>,
)
    requires
        delivered(a, b, format, first, rows, verdict),
        !(verdict is All),
    ensures
        delivered(a, b, format, first, rows + more, verdict),
{
    reveal(delivered);
    assert forall|i: int| a.len() <= i < b.len() implies (#[trigger] b[i]).data == (rows + more)[i
        - a.len()] by {}
}

/// A run that ended within a longer one, right after `row`.
proof fn lemma_stop<E>(
    a: Seq<RowEvent<E>>,
    b: Seq<RowEvent<E>>,
    c: Seq<RowEvent<E>>,
    format: FormatModel,
    first: nat,
    rows: Seq<Seq<u8>>,
    row: Seq<u8>,
    whole: Seq<Seq<u8>>,
    verdict: Verdict<E>,
)
    requires
        delivered(a, b, format, first, rows, Verdict::All),
        delivered(b, c, format, (first + rows.len()) as nat, seq![row], verdict),
        !(verdict is All),
        rows.len() < whole.len(),
        whole.take(rows.len() as int + 1) == rows + seq![row],
    ensures
        delivered(a, c, format, first, whole, verdict),
{
    let tail = whole.skip(rows.len() as int + 1);
    lemma_delivered_join(a, b, c, format, first, rows, seq![row], verdict);
    lemma_delivered_extend(a, c, format, first, rows + seq![row], tail, verdict);
    assert((rows + seq![row]) + tail =~= whole);
}

/// The scanlines in a run of inflated bytes, each a filter byte and `stride` data bytes.
#[verifier::ext_equal]
pub ghost struct Scan {
    /// The complete scanlines, unfiltered.
    pub rows: Seq<Seq<u8>>,
    /// The last complete scanline, or the one before the run if there is none.
    pub previous: Seq<u8>,
    /// The bytes of the scanline that is not complete.
    pub pending: Seq<u8>,
    /// The unknown filter that ended the run, if one did.
    pub bad: Option<u8>,
}

/// Take `data` apart into scanlines; `previous` is the scanline above the first of them.
pub open spec fn scan(bpp: int, stride: nat, previous: Seq<u8>, data: Seq<u8>) -> Scan
    decreases data.len(),
{
    if data.len() < stride + 1 {
        Scan { rows: Seq::empty(), previous, pending: data, bad: None }
    } else if data[0] > 4 {
        Scan { rows: Seq::empty(), previous, pending: Seq::empty(), bad: Some(data[0]) }
    } else {
        let row = unfiltered(data[0], bpp, data.subrange(1, stride as int + 1), previous);
        let r = scan(bpp, stride, row, data.skip(stride as int + 1));
        Scan { rows: seq![row] + r.rows, ..r }
    }
}

/// Scanline `i` is made from the bytes behind the filter byte that begins it, `stride` of them,
/// with that filter and the scanline above it; every scanline takes as many bytes, and there are as
/// many as the bytes make up, unless a filter is unknown, which ends them.
pub proof fn law_scanlines_follow_one_another(
    bpp: int,
    stride: nat,
    previous: Seq<u8>,
    data: Seq<u8>,
    i: int,
)
    ensures
        ({
            let s = scan(bpp, stride, previous, data);
            let at = i * (stride + 1);
            let end = (s.rows.len() * (stride + 1)) as int;
            &&& 0 <= i < s.rows.len() ==> {
                &&& 0 <= at && at + stride < data.len()
                &&& data[at] <= 4
                &&& s.rows[i] == unfiltered(
                    data[at],
                    bpp,
                    data.subrange(at + 1, at + 1 + stride),
                    if i == 0 {
                        previous
                    } else {
                        s.rows[i - 1]
                    },
                )
            }
            &&& 0 <= end <= data.len()
            &&& s.bad is None ==> data.len() - end <= stride && s.pending == data.skip(end)
            &&& s.bad matches Some(filter) ==> data.len() - end > stride && filter == data[end]
                && filter > 4
            &&& s.previous == if s.rows.len() == 0 {
                previous
            } else {
                s.rows.last()
            }
        }),
    decreases data.len(),
{
    let s = scan(bpp, stride, previous, data);
    if data.len() < stride + 1 || data[0] > 4 {
        assert(s.rows.len() * (stride + 1) == 0) by (nonlinear_arith)
            requires
                s.rows.len() == 0,
        ;
        assert(data.skip(0) =~= data);
    } else {
        let row = unfiltered(data[0], bpp, data.subrange(1, stride as int + 1), previous);
        let rest = data.skip(stride as int + 1);
        let r = scan(bpp, stride, row, rest);
        law_scanlines_follow_one_another(bpp, stride, row, rest, i - 1);
        let w = stride + 1;
        let n = r.rows.len();
        assert(s.rows == seq![row] + r.rows);
        assert(s.rows.len() == n + 1);
        assert((n + 1) * w == n * w + w) by (nonlinear_arith);
        assert((i - 1) * w + w == i * w) by (nonlinear_arith);
        assert(i == 0 ==> i * w == 0);
        let end = (n + 1) * w;
        assert(data.skip(end as int) =~= rest.skip((n * w) as int));
        if 0 < i < s.rows.len() {
            let at = i * w;
            let before = (i - 1) * w;
            assert(rest[before] == data[at]);
            assert(rest.subrange(before + 1, before + 1 + stride) =~= data.subrange(
                at + 1,
                at + 1 + stride,
            ));
            assert(s.rows[i] == r.rows[i - 1]);
        }
        if r.rows.len() > 0 {
            assert(s.rows.last() == r.rows.last());
        }
    }
}

/// What a sink was handed are scanlines of the run in their order and from its start, numbered on from
/// `first`, and behind what it had before. It had all of them if and only if it went on after each;
/// after the one that it stopped or failed on it had no more.
pub proof fn law_sink_gets_scanlines_in_order<E>(
    before: Seq<RowEvent<E>>,
    after: Seq<RowEvent<E>>,
    format: FormatModel,
    first: nat,
    rows: Seq<Seq<u8>>,
    verdict: Verdict<E>,
    i: int,
)
    requires
        delivered(before, after, format, first, rows, verdict),
    ensures
        ({
            let n = before.len() as int;
            &&& before.is_prefix_of(after)
            &&& after.len() - n <= rows.len()
            &&& 0 <= i < after.len() - n ==> {
                &&& after[n + i].y == first + i
                &&& after[n + i].data == rows[i]
                &&& after[n + i].format == format
            }
            &&& 0 <= i < after.len() - n - 1 ==> after[n + i].reply == Ok::<bool, E>(true)
            &&& verdict is All ==> after.len() - n == rows.len() && (rows.len() > 0
                ==> after.last().reply == Ok::<bool, E>(true))
            &&& verdict is Stopped ==> after.len() > n && after.last().reply == Ok::<bool, E>(false)
            &&& verdict matches Verdict::Failed(e) ==> after.len() > n && after.last().reply == Err::<
                bool,
                E,
            >(e)
        }),
{
    reveal(delivered);
    let n = before.len() as int;
    assert(before =~= after.take(n));
    if 0 <= i < after.len() - n {
        assert(after[n + i].y == first + i);
    }
}

/// Scanlines may be taken apart piece by piece.
pub proof fn lemma_scan_append(bpp: int, stride: nat, previous: Seq<u8>, a: Seq<u8>, b: Seq<u8>)
    ensures
        ({
            let s = scan(bpp, stride, previous, a);
            let t = scan(bpp, stride, s.previous, s.pending + b);
            &&& s.pending.len() <= stride
            &&& scan(bpp, stride, previous, a + b) == if s.bad is Some {
                s
            } else {
                Scan { rows: s.rows + t.rows, ..t }
            }
        }),
    decreases a.len(),
{
    let s = scan(bpp, stride, previous, a);
    let t = scan(bpp, stride, s.previous, s.pending + b);
    if a.len() < stride + 1 {
        assert(s.rows + t.rows =~= t.rows);
    } else {
        assert((a + b)[0] == a[0]);
        if a[0] <= 4 {
            assert((a + b).subrange(1, stride as int + 1) =~= a.subrange(1, stride as int + 1));
            assert((a + b).skip(stride as int + 1) =~= a.skip(stride as int + 1) + b);
            let row = unfiltered(a[0], bpp, a.subrange(1, stride as int + 1), previous);
            lemma_scan_append(bpp, stride, row, a.skip(stride as int + 1), b);
            let r = scan(bpp, stride, row, a.skip(stride as int + 1));
            assert(seq![row] + (r.rows + t.rows) =~= (seq![row] + r.rows) + t.rows);
        }
    }
}

/// Taking apart one more byte.
proof fn lemma_scan_push(bpp: int, stride: nat, previous: Seq<u8>, a: Seq<u8>, x: u8)
    requires
        scan(bpp, stride, previous, a).bad is None,
    ensures
        ({
            let s = scan(bpp, stride, previous, a);
            let p = s.pending.push(x);
            let row = unfiltered(p[0], bpp, p.skip(1), s.previous);
            &&& s.pending.len() <= stride
            &&& scan(bpp, stride, previous, a.push(x)) == if p.len() < stride + 1 {
                Scan { pending: p, ..s }
            } else if p[0] > 4 {
                Scan { pending: Seq::empty(), bad: Some(p[0]), ..s }
            } else {
                Scan {
                    rows: s.rows.push(row),
                    previous: row,
                    pending: Seq::empty(),
                    bad: None,
                }
            }
        }),
{
    let s = scan(bpp, stride, previous, a);
    let p = s.pending.push(x);
    lemma_scan_append(bpp, stride, previous, a, seq![x]);
    assert(a + seq![x] =~= a.push(x));
    assert(s.pending + seq![x] =~= p);
    if p.len() < stride + 1 {
        assert(s.rows + Seq::<Seq<u8>>::empty() =~= s.rows);
    } else if p[0] > 4 {
        assert(s.rows + Seq::<Seq<u8>>::empty() =~= s.rows);
    } else {
        assert(p.subrange(1, stride as int + 1) =~= p.skip(1));
        assert(p.skip(stride as int + 1) =~= Seq::empty());
        let row = unfiltered(p[0], bpp, p.skip(1), s.previous);
        assert(scan(bpp, stride, row, Seq::empty()).rows =~= Seq::empty());
        assert(s.rows + (seq![row] + Seq::<Seq<u8>>::empty()) =~= s.rows.push(row));
    }
}

/// What feeding bytes came to.
#[derive(Debug, Clone, Copy, PartialEq, Eq, Structural)]
pub enum Fed {
    /// More bytes are needed.
    More,
    /// The last scanline is through.
    Complete,
    /// The sink asked to stop.
    Stopped,
}

/// Reassembles scanlines from the inflated byte stream and unfilters them.
pub struct Rows {
    width: u32,
    height: u32,
    format: Format,
    bpp: usize,
    /// The filter byte of the row being assembled.
    filter: u8,
    /// The data bytes of the row being assembled.
    current: Vec<u8>,
    previous: Vec<u8>,
    /// How many bytes of the row are there, the filter byte among them.
    filled: usize,
    y: u32,
}

/// What feeding `data` does: the sink is handed the scanlines that the bytes complete, up to the
/// end of the image, and the result says how it ended.
pub open spec fn fed<E>(
    rows0: Rows,
    data: Seq<u8>,
    log0: SinkLog<E>,
    rows1: Rows,
    log1: SinkLog<E>,
    r: Result<Fed, DecodeError<E>>,
) -> bool {
    let used = if data.len() <= rows0.need() {
        data
    } else {
        data.take(rows0.need())
    };
    let s = rows0.scanning(used);
    let f = rows0.format();
    let y = rows0.y() as nat;
    &&& log1.opened == log0.opened
    &&& rows1.width() == rows0.width()
    &&& rows1.height() == rows0.height()
    &&& rows1.format() == f
    &&& within_height(log1.rows, rows0.height(), r)
    &&& match r {
        Ok(Fed::More) => {
            &&& data.len() < rows0.need()
            &&& delivered(log0.rows, log1.rows, f, y, s.rows, Verdict::All)
            &&& s.bad is None
            &&& rows1.valid()
            &&& rows1.feeds(log1)
            &&& rows1.previous() == s.previous
            &&& rows1.pending() == s.pending
            &&& rows1.y() == y + s.rows.len()
            &&& rows1.need() == rows0.need() - data.len()
        },
        Ok(Fed::Complete) => {
            &&& data.len() >= rows0.need()
            &&& delivered(log0.rows, log1.rows, f, y, s.rows, Verdict::All)
            &&& s.bad is None
            &&& y + s.rows.len() == rows0.height()
        },
        Ok(Fed::Stopped) => delivered(log0.rows, log1.rows, f, y, s.rows, Verdict::Stopped),
        Err(DecodeError::Png(e)) => {
            &&& delivered(log0.rows, log1.rows, f, y, s.rows, Verdict::All)
            &&& s.bad is Some
            &&& e == PngError::UnknownFilter(s.bad->0)
        },
        Err(DecodeError::Sink(e)) => delivered(
            log0.rows,
            log1.rows,
            f,
            y,
            s.rows,
            Verdict::Failed(e),
        ),
    }
}

impl Rows {
    /// The buffers fit the format, and scanlines are still to come.
    pub closed spec fn valid(&self) -> bool {
        &&& self.format@.valid()
        &&& self.bpp == self.format@.bpp()
        &&& self.current@.len() == self.format@.stride(self.width as nat)
        &&& self.previous@.len() == self.current@.len()
        &&& self.current@.len() < usize::MAX
        &&& self.filled <= self.current@.len()
        &&& self.y < self.height
    }

    pub closed spec fn format(&self) -> FormatModel {
        self.format@
    }

    pub closed spec fn width(&self) -> u32 {
        self.width
    }

    pub closed spec fn height(&self) -> u32 {
        self.height
    }

    /// How many scanlines are complete.
    pub closed spec fn y(&self) -> u32 {
        self.y
    }

    /// The last complete scanline.
    pub closed spec fn previous(&self) -> Seq<u8> {
        self.previous@
    }

    /// The bytes of the scanline being assembled.
    pub closed spec fn pending(&self) -> Seq<u8> {
        if self.filled == 0 {
            Seq::empty()
        } else {
            seq![self.filter] + self.current@.take(self.filled - 1)
        }
    }

    /// Bytes in a scanline, its filter byte apart.
    pub open spec fn stride(&self) -> nat {
        self.format().stride(self.width() as nat)
    }

    /// How many bytes the rest of the image has.
    pub open spec fn need(&self) -> int {
        (self.height() - self.y()) * (self.stride() + 1) - self.pending().len()
    }

    /// The scanlines in the bytes at hand and `data` after them.
    pub open spec fn scanning(&self, data: Seq<u8>) -> Scan {
        scan(self.format().bpp() as int, self.stride(), self.previous(), self.pending() + data)
    }

    /// The sink was told of this image and has had every complete scanline of it.
    pub open spec fn feeds<E>(&self, log: SinkLog<E>) -> bool {
        log.accepted(self.width(), self.height()) && log.rows.len() == self.y()
    }

    /// Something is always needed until the image is complete.
    pub proof fn lemma_need(&self)
        requires
            self.valid(),
        ensures
            self.need() > 0,
            self.pending().len() <= self.stride(),
            self.y() < self.height(),
    {
        let s = self.stride() + 1;
        assert((self.height - self.y) * s >= s) by (nonlinear_arith)
            requires
                self.height - self.y >= 1,
                s >= 0,
        ;
    }

    /// Set up for an image, or `None` where a scanline is too long to be counted.
    pub fn new(width: u32, height: u32, format: Format) -> (r: Option<Rows>)
        requires
            format@.valid(),
            height > 0,
        ensures
            r is Some <==> width as nat * format@.pixel_bits() <= usize::MAX,
            r matches Some(rows) ==> {
                &&& rows.valid()
                &&& rows.width() == width
                &&& rows.height() == height
                &&& rows.format() == format@
                &&& rows.y() == 0
                &&& rows.previous() == zero_row(format@.stride(width as nat))
                &&& rows.pending() == Seq::<u8>::empty()
            },
    {
        let bpp: usize = format.filter_bpp();
        match format.stride(width) {
            None => None,
            Some(stride) => {
                let current: Vec<u8> = vec![0u8; stride];
                let previous: Vec<u8> = vec![0u8; stride];
                assert(previous@ =~= zero_row(stride as nat));
                assert(stride < usize::MAX);
                Some(
                    Rows { width, height, format, bpp, filter: 0, current, previous, filled: 0, y: 0 },
                )
            },
        }
    }

    /// How many scanlines are complete.
    pub fn completed(&self) -> (y: u32)
        ensures
            y == self.y(),
    {
        self.y
    }

    /// How many scanlines the image has.
    pub fn total(&self) -> (height: u32)
        ensures
            height == self.height(),
    {
        self.height
    }

    /// Unfilter the scanline that has just been filled and hand it on.
    fn emit_row<S: RowSink>(&mut self, sink: &mut S) -> (r: Result<Fed, DecodeError<S::Fault>>)
        requires
            old(self).format@.valid(),
            old(self).bpp == old(self).format@.bpp(),
            old(self).current@.len() == old(self).format@.stride(old(self).width as nat),
            old(self).previous@.len() == old(self).current@.len(),
            old(self).current@.len() < usize::MAX,
            old(self).y < old(self).height,
            old(sink).ready(),
            old(self).feeds(old(sink).log()),
        ensures
            final(sink).ready(),
            final(sink).config() == old(sink).config(),
            final(sink).log().opened == old(sink).log().opened,
            final(self).width == old(self).width,
            final(self).height == old(self).height,
            final(self).format == old(self).format,
            within_height(final(sink).log().rows, old(self).height, r),
            ({
                let row = unfiltered(
                    old(self).filter,
                    old(self).bpp as int,
                    old(self).current@,
                    old(self).previous@,
                );
                let before = old(sink).log().rows;
                let after = final(sink).log().rows;
                let f = old(self).format@;
                let y = old(self).y as nat;
                match r {
                    Ok(Fed::More) => {
                        &&& old(self).filter <= 4
                        &&& delivered(before, after, f, y, seq![row], Verdict::All)
                        &&& final(self).valid()
                        &&& final(self).filled == 0
                        &&& final(self).previous@ == row
                        &&& final(self).y == y + 1
                        &&& final(self).feeds(final(sink).log())
                    },
                    Ok(Fed::Complete) => {
                        &&& old(self).filter <= 4
                        &&& delivered(before, after, f, y, seq![row], Verdict::All)
                        &&& y + 1 == old(self).height
                    },
                    Ok(Fed::Stopped) => {
                        &&& old(self).filter <= 4
                        &&& delivered(before, after, f, y, seq![row], Verdict::Stopped)
                    },
                    Err(DecodeError::Png(e)) => {
                        &&& old(self).filter > 4
                        &&& e == PngError::UnknownFilter(old(self).filter)
                        &&& after == before
                    },
                    Err(DecodeError::Sink(e)) => {
                        &&& old(self).filter <= 4
                        &&& delivered(before, after, f, y, seq![row], Verdict::Failed(e))
                    },
                }
            }),
    {
        proof {
            lemma_pixel_bits(self.format@);
            lemma_unfiltered_len(
                self.filter,
                self.bpp as int,
                self.current@,
                self.previous@,
            );
        }
        match unfilter(
            self.filter,
            self.bpp,
            self.current.as_mut_slice(),
            self.previous.as_slice(),
        ) {
            Err(e) => {
                return Err(DecodeError::Png(e));
            },
            Ok(()) => {},
        }
        let ghost before = sink.log().rows;
        let reply = {
            let row = Row { data: self.current.as_slice(), format: &self.format };
            sink.row(self.y, &row)
        };
        proof {
            reveal(delivered);
            assert(sink.log().rows.take(before.len() as int) =~= before);
        }
        match reply {
            Err(e) => Err(DecodeError::Sink(e)),
            Ok(keep_going) => {
                std::mem::swap(&mut self.previous, &mut self.current);
                self.filled = 0;
                self.y = self.y + 1;
                if !keep_going {
                    Ok(Fed::Stopped)
                } else if self.y < self.height {
                    Ok(Fed::More)
                } else {
                    Ok(Fed::Complete)
                }
            },
        }
    }

    /// Absorb one inflated byte.
    fn push<S: RowSink>(&mut self, byte: u8, sink: &mut S) -> (r: Result<
        Fed,
        DecodeError<S::Fault>,
    >)
        requires
            old(self).valid(),
            old(sink).ready(),
            old(self).feeds(old(sink).log()),
        ensures
            final(sink).ready(),
            final(sink).config() == old(sink).config(),
            final(sink).log().opened == old(sink).log().opened,
            final(self).width() == old(self).width(),
            final(self).height() == old(self).height(),
            final(self).format() == old(self).format(),
            within_height(final(sink).log().rows, old(self).height(), r),
            ({
                let p = old(self).pending().push(byte);
                let row = unfiltered(
                    p[0],
                    old(self).format().bpp() as int,
                    p.skip(1),
                    old(self).previous(),
                );
                let before = old(sink).log().rows;
                let after = final(sink).log().rows;
                let f = old(self).format();
                let y = old(self).y() as nat;
                if p.len() < old(self).stride() + 1 {
                    &&& r == Ok::<Fed, DecodeError<S::Fault>>(Fed::More)
                    &&& after == before
                    &&& final(self).valid()
                    &&& final(self).y() == y
                    &&& final(self).previous() == old(self).previous()
                    &&& final(self).pending() == p
                } else if p[0] > 4 {
                    &&& r == Err::<Fed, DecodeError<S::Fault>>(
                        DecodeError::Png(PngError::UnknownFilter(p[0])),
                    )
                    &&& after == before
                } else {
                    match r {
                        Ok(Fed::More) => {
                            &&& delivered(before, after, f, y, seq![row], Verdict::All)
                            &&& final(self).valid()
                            &&& final(self).y() == y + 1
                            &&& after.len() == y + 1
                            &&& final(self).previous() == row
                            &&& final(self).pending() == Seq::<u8>::empty()
                        },
                        Ok(Fed::Complete) => {
                            &&& delivered(before, after, f, y, seq![row], Verdict::All)
                            &&& y + 1 == old(self).height()
                        },
                        Ok(Fed::Stopped) => delivered(
                            before,
                            after,
                            f,
                            y,
                            seq![row],
                            Verdict::Stopped,
                        ),
                        Err(DecodeError::Png(_)) => false,
                        Err(DecodeError::Sink(e)) => delivered(
                            before,
                            after,
                            f,
                            y,
                            seq![row],
                            Verdict::Failed(e),
                        ),
                    }
                }
            }),
    {
        let ghost p = self.pending().push(byte);
        if self.filled == 0 {
            self.filter = byte;
        } else {
            self.current.set(self.filled - 1, byte);
        }
        self.filled = self.filled + 1;
        assert(self.pending() =~= p);
        if self.filled == self.current.len() + 1 {
            assert(p.skip(1) =~= self.current@);
            self.emit_row(sink)
        } else {
            Ok(Fed::More)
        }
    }

    /// Absorb inflated bytes, emitting rows as they complete. Bytes past the end of the image are
    /// left alone.
    #[verifier::rlimit(40)]
    pub fn feed<S: RowSink>(&mut self, data: &[u8], sink: &mut S) -> (r: Result<
        Fed,
        DecodeError<S::Fault>,
    >)
        requires
            old(self).valid(),
            old(sink).ready(),
            old(self).feeds(old(sink).log()),
        ensures
            final(sink).ready(),
            final(sink).config() == old(sink).config(),
            fed(*old(self), data@, old(sink).log(), *final(self), final(sink).log(), r),
    {
        let ghost me = *self;
        let ghost before = sink.log().rows;
        let ghost f = self.format();
        let ghost y0 = self.y() as nat;
        let ghost stride = self.stride();
        let ghost bpp = f.bpp() as int;
        let ghost used = if data@.len() <= self.need() {
            data@
        } else {
            data@.take(self.need())
        };
        proof {
            me.lemma_need();
            assert(me.pending() + data@.take(0) =~= me.pending());
            lemma_delivered_none(before, f, y0);
        }
        let mut i: usize = 0;
        while i < data.len()
            invariant
                me == *old(self),
                before == old(sink).log().rows,
                old(sink).log().accepted(me.width(), me.height()),
                i <= data@.len(),
                i <= used.len(),
                i < me.need(),
                me.valid(),
                self.valid(),
                sink.ready(),
                sink.config() == old(sink).config(),
                sink.log().opened == old(sink).log().opened,
                stride == me.stride(),
                stride == self.stride(),
                f == me.format(),
                f == self.format(),
                bpp == f.bpp(),
                self.width() == me.width(),
                self.height() == me.height(),
                y0 == me.y(),
                used == if data@.len() <= me.need() {
                    data@
                } else {
                    data@.take(me.need())
                },
                sink.log().accepted(me.width(), me.height()),
                sink.log().rows.len() == self.y(),
                self.need() == me.need() - i,
                ({
                    let s = me.scanning(data@.take(i as int));
                    &&& s.bad is None
                    &&& s.previous == self.previous()
                    &&& s.pending == self.pending()
                    &&& self.y() == y0 + s.rows.len()
                    &&& delivered(before, sink.log().rows, f, y0, s.rows, Verdict::All)
                }),
            decreases data.len() - i,
        {
            let ghost now = *self;
            let ghost s = me.scanning(data@.take(i as int));
            let ghost t = me.scanning(data@.take(i + 1));
            let ghost whole = me.scanning(used);
            let ghost mid = sink.log().rows;
            let ghost p = now.pending().push(data@[i as int]);
            let ghost row = unfiltered(p[0], bpp, p.skip(1), now.previous());
            proof {
                now.lemma_need();
                let a = me.pending() + data@.take(i as int);
                lemma_scan_push(bpp, stride, me.previous(), a, data@[i as int]);
                assert(me.pending() + data@.take(i + 1) =~= a.push(data@[i as int]));
                assert(me.pending() + used =~= a.push(data@[i as int]) + used.skip(i + 1));
                lemma_scan_append(
                    bpp,
                    stride,
                    me.previous(),
                    a.push(data@[i as int]),
                    used.skip(i + 1),
                );
                if p.len() >= stride + 1 && p[0] <= 4 {
                    assert(s.rows + seq![row] =~= t.rows);
                    assert(whole.rows.take(s.rows.len() as int + 1) =~= t.rows);
                }
            }
            let r = self.push(data[i], sink);
            i = i + 1;
            match r {
                Err(DecodeError::Png(e)) => {
                    return Err(DecodeError::Png(e));
                },
                Err(DecodeError::Sink(e)) => {
                    proof {
                        let v = Verdict::Failed(e);
                        lemma_stop(before, mid, sink.log().rows, f, y0, s.rows, row, whole.rows, v);
                    }
                    return Err(DecodeError::Sink(e));
                },
                Ok(Fed::Stopped) => {
                    proof {
                        let v = Verdict::Stopped;
                        lemma_stop(before, mid, sink.log().rows, f, y0, s.rows, row, whole.rows, v);
                    }
                    return Ok(Fed::Stopped);
                },
                Ok(fed) => {
                    proof {
                        let w = stride + 1;
                        let d = now.height() - now.y();
                        assert(d * w - w == (d - 1) * w) by (nonlinear_arith);
                        assert(d == 1 ==> d * w == w) by (nonlinear_arith);
                        if p.len() >= w {
                            let v = Verdict::All;
                            let after = sink.log().rows;
                            lemma_delivered_join(before, mid, after, f, y0, s.rows, seq![row], v);
                        }
                    }
                    if let Fed::Complete = fed {
                        assert(used =~= data@.take(i as int));
                        return Ok(Fed::Complete);
                    }
                    proof {
                        self.lemma_need();
                    }
                },
            }
        }
        proof {
            assert(used =~= data@.take(i as int));
        }
        Ok(Fed::More)
    }
}

/// From event `from` on a sink answers as `answer` says: by what it was told before and by the
/// scanline.
pub open spec fn answers_by<E>(
    rows: Seq<RowEvent<E>>,
    from: nat,
    answer: spec_fn(Seq<RowEvent<E>>, u32, FormatModel, Seq<u8>) -> Result<bool, E>,
) -> bool {
    forall|i: int|
        from <= i < rows.len() ==> (#[trigger] rows[i]).reply == answer(
            rows.take(i),
            rows[i].y,
            rows[i].format,
            rows[i].data,
        )
}

/// Sinks that answer alike and are handed the same scanlines are told the same.
proof fn lemma_same_events<E>(
    before: Seq<RowEvent<E>>,
    a: Seq<RowEvent<E>>,
    b: Seq<RowEvent<E>>,
    format: FormatModel,
    first: nat,
    rows: Seq<Seq<u8>>,
    va: Verdict<E>,
    vb: Verdict<E>,
    answer: spec_fn(Seq<RowEvent<E>>, u32, FormatModel, Seq<u8>) -> Result<bool, E>,
    n: nat,
)
    requires
        delivered(before, a, format, first, rows, va),
        delivered(before, b, format, first, rows, vb),
        answers_by(a, before.len(), answer),
        answers_by(b, before.len(), answer),
        before.len() <= n <= a.len(),
        n <= b.len(),
    ensures
        a.take(n as int) == b.take(n as int),
    decreases n,
{
    reveal(delivered);
    if n == before.len() {
    } else {
        let i = n - 1;
        lemma_same_events(before, a, b, format, first, rows, va, vb, answer, i as nat);
        assert(a[i].reply == answer(a.take(i), a[i].y, a[i].format, a[i].data));
        assert(b[i].reply == answer(b.take(i), b[i].y, b[i].format, b[i].data));
        assert(a[i] == b[i]);
        assert(a.take(n as int) =~= a.take(i).push(a[i]));
        assert(b.take(n as int) =~= b.take(i).push(b[i]));
    }
}

/// Sinks that answer alike and are handed the same scanlines take them alike.
proof fn lemma_same_verdict<E>(
    before: Seq<RowEvent<E>>,
    a: Seq<RowEvent<E>>,
    b: Seq<RowEvent<E>>,
    format: FormatModel,
    first: nat,
    rows: Seq<Seq<u8>>,
    va: Verdict<E>,
    vb: Verdict<E>,
    answer: spec_fn(Seq<RowEvent<E>>, u32, FormatModel, Seq<u8>) -> Result<bool, E>,
)
    requires
        delivered(before, a, format, first, rows, va),
        delivered(before, b, format, first, rows, vb),
        answers_by(a, before.len(), answer),
        answers_by(b, before.len(), answer),
    ensures
        a == b,
        va == vb,
{
    reveal(delivered);
    let n = if a.len() <= b.len() {
        a.len()
    } else {
        b.len()
    };
    lemma_same_events(before, a, b, format, first, rows, va, vb, answer, n);
    if n > before.len() {
        assert(a.take(n as int)[n - 1] == b.take(n as int)[n - 1]);
    }
    assert(a.len() == b.len());
    assert(a =~= a.take(n as int));
    assert(b =~= b.take(n as int));
}

/// How a sink took the scanlines, where feeding came to this.
spec fn verdict_of<E>(r: Result<Fed, DecodeError<E>>) -> Verdict<E> {
    match r {
        Ok(Fed::More) => Verdict::All,
        Ok(Fed::Complete) => Verdict::All,
        Ok(Fed::Stopped) => Verdict::Stopped,
        Err(DecodeError::Png(_)) => Verdict::All,
        Err(DecodeError::Sink(e)) => Verdict::Failed(e),
    }
}

/// Where the inflated bytes are cut does not matter: feeding `a`, which asks for more, and then `b`
/// hands a sink the same scanlines, and comes to the same, as feeding both at once to a sink that
/// answers alike.
pub proof fn law_cut_does_not_matter<E>(
    rows0: Rows,
    a: Seq<u8>,
    b: Seq<u8>,
    log0: SinkLog<E>,
    rows1: Rows,
    log1: SinkLog<E>,
    rows2: Rows,
    log2: SinkLog<E>,
    r2: Result<Fed, DecodeError<E>>,
    rows3: Rows,
    log3: SinkLog<E>,
    r3: Result<Fed, DecodeError<E>>,
    answer: spec_fn(Seq<RowEvent<E>>, u32, FormatModel, Seq<u8>) -> Result<bool, E>,
)
    requires
        rows0.valid(),
        rows0.feeds(log0),
        fed(rows0, a, log0, rows1, log1, Ok::<Fed, DecodeError<E>>(Fed::More)),
        fed(rows1, b, log1, rows2, log2, r2),
        fed(rows0, a + b, log0, rows3, log3, r3),
        answers_by(log2.rows, log0.rows.len(), answer),
        answers_by(log3.rows, log0.rows.len(), answer),
    ensures
        log3 == log2,
        r3 == r2,
        r2 == Ok::<Fed, DecodeError<E>>(Fed::More) ==> {
            &&& rows3.y() == rows2.y()
            &&& rows3.previous() == rows2.previous()
            &&& rows3.pending() == rows2.pending()
        },
{
    let f = rows0.format();
    let y = rows0.y() as nat;
    let need = rows0.need();
    let b_used = if b.len() <= rows1.need() {
        b
    } else {
        b.take(rows1.need())
    };
    let used = if (a + b).len() <= need {
        a + b
    } else {
        (a + b).take(need)
    };
    rows1.lemma_need();
    assert(used =~= a + b_used);
    let s = rows0.scanning(a);
    let t = rows1.scanning(b_used);
    assert(rows0.pending() + (a + b_used) =~= (rows0.pending() + a) + b_used);
    lemma_scan_append(
        f.bpp() as int,
        rows0.stride(),
        rows0.previous(),
        rows0.pending() + a,
        b_used,
    );
    let whole = rows0.scanning(used);
    assert(whole == (Scan { rows: s.rows + t.rows, ..t }));
    let v2 = verdict_of(r2);
    let v3 = verdict_of(r3);
    lemma_delivered_join(log0.rows, log1.rows, log2.rows, f, y, s.rows, t.rows, v2);
    lemma_same_verdict(log0.rows, log2.rows, log3.rows, f, y, whole.rows, v2, v3, answer);
}

/// The scanline above the first one.
pub open spec fn zero_row(stride: nat) -> Seq<u8> {
    Seq::new(stride, |i: int| 0u8)
}

} // verus!
