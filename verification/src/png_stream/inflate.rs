//! The inflater behind the image data, and the sliding window it writes into.

use vstd::prelude::*;

use crate::png_stream::error::InflateStatus;

verus! {

/// DEFLATE's sliding window. Must stay a power of two: the inflater wraps around inside it.
pub const WINDOW: usize = 32768;

/// Expect a zlib header, ignore the checksum at the end.
pub const LAST_INPUT: u32 = 65;

/// As `LAST_INPUT`, and more input will follow.
pub const MORE_INPUT: u32 = 67;

/// The inflater's state between two calls.
#[verifier::external_type_specification]
#[verifier::external_body]
pub struct ExDecompressorOxide(miniz_oxide::inflate::core::DecompressorOxide);

/// What one call of the inflater is given.
#[verifier::ext_equal]
pub ghost struct InflateCall {
    pub input: Seq<u8>,
    pub window: Seq<u8>,
    pub out_pos: nat,
    pub flags: u32,
}

/// What one call of the inflater gives back: its status, how much input it took, how much output
/// it wrote, and the window after the call.
#[verifier::ext_equal]
pub ghost struct InflateOutcome {
    pub status: InflateStatus,
    pub consumed: nat,
    pub produced: nat,
    pub window: Seq<u8>,
}

/// The calls made with an inflater since it was last at the start of a stream.
pub uninterp spec fn inflater_calls(d: miniz_oxide::inflate::core::DecompressorOxide) -> Seq<InflateCall>;

/// What the last of a series of calls, made one after the other from the start of a stream, gives
/// back.
pub uninterp spec fn inflate_outcome(calls: Seq<InflateCall>) -> InflateOutcome;

/// `DecompressorOxide::new`: an inflater at the start of a stream.
#[verifier::external_body]
fn new_inflater() -> (d: miniz_oxide::inflate::core::DecompressorOxide)
    ensures
        inflater_calls(d) == Seq::<InflateCall>::empty(),
{
    miniz_oxide::inflate::core::DecompressorOxide::new()
}

/// `DecompressorOxide::init`: puts the inflater back at the start of a stream. What it held before
/// no longer matters, as every part of it is written again before it is read.
#[verifier::external_body]
fn restart_inflater(d: &mut miniz_oxide::inflate::core::DecompressorOxide)
    ensures
        inflater_calls(*final(d)) == Seq::<InflateCall>::empty(),
{
    d.init()
}

/// `miniz_oxide::inflate::core::decompress`, with the window used in a wrapping manner.
///
/// What it returns and leaves in the window depends on the calls since the start of the stream and
/// on nothing else. It takes no more input than there is, writes its output at `out_pos` and on,
/// no further than the end of the window, and touches nothing else there. It asks for more input
/// only if more was promised (the flag of value two) and all that was given is taken; it has more
/// output only if the window is filled to its end.
#[verifier::external_body]
fn run_inflater(
    d: &mut miniz_oxide::inflate::core::DecompressorOxide,
    input: &[u8],
    window: &mut Vec<u8>,
    out_pos: usize,
    flags: u32,
) -> (r: (InflateStatus, usize, usize))
    requires
        old(window)@.len() == WINDOW,
        out_pos < WINDOW,
        flags == LAST_INPUT || flags == MORE_INPUT,
    ensures
        inflater_calls(*final(d)) == inflater_calls(*old(d)).push(
            (InflateCall { input: input@, window: old(window)@, out_pos: out_pos as nat, flags }),
        ),
        inflate_outcome(inflater_calls(*final(d))) == (InflateOutcome {
            status: r.0,
            consumed: r.1 as nat,
            produced: r.2 as nat,
            window: final(window)@,
        }),
        r.1 <= input@.len(),
        out_pos + r.2 <= WINDOW,
        final(window)@.len() == WINDOW,
        forall|i: int|
            0 <= i < WINDOW && !(out_pos <= i < out_pos + r.2) ==> final(window)@[i] == old(
                window,
            )@[i],
        r.0 is NeedsMoreInput ==> flags == MORE_INPUT && r.1 == input@.len(),
        r.0 is HasMoreOutput ==> out_pos + r.2 == WINDOW,
{
    let (status, consumed, produced) = miniz_oxide::inflate::core::decompress(d, input, window, out_pos, flags);
    let status = match status {
        miniz_oxide::inflate::TINFLStatus::FailedCannotMakeProgress => InflateStatus::CannotMakeProgress,
        miniz_oxide::inflate::TINFLStatus::BadParam => InflateStatus::BadParam,
        miniz_oxide::inflate::TINFLStatus::Adler32Mismatch => InflateStatus::Adler32Mismatch,
        miniz_oxide::inflate::TINFLStatus::Failed => InflateStatus::Failed,
        miniz_oxide::inflate::TINFLStatus::Done => InflateStatus::Done,
        miniz_oxide::inflate::TINFLStatus::NeedsMoreInput => InflateStatus::NeedsMoreInput,
        miniz_oxide::inflate::TINFLStatus::HasMoreOutput => InflateStatus::HasMoreOutput,
    };
    (status, consumed, produced)
}

/// Where a compressed stream stands: the calls made for it, the window, and where in the window
/// the next output goes.
#[verifier::ext_equal]
pub ghost struct Stream {
    pub calls: Seq<InflateCall>,
    pub window: Seq<u8>,
    pub pos: nat,
}

impl Stream {
    /// A stream of which nothing has been read, over a window with the given content.
    pub open spec fn fresh(window: Seq<u8>) -> Stream {
        Stream { calls: Seq::empty(), window, pos: 0 }
    }

    /// The calls after one more with `input`.
    pub open spec fn calling(self, input: Seq<u8>, last: bool) -> Seq<InflateCall> {
        self.calls.push(
            InflateCall {
                input,
                window: self.window,
                out_pos: self.pos,
                flags: if last {
                    LAST_INPUT
                } else {
                    MORE_INPUT
                },
            },
        )
    }

    /// The stream after a call with `input`.
    pub open spec fn after(self, input: Seq<u8>, last: bool) -> Stream {
        let o = inflate_outcome(self.calling(input, last));
        Stream {
            calls: self.calling(input, last),
            window: o.window,
            pos: ((self.pos + o.produced) as nat) % (WINDOW as nat),
        }
    }
}

/// How inflating one piece of input ended.
pub ghost enum PumpEnd {
    /// All of it was taken and the next piece is needed.
    NeedInput,
    /// As much output as was wanted is there.
    Full,
    /// The compressed stream came to its end.
    Done,
    /// The compressed stream is unusable.
    Bad(InflateStatus),
}

/// What inflating one piece of input gives.
#[verifier::ext_equal]
pub ghost struct Pumped {
    pub out: Seq<u8>,
    pub stream: Stream,
    pub end: PumpEnd,
}

/// Everything that inflating `input` gives, up to `need` bytes; `last` says that no input comes
/// after it.
pub open spec fn pump(stream: Stream, input: Seq<u8>, last: bool, need: nat) -> Pumped
    decreases need,
{
    let o = inflate_outcome(stream.calling(input, last));
    let next = stream.after(input, last);
    let out = o.window.subrange(stream.pos as int, (stream.pos + o.produced) as int);
    if o.produced >= need {
        Pumped { out: out.take(need as int), stream: next, end: PumpEnd::Full }
    } else {
        match o.status {
            InflateStatus::Done => Pumped { out, stream: next, end: PumpEnd::Done },
            InflateStatus::HasMoreOutput | InflateStatus::NeedsMoreInput => {
                if !last && o.consumed >= input.len() {
                    Pumped { out, stream: next, end: PumpEnd::NeedInput }
                } else if o.produced == 0 {
                    // An inflater with input left, or with no more to come, writes something
                    // before it asks to be called again.
                    Pumped { out, stream: next, end: PumpEnd::Bad(o.status) }
                } else {
                    let r = pump(
                        next,
                        input.skip(o.consumed as int),
                        last,
                        (need - o.produced) as nat,
                    );
                    Pumped { out: out + r.out, stream: r.stream, end: r.end }
                }
            },
            other => Pumped { out, stream: next, end: PumpEnd::Bad(other) },
        }
    }
}

/// A stream's output goes round in a window of 32 KiB: what a call produces is found there from
/// where the output before it ended, and the next output goes behind it, or to the start of the
/// window when its end is reached. The inflater is told of the last input, and only of that.
pub proof fn law_output_goes_round(stream: Stream, input: Seq<u8>, last: bool)
    ensures
        ({
            let calls = stream.calling(input, last);
            let o = inflate_outcome(calls);
            let next = stream.after(input, last);
            &&& calls.len() == stream.calls.len() + 1
            &&& calls.take(stream.calls.len() as int) == stream.calls
            &&& calls.last().input == input
            &&& calls.last().window == stream.window
            &&& calls.last().out_pos == stream.pos
            &&& calls.last().flags == if last {
                LAST_INPUT
            } else {
                MORE_INPUT
            }
            &&& next.calls == calls
            &&& next.window == o.window
            &&& stream.pos + o.produced < 32768 ==> next.pos == stream.pos + o.produced
            &&& stream.pos + o.produced == 32768 ==> next.pos == 0
        }),
{
    let calls = stream.calling(input, last);
    assert(calls.take(stream.calls.len() as int) =~= stream.calls);
}

/// Inflating stops as soon as there is as much output as is wanted, which is then the first of it;
/// before that, at the end of the stream, and where the stream is unusable, which is told from how
/// it is; when all input was taken it goes on with the next, if there is any; and otherwise it goes
/// on with the input that was left, behind what was produced.
pub proof fn law_inflating_goes_on_until_there_is_enough(
    stream: Stream,
    input: Seq<u8>,
    last: bool,
    need: nat,
)
    ensures
        ({
            let p = pump(stream, input, last, need);
            let o = inflate_outcome(stream.calling(input, last));
            let next = stream.after(input, last);
            let produced = o.window.subrange(stream.pos as int, (stream.pos + o.produced) as int);
            let wants_more = o.status is NeedsMoreInput || o.status is HasMoreOutput;
            &&& o.produced >= need ==> p.end is Full && p.out == produced.take(need as int)
            &&& o.produced < need && o.status is Done ==> p.end is Done && p.out == produced
            &&& o.produced < need && !(o.status is Done) && !wants_more ==> p.end == PumpEnd::Bad(
                o.status,
            ) && p.out == produced
            &&& o.produced < need && wants_more && !last && o.consumed >= input.len()
                ==> p.end is NeedInput && p.out == produced && p.stream == next
            &&& o.produced < need && wants_more && (last || o.consumed < input.len()) && o.produced
                > 0 ==> {
                let r = pump(
                    next,
                    input.skip(o.consumed as int),
                    last,
                    (need - o.produced) as nat,
                );
                p.end == r.end && p.out == produced + r.out && p.stream == r.stream
            }
        }),
{
}

/// The memory an image is inflated in: the window and the inflater's state. One of these serves
/// any number of images, one after the other.
pub struct Scratch {
    window: Vec<u8>,
    decomp: Box<miniz_oxide::inflate::core::DecompressorOxide>,
}

impl Scratch {
    /// The window has its full size.
    pub open spec fn valid(&self) -> bool {
        self.window().len() == WINDOW
    }

    /// What the window holds.
    pub closed spec fn window(&self) -> Seq<u8> {
        self.window@
    }

    /// The calls made for the current stream.
    pub closed spec fn calls(&self) -> Seq<InflateCall> {
        inflater_calls(*self.decomp)
    }

    /// The current stream, with its next output at `pos`.
    pub open spec fn stream(&self, pos: nat) -> Stream {
        Stream { calls: self.calls(), window: self.window(), pos }
    }

    /// Fresh scratch memory, its window all zero.
    pub fn new() -> (s: Scratch)
        ensures
            s.valid(),
            s.window() == Seq::new(WINDOW as nat, |i: int| 0u8),
            s.calls() == Seq::<InflateCall>::empty(),
    {
        let window: Vec<u8> = vec![0u8; WINDOW];
        assert(window@ =~= Seq::new(WINDOW as nat, |i: int| 0u8));
        Scratch { window, decomp: Box::new(new_inflater()) }
    }

    /// Go to the start of a new stream. The window keeps what it holds.
    pub fn restart(&mut self)
        requires
            old(self).valid(),
        ensures
            final(self).valid(),
            final(self).stream(0) == Stream::fresh(old(self).window()),
    {
        restart_inflater(&mut self.decomp);
    }

    /// Hand `input` to the inflater, its output going to `pos` in the window.
    pub fn inflate(&mut self, input: &[u8], pos: usize, last: bool) -> (r: (
        InflateStatus,
        usize,
        usize,
    ))
        requires
            old(self).valid(),
            pos < WINDOW,
        ensures
            final(self).valid(),
            final(self).calls() == old(self).stream(pos as nat).calling(input@, last),
            inflate_outcome(old(self).stream(pos as nat).calling(input@, last)) == (InflateOutcome {
                status: r.0,
                consumed: r.1 as nat,
                produced: r.2 as nat,
                window: final(self).window(),
            }),
            r.1 <= input@.len(),
            pos + r.2 <= WINDOW,
            r.0 is NeedsMoreInput ==> !last && r.1 == input@.len(),
            r.0 is HasMoreOutput ==> r.2 > 0,
    {
        let flags: u32 = if last {
            LAST_INPUT
        } else {
            MORE_INPUT
        };
        run_inflater(&mut self.decomp, input, &mut self.window, pos, flags)
    }

    /// The bytes of the window from `from` up to `to`.
    pub fn output(&self, from: usize, to: usize) -> (bytes: &[u8])
        requires
            self.valid(),
            from <= to <= WINDOW,
        ensures
            bytes@ == self.window().subrange(from as int, to as int),
    {
        vstd::slice::slice_subrange(self.window.as_slice(), from, to)
    }
}

} // verus!
