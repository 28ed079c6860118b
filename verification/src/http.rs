//! HTTP GET: which responses count, and how their bodies are taken in.

use vstd::prelude::*;
use vstd::utf8::{decode_utf8, valid_utf8};

verus! {

/// Chunk size used for every body read. Small on purpose: the streaming download path must stay a
/// few hundred bytes of RAM regardless of how large the resource is.
pub const CHUNK: usize = 512;

/// Why a response was not taken.
#[derive(Debug, Clone, Copy, PartialEq, Eq, Structural)]
pub enum HttpError {
    /// The server answered with this status.
    Status(u16),
    /// The body is longer than this.
    TooLong(usize),
    /// The body is not text.
    NotUtf8,
}

/// Whether a status stands for success.
pub open spec fn success(status: u16) -> bool {
    200 <= status < 300
}

/// Success is every status from 200 to 299, and no other.
pub proof fn law_success_statuses(status: u16)
    ensures
        success(status) <==> status as int / 100 == 2,
{
}

/// What is made of a status.
pub open spec fn let_through(status: u16) -> Result<(), HttpError> {
    if success(status) {
        Ok(())
    } else {
        Err(HttpError::Status(status))
    }
}

/// A response that did not succeed is refused with the status that it had.
pub proof fn law_refused_with_its_status(status: u16)
    ensures
        200 <= status <= 299 ==> let_through(status) is Ok,
        !(200 <= status <= 299) ==> let_through(status) == Err::<(), HttpError>(
            HttpError::Status(status),
        ),
{
}

/// Let a successful response through.
pub fn connect(status: u16) -> (r: Result<(), HttpError>)
    ensures
        r == let_through(status),
{
    if 200 <= status && status < 300 {
        Ok(())
    } else {
        Err(HttpError::Status(status))
    }
}

/// `String::from_utf8`: the text that bytes encode, if they are valid UTF-8.
#[verifier::external_body]
fn text_from_utf8(bytes: Vec<u8>) -> (r: Option<String>)
    ensures
        r is Some <==> valid_utf8(bytes@),
        r matches Some(s) ==> s@ == decode_utf8(bytes@),
{
    String::from_utf8(bytes).ok()
}

/// The text in a complete body.
pub fn body_text(body: Vec<u8>) -> (r: Result<String, HttpError>)
    ensures
        match r {
            Ok(s) => valid_utf8(body@) && s@ == decode_utf8(body@),
            Err(e) => !valid_utf8(body@) && e is NotUtf8,
        },
{
    match text_from_utf8(body) {
        Some(s) => Ok(s),
        None => Err(HttpError::NotUtf8),
    }
}

/// A body being taken in.
pub struct Body {
    pub bytes: Vec<u8>,
    pub max_len: usize,
}

/// What comes of a read.
pub enum GetStep {
    /// Read on.
    More(Body),
    /// The body is complete.
    Done(String),
}

impl Body {
    /// Nothing taken in yet. `max_len` caps the amount of body we buffer to protect the limited
    /// RAM.
    pub fn new(max_len: usize) -> (b: Body)
        ensures
            b.bytes@ == Seq::<u8>::empty(),
            b.max_len == max_len,
    {
        Body { bytes: Vec::new(), max_len }
    }
}

/// A body with a chunk behind it, if that is not too long.
pub open spec fn with_chunk(bytes: Seq<u8>, chunk: Seq<u8>, max_len: nat) -> Option<Seq<u8>> {
    if bytes.len() + chunk.len() > max_len {
        None
    } else {
        Some(bytes + chunk)
    }
}

/// What comes of a read: more, or at the end of the body its text.
pub open spec fn got(body: Body, chunk: Seq<u8>, r: Result<GetStep, HttpError>) -> bool {
    if chunk.len() == 0 {
        if valid_utf8(body.bytes@) {
            r matches Ok(GetStep::Done(s)) && s@ == decode_utf8(body.bytes@)
        } else {
            r == Err::<GetStep, HttpError>(HttpError::NotUtf8)
        }
    } else {
        match with_chunk(body.bytes@, chunk, body.max_len as nat) {
            None => r == Err::<GetStep, HttpError>(HttpError::TooLong(body.max_len)),
            Some(bytes) => r matches Ok(GetStep::More(next)) && next.bytes@ == bytes && next.max_len
                == body.max_len,
        }
    }
}

/// A read that gives nothing ends the body, which is then the text that its bytes encode, if they
/// encode one. Any other read goes behind what was read before, if the body is then no longer than
/// allowed, and is otherwise refused for that length.
pub proof fn law_reads_make_up_the_body(
    body: Body,
    chunk: Seq<u8>,
    r: Result<GetStep, HttpError>,
)
    requires
        got(body, chunk, r),
    ensures
        (r matches Ok(GetStep::Done(_))) <==> chunk.len() == 0 && valid_utf8(body.bytes@),
        r matches Ok(GetStep::Done(s)) ==> s@ == decode_utf8(body.bytes@),
        (r matches Ok(GetStep::More(_))) <==> chunk.len() > 0 && body.bytes@.len() + chunk.len()
            <= body.max_len,
        r matches Ok(GetStep::More(next)) ==> next.bytes@ == body.bytes@ + chunk && next.max_len
            == body.max_len,
        r matches Err(e) ==> e == if chunk.len() == 0 {
            HttpError::NotUtf8
        } else {
            HttpError::TooLong(body.max_len)
        },
{
}

/// Take in what a read gave: a chunk of the body, or nothing at its end. Returns the body as text
/// when it is complete.
pub fn get(body: Body, chunk: &[u8]) -> (r: Result<GetStep, HttpError>)
    ensures
        got(body, chunk@, r),
{
    if chunk.len() == 0 {
        return match body_text(body.bytes) {
            Ok(s) => Ok(GetStep::Done(s)),
            Err(e) => Err(e),
        };
    }
    let max_len: usize = body.max_len;
    let mut bytes: Vec<u8> = body.bytes;
    let ghost before = bytes@;
    bytes.extend_from_slice(chunk);
    assert(bytes@ =~= before + chunk@);
    if bytes.len() > max_len {
        Err(HttpError::TooLong(max_len))
    } else {
        Ok(GetStep::More(Body { bytes, max_len }))
    }
}

/// Chunks one after the other.
pub open spec fn concat(chunks: Seq<Seq<u8>>) -> Seq<u8>
    decreases chunks.len(),
{
    if chunks.len() == 0 {
        Seq::empty()
    } else {
        concat(chunks.drop_last()) + chunks.last()
    }
}

/// The body after some chunks, if none of them made it too long.
pub open spec fn taken_in(chunks: Seq<Seq<u8>>, max_len: nat) -> Option<Seq<u8>>
    decreases chunks.len(),
{
    if chunks.len() == 0 {
        Some(Seq::empty())
    } else {
        match taken_in(chunks.drop_last(), max_len) {
            None => None,
            Some(b) => with_chunk(b, chunks.last(), max_len),
        }
    }
}

/// A body is taken in whole or not at all: it is its chunks one after the other if that is no
/// longer than allowed, and refused otherwise.
pub proof fn law_body_is_whole_or_refused(chunks: Seq<Seq<u8>>, max_len: nat)
    ensures
        taken_in(chunks, max_len) == if concat(chunks).len() <= max_len {
            Some(concat(chunks))
        } else {
            None
        },
    decreases chunks.len(),
{
    if chunks.len() > 0 {
        law_body_is_whole_or_refused(chunks.drop_last(), max_len);
    }
}

/// A body being copied.
#[derive(Debug, Clone, Copy, PartialEq, Eq, Structural)]
pub struct Copying {
    /// Bytes copied so far.
    pub written: usize,
    pub max_len: usize,
}

/// What comes of a read.
#[derive(Debug, Clone, Copy, PartialEq, Eq, Structural)]
pub enum CopyStep {
    /// Write the chunk and read on.
    Write(Copying),
    /// Flush: the body is complete, of so many bytes.
    Done(usize),
}

/// What to do with a read of `n` bytes of a body that is copied.
pub open spec fn copy_step(copying: Copying, n: usize) -> Result<CopyStep, HttpError> {
    if n == 0 {
        Ok(CopyStep::Done(copying.written))
    } else if copying.written + n > copying.max_len {
        Err(HttpError::TooLong(copying.max_len))
    } else {
        Ok(
            CopyStep::Write(
                Copying { written: (copying.written + n) as usize, max_len: copying.max_len },
            ),
        )
    }
}

/// What comes of reads of so many bytes, up to the first that ends the copy.
pub open spec fn copied(reads: Seq<usize>, max_len: usize) -> Result<CopyStep, HttpError>
    decreases reads.len(),
{
    if reads.len() == 0 {
        Ok(CopyStep::Write(Copying { written: 0, max_len }))
    } else {
        match copied(reads.drop_last(), max_len) {
            Ok(CopyStep::Write(c)) => copy_step(c, reads.last()),
            ended => ended,
        }
    }
}

/// How many bytes reads give together.
pub open spec fn total(reads: Seq<usize>) -> int
    decreases reads.len(),
{
    if reads.len() == 0 {
        0
    } else {
        total(reads.drop_last()) + reads.last()
    }
}

/// Copying goes on as long as the bytes read so far are no more than allowed and is refused
/// otherwise; at the end of the body it reports how many bytes were copied, which is all that were
/// read.
pub proof fn law_copy_is_whole_or_refused(reads: Seq<usize>, max_len: usize)
    requires
        forall|i: int| 0 <= i < reads.len() ==> (#[trigger] reads[i]) > 0,
    ensures
        total(reads) <= max_len ==> copied(reads, max_len) == Ok::<CopyStep, HttpError>(
            CopyStep::Write(Copying { written: total(reads) as usize, max_len }),
        ) && copied(reads.push(0), max_len) == Ok::<CopyStep, HttpError>(
            CopyStep::Done(total(reads) as usize),
        ),
        total(reads) > max_len ==> copied(reads, max_len) == Err::<CopyStep, HttpError>(
            HttpError::TooLong(max_len),
        ),
        total(reads) >= 0,
    decreases reads.len(),
{
    assert(reads.push(0).drop_last() =~= reads);
    assert(reads.push(0).last() == 0);
    if reads.len() > 0 {
        let before = reads.drop_last();
        assert forall|i: int| 0 <= i < before.len() implies (#[trigger] before[i]) > 0 by {
            assert(before[i] == reads[i]);
        }
        law_copy_is_whole_or_refused(before, max_len);
        assert(reads[reads.len() - 1] > 0);
    }
}

/// Decide on a read of `n` bytes of a body that is streamed and never accumulated: write them, or
/// finish at the end of the body. `max_len` caps the total number of bytes written.
pub fn get_to_writer(copying: Copying, n: usize) -> (r: Result<CopyStep, HttpError>)
    requires
        copying.written <= copying.max_len,
    ensures
        r == copy_step(copying, n),
{
    if n == 0 {
        return Ok(CopyStep::Done(copying.written));
    }
    if n > copying.max_len - copying.written {
        return Err(HttpError::TooLong(copying.max_len));
    }
    Ok(CopyStep::Write(Copying { written: copying.written + n, max_len: copying.max_len }))
}

} // verus!
