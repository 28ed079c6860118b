//! The image data chunks as one run of bytes.

use vstd::prelude::*;

use crate::png_stream::decoder::{
    body, body_end, first_body, least, piece_len, piece_span, Body, BodyEnd, IN_CHUNK,
};
use crate::png_stream::header::{chunk_kind, chunk_len};
use crate::png_stream::inflate::{pump, Stream};

verus! {

/// Image data in pieces.
#[verifier::ext_equal]
pub ghost struct Pieces {
    /// The pieces, in the order they are read.
    pub pieces: Seq<Seq<u8>>,
    /// The end chunk comes after them, rather than the end of the file.
    pub ended: bool,
}

/// The image data in `b`, read in pieces of at most `size` bytes. The first `remaining` bytes of
/// `b` are the rest of a chunk's payload.
pub open spec fn pieces(b: Seq<u8>, remaining: u32, size: int) -> Pieces
    decreases b.len(),
{
    if remaining == 0 {
        if b.len() < 8 {
            Pieces { pieces: Seq::empty(), ended: false }
        } else if chunk_kind(b) is Iend {
            Pieces { pieces: Seq::empty(), ended: true }
        } else if chunk_kind(b) is Idat && chunk_len(b) > 0 {
            pieces(b.skip(8), chunk_len(b), size)
        } else if b.len() < chunk_len(b) + 12 {
            Pieces { pieces: Seq::empty(), ended: false }
        } else {
            pieces(b.skip(chunk_len(b) + 12), 0, size)
        }
    } else {
        let n = least(size, remaining as int);
        let span = if remaining <= size {
            n + 4
        } else {
            n
        };
        if size <= 0 || b.len() < span {
            Pieces { pieces: Seq::empty(), ended: false }
        } else {
            let r = pieces(b.skip(span), (remaining - n) as u32, size);
            Pieces { pieces: seq![b.take(n)] + r.pieces, ended: r.ended }
        }
    }
}

/// Pieces joined, one after the other.
pub open spec fn joined(pieces: Seq<Seq<u8>>) -> Seq<u8>
    decreases pieces.len(),
{
    if pieces.len() == 0 {
        Seq::empty()
    } else {
        pieces[0] + joined(pieces.skip(1))
    }
}

/// The payloads of all image data chunks in `b` up to the end chunk, joined in file order,
/// whatever other chunks lie between them; of a chunk that the file ends in, what is there. The
/// first `remaining` bytes of `b` are the rest of a chunk's payload.
pub open spec fn payload(b: Seq<u8>, remaining: u32) -> Seq<u8>
    decreases b.len(), (if remaining == 0 {
        0int
    } else {
        1int
    }),
{
    if remaining > 0 {
        if b.len() < remaining + 4 {
            b.take(least(remaining as int, b.len() as int))
        } else {
            b.take(remaining as int) + payload(b.skip(remaining + 4), 0)
        }
    } else if b.len() < 8 || chunk_kind(b) is Iend {
        Seq::empty()
    } else if chunk_kind(b) is Idat && chunk_len(b) > 0 {
        payload(b.skip(8), chunk_len(b))
    } else if b.len() < chunk_len(b) + 12 {
        Seq::empty()
    } else {
        payload(b.skip(chunk_len(b) + 12), 0)
    }
}

/// The chunks in `b` are complete up to the end chunk. The first `remaining` bytes of `b` are the
/// rest of an image data chunk's payload.
pub open spec fn well_formed(b: Seq<u8>, remaining: u32) -> bool
    decreases b.len(), (if remaining == 0 {
        0int
    } else {
        1int
    }),
{
    if remaining > 0 {
        b.len() >= remaining + 4 && well_formed(b.skip(remaining + 4), 0)
    } else if b.len() < 8 {
        false
    } else if chunk_kind(b) is Iend {
        true
    } else if chunk_kind(b) is Idat && chunk_len(b) > 0 {
        well_formed(b.skip(8), chunk_len(b))
    } else {
        b.len() >= chunk_len(b) + 12 && well_formed(b.skip(chunk_len(b) + 12), 0)
    }
}

proof fn lemma_joined_front(x: Seq<u8>, rest: Seq<Seq<u8>>)
    ensures
        joined(seq![x] + rest) == x + joined(rest),
{
    assert((seq![x] + rest)[0] == x);
    assert((seq![x] + rest).skip(1) =~= rest);
}

/// The payload, split behind the first of a chunk's remaining bytes.
proof fn lemma_payload_split(b: Seq<u8>, remaining: u32, n: int)
    requires
        0 < n < remaining,
        n <= b.len(),
    ensures
        payload(b, remaining) == b.take(n) + payload(b.skip(n), (remaining - n) as u32),
        well_formed(b, remaining) == well_formed(b.skip(n), (remaining - n) as u32),
{
    let rest = b.skip(n);
    let left = (remaining - n) as u32;
    if b.len() < remaining + 4 {
        assert(payload(b, remaining) =~= b.take(n) + payload(rest, left));
    } else {
        assert(rest.skip(left + 4) =~= b.skip(remaining + 4));
        assert(b.take(remaining as int) =~= b.take(n) + rest.take(left as int));
        assert(payload(b, remaining) =~= b.take(n) + payload(rest, left));
    }
}

/// The image data in `b`, read in pieces of which number `k` and those after it have at most
/// `size(k)`, `size(k + 1)` and so on bytes. The first `remaining` bytes of `b` are the rest of a
/// chunk's payload.
pub open spec fn pieces_by(
    b: Seq<u8>,
    remaining: u32,
    size: spec_fn(nat) -> nat,
    k: nat,
) -> Pieces
    decreases b.len(),
{
    if remaining == 0 {
        if b.len() < 8 {
            Pieces { pieces: Seq::empty(), ended: false }
        } else if chunk_kind(b) is Iend {
            Pieces { pieces: Seq::empty(), ended: true }
        } else if chunk_kind(b) is Idat && chunk_len(b) > 0 {
            pieces_by(b.skip(8), chunk_len(b), size, k)
        } else if b.len() < chunk_len(b) + 12 {
            Pieces { pieces: Seq::empty(), ended: false }
        } else {
            pieces_by(b.skip(chunk_len(b) + 12), 0, size, k)
        }
    } else {
        let n = least(size(k) as int, remaining as int);
        let span = if remaining <= size(k) {
            n + 4
        } else {
            n
        };
        if size(k) == 0 || b.len() < span {
            Pieces { pieces: Seq::empty(), ended: false }
        } else {
            let r = pieces_by(b.skip(span), (remaining - n) as u32, size, k + 1);
            Pieces { pieces: seq![b.take(n)] + r.pieces, ended: r.ended }
        }
    }
}

/// What read number `n` gives: a piece, nothing once the end chunk has been reached, and an error
/// where the file ends before it.
pub open spec fn nth_read(p: Pieces, n: nat) -> Option<Seq<u8>> {
    if n < p.pieces.len() {
        Some(p.pieces[n as int])
    } else if p.ended {
        Some(Seq::empty())
    } else {
        None
    }
}

proof fn lemma_pieces_by(b: Seq<u8>, remaining: u32, size: spec_fn(nat) -> nat, k: nat)
    requires
        forall|j: nat| #[trigger] size(j) > 0,
    ensures
        joined(pieces_by(b, remaining, size, k).pieces).is_prefix_of(payload(b, remaining)),
        pieces_by(b, remaining, size, k).ended == well_formed(b, remaining),
        well_formed(b, remaining) ==> joined(pieces_by(b, remaining, size, k).pieces) == payload(
            b,
            remaining,
        ),
        forall|j: nat|
            j < pieces_by(b, remaining, size, k).pieces.len() ==> 0 < (
            #[trigger] pieces_by(b, remaining, size, k).pieces[j as int]).len() <= size(k + j),
    decreases b.len(),
{
    if remaining == 0 {
        if b.len() >= 8 && !(chunk_kind(b) is Iend) {
            if chunk_kind(b) is Idat && chunk_len(b) > 0 {
                lemma_pieces_by(b.skip(8), chunk_len(b), size, k);
            } else if b.len() >= chunk_len(b) + 12 {
                lemma_pieces_by(b.skip(chunk_len(b) + 12), 0, size, k);
            }
        }
    } else {
        let n = least(size(k) as int, remaining as int);
        let span = if remaining <= size(k) {
            n + 4
        } else {
            n
        };
        if b.len() >= span {
            let left = (remaining - n) as u32;
            let r = pieces_by(b.skip(span), left, size, k + 1);
            lemma_pieces_by(b.skip(span), left, size, k + 1);
            lemma_joined_front(b.take(n), r.pieces);
            if left > 0 {
                lemma_payload_split(b, remaining, n);
            }
            let rest = payload(b.skip(span), left);
            let got = joined(r.pieces);
            assert(payload(b, remaining) == b.take(n) + rest);
            assert(got =~= rest.take(got.len() as int));
            assert(b.take(n) + got =~= (b.take(n) + rest).take((n + got.len()) as int));
            let all = pieces_by(b, remaining, size, k).pieces;
            assert forall|j: nat| j < all.len() implies 0 < (#[trigger] all[j as int]).len()
                <= size(k + j) by {
                if j > 0 {
                    let i = (j - 1) as nat;
                    assert(all[j as int] == r.pieces[i as int]);
                    assert(size(k + 1 + i) == size(k + j));
                }
            }
        }
    }
}

/// Whatever sizes image data is read in, each read another if need be, the pieces joined are the
/// payloads of the image data chunks joined. Where the chunks are complete up to the end chunk
/// every read succeeds, with no more than was asked for, all of the payload is read, and after it
/// every read gives nothing; otherwise the first of the payload is read.
pub proof fn law_any_sizes_make_up_the_payload(
    b: Seq<u8>,
    remaining: u32,
    size: spec_fn(nat) -> nat,
)
    requires
        forall|j: nat| #[trigger] size(j) > 0,
    ensures
        ({
            let p = pieces_by(b, remaining, size, 0);
            &&& joined(p.pieces).is_prefix_of(payload(b, remaining))
            &&& well_formed(b, remaining) ==> {
                &&& joined(p.pieces) == payload(b, remaining)
                &&& forall|n: nat|
                    {
                        &&& (#[trigger] nth_read(p, n)) is Some
                        &&& nth_read(p, n)->0.len() <= size(n)
                        &&& nth_read(p, n)->0.len() == 0 <==> n >= p.pieces.len()
                    }
            }
        }),
{
    let p = pieces_by(b, remaining, size, 0);
    lemma_pieces_by(b, remaining, size, 0);
    assert forall|n: nat| well_formed(b, remaining) implies ({
        &&& (#[trigger] nth_read(p, n)) is Some
        &&& nth_read(p, n)->0.len() <= size(n)
        &&& nth_read(p, n)->0.len() == 0 <==> n >= p.pieces.len()
    }) by {
        if n < p.pieces.len() {
            assert(0 < p.pieces[n as int].len() <= size(0 + n));
        }
    }
}

/// Reads of one size, from whichever read on, are reads of sizes that are all the same.
pub proof fn law_one_size_is_any_sizes(b: Seq<u8>, remaining: u32, size: int, k: nat)
    requires
        size > 0,
    ensures
        pieces(b, remaining, size) == pieces_by(b, remaining, |j: nat| size as nat, k),
    decreases b.len(),
{
    if remaining == 0 {
        if b.len() >= 8 && !(chunk_kind(b) is Iend) {
            if chunk_kind(b) is Idat && chunk_len(b) > 0 {
                law_one_size_is_any_sizes(b.skip(8), chunk_len(b), size, k);
            } else if b.len() >= chunk_len(b) + 12 {
                law_one_size_is_any_sizes(b.skip(chunk_len(b) + 12), 0, size, k);
            }
        }
    } else {
        let n = least(size, remaining as int);
        let span = if remaining <= size {
            n + 4
        } else {
            n
        };
        if b.len() >= span {
            law_one_size_is_any_sizes(b.skip(span), (remaining - n) as u32, size, k + 1);
        }
    }
}

/// However large the pieces are that image data is read in, the pieces joined are the payloads of
/// the image data chunks joined, as far as the file goes: all of them where the chunks are complete
/// up to the end chunk, and otherwise the first of them.
pub proof fn law_pieces_make_up_the_payload(b: Seq<u8>, remaining: u32, size: int)
    requires
        size > 0,
    ensures
        joined(pieces(b, remaining, size).pieces).is_prefix_of(payload(b, remaining)),
        pieces(b, remaining, size).ended == well_formed(b, remaining),
        well_formed(b, remaining) ==> joined(pieces(b, remaining, size).pieces) == payload(
            b,
            remaining,
        ),
        forall|k: int|
            0 <= k < pieces(b, remaining, size).pieces.len() ==> 0 < (
            #[trigger] pieces(b, remaining, size).pieces[k]).len() <= size,
{
    let sizes = |j: nat| size as nat;
    law_one_size_is_any_sizes(b, remaining, size, 0);
    lemma_pieces_by(b, remaining, sizes, 0);
    let all = pieces(b, remaining, size).pieces;
    assert forall|k: int| 0 <= k < all.len() implies 0 < (#[trigger] all[k]).len() <= size by {
        let j = k as nat;
        assert(0 < pieces_by(b, remaining, sizes, 0).pieces[j as int].len() <= sizes(0 + j));
    }
}

/// Chunk by chunk: of a complete image data chunk all of the payload counts, and then what comes
/// behind it; of a complete chunk of another kind nothing does, and what comes behind it still
/// counts; and behind the end chunk nothing does. Chunks are complete up to the end chunk if each
/// of them is, down to one.
pub proof fn law_payload_chunk_by_chunk(c: Seq<u8>, rest: Seq<u8>)
    requires
        c.len() >= 12,
        chunk_len(c) + 12 == c.len(),
    ensures
        chunk_kind(c) is Idat ==> payload(c + rest, 0) == c.subrange(8, c.len() - 4) + payload(
            rest,
            0,
        ),
        !(chunk_kind(c) is Idat) && !(chunk_kind(c) is Iend) ==> payload(c + rest, 0) == payload(
            rest,
            0,
        ),
        chunk_kind(c) is Iend ==> payload(c + rest, 0).len() == 0 && well_formed(c + rest, 0),
        !(chunk_kind(c) is Iend) ==> well_formed(c + rest, 0) == well_formed(rest, 0),
        payload(Seq::empty(), 0).len() == 0 && !well_formed(Seq::empty(), 0),
{
    let b = c + rest;
    let len = chunk_len(c);
    assert(b[0] == c[0] && b[1] == c[1] && b[2] == c[2] && b[3] == c[3]);
    assert(b[4] == c[4] && b[5] == c[5] && b[6] == c[6] && b[7] == c[7]);
    assert(chunk_len(b) == len && chunk_kind(b) == chunk_kind(c));
    assert(b.skip(len + 12) =~= rest);
    if chunk_kind(c) is Idat && len > 0 {
        let inner = b.skip(8);
        assert(inner.skip(len + 4) =~= rest);
        assert(inner.take(len as int) =~= c.subrange(8, c.len() - 4));
        assert(inner.len() >= len + 4);
        assert(payload(b, 0) == payload(inner, len));
        assert(well_formed(b, 0) == well_formed(inner, len));
    } else if chunk_kind(c) is Idat {
        assert(c.subrange(8, c.len() - 4) + payload(rest, 0) =~= payload(rest, 0));
    }
}

/// What is inflated from pieces of input, up to `need` bytes.
pub open spec fn inflated(stream: Stream, p: Pieces, need: nat) -> Body
    decreases p.pieces.len(),
{
    if p.pieces.len() == 0 {
        if p.ended {
            let last = pump(stream, Seq::empty(), true, need);
            Body { out: last.out, end: body_end(last.end) }
        } else {
            Body { out: Seq::empty(), end: BodyEnd::Starved }
        }
    } else {
        let first = pump(stream, p.pieces[0], false, need);
        if first.end is NeedInput {
            let r = inflated(
                first.stream,
                Pieces { pieces: p.pieces.skip(1), ended: p.ended },
                (need - first.out.len()) as nat,
            );
            Body { out: first.out + r.out, end: r.end }
        } else {
            Body { out: first.out, end: body_end(first.end) }
        }
    }
}

/// The image data is inflated from the pieces of the image data chunks' payloads, handed to the
/// inflater one after the other, and from nothing else in the file.
pub proof fn law_only_payload_is_inflated(
    stream: Stream,
    b: Seq<u8>,
    remaining: u32,
    need: nat,
)
    ensures
        body(stream, b, remaining, need) == inflated(
            stream,
            pieces(b, remaining, IN_CHUNK as int),
            need,
        ),
    decreases b.len(),
{
    let size = IN_CHUNK as int;
    if remaining == 0 {
        if b.len() >= 8 && !(chunk_kind(b) is Iend) {
            if chunk_kind(b) is Idat && chunk_len(b) > 0 {
                law_only_payload_is_inflated(stream, b.skip(8), chunk_len(b), need);
            } else if b.len() >= chunk_len(b) + 12 {
                law_only_payload_is_inflated(stream, b.skip(chunk_len(b) + 12), 0, need);
            }
        }
    } else if b.len() >= piece_span(remaining) {
        let n = piece_len(remaining);
        let left = (remaining - n) as u32;
        let rest = b.skip(piece_span(remaining));
        let p = pump(stream, b.take(n), false, need);
        let r = pieces(rest, left, size);
        let all = pieces(b, remaining, size).pieces;
        assert(all == seq![b.take(n)] + r.pieces);
        assert(all[0] == b.take(n));
        assert(all.skip(1) =~= r.pieces);
        if p.end is NeedInput {
            law_only_payload_is_inflated(p.stream, rest, left, (need - p.out.len()) as nat);
        }
    }
}

/// The pieces of image data from the start of the first image data chunk's payload, which has
/// `len` bytes.
pub open spec fn first_pieces(rest: Seq<u8>, len: u32, size: int) -> Pieces {
    if len > 0 {
        pieces(rest, len, size)
    } else if rest.len() < 4 {
        Pieces { pieces: Seq::empty(), ended: false }
    } else {
        pieces(rest.skip(4), 0, size)
    }
}

/// The first image data chunk is read like any other, though its length and kind were read with the
/// header.
pub proof fn law_first_chunk_is_like_any_other(start: Seq<u8>, rest: Seq<u8>, size: int)
    requires
        start.len() == 8,
        chunk_kind(start) is Idat,
    ensures
        first_pieces(rest, chunk_len(start), size) == pieces(start + rest, 0, size),
{
    let b = start + rest;
    assert(b[0] == start[0] && b[1] == start[1] && b[2] == start[2] && b[3] == start[3]);
    assert(b[4] == start[4] && b[5] == start[5] && b[6] == start[6] && b[7] == start[7]);
    assert(chunk_len(b) == chunk_len(start) && chunk_kind(b) is Idat);
    assert(b.skip(8) =~= rest);
    if chunk_len(start) == 0 && rest.len() >= 4 {
        assert(b.skip(12) =~= rest.skip(4));
    }
}

/// The image data of a file, from the start of its first chunk on, is inflated from the pieces of
/// the chunks' payloads alone.
pub proof fn law_image_is_inflated_from_payload(
    window: Seq<u8>,
    rest: Seq<u8>,
    len: u32,
    need: nat,
)
    ensures
        first_body(window, rest, len, need) == inflated(
            Stream::fresh(window),
            first_pieces(rest, len, IN_CHUNK as int),
            need,
        ),
{
    if len > 0 {
        law_only_payload_is_inflated(Stream::fresh(window), rest, len, need);
    } else if rest.len() >= 4 {
        law_only_payload_is_inflated(Stream::fresh(window), rest.skip(4), 0, need);
    }
}

} // verus!
