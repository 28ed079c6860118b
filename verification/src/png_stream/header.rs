//! The chunks before the image data.

use vstd::prelude::*;

use crate::png_stream::error::PngError;
use crate::png_stream::format::{
    color_type, depth_declared, depth_supported, ColorType, Format, FormatModel,
};

verus! {

/// The eight bytes every PNG begins with.
pub open spec fn signature() -> Seq<u8> {
    seq![0x89u8, 0x50, 0x4e, 0x47, 0x0d, 0x0a, 0x1a, 0x0a]
}

/// The big-endian number in the four bytes at `i`.
pub open spec fn be32(b: Seq<u8>, i: int) -> u32 {
    (b[i] * 0x100_0000 + b[i + 1] * 0x1_0000 + b[i + 2] * 0x100 + b[i + 3]) as u32
}

/// The big-endian number in the four bytes at `i`.
pub fn read_be32(b: &[u8], i: usize) -> (n: u32)
    requires
        i + 4 <= b@.len(),
    ensures
        n == be32(b@, i as int),
{
    b[i] as u32 * 0x100_0000 + b[i + 1] as u32 * 0x1_0000 + b[i + 2] as u32 * 0x100 + b[i
        + 3] as u32
}

/// The chunks that matter here.
#[derive(Debug, Clone, Copy, PartialEq, Eq, Structural)]
pub enum Kind {
    Ihdr,
    Plte,
    Trns,
    Idat,
    Iend,
    Other,
}

/// The kind that the four letters stand for.
pub open spec fn kind_of(a: u8, b: u8, c: u8, d: u8) -> Kind {
    if (a, b, c, d) == (0x49u8, 0x48u8, 0x44u8, 0x52u8) {
        Kind::Ihdr
    } else if (a, b, c, d) == (0x50u8, 0x4cu8, 0x54u8, 0x45u8) {
        Kind::Plte
    } else if (a, b, c, d) == (0x74u8, 0x52u8, 0x4eu8, 0x53u8) {
        Kind::Trns
    } else if (a, b, c, d) == (0x49u8, 0x44u8, 0x41u8, 0x54u8) {
        Kind::Idat
    } else if (a, b, c, d) == (0x49u8, 0x45u8, 0x4eu8, 0x44u8) {
        Kind::Iend
    } else {
        Kind::Other
    }
}

/// The kind of the chunk whose length field is at the front of `b`.
pub open spec fn chunk_kind(b: Seq<u8>) -> Kind {
    kind_of(b[4], b[5], b[6], b[7])
}

/// The payload length of the chunk whose length field is at the front of `b`.
pub open spec fn chunk_len(b: Seq<u8>) -> u32 {
    be32(b, 0)
}

/// A chunk begins with the length of its payload, the highest byte first, and four letters that say
/// what it is for.
pub proof fn law_chunks_begin_with_length_and_letters(b: Seq<u8>)
    ensures
        chunk_len(b) == ((b[0] * 256 + b[1]) * 256 + b[2]) * 256 + b[3],
        chunk_kind(b) is Ihdr <==> b[4] == 'I' as int && b[5] == 'H' as int && b[6] == 'D' as int
            && b[7] == 'R' as int,
        chunk_kind(b) is Plte <==> b[4] == 'P' as int && b[5] == 'L' as int && b[6] == 'T' as int
            && b[7] == 'E' as int,
        chunk_kind(b) is Trns <==> b[4] == 't' as int && b[5] == 'R' as int && b[6] == 'N' as int
            && b[7] == 'S' as int,
        chunk_kind(b) is Idat <==> b[4] == 'I' as int && b[5] == 'D' as int && b[6] == 'A' as int
            && b[7] == 'T' as int,
        chunk_kind(b) is Iend <==> b[4] == 'I' as int && b[5] == 'E' as int && b[6] == 'N' as int
            && b[7] == 'D' as int,
{
}

/// Read the length and the kind at the front of a chunk.
pub fn read_chunk_start(b: &[u8]) -> (r: (u32, Kind))
    requires
        b@.len() >= 8,
    ensures
        r.0 == chunk_len(b@),
        r.1 == chunk_kind(b@),
{
    let kind = match (b[4], b[5], b[6], b[7]) {
        (0x49, 0x48, 0x44, 0x52) => Kind::Ihdr,
        (0x50, 0x4c, 0x54, 0x45) => Kind::Plte,
        (0x74, 0x52, 0x4e, 0x53) => Kind::Trns,
        (0x49, 0x44, 0x41, 0x54) => Kind::Idat,
        (0x49, 0x45, 0x4e, 0x44) => Kind::Iend,
        _ => Kind::Other,
    };
    (read_be32(b, 0), kind)
}

/// What the metadata chunks have said so far.
#[verifier::ext_equal]
pub ghost struct Meta {
    pub width: u32,
    pub height: u32,
    pub format: Option<(ColorType, u8)>,
    pub palette: Seq<u8>,
    pub transparency: Seq<u8>,
}

impl Meta {
    /// Nothing has been said.
    pub open spec fn blank() -> Meta {
        Meta {
            width: 0,
            height: 0,
            format: None,
            palette: Seq::empty(),
            transparency: Seq::empty(),
        }
    }

    /// A header chunk that was accepted describes a non-empty image of a supported format.
    pub open spec fn valid(self) -> bool {
        self.format matches Some(f) ==> self.width > 0 && self.height > 0 && depth_supported(
            f.0,
            f.1,
        )
    }
}

/// The meaning of the thirteen bytes of a header chunk: width, height, colour type and depth.
pub open spec fn header_fields(b: Seq<u8>) -> Result<(u32, u32, ColorType, u8), PngError> {
    match color_type(b[9]) {
        None => Err(PngError::UnsupportedColorType(b[9])),
        Some(color) => {
            if b[12] != 0 {
                Err(PngError::Interlaced)
            } else if !depth_declared(color, b[8]) {
                Err(PngError::UnsupportedDepth(b[8], color))
            } else if be32(b, 0) == 0 || be32(b, 4) == 0 {
                Err(PngError::EmptyImage)
            } else {
                Ok((be32(b, 0), be32(b, 4), color, b[8]))
            }
        },
    }
}

/// A header chunk has the width, the height, the depth, the colour type, two bytes that do not
/// matter and whether the image is interlaced. It is accepted if and only if the colour type is
/// known, the image is not interlaced, the depth goes with the colour type and there are pixels; of
/// several reasons against it the first in this order counts.
pub proof fn law_header_fields(b: Seq<u8>)
    requires
        b.len() == 13,
    ensures
        ({
            let width = ((b[0] * 256 + b[1]) * 256 + b[2]) * 256 + b[3];
            let height = ((b[4] * 256 + b[5]) * 256 + b[6]) * 256 + b[7];
            let known = b[9] == 0 || b[9] == 2 || b[9] == 3 || b[9] == 4 || b[9] == 6;
            let fitting = b[8] == 8 || (b[9] == 3 && (b[8] == 1 || b[8] == 2 || b[8] == 4));
            let r = header_fields(b);
            &&& r is Ok <==> known && b[12] == 0 && fitting && width > 0 && height > 0
            &&& r matches Ok((w, h, color, depth)) ==> w == width && h == height && depth == b[8]
                && color_type(b[9]) == Some(color)
            &&& !known <==> r == Err::<(u32, u32, ColorType, u8), _>(
                PngError::UnsupportedColorType(b[9]),
            )
            &&& known && b[12] != 0 <==> r == Err::<(u32, u32, ColorType, u8), _>(
                PngError::Interlaced,
            )
            &&& known && b[12] == 0 && !fitting ==> r == Err::<(u32, u32, ColorType, u8), _>(
                PngError::UnsupportedDepth(b[8], color_type(b[9])->0),
            )
            &&& known && b[12] == 0 && fitting && (width == 0 || height == 0) <==> r == Err::<
                (u32, u32, ColorType, u8),
                _,
            >(PngError::EmptyImage)
        }),
{
}

/// What reading the chunks before the image data comes to.
#[verifier::ext_equal]
pub ghost enum HeaderOutcome {
    /// The bytes end too early.
    Short,
    /// The image cannot be read.
    Bad(PngError),
    /// The first image data chunk begins: its payload length, and the bytes from there on.
    Found { width: u32, height: u32, format: FormatModel, len: u32, rest: Seq<u8> },
}

/// Walk the chunks at the front of `b`, each a length, a kind, a payload and a checksum, up to the
/// first image data.
pub open spec fn walk(b: Seq<u8>, m: Meta) -> HeaderOutcome
    decreases b.len(),
{
    if b.len() < 8 {
        HeaderOutcome::Short
    } else {
        let len = chunk_len(b);
        match chunk_kind(b) {
            Kind::Ihdr => if len != 13 {
                HeaderOutcome::Bad(PngError::MalformedIhdr)
            } else if b.len() < 25 {
                HeaderOutcome::Short
            } else {
                match header_fields(b.subrange(8, 21)) {
                    Err(e) => HeaderOutcome::Bad(e),
                    Ok((width, height, color, depth)) => walk(
                        b.skip(25),
                        Meta { width, height, format: Some((color, depth)), ..m },
                    ),
                }
            },
            Kind::Plte => if b.len() < len + 12 {
                HeaderOutcome::Short
            } else {
                walk(b.skip(len + 12), Meta { palette: b.subrange(8, 8 + len), ..m })
            },
            Kind::Trns => if b.len() < len + 12 {
                HeaderOutcome::Short
            } else {
                walk(b.skip(len + 12), Meta { transparency: b.subrange(8, 8 + len), ..m })
            },
            Kind::Idat => match m.format {
                None => HeaderOutcome::Bad(PngError::MissingIhdr),
                Some((color, depth)) => if color is Indexed && m.palette.len() == 0 {
                    HeaderOutcome::Bad(PngError::MissingPalette)
                } else {
                    HeaderOutcome::Found {
                        width: m.width,
                        height: m.height,
                        format: FormatModel {
                            color,
                            depth,
                            palette: m.palette,
                            transparency: m.transparency,
                        },
                        len,
                        rest: b.skip(8),
                    }
                },
            },
            Kind::Iend => HeaderOutcome::Bad(PngError::NoImageData),
            Kind::Other => if b.len() < len + 12 {
                HeaderOutcome::Short
            } else {
                walk(b.skip(len + 12), m)
            },
        }
    }
}

/// What the chunks before the image data of a whole file come to.
pub open spec fn header_of(b: Seq<u8>) -> HeaderOutcome {
    if b.len() < 8 {
        HeaderOutcome::Short
    } else if b.take(8) != signature() {
        HeaderOutcome::Bad(PngError::NotPng)
    } else {
        walk(b.skip(8), Meta::blank())
    }
}

/// A file begins with the eight bytes of the signature, or it is no PNG. Behind it a header has to
/// come before image data, of its fixed length, and image data before the end.
pub proof fn law_files_begin_with_signature_and_header(b: Seq<u8>)
    requires
        b.len() >= 16,
    ensures
        ({
            let signed = b[0] == 137 && b[1] == 'P' as int && b[2] == 'N' as int && b[3] == 'G' as int
                && b[4] == 13 && b[5] == 10 && b[6] == 26 && b[7] == 10;
            let kind = chunk_kind(b.skip(8));
            &&& !signed ==> header_of(b) == HeaderOutcome::Bad(PngError::NotPng)
            &&& signed && kind is Idat ==> header_of(b) == HeaderOutcome::Bad(PngError::MissingIhdr)
            &&& signed && kind is Iend ==> header_of(b) == HeaderOutcome::Bad(PngError::NoImageData)
            &&& signed && kind is Ihdr && chunk_len(b.skip(8)) != 13 ==> header_of(b)
                == HeaderOutcome::Bad(PngError::MalformedIhdr)
        }),
{
    let signed = b[0] == 137 && b[1] == 0x50 && b[2] == 0x4e && b[3] == 0x47 && b[4] == 13 && b[5]
        == 10 && b[6] == 26 && b[7] == 10;
    if signed {
        assert(b.take(8) =~= signature());
    } else {
        let s = signature();
        let t = b.take(8);
        assert(s[0] == 137 && s[1] == 0x50 && s[2] == 0x4e && s[3] == 0x47 && s[4] == 13 && s[5]
            == 10 && s[6] == 26 && s[7] == 10);
        assert(t[0] == b[0] && t[1] == b[1] && t[2] == b[2] && t[3] == b[3] && t[4] == b[4] && t[5]
            == b[5] && t[6] == b[6] && t[7] == b[7]);
        assert(t != s);
    }
}

/// A file of nothing but a header chunk before its image data has the dimensions and the format
/// that the header declares, if it is accepted, and the image data begins right behind the letters
/// of its chunk; a palette is missing if the image is to have one.
pub proof fn law_plain_file(h: Seq<u8>, sum: Seq<u8>, post: Seq<u8>)
    requires
        h.len() == 13,
        sum.len() == 4,
        post.len() >= 8,
        chunk_kind(post) is Idat,
    ensures
        ({
            let start = seq![0u8, 0, 0, 13, 0x49, 0x48, 0x44, 0x52];
            header_of(signature() + start + h + sum + post) == match header_fields(h) {
                Err(e) => HeaderOutcome::Bad(e),
                Ok((width, height, color, depth)) => if color is Indexed {
                    HeaderOutcome::Bad(PngError::MissingPalette)
                } else {
                    HeaderOutcome::Found {
                        width,
                        height,
                        format: FormatModel {
                            color,
                            depth,
                            palette: Seq::empty(),
                            transparency: Seq::empty(),
                        },
                        len: chunk_len(post),
                        rest: post.skip(8),
                    }
                },
            }
        }),
{
    let start = seq![0u8, 0, 0, 13, 0x49, 0x48, 0x44, 0x52];
    let file = signature() + start + h + sum + post;
    assert(file.take(8) =~= signature());
    assert(file.skip(8) =~= start + h + sum + post);
    lemma_walk_ihdr(h, sum, post, Meta::blank());
}

/// With a palette and a list of opacities between header and image data, whatever their lengths,
/// the image has these as they are. An image that is to have a palette needs one that is not empty.
pub proof fn law_file_with_palette(
    h: Seq<u8>,
    sum: Seq<u8>,
    plte: Seq<u8>,
    trns: Seq<u8>,
    post: Seq<u8>,
)
    requires
        h.len() == 13,
        sum.len() == 4,
        plte.len() >= 12,
        chunk_kind(plte) is Plte,
        chunk_len(plte) + 12 == plte.len(),
        trns.len() >= 12,
        chunk_kind(trns) is Trns,
        chunk_len(trns) + 12 == trns.len(),
        post.len() >= 8,
        chunk_kind(post) is Idat,
    ensures
        ({
            let start = seq![0u8, 0, 0, 13, 0x49, 0x48, 0x44, 0x52];
            header_of(signature() + start + h + sum + plte + trns + post) == match header_fields(
                h,
            ) {
                Err(e) => HeaderOutcome::Bad(e),
                Ok((width, height, color, depth)) => if color is Indexed && plte.len() == 12 {
                    HeaderOutcome::Bad(PngError::MissingPalette)
                } else {
                    HeaderOutcome::Found {
                        width,
                        height,
                        format: FormatModel {
                            color,
                            depth,
                            palette: plte.subrange(8, plte.len() - 4),
                            transparency: trns.subrange(8, trns.len() - 4),
                        },
                        len: chunk_len(post),
                        rest: post.skip(8),
                    }
                },
            }
        }),
{
    let start = seq![0u8, 0, 0, 13, 0x49, 0x48, 0x44, 0x52];
    let file = signature() + start + h + sum + plte + trns + post;
    let behind = plte + (trns + post);
    assert(file.take(8) =~= signature());
    assert(file.skip(8) =~= start + h + sum + behind);
    lemma_walk_ihdr(h, sum, behind, Meta::blank());
    if let Ok((width, height, color, depth)) = header_fields(h) {
        let m = Meta { width, height, format: Some((color, depth)), ..Meta::blank() };
        let m1 = Meta { palette: plte.subrange(8, plte.len() - 4), ..m };
        lemma_walk_plte(plte, trns + post, m);
        lemma_walk_trns(trns, post, m1);
    }
}

proof fn lemma_walk_ihdr(h: Seq<u8>, sum: Seq<u8>, behind: Seq<u8>, m: Meta)
    requires
        h.len() == 13,
        sum.len() == 4,
    ensures
        walk(seq![0u8, 0, 0, 13, 0x49, 0x48, 0x44, 0x52] + h + sum + behind, m)
            == match header_fields(h) {
            Err(e) => HeaderOutcome::Bad(e),
            Ok((width, height, color, depth)) => walk(
                behind,
                Meta { width, height, format: Some((color, depth)), ..m },
            ),
        },
{
    let start = seq![0u8, 0, 0, 13, 0x49, 0x48, 0x44, 0x52];
    let b = start + h + sum + behind;
    assert(b[0] == 0 && b[1] == 0 && b[2] == 0 && b[3] == 13);
    assert(b[4] == 0x49 && b[5] == 0x48 && b[6] == 0x44 && b[7] == 0x52);
    assert(chunk_len(b) == 13);
    assert(chunk_kind(b) is Ihdr);
    assert(b.subrange(8, 21) =~= h);
    assert(b.skip(25) =~= behind);
}

proof fn lemma_walk_plte(c: Seq<u8>, behind: Seq<u8>, m: Meta)
    requires
        c.len() >= 12,
        chunk_kind(c) is Plte,
        chunk_len(c) + 12 == c.len(),
    ensures
        walk(c + behind, m) == walk(behind, Meta { palette: c.subrange(8, c.len() - 4), ..m }),
{
    lemma_front_chunk(c, behind);
    assert(c.skip(chunk_len(c) + 12) + behind =~= behind);
}

proof fn lemma_walk_trns(c: Seq<u8>, behind: Seq<u8>, m: Meta)
    requires
        c.len() >= 12,
        chunk_kind(c) is Trns,
        chunk_len(c) + 12 == c.len(),
    ensures
        walk(c + behind, m) == walk(behind, Meta { transparency: c.subrange(8, c.len() - 4), ..m }),
{
    lemma_front_chunk(c, behind);
    assert(c.skip(chunk_len(c) + 12) + behind =~= behind);
}

proof fn lemma_truncated(b: Seq<u8>, m: Meta, k: int)
    requires
        walk(b, m) is Found,
        0 <= k < b.len() - (walk(b, m)->rest).len(),
    ensures
        walk(b.take(k), m) is Short,
        (walk(b, m)->rest).len() <= b.len() - 8,
    decreases b.len(),
{
    let t = b.take(k);
    if k >= 8 {
        assert(t[0] == b[0] && t[1] == b[1] && t[2] == b[2] && t[3] == b[3]);
        assert(t[4] == b[4] && t[5] == b[5] && t[6] == b[6] && t[7] == b[7]);
        assert(chunk_len(t) == chunk_len(b) && chunk_kind(t) == chunk_kind(b));
    }
    let len = chunk_len(b);
    match chunk_kind(b) {
        Kind::Ihdr => {
            let (width, height, color, depth) = header_fields(b.subrange(8, 21))->Ok_0;
            let next = Meta { width, height, format: Some((color, depth)), ..m };
            lemma_truncated_rest(b.skip(25), next);
            if k >= 25 {
                assert(t.subrange(8, 21) =~= b.subrange(8, 21));
                assert(t.skip(25) =~= b.skip(25).take(k - 25));
                lemma_truncated(b.skip(25), next, k - 25);
            }
        },
        Kind::Plte => {
            let next = Meta { palette: b.subrange(8, 8 + len), ..m };
            lemma_truncated_rest(b.skip(len + 12), next);
            if k >= len + 12 {
                assert(t.subrange(8, 8 + len) =~= b.subrange(8, 8 + len));
                assert(t.skip(len + 12) =~= b.skip(len + 12).take(k - (len + 12)));
                lemma_truncated(b.skip(len + 12), next, k - (len + 12));
            }
        },
        Kind::Trns => {
            let next = Meta { transparency: b.subrange(8, 8 + len), ..m };
            lemma_truncated_rest(b.skip(len + 12), next);
            if k >= len + 12 {
                assert(t.subrange(8, 8 + len) =~= b.subrange(8, 8 + len));
                assert(t.skip(len + 12) =~= b.skip(len + 12).take(k - (len + 12)));
                lemma_truncated(b.skip(len + 12), next, k - (len + 12));
            }
        },
        Kind::Idat => {},
        Kind::Iend => {},
        Kind::Other => {
            lemma_truncated_rest(b.skip(len + 12), m);
            if k >= len + 12 {
                assert(t.skip(len + 12) =~= b.skip(len + 12).take(k - (len + 12)));
                lemma_truncated(b.skip(len + 12), m, k - (len + 12));
            }
        },
    }
}

proof fn lemma_truncated_rest(b: Seq<u8>, m: Meta)
    requires
        walk(b, m) is Found,
    ensures
        (walk(b, m)->rest).len() <= b.len() - 8,
    decreases b.len(),
{
    if !(chunk_kind(b) is Idat) {
        let len = chunk_len(b);
        let next = match chunk_kind(b) {
            Kind::Ihdr => {
                let (width, height, color, depth) = header_fields(b.subrange(8, 21))->Ok_0;
                Meta { width, height, format: Some((color, depth)), ..m }
            },
            Kind::Plte => Meta { palette: b.subrange(8, 8 + len), ..m },
            Kind::Trns => Meta { transparency: b.subrange(8, 8 + len), ..m },
            _ => m,
        };
        lemma_truncated_rest(b.skip(len + 12), next);
    }
}

/// A file that ends anywhere before its first image data is too short, and nothing worse is said of
/// it.
pub proof fn law_truncated_header_is_short(b: Seq<u8>, k: int)
    requires
        header_of(b) is Found,
        0 <= k < b.len() - (header_of(b)->rest).len(),
    ensures
        header_of(b.take(k)) is Short,
{
    if k >= 8 {
        assert(b.take(k).take(8) =~= b.take(8));
        assert(b.take(k).skip(8) =~= b.skip(8).take(k - 8));
        lemma_truncated(b.skip(8), Meta::blank(), k - 8);
    }
}

/// The bytes are complete chunks, each a length, a kind, a payload and a checksum, and none of them
/// is image data.
pub open spec fn before_data(b: Seq<u8>) -> bool
    decreases b.len(),
{
    b.len() == 0 || {
        &&& b.len() >= 8
        &&& chunk_len(b) + 12 <= b.len()
        &&& !(chunk_kind(b) is Idat)
        &&& before_data(b.skip(chunk_len(b) + 12))
    }
}

/// The bytes are one complete chunk of a kind that does not matter here.
pub open spec fn is_other_chunk(c: Seq<u8>) -> bool {
    c.len() >= 12 && chunk_len(c) + 12 == c.len() && chunk_kind(c) is Other
}

/// The payload of the last chunk of a kind, or `otherwise` if there is none.
pub open spec fn last_payload(b: Seq<u8>, kind: Kind, otherwise: Seq<u8>) -> Seq<u8>
    decreases b.len(),
{
    if b.len() < 8 || chunk_len(b) + 12 > b.len() {
        otherwise
    } else {
        last_payload(
            b.skip(chunk_len(b) + 12),
            kind,
            if chunk_kind(b) == kind {
                b.subrange(8, 8 + chunk_len(b))
            } else {
                otherwise
            },
        )
    }
}

/// The chunk at the front of some bytes, whatever comes after it.
proof fn lemma_front_chunk(b: Seq<u8>, rest: Seq<u8>)
    requires
        b.len() >= 8,
        chunk_len(b) + 12 <= b.len(),
    ensures
        chunk_len(b + rest) == chunk_len(b),
        chunk_kind(b + rest) == chunk_kind(b),
        (b + rest).skip(chunk_len(b) + 12) == b.skip(chunk_len(b) + 12) + rest,
        (b + rest).subrange(8, 8 + chunk_len(b)) == b.subrange(8, 8 + chunk_len(b)),
{
    assert((b + rest).skip(chunk_len(b) + 12) =~= b.skip(chunk_len(b) + 12) + rest);
    assert((b + rest).subrange(8, 8 + chunk_len(b)) =~= b.subrange(8, 8 + chunk_len(b)));
}

proof fn lemma_walk_past(pre: Seq<u8>, c: Seq<u8>, post: Seq<u8>, m: Meta)
    requires
        before_data(pre),
        is_other_chunk(c),
    ensures
        walk(pre + (c + post), m) == walk(pre + post, m),
    decreases pre.len(),
{
    if pre.len() == 0 {
        assert(pre + (c + post) =~= c + post);
        assert(pre + post =~= post);
        lemma_front_chunk(c, post);
        assert(c.skip(chunk_len(c) + 12) + post =~= post);
    } else {
        let n = chunk_len(pre) + 12;
        lemma_front_chunk(pre, c + post);
        lemma_front_chunk(pre, post);
        let next = match chunk_kind(pre) {
            Kind::Ihdr => match header_fields(pre.subrange(8, 21)) {
                Ok((width, height, color, depth)) => Meta {
                    width,
                    height,
                    format: Some((color, depth)),
                    ..m
                },
                Err(_) => m,
            },
            Kind::Plte => Meta { palette: pre.subrange(8, 8 + chunk_len(pre)), ..m },
            Kind::Trns => Meta { transparency: pre.subrange(8, 8 + chunk_len(pre)), ..m },
            _ => m,
        };
        lemma_walk_past(pre.skip(n), c, post, next);
        if chunk_kind(pre) is Ihdr && chunk_len(pre) == 13 {
            assert((pre + (c + post)).subrange(8, 21) =~= pre.subrange(8, 21));
            assert((pre + post).subrange(8, 21) =~= pre.subrange(8, 21));
        }
    }
}

/// A complete chunk of any other kind before the image data changes nothing: the header is read
/// with the same result, and what is left to read after it is the same.
pub proof fn law_other_chunks_do_not_matter(pre: Seq<u8>, c: Seq<u8>, post: Seq<u8>)
    requires
        before_data(pre),
        is_other_chunk(c),
    ensures
        header_of(signature() + pre + c + post) == header_of(signature() + pre + post),
{
    let a = signature() + pre + c + post;
    let b = signature() + pre + post;
    assert(a.take(8) =~= signature());
    assert(b.take(8) =~= signature());
    assert(a.skip(8) =~= pre + (c + post));
    assert(b.skip(8) =~= pre + post);
    lemma_walk_past(pre, c, post, Meta::blank());
}

proof fn lemma_walk_payloads(pre: Seq<u8>, post: Seq<u8>, m: Meta)
    requires
        before_data(pre),
        post.len() >= 8,
        chunk_kind(post) is Idat,
        walk(pre + post, m) is Found,
    ensures
        walk(pre + post, m)->format.palette == last_payload(pre, Kind::Plte, m.palette),
        walk(pre + post, m)->format.transparency == last_payload(
            pre,
            Kind::Trns,
            m.transparency,
        ),
        walk(pre + post, m)->len == chunk_len(post),
        walk(pre + post, m)->rest == post.skip(8),
    decreases pre.len(),
{
    if pre.len() == 0 {
        assert(pre + post =~= post);
    } else {
        let n = chunk_len(pre) + 12;
        lemma_front_chunk(pre, post);
        let next = match chunk_kind(pre) {
            Kind::Ihdr => match header_fields(pre.subrange(8, 21)) {
                Ok((width, height, color, depth)) => Meta {
                    width,
                    height,
                    format: Some((color, depth)),
                    ..m
                },
                Err(_) => m,
            },
            Kind::Plte => Meta { palette: pre.subrange(8, 8 + chunk_len(pre)), ..m },
            Kind::Trns => Meta { transparency: pre.subrange(8, 8 + chunk_len(pre)), ..m },
            _ => m,
        };
        if chunk_kind(pre) is Ihdr && chunk_len(pre) == 13 {
            assert((pre + post).subrange(8, 21) =~= pre.subrange(8, 21));
        }
        assert(walk(pre + post, m) == walk(pre.skip(n) + post, next));
        lemma_walk_payloads(pre.skip(n), post, next);
    }
}

/// The palette is the payload of the last palette chunk before the image data, the transparency
/// that of the last transparency chunk, and either is empty if there is no such chunk.
pub proof fn law_last_palette_counts(pre: Seq<u8>, post: Seq<u8>)
    requires
        before_data(pre),
        post.len() >= 8,
        chunk_kind(post) is Idat,
        header_of(signature() + pre + post) is Found,
    ensures
        ({
            let h = header_of(signature() + pre + post);
            &&& h->format.palette == last_payload(pre, Kind::Plte, Seq::empty())
            &&& h->format.transparency == last_payload(pre, Kind::Trns, Seq::empty())
            &&& h->len == chunk_len(post)
            &&& h->rest == post.skip(8)
        }),
{
    let b = signature() + pre + post;
    assert(b.take(8) =~= signature());
    assert(b.skip(8) =~= pre + post);
    lemma_walk_payloads(pre, post, Meta::blank());
}

/// What the metadata chunks have said so far.
pub struct Metadata {
    width: u32,
    height: u32,
    format: Option<(ColorType, u8)>,
    palette: Vec<u8>,
    transparency: Vec<u8>,
}

impl View for Metadata {
    type V = Meta;

    closed spec fn view(&self) -> Meta {
        Meta {
            width: self.width,
            height: self.height,
            format: self.format,
            palette: self.palette@,
            transparency: self.transparency@,
        }
    }
}

/// Which bytes come next.
#[derive(Debug, Clone, Copy, PartialEq, Eq, Structural)]
pub enum HeaderStage {
    /// The signature.
    Signature,
    /// The length and kind of a chunk.
    ChunkStart,
    /// The header chunk's payload and checksum.
    Ihdr,
    /// The palette's payload.
    Palette(u32),
    /// The transparency's payload.
    Transparency(u32),
    /// Bytes that are passed over.
    Skip(u64),
}

/// Reads the leading metadata chunks, stopping at the first image data.
pub struct HeaderReader {
    stage: HeaderStage,
    meta: Metadata,
}

/// The image's header, and how long its first piece of image data is.
pub struct Header {
    pub width: u32,
    pub height: u32,
    pub format: Format,
    pub len: u32,
}

/// Where reading the header stands after a piece of it.
pub enum HeaderStep {
    More(HeaderReader),
    Found(Header),
}

/// Bytes passed over are read in pieces of at most this size.
pub const SKIP_CHUNK: usize = 64;

/// How many of `count` bytes to pass over next.
pub fn skip_piece(count: u64) -> (n: usize)
    ensures
        n == if count < SKIP_CHUNK as u64 {
            count as int
        } else {
            SKIP_CHUNK as int
        },
{
    if count < SKIP_CHUNK as u64 {
        count as usize
    } else {
        SKIP_CHUNK
    }
}

/// What taking in a piece does: whatever bytes come after it, the outcome of reading on stays what
/// it was before.
pub open spec fn header_step(
    before: HeaderReader,
    block: Seq<u8>,
    r: Result<HeaderStep, PngError>,
) -> bool {
    match r {
        Ok(HeaderStep::More(next)) => {
            &&& next.valid()
            &&& forall|rest: Seq<u8>| #[trigger] before.future(block + rest) == next.future(rest)
            &&& block.len() == 0 ==> next.wanted() > 0
        },
        Ok(HeaderStep::Found(h)) => {
            &&& h.format@.valid()
            &&& h.width > 0
            &&& h.height > 0
            &&& forall|rest: Seq<u8>| #[trigger]
                before.future(block + rest) == (HeaderOutcome::Found {
                    width: h.width,
                    height: h.height,
                    format: h.format@,
                    len: h.len,
                    rest,
                })
        },
        Err(e) => forall|rest: Seq<u8>| #[trigger]
            before.future(block + rest) == HeaderOutcome::Bad(e),
    }
}

impl HeaderReader {
    /// Which bytes come next.
    pub closed spec fn stage(&self) -> HeaderStage {
        self.stage
    }

    /// What has been said so far.
    pub closed spec fn meta(&self) -> Meta {
        self.meta@
    }

    /// What has been said so far makes sense, and skipping is in progress only while bytes are
    /// left to skip.
    pub open spec fn valid(&self) -> bool {
        self.meta().valid() && (self.stage() is Signature ==> self.meta() == Meta::blank()) && (
        self.stage() matches HeaderStage::Skip(n) ==> 0 < n <= u32::MAX
            + 4)
    }

    /// How many bytes the next piece has.
    pub open spec fn wanted(&self) -> nat {
        match self.stage() {
            HeaderStage::Signature => 8,
            HeaderStage::ChunkStart => 8,
            HeaderStage::Ihdr => 17,
            HeaderStage::Palette(n) => n as nat,
            HeaderStage::Transparency(n) => n as nat,
            HeaderStage::Skip(n) => if n < SKIP_CHUNK {
                n as nat
            } else {
                SKIP_CHUNK as nat
            },
        }
    }

    /// What reading comes to if `b` is all that is still to come.
    pub open spec fn future(&self, b: Seq<u8>) -> HeaderOutcome {
        match self.stage() {
            HeaderStage::Signature => header_of(b),
            HeaderStage::ChunkStart => walk(b, self.meta()),
            HeaderStage::Ihdr => if b.len() < 17 {
                HeaderOutcome::Short
            } else {
                match header_fields(b.take(13)) {
                    Err(e) => HeaderOutcome::Bad(e),
                    Ok((width, height, color, depth)) => walk(
                        b.skip(17),
                        Meta { width, height, format: Some((color, depth)), ..self.meta() },
                    ),
                }
            },
            HeaderStage::Palette(n) => if b.len() < n + 4 {
                HeaderOutcome::Short
            } else {
                walk(b.skip(n + 4), Meta { palette: b.take(n as int), ..self.meta() })
            },
            HeaderStage::Transparency(n) => if b.len() < n + 4 {
                HeaderOutcome::Short
            } else {
                walk(b.skip(n + 4), Meta { transparency: b.take(n as int), ..self.meta() })
            },
            HeaderStage::Skip(n) => if b.len() < n {
                HeaderOutcome::Short
            } else {
                walk(b.skip(n as int), self.meta())
            },
        }
    }

    /// A reader at the start of a file.
    pub fn new() -> (r: HeaderReader)
        ensures
            r.valid(),
            r.stage() is Signature,
            forall|b: Seq<u8>| #[trigger] r.future(b) == header_of(b),
    {
        HeaderReader {
            stage: HeaderStage::Signature,
            meta: Metadata {
                width: 0,
                height: 0,
                format: None,
                palette: Vec::new(),
                transparency: Vec::new(),
            },
        }
    }

    /// How many bytes to read next.
    pub fn want(&self) -> (n: usize)
        requires
            self.valid(),
        ensures
            n == self.wanted(),
    {
        match self.stage {
            HeaderStage::Signature | HeaderStage::ChunkStart => 8,
            HeaderStage::Ihdr => 17,
            HeaderStage::Palette(n) => n as usize,
            HeaderStage::Transparency(n) => n as usize,
            HeaderStage::Skip(n) => skip_piece(n),
        }
    }

    /// Take in the next piece.
    pub fn supply(self, block: &[u8]) -> (r: Result<HeaderStep, PngError>)
        requires
            self.valid(),
            block@.len() == self.wanted(),
        ensures
            header_step(self, block@, r),
    {
        match self.stage {
            HeaderStage::Signature => self.supply_signature(block),
            HeaderStage::ChunkStart => self.supply_chunk_start(block),
            HeaderStage::Ihdr => self.supply_ihdr(block),
            HeaderStage::Palette(n) => self.supply_palette(block),
            HeaderStage::Transparency(n) => self.supply_transparency(block),
            HeaderStage::Skip(n) => self.supply_skipped(n, block),
        }
    }

    fn supply_signature(self, block: &[u8]) -> (r: Result<HeaderStep, PngError>)
        requires
            self.valid(),
            self.stage() is Signature,
            self.meta() == Meta::blank(),
            block@.len() == 8,
        ensures
            header_step(self, block@, r),
    {
        proof {
            assert forall|rest: Seq<u8>| #[trigger]
                self.future(block@ + rest) == (if block@ == signature() {
                    walk(rest, Meta::blank())
                } else {
                    HeaderOutcome::Bad(PngError::NotPng)
                }) by {
                assert((block@ + rest).take(8) =~= block@);
                assert((block@ + rest).skip(8) =~= rest);
            }
        }
        if is_signature(block) {
            Ok(
                HeaderStep::More(
                    HeaderReader { stage: HeaderStage::ChunkStart, meta: self.meta },
                ),
            )
        } else {
            Err(PngError::NotPng)
        }
    }

    fn supply_ihdr(self, block: &[u8]) -> (r: Result<HeaderStep, PngError>)
        requires
            self.valid(),
            self.stage() is Ihdr,
            block@.len() == 17,
        ensures
            header_step(self, block@, r),
    {
        proof {
            assert forall|rest: Seq<u8>| #[trigger]
                self.future(block@ + rest) == (match header_fields(block@.take(13)) {
                    Err(e) => HeaderOutcome::Bad(e),
                    Ok((width, height, color, depth)) => walk(
                        rest,
                        Meta { width, height, format: Some((color, depth)), ..self.meta() },
                    ),
                }) by {
                assert((block@ + rest).take(13) =~= block@.take(13));
                assert((block@ + rest).skip(17) =~= rest);
            }
        }
        match read_header_fields(block) {
            Ok((width, height, color, depth)) => Ok(
                HeaderStep::More(
                    HeaderReader {
                        stage: HeaderStage::ChunkStart,
                        meta: Metadata {
                            width,
                            height,
                            format: Some((color, depth)),
                            palette: self.meta.palette,
                            transparency: self.meta.transparency,
                        },
                    },
                ),
            ),
            Err(e) => Err(e),
        }
    }

    fn supply_palette(self, block: &[u8]) -> (r: Result<HeaderStep, PngError>)
        requires
            self.valid(),
            self.stage() == HeaderStage::Palette(block@.len() as u32),
            block@.len() <= u32::MAX,
        ensures
            header_step(self, block@, r),
    {
        let palette: Vec<u8> = vstd::slice::slice_to_vec(block);
        let ghost before = self;
        let next = HeaderReader {
            stage: HeaderStage::Skip(4),
            meta: Metadata {
                width: self.meta.width,
                height: self.meta.height,
                format: self.meta.format,
                palette,
                transparency: self.meta.transparency,
            },
        };
        proof {
            assert forall|rest: Seq<u8>| #[trigger] before.future(block@ + rest) == next.future(
                rest,
            ) by {
                lemma_payload(block@, rest);
            }
        }
        Ok(HeaderStep::More(next))
    }

    fn supply_transparency(self, block: &[u8]) -> (r: Result<HeaderStep, PngError>)
        requires
            self.valid(),
            self.stage() == HeaderStage::Transparency(block@.len() as u32),
            block@.len() <= u32::MAX,
        ensures
            header_step(self, block@, r),
    {
        let transparency: Vec<u8> = vstd::slice::slice_to_vec(block);
        let ghost before = self;
        let next = HeaderReader {
            stage: HeaderStage::Skip(4),
            meta: Metadata {
                width: self.meta.width,
                height: self.meta.height,
                format: self.meta.format,
                palette: self.meta.palette,
                transparency,
            },
        };
        proof {
            assert forall|rest: Seq<u8>| #[trigger] before.future(block@ + rest) == next.future(
                rest,
            ) by {
                lemma_payload(block@, rest);
            }
        }
        Ok(HeaderStep::More(next))
    }

    fn supply_skipped(self, n: u64, block: &[u8]) -> (r: Result<HeaderStep, PngError>)
        requires
            self.valid(),
            self.stage() == HeaderStage::Skip(n),
            0 < block@.len() <= n,
        ensures
            header_step(self, block@, r),
    {
        let ghost before = self;
        let left: u64 = n - block.len() as u64;
        let next = HeaderReader {
            stage: if left == 0 {
                HeaderStage::ChunkStart
            } else {
                HeaderStage::Skip(left)
            },
            meta: self.meta,
        };
        proof {
            assert forall|rest: Seq<u8>| #[trigger] before.future(block@ + rest) == next.future(
                rest,
            ) by {
                if rest.len() >= left {
                    assert((block@ + rest).skip(n as int) =~= rest.skip(left as int));
                    assert(rest.skip(0) =~= rest);
                }
            }
        }
        Ok(HeaderStep::More(next))
    }

    fn supply_chunk_start(self, block: &[u8]) -> (r: Result<HeaderStep, PngError>)
        requires
            self.valid(),
            self.stage() is ChunkStart,
            block@.len() == 8,
        ensures
            header_step(self, block@, r),
    {
        let (len, kind) = read_chunk_start(block);
        let ghost before = self;
        let meta = self.meta;
        proof {
            assert forall|rest: Seq<u8>|
                before.future(#[trigger] (block@ + rest)) == after_start(len, kind, meta@, rest) by {
                lemma_after_start(block@, meta@, rest);
            }
        }
        match kind {
            Kind::Ihdr => {
                if len != 13 {
                    Err(PngError::MalformedIhdr)
                } else {
                    Ok(HeaderStep::More(HeaderReader { stage: HeaderStage::Ihdr, meta }))
                }
            },
            Kind::Plte => Ok(
                HeaderStep::More(HeaderReader { stage: HeaderStage::Palette(len), meta }),
            ),
            Kind::Trns => Ok(
                HeaderStep::More(HeaderReader { stage: HeaderStage::Transparency(len), meta }),
            ),
            Kind::Idat => {
                match meta.format {
                    None => Err(PngError::MissingIhdr),
                    Some((color, depth)) => {
                        if color == ColorType::Indexed && meta.palette.len() == 0 {
                            Err(PngError::MissingPalette)
                        } else {
                            Ok(
                                HeaderStep::Found(
                                    Header {
                                        width: meta.width,
                                        height: meta.height,
                                        format: Format {
                                            color,
                                            depth,
                                            palette: meta.palette,
                                            transparency: meta.transparency,
                                        },
                                        len,
                                    },
                                ),
                            )
                        }
                    },
                }
            },
            Kind::Iend => Err(PngError::NoImageData),
            Kind::Other => Ok(
                HeaderStep::More(
                    HeaderReader { stage: HeaderStage::Skip(len as u64 + 4), meta },
                ),
            ),
        }
    }
}

/// What the rest of the file comes to once the start of a chunk has been read.
spec fn after_start(len: u32, kind: Kind, m: Meta, rest: Seq<u8>) -> HeaderOutcome {
    match kind {
        Kind::Ihdr => if len != 13 {
            HeaderOutcome::Bad(PngError::MalformedIhdr)
        } else if rest.len() < 17 {
            HeaderOutcome::Short
        } else {
            match header_fields(rest.take(13)) {
                Err(e) => HeaderOutcome::Bad(e),
                Ok((width, height, color, depth)) => walk(
                    rest.skip(17),
                    Meta { width, height, format: Some((color, depth)), ..m },
                ),
            }
        },
        Kind::Plte => if rest.len() < len + 4 {
            HeaderOutcome::Short
        } else {
            walk(rest.skip(len + 4), Meta { palette: rest.take(len as int), ..m })
        },
        Kind::Trns => if rest.len() < len + 4 {
            HeaderOutcome::Short
        } else {
            walk(rest.skip(len + 4), Meta { transparency: rest.take(len as int), ..m })
        },
        Kind::Idat => match m.format {
            None => HeaderOutcome::Bad(PngError::MissingIhdr),
            Some((color, depth)) => if color is Indexed && m.palette.len() == 0 {
                HeaderOutcome::Bad(PngError::MissingPalette)
            } else {
                HeaderOutcome::Found {
                    width: m.width,
                    height: m.height,
                    format: FormatModel {
                        color,
                        depth,
                        palette: m.palette,
                        transparency: m.transparency,
                    },
                    len,
                    rest,
                }
            },
        },
        Kind::Iend => HeaderOutcome::Bad(PngError::NoImageData),
        Kind::Other => if rest.len() < len + 4 {
            HeaderOutcome::Short
        } else {
            walk(rest.skip(len + 4), m)
        },
    }
}

proof fn lemma_after_start(block: Seq<u8>, m: Meta, rest: Seq<u8>)
    requires
        block.len() == 8,
    ensures
        walk(block + rest, m) == after_start(chunk_len(block), chunk_kind(block), m, rest),
{
    let b = block + rest;
    let len = chunk_len(block);
    assert(chunk_len(b) == len);
    assert(chunk_kind(b) == chunk_kind(block));
    assert(b.skip(8) =~= rest);
    if rest.len() >= 17 {
        assert(b.subrange(8, 21) =~= rest.take(13));
        assert(b.skip(25) =~= rest.skip(17));
    }
    if rest.len() >= len + 4 {
        assert(b.subrange(8, 8 + len) =~= rest.take(len as int));
        assert(b.skip(len + 12) =~= rest.skip(len + 4));
    }
}

/// A payload followed by a checksum and more.
proof fn lemma_payload(block: Seq<u8>, rest: Seq<u8>)
    ensures
        rest.len() >= 4 ==> (block + rest).take(block.len() as int) == block && (block + rest).skip(
            block.len() as int + 4,
        ) == rest.skip(4),
{
    if rest.len() >= 4 {
        assert((block + rest).take(block.len() as int) =~= block);
        assert((block + rest).skip(block.len() as int + 4) =~= rest.skip(4));
    }
}

fn is_signature(b: &[u8]) -> (yes: bool)
    requires
        b@.len() == 8,
    ensures
        yes == (b@ == signature()),
{
    let yes = b[0] == 0x89 && b[1] == 0x50 && b[2] == 0x4e && b[3] == 0x47 && b[4] == 0x0d && b[5]
        == 0x0a && b[6] == 0x1a && b[7] == 0x0a;
    proof {
        if yes {
            assert(b@ =~= signature());
        }
    }
    yes
}

/// Read the fields of a header chunk.
fn read_header_fields(b: &[u8]) -> (r: Result<(u32, u32, ColorType, u8), PngError>)
    requires
        b@.len() >= 13,
    ensures
        r == header_fields(b@.take(13)),
{
    let width: u32 = read_be32(b, 0);
    let height: u32 = read_be32(b, 4);
    let depth: u8 = b[8];
    match ColorType::from_byte(b[9]) {
        Err(e) => Err(e),
        Ok(color) => {
            if b[12] != 0 {
                Err(PngError::Interlaced)
            } else if !color.accepts_depth(depth) {
                Err(PngError::UnsupportedDepth(depth, color))
            } else if width == 0 || height == 0 {
                Err(PngError::EmptyImage)
            } else {
                Ok((width, height, color, depth))
            }
        },
    }
}

} // verus!
