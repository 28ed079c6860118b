//! The five PNG scanline filters and their reversal.

use vstd::math::abs;
use vstd::prelude::*;

use crate::png_stream::error::PngError;

verus! {

/// How far apart two integers are.
pub open spec fn distance(a: int, b: int) -> int {
    if a >= b {
        a - b
    } else {
        b - a
    }
}

/// The Paeth predictor: whichever of left `a`, above `b` and upper-left `c` is nearest to
/// `a + b - c`, ties going to `a`, then `b`.
pub open spec fn paeth_spec(a: u8, b: u8, c: u8) -> u8 {
    let p = a + b - c;
    let pa = distance(p, a as int);
    let pb = distance(p, b as int);
    let pc = distance(p, c as int);
    if pa <= pb && pa <= pc {
        a
    } else if pb <= pc {
        b
    } else {
        c
    }
}

/// What a filter predicts for a byte from its left, above and upper-left neighbours.
pub open spec fn predicted(filter: u8, left: u8, above: u8, up_left: u8) -> u8 {
    match filter {
        1 => left,
        2 => above,
        3 => ((left + above) / 2) as u8,
        4 => paeth_spec(left, above, up_left),
        _ => 0,
    }
}

/// The neighbour `bpp` bytes before position `i`, zero where the line has not begun.
pub open spec fn look_back(line: Seq<u8>, bpp: int, i: int) -> u8 {
    if i >= bpp {
        line[i - bpp]
    } else {
        0
    }
}

/// The first `n` bytes of the scanline that `row` encodes under `filter`, where `prev` is the
/// scanline above it.
pub open spec fn unfiltered_prefix(
    filter: u8,
    bpp: int,
    row: Seq<u8>,
    prev: Seq<u8>,
    n: nat,
) -> Seq<u8>
    decreases n,
{
    if n == 0 {
        Seq::empty()
    } else {
        let i = n - 1;
        let done = unfiltered_prefix(filter, bpp, row, prev, i as nat);
        done.push(
            row[i].wrapping_add(
                predicted(filter, look_back(done, bpp, i), prev[i], look_back(prev, bpp, i)),
            ),
        )
    }
}

/// The scanline that `row` encodes under `filter`, where `prev` is the scanline above it.
pub open spec fn unfiltered(filter: u8, bpp: int, row: Seq<u8>, prev: Seq<u8>) -> Seq<u8> {
    unfiltered_prefix(filter, bpp, row, prev, row.len())
}

/// How an encoder writes `raw` under `filter`: every byte less its prediction.
pub open spec fn filtered(filter: u8, bpp: int, raw: Seq<u8>, prev: Seq<u8>) -> Seq<u8> {
    Seq::new(
        raw.len(),
        |i: int|
            raw[i].wrapping_sub(
                predicted(filter, look_back(raw, bpp, i), prev[i], look_back(prev, bpp, i)),
            ),
    )
}

proof fn lemma_prefix(filter: u8, bpp: int, row: Seq<u8>, prev: Seq<u8>, m: nat, n: nat)
    requires
        m <= n,
    ensures
        unfiltered_prefix(filter, bpp, row, prev, n).len() == n,
        unfiltered_prefix(filter, bpp, row, prev, n).take(m as int) =~= unfiltered_prefix(
            filter,
            bpp,
            row,
            prev,
            m,
        ),
    decreases n,
{
    if n > 0 {
        if m < n {
            lemma_prefix(filter, bpp, row, prev, m, (n - 1) as nat);
        } else {
            lemma_prefix(filter, bpp, row, prev, (n - 1) as nat, (n - 1) as nat);
        }
    }
}

/// Unfiltering keeps a scanline's length.
pub proof fn lemma_unfiltered_len(filter: u8, bpp: int, row: Seq<u8>, prev: Seq<u8>)
    ensures
        unfiltered(filter, bpp, row, prev).len() == row.len(),
{
    lemma_prefix(filter, bpp, row, prev, 0, row.len());
}

/// Every reconstructed byte is its encoded byte plus the prediction from the reconstructed
/// bytes around it, modulo 256.
pub proof fn law_unfiltered_byte(filter: u8, bpp: int, row: Seq<u8>, prev: Seq<u8>, i: int)
    requires
        0 < bpp,
        0 <= i < row.len(),
    ensures
        unfiltered(filter, bpp, row, prev)[i] == row[i].wrapping_add(
            predicted(
                filter,
                look_back(unfiltered(filter, bpp, row, prev), bpp, i),
                prev[i],
                look_back(prev, bpp, i),
            ),
        ),
{
    let whole = unfiltered(filter, bpp, row, prev);
    lemma_prefix(filter, bpp, row, prev, (i + 1) as nat, row.len());
    lemma_prefix(filter, bpp, row, prev, i as nat, row.len());
    let upto = unfiltered_prefix(filter, bpp, row, prev, (i + 1) as nat);
    let before = unfiltered_prefix(filter, bpp, row, prev, i as nat);
    assert(whole[i] == whole.take(i + 1)[i]);
    assert(upto[i] == upto.last());
    if i >= bpp {
        assert(whole.take(i)[i - bpp] == before[i - bpp]);
    }
}

/// The Paeth predictor gives one of left, above and upper-left, and none of the three is nearer to
/// left plus above less upper-left. Of two that are equally near, left comes before above, and
/// above before upper-left.
pub proof fn law_paeth_is_nearest(a: u8, b: u8, c: u8)
    ensures
        ({
            let r = paeth_spec(a, b, c);
            let p = a + b - c;
            &&& r == a || r == b || r == c
            &&& forall|x: u8|
                #![trigger abs(p - x)]
                x == a || x == b || x == c ==> abs(p - r) <= abs(p - x)
            &&& abs(p - a) == abs(p - r) ==> r == a
            &&& abs(p - b) == abs(p - r) && abs(p - a) > abs(p - r) ==> r == b
        }),
{
}

proof fn lemma_wrapped(a: u8, b: u8)
    ensures
        a.wrapping_add(b) == (a + b) % 256,
{
}

/// Bytes that no filter was applied to are the scanline; the filter that looks to the left adds the
/// reconstructed byte one pixel before, and zero at the start of the line; the one that looks up
/// adds the byte above: all modulo 256.
pub proof fn law_none_left_and_up(bpp: int, row: Seq<u8>, prev: Seq<u8>, i: int)
    requires
        0 < bpp,
        0 <= i < row.len(),
    ensures
        unfiltered(0, bpp, row, prev)[i] == row[i],
        i < bpp ==> unfiltered(1, bpp, row, prev)[i] == row[i],
        i >= bpp ==> unfiltered(1, bpp, row, prev)[i] == (row[i] + unfiltered(1, bpp, row, prev)[i
            - bpp]) % 256,
        unfiltered(2, bpp, row, prev)[i] == (row[i] + prev[i]) % 256,
{
    law_unfiltered_byte(0, bpp, row, prev, i);
    law_unfiltered_byte(1, bpp, row, prev, i);
    law_unfiltered_byte(2, bpp, row, prev, i);
    lemma_wrapped(row[i], 0);
    lemma_wrapped(row[i], look_back(unfiltered(1, bpp, row, prev), bpp, i));
    lemma_wrapped(row[i], prev[i]);
}

/// The averaging filter adds the mean of the reconstructed byte one pixel to the left and the byte
/// above, rounded down, modulo 256; at the start of the line zero stands to the left.
pub proof fn law_average(bpp: int, row: Seq<u8>, prev: Seq<u8>, i: int)
    requires
        0 < bpp,
        0 <= i < row.len(),
    ensures
        i < bpp ==> unfiltered(3, bpp, row, prev)[i] == (row[i] + prev[i] as int / 2) % 256,
        i >= bpp ==> unfiltered(3, bpp, row, prev)[i] == (row[i] + (unfiltered(
            3,
            bpp,
            row,
            prev,
        )[i - bpp] + prev[i]) / 2) % 256,
{
    law_unfiltered_byte(3, bpp, row, prev, i);
    let left = look_back(unfiltered(3, bpp, row, prev), bpp, i);
    lemma_wrapped(row[i], ((left + prev[i]) / 2) as u8);
}

/// The Paeth filter adds whichever of the reconstructed byte one pixel to the left, the byte above
/// and the byte above that one to the left is nearest to left plus above less upper-left, modulo
/// 256; at the start of the line that is the byte above.
pub proof fn law_paeth_filter(bpp: int, row: Seq<u8>, prev: Seq<u8>, i: int)
    requires
        0 < bpp,
        0 <= i < row.len(),
    ensures
        i < bpp ==> unfiltered(4, bpp, row, prev)[i] == (row[i] + prev[i]) % 256,
        i >= bpp ==> unfiltered(4, bpp, row, prev)[i] == (row[i] + paeth_spec(
            unfiltered(4, bpp, row, prev)[i - bpp],
            prev[i],
            prev[i - bpp],
        )) % 256,
{
    law_unfiltered_byte(4, bpp, row, prev, i);
    if i >= bpp {
        let g = paeth_spec(unfiltered(4, bpp, row, prev)[i - bpp], prev[i], prev[i - bpp]);
        lemma_wrapped(row[i], g);
    } else {
        law_paeth_is_nearest(0, prev[i], 0);
        lemma_wrapped(row[i], prev[i]);
    }
}

/// Unfiltering undoes filtering: whatever filter an encoder chose, the scanline comes back.
pub proof fn law_unfilter_undoes_filter(filter: u8, bpp: int, raw: Seq<u8>, prev: Seq<u8>)
    requires
        0 < bpp,
    ensures
        unfiltered(filter, bpp, filtered(filter, bpp, raw, prev), prev) == raw,
{
    let row = filtered(filter, bpp, raw, prev);
    lemma_undo(filter, bpp, raw, prev, row.len());
    assert(raw.take(row.len() as int) =~= raw);
}

proof fn lemma_undo(filter: u8, bpp: int, raw: Seq<u8>, prev: Seq<u8>, n: nat)
    requires
        0 < bpp,
        n <= raw.len(),
    ensures
        unfiltered_prefix(filter, bpp, filtered(filter, bpp, raw, prev), prev, n) =~= raw.take(
            n as int,
        ),
    decreases n,
{
    if n > 0 {
        let i = n - 1;
        lemma_undo(filter, bpp, raw, prev, i as nat);
        assert(raw.take(n as int) =~= raw.take(i).push(raw[i]));
        if i >= bpp {
            assert(raw.take(i)[i - bpp] == raw[i - bpp]);
        }
    }
}

/// The Paeth predictor of left `a`, above `b` and upper-left `c`.
pub fn paeth(a: u8, b: u8, c: u8) -> (r: u8)
    ensures
        r == paeth_spec(a, b, c),
{
    let p: i16 = a as i16 + b as i16 - c as i16;
    let pa: i16 = gap(p, a as i16);
    let pb: i16 = gap(p, b as i16);
    let pc: i16 = gap(p, c as i16);
    if pa <= pb && pa <= pc {
        a
    } else if pb <= pc {
        b
    } else {
        c
    }
}

fn gap(a: i16, b: i16) -> (r: i16)
    requires
        -1024 <= a <= 1024,
        -1024 <= b <= 1024,
    ensures
        r == distance(a as int, b as int),
{
    if a >= b {
        a - b
    } else {
        b - a
    }
}

/// Reverse one of the five PNG scanline filters, in place. An unknown filter leaves the row as
/// it was. The scanline above counts only for the filters that look at it, and only as far as the
/// row goes.
pub fn unfilter(filter: u8, bpp: usize, row: &mut [u8], prev: &[u8]) -> (result: Result<
    (),
    PngError,
>)
    requires
        0 < bpp,
        2 <= filter <= 4 ==> prev@.len() >= old(row)@.len(),
    ensures
        filter <= 4 ==> result is Ok && final(row)@ == unfiltered(
            filter,
            bpp as int,
            old(row)@,
            prev@,
        ),
        filter > 4 ==> result == Err::<(), PngError>(PngError::UnknownFilter(filter)),
        filter > 4 ==> final(row)@ == old(row)@,
{
    if filter > 4 {
        return Err(PngError::UnknownFilter(filter));
    }
    let ghost raw = row@;
    let n: usize = row.len();
    let mut i: usize = 0;
    while i < n
        invariant
            n == raw.len(),
            row@.len() == n,
            2 <= filter <= 4 ==> prev@.len() >= n,
            i <= n,
            0 < bpp,
            filter <= 4,
            row@.take(i as int) =~= unfiltered_prefix(filter, bpp as int, raw, prev@, i as nat),
            forall|k: int| i <= k < n ==> row@[k] == raw[k],
        decreases n - i,
    {
        let left: u8 = if i >= bpp {
            row[i - bpp]
        } else {
            0
        };
        let above: u8 = if filter >= 2 {
            prev[i]
        } else {
            0
        };
        let up_left: u8 = if filter >= 2 && i >= bpp {
            prev[i - bpp]
        } else {
            0
        };
        let ghost done = row@.take(i as int);
        assert(left == look_back(done, bpp as int, i as int));
        let guess: u8 = match filter {
            0 => 0,
            1 => left,
            2 => above,
            3 => ((left as u16 + above as u16) / 2) as u8,
            _ => paeth(left, above, up_left),
        };
        let value: u8 = row[i].wrapping_add(guess);
        row[i] = value;
        assert(row@.take(i + 1) =~= done.push(value));
        i = i + 1;
    }
    assert(row@.take(n as int) =~= row@);
    Ok(())
}

} // verus!
