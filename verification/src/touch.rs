//! The resistive touch controller: what its samples mean.

use vstd::prelude::*;

use crate::display::{HEIGHT, WIDTH};

verus! {

/// Control byte that reads the X channel: start bit, channel, twelve bits, differential.
pub const CMD_READ_X: u8 = 0x90;

/// Control byte that reads the Y channel.
pub const CMD_READ_Y: u8 = 0xD0;

/// How many samples are averaged.
pub const SAMPLES: usize = 8;

/// A control byte has its start bit set and the number of its channel below it, one for X and five
/// for Y, and asks for a differential measurement of twelve bits. Eight samples make up a reading.
pub proof fn law_control_bytes()
    ensures
        CMD_READ_X == 128 + 1 * 16,
        CMD_READ_Y == 128 + 5 * 16,
        SAMPLES == 8,
{
}

/// Raw-ADC-to-screen calibration. The defaults are typical for the panel; tune them with the
/// reported raw values if touches land in the wrong place.
#[derive(Debug, Clone, Copy)]
pub struct Calibration {
    pub x_min: u16,
    pub x_max: u16,
    pub y_min: u16,
    pub y_max: u16,
    pub width: u16,
    pub height: u16,
    /// Swap the raw X/Y axes (needed depending on panel orientation).
    pub swap_xy: bool,
    pub invert_x: bool,
    pub invert_y: bool,
}

/// What is typical for the panel.
pub open spec fn typical() -> Calibration {
    Calibration {
        x_min: 200,
        x_max: 3900,
        y_min: 200,
        y_max: 3900,
        width: WIDTH,
        height: HEIGHT,
        swap_xy: true,
        invert_x: true,
        invert_y: false,
    }
}

/// The panel is read turned: its second channel runs from the right edge to the left, its first one
/// from the top to the bottom, each from 200 to 3900.
pub proof fn law_typical_corners()
    ensures
        typical().place(200, 3900) == (0int, 0int),
        typical().place(200, 200) == (239int, 0int),
        typical().place(3900, 3900) == (0int, 319int),
        typical().place(3900, 200) == (239int, 319int),
{
}

impl Default for Calibration {
    fn default() -> (c: Self)
        ensures
            c == typical(),
            c.usable(),
    {
        Calibration {
            x_min: 200,
            x_max: 3900,
            y_min: 200,
            y_max: 3900,
            width: WIDTH,
            height: HEIGHT,
            swap_xy: true,
            invert_x: true,
            invert_y: false,
        }
    }
}

/// A raw value held to a range.
pub open spec fn clamped(raw: int, min: int, max: int) -> int {
    if raw < min {
        min
    } else if raw > max {
        max
    } else {
        raw
    }
}

/// A quotient without its fraction.
pub open spec fn quotient(a: int, b: int) -> int {
    if a >= 0 {
        a / b
    } else {
        -((-a) / b)
    }
}

/// Where a raw value falls on an axis of `span` pixels when `min` falls on the first of them and
/// `max` on the last.
pub open spec fn on_axis(raw: int, min: int, max: int, span: int) -> int {
    quotient(
        (clamped(raw, min, max) - min) * (span - 1),
        if max - min > 1 {
            max - min
        } else {
            1
        },
    )
}

impl Calibration {
    /// The ranges are not reversed, and the axes are short enough to be computed with.
    pub open spec fn usable(self) -> bool {
        &&& self.x_min <= self.x_max
        &&& self.y_min <= self.y_max
        &&& (self.x_max - self.x_min) * (self.width - 1) <= i32::MAX
        &&& (self.y_max - self.y_min) * (self.height - 1) <= i32::MAX
    }

    /// The place on the screen of a raw sample.
    pub open spec fn place(self, raw_x: u16, raw_y: u16) -> (int, int) {
        let (rx, ry) = if self.swap_xy {
            (raw_y, raw_x)
        } else {
            (raw_x, raw_y)
        };
        let x = on_axis(rx as int, self.x_min as int, self.x_max as int, self.width as int);
        let y = on_axis(ry as int, self.y_min as int, self.y_max as int, self.height as int);
        (
            if self.invert_x {
                self.width - 1 - x
            } else {
                x
            },
            if self.invert_y {
                self.height - 1 - y
            } else {
                y
            },
        )
    }

    /// The place on the screen of a raw sample.
    pub fn map(&self, raw_x: u16, raw_y: u16) -> (p: (i32, i32))
        requires
            self.usable(),
        ensures
            (p.0 as int, p.1 as int) == self.place(raw_x, raw_y),
    {
        let (rx, ry) = if self.swap_xy {
            (raw_y, raw_x)
        } else {
            (raw_x, raw_y)
        };
        let mut x: i32 = map_range(rx, self.x_min, self.x_max, self.width);
        let mut y: i32 = map_range(ry, self.y_min, self.y_max, self.height);
        if self.invert_x {
            x = self.width as i32 - 1 - x;
        }
        if self.invert_y {
            y = self.height as i32 - 1 - y;
        }
        (x, y)
    }
}

/// Bounds of a place on an axis.
proof fn lemma_on_axis(raw: int, min: int, max: int, span: int)
    requires
        min <= max,
        span >= 0,
    ensures
        span > 0 ==> 0 <= on_axis(raw, min, max, span) < span,
        span == 0 ==> -1 <= on_axis(raw, min, max, span) <= 0,
        ({
            let k = clamped(raw, min, max) - min;
            &&& 0 <= k <= max - min
            &&& span > 0 ==> 0 <= k * (span - 1) <= (max - min) * (span - 1)
            &&& span == 0 ==> k * (span - 1) == -k
        }),
{
    let k = clamped(raw, min, max) - min;
    let d = if max - min > 1 {
        max - min
    } else {
        1
    };
    if span > 0 {
        assert(0 <= k * (span - 1) <= (max - min) * (span - 1)) by (nonlinear_arith)
            requires
                0 <= k <= max - min,
                span >= 1,
        ;
        assert(0 <= (k * (span - 1)) / d <= span - 1) by (nonlinear_arith)
            requires
                0 <= k <= d,
                d >= 1,
                span >= 1,
        ;
    } else {
        assert(k * (span - 1) == -k) by (nonlinear_arith)
            requires
                span == 0,
        ;
        assert(0 <= k / d <= 1) by (nonlinear_arith)
            requires
                0 <= k <= d,
                d >= 1,
        ;
        if k == 0 {
            assert(0int / d == 0) by (nonlinear_arith)
                requires
                    d >= 1,
            ;
        }
    }
}

/// Where a raw value falls on an axis of `span` pixels.
pub fn map_range(raw: u16, min: u16, max: u16, span: u16) -> (v: i32)
    requires
        min <= max,
        (max - min) * (span - 1) <= i32::MAX,
    ensures
        v == on_axis(raw as int, min as int, max as int, span as int),
        span > 0 ==> 0 <= v < span,
        span == 0 ==> -1 <= v <= 0,
{
    proof {
        lemma_on_axis(raw as int, min as int, max as int, span as int);
    }
    let held: u16 = if raw < min {
        min
    } else if raw > max {
        max
    } else {
        raw
    };
    let reach: i32 = held as i32 - min as i32;
    let range: i32 = max as i32 - min as i32;
    let divisor: i32 = if range > 1 {
        range
    } else {
        1
    };
    if span == 0 {
        -(reach / divisor)
    } else {
        (reach * (span as i32 - 1)) / divisor
    }
}

/// Every sample falls on the panel.
pub proof fn law_samples_fall_on_panel(c: Calibration, raw_x: u16, raw_y: u16)
    requires
        c.usable(),
        c.width > 0,
        c.height > 0,
    ensures
        0 <= c.place(raw_x, raw_y).0 < c.width,
        0 <= c.place(raw_x, raw_y).1 < c.height,
{
    let (rx, ry) = if c.swap_xy {
        (raw_y, raw_x)
    } else {
        (raw_x, raw_y)
    };
    lemma_on_axis(rx as int, c.x_min as int, c.x_max as int, c.width as int);
    lemma_on_axis(ry as int, c.y_min as int, c.y_max as int, c.height as int);
}

/// The ends of the raw range fall on the ends of the axis, and larger raw values fall no further
/// back.
pub proof fn law_axis_is_monotone(a: int, b: int, min: int, max: int, span: int)
    requires
        min < max,
        span > 0,
        a <= b,
    ensures
        on_axis(min, min, max, span) == 0,
        on_axis(max, min, max, span) == span - 1,
        on_axis(a, min, max, span) <= on_axis(b, min, max, span),
{
    let d = max - min;
    let ka = clamped(a, min, max) - min;
    let kb = clamped(b, min, max) - min;
    assert(0int * (span - 1) == 0) by (nonlinear_arith);
    assert(0int / d == 0) by (nonlinear_arith)
        requires
            d >= 1,
    ;
    assert(d * (span - 1) >= 0 && (d * (span - 1)) / d == span - 1) by (nonlinear_arith)
        requires
            d >= 1,
            span >= 1,
    ;
    assert(0 <= ka * (span - 1) <= kb * (span - 1)) by (nonlinear_arith)
        requires
            0 <= ka <= kb,
            span >= 1,
    ;
    let p = ka * (span - 1);
    let q = kb * (span - 1);
    assert(p / d <= q / d) by (nonlinear_arith)
        requires
            0 <= p <= q,
            d >= 1,
    ;
}

/// A raw value falls on the pixel that is as far along the axis as the value is along its range,
/// without the fraction of a pixel; beyond its range it counts as the end of it.
pub proof fn law_axis_is_proportional(raw: int, min: int, max: int, span: int)
    requires
        min < max,
        span > 0,
    ensures
        ({
            let v = on_axis(raw, min, max, span);
            &&& raw <= min ==> v == 0
            &&& raw >= max ==> v == span - 1
            &&& min <= raw <= max ==> v * (max - min) <= (raw - min) * (span - 1) < (v + 1) * (max
                - min)
        }),
{
    law_axis_is_monotone(raw, raw, min, max, span);
    lemma_on_axis(raw, min, max, span);
    if min <= raw <= max {
        let p = (raw - min) * (span - 1);
        let d = max - min;
        let v = p / d;
        assert(on_axis(raw, min, max, span) == v);
        vstd::arithmetic::div_mod::lemma_fundamental_div_mod(p, d);
        vstd::arithmetic::div_mod::lemma_mod_bound(p, d);
        assert(v * d <= p < (v + 1) * d) by (nonlinear_arith)
            requires
                p == d * v + p % d,
                0 <= p % d < d,
        ;
    }
}

/// Each axis of the screen follows one channel alone: the first one across and the second one down,
/// or the other way round where they are swapped. An inverted axis counts from its other end.
pub proof fn law_axes_follow_their_channels(c: Calibration, raw_x: u16, raw_y: u16)
    ensures
        ({
            let plain = Calibration { swap_xy: false, invert_x: false, invert_y: false, ..c };
            let swapped = Calibration { swap_xy: true, ..c };
            let unswapped = Calibration { swap_xy: false, ..c };
            &&& plain.place(raw_x, raw_y).0 == on_axis(
                raw_x as int,
                c.x_min as int,
                c.x_max as int,
                c.width as int,
            )
            &&& plain.place(raw_x, raw_y).1 == on_axis(
                raw_y as int,
                c.y_min as int,
                c.y_max as int,
                c.height as int,
            )
            &&& swapped.place(raw_x, raw_y) == unswapped.place(raw_y, raw_x)
            &&& unswapped.place(raw_x, raw_y).0 == if c.invert_x {
                c.width - 1 - plain.place(raw_x, raw_y).0
            } else {
                plain.place(raw_x, raw_y).0
            }
            &&& unswapped.place(raw_x, raw_y).1 == if c.invert_y {
                c.height - 1 - plain.place(raw_x, raw_y).1
            } else {
                plain.place(raw_x, raw_y).1
            }
        }),
{
}

/// A calibrated touch point in the screen's coordinate space.
#[derive(Debug, Clone, Copy, PartialEq, Eq, Structural)]
pub struct TouchPoint {
    pub x: i32,
    pub y: i32,
}

/// Whether bit `bit` of a byte is set.
pub open spec fn bit_of(out: u8, bit: u8) -> bool {
    (out >> bit) & 1 == 1
}

/// A byte is the sum of the powers of two of its bits that are set.
pub proof fn law_byte_is_its_bits(out: u8)
    ensures
        out == (if bit_of(out, 0) {
            1int
        } else {
            0
        }) + (if bit_of(out, 1) {
            2int
        } else {
            0
        }) + (if bit_of(out, 2) {
            4int
        } else {
            0
        }) + (if bit_of(out, 3) {
            8int
        } else {
            0
        }) + (if bit_of(out, 4) {
            16int
        } else {
            0
        }) + (if bit_of(out, 5) {
            32int
        } else {
            0
        }) + (if bit_of(out, 6) {
            64int
        } else {
            0
        }) + (if bit_of(out, 7) {
            128int
        } else {
            0
        }),
{
    assert(out == ((out >> 0u8) & 1) + 2 * ((out >> 1u8) & 1) + 4 * ((out >> 2u8) & 1) + 8 * ((out
        >> 3u8) & 1) + 16 * ((out >> 4u8) & 1) + 32 * ((out >> 5u8) & 1) + 64 * ((out >> 6u8) & 1)
        + 128 * ((out >> 7u8) & 1)) by (bit_vector);
    assert((out >> 0u8) & 1 <= 1 && (out >> 1u8) & 1 <= 1 && (out >> 2u8) & 1 <= 1 && (out >> 3u8)
        & 1 <= 1 && (out >> 4u8) & 1 <= 1 && (out >> 5u8) & 1 <= 1 && (out >> 6u8) & 1 <= 1 && (out
        >> 7u8) & 1 <= 1) by (bit_vector);
}

/// Whether bit `bit` of a byte to be sent is set.
pub fn bit_to_send(out: u8, bit: u8) -> (high: bool)
    requires
        bit < 8,
    ensures
        high == bit_of(out, bit),
{
    (out >> bit) & 1 == 1
}

/// A byte being received after one more bit.
pub open spec fn shifted_in(input: u8, high: bool) -> u8 {
    (input << 1) | if high {
        1u8
    } else {
        0u8
    }
}

/// One more bit doubles what was received, as far as a byte holds it, and adds the bit.
pub proof fn law_bits_shift_in_from_below(input: u8, high: bool)
    ensures
        shifted_in(input, high) == (2 * input + if high {
            1int
        } else {
            0
        }) % 256,
{
    assert(((input << 1) | 1u8) == (2 * input + 1) % 256) by (bit_vector);
    assert(((input << 1) | 0u8) == (2 * input) % 256) by (bit_vector);
}

/// Take in one more bit of a byte, most significant bit first.
pub fn shift_in(input: u8, high: bool) -> (v: u8)
    ensures
        v == shifted_in(input, high),
{
    (input << 1) | if high {
        1u8
    } else {
        0u8
    }
}

/// The byte received after the first `n` bits of `out` were sent back.
pub open spec fn echoed(out: u8, n: nat) -> u8
    decreases n,
{
    if n == 0 {
        0
    } else {
        shifted_in(echoed(out, (n - 1) as nat), bit_of(out, (8 - n) as u8))
    }
}

/// A byte sent bit by bit, most significant bit first, is the byte received bit by bit.
pub proof fn law_byte_survives_the_wire(out: u8)
    ensures
        echoed(out, 8) == out,
{
    reveal_with_fuel(echoed, 9);
    let e1: u8 = echoed(out, 1);
    let e2: u8 = echoed(out, 2);
    let e3: u8 = echoed(out, 3);
    let e4: u8 = echoed(out, 4);
    let e5: u8 = echoed(out, 5);
    let e6: u8 = echoed(out, 6);
    let e7: u8 = echoed(out, 7);
    let e8: u8 = echoed(out, 8);
    assert(e8 == out) by (bit_vector)
        requires
            e1 == (0u8 << 1) | (if (out >> 7u8) & 1 == 1 { 1u8 } else { 0u8 }),
            e2 == (e1 << 1) | (if (out >> 6u8) & 1 == 1 { 1u8 } else { 0u8 }),
            e3 == (e2 << 1) | (if (out >> 5u8) & 1 == 1 { 1u8 } else { 0u8 }),
            e4 == (e3 << 1) | (if (out >> 4u8) & 1 == 1 { 1u8 } else { 0u8 }),
            e5 == (e4 << 1) | (if (out >> 3u8) & 1 == 1 { 1u8 } else { 0u8 }),
            e6 == (e5 << 1) | (if (out >> 2u8) & 1 == 1 { 1u8 } else { 0u8 }),
            e7 == (e6 << 1) | (if (out >> 1u8) & 1 == 1 { 1u8 } else { 0u8 }),
            e8 == (e7 << 1) | (if (out >> 0u8) & 1 == 1 { 1u8 } else { 0u8 }),
    ;
}

/// The twelve-bit value in the two bytes of a channel's answer.
pub open spec fn channel(hi: u8, lo: u8) -> int {
    (hi * 256 + lo) / 8 % 4096
}

/// A value of twelve bits is read from an answer of one bit that does not matter, the value, and
/// three more bits that do not.
pub proof fn law_channel_is_read_back(first: int, value: int, last: int)
    requires
        0 <= first < 2,
        0 <= value < 4096,
        0 <= last < 8,
    ensures
        ({
            let word = first * 32768 + value * 8 + last;
            channel((word / 256) as u8, (word % 256) as u8) == value
        }),
{
    let word = first * 32768 + value * 8 + last;
    assert(0 <= word / 256 < 256);
    assert((word / 256) * 256 + word % 256 == word);
    assert(word / 8 == first * 4096 + value);
}

/// The twelve-bit value in the two bytes of a channel's answer: it is in bits 14 to 3.
pub fn channel_value(hi: u8, lo: u8) -> (v: u16)
    ensures
        v == channel(hi, lo),
{
    let word: u16 = ((hi as u16) << 8) | lo as u16;
    let v: u16 = (word >> 3) & 0x0FFF;
    assert(v as u32 == (hi as u32 * 256 + lo as u32) / 8 % 4096) by (bit_vector)
        requires
            word == ((hi as u16) << 8) | lo as u16,
            v == (word >> 3) & 0x0FFF,
    ;
    v
}

/// The sum of the first parts of samples.
pub open spec fn sum_x(samples: Seq<(u16, u16)>) -> int
    decreases samples.len(),
{
    if samples.len() == 0 {
        0
    } else {
        sum_x(samples.drop_last()) + samples.last().0
    }
}

/// The sum of the second parts of samples.
pub open spec fn sum_y(samples: Seq<(u16, u16)>) -> int
    decreases samples.len(),
{
    if samples.len() == 0 {
        0
    } else {
        sum_y(samples.drop_last()) + samples.last().1
    }
}

/// The average of samples, unless it is clearly not that of a press.
pub open spec fn settled(samples: Seq<(u16, u16)>) -> Option<(u16, u16)> {
    let x = sum_x(samples) / SAMPLES as int;
    let y = sum_y(samples) / SAMPLES as int;
    if x < 50 || y < 50 {
        None
    } else {
        Some((x as u16, y as u16))
    }
}

/// What is read are the averages of eight samples, rounded down, channel by channel; if either is
/// below 50, nothing is.
pub proof fn law_eight_samples_are_averaged(s: Seq<(u16, u16)>)
    requires
        s.len() == 8,
    ensures
        ({
            let sx = s[0].0 + s[1].0 + s[2].0 + s[3].0 + s[4].0 + s[5].0 + s[6].0 + s[7].0;
            let sy = s[0].1 + s[1].1 + s[2].1 + s[3].1 + s[4].1 + s[5].1 + s[6].1 + s[7].1;
            &&& settled(s) is None <==> sx < 400 || sy < 400
            &&& settled(s) matches Some((x, y)) ==> 8 * x <= sx < 8 * x + 8 && 8 * y <= sy < 8 * y
                + 8
        }),
{
    reveal_with_fuel(sum_x, 9);
    reveal_with_fuel(sum_y, 9);
    assert(s.drop_last() =~= s.take(7));
    assert(s.take(7).drop_last() =~= s.take(6));
    assert(s.take(6).drop_last() =~= s.take(5));
    assert(s.take(5).drop_last() =~= s.take(4));
    assert(s.take(4).drop_last() =~= s.take(3));
    assert(s.take(3).drop_last() =~= s.take(2));
    assert(s.take(2).drop_last() =~= s.take(1));
    assert(s.take(1).drop_last() =~= s.take(0));
}

/// Average the raw samples of a press to reduce jitter. Returns `None` for clearly invalid samples
/// (e.g. a press released mid-read).
pub fn read_raw(samples: &Vec<(u16, u16)>) -> (r: Option<(u16, u16)>)
    requires
        samples@.len() == SAMPLES,
    ensures
        r == settled(samples@),
{
    let mut xs: u32 = 0;
    let mut ys: u32 = 0;
    let mut i: usize = 0;
    assert(samples@.take(0) =~= Seq::empty());
    while i < SAMPLES
        invariant
            samples@.len() == SAMPLES,
            i <= SAMPLES,
            xs == sum_x(samples@.take(i as int)),
            ys == sum_y(samples@.take(i as int)),
            xs <= i * 0xffff,
            ys <= i * 0xffff,
        decreases SAMPLES - i,
    {
        let (x, y) = samples[i];
        proof {
            let t = samples@.take(i + 1);
            assert(t.drop_last() =~= samples@.take(i as int));
            assert(t.last() == samples@[i as int]);
        }
        xs = xs + x as u32;
        ys = ys + y as u32;
        i = i + 1;
    }
    assert(samples@.take(i as int) =~= samples@);
    let x: u16 = (xs / SAMPLES as u32) as u16;
    let y: u16 = (ys / SAMPLES as u32) as u16;
    if x < 50 || y < 50 {
        None
    } else {
        Some((x, y))
    }
}

/// The touch panel's calibration at work.
pub struct Touch {
    pub cal: Calibration,
}

/// What is read of the samples of a press, or where there are none.
pub open spec fn is_touch(
    cal: Calibration,
    samples: Option<Vec<(u16, u16)>>,
    r: Option<TouchPoint>,
) -> bool {
    match samples {
        None => r is None,
        Some(s) => match settled(s@) {
            None => r is None,
            Some((rx, ry)) => r matches Some(p) && (p.x as int, p.y as int) == cal.place(rx, ry),
        },
    }
}

/// A touch is read if and only if there are samples and they settle, and it is on the panel.
pub proof fn law_touch_is_on_the_panel(
    cal: Calibration,
    samples: Option<Vec<(u16, u16)>>,
    r: Option<TouchPoint>,
)
    requires
        is_touch(cal, samples, r),
        cal.usable(),
        cal.width > 0,
        cal.height > 0,
    ensures
        r is Some <==> samples is Some && settled(samples->0@) is Some,
        r matches Some(p) ==> 0 <= p.x < cal.width && 0 <= p.y < cal.height && (
            p.x as int,
            p.y as int,
        ) == cal.place((settled(samples->0@)->0).0, (settled(samples->0@)->0).1),
{
    if r is Some {
        let (rx, ry) = settled(samples->0@)->0;
        law_samples_fall_on_panel(cal, rx, ry);
    }
}

impl Touch {
    /// The current calibrated touch point, if any. `samples` are those of a press; there are none
    /// while the panel's interrupt line says that it is not touched.
    pub fn read(&self, samples: &Option<Vec<(u16, u16)>>) -> (r: Option<TouchPoint>)
        requires
            self.cal.usable(),
            samples matches Some(s) ==> s@.len() == SAMPLES,
        ensures
            is_touch(self.cal, *samples, r),
    {
        match samples {
            None => None,
            Some(s) => match read_raw(s) {
                None => None,
                Some((rx, ry)) => {
                    let (x, y) = self.cal.map(rx, ry);
                    Some(TouchPoint { x, y })
                },
            },
        }
    }
}

} // verus!
