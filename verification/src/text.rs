//! Text: building it, comparing it, and the numbers in it.

use vstd::prelude::*;
use vstd::string::StringExecFns;

verus! {

/// `String::push`: appends a character.
pub assume_specification[ String::push ](s: &mut String, c: char)
    ensures
        final(s)@ == old(s)@.push(c),
;

/// `String::pop`: removes the last character and returns it; an empty string stays empty.
pub assume_specification[ String::pop ](s: &mut String) -> (c: Option<char>)
    ensures
        old(s)@.len() == 0 ==> c is None && final(s)@ == old(s)@,
        old(s)@.len() > 0 ==> c == Some(old(s)@.last()) && final(s)@ == old(s)@.drop_last(),
;

/// Whether two texts are the same.
pub fn same_text(a: &str, b: &str) -> (same: bool)
    ensures
        same == (a@ == b@),
{
    let left: String = a.to_owned();
    let right: String = b.to_owned();
    left == right
}

/// One text after the other.
pub fn joined(a: &str, b: &str) -> (s: String)
    ensures
        s@ == a@ + b@,
{
    let mut s: String = a.to_owned();
    s.append(b);
    s
}

/// A text between two others.
pub fn between(a: &str, b: &str, c: &str) -> (s: String)
    ensures
        s@ == a@ + b@ + c@,
{
    let mut s: String = a.to_owned();
    s.append(b);
    s.append(c);
    s
}

/// The character of a decimal digit.
pub open spec fn digit(d: int) -> char {
    match d as u8 {
        0 => '0',
        1 => '1',
        2 => '2',
        3 => '3',
        4 => '4',
        5 => '5',
        6 => '6',
        7 => '7',
        8 => '8',
        _ => '9',
    }
}

/// The value of a decimal digit.
pub open spec fn digit_value(c: char) -> Option<nat> {
    match c {
        '0' => Some(0),
        '1' => Some(1),
        '2' => Some(2),
        '3' => Some(3),
        '4' => Some(4),
        '5' => Some(5),
        '6' => Some(6),
        '7' => Some(7),
        '8' => Some(8),
        '9' => Some(9),
        _ => None,
    }
}

/// A number written in decimal, without leading zeros.
pub open spec fn decimal(n: nat) -> Seq<char>
    decreases n,
{
    if n < 10 {
        seq![digit(n as int)]
    } else {
        decimal(n / 10).push(digit((n % 10) as int))
    }
}

fn digit_char(d: u64) -> (c: char)
    requires
        d < 10,
    ensures
        c == digit(d as int),
{
    match d {
        0 => '0',
        1 => '1',
        2 => '2',
        3 => '3',
        4 => '4',
        5 => '5',
        6 => '6',
        7 => '7',
        8 => '8',
        _ => '9',
    }
}

/// Append a number in decimal.
pub fn push_decimal(s: &mut String, n: u64)
    ensures
        final(s)@ == old(s)@ + decimal(n as nat),
    decreases n,
{
    if n < 10 {
        s.push(digit_char(n));
        assert(s@ =~= old(s)@ + decimal(n as nat));
    } else {
        push_decimal(s, n / 10);
        s.push(digit_char(n % 10));
        assert(s@ =~= old(s)@ + decimal(n as nat));
    }
}

/// The value of a run of decimal digits; `None` if there is none or anything else is in it.
pub open spec fn digits_value(s: Seq<char>) -> Option<nat>
    decreases s.len(),
{
    if s.len() == 0 {
        None
    } else {
        match digit_value(s.last()) {
            None => None,
            Some(d) => if s.len() == 1 {
                Some(d)
            } else {
                match digits_value(s.drop_last()) {
                    None => None,
                    Some(v) => Some(v * 10 + d),
                }
            },
        }
    }
}

/// The non-negative number that a text stands for: decimal digits, a plus sign allowed before
/// them, and no more than `limit`.
pub open spec fn parsed_number(s: Seq<char>, limit: nat) -> Option<nat> {
    let body = if s.len() > 0 && s[0] == '+' {
        s.skip(1)
    } else {
        s
    };
    match digits_value(body) {
        None => None,
        Some(v) => if v <= limit {
            Some(v)
        } else {
            None
        },
    }
}

fn value_of_digit(c: char) -> (v: Option<u64>)
    ensures
        v is Some <==> digit_value(c) is Some,
        v matches Some(d) ==> digit_value(c) == Some(d as nat) && d < 10,
{
    match c {
        '0' => Some(0),
        '1' => Some(1),
        '2' => Some(2),
        '3' => Some(3),
        '4' => Some(4),
        '5' => Some(5),
        '6' => Some(6),
        '7' => Some(7),
        '8' => Some(8),
        '9' => Some(9),
        _ => None,
    }
}

/// A longer run of digits is worth no less.
proof fn lemma_digits_grow(s: Seq<char>, n: int)
    requires
        0 < n <= s.len(),
        digits_value(s) is Some,
    ensures
        digits_value(s.take(n)) is Some,
        digits_value(s.take(n))->0 <= digits_value(s)->0,
    decreases s.len() - n,
{
    if n < s.len() {
        lemma_digits_grow(s, n + 1);
        let t = s.take(n + 1);
        assert(t.drop_last() =~= s.take(n));
        assert(digits_value(t) is Some);
    } else {
        assert(s.take(n) =~= s);
    }
}

/// The number in the characters of `s` from `from` up to `to`, if it is one and no more than
/// `limit`.
pub fn parse_number(s: &str, from: usize, to: usize, limit: u32) -> (v: Option<u32>)
    requires
        from <= to <= s@.len(),
    ensures
        match v {
            Some(n) => parsed_number(s@.subrange(from as int, to as int), limit as nat) == Some(
                n as nat,
            ),
            None => parsed_number(s@.subrange(from as int, to as int), limit as nat) is None,
        },
{
    let ghost whole = s@.subrange(from as int, to as int);
    let start: usize = if from < to && s.get_char(from) == '+' {
        from + 1
    } else {
        from
    };
    let ghost body = s@.subrange(start as int, to as int);
    proof {
        if start > from {
            assert(whole.skip(1) =~= body);
        } else {
            assert(whole =~= body);
        }
    }
    if start == to {
        return None;
    }
    let mut value: u64 = 0;
    let mut at: usize = start;
    while at < to
        invariant
            from <= start <= at <= to <= s@.len(),
            start < to,
            body == s@.subrange(start as int, to as int),
            whole == s@.subrange(from as int, to as int),
            body == if whole.len() > 0 && whole[0] == '+' {
                whole.skip(1)
            } else {
                whole
            },
            at == start ==> value == 0,
            at > start ==> digits_value(body.take(at - start)) == Some(value as nat),
            value <= limit,
        decreases to - at,
    {
        let ghost t = body.take(at - start + 1);
        proof {
            assert(t.last() == s@[at as int]);
            assert(t.drop_last() =~= body.take(at - start));
        }
        match value_of_digit(s.get_char(at)) {
            None => {
                proof {
                    if digits_value(body) is Some {
                        lemma_digits_grow(body, at - start + 1);
                    }
                }
                return None;
            },
            Some(d) => {
                value = value * 10 + d;
                assert(digits_value(t) == Some(value as nat));
                if value > limit as u64 {
                    proof {
                        if digits_value(body) is Some {
                            lemma_digits_grow(body, at - start + 1);
                        }
                    }
                    return None;
                }
            },
        }
        at = at + 1;
    }
    assert(body.take(to - start) =~= body);
    Some(value as u32)
}

/// A number below ten is written as its digit, and ten times a number plus a digit as the number
/// followed by the digit; the digits are the characters from `0` to `9`, in the order of their
/// codes.
pub proof fn law_decimal_digits(n: nat, d: nat)
    requires
        d < 10,
    ensures
        decimal(d).len() == 1,
        decimal(d)[0] as int == 0x30 + d,
        n > 0 ==> decimal(10 * n + d) == decimal(n) + decimal(d),
{
    if n > 0 {
        assert((10 * n + d) / 10 == n && (10 * n + d) % 10 == d);
        assert(decimal(10 * n + d) =~= decimal(n) + decimal(d));
    }
}

/// What stands for a number: a digit, with or without a plus sign before it; and what stands for a
/// number followed by another digit, for ten times as much plus that digit, as long as it does
/// not exceed the limit. Anything with another character behind it stands for none, nor does
/// nothing at all, nor a plus sign alone.
pub proof fn law_number_texts(s: Seq<char>, c: char, v: nat, limit: nat)
    ensures
        parsed_number(Seq::empty(), limit) is None,
        parsed_number(seq!['+'], limit) is None,
        0x30 <= c as int <= 0x39 && c as int - 0x30 <= limit ==> {
            &&& parsed_number(seq![c], limit) == Some((c as int - 0x30) as nat)
            &&& parsed_number(seq!['+', c], limit) == Some((c as int - 0x30) as nat)
        },
        parsed_number(s, v) == Some(v) && 0x30 <= c as int <= 0x39 ==> parsed_number(
            s.push(c),
            limit,
        ) == if 10 * v + (c as int - 0x30) <= limit {
            Some((10 * v + (c as int - 0x30)) as nat)
        } else {
            None
        },
        !(0x30 <= c as int <= 0x39) ==> parsed_number(s.push(c), limit) is None,
        s.len() > 1 && (forall|w: nat| parsed_number(s, w) is None) ==> parsed_number(
            s.push(c),
            limit,
        ) is None,
{
    reveal_with_fuel(digits_value, 3);
    let plus = seq!['+'];
    assert(plus.skip(1) =~= Seq::<char>::empty());
    assert(seq!['+', c].skip(1) =~= seq![c]);
    let t = s.push(c);
    assert(t.last() == c);
    assert(t.drop_last() =~= s);
    if s.len() > 0 && s[0] == '+' {
        assert(t.skip(1) =~= s.skip(1).push(c));
        assert(t.skip(1).drop_last() =~= s.skip(1));
        assert(t.skip(1).last() == c);
    }
    if s.len() > 1 && digits_value(if s[0] == '+' {
        s.skip(1)
    } else {
        s
    }) is Some {
        let w = digits_value(
            if s[0] == '+' {
                s.skip(1)
            } else {
                s
            },
        )->0;
        assert(parsed_number(s, w) is Some);
    }
}

/// A number reads back as what was written.
pub proof fn law_decimal_reads_back(n: nat, limit: nat)
    requires
        n <= limit,
    ensures
        parsed_number(decimal(n), limit) == Some(n),
{
    lemma_decimal_value(n);
}

proof fn lemma_decimal_value(n: nat)
    ensures
        digits_value(decimal(n)) == Some(n),
        decimal(n).len() > 0,
        decimal(n)[0] != '+',
    decreases n,
{
    if n >= 10 {
        lemma_decimal_value(n / 10);
        assert(decimal(n).drop_last() =~= decimal(n / 10));
    }
}

/// A number is written with digits alone.
pub proof fn lemma_decimal_digits(n: nat)
    ensures
        decimal(n).len() > 0,
        forall|i: int|
            0 <= i < decimal(n).len() ==> digit_value(#[trigger] decimal(n)[i]) is Some,
        forall|i: int|
            0 <= i < decimal(n).len() ==> '0' <= (#[trigger] decimal(n)[i]) <= '9',
    decreases n,
{
    if n >= 10 {
        lemma_decimal_digits(n / 10);
    }
}

/// A number that is followed by something other than a digit is told from what follows it.
pub proof fn lemma_decimal_ends(a: nat, b: nat, s: Seq<char>, t: Seq<char>)
    requires
        decimal(a) + s == decimal(b) + t,
        s.len() > 0,
        t.len() > 0,
        digit_value(s[0]) is None,
        digit_value(t[0]) is None,
    ensures
        a == b,
        s == t,
{
    lemma_decimal_digits(a);
    lemma_decimal_digits(b);
    let whole = decimal(a) + s;
    let m = decimal(a).len() as int;
    let n = decimal(b).len() as int;
    if m < n {
        assert(whole[m] == s[0]);
        assert((decimal(b) + t)[m] == decimal(b)[m]);
    } else if n < m {
        assert((decimal(b) + t)[n] == t[0]);
        assert(whole[n] == decimal(a)[n]);
    }
    assert(whole.take(m) =~= decimal(a));
    assert((decimal(b) + t).take(n) =~= decimal(b));
    assert(whole.skip(m) =~= s);
    assert((decimal(b) + t).skip(n) =~= t);
    let limit = if a < b {
        b
    } else {
        a
    };
    law_decimal_reads_back(a, limit);
    law_decimal_reads_back(b, limit);
}

} // verus!
