//! Days of the week.

use vstd::arithmetic::div_mod::{
    lemma_fundamental_div_mod, lemma_fundamental_div_mod_converse,
};
use vstd::prelude::*;

use crate::text::{
    decimal, joined, law_decimal_reads_back, lemma_decimal_digits, parse_number, parsed_number,
    push_decimal,
};

verus! {

/// Day-of-week offset of a month's first day, years taken to begin in March.
pub open spec fn month_offset(m: int) -> int {
    match m as u32 {
        1 => 0,
        2 => 3,
        3 => 2,
        4 => 5,
        5 => 0,
        6 => 3,
        7 => 5,
        8 => 1,
        9 => 4,
        10 => 6,
        11 => 2,
        _ => 4,
    }
}

/// How many leap days there are from the year 1 up to the end of a year, or, of a year before that,
/// less than none by as many as come after it.
pub open spec fn leap_days(y: int) -> int {
    y / 4 - y / 100 + y / 400
}

/// The day of the week of a date of the Gregorian calendar, whose years go on before the year 1 by
/// the same rule, Sunday being 0.
pub open spec fn weekday(y: int, m: int, d: int) -> int {
    let base = if m < 3 {
        y - 1
    } else {
        y
    };
    (base + leap_days(base) + month_offset(m) + d) % 7
}

/// Sakamoto's algorithm: 0 = Sunday .. 6 = Saturday.
pub fn weekday_index(y: i32, m: u32, d: u32) -> (w: usize)
    requires
        1 <= m <= 12,
    ensures
        w == weekday(y as int, m as int, d as int),
        w < 7,
{
    let offset: u64 = match m {
        1 => 0,
        2 => 3,
        3 => 2,
        4 => 5,
        5 => 0,
        6 => 3,
        7 => 5,
        8 => 1,
        9 => 4,
        10 => 6,
        11 => 2,
        _ => 4,
    };
    let base: i64 = if m < 3 {
        y as i64 - 1
    } else {
        y as i64
    };
    // The weekdays come again every 400 years, so a year that is a whole number of those later
    // does as well.
    let later: u64 = (base + 2_147_484_000) as u64;
    let n: u64 = later + later / 4 - later / 100 + later / 400 + offset + d as u64;
    proof {
        let count = base + leap_days(base as int) + month_offset(m as int) + d;
        assert(later / 4 == base as int / 4 + 536_871_000);
        assert(later / 100 == base as int / 100 + 21_474_840);
        assert(later / 400 == base as int / 400 + 5_368_710);
        assert(n == count + 7 * 381_178_410);
        assert(n as int % 7 == count % 7);
    }
    (n % 7) as usize
}

/// Where the next dash is at or after `from`, or the end of the text.
pub open spec fn next_dash(s: Seq<char>, from: int) -> int
    decreases s.len() - from,
{
    if from >= s.len() {
        s.len() as int
    } else if s[from] == '-' {
        from
    } else {
        next_dash(s, from + 1)
    }
}

/// Year, month and day of a date written `YYYY-MM-DD`, if the text is one.
pub open spec fn date_fields(s: Seq<char>) -> Option<(nat, nat, nat)> {
    let i = next_dash(s, 0);
    let j = next_dash(s, i + 1);
    let k = next_dash(s, j + 1);
    if i >= s.len() || j >= s.len() {
        None
    } else {
        match (
            parsed_number(s.subrange(0, i), i32::MAX as nat),
            parsed_number(s.subrange(i + 1, j), u32::MAX as nat),
            parsed_number(s.subrange(j + 1, k), u32::MAX as nat),
        ) {
            (Some(y), Some(m), Some(d)) => Some((y, m, d)),
            _ => None,
        }
    }
}

proof fn lemma_next_dash(s: Seq<char>, from: int)
    requires
        0 <= from <= s.len(),
    ensures
        from <= next_dash(s, from) <= s.len(),
    decreases s.len() - from,
{
    if from < s.len() && s[from] != '-' {
        lemma_next_dash(s, from + 1);
    }
}

fn find_dash(s: &str, len: usize, from: usize) -> (i: usize)
    requires
        len == s@.len(),
        from <= len,
    ensures
        i == next_dash(s@, from as int),
        from <= i <= len,
{
    let mut i: usize = from;
    while i < len && s.get_char(i) != '-'
        invariant
            len == s@.len(),
            from <= i <= len,
            next_dash(s@, i as int) == next_dash(s@, from as int),
        decreases len - i,
    {
        i = i + 1;
    }
    i
}

/// Read a date written `YYYY-MM-DD`.
pub fn parse_date(s: &str) -> (r: Option<(u32, u32, u32)>)
    ensures
        match r {
            Some((y, m, d)) => date_fields(s@) == Some((y as nat, m as nat, d as nat)) && y
                <= i32::MAX,
            None => date_fields(s@) is None,
        },
{
    let len: usize = s.unicode_len();
    let i: usize = find_dash(s, len, 0);
    if i == len {
        return None;
    }
    let j: usize = find_dash(s, len, i + 1);
    if j == len {
        return None;
    }
    let k: usize = find_dash(s, len, j + 1);
    match (
        parse_number(s, 0, i, 0x7fff_ffff),
        parse_number(s, i + 1, j, 0xffff_ffff),
        parse_number(s, j + 1, k, 0xffff_ffff),
    ) {
        (Some(y), Some(m), Some(d)) => Some((y, m, d)),
        _ => None,
    }
}

/// Short names of the days, from Sunday on.
pub open spec fn weekday_name(w: int) -> Seq<char> {
    match w as u32 {
        0 => "Sun"@,
        1 => "Mon"@,
        2 => "Tue"@,
        3 => "Wed"@,
        4 => "Thu"@,
        5 => "Fri"@,
        _ => "Sat"@,
    }
}

/// The label of a forecast day: its weekday if its date has one, else how many days it is ahead.
pub open spec fn day_label(date: Seq<char>, index: nat) -> Seq<char> {
    match date_fields(date) {
        Some((y, m, d)) => if 1 <= m <= 12 {
            weekday_name(weekday(y as int, m as int, d as int))
        } else {
            "D+"@ + decimal(index)
        },
        None => "D+"@ + decimal(index),
    }
}

/// A date is three numbers with a dash between each two of them: what stands before the first dash,
/// between the two, and behind the second, up to the end or another dash. Without two dashes it is
/// none.
pub proof fn law_dates_have_three_fields(a: Seq<char>, b: Seq<char>, c: Seq<char>, rest: Seq<char>)
    requires
        !a.contains('-'),
        !b.contains('-'),
        !c.contains('-'),
    ensures
        date_fields(a) is None,
        date_fields(a + seq!['-'] + b) is None,
        date_fields(a + seq!['-'] + b + seq!['-'] + c) == date_of(a, b, c),
        date_fields(a + seq!['-'] + b + seq!['-'] + c + seq!['-'] + rest) == date_of(a, b, c),
{
    let dash = seq!['-'];
    lemma_dash_at(a, 0, a.len() as int);
    let two = a + dash + b;
    lemma_dash_at(two, 0, a.len() as int);
    lemma_dash_at(two, a.len() as int + 1, two.len() as int);
    let three = a + dash + b + dash + c;
    let i = a.len() as int;
    let j = i + 1 + b.len();
    lemma_dash_at(three, 0, i);
    lemma_dash_at(three, i + 1, j);
    lemma_dash_at(three, j + 1, three.len() as int);
    assert(three.subrange(0, i) =~= a);
    assert(three.subrange(i + 1, j) =~= b);
    assert(three.subrange(j + 1, three.len() as int) =~= c);
    let more = three + dash + rest;
    let k = three.len() as int;
    lemma_dash_at(more, 0, i);
    lemma_dash_at(more, i + 1, j);
    lemma_dash_at(more, j + 1, k);
    assert(more.subrange(0, i) =~= a);
    assert(more.subrange(i + 1, j) =~= b);
    assert(more.subrange(j + 1, k) =~= c);
}

/// The date that three texts make, if all of them are numbers.
pub open spec fn date_of(a: Seq<char>, b: Seq<char>, c: Seq<char>) -> Option<(nat, nat, nat)> {
    match (
        parsed_number(a, 0x7fff_ffff),
        parsed_number(b, 0xffff_ffff),
        parsed_number(c, 0xffff_ffff),
    ) {
        (Some(y), Some(m), Some(d)) => Some((y, m, d)),
        _ => None,
    }
}

/// Where the next dash is, if there is none before it.
proof fn lemma_dash_at(s: Seq<char>, from: int, at: int)
    requires
        0 <= from <= at <= s.len(),
        forall|k: int| from <= k < at ==> s[k] != '-',
        at < s.len() ==> s[at] == '-',
    ensures
        next_dash(s, from) == at,
        next_dash(s, s.len() as int) == s.len(),
        next_dash(s, s.len() as int + 1) == s.len(),
    decreases at - from,
{
    if from < at {
        lemma_dash_at(s, from + 1, at);
    }
}

/// A written date reads back as its year, month and day.
pub proof fn law_written_date_reads_back(y: nat, m: nat, d: nat)
    requires
        y <= i32::MAX,
        m <= u32::MAX,
        d <= u32::MAX,
    ensures
        date_fields(decimal(y) + seq!['-'] + decimal(m) + seq!['-'] + decimal(d)) == Some(
            (y, m, d),
        ),
{
    lemma_decimal_digits(y);
    lemma_decimal_digits(m);
    lemma_decimal_digits(d);
    law_decimal_reads_back(y, 0x7fff_ffff);
    law_decimal_reads_back(m, 0xffff_ffff);
    law_decimal_reads_back(d, 0xffff_ffff);
    law_dates_have_three_fields(decimal(y), decimal(m), decimal(d), Seq::empty());
}

/// A day of the forecast is called by the first letters of its weekday, Sunday being the first of
/// them, where its date has a month of the year; otherwise by how many days ahead it is.
pub proof fn law_day_is_called_by_its_weekday(date: Seq<char>, index: nat, y: nat, m: nat, d: nat)
    ensures
        date_fields(date) == Some((y, m, d)) && 1 <= m <= 12 ==> day_label(date, index) == seq![
            "Sun"@,
            "Mon"@,
            "Tue"@,
            "Wed"@,
            "Thu"@,
            "Fri"@,
            "Sat"@,
        ][weekday(y as int, m as int, d as int)],
        date_fields(date) == Some((y, m, d)) && !(1 <= m <= 12) ==> day_label(date, index) == "D+"@
            + decimal(index),
        date_fields(date) is None ==> day_label(date, index) == "D+"@ + decimal(index),
{
}

/// Best-effort weekday label from an ISO date string; falls back to "D+n".
pub fn weekday_label(date: &str, index: usize) -> (s: String)
    ensures
        s@ == day_label(date@, index as nat),
{
    match parse_date(date) {
        Some((y, m, d)) => {
            if 1 <= m && m <= 12 {
                let name: &str = match weekday_index(y as i32, m, d) {
                    0 => "Sun",
                    1 => "Mon",
                    2 => "Tue",
                    3 => "Wed",
                    4 => "Thu",
                    5 => "Fri",
                    _ => "Sat",
                };
                return name.to_owned();
            }
        },
        None => {},
    }
    let mut s: String = joined("D+", "");
    push_decimal(&mut s, index as u64);
    assert("D+"@ + ""@ + decimal(index as nat) =~= "D+"@ + decimal(index as nat)) by {
        reveal_strlit("");
    }
    s
}

/// Whether a year has a leap day.
pub open spec fn is_leap(y: int) -> bool {
    y % 4 == 0 && (y % 100 != 0 || y % 400 == 0)
}

/// How many days a month has.
pub open spec fn days_in_month(y: int, m: int) -> int {
    if m == 2 {
        if is_leap(y) {
            29
        } else {
            28
        }
    } else if m == 4 || m == 6 || m == 9 || m == 11 {
        30
    } else {
        31
    }
}

/// A date of the Gregorian calendar.
pub open spec fn valid_date(y: int, m: int, d: int) -> bool {
    1 <= m <= 12 && 1 <= d <= days_in_month(y, m)
}

/// The day after a date.
pub open spec fn next_day(y: int, m: int, d: int) -> (int, int, int) {
    if d < days_in_month(y, m) {
        (y, m, d + 1)
    } else if m < 12 {
        (y, m + 1, 1)
    } else {
        (y + 1, 1, 1)
    }
}

/// A quotient grows by one at the multiples of the divisor.
proof fn lemma_quotient_step(y: int, n: int)
    requires
        n > 1,
    ensures
        y / n == (y - 1) / n + if y % n == 0 {
            1int
        } else {
            0
        },
{
    let q = y / n;
    let r = y % n;
    lemma_fundamental_div_mod(y, n);
    assert(n * q == q * n) by (nonlinear_arith);
    assert((q - 1) * n == q * n - n) by (nonlinear_arith);
    if r == 0 {
        lemma_fundamental_div_mod_converse(y - 1, n, q - 1, n - 1);
    } else {
        lemma_fundamental_div_mod_converse(y - 1, n, q, r - 1);
    }
}

/// A multiple of a multiple is a multiple.
proof fn lemma_multiple(y: int, n: int, k: int)
    requires
        n > 0,
        k > 0,
        n * k > 0,
        y % (n * k) == 0,
    ensures
        y % n == 0,
{
    let q = y / (n * k);
    lemma_fundamental_div_mod(y, n * k);
    assert(y == (k * q) * n + 0) by (nonlinear_arith)
        requires
            y == (n * k) * q + 0,
    ;
    lemma_fundamental_div_mod_converse(y, n, k * q, 0);
}

/// A leap year adds its leap day.
proof fn lemma_leap_days(y: int)
    ensures
        leap_days(y) == leap_days(y - 1) + if is_leap(y) {
            1int
        } else {
            0
        },
{
    lemma_quotient_step(y, 4);
    lemma_quotient_step(y, 100);
    lemma_quotient_step(y, 400);
    if y % 400 == 0 {
        lemma_multiple(y, 100, 4);
    }
    if y % 100 == 0 {
        lemma_multiple(y, 4, 25);
    }
}

/// Every fourth year is a leap year, but of the hundredth ones only the four hundredth; a leap year
/// has its 29th of February, and there are 97 of them in 400 years, after which the weekdays come
/// again.
pub proof fn law_gregorian_calendar(y: int, m: int, d: int)
    ensures
        is_leap(4 * y) <==> y % 25 != 0 || y % 100 == 0,
        is_leap(y) ==> y % 4 == 0,
        days_in_month(y, 2) == 29 <==> is_leap(y),
        days_in_month(y, 2) == 28 <==> !is_leap(y),
        forall|k: int|
            k == 1 || k == 3 || k == 5 || k == 7 || k == 8 || k == 10 || k == 12
                ==> #[trigger] days_in_month(y, k) == 31,
        forall|k: int|
            k == 4 || k == 6 || k == 9 || k == 11 ==> #[trigger] days_in_month(y, k) == 30,
        leap_days(y + 400) == leap_days(y) + 97,
        weekday(y + 400, m, d) == weekday(y, m, d),
{
    lemma_400(y);
    lemma_400(y - 1);
    lemma_multiples_of_four(y);
    let base = if m < 3 {
        y - 1
    } else {
        y
    };
    let count = base + leap_days(base) + month_offset(m) + d;
    assert((count + 7 * 71) % 7 == count % 7);
}

proof fn lemma_400(y: int)
    ensures
        leap_days(y + 400) == leap_days(y) + 97,
{
}

proof fn lemma_multiples_of_four(y: int)
    ensures
        (4 * y) % 4 == 0,
        (4 * y) % 100 == 0 <==> y % 25 == 0,
        (4 * y) % 400 == 0 <==> y % 100 == 0,
{
}

/// What the weekday counts, before it is taken modulo seven: `before` is the number of leap days up
/// to the end of the year before, `upto` that up to the end of the year.
spec fn day_count(y: int, m: int, d: int, before: int, upto: int) -> int {
    if m < 3 {
        y - 1 + before + month_offset(m) + d
    } else {
        y + upto + month_offset(m) + d
    }
}

/// From one day of a year to the next, what the weekday counts goes on by one, weeks apart.
proof fn lemma_day_count(y: int, m: int, d: int, before: int, upto: int, next: int)
    requires
        valid_date(y, m, d),
        upto == before + if is_leap(y) {
            1int
        } else {
            0
        },
    ensures
        ({
            let (y1, m1, d1) = next_day(y, m, d);
            let count = day_count(y, m, d, before, upto);
            let count1 = if y1 == y {
                day_count(y1, m1, d1, before, upto)
            } else {
                day_count(y1, m1, d1, upto, next)
            };
            &&& valid_date(y1, m1, d1)
            &&& (count1 - count - 1) % 7 == 0
        }),
{
    let (y1, m1, d1) = next_day(y, m, d);
    if d1 == d + 1 {
    } else if m == 12 {
        assert(day_count(y1, m1, d1, upto, next) - day_count(y, m, d, before, upto) == -34);
    } else if m == 2 {
        assert(day_count(y1, m1, d1, before, upto) - day_count(y, m, d, before, upto) == -27);
    }
}

proof fn lemma_one_more(a: int, b: int)
    requires
        (b - a - 1) % 7 == 0,
    ensures
        b % 7 == (a % 7 + 1) % 7,
{
}

/// From one day to the next the weekday goes on by one, over the ends of months and years and
/// over leap days; and the first of January 2000 was a Saturday.
pub proof fn law_weekdays_follow(y: int, m: int, d: int)
    requires
        valid_date(y, m, d),
    ensures
        ({
            let (y1, m1, d1) = next_day(y, m, d);
            valid_date(y1, m1, d1) && weekday(y1, m1, d1) == (weekday(y, m, d) + 1) % 7
        }),
        weekday(2000, 1, 1) == 6,
{
    let (y1, m1, d1) = next_day(y, m, d);
    let before = leap_days(y - 1);
    let upto = leap_days(y);
    let next = leap_days(y + 1);
    lemma_leap_days(y);
    lemma_day_count(y, m, d, before, upto, next);
    let count = day_count(y, m, d, before, upto);
    let count1 = if y1 == y {
        day_count(y1, m1, d1, before, upto)
    } else {
        day_count(y1, m1, d1, upto, next)
    };
    lemma_one_more(count, count1);
    assert(weekday(y, m, d) == count % 7);
    assert(weekday(y1, m1, d1) == count1 % 7);
}

} // verus!
