//! HTTP dates in their fixed-length form, such as
//! `Sun, 06 Nov 1994 08:49:37 GMT`.

use crate::text::{chars_of, is_digit};
use vstd::prelude::*;

verus! {

/// Number of characters of a date.
pub const DATE_LEN: usize = 29;

/// Seconds of a day.
pub const DAY_SECS: u64 = 86400;

/// Whether `year` is a leap year.
pub open spec fn is_leap(year: int) -> bool {
    year % 4 == 0 && (year % 100 != 0 || year % 400 == 0)
}

/// The number of days of the month `month` (from 1) of `year`.
pub open spec fn month_days(year: int, month: int) -> int {
    if month == 2 {
        if is_leap(year) {
            29
        } else {
            28
        }
    } else if month == 4 || month == 6 || month == 9 || month == 11 {
        30
    } else {
        31
    }
}

/// The number of days of `year` before its month `month` (from 1).
pub open spec fn days_before_month(year: int, month: int) -> int
    decreases month,
{
    if month <= 1 {
        0
    } else {
        days_before_month(year, month - 1) + month_days(year, month - 1)
    }
}

/// The number of leap years from year 1 up to and including `year`.
pub open spec fn leaps_through(year: int) -> int {
    year / 4 - year / 100 + year / 400
}

/// The number of days from the first day of 1970 to the first day of
/// `year`; `year` is 1970 or later.
pub open spec fn days_before_year(year: int) -> int {
    365 * (year - 1970) + leaps_through(year - 1) - leaps_through(1969)
}

/// The seconds from the beginning of 1970 to the given moment of the given
/// day.
pub open spec fn unix_seconds(year: int, month: int, day: int, hour: int, minute: int, second: int) -> int {
    (days_before_year(year) + days_before_month(year, month) + (day - 1)) * 86400 + hour * 3600
        + minute * 60 + second
}

/// The value of the digit `c`.
pub open spec fn digit_of(c: char) -> int {
    c as u32 - 0x30
}

/// The number that the `count` characters of `s` from `at` spell, if they
/// are all digits.
pub open spec fn number_at(s: Seq<char>, at: int, count: int) -> Option<int>
    decreases count,
{
    if count <= 0 {
        Some(0)
    } else if !is_digit(s[at + count - 1]) {
        None
    } else {
        match number_at(s, at, count - 1) {
            Some(n) => Some(n * 10 + digit_of(s[at + count - 1])),
            None => None,
        }
    }
}

/// Whether the three characters of `s` from `at` are `a`, `b` and `c`.
pub open spec fn word_at(s: Seq<char>, at: int, a: char, b: char, c: char) -> bool {
    s[at] == a && s[at + 1] == b && s[at + 2] == c
}

/// The month (from 1) that the three characters of `s` from `at` name.
pub open spec fn month_at(s: Seq<char>, at: int) -> Option<int> {
    if word_at(s, at, 'J', 'a', 'n') {
        Some(1)
    } else if word_at(s, at, 'F', 'e', 'b') {
        Some(2)
    } else if word_at(s, at, 'M', 'a', 'r') {
        Some(3)
    } else if word_at(s, at, 'A', 'p', 'r') {
        Some(4)
    } else if word_at(s, at, 'M', 'a', 'y') {
        Some(5)
    } else if word_at(s, at, 'J', 'u', 'n') {
        Some(6)
    } else if word_at(s, at, 'J', 'u', 'l') {
        Some(7)
    } else if word_at(s, at, 'A', 'u', 'g') {
        Some(8)
    } else if word_at(s, at, 'S', 'e', 'p') {
        Some(9)
    } else if word_at(s, at, 'O', 'c', 't') {
        Some(10)
    } else if word_at(s, at, 'N', 'o', 'v') {
        Some(11)
    } else if word_at(s, at, 'D', 'e', 'c') {
        Some(12)
    } else {
        None
    }
}

/// Whether the three characters of `s` from `at` name a day of the week.
pub open spec fn weekday_at(s: Seq<char>, at: int) -> bool {
    ||| word_at(s, at, 'M', 'o', 'n')
    ||| word_at(s, at, 'T', 'u', 'e')
    ||| word_at(s, at, 'W', 'e', 'd')
    ||| word_at(s, at, 'T', 'h', 'u')
    ||| word_at(s, at, 'F', 'r', 'i')
    ||| word_at(s, at, 'S', 'a', 't')
    ||| word_at(s, at, 'S', 'u', 'n')
}

/// Whether `s` has the punctuation of a date: a comma and spaces, colons
/// in the time, and `GMT` at the end.
pub open spec fn framed(s: Seq<char>) -> bool {
    &&& s.len() == DATE_LEN
    &&& s[3] == ','
    &&& s[4] == ' '
    &&& s[7] == ' '
    &&& s[11] == ' '
    &&& s[16] == ' '
    &&& s[19] == ':'
    &&& s[22] == ':'
    &&& s[25] == ' '
    &&& word_at(s, 26, 'G', 'M', 'T')
}

/// The moment that the date `s` names, in seconds since the beginning of
/// 1970.
///
/// `s` is a day of the week, a comma, the day of the month in two digits,
/// the month by name, the year in four digits, the time as `hh:mm:ss`, and
/// `GMT`. The day must exist in its month, and the year must be 1970 or
/// later. The day of the week is not held against the date.
pub open spec fn date_seconds(s: Seq<char>) -> Option<u64> {
    if !framed(s) || !weekday_at(s, 0) {
        None
    } else {
        match (
            number_at(s, 5, 2),
            month_at(s, 8),
            number_at(s, 12, 4),
            number_at(s, 17, 2),
            number_at(s, 20, 2),
            number_at(s, 23, 2),
        ) {
            (Some(day), Some(month), Some(year), Some(hour), Some(minute), Some(second)) => {
                if year >= 1970 && 1 <= day <= month_days(year, month) && hour <= 23 && minute
                    <= 59 && second <= 60 {
                    Some(unix_seconds(year, month, day, hour, minute, second) as u64)
                } else {
                    None
                }
            },
            _ => None,
        }
    }
}

fn read_number(v: &Vec<char>, at: usize, count: usize) -> (r: Option<u64>)
    requires
        at + count <= v.len(),
        count <= 4,
    ensures
        match r {
            Some(n) => number_at(v@, at as int, count as int) == Some(n as int) && n < 10000,
            None => number_at(v@, at as int, count as int) is None,
        },
{
    let mut n: u64 = 0;
    let mut i: usize = 0;
    let mut bound: Ghost<int> = Ghost(1);
    while i < count
        invariant
            i <= count,
            count <= 4,
            at + count <= v.len(),
            number_at(v@, at as int, i as int) == Some(n as int),
            0 <= n < bound@,
            bound@ == if i == 0 {
                1int
            } else if i == 1 {
                10int
            } else if i == 2 {
                100int
            } else if i == 3 {
                1000int
            } else {
                10000int
            },
        decreases count - i,
    {
        let c: char = v[at + i];
        if !('0' <= c && c <= '9') {
            proof {
                lemma_number_stops(v@, at as int, i as int + 1, count as int);
            }
            return None;
        }
        n = n * 10 + (c as u32 - 0x30) as u64;
        i += 1;
        proof {
            bound@ = bound@ * 10;
        }
    }
    Some(n)
}

/// Once a prefix fails to spell a number, so does every longer one.
proof fn lemma_number_stops(s: Seq<char>, at: int, short: int, long: int)
    requires
        0 < short <= long,
        number_at(s, at, short) is None,
    ensures
        number_at(s, at, long) is None,
    decreases long - short,
{
    if short < long {
        lemma_number_stops(s, at, short, long - 1);
    }
}

fn is_word(v: &Vec<char>, at: usize, a: char, b: char, c: char) -> (r: bool)
    requires
        at + 3 <= v.len(),
    ensures
        r == word_at(v@, at as int, a, b, c),
{
    v[at] == a && v[at + 1] == b && v[at + 2] == c
}

fn read_month(v: &Vec<char>, at: usize) -> (r: Option<u64>)
    requires
        at + 3 <= v.len(),
    ensures
        match r {
            Some(m) => month_at(v@, at as int) == Some(m as int) && 1 <= m <= 12,
            None => month_at(v@, at as int) is None,
        },
{
    if is_word(v, at, 'J', 'a', 'n') {
        Some(1)
    } else if is_word(v, at, 'F', 'e', 'b') {
        Some(2)
    } else if is_word(v, at, 'M', 'a', 'r') {
        Some(3)
    } else if is_word(v, at, 'A', 'p', 'r') {
        Some(4)
    } else if is_word(v, at, 'M', 'a', 'y') {
        Some(5)
    } else if is_word(v, at, 'J', 'u', 'n') {
        Some(6)
    } else if is_word(v, at, 'J', 'u', 'l') {
        Some(7)
    } else if is_word(v, at, 'A', 'u', 'g') {
        Some(8)
    } else if is_word(v, at, 'S', 'e', 'p') {
        Some(9)
    } else if is_word(v, at, 'O', 'c', 't') {
        Some(10)
    } else if is_word(v, at, 'N', 'o', 'v') {
        Some(11)
    } else if is_word(v, at, 'D', 'e', 'c') {
        Some(12)
    } else {
        None
    }
}

fn leap(year: u64) -> (r: bool)
    ensures
        r == is_leap(year as int),
{
    year % 4 == 0 && (year % 100 != 0 || year % 400 == 0)
}

fn days_in(year: u64, month: u64) -> (r: u64)
    ensures
        r == month_days(year as int, month as int),
        28 <= r <= 31,
{
    if month == 2 {
        if leap(year) {
            29
        } else {
            28
        }
    } else if month == 4 || month == 6 || month == 9 || month == 11 {
        30
    } else {
        31
    }
}

fn days_before(year: u64, month: u64) -> (r: u64)
    requires
        1 <= month <= 12,
    ensures
        r == days_before_month(year as int, month as int),
        r <= 31 * 11,
{
    let mut total: u64 = 0;
    let mut m: u64 = 1;
    while m < month
        invariant
            1 <= m <= month <= 12,
            total == days_before_month(year as int, m as int),
            total <= 31 * (m - 1),
        decreases month - m,
    {
        total = total + days_in(year, m);
        m += 1;
    }
    total
}

/// Reads an HTTP date.
pub fn parse_http_date(text: &str) -> (r: Option<u64>)
    ensures
        r == date_seconds(text@),
{
    let v = chars_of(text);
    if v.len() != DATE_LEN {
        return None;
    }
    let framed = v[3] == ',' && v[4] == ' ' && v[7] == ' ' && v[11] == ' ' && v[16] == ' ' && v[19]
        == ':' && v[22] == ':' && v[25] == ' ' && is_word(&v, 26, 'G', 'M', 'T');
    if !framed {
        return None;
    }
    let weekday = is_word(&v, 0, 'M', 'o', 'n') || is_word(&v, 0, 'T', 'u', 'e') || is_word(
        &v,
        0,
        'W',
        'e',
        'd',
    ) || is_word(&v, 0, 'T', 'h', 'u') || is_word(&v, 0, 'F', 'r', 'i') || is_word(
        &v,
        0,
        'S',
        'a',
        't',
    ) || is_word(&v, 0, 'S', 'u', 'n');
    if !weekday {
        return None;
    }
    let day = read_number(&v, 5, 2);
    let month = read_month(&v, 8);
    let year = read_number(&v, 12, 4);
    let hour = read_number(&v, 17, 2);
    let minute = read_number(&v, 20, 2);
    let second = read_number(&v, 23, 2);
    match (day, month, year, hour, minute, second) {
        (Some(day), Some(month), Some(year), Some(hour), Some(minute), Some(second)) => {
            if year >= 1970 && 1 <= day && day <= days_in(year, month) && hour <= 23 && minute <= 59
                && second <= 60 {
                let before = year - 1;
                let leaps = before / 4 - before / 100 + before / 400;
                // the leap years through 1969
                let base: u64 = 1969 / 4 - 1969 / 100 + 1969 / 400;
                assert(leaps >= base) by {
                    assert(before >= 1969);
                }
                let days = 365 * (year - 1970) + (leaps - base) + days_before(year, month) + (day
                    - 1);
                Some(days * DAY_SECS + hour * 3600 + minute * 60 + second)
            } else {
                None
            }
        },
        _ => None,
    }
}

} // verus!
