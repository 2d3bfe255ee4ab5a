use crate::text::{all_digits, char_is_digit, digit_value, digits_value, is_ascii_digit};
use vstd::prelude::*;
use vstd::string::*;

verus! {

/// A proleptic Gregorian calendar date, held as plain numbers.
#[derive(Clone, Copy, Debug, PartialEq, Eq, Structural)]
pub struct CalendarDate {
    pub year: i32,
    pub month: u8,
    pub day: u8,
}

pub open spec fn is_leap_year(y: int) -> bool {
    (y % 4 == 0 && y % 100 != 0) || y % 400 == 0
}

pub open spec fn days_in_month(y: int, m: int) -> int
    recommends
        1 <= m <= 12,
{
    if m == 2 {
        if is_leap_year(y) {
            29
        } else {
            28
        }
    } else if m == 4 || m == 6 || m == 9 || m == 11 {
        30
    } else {
        31
    }
}

/// A well-formed date: the year fits in four digits and the day exists in its month.
pub open spec fn date_wf(d: CalendarDate) -> bool {
    &&& 0 <= d.year <= 9999
    &&& 1 <= d.month <= 12
    &&& 1 <= d.day <= days_in_month(d.year as int, d.month as int)
}

/// Number of days in month `m` of year `y`.
pub fn month_length(y: i32, m: u8) -> (r: u8)
    requires
        y >= 0,
        1 <= m <= 12,
    ensures
        r == days_in_month(y as int, m as int),
{
    if m == 2 {
        if (y % 4 == 0 && y % 100 != 0) || y % 400 == 0 {
            29
        } else {
            28
        }
    } else if m == 4 || m == 6 || m == 9 || m == 11 {
        30
    } else {
        31
    }
}

/// The date denoted by `s`: a four-digit year (January 1 of that year), or a
/// `YYYY-MM-DD` string naming a day that exists in its month; anything else
/// denotes nothing.
pub open spec fn spec_parse_date(s: Seq<char>) -> Option<CalendarDate> {
    if s.len() == 4 && all_digits(s) {
        Some(CalendarDate { year: digits_value(s) as i32, month: 1, day: 1 })
    } else if is_ymd_shape(s) {
        let y = digits_value(s.subrange(0, 4));
        let m = digits_value(s.subrange(5, 7));
        let d = digits_value(s.subrange(8, 10));
        if 1 <= m <= 12 && 1 <= d <= days_in_month(y, m) {
            Some(CalendarDate { year: y as i32, month: m as u8, day: d as u8 })
        } else {
            None
        }
    } else {
        None
    }
}

/// The strict `YYYY-MM-DD` shape: ten characters, digits in the three groups,
/// `-` between them.
pub open spec fn is_ymd_shape(s: Seq<char>) -> bool {
    &&& s.len() == 10
    &&& all_digits(s.subrange(0, 4))
    &&& s[4] == '-'
    &&& all_digits(s.subrange(5, 7))
    &&& s[7] == '-'
    &&& all_digits(s.subrange(8, 10))
}

/// Read two ASCII digits starting at `at`.
fn read2(s: &str, at: usize) -> (r: Option<u32>)
    requires
        at + 2 <= s@.len(),
        s@.len() <= usize::MAX,
    ensures
        match r {
            Some(v) => all_digits(s@.subrange(at as int, at as int + 2)) && v == digits_value(
                s@.subrange(at as int, at as int + 2),
            ) && v <= 99,
            None => !all_digits(s@.subrange(at as int, at as int + 2)),
        },
{
    let c0 = s.get_char(at);
    let c1 = s.get_char(at + 1);
    let ghost t = s@.subrange(at as int, at as int + 2);
    if char_is_digit(c0) && char_is_digit(c1) {
        let v = ((c0 as u32) - 48) * 10 + ((c1 as u32) - 48);
        proof {
            reveal_with_fuel(digits_value, 4);
            assert(t.drop_last() =~= s@.subrange(at as int, at as int + 1));
            assert(t.drop_last().drop_last() =~= Seq::<char>::empty());
        }
        Some(v)
    } else {
        proof {
            if !is_ascii_digit(c0) {
                assert(t[0] == c0);
            } else {
                assert(t[1] == c1);
            }
        }
        None
    }
}

/// Read four ASCII digits starting at `at`.
fn read4(s: &str, at: usize) -> (r: Option<u32>)
    requires
        at + 4 <= s@.len(),
        s@.len() <= usize::MAX,
    ensures
        match r {
            Some(v) => all_digits(s@.subrange(at as int, at as int + 4)) && v == digits_value(
                s@.subrange(at as int, at as int + 4),
            ) && v <= 9999,
            None => !all_digits(s@.subrange(at as int, at as int + 4)),
        },
{
    let c0 = s.get_char(at);
    let c1 = s.get_char(at + 1);
    let c2 = s.get_char(at + 2);
    let c3 = s.get_char(at + 3);
    let ghost t = s@.subrange(at as int, at as int + 4);
    if char_is_digit(c0) && char_is_digit(c1) && char_is_digit(c2) && char_is_digit(c3) {
        let v = (((c0 as u32) - 48) * 10 + ((c1 as u32) - 48)) * 100 + ((c2 as u32) - 48) * 10 + (
        (c3 as u32) - 48);
        proof {
            reveal_with_fuel(digits_value, 6);
            assert(t.drop_last() =~= s@.subrange(at as int, at as int + 3));
            assert(t.drop_last().drop_last() =~= s@.subrange(at as int, at as int + 2));
            assert(t.drop_last().drop_last().drop_last() =~= s@.subrange(at as int, at as int + 1));
            assert(t.drop_last().drop_last().drop_last().drop_last() =~= Seq::<char>::empty());
        }
        Some(v)
    } else {
        proof {
            if !is_ascii_digit(c0) {
                assert(t[0] == c0);
            } else if !is_ascii_digit(c1) {
                assert(t[1] == c1);
            } else if !is_ascii_digit(c2) {
                assert(t[2] == c2);
            } else {
                assert(t[3] == c3);
            }
        }
        None
    }
}

/// Decode a date string: a bare four-digit year becomes January 1 of that
/// year; a strict `YYYY-MM-DD` string becomes that calendar date; any other
/// string is refused.
pub fn parse_date(s: &str) -> (r: Option<CalendarDate>)
    ensures
        r == spec_parse_date(s@),
        r matches Some(d) ==> date_wf(d),
{
    let n = s.unicode_len();
    if n == 4 {
        match read4(s, 0) {
            Some(y) => {
                proof {
                    assert(s@.subrange(0, 4) =~= s@);
                }
                Some(CalendarDate { year: y as i32, month: 1, day: 1 })
            },
            None => {
                proof {
                    assert(s@.subrange(0, 4) =~= s@);
                }
                None
            },
        }
    } else if n == 10 {
        if s.get_char(4) != '-' || s.get_char(7) != '-' {
            return None;
        }
        let y = match read4(s, 0) {
            Some(y) => y,
            None => {
                return None;
            },
        };
        let m = match read2(s, 5) {
            Some(m) => m,
            None => {
                return None;
            },
        };
        let d = match read2(s, 8) {
            Some(d) => d,
            None => {
                return None;
            },
        };
        if m < 1 || m > 12 {
            return None;
        }
        let dim = month_length(y as i32, m as u8);
        if d < 1 || d > dim as u32 {
            return None;
        }
        Some(CalendarDate { year: y as i32, month: m as u8, day: d as u8 })
    } else {
        None
    }
}

} // verus!
