//! Calendar dates and the date-format fallback used for the publication
//! date: a full RFC 3339 timestamp (delegated to chrono), then the plain
//! forms year-month-day, year-month, and year alone.

use vstd::prelude::*;
use vstd::string::StrSliceExecFns;

verus! {

/// A calendar date as plain values. A full timestamp is reduced to this: the
/// engine derives nothing from times or offsets.
#[derive(Debug, Clone, Copy, PartialEq, Eq, Structural)]
pub struct CalendarDate {
    pub year: i32,
    pub month: u8,
    pub day: u8,
}

/// Whether a year is a leap year in the proleptic Gregorian calendar.
pub open spec fn is_leap_year(y: int) -> bool {
    y % 4 == 0 && (y % 100 != 0 || y % 400 == 0)
}

/// The number of days of a month.
pub open spec fn days_in_month(y: int, m: int) -> int {
    if m == 2 {
        if is_leap_year(y) {
            29
        } else {
            28
        }
    } else if m == 4 || m == 6 || m == 9 || m == 11 {
        30
    } else {
        31
    }
}

impl CalendarDate {
    /// A well-formed date: a real day of a real month.
    pub open spec fn wf(&self) -> bool {
        &&& 1 <= self.month <= 12
        &&& 1 <= self.day <= days_in_month(self.year as int, self.month as int)
    }
}

/// Whether a character is a decimal digit.
pub open spec fn is_digit(c: char) -> bool {
    48 <= c as u32 && c as u32 <= 57
}

/// The value of one decimal digit.
pub open spec fn digit_val(c: char) -> int {
    c as u32 - 48
}

/// Whether every character of the sequence is a decimal digit (and there is
/// at least one).
pub open spec fn all_digits(s: Seq<char>) -> bool {
    s.len() > 0 && forall|j: int| 0 <= j < s.len() ==> is_digit(#[trigger] s[j])
}

/// The value of a decimal digit sequence.
pub open spec fn num_val(s: Seq<char>) -> int
    decreases s.len(),
{
    if s.len() == 0 {
        0
    } else {
        num_val(s.drop_last()) * 10 + digit_val(s.last())
    }
}

/// The date denoted by one of the three plain fallback forms, or `None`:
/// a four-digit year alone means January first of that year; a year and a
/// two-digit month mean the first of that month; a year, month and two-digit
/// day name that very day. A month or day out of range rejects the string.
pub open spec fn spec_simple_date(s: Seq<char>) -> Option<(int, int, int)> {
    if s.len() == 4 && all_digits(s) {
        Some((num_val(s), 1, 1))
    } else if s.len() == 7 && all_digits(s.take(4)) && s[4] == '-' && all_digits(s.skip(5)) {
        let y = num_val(s.take(4));
        let m = num_val(s.skip(5));
        if 1 <= m <= 12 {
            Some((y, m, 1))
        } else {
            None
        }
    } else if s.len() == 10 && all_digits(s.take(4)) && s[4] == '-' && all_digits(
        s.subrange(5, 7),
    ) && s[7] == '-' && all_digits(s.skip(8)) {
        let y = num_val(s.take(4));
        let m = num_val(s.subrange(5, 7));
        let d = num_val(s.skip(8));
        if 1 <= m <= 12 && 1 <= d <= days_in_month(y, m) {
            Some((y, m, d))
        } else {
            None
        }
    } else {
        None
    }
}

/// Reads the digits of `s` between `from` and `to` as a number. The result
/// of at most four digits stays below 10000.
fn read_digits(s: &str, from: usize, to: usize) -> (r: Option<u32>)
    requires
        from <= to <= s@.len(),
        to - from <= 4,
    ensures
        match r {
            Some(v) => all_digits(s@.subrange(from as int, to as int)) && v == num_val(
                s@.subrange(from as int, to as int),
            ) && v < 10000,
            None => !all_digits(s@.subrange(from as int, to as int)),
        },
{
    if from == to {
        proof {
            assert(s@.subrange(from as int, to as int).len() == 0);
        }
        return None;
    }
    let mut v: u32 = 0;
    let mut i: usize = from;
    while i < to
        invariant
            from <= i <= to <= s@.len(),
            to - from <= 4,
            v == num_val(s@.subrange(from as int, i as int)),
            forall|j: int| from <= j < i ==> is_digit(#[trigger] s@[j]),
        decreases to - i,
    {
        proof {
            assert(v < 1000) by {
                assert(forall|j: int| 0 <= j < i - from ==> is_digit(
                    #[trigger] s@.subrange(from as int, i as int)[j],
                ));
                lemma_num_val_bound(s@.subrange(from as int, i as int));
            }
        }
        let c = s.get_char(i);
        let u = c as u32;
        if !(48 <= u && u <= 57) {
            proof {
                assert(s@.subrange(from as int, to as int)[i - from] == s@[i as int]);
            }
            return None;
        }
        proof {
            assert(s@.subrange(from as int, i + 1).drop_last() =~= s@.subrange(
                from as int,
                i as int,
            ));
        }
        v = v * 10 + (u - 48);
        i += 1;
    }
    proof {
        assert(forall|j: int| 0 <= j < to - from ==> is_digit(
            #[trigger] s@.subrange(from as int, to as int)[j],
        ));
        assert(v < 10000) by {
            lemma_num_val_bound(s@.subrange(from as int, to as int));
        }
    }
    Some(v)
}

/// A digit sequence of length at most `n` denotes a value below `10^n`.
proof fn lemma_num_val_bound(s: Seq<char>)
    requires
        s.len() <= 4,
        forall|j: int| 0 <= j < s.len() ==> is_digit(#[trigger] s[j]),
    ensures
        0 <= num_val(s),
        s.len() <= 1 ==> num_val(s) < 10,
        s.len() <= 2 ==> num_val(s) < 100,
        s.len() <= 3 ==> num_val(s) < 1000,
        num_val(s) < 10000,
    decreases s.len(),
{
    if s.len() > 0 {
        lemma_num_val_bound(s.drop_last());
    }
}

/// Parses one of the plain fallback date forms.
pub fn parse_simple_date(s: &str) -> (r: Option<CalendarDate>)
    ensures
        match r {
            Some(d) => d.wf() && spec_simple_date(s@) == Some(
                (d.year as int, d.month as int, d.day as int),
            ),
            None => spec_simple_date(s@) is None,
        },
{
    let n = s.unicode_len();
    if n == 4 {
        match read_digits(s, 0, 4) {
            Some(y) => {
                proof {
                    assert(s@.subrange(0, 4) =~= s@);
                }
                Some(CalendarDate { year: y as i32, month: 1, day: 1 })
            },
            None => {
                proof {
                    assert(s@.subrange(0, 4) =~= s@);
                }
                None
            },
        }
    } else if n == 7 {
        if s.get_char(4) == '-' {
            match (read_digits(s, 0, 4), read_digits(s, 5, 7)) {
                (Some(y), Some(m)) => {
                    proof {
                        assert(s@.subrange(0, 4) =~= s@.take(4));
                        assert(s@.subrange(5, 7) =~= s@.skip(5));
                    }
                    if 1 <= m && m <= 12 {
                        Some(CalendarDate { year: y as i32, month: m as u8, day: 1 })
                    } else {
                        None
                    }
                },
                _ => {
                    proof {
                        assert(s@.subrange(0, 4) =~= s@.take(4));
                        assert(s@.subrange(5, 7) =~= s@.skip(5));
                    }
                    None
                },
            }
        } else {
            None
        }
    } else if n == 10 {
        if s.get_char(4) == '-' && s.get_char(7) == '-' {
            match (read_digits(s, 0, 4), read_digits(s, 5, 7), read_digits(s, 8, 10)) {
                (Some(y), Some(m), Some(d)) => {
                    proof {
                        assert(s@.subrange(0, 4) =~= s@.take(4));
                        assert(s@.subrange(8, 10) =~= s@.skip(8));
                    }
                    if 1 <= m && m <= 12 && 1 <= d && d <= days_in_month_x(y as i32, m as u8) as u32 {
                        Some(CalendarDate { year: y as i32, month: m as u8, day: d as u8 })
                    } else {
                        None
                    }
                },
                _ => {
                    proof {
                        assert(s@.subrange(0, 4) =~= s@.take(4));
                        assert(s@.subrange(8, 10) =~= s@.skip(8));
                    }
                    None
                },
            }
        } else {
            None
        }
    } else {
        None
    }
}

/// The number of days of a month, executable form.
#[verifier::rlimit(60)]
fn days_in_month_x(y: i32, m: u8) -> (r: u8)
    requires
        y >= 0,
    ensures
        r as int == days_in_month(y as int, m as int),
{
    if m == 2 {
        if y % 4 == 0 && (y % 100 != 0 || y % 400 == 0) {
            29
        } else {
            28
        }
    } else if m == 4 || m == 6 || m == 9 || m == 11 {
        30
    } else {
        31
    }
}

} // verus!
