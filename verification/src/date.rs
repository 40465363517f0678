use crate::error::BirthdayError;
use vstd::prelude::*;

verus! {

/// A calendar date in the proleptic Gregorian calendar, held as plain fields.
///
/// The year is stored but never used for matching birthdays; it only decides
/// leap years and the stored point in time.
#[derive(Clone, Copy, Debug, PartialEq, Eq, Structural)]
pub struct Date {
    pub day: u32,
    pub month: u32,
    pub year: u32,
}

pub open spec fn spec_is_leap_year(y: int) -> bool {
    (y % 4 == 0 && y % 100 != 0) || y % 400 == 0
}

pub open spec fn spec_days_in_month(y: int, m: int) -> int {
    if m == 2 {
        if spec_is_leap_year(y) {
            29
        } else {
            28
        }
    } else if m == 4 || m == 6 || m == 9 || m == 11 {
        30
    } else {
        31
    }
}

impl Date {
    /// A real calendar date, within the four-digit years the record format
    /// can carry.
    pub open spec fn wf(self) -> bool {
        &&& 1 <= self.month <= 12
        &&& 1 <= self.day <= spec_days_in_month(self.year as int, self.month as int)
        &&& self.year <= 9999
    }

    /// Builds a date after checking that the fields name a real calendar day.
    pub fn new(day: u32, month: u32, year: u32) -> (r: Option<Date>)
        ensures
            match r {
                Some(d) => d == (Date { day, month, year }) && d.wf(),
                None => !(Date { day, month, year }).wf(),
            },
    {
        let d = Date { day, month, year };
        if 1 <= month && month <= 12 && 1 <= day && day <= days_in_month(year, month) && year
            <= 9999 {
            Some(d)
        } else {
            None
        }
    }
}

/// A decimal digit, by code point.
pub open spec fn spec_is_digit(c: char) -> bool {
    48 <= c as int <= 57
}

/// A field separator of the date format: `-` or `/`.
pub open spec fn spec_is_sep(c: char) -> bool {
    c as int == 45 || c as int == 47
}

pub open spec fn spec_all_digits(s: Seq<char>) -> bool {
    forall|j: int| 0 <= j < s.len() ==> spec_is_digit(#[trigger] s[j])
}

/// The number a string of decimal digits denotes.
pub open spec fn spec_digits_val(s: Seq<char>) -> int
    decreases s.len(),
{
    if s.len() == 0 {
        0
    } else {
        spec_digits_val(s.drop_last()) * 10 + (s.last() as int - 48)
    }
}

/// The text `s` splits as a date string whose day field is `a` digits wide
/// and whose month field is `b` digits wide: digits, a separator, digits, a
/// separator, and a four-digit year.
pub open spec fn spec_field_split(s: Seq<char>, a: int, b: int) -> bool {
    &&& 1 <= a <= 2
    &&& 1 <= b <= 2
    &&& s.len() == a + b + 6
    &&& spec_all_digits(s.subrange(0, a))
    &&& spec_is_sep(s[a])
    &&& spec_all_digits(s.subrange(a + 1, a + 1 + b))
    &&& spec_is_sep(s[a + 1 + b])
    &&& spec_all_digits(s.subrange(a + b + 2, a + b + 6))
}

/// The date the split fields denote, day-month-year.
pub open spec fn spec_split_date(s: Seq<char>, a: int, b: int) -> Date {
    Date {
        day: spec_digits_val(s.subrange(0, a)) as u32,
        month: spec_digits_val(s.subrange(a + 1, a + 1 + b)) as u32,
        year: spec_digits_val(s.subrange(a + b + 2, a + b + 6)) as u32,
    }
}

/// The text `s` is a well-formed date string denoting `d`.
pub open spec fn spec_parses_to(s: Seq<char>, d: Date) -> bool {
    exists|a: int, b: int| spec_field_split(s, a, b) && d == spec_split_date(s, a, b)
}

pub proof fn lemma_digits_val_bound(s: Seq<char>)
    requires
        spec_all_digits(s),
        s.len() <= 4,
    ensures
        0 <= spec_digits_val(s),
        s.len() <= 1 ==> spec_digits_val(s) < 10,
        s.len() <= 2 ==> spec_digits_val(s) < 100,
        s.len() <= 3 ==> spec_digits_val(s) < 1000,
        spec_digits_val(s) < 10000,
    decreases s.len(),
{
    if s.len() > 0 {
        assert(spec_all_digits(s.drop_last())) by {
            assert(forall|j: int|
                0 <= j < s.len() - 1 ==> #[trigger] s.drop_last()[j] == s[j]);
        }
        lemma_digits_val_bound(s.drop_last());
    }
}

/// The widths of the day field are forced by the text: a separator is not a
/// digit, so the day field ends at the first non-digit.
proof fn lemma_day_width(s: Seq<char>, a: int, b: int)
    requires
        spec_field_split(s, a, b),
    ensures
        a == if spec_is_digit(s[1]) {
            2int
        } else {
            1int
        },
{
    if a == 2 {
        assert(s.subrange(0, 2)[1] == s[1]);
    }
}

/// Given the day width, the month width is forced the same way.
proof fn lemma_month_width(s: Seq<char>, a: int, b: int)
    requires
        spec_field_split(s, a, b),
    ensures
        b == if spec_is_digit(s[a + 2]) {
            2int
        } else {
            1int
        },
{
    if b == 2 {
        assert(s.subrange(a + 1, a + 3)[1] == s[a + 2]);
    }
}

fn is_digit_char(c: char) -> (r: bool)
    ensures
        r == spec_is_digit(c),
{
    let u = c as u32;
    48 <= u && u <= 57
}

fn is_sep_char(c: char) -> (r: bool)
    ensures
        r == spec_is_sep(c),
{
    let u = c as u32;
    u == 45 || u == 47
}

fn digit_value(c: char) -> (v: u32)
    requires
        spec_is_digit(c),
    ensures
        v as int == c as int - 48,
        v <= 9,
{
    c as u32 - 48
}

/// Parses a birthday written day-month-year: one or two digits of day, a
/// separator (`-` or `/`), one or two digits of month, a separator, and a
/// four-digit year. Returns the date exactly when the text matches that
/// format and names a real calendar date; otherwise `InvalidDate`.
pub fn parse_date(s: &str) -> (r: Result<Date, BirthdayError>)
    ensures
        match r {
            Ok(d) => spec_parses_to(s@, d) && d.wf(),
            Err(e) => {
                &&& e == BirthdayError::InvalidDate
                &&& forall|d: Date| !(spec_parses_to(s@, d) && d.wf())
            },
        },
{
    let n = s.unicode_len();
    if n < 8 || n > 10 {
        proof {
            assert forall|d: Date| !(spec_parses_to(s@, d) && d.wf()) by {
                if spec_parses_to(s@, d) {
                    let (a2, b2) = choose|a2: int, b2: int|
                        spec_field_split(s@, a2, b2) && d == spec_split_date(s@, a2, b2);
                }
            }
        }
        return Err(BirthdayError::InvalidDate);
    }
    if !is_digit_char(s.get_char(0)) {
        proof {
            assert forall|d: Date| !(spec_parses_to(s@, d) && d.wf()) by {
                if spec_parses_to(s@, d) {
                    let (a2, b2) = choose|a2: int, b2: int|
                        spec_field_split(s@, a2, b2) && d == spec_split_date(s@, a2, b2);
                    assert(s@.subrange(0, a2)[0] == s@[0]);
                }
            }
        }
        return Err(BirthdayError::InvalidDate);
    }
    let a: usize = if is_digit_char(s.get_char(1)) {
        2
    } else {
        1
    };
    if !is_sep_char(s.get_char(a)) {
        proof {
            assert forall|d: Date| !(spec_parses_to(s@, d) && d.wf()) by {
                if spec_parses_to(s@, d) {
                    let (a2, b2) = choose|a2: int, b2: int|
                        spec_field_split(s@, a2, b2) && d == spec_split_date(s@, a2, b2);
                    lemma_day_width(s@, a2, b2);
                }
            }
        }
        return Err(BirthdayError::InvalidDate);
    }
    if !is_digit_char(s.get_char(a + 1)) {
        proof {
            assert forall|d: Date| !(spec_parses_to(s@, d) && d.wf()) by {
                if spec_parses_to(s@, d) {
                    let (a2, b2) = choose|a2: int, b2: int|
                        spec_field_split(s@, a2, b2) && d == spec_split_date(s@, a2, b2);
                    lemma_day_width(s@, a2, b2);
                    assert(s@.subrange(a2 + 1, a2 + 1 + b2)[0] == s@[a2 + 1]);
                }
            }
        }
        return Err(BirthdayError::InvalidDate);
    }
    let b: usize = if is_digit_char(s.get_char(a + 2)) {
        2
    } else {
        1
    };
    if !is_sep_char(s.get_char(a + 1 + b)) {
        proof {
            assert forall|d: Date| !(spec_parses_to(s@, d) && d.wf()) by {
                if spec_parses_to(s@, d) {
                    let (a2, b2) = choose|a2: int, b2: int|
                        spec_field_split(s@, a2, b2) && d == spec_split_date(s@, a2, b2);
                    lemma_day_width(s@, a2, b2);
                    lemma_month_width(s@, a2, b2);
                }
            }
        }
        return Err(BirthdayError::InvalidDate);
    }
    if n != a + b + 6 {
        proof {
            assert forall|d: Date| !(spec_parses_to(s@, d) && d.wf()) by {
                if spec_parses_to(s@, d) {
                    let (a2, b2) = choose|a2: int, b2: int|
                        spec_field_split(s@, a2, b2) && d == spec_split_date(s@, a2, b2);
                    lemma_day_width(s@, a2, b2);
                    lemma_month_width(s@, a2, b2);
                }
            }
        }
        return Err(BirthdayError::InvalidDate);
    }
    let y_start = a + b + 2;
    if !is_digit_char(s.get_char(y_start)) || !is_digit_char(s.get_char(y_start + 1))
        || !is_digit_char(s.get_char(y_start + 2)) || !is_digit_char(s.get_char(y_start + 3)) {
        proof {
            assert forall|d: Date| !(spec_parses_to(s@, d) && d.wf()) by {
                if spec_parses_to(s@, d) {
                    let (a2, b2) = choose|a2: int, b2: int|
                        spec_field_split(s@, a2, b2) && d == spec_split_date(s@, a2, b2);
                    lemma_day_width(s@, a2, b2);
                    lemma_month_width(s@, a2, b2);
                    assert(s@.subrange(a2 + b2 + 2, a2 + b2 + 6)[0] == s@[a2 + b2 + 2]);
                    assert(s@.subrange(a2 + b2 + 2, a2 + b2 + 6)[1] == s@[a2 + b2 + 3]);
                    assert(s@.subrange(a2 + b2 + 2, a2 + b2 + 6)[2] == s@[a2 + b2 + 4]);
                    assert(s@.subrange(a2 + b2 + 2, a2 + b2 + 6)[3] == s@[a2 + b2 + 5]);
                }
            }
        }
        return Err(BirthdayError::InvalidDate);
    }
    let d0 = digit_value(s.get_char(0));
    let day_val: u32 = if a == 2 {
        10 * d0 + digit_value(s.get_char(1))
    } else {
        d0
    };
    proof {
        assert(s@.subrange(0, 1).drop_last() =~= s@.subrange(0, 0));
        assert(s@.subrange(0, 1).last() == s@[0]);
        assert(spec_digits_val(s@.subrange(0, 0)) == 0);
        assert(spec_digits_val(s@.subrange(0, 1)) == s@[0] as int - 48);
        if a == 2 {
            assert(s@.subrange(0, 2).drop_last() =~= s@.subrange(0, 1));
            assert(s@.subrange(0, 2).last() == s@[1]);
            assert(spec_digits_val(s@.subrange(0, 2)) == (s@[0] as int - 48) * 10 + (
            s@[1] as int - 48));
        }
        assert(day_val as int == spec_digits_val(s@.subrange(0, a as int)));
    }
    let m0 = digit_value(s.get_char(a + 1));
    let month_val: u32 = if b == 2 {
        10 * m0 + digit_value(s.get_char(a + 2))
    } else {
        m0
    };
    proof {
        let ai = a as int;
        assert(s@.subrange(ai + 1, ai + 2).drop_last() =~= s@.subrange(ai + 1, ai + 1));
        assert(s@.subrange(ai + 1, ai + 2).last() == s@[ai + 1]);
        assert(spec_digits_val(s@.subrange(ai + 1, ai + 1)) == 0);
        assert(spec_digits_val(s@.subrange(ai + 1, ai + 2)) == s@[ai + 1] as int - 48);
        if b == 2 {
            assert(s@.subrange(ai + 1, ai + 3).drop_last() =~= s@.subrange(ai + 1, ai + 2));
            assert(s@.subrange(ai + 1, ai + 3).last() == s@[ai + 2]);
            assert(spec_digits_val(s@.subrange(ai + 1, ai + 3)) == (s@[ai + 1] as int - 48) * 10
                + (s@[ai + 2] as int - 48));
        }
        assert(month_val as int == spec_digits_val(s@.subrange(ai + 1, ai + 1 + b as int)));
    }
    let y0 = digit_value(s.get_char(y_start));
    let y1 = digit_value(s.get_char(y_start + 1));
    let y2 = digit_value(s.get_char(y_start + 2));
    let y3 = digit_value(s.get_char(y_start + 3));
    let year_val: u32 = ((y0 * 10 + y1) * 10 + y2) * 10 + y3;
    proof {
        let yi = y_start as int;
        assert(s@.subrange(yi, yi + 1).drop_last() =~= s@.subrange(yi, yi));
        assert(s@.subrange(yi, yi + 1).last() == s@[yi]);
        assert(spec_digits_val(s@.subrange(yi, yi)) == 0);
        assert(spec_digits_val(s@.subrange(yi, yi + 1)) == s@[yi] as int - 48);
        assert(s@.subrange(yi, yi + 2).drop_last() =~= s@.subrange(yi, yi + 1));
        assert(s@.subrange(yi, yi + 2).last() == s@[yi + 1]);
        assert(spec_digits_val(s@.subrange(yi, yi + 2)) == (s@[yi] as int - 48) * 10 + (
        s@[yi + 1] as int - 48));
        assert(s@.subrange(yi, yi + 3).drop_last() =~= s@.subrange(yi, yi + 2));
        assert(s@.subrange(yi, yi + 3).last() == s@[yi + 2]);
        assert(spec_digits_val(s@.subrange(yi, yi + 3)) == spec_digits_val(
            s@.subrange(yi, yi + 2),
        ) * 10 + (s@[yi + 2] as int - 48));
        assert(s@.subrange(yi, yi + 4).drop_last() =~= s@.subrange(yi, yi + 3));
        assert(s@.subrange(yi, yi + 4).last() == s@[yi + 3]);
        assert(spec_digits_val(s@.subrange(yi, yi + 4)) == spec_digits_val(
            s@.subrange(yi, yi + 3),
        ) * 10 + (s@[yi + 3] as int - 48));
        assert(year_val as int == spec_digits_val(s@.subrange(yi, yi + 4)));
    }
    proof {
        let ai = a as int;
        let bi = b as int;
        assert forall|j: int| 0 <= j < ai implies spec_is_digit(
            #[trigger] s@.subrange(0, ai)[j],
        ) by {
            assert(s@.subrange(0, ai)[j] == s@[j]);
        }
        assert forall|j: int| 0 <= j < bi implies spec_is_digit(
            #[trigger] s@.subrange(ai + 1, ai + 1 + bi)[j],
        ) by {
            assert(s@.subrange(ai + 1, ai + 1 + bi)[j] == s@[ai + 1 + j]);
        }
        assert forall|j: int| 0 <= j < 4 implies spec_is_digit(
            #[trigger] s@.subrange(ai + bi + 2, ai + bi + 6)[j],
        ) by {
            assert(s@.subrange(ai + bi + 2, ai + bi + 6)[j] == s@[ai + bi + 2 + j]);
        }
        assert(spec_field_split(s@, ai, bi));
        lemma_digits_val_bound(s@.subrange(0, ai));
        lemma_digits_val_bound(s@.subrange(ai + 1, ai + 1 + bi));
        lemma_digits_val_bound(s@.subrange(ai + bi + 2, ai + bi + 6));
        assert(spec_split_date(s@, ai, bi) == (Date {
            day: day_val,
            month: month_val,
            year: year_val,
        }));
    }
    match Date::new(day_val, month_val, year_val) {
        Some(d) => {
            proof {
                assert(spec_field_split(s@, a as int, b as int) && d == spec_split_date(
                    s@,
                    a as int,
                    b as int,
                ));
            }
            Ok(d)
        },
        None => {
            proof {
                assert forall|d: Date| !(spec_parses_to(s@, d) && d.wf()) by {
                    if spec_parses_to(s@, d) {
                        let (a2, b2) = choose|a2: int, b2: int|
                            spec_field_split(s@, a2, b2) && d == spec_split_date(s@, a2, b2);
                        lemma_day_width(s@, a2, b2);
                        lemma_month_width(s@, a2, b2);
                        assert(d == spec_split_date(s@, a as int, b as int));
                    }
                }
            }
            Err(BirthdayError::InvalidDate)
        },
    }
}

pub fn is_leap_year(y: u32) -> (b: bool)
    ensures
        b == spec_is_leap_year(y as int),
{
    (y % 4 == 0 && y % 100 != 0) || y % 400 == 0
}

pub fn days_in_month(y: u32, m: u32) -> (d: u32)
    ensures
        d as int == spec_days_in_month(y as int, m as int),
{
    if m == 2 {
        if is_leap_year(y) {
            29
        } else {
            28
        }
    } else if m == 4 || m == 6 || m == 9 || m == 11 {
        30
    } else {
        31
    }
}

pub open spec fn spec_days_in_year(y: int) -> int {
    if spec_is_leap_year(y) {
        366
    } else {
        365
    }
}

/// Days in all years before `y`, counted from year 0 of the proleptic
/// Gregorian calendar.
pub open spec fn spec_days_before_year(y: int) -> int
    decreases y,
{
    if y <= 0 {
        0
    } else {
        spec_days_before_year(y - 1) + spec_days_in_year(y - 1)
    }
}

/// Days in the months of year `y` before month `m`.
pub open spec fn spec_days_before_month(y: int, m: int) -> int
    decreases m,
{
    if m <= 1 {
        0
    } else {
        spec_days_before_month(y, m - 1) + spec_days_in_month(y, m - 1)
    }
}

/// Days between 1970-01-01 and this date; negative for earlier dates.
pub open spec fn spec_epoch_days(d: Date) -> int {
    spec_days_before_year(d.year as int) - spec_days_before_year(1970) + spec_days_before_month(
        d.year as int,
        d.month as int,
    ) + d.day - 1
}

/// The point in time a birthday is stored as: seconds since the epoch at
/// midnight UTC of the date.
pub open spec fn spec_epoch_seconds(d: Date) -> int {
    spec_epoch_days(d) * 86400
}

pub proof fn lemma_days_before_year_bound(y: int)
    requires
        0 <= y,
    ensures
        365 * y <= spec_days_before_year(y) <= 366 * y,
    decreases y,
{
    if y > 0 {
        lemma_days_before_year_bound(y - 1);
    }
}

pub proof fn lemma_days_before_month_bound(y: int, m: int)
    requires
        0 <= m <= 13,
    ensures
        0 <= spec_days_before_month(y, m) <= 31 * m,
    decreases m,
{
    if m > 0 {
        lemma_days_before_month_bound(y, m - 1);
    }
}

fn days_before_year(y: u32) -> (r: u32)
    requires
        y <= 10000,
    ensures
        r as int == spec_days_before_year(y as int),
{
    let mut acc: u32 = 0;
    let mut i: u32 = 0;
    while i < y
        invariant
            i <= y <= 10000,
            acc as int == spec_days_before_year(i as int),
            acc <= 366 * i,
        decreases y - i,
    {
        if is_leap_year(i) {
            acc = acc + 366;
        } else {
            acc = acc + 365;
        }
        i = i + 1;
    }
    acc
}

fn days_before_month(y: u32, m: u32) -> (r: u32)
    requires
        m <= 13,
    ensures
        r as int == spec_days_before_month(y as int, m as int),
{
    let mut acc: u32 = 0;
    let mut i: u32 = 1;
    while i < m
        invariant
            1 <= i,
            m <= 13,
            m >= 1 ==> i <= m,
            m < 1 ==> i == 1,
            i <= 13,
            acc as int == spec_days_before_month(y as int, i as int),
            acc <= 31 * i,
        decreases m - i,
    {
        acc = acc + days_in_month(y, i);
        i = i + 1;
    }
    acc
}

/// Seconds since the epoch at midnight UTC of the given date: the value a
/// birthday is persisted as.
pub fn epoch_seconds(d: Date) -> (r: i64)
    requires
        d.wf(),
    ensures
        r as int == spec_epoch_seconds(d),
{
    let by = days_before_year(d.year);
    let be = days_before_year(1970);
    let bm = days_before_month(d.year, d.month);
    proof {
        lemma_days_before_year_bound(d.year as int);
        lemma_days_before_year_bound(1970);
        lemma_days_before_month_bound(d.year as int, d.month as int);
    }
    let days: i64 = by as i64 - be as i64 + bm as i64 + d.day as i64 - 1;
    days * 86400
}

/// Division that rounds toward zero: how whole days and whole years are
/// counted from a signed span of seconds.
pub open spec fn spec_div_toward_zero(a: int, b: int) -> int {
    if a >= 0 {
        a / b
    } else {
        -((-a) / b)
    }
}

} // verus!
