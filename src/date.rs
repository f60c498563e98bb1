//! Calendar dates as year, month and day, and the two ways the exchanges write them.
use crate::numeric::is_digit;
use vstd::prelude::*;

verus! {

pub open spec fn is_leap_year(y: int) -> bool {
    y % 4 == 0 && (y % 100 != 0 || y % 400 == 0)
}

pub open spec fn days_in_month(y: int, m: int) -> int {
    if m == 2 {
        if is_leap_year(y) {
            29
        } else {
            28
        }
    } else if m == 4 || m == 6 || m == 9 || m == 11 {
        30
    } else {
        31
    }
}

/// A day of the proleptic Gregorian calendar in the years -9999 to 9999.
pub open spec fn valid_calendar_date(y: int, m: int, d: int) -> bool {
    &&& -9999 <= y <= 9999
    &&& 1 <= m <= 12
    &&& 1 <= d <= days_in_month(y, m)
}

/// A calendar day. Well formed when `valid_calendar_date` holds of its fields.
#[derive(Clone, Copy, Debug, PartialEq, Eq, PartialOrd, Ord, Hash)]
pub struct Date {
    pub year: i32,
    pub month: u8,
    pub day: u8,
}

impl Date {
    pub open spec fn wf(self) -> bool {
        valid_calendar_date(self.year as int, self.month as int, self.day as int)
    }
}

/// Relies on `time::Month::try_from` (months 1 to 12) and on
/// `time::Date::from_calendar_date`, which without the `large-dates` feature
/// accepts the years -9999 to 9999 and the days that the month has that year.
#[verifier::external_body]
fn calendar_date_exists(year: i32, month: u8, day: u8) -> (r: bool)
    ensures
        r == valid_calendar_date(year as int, month as int, day as int),
{
    match time::Month::try_from(month) {
        Ok(m) => time::Date::from_calendar_date(year, m, day).is_ok(),
        Err(_) => false,
    }
}

/// The date with these fields, where it exists.
pub fn make_date(year: i32, month: u8, day: u8) -> (r: Option<Date>)
    ensures
        match r {
            Some(d) => d == (Date { year, month, day }) && d.wf(),
            None => !valid_calendar_date(year as int, month as int, day as int),
        },
{
    if calendar_date_exists(year, month, day) {
        Some(Date { year, month, day })
    } else {
        None
    }
}

pub open spec fn digits_at(s: Seq<char>, start: int, n: int) -> bool {
    forall|i: int| start <= i < start + n ==> is_digit(#[trigger] s[i])
}

pub open spec fn dv(c: char) -> int {
    c as int - '0' as int
}

pub open spec fn value4(s: Seq<char>, k: int) -> int {
    dv(s[k]) * 1000 + dv(s[k + 1]) * 100 + dv(s[k + 2]) * 10 + dv(s[k + 3])
}

pub open spec fn value2(s: Seq<char>, k: int) -> int {
    dv(s[k]) * 10 + dv(s[k + 1])
}

/// The fields of a date written as an optional sign and four year digits, two
/// month digits and two day digits, with '-' between them where `dashed`.
pub open spec fn date_text_fields(s: Seq<char>, dashed: bool) -> Option<(int, int, int)> {
    let signed = s.len() > 0 && (s[0] == '+' || s[0] == '-');
    let k: int = if signed { 1 } else { 0 };
    let w: int = if dashed { 1 } else { 0 };
    if s.len() == k + 8 + 2 * w && digits_at(s, k, 4) && digits_at(s, k + 4 + w, 2) && digits_at(
        s,
        k + 6 + 2 * w,
        2,
    ) && (dashed ==> s[k + 4] == '-' && s[k + 7] == '-') {
        let y = value4(s, k);
        Some(
            (
                if signed && s[0] == '-' { -y } else { y },
                value2(s, k + 4 + w),
                value2(s, k + 6 + 2 * w),
            ),
        )
    } else {
        None
    }
}

/// The date that `s` writes in the layout `date_text_fields` reads, where that
/// day exists.
pub open spec fn date_of_text(s: Seq<char>, dashed: bool) -> Option<Date> {
    match date_text_fields(s, dashed) {
        Some((y, m, d)) => if valid_calendar_date(y, m, d) {
            Some(Date { year: y as i32, month: m as u8, day: d as u8 })
        } else {
            None
        },
        None => None,
    }
}

/// The fields of a date, where there is one.
pub open spec fn date_fields(d: Option<Date>) -> Option<(i32, u8, u8)> {
    match d {
        Some(d) => Some((d.year, d.month, d.day)),
        None => None,
    }
}

/// Relies on `time::format_description::parse` and `time::Date::parse`. With
/// `[year]-[month]-[day]` or `[year][month][day]` (years of the standard
/// range without the `large-dates` feature, all components zero-padded) a
/// text parses exactly when it is an optional sign, four year digits, two
/// month and two day digits, with the '-' where the description has them and
/// nothing after, and that day exists.
#[verifier::external_body]
fn time_parse_date(description: &str, s: &str) -> (r: Option<(i32, u8, u8)>)
    ensures
        description@ == "[year]-[month]-[day]"@ ==> r == date_fields(date_of_text(s@, true)),
        description@ == "[year][month][day]"@ ==> r == date_fields(date_of_text(s@, false)),
{
    let items = time::format_description::parse(description).ok()?;
    let d = time::Date::parse(s, &items).ok()?;
    Some((d.year(), u8::from(d.month()), d.day()))
}

/// Reads a date written as `date_text_fields` says, e.g. `2023-01-03` where
/// `dashed` and `20230103` where not.
pub fn parse_date_text(s: &str, dashed: bool) -> (r: Option<Date>)
    ensures
        r == date_of_text(s@, dashed),
        r matches Some(d) ==> d.wf(),
{
    let fields = if dashed {
        time_parse_date("[year]-[month]-[day]", s)
    } else {
        time_parse_date("[year][month][day]", s)
    };
    match fields {
        Some((year, month, day)) => Some(Date { year, month, day }),
        None => None,
    }
}

/// Reads a date packed in an integer as `YYYYMMDD`.
pub fn date_from_packed(u: u32) -> (r: Option<Date>)
    ensures
        r == (if valid_calendar_date((u / 10000) as int, ((u % 10000) / 100) as int, (u % 100) as int) {
            Some(Date { year: (u / 10000) as i32, month: ((u % 10000) / 100) as u8, day: (u % 100) as u8 })
        } else {
            None
        }),
{
    let year = u / 10000;
    let rest = u - year * 10000;
    let month = rest / 100;
    let day = rest - month * 100;
    assert(rest == u % 10000 && day == u % 100) by (nonlinear_arith)
        requires
            year == u / 10000,
            rest == u - year * 10000,
            month == rest / 100,
            day == rest - month * 100,
    ;
    make_date(year as i32, month as u8, day as u8)
}

} // verus!
