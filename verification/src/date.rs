//! Calendar dates of posts, backed by chrono's `NaiveDate`.
//!
//! A [`PostDate`] holds the year, month and day of a date that chrono accepts;
//! formatting and parsing go through chrono.
use vstd::prelude::*;
use crate::text::{decimal, pad2, pad4};
use chrono::Datelike;

verus! {

/// Gregorian leap year (proleptic; year 0 is a leap year).
pub open spec fn is_leap(y: int) -> bool {
    (y % 4 == 0 && y % 100 != 0) || y % 400 == 0
}

/// Number of days of month `m` in year `y`.
pub open spec fn days_in_month(y: int, m: int) -> int {
    if m == 2 {
        if is_leap(y) {
            29
        } else {
            28
        }
    } else if m == 4 || m == 6 || m == 9 || m == 11 {
        30
    } else {
        31
    }
}

/// The dates that `chrono::NaiveDate` can hold: an existing calendar day
/// whose year lies in chrono's range.
pub open spec fn valid_ymd(y: int, m: int, d: int) -> bool {
    &&& -262143 <= y <= 262142
    &&& 1 <= m <= 12
    &&& 1 <= d <= days_in_month(y, m)
}

/// The year as chrono's `%Y` writes it: four digits for years 0 to 9999,
/// otherwise an explicit sign and at least four digits.
pub open spec fn year_text(y: int) -> Seq<char> {
    if 0 <= y <= 9999 {
        pad4(y as nat)
    } else if y > 9999 {
        seq!['+'] + decimal(y as nat)
    } else if y >= -9999 {
        seq!['-'] + pad4((-y) as nat)
    } else {
        seq!['-'] + decimal((-y) as nat)
    }
}

/// `%Y-%m-%d`.
pub open spec fn iso_date(y: int, m: int, d: int) -> Seq<char> {
    year_text(y) + seq!['-'] + pad2(m as nat) + seq!['-'] + pad2(d as nat)
}

/// `y1-m1-d1` is a later day than `y2-m2-d2`.
pub open spec fn date_later(a: (int, int, int), b: (int, int, int)) -> bool {
    ||| a.0 > b.0
    ||| (a.0 == b.0 && a.1 > b.1)
    ||| (a.0 == b.0 && a.1 == b.1 && a.2 > b.2)
}

/// What `NaiveDate::parse_from_str(text, "%Y-%m-%d")` gives, as year, month, day.
pub uninterp spec fn chrono_parse_date(text: Seq<char>) -> Option<(i32, u32, u32)>;

/// The digit value of a decimal digit character.
pub open spec fn digit_value(c: char) -> int {
    (c as int) - ('0' as int)
}

/// `c` is one of `0`..`9`.
pub open spec fn is_digit(c: char) -> bool {
    '0' <= c && c <= '9'
}

/// `s` reads `YYYY-MM-DD` with a four-digit year.
pub open spec fn iso_shaped(s: Seq<char>) -> bool {
    &&& s.len() == 10
    &&& is_digit(s[0]) && is_digit(s[1]) && is_digit(s[2]) && is_digit(s[3])
    &&& s[4] == '-'
    &&& is_digit(s[5]) && is_digit(s[6])
    &&& s[7] == '-'
    &&& is_digit(s[8]) && is_digit(s[9])
}

/// The numbers written in an `iso_shaped` text.
pub open spec fn iso_fields(s: Seq<char>) -> (int, int, int) {
    (
        digit_value(s[0]) * 1000 + digit_value(s[1]) * 100 + digit_value(s[2]) * 10
            + digit_value(s[3]),
        digit_value(s[5]) * 10 + digit_value(s[6]),
        digit_value(s[8]) * 10 + digit_value(s[9]),
    )
}

/// A year-month-day triple as mathematical integers.
pub open spec fn widen(t: (i32, u32, u32)) -> (int, int, int) {
    (t.0 as int, t.1 as int, t.2 as int)
}

/// `valid_ymd` on a triple.
pub open spec fn valid_triple(t: (int, int, int)) -> bool {
    valid_ymd(t.0, t.1, t.2)
}

/// `s` reads `YYYY-MM-DD` and names an existing date.
pub open spec fn iso_names_date(s: Seq<char>) -> bool {
    iso_shaped(s) && valid_ymd(iso_fields(s).0, iso_fields(s).1, iso_fields(s).2)
}

/// chrono's `NaiveDate::from_ymd_opt(..).is_some()`: whether the date exists
/// in chrono's calendar (month 1 to 12, day within the month, year within
/// chrono's range).
#[verifier::external_body]
fn chrono_date_exists(year: i32, month: u32, day: u32) -> (b: bool)
    ensures
        b == valid_ymd(year as int, month as int, day as int),
{
    chrono::NaiveDate::from_ymd_opt(year, month, day).is_some()
}

/// chrono's `NaiveDate::format("%Y-%m-%d").to_string()` on the date
/// `year-month-day`: claimed to write the year as `year_text` says and the
/// month and day with two digits each.
#[verifier::external_body]
fn chrono_format_iso(year: i32, month: u32, day: u32) -> (s: String)
    requires
        valid_ymd(year as int, month as int, day as int),
    ensures
        s@ == iso_date(year as int, month as int, day as int),
{
    match chrono::NaiveDate::from_ymd_opt(year, month, day) {
        Some(d) => d.format("%Y-%m-%d").to_string(),
        None => String::new(),
    }
}

/// chrono's `NaiveDate::parse_from_str(text, "%Y-%m-%d")`, giving the year,
/// month and day of the parsed date. Claimed: the result is the named
/// `chrono_parse_date` of the text; a parsed date exists in chrono's
/// calendar; a `YYYY-MM-DD` text naming an existing date parses to it.
/// What chrono accepts beyond that shape (signs, fewer digits, leading
/// blanks) is left to the name.
#[verifier::external_body]
fn chrono_parse_iso(text: &str) -> (r: Option<(i32, u32, u32)>)
    ensures
        r == chrono_parse_date(text@),
        r is Some ==> valid_triple(widen(r->0)),
        iso_names_date(text@) ==> r is Some && widen(r->0) == iso_fields(text@),
{
    match chrono::NaiveDate::parse_from_str(text, "%Y-%m-%d") {
        Ok(d) => Some((d.year(), d.month(), d.day())),
        Err(_) => None,
    }
}

/// A calendar day of a post: a date that `chrono::NaiveDate` can hold.
#[derive(Clone, Copy, Debug, PartialEq, Eq)]
pub struct PostDate {
    year: i32,
    month: u32,
    day: u32,
}

impl PostDate {
    #[verifier::type_invariant]
    spec fn valid(self) -> bool {
        valid_ymd(self.year as int, self.month as int, self.day as int)
    }

    /// Year, month and day.
    pub closed spec fn ymd(self) -> (int, int, int) {
        (self.year as int, self.month as int, self.day as int)
    }

    /// `NaiveDate::from_ymd_opt`: the date, where it exists.
    pub fn from_ymd_opt(year: i32, month: u32, day: u32) -> (r: Option<PostDate>)
        ensures
            r is Some <==> valid_ymd(year as int, month as int, day as int),
            r matches Some(d) ==> d.ymd() == (year as int, month as int, day as int),
    {
        if chrono_date_exists(year, month, day) {
            Some(PostDate { year, month, day })
        } else {
            None
        }
    }

    /// The year.
    pub fn year(&self) -> (r: i32)
        ensures
            r as int == self.ymd().0,
    {
        self.year
    }

    /// The month (1 to 12).
    pub fn month(&self) -> (r: u32)
        ensures
            r as int == self.ymd().1,
    {
        self.month
    }

    /// The day of the month.
    pub fn day(&self) -> (r: u32)
        ensures
            r as int == self.ymd().2,
    {
        self.day
    }

    /// `format("%Y-%m-%d")`.
    pub fn iso_text(&self) -> (s: String)
        ensures
            s@ == iso_date(self.ymd().0, self.ymd().1, self.ymd().2),
    {
        proof {
            use_type_invariant(self);
        }
        chrono_format_iso(self.year, self.month, self.day)
    }

    /// `self` is a later day than `other`.
    pub fn is_later_than(&self, other: &PostDate) -> (b: bool)
        ensures
            b == date_later(self.ymd(), other.ymd()),
    {
        self.year > other.year || (self.year == other.year && self.month > other.month) || (
        self.year == other.year && self.month == other.month && self.day > other.day)
    }
}

/// `%Y-%m-%d` of a post date.
pub open spec fn date_iso(d: PostDate) -> Seq<char> {
    iso_date(d.ymd().0, d.ymd().1, d.ymd().2)
}

/// What `NaiveDate::parse_from_str(text, "%Y-%m-%d")` gives, as a [`PostDate`].
pub open spec fn parsed_date(text: Seq<char>) -> Option<(int, int, int)> {
    match chrono_parse_date(text) {
        Some(t) => Some(widen(t)),
        None => None,
    }
}

/// Parses `YYYY-MM-DD` with chrono (`NaiveDate::parse_from_str(text, "%Y-%m-%d")`).
pub fn parse_post_date(text: &str) -> (r: Option<PostDate>)
    ensures
        match parsed_date(text@) {
            Some(t) => (r matches Some(d) && d.ymd() == t),
            None => r is None,
        },
        iso_names_date(text@) ==> (r matches Some(d) && d.ymd() == iso_fields(text@)),
{
    match chrono_parse_iso(text) {
        Some((y, m, d)) => Some(PostDate { year: y, month: m, day: d }),
        None => None,
    }
}

} // verus!
