use chrono::{Datelike, NaiveDate};
use vstd::prelude::*;
use vstd::string::*;

use crate::text::{nat_text, padded_text};

verus! {

/// Earliest year that a calendar date may have.
pub const MIN_YEAR: i32 = -262143;

/// Latest year that a calendar date may have.
pub const MAX_YEAR: i32 = 262142;

/// A calendar date without a time of day.
#[derive(Clone, Copy, Debug, PartialEq, Eq)]
pub struct Date {
    pub year: i32,
    pub month: u32,
    pub day: u32,
}

/// A local wall-clock instant to the second.
#[derive(Clone, Copy, Debug, PartialEq, Eq)]
pub struct Stamp {
    pub date: Date,
    pub hour: u32,
    pub minute: u32,
    pub second: u32,
}

pub open spec fn is_leap_year(y: int) -> bool {
    y % 4 == 0 && (y % 100 != 0 || y % 400 == 0)
}

pub open spec fn days_in_month(y: int, m: int) -> int {
    if m == 2 {
        if is_leap_year(y) { 29 } else { 28 }
    } else if m == 4 || m == 6 || m == 9 || m == 11 {
        30
    } else {
        31
    }
}

/// Text of a year: four digits at least, with a sign outside `0..=9999`.
pub open spec fn year_text(y: int) -> Seq<char> {
    if 0 <= y <= 9999 {
        padded_text(y as nat, 4)
    } else if y < 0 {
        seq!['-'] + padded_text((-y) as nat, 4)
    } else {
        seq!['+'] + padded_text(y as nat, 4)
    }
}

/// `M/D/YYYY`: month and day without leading zeros.
pub open spec fn date_text(d: Date) -> Seq<char> {
    nat_text(d.month as nat) + seq!['/'] + nat_text(d.day as nat) + seq!['/'] + year_text(
        d.year as int,
    )
}

/// `MM-DD-YYYY-HH-MM-SS`: every field but the year on two digits.
pub open spec fn stamp_text(t: Stamp) -> Seq<char> {
    padded_text(t.date.month as nat, 2) + seq!['-'] + padded_text(t.date.day as nat, 2) + seq!['-']
        + year_text(t.date.year as int) + seq!['-'] + padded_text(t.hour as nat, 2) + seq!['-']
        + padded_text(t.minute as nat, 2) + seq!['-'] + padded_text(t.second as nat, 2)
}

/// Year, month and day that chrono reads from a `M/D/YYYY` text, if it reads one.
pub uninterp spec fn date_parsed(s: Seq<char>) -> Option<(i32, u32, u32)>;

impl Date {
    /// A real day of the proleptic Gregorian calendar within the supported years.
    pub open spec fn wf(self) -> bool {
        &&& MIN_YEAR <= self.year <= MAX_YEAR
        &&& 1 <= self.month <= 12
        &&& 1 <= self.day <= days_in_month(self.year as int, self.month as int)
    }

    /// The date that `date_parsed` names, as a `Date`.
    pub open spec fn of_parsed(p: Option<(i32, u32, u32)>) -> Option<Date> {
        match p {
            Some((y, m, d)) => Some(Date { year: y, month: m, day: d }),
            None => None,
        }
    }
}

impl Stamp {
    pub open spec fn wf(self) -> bool {
        &&& self.date.wf()
        &&& self.hour < 24
        &&& self.minute < 60
        &&& self.second < 60
    }
}

/// Relies on chrono's `NaiveDate::from_ymd_opt` and `format("%-m/%-d/%Y")`:
/// month and day unpadded, the year on four digits, signed outside 0..=9999.
#[verifier::external_body]
pub(crate) fn format_date(d: &Date) -> (r: String)
    requires
        d.wf(),
    ensures
        r@ == date_text(*d),
{
    NaiveDate::from_ymd_opt(d.year, d.month, d.day).unwrap().format("%-m/%-d/%Y").to_string()
}

/// Relies on chrono's `NaiveDate::parse_from_str(s, "%-m/%-d/%Y")`: what it
/// accepts is a valid date, and it reads back the text that `format_date`
/// writes.
#[verifier::external_body]
pub(crate) fn parse_date(s: &str) -> (r: Option<Date>)
    ensures
        r == Date::of_parsed(date_parsed(s@)),
        r matches Some(d) ==> d.wf(),
        forall|d: Date| d.wf() && s@ == #[trigger] date_text(d) ==> r == Some(d),
{
    match NaiveDate::parse_from_str(s, "%-m/%-d/%Y") {
        Ok(d) => Some(Date { year: d.year(), month: d.month(), day: d.day() }),
        Err(_) => None,
    }
}

/// Relies on chrono's `NaiveDate::and_hms_opt` and
/// `format("%m-%d-%Y-%H-%M-%S")`: two-digit fields, the year as `%Y` writes it.
#[verifier::external_body]
pub(crate) fn format_stamp(t: &Stamp) -> (r: String)
    requires
        t.wf(),
    ensures
        r@ == stamp_text(*t),
{
    let d = NaiveDate::from_ymd_opt(t.date.year, t.date.month, t.date.day).unwrap();
    d.and_hms_opt(t.hour, t.minute, t.second).unwrap().format("%m-%d-%Y-%H-%M-%S").to_string()
}

/// Whether `d` is a real calendar day within the supported years.
pub fn is_valid_date(d: &Date) -> (r: bool)
    ensures
        r == d.wf(),
{
    let leap = d.year % 4 == 0 && (d.year % 100 != 0 || d.year % 400 == 0);
    let dim: u32 = if d.month == 2 {
        if leap { 29 } else { 28 }
    } else if d.month == 4 || d.month == 6 || d.month == 9 || d.month == 11 {
        30
    } else {
        31
    };
    MIN_YEAR <= d.year && d.year <= MAX_YEAR && 1 <= d.month && d.month <= 12 && 1 <= d.day && d.day
        <= dim
}

/// Name of the file that an existing workbook `stem.xlsx` is moved to before
/// it is overwritten: `{stem}_bak_{MM-DD-YYYY-HH-MM-SS}.xlsx`.
pub fn backup_file_name(stem: &str, t: &Stamp) -> (r: String)
    requires
        t.wf(),
    ensures
        r@ == stem@ + "_bak_"@ + stamp_text(*t) + ".xlsx"@,
{
    let mut s = String::from_str(stem);
    s.append("_bak_");
    let st = format_stamp(t);
    s.append(st.as_str());
    s.append(".xlsx");
    s
}

/// Whether saving to a path must first move the file there aside: it
/// exists and its extension is `xlsx`.
pub fn needs_backup(exists: bool, extension: Option<&str>) -> (r: bool)
    ensures
        r == (exists && (extension matches Some(e) && e@ == "xlsx"@)),
{
    proof { reveal_strlit("xlsx"); }
    match extension {
        Some(e) => exists && crate::text::str_eq(e, "xlsx"),
        None => false,
    }
}

} // verus!
