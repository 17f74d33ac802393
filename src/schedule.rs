use vstd::prelude::*;
use vstd::string::*;

use crate::date::{date_parsed, date_text, format_date, parse_date, Date};
use crate::interval::{interval_text, interval_value, lemma_interval_round_trip, Interval};
use crate::record::{cell, cell_text, cents_or_zero, cents_or_zero_of, copy_string, id_of, id_of_cell, RowError};
use crate::text::{cents_text, cents_to_text, clamp_i64, lemma_cents_round_trip, saturate};

verus! {

/// A recurring transaction. The amount is in cents, negative for money out.
#[derive(Clone, Debug)]
pub struct ScheduleForLedger {
    pub id: u32,
    pub name: String,
    pub category: String,
    pub interval: Interval,
    pub amount: i64,
    pub active: bool,
    pub start: Date,
    pub end: Option<Date>,
    pub modified: bool,
}

/// A schedule entry as the text cells of a sheet row.
#[derive(Clone, Debug)]
pub struct ScheduleForCSV {
    pub name: String,
    pub category: String,
    pub interval: String,
    pub amount: String,
    pub start: String,
    pub end: String,
    pub id: u32,
}

pub struct ScheduleModel {
    pub id: u32,
    pub name: Seq<char>,
    pub category: Seq<char>,
    pub interval: Interval,
    pub amount: int,
    pub active: bool,
    pub start: Date,
    pub end: Option<Date>,
    pub modified: bool,
}

pub struct ScheduleRowModel {
    pub name: Seq<char>,
    pub category: Seq<char>,
    pub interval: Seq<char>,
    pub amount: Seq<char>,
    pub start: Seq<char>,
    pub end: Seq<char>,
    pub id: u32,
}

impl View for ScheduleForLedger {
    type V = ScheduleModel;

    open spec fn view(&self) -> ScheduleModel {
        ScheduleModel {
            id: self.id,
            name: self.name@,
            category: self.category@,
            interval: self.interval,
            amount: self.amount as int,
            active: self.active,
            start: self.start,
            end: self.end,
            modified: self.modified,
        }
    }
}

impl View for ScheduleForCSV {
    type V = ScheduleRowModel;

    open spec fn view(&self) -> ScheduleRowModel {
        ScheduleRowModel {
            name: self.name@,
            category: self.category@,
            interval: self.interval@,
            amount: self.amount@,
            start: self.start@,
            end: self.end@,
            id: self.id,
        }
    }
}

/// The row of a schedule entry; an open end is an empty cell. Whether the
/// entry is active is not written.
pub open spec fn schedule_row(s: ScheduleModel) -> ScheduleRowModel {
    ScheduleRowModel {
        name: s.name,
        category: s.category,
        interval: interval_text(s.interval),
        amount: cents_text(s.amount),
        start: date_text(s.start),
        end: match s.end {
            Some(e) => date_text(e),
            None => Seq::empty(),
        },
        id: s.id,
    }
}

/// An interval cell; one that is not an interval reads as one month.
pub open spec fn interval_or_monthly(s: Seq<char>) -> Interval {
    match interval_value(s) {
        Ok(i) => i,
        Err(_) => Interval::Month(1),
    }
}

/// The entry that a row gives once its start cell has been read as `start`
/// and its end cell, where not empty, as `end`. An entry read from a row
/// is active.
pub open spec fn schedule_of_row(c: ScheduleRowModel, start: Option<Date>, end: Option<Date>) -> Result<
    ScheduleModel,
    RowError,
> {
    match start {
        Some(d) => Ok(
            ScheduleModel {
                id: c.id,
                name: c.name,
                category: c.category,
                interval: interval_or_monthly(c.interval),
                amount: clamp_i64(cents_or_zero(c.amount)),
                active: true,
                start: d,
                end: if c.end.len() == 0 { None } else { end },
                modified: false,
            },
        ),
        None => Err(RowError::InvalidDate),
    }
}

/// The row model of the cells of a sheet row, in the column order
/// Name, Category, Interval, Amount, Start, End, ID.
pub open spec fn schedule_cells(row: Seq<String>) -> ScheduleRowModel {
    ScheduleRowModel {
        name: cell(row, 0),
        category: cell(row, 1),
        interval: cell(row, 2),
        amount: cell(row, 3),
        start: cell(row, 4),
        end: cell(row, 5),
        id: id_of_cell(cell(row, 6)),
    }
}

/// The entry of a row, its dates read as chrono reads them.
pub open spec fn schedule_of_parsed_row(c: ScheduleRowModel) -> Result<ScheduleModel, RowError> {
    schedule_of_row(c, Date::of_parsed(date_parsed(c.start)), Date::of_parsed(date_parsed(c.end)))
}

pub open spec fn schedule_result_view(r: Result<ScheduleForLedger, RowError>) -> Result<
    ScheduleModel,
    RowError,
> {
    match r {
        Ok(v) => Ok(v@),
        Err(e) => Err(e),
    }
}

impl ScheduleModel {
    /// An amount that fits in 64 bits, as an entry holds it, and real dates.
    pub open spec fn valid(self) -> bool {
        &&& i64::MIN <= self.amount <= i64::MAX
        &&& self.start.wf()
        &&& (self.end matches Some(e) ==> e.wf())
    }
}

/// Writing a valid entry to a row and reading the row back gives the entry,
/// marked active and not modified.
pub proof fn lemma_schedule_round_trip(x: ScheduleModel)
    requires
        x.valid(),
    ensures
        schedule_of_row(schedule_row(x), Some(x.start), x.end) == Ok::<ScheduleModel, RowError>(
            ScheduleModel { active: true, modified: false, ..x },
        ),
{
    lemma_interval_round_trip(x.interval);
    lemma_cents_round_trip(x.amount);
    if let Some(e) = x.end {
        assert(date_text(e).len() > 0);
    }
}

impl ScheduleForLedger {
    /// An empty monthly entry starting 1/1/1970, open-ended and inactive.
    pub fn new() -> (r: ScheduleForLedger)
        ensures
            r@ == (ScheduleModel {
                id: 0,
                name: Seq::empty(),
                category: Seq::empty(),
                interval: Interval::Month(1),
                amount: 0,
                active: false,
                start: Date { year: 1970, month: 1, day: 1 },
                end: None,
                modified: false,
            }),
    {
        ScheduleForLedger {
            id: 0,
            name: String::new(),
            category: String::new(),
            interval: Interval::Month(1),
            amount: 0,
            active: false,
            start: Date { year: 1970, month: 1, day: 1 },
            end: None,
            modified: false,
        }
    }

    /// The entry as a row of text cells.
    pub fn to(&self) -> (r: ScheduleForCSV)
        requires
            self.start.wf(),
            self.end matches Some(e) ==> e.wf(),
        ensures
            r@ == schedule_row(self@),
    {
        ScheduleForCSV {
            id: self.id,
            name: copy_string(&self.name),
            category: copy_string(&self.category),
            interval: self.interval.format(),
            amount: cents_to_text(self.amount),
            start: format_date(&self.start),
            end: match &self.end {
                Some(e) => format_date(e),
                None => String::new(),
            },
        }
    }

    /// The entry of a row whose start cell has been read as `start` and
    /// whose end cell, where not empty, as `end`.
    pub fn from_parsed(s: ScheduleForCSV, start: Option<Date>, end: Option<Date>) -> (res: Result<
        ScheduleForLedger,
        RowError,
    >)
        ensures
            schedule_result_view(res) == schedule_of_row(s@, start, end),
    {
        let d = match start {
            Some(d) => d,
            None => {
                return Err(RowError::InvalidDate);
            },
        };
        let interval = match Interval::parse(s.interval.as_str()) {
            Ok(i) => i,
            Err(_) => Interval::Month(1),
        };
        let amount = saturate(cents_or_zero_of(&s.amount));
        let open_ended = s.end.as_str().unicode_len() == 0;
        Ok(
            ScheduleForLedger {
                id: s.id,
                name: s.name,
                category: s.category,
                interval,
                amount,
                active: true,
                start: d,
                end: if open_ended { None } else { end },
                modified: false,
            },
        )
    }

    /// The entry of a row; fails when the start cell is not a date. An end
    /// cell that is not a date leaves the entry open-ended.
    pub fn from(s: ScheduleForCSV) -> (res: Result<ScheduleForLedger, RowError>)
        ensures
            schedule_result_view(res) == schedule_of_parsed_row(s@),
            res matches Ok(x) ==> x.start.wf() && (x.end matches Some(e) ==> e.wf()),
            forall|d: Date|
                d.wf() && s.start@ == #[trigger] date_text(d) ==> schedule_result_view(res)
                    == schedule_of_row(s@, Some(d), Date::of_parsed(date_parsed(s.end@))),
    {
        let start = parse_date(s.start.as_str());
        let end = parse_date(s.end.as_str());
        Self::from_parsed(s, start, end)
    }

    /// The entry of the cells of a sheet row, in the column order Name,
    /// Category, Interval, Amount, Start, End, ID.
    pub fn from_row(row: &Vec<String>) -> (res: Result<ScheduleForLedger, RowError>)
        ensures
            schedule_result_view(res) == schedule_of_parsed_row(schedule_cells(row@)),
            res matches Ok(x) ==> x.start.wf() && (x.end matches Some(e) ==> e.wf()),
            forall|d: Date|
                d.wf() && cell(row@, 4) == #[trigger] date_text(d) ==> schedule_result_view(res)
                    == schedule_of_row(
                    schedule_cells(row@),
                    Some(d),
                    Date::of_parsed(date_parsed(cell(row@, 5))),
                ),
    {
        let id_cell = cell_text(row, 6);
        let s = ScheduleForCSV {
            name: cell_text(row, 0),
            category: cell_text(row, 1),
            interval: cell_text(row, 2),
            amount: cell_text(row, 3),
            start: cell_text(row, 4),
            end: cell_text(row, 5),
            id: id_of(&id_cell),
        };
        Self::from(s)
    }
}

} // verus!
