use vstd::prelude::*;
use vstd::string::*;

use crate::date::{date_parsed, date_text, format_date, parse_date, Date};
use crate::text::{
    abs, cents_text, cents_to_text, magnitude_to_text, cents_value, lemma_cents_round_trip, parse_cents,
    parse_unsigned, saturate, clamp_i64, unsigned_value, MAX_CENTS,
};

verus! {

/// Why a row cannot become an entity.
#[derive(Clone, Copy, Debug, PartialEq, Eq)]
pub enum RowError {
    /// The row's date, which the entity cannot do without, is not a date.
    InvalidDate,
}

/// A posted transaction. Amounts are in cents: negative is money out,
/// positive money in.
#[derive(Clone, Debug)]
pub struct RecordForLedger {
    pub id: u32,
    pub posted: bool,
    pub name: String,
    pub amount: i64,
    pub balance: i64,
    pub category: String,
    pub notes: String,
    pub date: Date,
    pub modified: bool,
}

/// A ledger record as the text cells of a sheet row.
#[derive(Clone, Debug)]
pub struct RecordForCSV {
    pub date: String,
    pub posted: String,
    pub name: String,
    pub debit: String,
    pub credit: String,
    pub balance: String,
    pub category: String,
    pub notes: String,
    pub id: u32,
}

pub struct RecordModel {
    pub id: u32,
    pub posted: bool,
    pub name: Seq<char>,
    pub amount: int,
    pub balance: int,
    pub category: Seq<char>,
    pub notes: Seq<char>,
    pub date: Date,
    pub modified: bool,
}

pub struct RecordRowModel {
    pub date: Seq<char>,
    pub posted: Seq<char>,
    pub name: Seq<char>,
    pub debit: Seq<char>,
    pub credit: Seq<char>,
    pub balance: Seq<char>,
    pub category: Seq<char>,
    pub notes: Seq<char>,
    pub id: u32,
}

impl View for RecordForLedger {
    type V = RecordModel;

    open spec fn view(&self) -> RecordModel {
        RecordModel {
            id: self.id,
            posted: self.posted,
            name: self.name@,
            amount: self.amount as int,
            balance: self.balance as int,
            category: self.category@,
            notes: self.notes@,
            date: self.date,
            modified: self.modified,
        }
    }
}

impl View for RecordForCSV {
    type V = RecordRowModel;

    open spec fn view(&self) -> RecordRowModel {
        RecordRowModel {
            date: self.date@,
            posted: self.posted@,
            name: self.name@,
            debit: self.debit@,
            credit: self.credit@,
            balance: self.balance@,
            category: self.category@,
            notes: self.notes@,
            id: self.id,
        }
    }
}

/// A monetary cell in cents; a cell that is not an amount counts as zero.
pub open spec fn cents_or_zero(s: Seq<char>) -> int {
    match cents_value(s) {
        Some(v) => v,
        None => 0,
    }
}

/// Cell `i` of a row; a missing cell reads as empty.
pub open spec fn cell(row: Seq<String>, i: int) -> Seq<char> {
    if 0 <= i < row.len() {
        row[i]@
    } else {
        Seq::empty()
    }
}

/// An id cell; one that is not a 32-bit unsigned number reads as 0.
pub open spec fn id_of_cell(s: Seq<char>) -> u32 {
    match unsigned_value(s) {
        Some(v) => if v <= u32::MAX { v as u32 } else { 0 },
        None => 0,
    }
}

/// The row of a record: the amount goes to the debit cell when negative and
/// to the credit cell otherwise, the other cell staying empty.
pub open spec fn record_row(r: RecordModel) -> RecordRowModel {
    RecordRowModel {
        date: date_text(r.date),
        posted: if r.posted { "x"@ } else { Seq::empty() },
        name: r.name,
        debit: if r.amount < 0 { cents_text(-r.amount) } else { Seq::empty() },
        credit: if r.amount >= 0 { cents_text(r.amount) } else { Seq::empty() },
        balance: cents_text(r.balance),
        category: r.category,
        notes: r.notes,
        id: r.id,
    }
}

/// The record that a row gives once its date cell has been read as `date`.
pub open spec fn record_of_row(c: RecordRowModel, date: Option<Date>) -> Result<RecordModel, RowError> {
    match date {
        Some(d) => Ok(
            RecordModel {
                id: c.id,
                posted: c.posted == "x"@,
                name: c.name,
                amount: clamp_i64(cents_or_zero(c.credit) - cents_or_zero(c.debit)),
                balance: clamp_i64(cents_or_zero(c.balance)),
                category: c.category,
                notes: c.notes,
                date: d,
                modified: false,
            },
        ),
        None => Err(RowError::InvalidDate),
    }
}

/// The row model of the cells of a sheet row, in the column order
/// Date, Posted, Name, Debit, Credit, Balance, Category, Notes, ID.
pub open spec fn record_cells(row: Seq<String>) -> RecordRowModel {
    RecordRowModel {
        date: cell(row, 0),
        posted: cell(row, 1),
        name: cell(row, 2),
        debit: cell(row, 3),
        credit: cell(row, 4),
        balance: cell(row, 5),
        category: cell(row, 6),
        notes: cell(row, 7),
        id: id_of_cell(cell(row, 8)),
    }
}

/// The record that a sheet row denotes, its date read as chrono reads it.
pub open spec fn record_of_cells(row: Seq<String>) -> Result<RecordModel, RowError> {
    let c = record_cells(row);
    record_of_row(c, Date::of_parsed(date_parsed(c.date)))
}

impl RecordModel {
    /// Amounts that fit in 64 bits, as a record holds them, and a real date.
    pub open spec fn valid(self) -> bool {
        &&& i64::MIN <= self.amount <= i64::MAX
        &&& i64::MIN <= self.balance <= i64::MAX
        &&& self.date.wf()
    }
}

pub open spec fn result_view(r: Result<RecordForLedger, RowError>) -> Result<RecordModel, RowError> {
    match r {
        Ok(v) => Ok(v@),
        Err(e) => Err(e),
    }
}

/// Writing a valid record to a row and reading the row back gives the
/// record, every field kept, with its dirty flag cleared.
pub proof fn lemma_record_round_trip(x: RecordModel)
    requires
        x.valid(),
    ensures
        record_of_row(record_row(x), Some(x.date)) == Ok::<RecordModel, RowError>(
            RecordModel { modified: false, ..x },
        ),
{
    let c = record_row(x);
    reveal_strlit("x");
    lemma_cents_round_trip(x.balance);
    if x.amount < 0 {
        lemma_cents_round_trip(-x.amount);
        assert(cents_value(Seq::<char>::empty()) is None);
    } else {
        lemma_cents_round_trip(x.amount);
        assert(cents_value(Seq::<char>::empty()) is None);
    }
    if !x.posted {
        assert(Seq::<char>::empty().len() != "x"@.len());
    }
}

pub(crate) fn copy_string(s: &String) -> (r: String)
    ensures
        r@ == s@,
{
    s.clone()
}

pub(crate) fn cell_text(row: &Vec<String>, i: usize) -> (r: String)
    ensures
        r@ == cell(row@, i as int),
{
    if i < row.len() {
        row[i].clone()
    } else {
        String::new()
    }
}

pub(crate) fn cents_or_zero_of(s: &String) -> (r: i128)
    ensures
        r as int == cents_or_zero(s@),
        abs(r as int) <= MAX_CENTS,
{
    match parse_cents(s.as_str()) {
        Some(v) => v,
        None => 0,
    }
}

pub(crate) fn id_of(s: &String) -> (r: u32)
    ensures
        r == id_of_cell(s@),
{
    match parse_unsigned(s.as_str(), 4294967295) {
        Some(v) => v as u32,
        None => 0,
    }
}

impl RecordForLedger {
    /// An empty record dated 1/1/1970.
    pub fn new() -> (r: RecordForLedger)
        ensures
            r@ == (RecordModel {
                id: 0,
                posted: false,
                name: Seq::empty(),
                amount: 0,
                balance: 0,
                category: Seq::empty(),
                notes: Seq::empty(),
                date: Date { year: 1970, month: 1, day: 1 },
                modified: false,
            }),
    {
        RecordForLedger {
            id: 0,
            posted: false,
            name: String::new(),
            amount: 0,
            balance: 0,
            category: String::new(),
            notes: String::new(),
            date: Date { year: 1970, month: 1, day: 1 },
            modified: false,
        }
    }

    /// The record as a row of text cells.
    pub fn to(&self) -> (r: RecordForCSV)
        requires
            self.date.wf(),
        ensures
            r@ == record_row(self@),
    {
        proof { reveal_strlit("x"); }
        RecordForCSV {
            date: format_date(&self.date),
            posted: if self.posted { String::from_str("x") } else { String::new() },
            name: copy_string(&self.name),
            debit: if self.amount < 0 { magnitude_to_text(self.amount) } else { String::new() },
            credit: if self.amount >= 0 { cents_to_text(self.amount) } else { String::new() },
            balance: cents_to_text(self.balance),
            category: copy_string(&self.category),
            notes: copy_string(&self.notes),
            id: self.id,
        }
    }

    /// The record of a row whose date cell has been read as `date`.
    pub fn from_parsed(r: RecordForCSV, date: Option<Date>) -> (res: Result<RecordForLedger, RowError>)
        ensures
            result_view(res) == record_of_row(r@, date),
    {
        let d = match date {
            Some(d) => d,
            None => {
                return Err(RowError::InvalidDate);
            },
        };
        proof { reveal_strlit("x"); }
        let posted = crate::text::str_eq(r.posted.as_str(), "x");
        let credit = cents_or_zero_of(&r.credit);
        let debit = cents_or_zero_of(&r.debit);
        let balance = cents_or_zero_of(&r.balance);
        Ok(
            RecordForLedger {
                id: r.id,
                posted,
                name: r.name,
                amount: saturate(credit - debit),
                balance: saturate(balance),
                category: r.category,
                notes: r.notes,
                date: d,
                modified: false,
            },
        )
    }

    /// The record of a row; fails when the date cell is not a date.
    pub fn from(r: RecordForCSV) -> (res: Result<RecordForLedger, RowError>)
        ensures
            result_view(res) == record_of_row(r@, Date::of_parsed(date_parsed(r.date@))),
            res matches Ok(x) ==> x.date.wf(),
            forall|d: Date|
                d.wf() && r.date@ == #[trigger] date_text(d) ==> result_view(res) == record_of_row(
                    r@,
                    Some(d),
                ),
    {
        let date = parse_date(r.date.as_str());
        Self::from_parsed(r, date)
    }

    /// The record of the cells of a sheet row, in the column order Date,
    /// Posted, Name, Debit, Credit, Balance, Category, Notes, ID.
    pub fn from_row(row: &Vec<String>) -> (res: Result<RecordForLedger, RowError>)
        ensures
            result_view(res) == record_of_cells(row@),
            res matches Ok(x) ==> x.date.wf(),
            forall|d: Date|
                d.wf() && cell(row@, 0) == #[trigger] date_text(d) ==> result_view(res)
                    == record_of_row(record_cells(row@), Some(d)),
    {
        let id_cell = cell_text(row, 8);
        let r = RecordForCSV {
            date: cell_text(row, 0),
            posted: cell_text(row, 1),
            name: cell_text(row, 2),
            debit: cell_text(row, 3),
            credit: cell_text(row, 4),
            balance: cell_text(row, 5),
            category: cell_text(row, 6),
            notes: cell_text(row, 7),
            id: id_of(&id_cell),
        };
        Self::from(r)
    }
}

} // verus!
