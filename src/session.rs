use vstd::prelude::*;
use vstd::string::*;

use crate::record::{record_of_cells, record_row, RecordForCSV, RecordForLedger, RecordModel, RowError};
use crate::schedule::{
    schedule_cells, schedule_of_parsed_row, schedule_row, ScheduleForCSV, ScheduleForLedger,
    ScheduleModel,
};
use crate::store::{ascending, insert_keyed, keyed, views};

verus! {

#[derive(Clone, Copy, Debug, PartialEq, Eq)]
pub enum CurrentScreen {
    Ledger,
    Schedule,
    Exiting,
}

#[derive(Clone, Copy, Debug, PartialEq, Eq)]
pub enum CurrentRecordField {
    Posted,
    Name,
    Amount,
    Balance,
    Category,
    Notes,
    Date,
}

#[derive(Clone, Copy, Debug, PartialEq, Eq)]
pub enum CurrentScheduleField {
    Name,
    Category,
    IntervalType,
    IntervalAmount,
    Amount,
    Start,
    End,
    Active,
}

#[derive(Clone, Copy, Debug, PartialEq, Eq)]
pub enum CurrentlyEditing {
    Record(CurrentRecordField),
    Schedule(CurrentScheduleField),
}

#[derive(Debug)]
pub enum Editable {
    Record(RecordForLedger),
    Schedule(ScheduleForLedger),
}

/// One session over a workbook: its path, the ledger records and the
/// schedule entries, each kept in ascending id order, and the editing state.
#[derive(Debug)]
pub struct App {
    pub csv_path: String,
    pub edit_buffer: Option<Editable>,
    pub current_screen: CurrentScreen,
    pub currently_editing: Option<CurrentlyEditing>,
    pub ledger: Vec<RecordForLedger>,
    pub schedule: Vec<ScheduleForLedger>,
    pub ledger_id: u32,
    pub schedule_id: u32,
}

/// The field that editing moves to next; the first field of the current
/// screen where nothing is being edited.
pub open spec fn next_editing(screen: CurrentScreen, editing: Option<CurrentlyEditing>) -> Option<
    CurrentlyEditing,
> {
    match editing {
        Some(CurrentlyEditing::Schedule(f)) => Some(
            CurrentlyEditing::Schedule(
                match f {
                    CurrentScheduleField::Name => CurrentScheduleField::Category,
                    CurrentScheduleField::Category => CurrentScheduleField::IntervalType,
                    CurrentScheduleField::IntervalType => CurrentScheduleField::IntervalAmount,
                    CurrentScheduleField::IntervalAmount => CurrentScheduleField::Amount,
                    CurrentScheduleField::Amount => CurrentScheduleField::Start,
                    CurrentScheduleField::Start => CurrentScheduleField::End,
                    CurrentScheduleField::End => CurrentScheduleField::Active,
                    CurrentScheduleField::Active => CurrentScheduleField::Name,
                },
            ),
        ),
        Some(CurrentlyEditing::Record(f)) => Some(
            CurrentlyEditing::Record(
                match f {
                    CurrentRecordField::Posted => CurrentRecordField::Name,
                    CurrentRecordField::Name => CurrentRecordField::Amount,
                    CurrentRecordField::Amount => CurrentRecordField::Balance,
                    CurrentRecordField::Balance => CurrentRecordField::Category,
                    CurrentRecordField::Category => CurrentRecordField::Notes,
                    CurrentRecordField::Notes => CurrentRecordField::Date,
                    CurrentRecordField::Date => CurrentRecordField::Posted,
                },
            ),
        ),
        None => match screen {
            CurrentScreen::Ledger => Some(CurrentlyEditing::Record(CurrentRecordField::Name)),
            CurrentScreen::Schedule => Some(CurrentlyEditing::Schedule(CurrentScheduleField::Name)),
            CurrentScreen::Exiting => None,
        },
    }
}

/// The records of the rows `1..n` of a sheet (row 0 is the header), a later
/// row replacing an earlier one with the same id; the first row that is not
/// a record fails the whole.
pub open spec fn records_of_rows(rows: Seq<Vec<String>>, n: int) -> Result<Map<u32, RecordModel>, RowError>
    decreases n,
{
    if n <= 1 {
        Ok(Map::empty())
    } else {
        match records_of_rows(rows, n - 1) {
            Err(e) => Err(e),
            Ok(m) => match record_of_cells(rows[n - 1]@) {
                Err(e) => Err(e),
                Ok(r) => Ok(m.insert(r.id, r)),
            },
        }
    }
}

/// The schedule entries of the rows `1..n` of a sheet, as `records_of_rows`.
pub open spec fn schedules_of_rows(rows: Seq<Vec<String>>, n: int) -> Result<
    Map<u32, ScheduleModel>,
    RowError,
>
    decreases n,
{
    if n <= 1 {
        Ok(Map::empty())
    } else {
        match schedules_of_rows(rows, n - 1) {
            Err(e) => Err(e),
            Ok(m) => match schedule_of_parsed_row(schedule_cells(rows[n - 1]@)) {
                Err(e) => Err(e),
                Ok(r) => Ok(m.insert(r.id, r)),
            },
        }
    }
}

/// The balance that reconciliation gives the record at `i`: the first
/// record's own balance, plus the amounts of the records after it up to `i`.
pub open spec fn running(s: Seq<RecordModel>, i: int) -> int
    decreases i,
{
    if i <= 0 {
        s[0].balance
    } else {
        running(s, i - 1) + s[i].amount
    }
}

/// Every running balance fits in 64 bits.
pub open spec fn balances_fit(s: Seq<RecordModel>) -> bool {
    forall|i: int| 0 <= i < s.len() ==> i64::MIN <= #[trigger] running(s, i) <= i64::MAX
}

/// The records after reconciliation: all posted, each with its running balance.
pub open spec fn reconciled(s: Seq<RecordModel>) -> Seq<RecordModel> {
    Seq::new(s.len(), |i: int| RecordModel { posted: true, balance: running(s, i), ..s[i] })
}

pub open spec fn records_valid(m: Map<u32, RecordModel>) -> bool {
    forall|k: u32| #[trigger] m.contains_key(k) ==> m[k].date.wf()
}

pub open spec fn schedules_valid(m: Map<u32, ScheduleModel>) -> bool {
    forall|k: u32| #[trigger] m.contains_key(k) ==> (m[k].start.wf() && (m[k].end matches Some(
        e,
    ) ==> e.wf()))
}

/// Every record has a real date.
pub open spec fn record_dates_valid(s: Seq<RecordModel>) -> bool {
    forall|i: int| 0 <= i < s.len() ==> (#[trigger] s[i]).date.wf()
}

/// Every schedule entry has real dates.
pub open spec fn schedule_dates_valid(s: Seq<ScheduleModel>) -> bool {
    forall|i: int| 0 <= i < s.len() ==> ((#[trigger] s[i]).start.wf() && (s[i].end matches Some(
        e,
    ) ==> e.wf()))
}

pub open spec fn strings_view(v: Seq<String>) -> Seq<Seq<char>> {
    v.map_values(|s: String| s@)
}

impl App {
    /// Records in ascending id order.
    pub open spec fn records(&self) -> Seq<RecordModel> {
        views(self.ledger@)
    }

    /// Schedule entries in ascending id order.
    pub open spec fn schedules(&self) -> Seq<ScheduleModel> {
        views(self.schedule@)
    }

    /// Records by id.
    pub open spec fn record_map(&self) -> Map<u32, RecordModel> {
        keyed::<RecordModel, RecordForLedger>(self.records())
    }

    /// Schedule entries by id.
    pub open spec fn schedule_map(&self) -> Map<u32, ScheduleModel> {
        keyed::<ScheduleModel, ScheduleForLedger>(self.schedules())
    }

    /// Both collections in ascending id order, with real dates.
    pub open spec fn wf(&self) -> bool {
        &&& ascending::<RecordModel, RecordForLedger>(self.records())
        &&& ascending::<ScheduleModel, ScheduleForLedger>(self.schedules())
        &&& record_dates_valid(self.records())
        &&& schedule_dates_valid(self.schedules())
    }

    /// A session with no path, no records and no schedule entries.
    pub fn new() -> (r: App)
        ensures
            r.wf(),
            r.csv_path@ == Seq::<char>::empty(),
            r.records() == Seq::<RecordModel>::empty(),
            r.schedules() == Seq::<ScheduleModel>::empty(),
            r.edit_buffer is None,
            r.current_screen == CurrentScreen::Ledger,
            r.currently_editing is None,
            r.ledger_id == 0,
            r.schedule_id == 0,
    {
        let r = App {
            csv_path: String::new(),
            edit_buffer: None,
            current_screen: CurrentScreen::Ledger,
            currently_editing: None,
            ledger: Vec::new(),
            schedule: Vec::new(),
            ledger_id: 0,
            schedule_id: 0,
        };
        assert(r.records() =~= Seq::<RecordModel>::empty());
        assert(r.schedules() =~= Seq::<ScheduleModel>::empty());
        assert(r.record_map() =~= Map::empty());
        assert(r.schedule_map() =~= Map::empty());
        r
    }

    /// Moves editing to the next field.
    pub fn toggle_editing(&mut self)
        ensures
            final(self).currently_editing == next_editing(
                old(self).current_screen,
                old(self).currently_editing,
            ),
            final(self).current_screen == old(self).current_screen,
            final(self).ledger == old(self).ledger,
            final(self).schedule == old(self).schedule,
            final(self).csv_path == old(self).csv_path,
            final(self).edit_buffer == old(self).edit_buffer,
            final(self).ledger_id == old(self).ledger_id,
            final(self).schedule_id == old(self).schedule_id,
    {
        let next = match self.currently_editing {
            Some(CurrentlyEditing::Schedule(f)) => Some(
                CurrentlyEditing::Schedule(
                    match f {
                        CurrentScheduleField::Name => CurrentScheduleField::Category,
                        CurrentScheduleField::Category => CurrentScheduleField::IntervalType,
                        CurrentScheduleField::IntervalType => CurrentScheduleField::IntervalAmount,
                        CurrentScheduleField::IntervalAmount => CurrentScheduleField::Amount,
                        CurrentScheduleField::Amount => CurrentScheduleField::Start,
                        CurrentScheduleField::Start => CurrentScheduleField::End,
                        CurrentScheduleField::End => CurrentScheduleField::Active,
                        CurrentScheduleField::Active => CurrentScheduleField::Name,
                    },
                ),
            ),
            Some(CurrentlyEditing::Record(f)) => Some(
                CurrentlyEditing::Record(
                    match f {
                        CurrentRecordField::Posted => CurrentRecordField::Name,
                        CurrentRecordField::Name => CurrentRecordField::Amount,
                        CurrentRecordField::Amount => CurrentRecordField::Balance,
                        CurrentRecordField::Balance => CurrentRecordField::Category,
                        CurrentRecordField::Category => CurrentRecordField::Notes,
                        CurrentRecordField::Notes => CurrentRecordField::Date,
                        CurrentRecordField::Date => CurrentRecordField::Posted,
                    },
                ),
            ),
            None => match self.current_screen {
                CurrentScreen::Ledger => Some(CurrentlyEditing::Record(CurrentRecordField::Name)),
                CurrentScreen::Schedule => Some(
                    CurrentlyEditing::Schedule(CurrentScheduleField::Name),
                ),
                CurrentScreen::Exiting => None,
            },
        };
        self.currently_editing = next;
    }
}

} // verus!

verus! {

proof fn lemma_records_err_stays(rows: Seq<Vec<String>>, j: int, n: int)
    requires
        1 <= j <= n,
        records_of_rows(rows, j) is Err,
    ensures
        records_of_rows(rows, n) == records_of_rows(rows, j),
    decreases n - j,
{
    if j < n {
        lemma_records_err_stays(rows, j, n - 1);
    }
}

proof fn lemma_schedules_err_stays(rows: Seq<Vec<String>>, j: int, n: int)
    requires
        1 <= j <= n,
        schedules_of_rows(rows, j) is Err,
    ensures
        schedules_of_rows(rows, n) == schedules_of_rows(rows, j),
    decreases n - j,
{
    if j < n {
        lemma_schedules_err_stays(rows, j, n - 1);
    }
}

/// The records of the rows of a sheet after its header row.
fn records_from_rows(rows: &Vec<Vec<String>>) -> (r: Result<Vec<RecordForLedger>, RowError>)
    ensures
        match r {
            Ok(v) => {
                &&& ascending::<RecordModel, RecordForLedger>(views(v@))
                &&& record_dates_valid(views(v@))
                &&& records_of_rows(rows@, rows@.len() as int) == Ok::<
                    Map<u32, RecordModel>,
                    RowError,
                >(keyed::<RecordModel, RecordForLedger>(views(v@)))
            },
            Err(e) => records_of_rows(rows@, rows@.len() as int) == Err::<
                Map<u32, RecordModel>,
                RowError,
            >(e),
        },
{
    let mut v: Vec<RecordForLedger> = Vec::new();
    let n = rows.len();
    let mut i: usize = 1;
    assert(keyed::<RecordModel, RecordForLedger>(views(v@)) =~= Map::empty());
    if n == 0 {
        return Ok(v);
    }
    while i < n
        invariant
            1 <= i <= n == rows@.len(),
            ascending::<RecordModel, RecordForLedger>(views(v@)),
            records_valid(keyed::<RecordModel, RecordForLedger>(views(v@))),
            records_of_rows(rows@, i as int) == Ok::<Map<u32, RecordModel>, RowError>(
                keyed::<RecordModel, RecordForLedger>(views(v@)),
            ),
        decreases n - i,
    {
        let x = match RecordForLedger::from_row(&rows[i]) {
            Ok(x) => x,
            Err(e) => {
                proof {
                    lemma_records_err_stays(rows@, i + 1, n as int);
                }
                return Err(e);
            },
        };
        let ghost before = keyed::<RecordModel, RecordForLedger>(views(v@));
        insert_keyed(&mut v, x);
        proof {
            let after = keyed::<RecordModel, RecordForLedger>(views(v@));
            assert forall|k: u32| #[trigger] after.contains_key(k) implies after[k].date.wf() by {
                if k != x@.id {
                    assert(before.contains_key(k));
                }
            }
        }
        i = i + 1;
    }
    proof {
        let t = views(v@);
        assert forall|j: int| 0 <= j < t.len() implies (#[trigger] t[j]).date.wf() by {
            crate::store::lemma_keyed_at::<RecordModel, RecordForLedger>(t, j);
        }
    }
    Ok(v)
}

/// The schedule entries of the rows of a sheet after its header row.
fn schedules_from_rows(rows: &Vec<Vec<String>>) -> (r: Result<Vec<ScheduleForLedger>, RowError>)
    ensures
        match r {
            Ok(v) => {
                &&& ascending::<ScheduleModel, ScheduleForLedger>(views(v@))
                &&& schedule_dates_valid(views(v@))
                &&& schedules_of_rows(rows@, rows@.len() as int) == Ok::<
                    Map<u32, ScheduleModel>,
                    RowError,
                >(keyed::<ScheduleModel, ScheduleForLedger>(views(v@)))
            },
            Err(e) => schedules_of_rows(rows@, rows@.len() as int) == Err::<
                Map<u32, ScheduleModel>,
                RowError,
            >(e),
        },
{
    let mut v: Vec<ScheduleForLedger> = Vec::new();
    let n = rows.len();
    let mut i: usize = 1;
    assert(keyed::<ScheduleModel, ScheduleForLedger>(views(v@)) =~= Map::empty());
    if n == 0 {
        return Ok(v);
    }
    while i < n
        invariant
            1 <= i <= n == rows@.len(),
            ascending::<ScheduleModel, ScheduleForLedger>(views(v@)),
            schedules_valid(keyed::<ScheduleModel, ScheduleForLedger>(views(v@))),
            schedules_of_rows(rows@, i as int) == Ok::<Map<u32, ScheduleModel>, RowError>(
                keyed::<ScheduleModel, ScheduleForLedger>(views(v@)),
            ),
        decreases n - i,
    {
        let x = match ScheduleForLedger::from_row(&rows[i]) {
            Ok(x) => x,
            Err(e) => {
                proof {
                    lemma_schedules_err_stays(rows@, i + 1, n as int);
                }
                return Err(e);
            },
        };
        let ghost before = keyed::<ScheduleModel, ScheduleForLedger>(views(v@));
        insert_keyed(&mut v, x);
        proof {
            let after = keyed::<ScheduleModel, ScheduleForLedger>(views(v@));
            assert forall|k: u32| #[trigger] after.contains_key(k) implies (after[k].start.wf() && (
            after[k].end matches Some(e) ==> e.wf())) by {
                if k != x@.id {
                    assert(before.contains_key(k));
                }
            }
        }
        i = i + 1;
    }
    proof {
        let t = views(v@);
        assert forall|j: int| 0 <= j < t.len() implies ((#[trigger] t[j]).start.wf() && (
        t[j].end matches Some(e) ==> e.wf())) by {
            crate::store::lemma_keyed_at::<ScheduleModel, ScheduleForLedger>(t, j);
        }
    }
    Ok(v)
}

/// Reconciling an empty ledger succeeds and changes nothing.
pub proof fn lemma_reconcile_empty(s: Seq<RecordModel>)
    requires
        s.len() == 0,
    ensures
        balances_fit(s),
        reconciled(s) == s,
{
    assert(reconciled(s) =~= s);
}

impl App {
    /// Replaces the collections with the sheets that the workbook at `path`
    /// holds: `ledger_rows` and `schedule_rows` are the rows of its
    /// "Ledger" and "Schedule" sheets, header first, or `None` where the
    /// sheet is missing, which leaves that collection as it was. A row whose
    /// date is not a date fails the load and leaves the session unchanged.
    pub fn try_load(
        &mut self,
        path: &str,
        ledger_rows: Option<&Vec<Vec<String>>>,
        schedule_rows: Option<&Vec<Vec<String>>>,
    ) -> (r: Result<(), RowError>)
        requires
            old(self).wf(),
        ensures
            final(self).wf(),
            r is Ok <==> (ledger_rows matches Some(rows) ==> records_of_rows(
                rows@,
                rows@.len() as int,
            ) is Ok) && (schedule_rows matches Some(rows) ==> schedules_of_rows(
                rows@,
                rows@.len() as int,
            ) is Ok),
            r matches Err(e) ==> (ledger_rows matches Some(rows) && records_of_rows(
                rows@,
                rows@.len() as int,
            ) == Err::<Map<u32, RecordModel>, RowError>(e)) || (schedule_rows matches Some(rows)
                && schedules_of_rows(rows@, rows@.len() as int) == Err::<
                Map<u32, ScheduleModel>,
                RowError,
            >(e)),
            r is Err ==> final(self).csv_path == old(self).csv_path && final(self).ledger
                == old(self).ledger && final(self).schedule == old(self).schedule
                && final(self).ledger_id == old(self).ledger_id && final(self).schedule_id == old(self).schedule_id,
            r is Ok ==> final(self).csv_path@ == path@,
            r is Ok && ledger_rows is None ==> final(self).ledger == old(self).ledger
                && final(self).ledger_id == old(self).ledger_id,
            r is Ok ==> (ledger_rows matches Some(rows) ==> records_of_rows(
                rows@,
                rows@.len() as int,
            ) == Ok::<Map<u32, RecordModel>, RowError>(final(self).record_map())
                && final(self).ledger_id == 0),
            r is Ok && schedule_rows is None ==> final(self).schedule == old(self).schedule
                && final(self).schedule_id == old(self).schedule_id,
            r is Ok ==> (schedule_rows matches Some(rows) ==> schedules_of_rows(
                rows@,
                rows@.len() as int,
            ) == Ok::<Map<u32, ScheduleModel>, RowError>(final(self).schedule_map())
                && final(self).schedule_id == 0),
    {
        let ledger = match ledger_rows {
            Some(rows) => match records_from_rows(rows) {
                Ok(v) => Some(v),
                Err(e) => {
                    return Err(e);
                },
            },
            None => None,
        };
        let schedule = match schedule_rows {
            Some(rows) => match schedules_from_rows(rows) {
                Ok(v) => Some(v),
                Err(e) => {
                    return Err(e);
                },
            },
            None => None,
        };
        self.csv_path = String::from_str(path);
        match ledger {
            Some(v) => {
                self.ledger = v;
                self.ledger_id = 0;
            },
            None => {},
        }
        match schedule {
            Some(v) => {
                self.schedule = v;
                self.schedule_id = 0;
            },
            None => {},
        }
        Ok(())
    }

    /// Marks every record posted and recomputes the running balances in id
    /// order, the first record's balance kept as the opening balance. Where
    /// a running balance would not fit in 64 bits nothing changes and the
    /// result is `false`.
    pub fn reconcile(&mut self) -> (ok: bool)
        requires
            old(self).wf(),
        ensures
            final(self).wf(),
            ok == balances_fit(old(self).records()),
            ok ==> final(self).records() == reconciled(old(self).records()),
            !ok ==> final(self).ledger == old(self).ledger,
            final(self).schedule == old(self).schedule,
            final(self).csv_path == old(self).csv_path,
    {
        let ghost s = self.records();
        let n = self.ledger.len();
        if n == 0 {
            assert(reconciled(s) =~= s);
            return true;
        }
        let mut bal: i64 = self.ledger[0].balance;
        let mut i: usize = 1;
        while i < n
            invariant
                1 <= i <= n == s.len(),
                s == self.records(),
                self.wf(),
                self.ledger == old(self).ledger,
                self.schedule == old(self).schedule,
                self.csv_path == old(self).csv_path,
                bal as int == running(s, i - 1),
                forall|j: int| 0 <= j < i ==> i64::MIN <= #[trigger] running(s, j) <= i64::MAX,
            decreases n - i,
        {
            let b: i128 = bal as i128 + self.ledger[i].amount as i128;
            if b < -9223372036854775808i128 || b > 9223372036854775807i128 {
                assert(!(i64::MIN <= running(s, i as int) <= i64::MAX));
                return false;
            }
            bal = b as i64;
            i = i + 1;
        }
        let ghost r = reconciled(s);
        bal = self.ledger[0].balance;
        self.ledger[0].posted = true;
        i = 1;
        while i < n
            invariant
                1 <= i <= n == s.len(),
                balances_fit(s),
                r == reconciled(s),
                self.ledger@.len() == n,
                bal as int == running(s, i - 1),
                forall|j: int| 0 <= j < i ==> (#[trigger] self.records()[j]) == r[j],
                forall|j: int| i <= j < n ==> (#[trigger] self.records()[j]) == s[j],
                self.schedule == old(self).schedule,
                self.csv_path == old(self).csv_path,
            decreases n - i,
        {
            assert(i64::MIN <= running(s, i as int) <= i64::MAX);
            assert(self.records()[i as int] == s[i as int]);
            assert(self.ledger@[i as int].amount == s[i as int].amount);
            bal = bal + self.ledger[i].amount;
            let ghost before = self.ledger@;
            let ghost before_rec = self.records();
            self.ledger[i].balance = bal;
            self.ledger[i].posted = true;
            assert(self.ledger@.len() == n);
            assert(forall|j: int| 0 <= j < n && j != i ==> self.ledger@[j] == before[j]);
            assert(self.records()[i as int] == r[i as int]);
            assert forall|j: int| 0 <= j < n && j != i implies #[trigger] self.records()[j]
                == before_rec[j] by {
                assert(self.ledger@[j] == before[j]);
            }
            i = i + 1;
        }
        assert(self.records() =~= r);
        proof {
            let t = self.records();
            assert forall|a: int, b: int| 0 <= a < b < t.len() implies #[trigger] t[a].id < #[trigger] t[b].id by {
                assert(t[a].id == s[a].id && t[b].id == s[b].id);
            }
            assert forall|j: int| 0 <= j < t.len() implies (#[trigger] t[j]).date.wf() by {
                assert(t[j].date == s[j].date);
            }
        }
        true
    }

    /// The records as rows, in ascending id order.
    pub fn ledger_rows(&self) -> (r: Vec<RecordForCSV>)
        requires
            self.wf(),
        ensures
            r@.len() == self.records().len(),
            forall|i: int| 0 <= i < r@.len() ==> (#[trigger] r@[i])@ == record_row(self.records()[i]),
            forall|i: int, j: int| 0 <= i < j < r@.len() ==> (#[trigger] r@[i]).id < (#[trigger] r@[j]).id,
    {
        let mut out: Vec<RecordForCSV> = Vec::new();
        let n = self.ledger.len();
        let mut i: usize = 0;
        while i < n
            invariant
                n == self.ledger@.len(),
                i <= n,
                self.wf(),
                out@.len() == i,
                forall|j: int| 0 <= j < i ==> (#[trigger] out@[j])@ == record_row(self.records()[j]),
            decreases n - i,
        {
            assert(self.records()[i as int].date.wf());
            out.push(self.ledger[i].to());
            i = i + 1;
        }
        assert forall|a: int, b: int| 0 <= a < b < out@.len() implies (#[trigger] out@[a]).id < (
        #[trigger] out@[b]).id by {
            assert(out@[a]@ == record_row(self.records()[a]));
            assert(out@[b]@ == record_row(self.records()[b]));
        }
        out
    }

    /// The schedule entries as rows, in ascending id order.
    pub fn schedule_rows(&self) -> (r: Vec<ScheduleForCSV>)
        requires
            self.wf(),
        ensures
            r@.len() == self.schedules().len(),
            forall|i: int| 0 <= i < r@.len() ==> (#[trigger] r@[i])@ == schedule_row(self.schedules()[i]),
            forall|i: int, j: int| 0 <= i < j < r@.len() ==> (#[trigger] r@[i]).id < (#[trigger] r@[j]).id,
    {
        let mut out: Vec<ScheduleForCSV> = Vec::new();
        let n = self.schedule.len();
        let mut i: usize = 0;
        while i < n
            invariant
                n == self.schedule@.len(),
                i <= n,
                self.wf(),
                out@.len() == i,
                forall|j: int| 0 <= j < i ==> (#[trigger] out@[j])@ == schedule_row(self.schedules()[j]),
            decreases n - i,
        {
            assert(self.schedules()[i as int].start.wf());
            out.push(self.schedule[i].to());
            i = i + 1;
        }
        assert forall|a: int, b: int| 0 <= a < b < out@.len() implies (#[trigger] out@[a]).id < (
        #[trigger] out@[b]).id by {
            assert(out@[a]@ == schedule_row(self.schedules()[a]));
            assert(out@[b]@ == schedule_row(self.schedules()[b]));
        }
        out
    }
}

fn push_str(v: &mut Vec<String>, s: &str)
    ensures
        strings_view(final(v)@) == strings_view(old(v)@).push(s@),
{
    v.push(String::from_str(s));
    assert(strings_view(v@) =~= strings_view(old(v)@).push(s@));
}

/// Column titles of the "Ledger" sheet.
pub fn ledger_header() -> (r: Vec<String>)
    ensures
        strings_view(r@) == seq![
            "Date"@,
            "Posted"@,
            "Name"@,
            "Debit"@,
            "Credit"@,
            "Balance"@,
            "Category"@,
            "Notes"@,
            "ID"@,
        ],
{
    let mut v: Vec<String> = Vec::new();
    assert(strings_view(v@) =~= Seq::<Seq<char>>::empty());
    push_str(&mut v, "Date");
    push_str(&mut v, "Posted");
    push_str(&mut v, "Name");
    push_str(&mut v, "Debit");
    push_str(&mut v, "Credit");
    push_str(&mut v, "Balance");
    push_str(&mut v, "Category");
    push_str(&mut v, "Notes");
    push_str(&mut v, "ID");
    proof {
        assert(strings_view(v@) =~= seq![
            "Date"@,
            "Posted"@,
            "Name"@,
            "Debit"@,
            "Credit"@,
            "Balance"@,
            "Category"@,
            "Notes"@,
            "ID"@,
        ]);
    }
    v
}

/// Column titles of the "Schedule" sheet.
pub fn schedule_header() -> (r: Vec<String>)
    ensures
        strings_view(r@) == seq![
            "Name"@,
            "Category"@,
            "Interval"@,
            "Amount"@,
            "Start"@,
            "End"@,
            "ID"@,
        ],
{
    let mut v: Vec<String> = Vec::new();
    assert(strings_view(v@) =~= Seq::<Seq<char>>::empty());
    push_str(&mut v, "Name");
    push_str(&mut v, "Category");
    push_str(&mut v, "Interval");
    push_str(&mut v, "Amount");
    push_str(&mut v, "Start");
    push_str(&mut v, "End");
    push_str(&mut v, "ID");
    proof {
        assert(strings_view(v@) =~= seq![
            "Name"@,
            "Category"@,
            "Interval"@,
            "Amount"@,
            "Start"@,
            "End"@,
            "ID"@,
        ]);
    }
    v
}

} // verus!
