use ledger_reconcile::session::{App, CurrentRecordField, CurrentlyEditing};
use ledger_reconcile::date::{backup_file_name, needs_backup, Date, Stamp};
use ledger_reconcile::interval::{Interval, IntervalError};
use ledger_reconcile::record::{RecordForCSV, RecordForLedger, RowError};
use ledger_reconcile::schedule::{ScheduleForCSV, ScheduleForLedger};

fn row(cells: &[&str]) -> Vec<String> {
    cells.iter().map(|c| c.to_string()).collect()
}

fn ledger_sheet(rows: &[&[&str]]) -> Vec<Vec<String>> {
    let mut sheet = vec![row(&[
        "Date", "Posted", "Name", "Debit", "Credit", "Balance", "Category", "Notes", "ID",
    ])];
    for r in rows {
        sheet.push(row(r));
    }
    sheet
}

fn schedule_sheet(rows: &[&[&str]]) -> Vec<Vec<String>> {
    let mut sheet = vec![row(&["Name", "Category", "Interval", "Amount", "Start", "End", "ID"])];
    for r in rows {
        sheet.push(row(r));
    }
    sheet
}

fn date(year: i32, month: u32, day: u32) -> Date {
    Date { year, month, day }
}

#[test]
fn interval_parses_units_in_any_case() {
    assert_eq!(Interval::parse("2 Weeks"), Ok(Interval::Week(2)));
    assert_eq!(Interval::parse("1 week"), Ok(Interval::Week(1)));
    assert_eq!(Interval::parse("  3\tMONTHS "), Ok(Interval::Month(3)));
    assert_eq!(Interval::parse("1 Month"), Ok(Interval::Month(1)));
    assert_eq!(Interval::parse("+4 months"), Ok(Interval::Month(4)));
    assert_eq!(Interval::parse("1 wee\u{212A}"), Ok(Interval::Week(1)));
    assert_eq!("6 Months".parse::<Interval>(), Ok(Interval::Month(6)));
}

#[test]
fn interval_rejects_each_error_kind() {
    assert_eq!(Interval::parse(""), Err(IntervalError::InvalidFormat));
    assert_eq!(Interval::parse("2"), Err(IntervalError::InvalidFormat));
    assert_eq!(Interval::parse("2 weeks later"), Err(IntervalError::InvalidFormat));
    assert_eq!(Interval::parse("two weeks"), Err(IntervalError::InvalidNumber));
    assert_eq!(Interval::parse("-1 weeks"), Err(IntervalError::InvalidNumber));
    assert_eq!(Interval::parse("65536 weeks"), Err(IntervalError::InvalidNumber));
    assert_eq!(Interval::parse("2 days"), Err(IntervalError::InvalidIntervalType));
}

#[test]
fn interval_format_pluralisation() {
    assert_eq!(Interval::Month(1).format(), "1 Month");
    assert_eq!(Interval::Month(0).format(), "0 Months");
    assert_eq!(Interval::Month(2).format(), "2 Months");
    assert_eq!(Interval::Week(0).format(), "0 Week");
    assert_eq!(Interval::Week(1).format(), "1 Weeks");
    assert_eq!(Interval::Week(12).format(), "12 Weeks");
}

#[test]
fn interval_round_trip_for_chosen_counts() {
    for n in [0u16, 1, 2, 65535] {
        for i in [Interval::Week(n), Interval::Month(n)] {
            assert_eq!(Interval::parse(&i.format()), Ok(i));
        }
    }
}

fn sample_record(amount: i64) -> RecordForLedger {
    RecordForLedger {
        id: 42,
        posted: true,
        name: "Groceries".to_string(),
        amount,
        balance: -12345,
        category: "Food".to_string(),
        notes: "weekly".to_string(),
        date: date(2024, 3, 7),
        modified: true,
    }
}

#[test]
fn record_to_row_splits_debit_and_credit() {
    let out = sample_record(-2000).to();
    assert_eq!(out.date, "3/7/2024");
    assert_eq!(out.posted, "x");
    assert_eq!(out.debit, "20.00");
    assert_eq!(out.credit, "");
    assert_eq!(out.balance, "-123.45");
    assert_eq!(out.id, 42);
    let out = sample_record(505).to();
    assert_eq!(out.debit, "");
    assert_eq!(out.credit, "5.05");
    let out = sample_record(0).to();
    assert_eq!(out.debit, "");
    assert_eq!(out.credit, "0.00");
}

#[test]
fn record_round_trip_keeps_fields() {
    for amount in [-2000i64, 0, 7, 123456789, i64::MIN, i64::MAX, 100_000_000_000_000_000] {
        let mut x = sample_record(amount);
        x.balance = if amount > 0 { i64::MIN } else { i64::MAX };
        let back = RecordForLedger::from(x.to()).unwrap();
        assert_eq!(back.id, x.id);
        assert_eq!(back.posted, x.posted);
        assert_eq!(back.name, x.name);
        assert_eq!(back.amount, x.amount);
        assert_eq!(back.balance, x.balance);
        assert_eq!(back.category, x.category);
        assert_eq!(back.notes, x.notes);
        assert_eq!(back.date, x.date);
        assert!(!back.modified);
    }
}

#[test]
fn extreme_amounts_are_written_and_read_back() {
    let out = sample_record(i64::MIN).to();
    assert_eq!(out.debit, "92233720368547758.08");
    assert_eq!(out.credit, "");
    let r = RecordForLedger::from_row(&row(&[
        "1/1/2024", "", "", "-92233720368547758.08", "92233720368547758.07", "92233720368547758.08",
        "", "", "1",
    ]))
    .unwrap();
    assert_eq!(r.amount, i64::MAX);
    assert_eq!(r.balance, i64::MAX);
    let r = RecordForLedger::from_row(&row(&["1/1/2024", "", "", "", "", "92233720368547758.09", "", "", "1"]))
        .unwrap();
    assert_eq!(r.balance, 0);
}

#[test]
fn schedule_extreme_amount_round_trip() {
    for amount in [i64::MIN, i64::MAX] {
        let s = ScheduleForLedger {
            id: 1,
            name: String::new(),
            category: String::new(),
            interval: Interval::Week(2),
            amount,
            active: true,
            start: date(2024, 2, 29),
            end: None,
            modified: false,
        };
        let back = ScheduleForLedger::from(s.to()).unwrap();
        assert_eq!(back.amount, amount);
        assert_eq!(back.interval, Interval::Week(2));
        assert_eq!(back.end, None);
    }
}

#[test]
fn record_dates_outside_four_digits() {
    let mut x = sample_record(1);
    x.date = date(999, 1, 2);
    assert_eq!(x.to().date, "1/2/0999");
    assert_eq!(RecordForLedger::from(x.to()).unwrap().date, x.date);
    x.date = date(12345, 12, 31);
    assert_eq!(x.to().date, "12/31/+12345");
    assert_eq!(RecordForLedger::from(x.to()).unwrap().date, x.date);
}

#[test]
fn record_from_row_reads_amounts() {
    let r = RecordForLedger::from_row(&row(&[
        "1/15/2023", "x", "Rent", "12.345", "", "-5", "Home", "", "7",
    ]))
    .unwrap();
    assert_eq!(r.amount, -1234);
    assert_eq!(r.balance, -500);
    assert!(r.posted);
    assert_eq!(r.id, 7);
    assert_eq!(r.date, date(2023, 1, 15));
    let r = RecordForLedger::from_row(&row(&["1/15/2023", "X", "", "abc", ".5", "", "", "", "8"]))
        .unwrap();
    assert_eq!(r.amount, 50);
    assert_eq!(r.balance, 0);
    assert!(!r.posted);
}

#[test]
fn record_with_bad_id_gets_zero() {
    let r = RecordForLedger::from_row(&row(&["2/1/2024", "", "n", "", "", "", "", "", "abc"]))
        .unwrap();
    assert_eq!(r.id, 0);
}

#[test]
fn record_with_bad_date_fails() {
    let cells = RecordForCSV {
        date: "2024-02-01".to_string(),
        posted: String::new(),
        name: String::new(),
        debit: String::new(),
        credit: String::new(),
        balance: String::new(),
        category: String::new(),
        notes: String::new(),
        id: 1,
    };
    assert_eq!(RecordForLedger::from(cells).unwrap_err(), RowError::InvalidDate);
    let r = RecordForLedger::from_row(&row(&["2/30/2024", "", "", "", "", "", "", "", "1"]));
    assert_eq!(r.unwrap_err(), RowError::InvalidDate);
}

#[test]
fn schedule_row_round_trip() {
    let s = ScheduleForLedger {
        id: 3,
        name: "Rent".to_string(),
        category: "Home".to_string(),
        interval: Interval::Month(1),
        amount: -150000,
        active: false,
        start: date(2024, 1, 1),
        end: Some(date(2025, 12, 31)),
        modified: true,
    };
    let out = s.to();
    assert_eq!(out.interval, "1 Month");
    assert_eq!(out.amount, "-1500.00");
    assert_eq!(out.start, "1/1/2024");
    assert_eq!(out.end, "12/31/2025");
    let back = ScheduleForLedger::from(out).unwrap();
    assert_eq!(back.interval, Interval::Month(1));
    assert_eq!(back.amount, -150000);
    assert_eq!(back.end, Some(date(2025, 12, 31)));
    assert!(back.active);
    assert!(!back.modified);
}

#[test]
fn schedule_defaults_on_bad_cells() {
    let cells = ScheduleForCSV {
        name: "Gym".to_string(),
        category: String::new(),
        interval: "every week".to_string(),
        amount: "lots".to_string(),
        start: "5/1/2024".to_string(),
        end: "never".to_string(),
        id: 9,
    };
    let s = ScheduleForLedger::from(cells).unwrap();
    assert_eq!(s.interval, Interval::Month(1));
    assert_eq!(s.amount, 0);
    assert_eq!(s.end, None);
    let r = ScheduleForLedger::from_row(&row(&["a", "b", "1 week", "1", "bad", "", "1"]));
    assert_eq!(r.unwrap_err(), RowError::InvalidDate);
}

#[test]
fn reconcile_three_records() {
    let mut app = App::new();
    let sheet = ledger_sheet(&[
        &["1/1/2024", "", "open", "", "", "100.00", "", "", "1"],
        &["1/2/2024", "", "shop", "20.00", "", "0", "", "", "2"],
        &["1/3/2024", "", "refund", "", "5.00", "0", "", "", "3"],
    ]);
    app.try_load("book.xlsx", Some(&sheet), None).unwrap();
    assert!(app.reconcile());
    let balances: Vec<i64> = app.ledger.iter().map(|r| r.balance).collect();
    assert_eq!(balances, vec![10000, 8000, 8500]);
    assert!(app.ledger.iter().all(|r| r.posted));
}

#[test]
fn reconcile_empty_ledger_is_noop() {
    let mut app = App::new();
    assert!(app.reconcile());
    assert!(app.ledger.is_empty());
}

#[test]
fn reconcile_overflow_changes_nothing() {
    let mut app = App::new();
    let mut a = sample_record(i64::MAX);
    a.id = 1;
    a.balance = 1;
    let mut b = sample_record(i64::MAX);
    b.id = 2;
    app.ledger = vec![a, b];
    assert!(!app.reconcile());
    assert_eq!(app.ledger[1].balance, -12345);
    assert_eq!(app.ledger[0].balance, 1);
}

#[test]
fn load_without_schedule_sheet_keeps_schedules() {
    let mut app = App::new();
    let sheet = ledger_sheet(&[&["1/1/2024", "", "a", "", "", "1", "", "", "5"]]);
    app.try_load("book.xlsx", Some(&sheet), None).unwrap();
    assert!(app.schedule.is_empty());
    assert_eq!(app.ledger.len(), 1);
    assert_eq!(app.csv_path, "book.xlsx");
}

#[test]
fn load_sorts_and_replaces_by_id() {
    let mut app = App::new();
    let sheet = ledger_sheet(&[
        &["1/1/2024", "", "c", "", "", "", "", "", "3"],
        &["1/1/2024", "", "a", "", "", "", "", "", "1"],
        &["1/1/2024", "", "bad id", "", "", "", "", "", "abc"],
        &["1/1/2024", "", "a2", "", "", "", "", "", "1"],
    ]);
    let sched = schedule_sheet(&[
        &["s2", "", "2 weeks", "-10", "1/1/2024", "", "2"],
        &["s1", "", "1 month", "10", "1/1/2024", "2/1/2024", "1"],
    ]);
    app.try_load("book.xlsx", Some(&sheet), Some(&sched)).unwrap();
    let ids: Vec<u32> = app.ledger.iter().map(|r| r.id).collect();
    assert_eq!(ids, vec![0, 1, 3]);
    assert_eq!(app.ledger[1].name, "a2");
    let rows = app.ledger_rows();
    let row_ids: Vec<u32> = rows.iter().map(|r| r.id).collect();
    assert_eq!(row_ids, vec![0, 1, 3]);
    let srows = app.schedule_rows();
    assert_eq!(srows.len(), 2);
    assert_eq!(srows[0].name, "s1");
    assert_eq!(srows[1].interval, "2 Weeks");
}

#[test]
fn load_with_bad_date_fails_and_keeps_session() {
    let mut app = App::new();
    let good = ledger_sheet(&[&["1/1/2024", "", "a", "", "", "", "", "", "1"]]);
    app.try_load("first.xlsx", Some(&good), None).unwrap();
    let bad = ledger_sheet(&[
        &["1/1/2024", "", "a", "", "", "", "", "", "2"],
        &["yesterday", "", "b", "", "", "", "", "", "3"],
    ]);
    assert_eq!(app.try_load("second.xlsx", Some(&bad), None), Err(RowError::InvalidDate));
    assert_eq!(app.csv_path, "first.xlsx");
    assert_eq!(app.ledger.len(), 1);
    assert_eq!(app.ledger[0].id, 1);
}

#[test]
fn backup_name_has_timestamp() {
    let t = Stamp { date: date(2024, 3, 7), hour: 9, minute: 5, second: 1 };
    assert_eq!(backup_file_name("book", &t), "book_bak_03-07-2024-09-05-01.xlsx");
    assert!(needs_backup(true, Some("xlsx")));
    assert!(!needs_backup(true, Some("csv")));
    assert!(!needs_backup(false, Some("xlsx")));
    assert!(!needs_backup(true, None));
}

#[test]
fn sheet_headers() {
    assert_eq!(
        ledger_reconcile::session::ledger_header(),
        vec!["Date", "Posted", "Name", "Debit", "Credit", "Balance", "Category", "Notes", "ID"]
    );
    assert_eq!(
        ledger_reconcile::session::schedule_header(),
        vec!["Name", "Category", "Interval", "Amount", "Start", "End", "ID"]
    );
}

#[test]
fn editing_cycles_fields() {
    let mut app = App::new();
    app.toggle_editing();
    assert_eq!(app.currently_editing, Some(CurrentlyEditing::Record(CurrentRecordField::Name)));
    app.currently_editing = Some(CurrentlyEditing::Record(CurrentRecordField::Date));
    app.toggle_editing();
    assert_eq!(app.currently_editing, Some(CurrentlyEditing::Record(CurrentRecordField::Posted)));
}
