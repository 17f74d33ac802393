//! A personal-finance ledger: typed ledger records and recurring schedule
//! entries, their text rows, running-balance reconciliation and the naming
//! of workbook backups.
pub mod text;
pub mod date;
pub mod interval;
pub mod record;
pub mod schedule;
pub mod store;
pub mod session;
