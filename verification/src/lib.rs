//! A verified financial time-series aggregation and consistency-issue
//! detection engine for a personal-finance ledger.
//!
//! The engine is a pure function from an in-memory snapshot of accounts,
//! transactions, expenses and settings to periodic statistical reports and a
//! sorted list of data-quality issues. Dates are modelled as plain
//! year/month/day values with a verified Gregorian calendar; monetary values
//! are fixed-point amounts held as signed cents.

pub mod buckets;
pub mod date;
pub mod engine;
pub mod expenses;
pub mod issues;
pub mod laws;
pub mod params;
pub mod reports;
pub mod schedule;
pub mod schema;
pub mod settings;
pub mod sort;
pub mod statistics;
pub mod totals;

pub use date::Date;
