//! Pivot statistics over commit records.
//!
//! A commit record is mapped to a label on each axis and to a numeric
//! contribution; contributions are summed per pair of labels and the sums are
//! laid out as an aligned text table.  A fixed weekday-by-hour punchcard and a
//! per-author commit count are offered as single-pass statistics.

pub mod axis;
pub mod calendar;
pub mod category;
pub mod order;
pub mod pivot;
pub mod record;
pub mod render;
pub mod statistics;
pub mod table;
pub mod text;
