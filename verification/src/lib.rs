//! Daily time series from overlapping snapshots.
//!
//! Snapshots of two sources are collected run after run, each covering a window
//! of recent days, so that consecutive snapshots overlap. This library merges
//! them into one history per series and exports the histories:
//!
//! - `series` and `collection` hold the histories: a store maps a timestamp to a
//!   value, a collection holds one store for each name;
//! - `merge` takes absolute counts into a store and refuses a settled day that
//!   comes back with another value; `merge_order` shows that the order of the
//!   snapshots does not matter;
//! - `normalize` brings index values, which come on a scale of their own with
//!   every snapshot, to the scale of the history; `normalize_laws` shows what
//!   holds of every snapshot that is taken;
//! - `rolling` totals each window of seven days that the history covers;
//! - `process` makes chart lines and metric records;
//! - `netlify` and `gtrends` model the snapshots of the two sources, and their
//!   `process` modules lead from snapshots to exports;
//! - `text` reads and writes numbers, and `date` holds the one call into
//!   `chrono`, whose contract is taken on trust.
//!
//! The library computes in integers only. Where a value is a fraction, an
//! integer stands for it together with a unit that names the divisor.

pub mod collection;
pub mod date;
pub mod error;
pub mod gtrends;
pub mod merge;
pub mod merge_order;
pub mod netlify;
pub mod normalize;
pub mod normalize_laws;
pub mod process;
pub mod rolling;
pub mod series;
pub mod text;
