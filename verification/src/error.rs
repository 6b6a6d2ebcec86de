//! The failures that stop a batch run.

use vstd::prelude::*;

verus! {

/// A section of a snapshot of absolute counts.
#[derive(Debug, Clone, Copy, PartialEq, Eq, Structural)]
pub enum Section {
    Pageviews,
    Visitors,
    Sources,
}

/// Why a snapshot could not be taken into the history. Every failure is final
/// for the batch: the history is left as it was before the snapshot.
#[derive(Debug, Clone, PartialEq, Eq)]
pub enum Error {
    /// The snapshot lacks a section that the run needs.
    MissingSection { section: Section, file: String },
    /// A section of the snapshot holds no point, so it names no current day.
    EmptySection { section: Section, file: String },
    /// A settled day was recorded with one value and is now reported with another.
    DataConflict {
        series: String,
        time: u64,
        date: Option<String>,
        previous: u64,
        found: u64,
        file: String,
    },
    /// The snapshot shares no day with the history that it should be rescaled to.
    NoOverlap { series: String, file: String },
    /// After rescaling, a day of the snapshot differs from the history by more than
    /// the tolerance, or the snapshot's value on the shared day is zero.
    InconsistentNormalization {
        series: String,
        time: u64,
        previous: u64,
        found: u64,
        file: String,
    },
    /// A number does not fit the type that it is exported or rescaled to.
    Cast { value: u128 },
    /// An entry of a snapshot is malformed: its time is no number of seconds, or it
    /// has fewer values or flags than there are keywords.
    Parse { entry: usize, file: String },
}

} // verus!
