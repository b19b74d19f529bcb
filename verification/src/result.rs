//! Error taxonomy shared by the track, codec and metadata components.

use vstd::prelude::*;

verus! {

/// Outcome of a fallible operation of this crate.
pub type GTResult<T> = Result<T, GTError>;

/// Typed failures of the core and of the collaborators that feed it.
///
/// Every core operation returns one of these instead of panicking on bad
/// input. The two bounds variants carry the nearest available track
/// timestamp (epoch seconds) for diagnostics.
#[derive(Clone, Debug, PartialEq, Eq)]
pub enum GTError {
    /// The query timestamp lies strictly before the first track sample;
    /// carries the oldest available timestamp.
    TooOld(i64),
    /// The query timestamp lies strictly after the last track sample;
    /// carries the newest available timestamp.
    TooNew(i64),
    /// A numeric value cannot be represented in the target encoding.
    Conversion(String),
    /// A required source field (such as the capture timestamp) is absent
    /// from an image's metadata.
    MissingField(String),
    /// Track acquisition produced no usable track (empty sample list or a
    /// payload missing required structure).
    MalformedTrack(String),
}

impl GTError {
    /// A short fixed description of the error kind.
    pub fn description(&self) -> (r: &'static str)
        ensures
            self is TooOld ==> r@ == "timestamp is older than the flight position data"@,
            self is TooNew ==> r@ == "timestamp is newer than the flight position data"@,
            self is Conversion ==> r@ == "data conversion error"@,
            self is MissingField ==> r@ == "missing data error"@,
            self is MalformedTrack ==> r@ == "malformed track data"@,
    {
        match self {
            GTError::TooOld(_) => "timestamp is older than the flight position data",
            GTError::TooNew(_) => "timestamp is newer than the flight position data",
            GTError::Conversion(_) => "data conversion error",
            GTError::MissingField(_) => "missing data error",
            GTError::MalformedTrack(_) => "malformed track data",
        }
    }
}

} // verus!
