//! Options, conflict records, and the scheduler's error taxonomy.

use vstd::prelude::*;

use crate::model::{PersonId, ShiftId};

verus! {

/// Assignment options: the minimum rest gap (whole hours) between the end of
/// one of a person's shifts and the start of the next, and the ceiling on
/// shifts counted as one consecutive duty run.
#[derive(Debug, Clone, Copy)]
pub struct AssignOptions {
    pub min_rest_hours: u32,
    pub max_consecutive_shifts: u32,
}

impl Default for AssignOptions {
    fn default() -> (r: Self)
        ensures
            r.min_rest_hours == 11,
            r.max_consecutive_shifts == 3,
    {
        AssignOptions { min_rest_hours: 11, max_consecutive_shifts: 3 }
    }
}

/// The kind of a reported violation.
#[derive(Debug, Clone, Copy, PartialEq, Eq, Structural)]
pub enum ConflictKind {
    /// Two of one person's shifts intersect.
    Overlap,
    /// Two different shifts occupy literally the same moment for different
    /// people; declared in the taxonomy, not produced by the per-person scan.
    DoubleAssignment,
    /// The gap between two of one person's shifts is under the minimum rest.
    RestViolation,
}

/// One detected violation; ephemeral, regenerated on demand.
#[derive(Debug)]
pub struct Conflict {
    pub person: PersonId,
    pub shift_a: ShiftId,
    pub shift_b: ShiftId,
    pub kind: ConflictKind,
}

impl Clone for Conflict {
    fn clone(&self) -> (r: Self)
        ensures
            r == *self,
    {
        Conflict {
            person: self.person.clone(),
            shift_a: self.shift_a.clone(),
            shift_b: self.shift_b.clone(),
            kind: self.kind,
        }
    }
}

/// A recoverable scheduling error, returned as a discriminated value.
#[derive(Debug)]
pub enum SchedError {
    /// A shift or vacation was requested with `end <= start`.
    InvalidTimeRange,
    /// The named person is not in the roster.
    UnknownPerson(String),
    /// The named shift is not in the roster.
    UnknownShift(String),
    /// A swap could not be applied; the roster is left as it was.
    SwapInvalid(&'static str),
    /// A cover could not be applied; the roster is left as it was.
    CoverInvalid(&'static str),
    /// A reminder could not be prepared.
    NotifyInvalid(&'static str),
}

/// The text `message` renders an error as.
pub open spec fn spec_error_message(e: SchedError) -> Seq<char> {
    match e {
        SchedError::InvalidTimeRange => "invalid time range: end must be after start"@,
        SchedError::UnknownPerson(h) => "unknown person handle: "@ + h@,
        SchedError::UnknownShift(s) => "unknown shift: "@ + s@,
        SchedError::SwapInvalid(m) => "swap invalid: "@ + m@,
        SchedError::CoverInvalid(m) => "cover invalid: "@ + m@,
        SchedError::NotifyInvalid(m) => "cannot prepare reminder: "@ + m@,
    }
}

impl SchedError {
    /// A human-readable description, for callers that print errors.
    pub fn message(&self) -> (r: String)
        ensures
            r@ == spec_error_message(*self),
    {
        match self {
            SchedError::InvalidTimeRange => "invalid time range: end must be after start".to_owned(),
            SchedError::UnknownPerson(h) => "unknown person handle: ".to_owned().concat(
                h.as_str(),
            ),
            SchedError::UnknownShift(s) => "unknown shift: ".to_owned().concat(s.as_str()),
            SchedError::SwapInvalid(m) => "swap invalid: ".to_owned().concat(m),
            SchedError::CoverInvalid(m) => "cover invalid: ".to_owned().concat(m),
            SchedError::NotifyInvalid(m) => "cannot prepare reminder: ".to_owned().concat(m),
        }
    }
}

} // verus!
