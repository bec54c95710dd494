//! Located, typed disagreements between expected and actual values, and
//! the result of matching a request against candidate interactions.

use vstd::prelude::*;

verus! {

/// One disagreement, tagged by where it was found.
#[derive(Clone, Debug, PartialEq, Eq)]
pub enum Mismatch {
    MethodMismatch { expected: String, actual: String },
    PathMismatch { expected: String, actual: String, mismatch: String },
    StatusMismatch { expected: u16, actual: u16 },
    QueryMismatch { parameter: String, expected: String, actual: String, mismatch: String },
    HeaderMismatch { key: String, expected: String, actual: String, mismatch: String },
    BodyTypeMismatch { expected: String, actual: String },
    BodyMismatch { path: String, expected: Option<String>, actual: Option<String>, mismatch: String },
}

/// The location a body mismatch reports.
pub open spec fn mm_path(m: Mismatch) -> Seq<char> {
    match m {
        Mismatch::BodyMismatch { path, .. } => path@,
        _ => Seq::empty(),
    }
}

/// The locations of a list of body mismatches.
pub open spec fn mm_paths(ms: Seq<Mismatch>) -> Seq<Seq<char>> {
    Seq::new(ms.len(), |i: int| mm_path(ms[i]))
}

/// The severity weight used to rank candidates: body disagreements are
/// the most diagnostic, then headers, query parameters and status.
pub open spec fn severity(m: Mismatch) -> int {
    match m {
        Mismatch::BodyMismatch { .. } => 1,
        Mismatch::BodyTypeMismatch { .. } => 1,
        Mismatch::HeaderMismatch { .. } => 2,
        Mismatch::QueryMismatch { .. } => 3,
        Mismatch::StatusMismatch { .. } => 4,
        Mismatch::MethodMismatch { .. } => 5,
        Mismatch::PathMismatch { .. } => 5,
    }
}

/// The total severity weight of a mismatch list.
pub open spec fn sev_sum(ms: Seq<Mismatch>) -> int
    decreases ms.len(),
{
    if ms.len() == 0 {
        0
    } else {
        sev_sum(ms.drop_last()) + severity(ms.last())
    }
}

impl Mismatch {
    /// The severity weight of this mismatch.
    pub fn severity_x(&self) -> (r: u64)
        ensures
            r == severity(*self),
    {
        match self {
            Mismatch::BodyMismatch { .. } => 1,
            Mismatch::BodyTypeMismatch { .. } => 1,
            Mismatch::HeaderMismatch { .. } => 2,
            Mismatch::QueryMismatch { .. } => 3,
            Mismatch::StatusMismatch { .. } => 4,
            Mismatch::MethodMismatch { .. } => 5,
            Mismatch::PathMismatch { .. } => 5,
        }
    }
}

} // verus!
