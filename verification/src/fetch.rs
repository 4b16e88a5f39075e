//! The fetch boundary: what the record fetch hands back, and the policy
//! that decides whether it counts as success.
//!
//! The fetch collaborator may split a bounding-box query into partitions and
//! run them independently; it reports the records it did get together with
//! one error per failed partition, and both lists can be non-empty at once.
//! The policy enacted here is conservative: a request with any failed
//! partition fails as a whole, because partial counts would be silently
//! wrong.  (Surfacing partial data with a warning would be an equally
//! consistent policy; this library deliberately does not do that.)

use vstd::prelude::*;

use crate::error::FetchError;
use crate::error::SummaryError;
use crate::geom::Point;

verus! {

/// One raw infrastructure feature record: a pipe identifier and the
/// representative point of its geometry, in micro-degrees.
#[derive(Clone, Copy, Debug, PartialEq, Eq, Structural)]
pub struct PipeRecord {
    pub pipe_id: u64,
    pub location: Point,
}

/// Everything one bounding-box fetch produced: the records of the partitions
/// that succeeded and one error per partition that failed.
#[derive(Clone, Debug)]
pub struct FetchOutcome {
    pub records: Vec<PipeRecord>,
    pub errors: Vec<FetchError>,
}

/// Applies the all-or-nothing policy to a fetch outcome: the records pass
/// through exactly when no partition failed, and otherwise the whole request
/// fails with every underlying error listed.
pub fn require_complete(outcome: FetchOutcome) -> (r: Result<Vec<PipeRecord>, SummaryError>)
    ensures
        r is Ok <==> outcome.errors@.len() == 0,
        r matches Ok(records) ==> records@ == outcome.records@,
        r matches Err(e) ==> e matches SummaryError::PartialFetch { errors } && errors@
            == outcome.errors@,
{
    if outcome.errors.len() == 0 {
        Ok(outcome.records)
    } else {
        Err(SummaryError::PartialFetch { errors: outcome.errors })
    }
}

} // verus!
