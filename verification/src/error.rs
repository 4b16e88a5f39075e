//! The closed set of failure kinds a summary request can end in.
//!
//! Every failure path of the pipeline maps to exactly one variant here, and
//! each variant carries the underlying detail (the per-partition fetch
//! errors, the object id that did not resolve), so a caller can reconstruct
//! what failed and why.  Internal error identity never leaks past the
//! embedding boundary in any other shape.

use vstd::prelude::*;

verus! {

/// One failed partition or sub-request of the fetch collaborator, as the
/// collaborator reported it.
#[derive(Clone, Debug, PartialEq, Eq)]
pub struct FetchError {
    /// Which partition of the fetch failed.
    pub partition: u64,
    /// The collaborator's own description of the failure.
    pub message: String,
}

/// Why the aggregation step itself refused to run.
#[derive(Clone, Copy, Debug, PartialEq, Eq, Structural)]
pub enum AggregationFault {
    /// The zoom level is beyond the deepest level of the grid.
    ZoomOutOfRange { zoom: u8 },
    /// Some record's coordinates lie outside the coordinate domain.
    RecordOutsideDomain,
    /// Some point of the clip polygon lies outside the coordinate domain.
    AreaOutsideDomain,
}

/// The failure kinds of a summary request.
#[derive(Clone, Debug, PartialEq, Eq)]
pub enum SummaryError {
    /// The execution context or the fetch client could not be created.
    /// Raised by the embedding layer around the library, never by the
    /// library itself.
    Initialization { message: String },
    /// An identifier-based lookup found nothing upstream.
    NotFound { object_id: i64 },
    /// A resolved geometry has no computable bounding rectangle.
    DegenerateGeometry { object_id: i64 },
    /// One or more sub-fetches failed.  The whole request fails rather than
    /// returning partial counts, and every underlying failure is listed.
    PartialFetch { errors: Vec<FetchError> },
    /// The hex-binning step refused its input.
    Aggregation { fault: AggregationFault },
}

} // verus!
