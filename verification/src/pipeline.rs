//! The two entry points: summarize by bounding box and summarize by
//! built-up-area polygon.
//!
//! Both run the same pipeline: take what the fetch collaborator returned for
//! the query box, fail the whole request if any partition failed, aggregate
//! the records onto the grid, and package the table.  The polygon entry
//! point differs in two ways: its query box is the envelope of an area
//! resolved first (see `crate::area::resolve_area`, which fails before any
//! fetch can happen), and its aggregation clips to the resolved polygon
//! rather than the box around it.

use vstd::prelude::*;

use crate::area::BuiltUpArea;
use crate::error::SummaryError;
use crate::fetch::FetchOutcome;
use crate::fetch::require_complete;
use crate::summary::HexSummaryTable;
use crate::summary::summarize;
use crate::summary::summarize_clipped;
use crate::summary::summarize_clipped_post;
use crate::summary::summarize_post;

verus! {

/// Summarizes everything the fetch returned for a bounding box: fails with
/// every partition error listed when any partition failed, and otherwise
/// bins every record (no clipping) into the sorted summary table.
pub fn summarize_by_bbox(outcome: FetchOutcome, zoom: u8) -> (r: Result<
    HexSummaryTable,
    SummaryError,
>)
    ensures
        outcome.errors@.len() > 0 ==> (r matches Err(e) && e matches SummaryError::PartialFetch {
            errors,
        } && errors@ == outcome.errors@),
        outcome.errors@.len() == 0 ==> summarize_post(outcome.records@, zoom, r),
{
    let ghost records_in = outcome.records@;
    match require_complete(outcome) {
        Err(e) => Err(e),
        Ok(records) => summarize(&records, zoom),
    }
}

/// Summarizes everything the fetch returned for a resolved built-up area:
/// fails with every partition error listed when any partition failed, and
/// otherwise bins the records whose points lie inside the area's polygon
/// (the fetch covered the polygon's bounding box, which is larger).
pub fn summarize_by_polygon_area(outcome: FetchOutcome, zoom: u8, area: &BuiltUpArea) -> (r: Result<
    HexSummaryTable,
    SummaryError,
>)
    ensures
        outcome.errors@.len() > 0 ==> (r matches Err(e) && e matches SummaryError::PartialFetch {
            errors,
        } && errors@ == outcome.errors@),
        outcome.errors@.len() == 0 ==> summarize_clipped_post(
            outcome.records@,
            zoom,
            area.geometry@,
            r,
        ),
{
    let ghost records_in = outcome.records@;
    match require_complete(outcome) {
        Err(e) => Err(e),
        Ok(records) => summarize_clipped(&records, zoom, &area.geometry),
    }
}

} // verus!
