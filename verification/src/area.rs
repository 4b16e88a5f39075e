//! The area resolver: turns the result of a built-up-area lookup into a
//! polygon with its bounding envelope, or into the exact error the lookup
//! deserves.
//!
//! The lookup itself (network, caching) runs outside the library; its result
//! arrives as `None` when the object id resolved to nothing, or as the
//! polygon it found.  Resolution happens before any record fetch: the fetch
//! needs the envelope computed here, so an unknown id can never cost a
//! fetch call.

use vstd::prelude::*;

use crate::error::SummaryError;
use crate::geom::BBox;
use crate::geom::MultiPolygon;
use crate::geom::envelope_attained;
use crate::geom::envelope_bounds;
use crate::geom::has_any_point;

verus! {

/// A built-up area: the administrative object id it was looked up by, the
/// polygon the lookup returned, and the polygon's bounding envelope, which
/// drives the record fetch.
#[derive(Clone, Debug)]
pub struct BuiltUpArea {
    pub object_id: i64,
    pub geometry: MultiPolygon,
    pub bbox: BBox,
}

/// Resolves a built-up-area lookup result.
///
/// An id that resolved to nothing is a `NotFound` error; a polygon without a
/// single point has no envelope and is a `DegenerateGeometry` error; any
/// other polygon resolves to itself plus its tightest bounding box.
pub fn resolve_area(object_id: i64, lookup: Option<MultiPolygon>) -> (r: Result<
    BuiltUpArea,
    SummaryError,
>)
    ensures
        lookup is None ==> r == Result::<BuiltUpArea, SummaryError>::Err(
            SummaryError::NotFound { object_id },
        ),
        lookup matches Some(g) ==> {
            &&& !has_any_point(g@) ==> r == Result::<BuiltUpArea, SummaryError>::Err(
                SummaryError::DegenerateGeometry { object_id },
            )
            &&& has_any_point(g@) ==> (r matches Ok(area) && {
                &&& area.object_id == object_id
                &&& area.geometry@ == g@
                &&& envelope_bounds(g@, area.bbox)
                &&& envelope_attained(g@, area.bbox)
            })
        },
{
    match lookup {
        None => Err(SummaryError::NotFound { object_id }),
        Some(geometry) => {
            match geometry.envelope() {
                None => Err(SummaryError::DegenerateGeometry { object_id }),
                Some(bbox) => Ok(BuiltUpArea { object_id, geometry, bbox }),
            }
        },
    }
}

} // verus!
