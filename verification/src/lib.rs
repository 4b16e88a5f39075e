//! Aggregation of linear infrastructure features ("pipes") onto a hexagonal
//! grid over a geographic area.
//!
//! The library answers one question: given a geographic area (a bounding box,
//! or a built-up-area polygon identified by an administrative object id), how
//! many pipes fall inside each cell of a hexagonal grid at a given zoom level,
//! and where are those cells?  It owns the decisions of that pipeline: how a
//! polygon lookup becomes a bounding box, when a partially failed fetch fails
//! the whole request, how records are binned onto hex cells, how a clip
//! polygon restricts the result, and how the rows of the final table are
//! ordered.
//!
//! The collaborators that perform network input and output (the record fetch
//! and the built-up-area lookup) run outside the library; their results enter
//! as plain values (`FetchOutcome`, an optional polygon), and every decision
//! taken on those values is made and verified here.
//!
//! Coordinates are fixed-point: whole micro-degrees held in `i64`, so that a
//! latitude of 51.5 degrees is written `51_500_000`.

pub mod area;
pub mod error;
pub mod fetch;
pub mod geom;
pub mod grid;
pub mod laws;
pub mod pipeline;
pub mod summary;

pub use area::BuiltUpArea;
pub use area::resolve_area;
pub use error::AggregationFault;
pub use error::FetchError;
pub use error::SummaryError;
pub use fetch::FetchOutcome;
pub use fetch::PipeRecord;
pub use fetch::require_complete;
pub use geom::BBox;
pub use geom::MultiPolygon;
pub use geom::Point;
pub use geom::Ring;
pub use pipeline::summarize_by_bbox;
pub use pipeline::summarize_by_polygon_area;
pub use summary::HexSummaryRow;
pub use summary::HexSummaryTable;
pub use summary::summarize;
pub use summary::summarize_clipped;
pub use summary::to_table;
