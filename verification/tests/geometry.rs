use infra_hex::BBox;
use infra_hex::FetchOutcome;
use infra_hex::MultiPolygon;
use infra_hex::PipeRecord;
use infra_hex::Point;
use infra_hex::Ring;
use infra_hex::grid::cell_boundary;
use infra_hex::grid::decode_cell;
use infra_hex::grid::encode_cell;
use infra_hex::grid::locate_cell;
use infra_hex::require_complete;
use infra_hex::SummaryError;
use infra_hex::summarize_by_bbox;

fn pt(lat_udeg: i64, lon_udeg: i64) -> Point {
    Point { lat_udeg, lon_udeg }
}

#[test]
fn bbox_new_keeps_its_bounds() {
    let b = BBox::new(-5, -40, 30, 25);
    assert_eq!(b.min_lat_udeg, -5);
    assert_eq!(b.min_lon_udeg, -40);
    assert_eq!(b.max_lat_udeg, 30);
    assert_eq!(b.max_lon_udeg, 25);
}

#[test]
fn cell_key_roundtrip() {
    let (row, col) = locate_cell(pt(51_426_688, -169_216), 9);
    assert_eq!((row, col), (719, 686));
    let key = encode_cell(row, col);
    assert_eq!(key, 3_088_081_486_511);
    assert_eq!(decode_cell(key), (719, 686));
}

#[test]
fn boundary_of_a_known_cell() {
    let boundary = cell_boundary(3_088_081_486_511, 9);
    let expected = vec![
        pt(51_361_152, -300_288),
        pt(51_295_616, -169_216),
        pt(51_361_152, -38_144),
        pt(51_492_224, -38_144),
        pt(51_557_760, -169_216),
        pt(51_492_224, -300_288),
    ];
    assert_eq!(boundary, expected);
}

#[test]
fn point_in_polygon_with_a_hole() {
    let donut = MultiPolygon {
        rings: vec![
            Ring {
                points: vec![pt(0, 0), pt(0, 1000), pt(1000, 1000), pt(1000, 0)],
            },
            Ring {
                points: vec![pt(200, 200), pt(200, 800), pt(800, 800), pt(800, 200)],
            },
        ],
    };
    assert!(donut.contains_point(pt(100, 500)));
    assert!(!donut.contains_point(pt(500, 500)));
    assert!(!donut.contains_point(pt(1500, 500)));
}

#[test]
fn require_complete_passes_records_through() {
    let records = vec![PipeRecord {
        pipe_id: 9,
        location: pt(1, 2),
    }];
    let out = require_complete(FetchOutcome {
        records: records.clone(),
        errors: vec![],
    })
    .unwrap();
    assert_eq!(out, records);
}

#[test]
fn deep_zoom_separates_nearby_points() {
    // Two points two cells apart at the deepest zoom fall in one cell at a
    // shallow zoom: higher zoom means smaller cells.
    let a = pt(10_000_000, 10_000_000);
    let b = pt(10_000_000, 10_008_192); // two zoom-15 cell widths east
    let deep_a = locate_cell(a, 15);
    let deep_b = locate_cell(b, 15);
    assert_ne!(deep_a, deep_b);
    let shallow_a = locate_cell(a, 3);
    let shallow_b = locate_cell(b, 3);
    assert_eq!(shallow_a, shallow_b);
}

#[test]
fn domain_edge_points_still_aggregate() {
    let table = summarize_by_bbox(
        FetchOutcome {
            records: vec![PipeRecord {
                pipe_id: 1,
                location: pt(90_000_000, 180_000_000),
            }],
            errors: vec![],
        },
        15,
    )
    .unwrap();
    assert_eq!(table.rows.len(), 1);
    assert_eq!(table.rows[0].pipe_count, 1);
}

#[test]
fn initialization_error_carries_its_message() {
    let e = SummaryError::Initialization {
        message: String::from("no execution context"),
    };
    assert!(matches!(
        e,
        SummaryError::Initialization { message } if message == "no execution context"
    ));
}

#[test]
fn inverted_bbox_matches_nothing_downstream() {
    // Construction is total; an inverted box simply fetches nothing, and an
    // empty fetch summarizes to an empty table.
    let b = BBox::new(30, 25, -5, -40);
    assert!(b.min_lat_udeg > b.max_lat_udeg);
    let table = summarize_by_bbox(
        FetchOutcome {
            records: vec![],
            errors: vec![],
        },
        9,
    )
    .unwrap();
    assert_eq!(table.rows.len(), 0);
}
