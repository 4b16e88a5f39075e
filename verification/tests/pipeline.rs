use infra_hex::AggregationFault;
use infra_hex::FetchError;
use infra_hex::FetchOutcome;
use infra_hex::MultiPolygon;
use infra_hex::PipeRecord;
use infra_hex::Point;
use infra_hex::Ring;
use infra_hex::SummaryError;
use infra_hex::resolve_area;
use infra_hex::summarize_by_bbox;
use infra_hex::summarize_by_polygon_area;

// A point in the middle of one zoom-9 cell (row 719, column 686, encoded key
// 3088081486511), far from the cell's edges.
const MID_LAT: i64 = 51_426_688;
const MID_LON: i64 = -169_216;
const MID_KEY: u64 = 3_088_081_486_511;

fn rec(pipe_id: u64, lat_udeg: i64, lon_udeg: i64) -> PipeRecord {
    PipeRecord {
        pipe_id,
        location: Point { lat_udeg, lon_udeg },
    }
}

fn ok_fetch(records: Vec<PipeRecord>) -> FetchOutcome {
    FetchOutcome {
        records,
        errors: vec![],
    }
}

fn square_around(lat: i64, lon: i64, half: i64) -> MultiPolygon {
    MultiPolygon {
        rings: vec![Ring {
            points: vec![
                Point { lat_udeg: lat - half, lon_udeg: lon - half },
                Point { lat_udeg: lat - half, lon_udeg: lon + half },
                Point { lat_udeg: lat + half, lon_udeg: lon + half },
                Point { lat_udeg: lat + half, lon_udeg: lon - half },
            ],
        }],
    }
}

#[test]
fn empty_fetch_gives_empty_table() {
    let table = summarize_by_bbox(ok_fetch(vec![]), 9).unwrap();
    assert_eq!(table.zoom, 9);
    assert_eq!(table.rows.len(), 0);
}

#[test]
fn three_records_one_cell() {
    let records = vec![
        rec(1, MID_LAT, MID_LON),
        rec(2, MID_LAT + 5, MID_LON - 7),
        rec(3, MID_LAT - 3, MID_LON + 11),
    ];
    let table = summarize_by_bbox(ok_fetch(records), 9).unwrap();
    assert_eq!(table.rows.len(), 1);
    assert_eq!(table.rows[0].hex_id, MID_KEY);
    assert_eq!(table.rows[0].pipe_count, 3);
    assert_eq!(table.rows[0].boundary.len(), 6);
}

#[test]
fn one_failed_partition_fails_whole_request() {
    let outcome = FetchOutcome {
        records: vec![rec(1, MID_LAT, MID_LON)],
        errors: vec![FetchError {
            partition: 4,
            message: String::from("partition timed out"),
        }],
    };
    match summarize_by_bbox(outcome, 9) {
        Err(SummaryError::PartialFetch { errors }) => {
            assert_eq!(errors.len(), 1);
            assert_eq!(errors[0].partition, 4);
            assert_eq!(errors[0].message, "partition timed out");
        }
        other => panic!("expected a partial-fetch error, got {:?}", other),
    }
}

#[test]
fn counts_sum_to_record_count_and_rows_sort_by_key() {
    let records = vec![
        rec(1, MID_LAT + 196_608, MID_LON), // row 720, key 3092376453808
        rec(2, MID_LAT, MID_LON),
        rec(3, MID_LAT, MID_LON + 262_144), // row 719 col 687, key 3088081486512
        rec(4, MID_LAT + 1, MID_LON + 1),
    ];
    let table = summarize_by_bbox(ok_fetch(records), 9).unwrap();
    assert_eq!(table.rows.len(), 3);
    assert_eq!(table.rows[0].hex_id, MID_KEY);
    assert_eq!(table.rows[0].pipe_count, 2);
    assert_eq!(table.rows[1].hex_id, 3_088_081_486_512);
    assert_eq!(table.rows[1].pipe_count, 1);
    assert_eq!(table.rows[2].hex_id, 3_092_376_453_808);
    assert_eq!(table.rows[2].pipe_count, 1);
    let total: u64 = table.rows.iter().map(|r| r.pipe_count).sum();
    assert_eq!(total, 4);
}

#[test]
fn unknown_object_id_fails_before_any_fetch() {
    match resolve_area(42, None) {
        Err(SummaryError::NotFound { object_id }) => assert_eq!(object_id, 42),
        other => panic!("expected a not-found error, got {:?}", other),
    }
}

#[test]
fn empty_geometry_is_degenerate() {
    let empty = MultiPolygon { rings: vec![] };
    match resolve_area(7, Some(empty)) {
        Err(SummaryError::DegenerateGeometry { object_id }) => assert_eq!(object_id, 7),
        other => panic!("expected a degenerate-geometry error, got {:?}", other),
    }
    let empty_ring = MultiPolygon {
        rings: vec![Ring { points: vec![] }],
    };
    assert!(matches!(
        resolve_area(8, Some(empty_ring)),
        Err(SummaryError::DegenerateGeometry { object_id: 8 })
    ));
}

#[test]
fn envelope_takes_latitude_and_longitude_apart() {
    let geometry = MultiPolygon {
        rings: vec![Ring {
            points: vec![
                Point { lat_udeg: 10, lon_udeg: 20 },
                Point { lat_udeg: 30, lon_udeg: -40 },
                Point { lat_udeg: -5, lon_udeg: 25 },
            ],
        }],
    };
    let area = resolve_area(3, Some(geometry)).unwrap();
    assert_eq!(area.object_id, 3);
    assert_eq!(area.bbox.min_lat_udeg, -5);
    assert_eq!(area.bbox.max_lat_udeg, 30);
    assert_eq!(area.bbox.min_lon_udeg, -40);
    assert_eq!(area.bbox.max_lon_udeg, 25);
}

#[test]
fn polygon_entry_point_clips_at_the_record_level() {
    let polygon = square_around(MID_LAT, MID_LON, 50_000);
    let area = resolve_area(11, Some(polygon)).unwrap();
    let records = vec![
        rec(1, MID_LAT, MID_LON),           // inside the polygon
        rec(2, MID_LAT, MID_LON + 262_144), // inside the bbox fetch extent, outside the polygon
    ];
    let table = summarize_by_polygon_area(ok_fetch(records), 9, &area).unwrap();
    assert_eq!(table.rows.len(), 1);
    assert_eq!(table.rows[0].hex_id, MID_KEY);
    assert_eq!(table.rows[0].pipe_count, 1);
}

#[test]
fn polygon_entry_point_fails_on_partial_fetch() {
    let area = resolve_area(11, Some(square_around(MID_LAT, MID_LON, 50_000))).unwrap();
    let outcome = FetchOutcome {
        records: vec![rec(1, MID_LAT, MID_LON)],
        errors: vec![FetchError {
            partition: 0,
            message: String::from("connection reset"),
        }],
    };
    match summarize_by_polygon_area(outcome, 9, &area) {
        Err(SummaryError::PartialFetch { errors }) => assert_eq!(errors.len(), 1),
        other => panic!("expected a partial-fetch error, got {:?}", other),
    }
}

#[test]
fn zoom_beyond_grid_is_an_aggregation_error() {
    let outcome = ok_fetch(vec![rec(1, MID_LAT, MID_LON)]);
    assert!(matches!(
        summarize_by_bbox(outcome, 16),
        Err(SummaryError::Aggregation {
            fault: AggregationFault::ZoomOutOfRange { zoom: 16 }
        })
    ));
}

#[test]
fn record_outside_domain_is_an_aggregation_error() {
    let outcome = ok_fetch(vec![rec(1, 95_000_000, 0)]);
    assert!(matches!(
        summarize_by_bbox(outcome, 9),
        Err(SummaryError::Aggregation {
            fault: AggregationFault::RecordOutsideDomain
        })
    ));
}

#[test]
fn area_outside_domain_is_an_aggregation_error() {
    let area = resolve_area(5, Some(square_around(0, 180_050_000, 10))).unwrap();
    let outcome = ok_fetch(vec![rec(1, MID_LAT, MID_LON)]);
    assert!(matches!(
        summarize_by_polygon_area(outcome, 9, &area),
        Err(SummaryError::Aggregation {
            fault: AggregationFault::AreaOutsideDomain
        })
    ));
}

#[test]
fn identical_inputs_give_identical_tables() {
    let records = vec![
        rec(1, MID_LAT, MID_LON),
        rec(2, MID_LAT + 196_608, MID_LON),
        rec(3, MID_LAT, MID_LON + 262_144),
    ];
    let t1 = summarize_by_bbox(ok_fetch(records.clone()), 9).unwrap();
    let t2 = summarize_by_bbox(ok_fetch(records), 9).unwrap();
    assert_eq!(t1.rows.len(), t2.rows.len());
    for (a, b) in t1.rows.iter().zip(t2.rows.iter()) {
        assert_eq!(a.hex_id, b.hex_id);
        assert_eq!(a.pipe_count, b.pipe_count);
        assert_eq!(a.boundary, b.boundary);
    }
}
