//! The hex aggregator and the result packager.
//!
//! Records are binned one by one: each record is attributed to exactly one
//! cell, the cell holding its representative point (so a feature that grazes
//! several cells still counts once, and the counts of a table always add up
//! to the number of records that went in).  When a clip polygon is supplied,
//! clipping is at the record level: a record is kept exactly when its point
//! lies inside the polygon, for both entry points alike.  Cells are kept in
//! a vector sorted by encoded cell key, so the rows of the finished table
//! come out in one deterministic order.

use vstd::prelude::*;

use crate::error::AggregationFault;
use crate::error::SummaryError;
use crate::fetch::PipeRecord;
use crate::geom::MultiPolygon;
use crate::geom::Point;
use crate::geom::point_in_domain;
use crate::geom::polygon_contains;
use crate::geom::rings_in_domain;
use crate::grid::MAX_ZOOM;
use crate::grid::encode_cell;
use crate::grid::lemma_cell_key_fits;
use crate::grid::lemma_located_cell_in_range;
use crate::grid::locate_cell;
use crate::grid::spec_cell_key;
use crate::grid::spec_cell_boundary;
use crate::grid::cell_boundary;

verus! {

/// One occupied cell while binning: its encoded key and how many records
/// fell in it so far.
#[derive(Clone, Copy, Debug, PartialEq, Eq, Structural)]
pub struct CellBin {
    pub key: u64,
    pub count: u64,
}

/// How many of the keys equal `k`.
pub open spec fn key_occurrences(keys: Seq<u64>, k: u64) -> nat
    decreases keys.len(),
{
    if keys.len() == 0 {
        0
    } else {
        key_occurrences(keys.drop_last(), k) + if keys.last() == k {
            1nat
        } else {
            0nat
        }
    }
}

/// The encoded cell keys of a record sequence at a zoom level, in order.
pub open spec fn record_keys(records: Seq<PipeRecord>, zoom: u8) -> Seq<u64> {
    records.map_values(|rec: PipeRecord| spec_cell_key(rec.location, zoom) as u64)
}

/// The subsequence of records whose points lie inside the clip polygon, in
/// their original order.
pub open spec fn kept_records(records: Seq<PipeRecord>, rings: Seq<Seq<Point>>) -> Seq<PipeRecord>
    decreases records.len(),
{
    if records.len() == 0 {
        Seq::empty()
    } else {
        let init = kept_records(records.drop_last(), rings);
        if polygon_contains(rings, records.last().location) {
            init.push(records.last())
        } else {
            init
        }
    }
}

/// Whether every record's point lies in the coordinate domain.
pub open spec fn records_in_domain(records: Seq<PipeRecord>) -> bool {
    forall|i: int| 0 <= i < records.len() ==> point_in_domain((#[trigger] records[i]).location)
}

/// Whether the bins are strictly sorted by key (so keys are also distinct).
pub open spec fn bins_sorted(bins: Seq<CellBin>) -> bool {
    forall|i: int, j: int| 0 <= i < j < bins.len() ==> bins[i].key < bins[j].key
}

/// Total count over all bins whose key is `k`.
pub open spec fn bin_count(bins: Seq<CellBin>, k: u64) -> nat
    decreases bins.len(),
{
    if bins.len() == 0 {
        0
    } else {
        (if bins[0].key == k {
            bins[0].count as nat
        } else {
            0nat
        }) + bin_count(bins.drop_first(), k)
    }
}

/// Total count over all bins.
pub open spec fn bin_total(bins: Seq<CellBin>) -> nat
    decreases bins.len(),
{
    if bins.len() == 0 {
        0
    } else {
        bins[0].count as nat + bin_total(bins.drop_first())
    }
}

/// The bins that describe a key sequence: sorted, every count positive, and
/// the count of each key equal to its number of occurrences.
pub open spec fn bins_match(bins: Seq<CellBin>, keys: Seq<u64>) -> bool {
    &&& bins_sorted(bins)
    &&& forall|i: int| 0 <= i < bins.len() ==> (#[trigger] bins[i]).count > 0
    &&& forall|k: u64| #[trigger] bin_count(bins, k) == key_occurrences(keys, k)
}

/// A key that appears in no bin contributes no count.
proof fn lemma_bin_count_absent(bins: Seq<CellBin>, k: u64)
    requires
        forall|i: int| 0 <= i < bins.len() ==> (#[trigger] bins[i]).key != k,
    ensures
        bin_count(bins, k) == 0,
    decreases bins.len(),
{
    if bins.len() > 0 {
        lemma_bin_count_absent(bins.drop_first(), k);
    }
}

/// In sorted bins the count of the key at `idx` is exactly that bin's count.
proof fn lemma_sorted_bin_count_at(bins: Seq<CellBin>, idx: int)
    requires
        bins_sorted(bins),
        0 <= idx < bins.len(),
    ensures
        bin_count(bins, bins[idx].key) == bins[idx].count,
    decreases idx,
{
    if idx == 0 {
        assert(forall|i: int|
            0 <= i < bins.drop_first().len() ==> (#[trigger] bins.drop_first()[i]).key
                != bins[0].key);
        lemma_bin_count_absent(bins.drop_first(), bins[0].key);
    } else {
        lemma_sorted_bin_count_at(bins.drop_first(), idx - 1);
        assert(bins.drop_first()[idx - 1] == bins[idx]);
        assert(bins[0].key != bins[idx].key);
    }
}

/// No key counts more than the total.
proof fn lemma_bin_count_le_total(bins: Seq<CellBin>, k: u64)
    ensures
        bin_count(bins, k) <= bin_total(bins),
    decreases bins.len(),
{
    if bins.len() > 0 {
        lemma_bin_count_le_total(bins.drop_first(), k);
    }
}

/// Inserting a bin adds its count to its key and to the total and changes no
/// other key.
proof fn lemma_bins_insert(bins: Seq<CellBin>, idx: int, b: CellBin)
    requires
        0 <= idx <= bins.len(),
    ensures
        bin_total(bins.insert(idx, b)) == bin_total(bins) + b.count,
        forall|k: u64| #[trigger]
            bin_count(bins.insert(idx, b), k) == bin_count(bins, k) + if b.key == k {
                b.count as nat
            } else {
                0nat
            },
    decreases idx,
{
    if idx == 0 {
        assert(bins.insert(0, b).drop_first() =~= bins);
    } else {
        lemma_bins_insert(bins.drop_first(), idx - 1, b);
        assert(bins.insert(idx, b).drop_first() =~= bins.drop_first().insert(idx - 1, b));
        assert(bins.insert(idx, b)[0] == bins[0]);
        assert forall|k: u64| #[trigger]
            bin_count(bins.insert(idx, b), k) == bin_count(bins, k) + (if b.key == k {
                b.count as nat
            } else {
                0nat
            }) by {
            assert(bin_count(bins.drop_first().insert(idx - 1, b), k) == bin_count(
                bins.drop_first(),
                k,
            ) + if b.key == k {
                b.count as nat
            } else {
                0nat
            });
        }
    }
}

/// Raising one bin's count by one raises its key's count and the total by
/// one and changes no other key.
proof fn lemma_bins_bump(bins: Seq<CellBin>, idx: int)
    requires
        0 <= idx < bins.len(),
        bins[idx].count < u64::MAX,
    ensures
        bin_total(
            bins.update(idx, CellBin { key: bins[idx].key, count: (bins[idx].count + 1) as u64 }),
        ) == bin_total(bins) + 1,
        forall|k: u64| #[trigger]
            bin_count(
                bins.update(
                    idx,
                    CellBin { key: bins[idx].key, count: (bins[idx].count + 1) as u64 },
                ),
                k,
            ) == bin_count(bins, k) + if bins[idx].key == k {
                1nat
            } else {
                0nat
            },
    decreases idx,
{
    let upd = bins.update(idx, CellBin { key: bins[idx].key, count: (bins[idx].count + 1) as u64 });
    if idx == 0 {
        assert(upd.drop_first() =~= bins.drop_first());
    } else {
        lemma_bins_bump(bins.drop_first(), idx - 1);
        assert(upd.drop_first() =~= bins.drop_first().update(
            idx - 1,
            CellBin {
                key: bins.drop_first()[idx - 1].key,
                count: (bins.drop_first()[idx - 1].count + 1) as u64,
            },
        ));
        assert(upd[0] == bins[0]);
        assert(bins.drop_first()[idx - 1] == bins[idx]);
        assert(bin_total(upd) == upd[0].count as nat + bin_total(upd.drop_first()));
        assert forall|k: u64| #[trigger]
            bin_count(upd, k) == bin_count(bins, k) + (if bins[idx].key == k {
                1nat
            } else {
                0nat
            }) by {
            assert(bin_count(upd.drop_first(), k) == bin_count(bins.drop_first(), k) + if bins[
                idx
            ].key == k {
                1nat
            } else {
                0nat
            });
        }
    }
}

/// Adds one record's key to sorted bins: bumps the bin that already holds
/// the key, or inserts a fresh bin with count one at the key's place.
fn insert_bin(bins: &mut Vec<CellBin>, key: u64)
    requires
        bins_sorted(old(bins)@),
        bin_total(old(bins)@) < u64::MAX,
        forall|i: int| 0 <= i < old(bins)@.len() ==> (#[trigger] old(bins)@[i]).count > 0,
    ensures
        bins_sorted(final(bins)@),
        forall|i: int| 0 <= i < final(bins)@.len() ==> (#[trigger] final(bins)@[i]).count > 0,
        bin_total(final(bins)@) == bin_total(old(bins)@) + 1,
        forall|k: u64| #[trigger]
            bin_count(final(bins)@, k) == bin_count(old(bins)@, k) + if k == key {
                1nat
            } else {
                0nat
            },
{
    let ghost orig = bins@;
    let mut idx: usize = 0;
    while idx < bins.len() && bins[idx].key < key
        invariant
            bins@ == orig,
            idx <= bins@.len(),
            forall|j: int| 0 <= j < idx ==> (#[trigger] bins@[j]).key < key,
        decreases bins@.len() - idx,
    {
        idx += 1;
    }
    if idx < bins.len() && bins[idx].key == key {
        let c = bins[idx].count;
        proof {
            lemma_sorted_bin_count_at(bins@, idx as int);
            lemma_bin_count_le_total(bins@, key);
            lemma_bins_bump(bins@, idx as int);
        }
        bins.set(idx, CellBin { key, count: c + 1 });
    } else {
        proof {
            lemma_bins_insert(bins@, idx as int, CellBin { key, count: 1 });
        }
        bins.insert(idx, CellBin { key, count: 1 });
        proof {
            assert forall|i: int, j: int| 0 <= i < j < bins@.len() implies bins@[i].key
                < bins@[j].key by {
                if j < idx {
                    assert(bins@[i] == orig[i] && bins@[j] == orig[j]);
                } else if i < idx && j == idx {
                    assert(bins@[i] == orig[i]);
                } else if i == idx {
                    assert(bins@[j] == orig[j - 1]);
                    assert(!(orig[j - 1].key < key) && orig[j - 1].key != key);
                } else if i < idx {
                    assert(bins@[i] == orig[i] && bins@[j] == orig[j - 1]);
                    assert(!(orig[j - 1].key < key) && orig[j - 1].key != key);
                } else {
                    assert(bins@[i] == orig[i - 1] && bins@[j] == orig[j - 1]);
                }
            }
        }
    }
}

/// Keeping records never yields more than went in.
proof fn lemma_kept_len(records: Seq<PipeRecord>, rings: Seq<Seq<Point>>)
    ensures
        kept_records(records, rings).len() <= records.len(),
    decreases records.len(),
{
    if records.len() > 0 {
        lemma_kept_len(records.drop_last(), rings);
    }
}

/// Bins all records (or, with a clip polygon, all records inside it) by the
/// cell of their point, into bins sorted by cell key.
fn bin_records(records: &Vec<PipeRecord>, zoom: u8, clip: Option<&MultiPolygon>) -> (r: Result<
    Vec<CellBin>,
    SummaryError,
>)
    requires
        zoom <= MAX_ZOOM,
        clip matches Some(mp) ==> rings_in_domain(mp@),
    ensures
        r is Ok <==> records_in_domain(records@),
        !records_in_domain(records@) ==> r == Result::<Vec<CellBin>, SummaryError>::Err(
            SummaryError::Aggregation { fault: AggregationFault::RecordOutsideDomain },
        ),
        r matches Ok(bins) ==> {
            let eff = match clip {
                Some(mp) => kept_records(records@, mp@),
                None => records@,
            };
            &&& bins_match(bins@, record_keys(eff, zoom))
            &&& bin_total(bins@) == eff.len()
        },
{
    let mut bins: Vec<CellBin> = Vec::new();
    let ghost all = records@;
    proof {
        assert(all.take(0) =~= Seq::<PipeRecord>::empty());
        assert(record_keys(all.take(0), zoom) =~= Seq::<u64>::empty());
    }
    let mut i: usize = 0;
    while i < records.len()
        invariant
            i <= all.len(),
            all == records@,
            zoom <= MAX_ZOOM,
            clip matches Some(mp) ==> rings_in_domain(mp@),
            forall|j: int| 0 <= j < i ==> point_in_domain((#[trigger] all[j]).location),
            ({
                let eff = match clip {
                    Some(mp) => kept_records(all.take(i as int), mp@),
                    None => all.take(i as int),
                };
                &&& bins_match(bins@, record_keys(eff, zoom))
                &&& bin_total(bins@) == eff.len()
            }),
        decreases all.len() - i,
    {
        let ghost prefix = all.take(i as int);
        let ghost eff_old = match clip {
            Some(mp) => kept_records(prefix, mp@),
            None => prefix,
        };
        let rec = records[i];
        if !rec.location.in_domain() {
            assert(!records_in_domain(records@));
            return Err(SummaryError::Aggregation { fault: AggregationFault::RecordOutsideDomain });
        }
        let keep: bool = match clip {
            None => true,
            Some(mp) => mp.contains_point(rec.location),
        };
        proof {
            assert(all.take(i + 1) =~= prefix.push(rec));
            assert(all.take(i + 1).drop_last() =~= prefix);
            if let Some(mp) = clip {
                assert(kept_records(all.take(i + 1), mp@) == if polygon_contains(
                    mp@,
                    rec.location,
                ) {
                    kept_records(prefix, mp@).push(rec)
                } else {
                    kept_records(prefix, mp@)
                });
            }
        }
        if keep {
            let (row, col) = locate_cell(rec.location, zoom);
            let key = encode_cell(row, col);
            proof {
                lemma_located_cell_in_range(rec.location, zoom);
                lemma_cell_key_fits(
                    crate::grid::spec_cell_of(rec.location, zoom).0,
                    crate::grid::spec_cell_of(rec.location, zoom).1,
                );
                assert(key == spec_cell_key(rec.location, zoom) as u64);
                if let Some(mp) = clip {
                    lemma_kept_len(prefix, mp@);
                }
                assert(bin_total(bins@) < u64::MAX);
            }
            let ghost old_bins = bins@;
            let ghost old_keys = record_keys(eff_old, zoom);
            insert_bin(&mut bins, key);
            proof {
                let eff_new = eff_old.push(rec);
                let new_keys = record_keys(eff_new, zoom);
                assert(new_keys =~= old_keys.push(key));
                assert(new_keys.drop_last() =~= old_keys);
                assert forall|k: u64| #[trigger]
                    bin_count(bins@, k) == key_occurrences(new_keys, k) by {
                    assert(bin_count(bins@, k) == bin_count(old_bins, k) + if k == key {
                        1nat
                    } else {
                        0nat
                    });
                    assert(key_occurrences(new_keys, k) == key_occurrences(old_keys, k) + if key
                        == k {
                        1nat
                    } else {
                        0nat
                    });
                }
            }
        } else {
            proof {
                if let Some(mp) = clip {
                    assert(kept_records(all.take(i + 1), mp@) == kept_records(prefix, mp@));
                }
            }
        }
        i += 1;
    }
    proof {
        assert(all.take(all.len() as int) =~= all);
    }
    Ok(bins)
}

/// One row of the summary table: the occupied cell's key, how many pipes
/// fell in it, and the cell's boundary for rendering.
#[verifier::ext_equal]
#[derive(Clone, Debug)]
pub struct HexSummaryRow {
    pub hex_id: u64,
    pub pipe_count: u64,
    pub boundary: Vec<Point>,
}

/// The finished summary: one row per occupied cell, sorted by cell key.
#[verifier::ext_equal]
#[derive(Clone, Debug)]
pub struct HexSummaryTable {
    pub zoom: u8,
    pub rows: Vec<HexSummaryRow>,
}

/// Total pipe count over all rows whose key is `k`.
pub open spec fn row_count(rows: Seq<HexSummaryRow>, k: u64) -> nat
    decreases rows.len(),
{
    if rows.len() == 0 {
        0
    } else {
        (if rows[0].hex_id == k {
            rows[0].pipe_count as nat
        } else {
            0nat
        }) + row_count(rows.drop_first(), k)
    }
}

/// Total pipe count over all rows.
pub open spec fn table_total(rows: Seq<HexSummaryRow>) -> nat
    decreases rows.len(),
{
    if rows.len() == 0 {
        0
    } else {
        rows[0].pipe_count as nat + table_total(rows.drop_first())
    }
}

/// Whether the rows are strictly sorted by cell key.
pub open spec fn rows_sorted(rows: Seq<HexSummaryRow>) -> bool {
    forall|i: int, j: int| 0 <= i < j < rows.len() ==> rows[i].hex_id < rows[j].hex_id
}

/// What it means for table rows to summarize a key sequence: strictly sorted
/// by key, every count positive, each key's count equal to its number of
/// occurrences, and each row carrying its own cell's boundary.  For a given
/// key sequence exactly one row sequence satisfies this.
pub open spec fn table_matches(rows: Seq<HexSummaryRow>, keys: Seq<u64>, zoom: u8) -> bool {
    &&& rows_sorted(rows)
    &&& forall|i: int| 0 <= i < rows.len() ==> (#[trigger] rows[i]).pipe_count > 0
    &&& forall|k: u64| #[trigger] row_count(rows, k) == key_occurrences(keys, k)
    &&& forall|i: int|
        0 <= i < rows.len() ==> (#[trigger] rows[i]).boundary@ == spec_cell_boundary(
            rows[i].hex_id,
            zoom,
        )
}

/// Rows built one-for-one from bins count exactly as the bins do.
proof fn lemma_rows_from_bins(rows: Seq<HexSummaryRow>, bins: Seq<CellBin>)
    requires
        rows.len() == bins.len(),
        forall|i: int|
            0 <= i < rows.len() ==> (#[trigger] rows[i]).hex_id == bins[i].key
                && rows[i].pipe_count == bins[i].count,
    ensures
        forall|k: u64| #[trigger] row_count(rows, k) == bin_count(bins, k),
        table_total(rows) == bin_total(bins),
    decreases rows.len(),
{
    if rows.len() > 0 {
        assert(forall|i: int|
            0 <= i < rows.drop_first().len() ==> (#[trigger] rows.drop_first()[i]).hex_id
                == bins.drop_first()[i].key && rows.drop_first()[i].pipe_count
                == bins.drop_first()[i].count);
        lemma_rows_from_bins(rows.drop_first(), bins.drop_first());
        assert forall|k: u64| #[trigger] row_count(rows, k) == bin_count(bins, k) by {
            assert(row_count(rows.drop_first(), k) == bin_count(bins.drop_first(), k));
        }
    }
}

/// Packages sorted bins as the summary table: one row per bin, in the bins'
/// order, each row carrying its cell's boundary.
pub fn to_table(bins: Vec<CellBin>, zoom: u8) -> (t: HexSummaryTable)
    requires
        zoom <= MAX_ZOOM,
    ensures
        t.zoom == zoom,
        t.rows@.len() == bins@.len(),
        forall|i: int|
            0 <= i < bins@.len() ==> {
                &&& (#[trigger] t.rows@[i]).hex_id == bins@[i].key
                &&& t.rows@[i].pipe_count == bins@[i].count
                &&& t.rows@[i].boundary@ == spec_cell_boundary(bins@[i].key, zoom)
            },
{
    let mut rows: Vec<HexSummaryRow> = Vec::new();
    let mut i: usize = 0;
    while i < bins.len()
        invariant
            i <= bins@.len(),
            zoom <= MAX_ZOOM,
            rows@.len() == i,
            forall|j: int|
                0 <= j < i ==> {
                    &&& (#[trigger] rows@[j]).hex_id == bins@[j].key
                    &&& rows@[j].pipe_count == bins@[j].count
                    &&& rows@[j].boundary@ == spec_cell_boundary(bins@[j].key, zoom)
                },
        decreases bins@.len() - i,
    {
        let bin = bins[i];
        let boundary = cell_boundary(bin.key, zoom);
        rows.push(HexSummaryRow { hex_id: bin.key, pipe_count: bin.count, boundary });
        i += 1;
    }
    HexSummaryTable { zoom, rows }
}

/// The contract of `summarize`: a zoom beyond the grid or a record outside
/// the coordinate domain is the exact corresponding aggregation error, and
/// otherwise the result is the table of the records' cell keys, whose counts
/// add up to the number of records.
pub open spec fn summarize_post(
    records: Seq<PipeRecord>,
    zoom: u8,
    r: Result<HexSummaryTable, SummaryError>,
) -> bool {
    &&& zoom > MAX_ZOOM ==> r == Result::<HexSummaryTable, SummaryError>::Err(
        SummaryError::Aggregation { fault: AggregationFault::ZoomOutOfRange { zoom } },
    )
    &&& zoom <= MAX_ZOOM ==> {
        &&& r is Ok <==> records_in_domain(records)
        &&& !records_in_domain(records) ==> r == Result::<HexSummaryTable, SummaryError>::Err(
            SummaryError::Aggregation { fault: AggregationFault::RecordOutsideDomain },
        )
        &&& r matches Ok(t) ==> {
            &&& t.zoom == zoom
            &&& table_matches(t.rows@, record_keys(records, zoom), zoom)
            &&& table_total(t.rows@) == records.len()
        }
    }
}

/// The contract of `summarize_clipped`: as `summarize_post`, but over only
/// the records kept by the clip polygon, and with a polygon outside the
/// coordinate domain rejected first.
pub open spec fn summarize_clipped_post(
    records: Seq<PipeRecord>,
    zoom: u8,
    rings: Seq<Seq<Point>>,
    r: Result<HexSummaryTable, SummaryError>,
) -> bool {
    &&& zoom > MAX_ZOOM ==> r == Result::<HexSummaryTable, SummaryError>::Err(
        SummaryError::Aggregation { fault: AggregationFault::ZoomOutOfRange { zoom } },
    )
    &&& zoom <= MAX_ZOOM && !rings_in_domain(rings) ==> r == Result::<
        HexSummaryTable,
        SummaryError,
    >::Err(SummaryError::Aggregation { fault: AggregationFault::AreaOutsideDomain })
    &&& zoom <= MAX_ZOOM && rings_in_domain(rings) ==> {
        &&& r is Ok <==> records_in_domain(records)
        &&& !records_in_domain(records) ==> r == Result::<HexSummaryTable, SummaryError>::Err(
            SummaryError::Aggregation { fault: AggregationFault::RecordOutsideDomain },
        )
        &&& r matches Ok(t) ==> {
            &&& t.zoom == zoom
            &&& table_matches(t.rows@, record_keys(kept_records(records, rings), zoom), zoom)
            &&& table_total(t.rows@) == kept_records(records, rings).len()
        }
    }
}

/// Bins every record by the cell of its point and packages the counts as a
/// table, one row per occupied cell, sorted by cell key.  No clipping: every
/// fetched record counts, wherever in the fetched extent it lies.
pub fn summarize(records: &Vec<PipeRecord>, zoom: u8) -> (r: Result<HexSummaryTable, SummaryError>)
    ensures
        summarize_post(records@, zoom, r),
{
    if zoom > MAX_ZOOM {
        return Err(SummaryError::Aggregation { fault: AggregationFault::ZoomOutOfRange { zoom } });
    }
    match bin_records(records, zoom, None) {
        Err(e) => Err(e),
        Ok(bins) => {
            let ghost bins_view = bins@;
            let t = to_table(bins, zoom);
            proof {
                lemma_rows_from_bins(t.rows@, bins_view);
            }
            Ok(t)
        },
    }
}

/// As `summarize`, but a record is kept only when its point lies inside the
/// clip polygon (record-level clipping), so records in the fetched extent
/// but outside the polygon do not count.
pub fn summarize_clipped(records: &Vec<PipeRecord>, zoom: u8, area: &MultiPolygon) -> (r: Result<
    HexSummaryTable,
    SummaryError,
>)
    ensures
        summarize_clipped_post(records@, zoom, area@, r),
{
    if zoom > MAX_ZOOM {
        return Err(SummaryError::Aggregation { fault: AggregationFault::ZoomOutOfRange { zoom } });
    }
    if !area.in_domain() {
        return Err(SummaryError::Aggregation { fault: AggregationFault::AreaOutsideDomain });
    }
    match bin_records(records, zoom, Some(area)) {
        Err(e) => Err(e),
        Ok(bins) => {
            let ghost bins_view = bins@;
            let t = to_table(bins, zoom);
            proof {
                lemma_rows_from_bins(t.rows@, bins_view);
            }
            Ok(t)
        },
    }
}

} // verus!
