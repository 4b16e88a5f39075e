//! Laws of the summary tables, stated and proved once over the spec
//! functions the contracts use.

use vstd::prelude::*;

use crate::fetch::PipeRecord;
use crate::geom::Point;
use crate::geom::polygon_contains;
use crate::grid::spec_cell_key;
use crate::summary::HexSummaryRow;
use crate::summary::kept_records;
use crate::summary::key_occurrences;
use crate::summary::record_keys;
use crate::summary::row_count;
use crate::summary::table_matches;

verus! {

/// The count of the key at `i` is at least that row's own count.
proof fn lemma_row_count_at_least(rows: Seq<HexSummaryRow>, i: int)
    requires
        0 <= i < rows.len(),
    ensures
        row_count(rows, rows[i].hex_id) >= rows[i].pipe_count,
    decreases i,
{
    if i > 0 {
        lemma_row_count_at_least(rows.drop_first(), i - 1);
        assert(rows.drop_first()[i - 1] == rows[i]);
    }
}

/// A key with a positive count sits in some row.
proof fn lemma_row_count_pos_key(rows: Seq<HexSummaryRow>, k: u64)
    requires
        row_count(rows, k) > 0,
    ensures
        exists|i: int| 0 <= i < rows.len() && (#[trigger] rows[i]).hex_id == k,
    decreases rows.len(),
{
    if rows[0].hex_id == k {
        assert(rows[0].hex_id == k);
    } else {
        lemma_row_count_pos_key(rows.drop_first(), k);
        let j = choose|i: int|
            0 <= i < rows.drop_first().len() && (#[trigger] rows.drop_first()[i]).hex_id == k;
        assert(rows[j + 1].hex_id == k);
    }
}

/// A key held by no row counts zero.
proof fn lemma_row_count_absent(rows: Seq<HexSummaryRow>, k: u64)
    requires
        forall|i: int| 0 <= i < rows.len() ==> (#[trigger] rows[i]).hex_id != k,
    ensures
        row_count(rows, k) == 0,
    decreases rows.len(),
{
    if rows.len() > 0 {
        lemma_row_count_absent(rows.drop_first(), k);
    }
}

/// In sorted rows the count of the first row's key is that row's own count.
proof fn lemma_sorted_row_count_head(rows: Seq<HexSummaryRow>)
    requires
        crate::summary::rows_sorted(rows),
        rows.len() > 0,
    ensures
        row_count(rows, rows[0].hex_id) == rows[0].pipe_count,
{
    assert(forall|i: int|
        0 <= i < rows.drop_first().len() ==> (#[trigger] rows.drop_first()[i]).hex_id
            != rows[0].hex_id);
    lemma_row_count_absent(rows.drop_first(), rows[0].hex_id);
}

/// A table over no keys has no rows: with nothing fetched (and no fetch
/// errors) the summary succeeds with an empty table.
pub proof fn lemma_empty_input_empty_table(rows: Seq<HexSummaryRow>, zoom: u8)
    requires
        table_matches(rows, Seq::<u64>::empty(), zoom),
    ensures
        rows.len() == 0,
{
    if rows.len() > 0 {
        lemma_row_count_at_least(rows, 0);
        assert(key_occurrences(Seq::<u64>::empty(), rows[0].hex_id) == 0);
    }
}

/// A positive number of occurrences pins an index holding the key.
proof fn lemma_occurrence_index(keys: Seq<u64>, k: u64)
    requires
        key_occurrences(keys, k) > 0,
    ensures
        exists|i: int| 0 <= i < keys.len() && keys[i] == k,
    decreases keys.len(),
{
    if keys.last() == k {
        assert(keys[keys.len() - 1] == k);
    } else {
        lemma_occurrence_index(keys.drop_last(), k);
        let j = choose|i: int| 0 <= i < keys.drop_last().len() && keys.drop_last()[i] == k;
        assert(keys[j] == k);
    }
}

/// Every kept record lies inside the clip polygon and comes from the input.
proof fn lemma_kept_records_membership(records: Seq<PipeRecord>, rings: Seq<Seq<Point>>)
    ensures
        forall|i: int|
            0 <= i < kept_records(records, rings).len() ==> polygon_contains(
                rings,
                (#[trigger] kept_records(records, rings)[i]).location,
            ),
        forall|i: int|
            0 <= i < kept_records(records, rings).len() ==> exists|j: int|
                0 <= j < records.len() && records[j] == #[trigger] kept_records(records, rings)[i],
    decreases records.len(),
{
    if records.len() > 0 {
        let head = records.drop_last();
        lemma_kept_records_membership(head, rings);
        let kept = kept_records(records, rings);
        let kept_head = kept_records(head, rings);
        assert forall|i: int| 0 <= i < kept.len() implies polygon_contains(
            rings,
            (#[trigger] kept[i]).location,
        ) && exists|j: int| 0 <= j < records.len() && records[j] == kept[i] by {
            if i < kept_head.len() {
                assert(kept[i] == kept_head[i]);
                let j = choose|j: int| 0 <= j < head.len() && head[j] == kept_head[i];
                assert(records[j] == kept[i]);
            } else {
                assert(kept[i] == records.last());
                assert(records[records.len() - 1] == kept[i]);
            }
        }
    }
}

/// No row of a clipped table lies wholly outside the polygon: every row's
/// cell is the cell of some input record whose point is inside the polygon,
/// and the cell of a point always covers that point.
pub proof fn lemma_clipped_rows_inside_polygon(
    rows: Seq<HexSummaryRow>,
    records: Seq<PipeRecord>,
    rings: Seq<Seq<Point>>,
    zoom: u8,
    i: int,
)
    requires
        table_matches(rows, record_keys(kept_records(records, rings), zoom), zoom),
        0 <= i < rows.len(),
    ensures
        exists|j: int|
            0 <= j < records.len() && polygon_contains(rings, (#[trigger] records[j]).location)
                && spec_cell_key(records[j].location, zoom) as u64 == rows[i].hex_id,
{
    let kept = kept_records(records, rings);
    let keys = record_keys(kept, zoom);
    lemma_row_count_at_least(rows, i);
    assert(key_occurrences(keys, rows[i].hex_id) > 0);
    lemma_occurrence_index(keys, rows[i].hex_id);
    let m = choose|m: int| 0 <= m < keys.len() && keys[m] == rows[i].hex_id;
    assert(keys[m] == spec_cell_key(kept[m].location, zoom) as u64);
    lemma_kept_records_membership(records, rings);
    assert(polygon_contains(rings, kept[m].location));
    let j = choose|j: int| 0 <= j < records.len() && records[j] == kept[m];
    assert(polygon_contains(rings, records[j].location) && spec_cell_key(
        records[j].location,
        zoom,
    ) as u64 == rows[i].hex_id);
}

/// The keys with every occurrence of `k0` removed, in order.
spec fn keys_without(keys: Seq<u64>, k0: u64) -> Seq<u64>
    decreases keys.len(),
{
    if keys.len() == 0 {
        Seq::empty()
    } else {
        let init = keys_without(keys.drop_last(), k0);
        if keys.last() == k0 {
            init
        } else {
            init.push(keys.last())
        }
    }
}

/// Removing every occurrence of `k0` zeroes its count and keeps all others.
proof fn lemma_keys_without_occurrences(keys: Seq<u64>, k0: u64)
    ensures
        key_occurrences(keys_without(keys, k0), k0) == 0,
        forall|k: u64|
            k != k0 ==> #[trigger] key_occurrences(keys_without(keys, k0), k) == key_occurrences(
                keys,
                k,
            ),
    decreases keys.len(),
{
    if keys.len() > 0 {
        lemma_keys_without_occurrences(keys.drop_last(), k0);
        let init = keys_without(keys.drop_last(), k0);
        if keys.last() == k0 {
        } else {
            assert(init.push(keys.last()).drop_last() =~= init);
            assert forall|k: u64|
                k != k0 implies #[trigger] key_occurrences(keys_without(keys, k0), k)
                == key_occurrences(keys, k) by {
                assert(key_occurrences(init.push(keys.last()), k) == key_occurrences(init, k) + if keys.last() == k {
                    1nat
                } else {
                    0nat
                });
            }
        }
    }
}

/// Row-for-row sameness of two tables: same length and, position by
/// position, the same cell key, the same count and the same boundary points.
pub open spec fn tables_alike(r1: Seq<HexSummaryRow>, r2: Seq<HexSummaryRow>) -> bool {
    &&& r1.len() == r2.len()
    &&& forall|i: int|
        0 <= i < r1.len() ==> {
            &&& (#[trigger] r1[i]).hex_id == r2[i].hex_id
            &&& r1[i].pipe_count == r2[i].pipe_count
            &&& r1[i].boundary@ == r2[i].boundary@
        }
}

/// The table of a key sequence is unique: any two row sequences that both
/// summarize the same keys at the same zoom agree row for row, in content
/// and in order.  Two runs over identical inputs therefore produce the same
/// table.
pub proof fn lemma_table_unique(
    r1: Seq<HexSummaryRow>,
    r2: Seq<HexSummaryRow>,
    keys: Seq<u64>,
    zoom: u8,
)
    requires
        table_matches(r1, keys, zoom),
        table_matches(r2, keys, zoom),
    ensures
        tables_alike(r1, r2),
    decreases r1.len(),
{
    if r1.len() == 0 {
        if r2.len() > 0 {
            lemma_row_count_at_least(r2, 0);
            assert(row_count(r1, r2[0].hex_id) == 0);
        }
    } else {
        lemma_row_count_at_least(r1, 0);
        if r2.len() == 0 {
            assert(row_count(r2, r1[0].hex_id) == 0);
        }
        let k1 = r1[0].hex_id;
        let k2 = r2[0].hex_id;
        assert(row_count(r2, k1) > 0);
        lemma_row_count_pos_key(r2, k1);
        let i2 = choose|i: int| 0 <= i < r2.len() && (#[trigger] r2[i]).hex_id == k1;
        assert(k1 >= k2);
        lemma_row_count_at_least(r2, 0);
        assert(row_count(r1, k2) > 0);
        lemma_row_count_pos_key(r1, k2);
        let i1 = choose|i: int| 0 <= i < r1.len() && (#[trigger] r1[i]).hex_id == k2;
        assert(k2 >= k1);
        lemma_sorted_row_count_head(r1);
        lemma_sorted_row_count_head(r2);
        assert(r1[0].pipe_count == r2[0].pipe_count);
        assert(r1[0].boundary@ == r2[0].boundary@);
        let rest = keys_without(keys, k1);
        lemma_keys_without_occurrences(keys, k1);
        assert forall|k: u64| #[trigger]
            row_count(r1.drop_first(), k) == key_occurrences(rest, k) by {
            if k == k1 {
                assert(row_count(r1, k1) == r1[0].pipe_count as nat + row_count(
                    r1.drop_first(),
                    k1,
                ));
            } else {
                assert(row_count(r1, k) == row_count(r1.drop_first(), k));
            }
        }
        assert forall|k: u64| #[trigger]
            row_count(r2.drop_first(), k) == key_occurrences(rest, k) by {
            if k == k1 {
                assert(row_count(r2, k1) == r2[0].pipe_count as nat + row_count(
                    r2.drop_first(),
                    k1,
                ));
            } else {
                assert(row_count(r2, k) == row_count(r2.drop_first(), k));
            }
        }
        assert(table_matches(r1.drop_first(), rest, zoom)) by {
            assert(forall|i: int|
                0 <= i < r1.drop_first().len() ==> #[trigger] r1.drop_first()[i] == r1[i + 1]);
        }
        assert(table_matches(r2.drop_first(), rest, zoom)) by {
            assert(forall|i: int|
                0 <= i < r2.drop_first().len() ==> #[trigger] r2.drop_first()[i] == r2[i + 1]);
        }
        lemma_table_unique(r1.drop_first(), r2.drop_first(), rest, zoom);
        assert forall|i: int| 0 <= i < r1.len() implies {
            &&& (#[trigger] r1[i]).hex_id == r2[i].hex_id
            &&& r1[i].pipe_count == r2[i].pipe_count
            &&& r1[i].boundary@ == r2[i].boundary@
        } by {
            if i > 0 {
                assert(r1.drop_first()[i - 1] == r1[i] && r2.drop_first()[i - 1] == r2[i]);
            }
        }
    }
}

} // verus!
