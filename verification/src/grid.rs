//! The hexagonal tiling.
//!
//! The grid is a fixed tiling of the coordinate domain by pointy-top
//! hexagons, laid out in staggered rows.  All arithmetic is exact fixed-point
//! work on micro-degrees, so a point's cell is a pure function of its
//! coordinates and the zoom level, the same on every machine.
//!
//! Geometry of one cell, in terms of the quarter-height `h` of the zoom
//! level (`h` halves with each zoom step):
//!   - rows are `3*h` apart; a cell spans `4*h` vertically (a rectangular
//!     body of height `2*h` plus a cap of height `h` at each end);
//!   - columns are `4*h` apart, and odd rows are shifted right by `2*h`;
//!   - between two rows the caps interlock in a zigzag, and a point in the
//!     zigzag band belongs to the upper row exactly when it lies strictly
//!     above the cap edges of the lower row's cell.
//!
//! A cell is named by `(row, col)` and encoded into one `u64` key whose
//! unsigned order is the row-major order of `(row, col)`; tables are sorted
//! by that key.

use vstd::prelude::*;

use crate::geom::MAX_LAT_UDEG;
use crate::geom::MAX_LON_UDEG;
use crate::geom::Point;
use crate::geom::point_in_domain;

verus! {

/// Largest zoom level the grid accepts.
pub const MAX_ZOOM: u8 = 15;

/// Quarter-height of a hexagon cell at the given zoom, in micro-degrees:
/// `2^(25 - zoom)`, from about 33.5 degrees at zoom 0 down to about 0.001
/// degrees at the deepest zoom.
pub open spec fn cell_quarter(zoom: u8) -> u64 {
    1u64 << ((25 - zoom) as u64)
}

/// The cell holding a point: `(row, col)` of the hexagon, as the tiling
/// rules above place it.  Pure integer arithmetic; total on the coordinate
/// domain.
pub open spec fn spec_cell_of(p: Point, zoom: u8) -> (int, int) {
    let h = cell_quarter(zoom) as int;
    let y = p.lat_udeg + MAX_LAT_UDEG;
    let xx = p.lon_udeg + MAX_LON_UDEG + 4 * h;
    let b = y / (3 * h);
    let yr = y % (3 * h);
    let off: int = if b % 2 == 1 {
        2 * h
    } else {
        0
    };
    let q0 = (xx - off) / (4 * h);
    let u = (xx - off) % (4 * h);
    if yr < 2 * h {
        (b, q0)
    } else {
        let v = yr - 2 * h;
        if u <= 2 * h {
            if 2 * v > u {
                (b + 1, if b % 2 == 1 {
                    q0
                } else {
                    q0 - 1
                })
            } else {
                (b, q0)
            }
        } else {
            if 2 * v > 4 * h - u {
                (b + 1, if b % 2 == 1 {
                    q0 + 1
                } else {
                    q0
                })
            } else {
                (b, q0)
            }
        }
    }
}

/// The `u64` key of the cell at `(row, col)`: row-major, and monotone in
/// `(row, col)` so that sorting by key sorts by row and then by column.
pub open spec fn spec_encode_cell(row: int, col: int) -> int {
    row * 0x1_0000_0000 + (col + 1)
}

/// The key of the cell holding a point.
pub open spec fn spec_cell_key(p: Point, zoom: u8) -> int {
    spec_encode_cell(spec_cell_of(p, zoom).0, spec_cell_of(p, zoom).1)
}

/// Row of an encoded cell key.
pub open spec fn spec_decode_row(key: u64) -> int {
    key as int / 0x1_0000_0000
}

/// Column of an encoded cell key.
pub open spec fn spec_decode_col(key: u64) -> int {
    key as int % 0x1_0000_0000 - 1
}

/// Cell rows and columns of in-domain points stay far inside the encoding's
/// 32-bit fields.
pub open spec fn cell_in_range(row: int, col: int) -> bool {
    &&& 0 <= row <= 61_000
    &&& -1 <= col <= 141_000
}

/// The cell holding an in-domain point.
pub fn locate_cell(p: Point, zoom: u8) -> (c: (i64, i64))
    requires
        point_in_domain(p),
        zoom <= MAX_ZOOM,
    ensures
        c.0 as int == spec_cell_of(p, zoom).0,
        c.1 as int == spec_cell_of(p, zoom).1,
        cell_in_range(c.0 as int, c.1 as int),
{
    let sh: u64 = 25 - (zoom as u64);
    let h: u64 = 1u64 << sh;
    proof {
        assert(1024 <= (1u64 << sh) <= 0x2000000) by (bit_vector)
            requires
                10 <= sh <= 25,
        ;
        assert(h == cell_quarter(zoom));
    }
    let y: u64 = (p.lat_udeg + MAX_LAT_UDEG) as u64;
    let xx: u64 = (p.lon_udeg + MAX_LON_UDEG) as u64 + 4 * h;
    let t: u64 = 3 * h;
    let b: u64 = y / t;
    let yr: u64 = y % t;
    proof {
        assert(b * t + yr == y && yr < t) by (nonlinear_arith)
            requires
                t > 0,
                b == y / t,
                yr == y % t,
        ;
        assert(b <= 60_000) by (nonlinear_arith)
            requires
                b * t <= y,
                y <= 180_000_000,
                t >= 3072,
        ;
    }
    let off: u64 = if b % 2 == 1 {
        2 * h
    } else {
        0
    };
    let w: u64 = 4 * h;
    let q0: u64 = (xx - off) / w;
    let u: u64 = (xx - off) % w;
    proof {
        assert(q0 * w + u == xx - off && u < w) by (nonlinear_arith)
            requires
                w > 0,
                q0 as int == (xx as int - off as int) / (w as int),
                u as int == (xx as int - off as int) % (w as int),
                off <= xx,
        ;
        assert(q0 <= 140_000) by (nonlinear_arith)
            requires
                q0 * w <= xx - off,
                xx - off <= 500_000_000,
                w >= 4096,
        ;
    }
    let row: i64;
    let col: i64;
    if yr < 2 * h {
        row = b as i64;
        col = q0 as i64;
    } else {
        let v: u64 = yr - 2 * h;
        if u <= 2 * h {
            if 2 * v > u {
                row = (b + 1) as i64;
                col = if b % 2 == 1 {
                    q0 as i64
                } else {
                    q0 as i64 - 1
                };
            } else {
                row = b as i64;
                col = q0 as i64;
            }
        } else {
            if 2 * v > w - u {
                row = (b + 1) as i64;
                col = if b % 2 == 1 {
                    q0 as i64 + 1
                } else {
                    q0 as i64
                };
            } else {
                row = b as i64;
                col = q0 as i64;
            }
        }
    }
    (row, col)
}

/// The encoded key of the cell at `(row, col)`.
pub fn encode_cell(row: i64, col: i64) -> (key: u64)
    requires
        cell_in_range(row as int, col as int),
    ensures
        key as int == spec_encode_cell(row as int, col as int),
{
    (row as u64) * 0x1_0000_0000 + ((col + 1) as u64)
}

/// Row and column of an encoded cell key.
pub fn decode_cell(key: u64) -> (c: (i64, i64))
    ensures
        c.0 as int == spec_decode_row(key),
        c.1 as int == spec_decode_col(key),
        0 <= c.0 < 0x1_0000_0000,
        -1 <= c.1 < 0x1_0000_0000,
{
    let row = key / 0x1_0000_0000;
    let col = key % 0x1_0000_0000;
    proof {
        assert(key / 0x1_0000_0000 < 0x1_0000_0000 && key % 0x1_0000_0000 < 0x1_0000_0000)
            by (nonlinear_arith)
            requires
                key <= 0xffff_ffff_ffff_ffffu64,
        ;
    }
    (row as i64, col as i64 - 1)
}

/// The six corner points of an encoded cell, for rendering: west-bottom,
/// south vertex, east-bottom, east-top, north vertex, west-top, in that
/// order.
pub open spec fn spec_cell_boundary(key: u64, zoom: u8) -> Seq<Point> {
    let h = cell_quarter(zoom) as int;
    let r = spec_decode_row(key);
    let q = spec_decode_col(key);
    let off: int = if r % 2 == 1 {
        2 * h
    } else {
        0
    };
    let xw = off + q * (4 * h) - 4 * h - MAX_LON_UDEG;
    let y0 = (3 * h) * r - MAX_LAT_UDEG;
    seq![
        Point { lat_udeg: y0 as i64, lon_udeg: xw as i64 },
        Point { lat_udeg: (y0 - h) as i64, lon_udeg: (xw + 2 * h) as i64 },
        Point { lat_udeg: y0 as i64, lon_udeg: (xw + 4 * h) as i64 },
        Point { lat_udeg: (y0 + 2 * h) as i64, lon_udeg: (xw + 4 * h) as i64 },
        Point { lat_udeg: (y0 + 3 * h) as i64, lon_udeg: (xw + 2 * h) as i64 },
        Point { lat_udeg: (y0 + 2 * h) as i64, lon_udeg: xw as i64 },
    ]
}

/// Builds the boundary of an encoded cell.  Total over all keys: a key that
/// no in-domain point produces still names a (far-away) cell of the same
/// lattice.
pub fn cell_boundary(key: u64, zoom: u8) -> (b: Vec<Point>)
    requires
        zoom <= MAX_ZOOM,
    ensures
        b@ == spec_cell_boundary(key, zoom),
{
    let sh: u64 = 25 - (zoom as u64);
    let h64: u64 = 1u64 << sh;
    proof {
        assert(1024 <= (1u64 << sh) <= 0x2000000) by (bit_vector)
            requires
                10 <= sh <= 25,
        ;
        assert(h64 == cell_quarter(zoom));
    }
    let (r, q) = decode_cell(key);
    let h: i64 = h64 as i64;
    proof {
        crate::geom::lemma_abs_mul_bound(q as int, 4 * h as int, 0x1_0000_0000, 0x8000000);
        crate::geom::lemma_abs_mul_bound(3 * h as int, r as int, 0x6000000, 0x1_0000_0000);
    }
    let off: i64 = if r % 2 == 1 {
        2 * h
    } else {
        0
    };
    let xw: i64 = off + q * (4 * h) - 4 * h - MAX_LON_UDEG;
    let y0: i64 = (3 * h) * r - MAX_LAT_UDEG;
    let y_south: i64 = y0 - h;
    let y_top: i64 = y0 + 2 * h;
    let y_north: i64 = y0 + 3 * h;
    let x_mid: i64 = xw + 2 * h;
    let x_east: i64 = xw + 4 * h;
    let out: Vec<Point> = vec![
        Point { lat_udeg: y0, lon_udeg: xw },
        Point { lat_udeg: y_south, lon_udeg: x_mid },
        Point { lat_udeg: y0, lon_udeg: x_east },
        Point { lat_udeg: y_top, lon_udeg: x_east },
        Point { lat_udeg: y_north, lon_udeg: x_mid },
        Point { lat_udeg: y_top, lon_udeg: xw },
    ];
    proof {
        assert(out@ =~= spec_cell_boundary(key, zoom));
    }
    out
}

/// Key order is row-major cell order: sorting rows by key sorts them by
/// grid row and, within a row, by column.
pub proof fn lemma_encode_cell_monotone(r1: int, c1: int, r2: int, c2: int)
    requires
        cell_in_range(r1, c1),
        cell_in_range(r2, c2),
    ensures
        spec_encode_cell(r1, c1) < spec_encode_cell(r2, c2) <==> (r1 < r2 || (r1 == r2 && c1
            < c2)),
{
}

/// Encoding then decoding a cell in range gives the cell back, so the key
/// names the cell faithfully.
pub proof fn lemma_cell_key_roundtrip(row: int, col: int)
    requires
        cell_in_range(row, col),
    ensures
        spec_decode_row(spec_encode_cell(row, col) as u64) == row,
        spec_decode_col(spec_encode_cell(row, col) as u64) == col,
{
    let k = spec_encode_cell(row, col);
    assert(0 <= k < 0x8000_0000_0000_0000);
    assert(k as u64 == k);
    assert(k / 0x1_0000_0000 == row && k % 0x1_0000_0000 == col + 1) by (nonlinear_arith)
        requires
            k == row * 0x1_0000_0000 + (col + 1),
            0 <= col + 1 < 0x1_0000_0000,
            0 <= row,
    ;
}

/// Keys of in-domain points fit `u64` (indeed `i64`), so the encoding never
/// truncates.
pub proof fn lemma_cell_key_fits(row: int, col: int)
    requires
        cell_in_range(row, col),
    ensures
        0 <= spec_encode_cell(row, col) < 0x8000_0000_0000_0000,
{
}

/// The cell of an in-domain point is in range.
pub proof fn lemma_located_cell_in_range(p: Point, zoom: u8)
    requires
        point_in_domain(p),
        zoom <= MAX_ZOOM,
    ensures
        cell_in_range(spec_cell_of(p, zoom).0, spec_cell_of(p, zoom).1),
{
    let h = cell_quarter(zoom) as int;
    assert(1024 <= cell_quarter(zoom) <= 0x2000000) by (bit_vector)
        requires
            zoom <= 15,
    ;
    let y = p.lat_udeg + MAX_LAT_UDEG;
    let t = 3 * h;
    let b = y / t;
    assert(0 <= b && b * t <= y) by (nonlinear_arith)
        requires
            t > 0,
            0 <= y,
            b == y / t,
    ;
    assert(b <= 60_000) by (nonlinear_arith)
        requires
            0 <= b,
            b * t <= y,
            y <= 180_000_000,
            t >= 3072,
    ;
    let xx = p.lon_udeg + MAX_LON_UDEG + 4 * h;
    let off: int = if b % 2 == 1 {
        2 * h
    } else {
        0
    };
    let w = 4 * h;
    let q0 = (xx - off) / w;
    assert(0 <= q0 && q0 * w <= xx - off) by (nonlinear_arith)
        requires
            w > 0,
            0 <= xx - off,
            q0 == (xx - off) / w,
    ;
    assert(q0 <= 140_000) by (nonlinear_arith)
        requires
            0 <= q0,
            q0 * w <= xx - off,
            xx - off <= 500_000_000,
            w >= 4096,
    ;
}

} // verus!
