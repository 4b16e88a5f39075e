//! Geographic primitives: points, bounding boxes, polygons, the coordinate
//! domain, envelopes and point-in-polygon tests.
//!
//! All coordinates are whole micro-degrees in `i64` (degrees times one
//! million).  Latitudes of real points lie in `[-90_000_000, 90_000_000]` and
//! longitudes in `[-180_000_000, 180_000_000]`; that range is the *domain* of
//! the grid and of the polygon tests, and values outside it are rejected by
//! the aggregation rather than silently mangled.

use vstd::prelude::*;

verus! {

/// Largest representable latitude, in micro-degrees.
pub const MAX_LAT_UDEG: i64 = 90_000_000;

/// Largest representable longitude, in micro-degrees.
pub const MAX_LON_UDEG: i64 = 180_000_000;

/// A geographic point in micro-degrees.
#[derive(Clone, Copy, Debug, PartialEq, Eq, Structural)]
pub struct Point {
    pub lat_udeg: i64,
    pub lon_udeg: i64,
}

/// An axis-aligned geographic rectangle, in micro-degrees.
///
/// Construction is total and performs no validation: an inverted box (a
/// minimum above the corresponding maximum) is representable, and the
/// operations downstream of it simply match nothing.
#[derive(Clone, Copy, Debug, PartialEq, Eq, Structural)]
pub struct BBox {
    pub min_lat_udeg: i64,
    pub min_lon_udeg: i64,
    pub max_lat_udeg: i64,
    pub max_lon_udeg: i64,
}

/// One closed ring of a polygon; the edge from the last point back to the
/// first is implicit.
#[derive(Clone, Debug)]
pub struct Ring {
    pub points: Vec<Point>,
}

/// A polygon or multi-polygon as a bag of closed rings.  Containment is by
/// the even-odd rule over all rings together, so rings that describe holes
/// need no marking.
#[derive(Clone, Debug)]
pub struct MultiPolygon {
    pub rings: Vec<Ring>,
}

impl View for Ring {
    type V = Seq<Point>;

    open spec fn view(&self) -> Seq<Point> {
        self.points@
    }
}

impl View for MultiPolygon {
    type V = Seq<Seq<Point>>;

    open spec fn view(&self) -> Seq<Seq<Point>> {
        self.rings@.map_values(|r: Ring| r@)
    }
}

/// Whether a point lies in the coordinate domain of the grid and of the
/// polygon tests.
pub open spec fn point_in_domain(p: Point) -> bool {
    &&& -MAX_LAT_UDEG <= p.lat_udeg <= MAX_LAT_UDEG
    &&& -MAX_LON_UDEG <= p.lon_udeg <= MAX_LON_UDEG
}

/// Whether every point of every ring lies in the coordinate domain.
pub open spec fn rings_in_domain(rings: Seq<Seq<Point>>) -> bool {
    forall|i: int, j: int|
        0 <= i < rings.len() && 0 <= j < rings[i].len() ==> point_in_domain(#[trigger] rings[i][j])
}

impl Point {
    /// Checks that the point lies in the coordinate domain.
    pub fn in_domain(&self) -> (r: bool)
        ensures
            r == point_in_domain(*self),
    {
        -MAX_LAT_UDEG <= self.lat_udeg && self.lat_udeg <= MAX_LAT_UDEG
            && -MAX_LON_UDEG <= self.lon_udeg && self.lon_udeg <= MAX_LON_UDEG
    }
}

/// Whether one edge of a ring, from `a` to `b`, crosses the horizontal ray
/// that runs from `p` towards increasing longitude.  The half-open latitude
/// test (`>` on both ends) counts an edge whose endpoint lies exactly on the
/// ray's latitude on one side only, so a vertex shared by two edges is never
/// counted twice.
pub open spec fn edge_crosses(a: Point, b: Point, p: Point) -> bool {
    &&& (a.lat_udeg > p.lat_udeg) != (b.lat_udeg > p.lat_udeg)
    &&& if b.lat_udeg - a.lat_udeg > 0 {
        (b.lon_udeg - a.lon_udeg) * (p.lat_udeg - a.lat_udeg) > (p.lon_udeg - a.lon_udeg) * (
        b.lat_udeg - a.lat_udeg)
    } else {
        (b.lon_udeg - a.lon_udeg) * (p.lat_udeg - a.lat_udeg) < (p.lon_udeg - a.lon_udeg) * (
        b.lat_udeg - a.lat_udeg)
    }
}

/// Parity of the number of edges among the first `j` edges of the ring that
/// cross the ray from `p`.  Edge `k` runs from point `k` to point
/// `(k + 1) % len`, so a ring of `n` points has `n` edges.
pub open spec fn ring_parity_upto(ring: Seq<Point>, p: Point, j: int) -> bool
    decreases j,
{
    if j <= 0 {
        false
    } else {
        ring_parity_upto(ring, p, j - 1) != edge_crosses(
            ring[j - 1],
            ring[(j) % (ring.len() as int)],
            p,
        )
    }
}

/// Parity of the crossings of the ray from `p` over the first `i` rings.
pub open spec fn rings_parity_upto(rings: Seq<Seq<Point>>, p: Point, i: int) -> bool
    decreases i,
{
    if i <= 0 {
        false
    } else {
        rings_parity_upto(rings, p, i - 1) != ring_parity_upto(
            rings[i - 1],
            p,
            rings[i - 1].len() as int,
        )
    }
}

/// Even-odd containment of a point in a multi-polygon: the point is inside
/// exactly when a ray from it crosses the union of all ring edges an odd
/// number of times.
pub open spec fn polygon_contains(rings: Seq<Seq<Point>>, p: Point) -> bool {
    rings_parity_upto(rings, p, rings.len() as int)
}

/// Bounds the product of two bounded factors; the grid's coordinate domain
/// keeps every cross-multiplication of the edge test inside `i64` through
/// this fact.
pub(crate) proof fn lemma_abs_mul_bound(x: int, y: int, bx: int, by: int)
    by (nonlinear_arith)
    requires
        -bx <= x <= bx,
        -by <= y <= by,
    ensures
        -(bx * by) <= x * y <= bx * by,
{
}

impl MultiPolygon {
    /// Checks that every point of every ring lies in the coordinate domain.
    pub fn in_domain(&self) -> (r: bool)
        ensures
            r == rings_in_domain(self@),
    {
        let mut i: usize = 0;
        while i < self.rings.len()
            invariant
                i <= self.rings@.len(),
                self@.len() == self.rings@.len(),
                forall|a: int, b: int|
                    0 <= a < i && 0 <= b < self@[a].len() ==> point_in_domain(#[trigger] self@[a][b]),
            decreases self.rings@.len() - i,
        {
            let ring = &self.rings[i];
            let mut j: usize = 0;
            while j < ring.points.len()
                invariant
                    i < self.rings@.len(),
                    self@.len() == self.rings@.len(),
                    j <= ring@.len(),
                    ring@ == self@[i as int],
                    forall|b: int| 0 <= b < j ==> point_in_domain(#[trigger] ring@[b]),
                decreases ring@.len() - j,
            {
                if !ring.points[j].in_domain() {
                    assert(!point_in_domain(self@[i as int][j as int]));
                    assert(!rings_in_domain(self@));
                    return false;
                }
                j += 1;
            }
            assert(forall|b: int|
                0 <= b < self@[i as int].len() ==> point_in_domain(#[trigger] self@[i as int][b]));
            i += 1;
        }
        true
    }

    /// Even-odd containment test of a point in this multi-polygon.
    ///
    /// The domain bounds keep every cross-multiplication in the edge test
    /// within `i64`.
    pub fn contains_point(&self, p: Point) -> (r: bool)
        requires
            point_in_domain(p),
            rings_in_domain(self@),
        ensures
            r == polygon_contains(self@, p),
    {
        let mut inside: bool = false;
        let mut i: usize = 0;
        while i < self.rings.len()
            invariant
                i <= self.rings@.len(),
                self@.len() == self.rings@.len(),
                point_in_domain(p),
                rings_in_domain(self@),
                inside == rings_parity_upto(self@, p, i as int),
            decreases self.rings@.len() - i,
        {
            let ring = &self.rings[i];
            let n = ring.points.len();
            let mut hit: bool = false;
            let mut j: usize = 0;
            while j < n
                invariant
                    i < self.rings@.len(),
                    self@.len() == self.rings@.len(),
                    j <= n,
                    n == ring@.len(),
                    ring@ == self@[i as int],
                    point_in_domain(p),
                    rings_in_domain(self@),
                    hit == ring_parity_upto(ring@, p, j as int),
                decreases n - j,
            {
                let a = ring.points[j];
                let b = ring.points[if j + 1 == n {
                    0
                } else {
                    j + 1
                }];
                assert(a == self@[i as int][j as int]);
                assert(point_in_domain(a) && point_in_domain(b));
                proof {
                    if j + 1 == n {
                        assert((j + 1) as int % (n as int) == 0) by (nonlinear_arith)
                            requires
                                0 < n == j + 1,
                        ;
                    } else {
                        assert((j + 1) as int % (n as int) == j + 1) by (nonlinear_arith)
                            requires
                                0 <= j,
                                j + 1 < n,
                        ;
                    }
                }
                assert(ring@[(j + 1) as int % (ring@.len() as int)] == b);
                if (a.lat_udeg > p.lat_udeg) != (b.lat_udeg > p.lat_udeg) {
                    let dlon1: i64 = b.lon_udeg - a.lon_udeg;
                    let dlat1: i64 = p.lat_udeg - a.lat_udeg;
                    let dlon2: i64 = p.lon_udeg - a.lon_udeg;
                    let dlat2: i64 = b.lat_udeg - a.lat_udeg;
                    proof {
                        lemma_abs_mul_bound(dlon1 as int, dlat1 as int, 360_000_000, 180_000_000);
                        lemma_abs_mul_bound(dlon2 as int, dlat2 as int, 360_000_000, 180_000_000);
                    }
                    let lhs = dlon1 * dlat1;
                    let rhs = dlon2 * dlat2;
                    let crossed = if dlat2 > 0 {
                        lhs > rhs
                    } else {
                        lhs < rhs
                    };
                    hit = hit != crossed;
                } else {
                    assert(!edge_crosses(a, b, p));
                }
                j += 1;
            }
            inside = inside != hit;
            i += 1;
        }
        inside
    }
}

/// Whether any ring of the multi-polygon has at least one point.
pub open spec fn has_any_point(rings: Seq<Seq<Point>>) -> bool {
    exists|a: int| 0 <= a < rings.len() && #[trigger] rings[a].len() > 0
}

/// Whether `bb` contains every point of every ring.
pub open spec fn envelope_bounds(rings: Seq<Seq<Point>>, bb: BBox) -> bool {
    forall|a: int, b: int|
        0 <= a < rings.len() && 0 <= b < rings[a].len() ==> {
            &&& bb.min_lat_udeg <= (#[trigger] rings[a][b]).lat_udeg <= bb.max_lat_udeg
            &&& bb.min_lon_udeg <= rings[a][b].lon_udeg <= bb.max_lon_udeg
        }
}

/// Whether each of the four bounds of `bb` is attained by some point of some
/// ring, which makes `bb` the tightest box around the rings.
pub open spec fn envelope_attained(rings: Seq<Seq<Point>>, bb: BBox) -> bool {
    &&& exists|a: int, b: int|
        0 <= a < rings.len() && 0 <= b < rings[a].len() && (#[trigger] rings[a][b]).lat_udeg
            == bb.min_lat_udeg
    &&& exists|a: int, b: int|
        0 <= a < rings.len() && 0 <= b < rings[a].len() && (#[trigger] rings[a][b]).lat_udeg
            == bb.max_lat_udeg
    &&& exists|a: int, b: int|
        0 <= a < rings.len() && 0 <= b < rings[a].len() && (#[trigger] rings[a][b]).lon_udeg
            == bb.min_lon_udeg
    &&& exists|a: int, b: int|
        0 <= a < rings.len() && 0 <= b < rings[a].len() && (#[trigger] rings[a][b]).lon_udeg
            == bb.max_lon_udeg
}

/// Whether the point at `(a, b)` exists and comes before the cursor
/// `(i, j)` in the ring-by-ring walk of the envelope loop.
spec fn seen_before(rings: Seq<Seq<Point>>, i: int, j: int, a: int, b: int) -> bool {
    &&& 0 <= a < rings.len()
    &&& 0 <= b < rings[a].len()
    &&& a < i || (a == i && b < j)
}

impl MultiPolygon {
    /// The bounding envelope of the multi-polygon: the tightest axis-aligned
    /// box around all points of all rings, or `None` when the geometry has no
    /// points at all (a degenerate geometry).
    ///
    /// The latitude bounds come from the points' latitudes and the longitude
    /// bounds from their longitudes; a geometry library that stores planar
    /// `(x, y)` pairs maps `x` to longitude and `y` to latitude, and that
    /// mapping is fixed here once, in one place.
    pub fn envelope(&self) -> (r: Option<BBox>)
        ensures
            r is Some <==> has_any_point(self@),
            r matches Some(bb) ==> envelope_bounds(self@, bb) && envelope_attained(self@, bb),
    {
        let mut found: bool = false;
        let mut lo_lat: i64 = 0;
        let mut hi_lat: i64 = 0;
        let mut lo_lon: i64 = 0;
        let mut hi_lon: i64 = 0;
        let mut i: usize = 0;
        while i < self.rings.len()
            invariant
                i <= self.rings@.len(),
                self@.len() == self.rings@.len(),
                found <==> exists|a: int, b: int| seen_before(self@, i as int, 0, a, b),
                found ==> forall|a: int, b: int|
                    seen_before(self@, i as int, 0, a, b) ==> {
                        &&& lo_lat <= (#[trigger] self@[a][b]).lat_udeg <= hi_lat
                        &&& lo_lon <= self@[a][b].lon_udeg <= hi_lon
                    },
                found ==> exists|a: int, b: int|
                    seen_before(self@, i as int, 0, a, b) && (#[trigger] self@[a][b]).lat_udeg
                        == lo_lat,
                found ==> exists|a: int, b: int|
                    seen_before(self@, i as int, 0, a, b) && (#[trigger] self@[a][b]).lat_udeg
                        == hi_lat,
                found ==> exists|a: int, b: int|
                    seen_before(self@, i as int, 0, a, b) && (#[trigger] self@[a][b]).lon_udeg
                        == lo_lon,
                found ==> exists|a: int, b: int|
                    seen_before(self@, i as int, 0, a, b) && (#[trigger] self@[a][b]).lon_udeg
                        == hi_lon,
            decreases self.rings@.len() - i,
        {
            let ring = &self.rings[i];
            let mut j: usize = 0;
            while j < ring.points.len()
                invariant
                    i < self.rings@.len(),
                    self@.len() == self.rings@.len(),
                    j <= ring@.len(),
                    ring@ == self@[i as int],
                    found <==> exists|a: int, b: int| seen_before(self@, i as int, j as int, a, b),
                    found ==> forall|a: int, b: int|
                        seen_before(self@, i as int, j as int, a, b) ==> {
                            &&& lo_lat <= (#[trigger] self@[a][b]).lat_udeg <= hi_lat
                            &&& lo_lon <= self@[a][b].lon_udeg <= hi_lon
                        },
                    found ==> exists|a: int, b: int|
                        seen_before(self@, i as int, j as int, a, b) && (
                        #[trigger] self@[a][b]).lat_udeg == lo_lat,
                    found ==> exists|a: int, b: int|
                        seen_before(self@, i as int, j as int, a, b) && (
                        #[trigger] self@[a][b]).lat_udeg == hi_lat,
                    found ==> exists|a: int, b: int|
                        seen_before(self@, i as int, j as int, a, b) && (
                        #[trigger] self@[a][b]).lon_udeg == lo_lon,
                    found ==> exists|a: int, b: int|
                        seen_before(self@, i as int, j as int, a, b) && (
                        #[trigger] self@[a][b]).lon_udeg == hi_lon,
                decreases ring@.len() - j,
            {
                let p = ring.points[j];
                assert(p == self@[i as int][j as int]);
                let new_lo_lat = if !found || p.lat_udeg < lo_lat {
                    p.lat_udeg
                } else {
                    lo_lat
                };
                let new_hi_lat = if !found || p.lat_udeg > hi_lat {
                    p.lat_udeg
                } else {
                    hi_lat
                };
                let new_lo_lon = if !found || p.lon_udeg < lo_lon {
                    p.lon_udeg
                } else {
                    lo_lon
                };
                let new_hi_lon = if !found || p.lon_udeg > hi_lon {
                    p.lon_udeg
                } else {
                    hi_lon
                };
                proof {
                    assert(seen_before(self@, i as int, j + 1, i as int, j as int));
                    assert forall|a: int, b: int|
                        seen_before(self@, i as int, j + 1, a, b) implies {
                        &&& new_lo_lat <= (#[trigger] self@[a][b]).lat_udeg <= new_hi_lat
                        &&& new_lo_lon <= self@[a][b].lon_udeg <= new_hi_lon
                    } by {
                        if a == i as int && b == j as int {
                            assert(self@[a][b] == p);
                        } else {
                            assert(seen_before(self@, i as int, j as int, a, b));
                            assert(found);
                        }
                    }
                    if found {
                        if new_lo_lat != p.lat_udeg {
                            let (a1, b1) = choose|a: int, b: int|
                                seen_before(self@, i as int, j as int, a, b) && (
                                #[trigger] self@[a][b]).lat_udeg == lo_lat;
                            assert(seen_before(self@, i as int, j + 1, a1, b1));
                        }
                        if new_hi_lat != p.lat_udeg {
                            let (a1, b1) = choose|a: int, b: int|
                                seen_before(self@, i as int, j as int, a, b) && (
                                #[trigger] self@[a][b]).lat_udeg == hi_lat;
                            assert(seen_before(self@, i as int, j + 1, a1, b1));
                        }
                        if new_lo_lon != p.lon_udeg {
                            let (a1, b1) = choose|a: int, b: int|
                                seen_before(self@, i as int, j as int, a, b) && (
                                #[trigger] self@[a][b]).lon_udeg == lo_lon;
                            assert(seen_before(self@, i as int, j + 1, a1, b1));
                        }
                        if new_hi_lon != p.lon_udeg {
                            let (a1, b1) = choose|a: int, b: int|
                                seen_before(self@, i as int, j as int, a, b) && (
                                #[trigger] self@[a][b]).lon_udeg == hi_lon;
                            assert(seen_before(self@, i as int, j + 1, a1, b1));
                        }
                    }
                }
                found = true;
                lo_lat = new_lo_lat;
                hi_lat = new_hi_lat;
                lo_lon = new_lo_lon;
                hi_lon = new_hi_lon;
                j += 1;
            }
            proof {
                assert forall|a: int, b: int|
                    seen_before(self@, i + 1, 0, a, b) implies seen_before(
                    self@,
                    i as int,
                    ring@.len() as int,
                    a,
                    b,
                ) by {}
                if !found {
                    assert forall|a: int, b: int| !#[trigger] seen_before(self@, i + 1, 0, a, b) by {
                        if seen_before(self@, i + 1, 0, a, b) {
                            assert(seen_before(self@, i as int, ring@.len() as int, a, b));
                            assert(exists|x: int, y: int|
                                seen_before(self@, i as int, ring@.len() as int, x, y));
                        }
                    }
                    assert(!(exists|a: int, b: int| #[trigger] seen_before(self@, i + 1, 0, a, b)));
                } else {
                    let (a1, b1) = choose|a: int, b: int|
                        seen_before(self@, i as int, ring@.len() as int, a, b);
                    assert(seen_before(self@, i + 1, 0, a1, b1));
                    assert(exists|a: int, b: int| #[trigger] seen_before(self@, i + 1, 0, a, b));
                    let (a2, b2) = choose|a: int, b: int|
                        seen_before(self@, i as int, ring@.len() as int, a, b) && (
                        #[trigger] self@[a][b]).lat_udeg == lo_lat;
                    assert(seen_before(self@, i + 1, 0, a2, b2));
                    let (a3, b3) = choose|a: int, b: int|
                        seen_before(self@, i as int, ring@.len() as int, a, b) && (
                        #[trigger] self@[a][b]).lat_udeg == hi_lat;
                    assert(seen_before(self@, i + 1, 0, a3, b3));
                    let (a4, b4) = choose|a: int, b: int|
                        seen_before(self@, i as int, ring@.len() as int, a, b) && (
                        #[trigger] self@[a][b]).lon_udeg == lo_lon;
                    assert(seen_before(self@, i + 1, 0, a4, b4));
                    let (a5, b5) = choose|a: int, b: int|
                        seen_before(self@, i as int, ring@.len() as int, a, b) && (
                        #[trigger] self@[a][b]).lon_udeg == hi_lon;
                    assert(seen_before(self@, i + 1, 0, a5, b5));
                }
            }
            i += 1;
        }
        if found {
            let bb = BBox {
                min_lat_udeg: lo_lat,
                min_lon_udeg: lo_lon,
                max_lat_udeg: hi_lat,
                max_lon_udeg: hi_lon,
            };
            proof {
                let (a, b) = choose|a: int, b: int|
                    seen_before(self@, self@.len() as int, 0, a, b);
                assert(0 <= a < self@.len() && self@[a].len() > 0);
            }
            Some(bb)
        } else {
            proof {
                if has_any_point(self@) {
                    let a = choose|a: int| 0 <= a < self@.len() && #[trigger] self@[a].len() > 0;
                    assert(seen_before(self@, self@.len() as int, 0, a, 0));
                }
            }
            None
        }
    }
}

impl BBox {
    /// Builds a box from its four bounds.  Total: no ordering of the bounds
    /// is enforced here, by design; the fetch and the grid behave sanely (they
    /// match nothing) on an inverted box.
    pub fn new(min_lat_udeg: i64, min_lon_udeg: i64, max_lat_udeg: i64, max_lon_udeg: i64) -> (b:
        BBox)
        ensures
            b == (BBox { min_lat_udeg, min_lon_udeg, max_lat_udeg, max_lon_udeg }),
    {
        BBox { min_lat_udeg, min_lon_udeg, max_lat_udeg, max_lon_udeg }
    }
}

} // verus!
