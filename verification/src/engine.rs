//! The nearest-point and nearest-way queries.
//!
//! For a query position, each way's node references are resolved to
//! coordinates, consecutive pairs are treated as great-circle
//! segments, the projection of the position onto each segment is
//! clamped to the segment, and the closest clamped point wins; ties go
//! to the earlier segment, and across ways to the earlier way.
//! Distances are integers (millimetres), so comparisons are total and
//! no incomparable value can arise.

use vstd::prelude::*;

use crate::geo::along_track_distance;
use crate::geo::bearing;
use crate::geo::destination;
use crate::geo::distance;
use crate::geo::spec_along_track;
use crate::geo::spec_bearing;
use crate::geo::spec_destination;
use crate::geo::spec_distance;
use crate::geo::Coord;
use crate::geo::MAX_DISTANCE_MM;
use crate::osm::lemma_find_node_valid;
use crate::osm::OsmDocument;
use crate::osm::OsmWay;

verus! {

/// Why a query produced no result.
#[derive(Clone, Copy, PartialEq, Eq, Structural, Debug)]
pub enum QueryError {
    /// A node reference of the way does not resolve in the document,
    /// or the way has no node references at all.
    MissingNodeReference,
    /// The document holds no ways.
    NoWays,
    /// No query position was supplied.
    NoPosition,
}

/// Every node reference of `way` resolves in `doc`.
pub open spec fn way_resolves(doc: OsmDocument, way: OsmWay) -> bool {
    forall|j: int|
        0 <= j < way.node_refs@.len() ==> (#[trigger] doc.spec_find_node(
            way.node_refs@[j],
        )) is Some
}

/// A way is usable when it has at least one node reference and all of
/// them resolve.
pub open spec fn way_ok(doc: OsmDocument, way: OsmWay) -> bool {
    way.node_refs@.len() > 0 && way_resolves(doc, way)
}

/// The way's node references resolved to coordinates, in order.
pub open spec fn spec_way_coords(doc: OsmDocument, way: OsmWay) -> Seq<Coord> {
    Seq::new(
        way.node_refs@.len(),
        |j: int| doc.spec_find_node(way.node_refs@[j]).unwrap().coord,
    )
}

/// The nearest point of the segment `c1 -> c2` to `p`: the along-track
/// projection clamped to the segment, with its distance to `p`.
pub open spec fn spec_segment_nearest(c1: Coord, c2: Coord, p: Coord) -> (int, Coord) {
    let len = spec_distance(c1, c2);
    let along = spec_along_track(c1, c2, p);
    if along < 0 {
        (spec_distance(p, c1), c1)
    } else if along > len {
        (spec_distance(p, c2), c2)
    } else {
        let q = spec_destination(c1, spec_bearing(c1, c2), along);
        (spec_distance(p, q), q)
    }
}

/// The best (smallest-distance, earliest) candidate among the first
/// `k` segments of the polyline `cs`; ties keep the earlier segment.
pub open spec fn spec_best_upto(cs: Seq<Coord>, p: Coord, k: int) -> (int, Coord)
    decreases k,
{
    if k <= 1 {
        spec_segment_nearest(cs[0], cs[1], p)
    } else {
        let prev = spec_best_upto(cs, p, k - 1);
        let cand = spec_segment_nearest(cs[k - 1], cs[k], p);
        if cand.0 < prev.0 {
            cand
        } else {
            prev
        }
    }
}

/// The nearest point of a usable way: point-to-point for a single
/// node, otherwise the best segment candidate.
pub open spec fn spec_way_nearest(doc: OsmDocument, way: OsmWay, p: Coord) -> (int, Coord) {
    let cs = spec_way_coords(doc, way);
    if cs.len() == 1 {
        (spec_distance(p, cs[0]), cs[0])
    } else {
        spec_best_upto(cs, p, cs.len() - 1)
    }
}

/// The full per-way query result.
pub open spec fn spec_way_result(doc: OsmDocument, way: OsmWay, p: Coord) -> Result<
    (int, Coord),
    QueryError,
> {
    if way_ok(doc, way) {
        Ok(spec_way_nearest(doc, way, p))
    } else {
        Err(QueryError::MissingNodeReference)
    }
}

/// The executable result agrees with the specified one.
pub open spec fn result_matches(
    e: Result<(i64, Coord), QueryError>,
    s: Result<(int, Coord), QueryError>,
) -> bool {
    match e {
        Ok(dq) => s matches Ok(v) && v.0 == dq.0 as int && v.1 == dq.1,
        Err(er) => s matches Err(e2) && e2 == er,
    }
}

/// A way with a single node has no segments: its nearest point is
/// that node and its distance is the plain point-to-point distance.
pub proof fn lemma_single_node_way(doc: OsmDocument, way: OsmWay, p: Coord)
    requires
        way.node_refs@.len() == 1,
        way_resolves(doc, way),
    ensures
        spec_way_nearest(doc, way, p).0 == spec_distance(
            p,
            doc.spec_find_node(way.node_refs@[0]).unwrap().coord,
        ),
        spec_way_nearest(doc, way, p).1 == doc.spec_find_node(way.node_refs@[0]).unwrap().coord,
{
}

fn segment_nearest(c1: &Coord, c2: &Coord, p: &Coord) -> (r: (i64, Coord))
    requires
        c1.valid(),
        c2.valid(),
        p.valid(),
    ensures
        r.0 as int == spec_segment_nearest(*c1, *c2, *p).0,
        r.1 == spec_segment_nearest(*c1, *c2, *p).1,
        0 <= r.0 <= MAX_DISTANCE_MM,
        r.1.valid(),
{
    let len = distance(c1, c2);
    let along = along_track_distance(c1, c2, p);
    if along < 0 {
        (distance(p, c1), *c1)
    } else if along > len {
        (distance(p, c2), *c2)
    } else {
        let brg = bearing(c1, c2);
        let q = destination(c1, brg, along);
        (distance(p, &q), q)
    }
}

impl OsmWay {
    /// The nearest point of this way to `pos`, with its distance in
    /// millimetres.  Fails with `MissingNodeReference` when a node id
    /// does not resolve, and also for a way without node references
    /// (the one unresolved case a well-formed document can still
    /// contain).
    pub fn nearest_point(&self, pos: &Coord, doc: &OsmDocument) -> (r: Result<
        (i64, Coord),
        QueryError,
    >)
        requires
            doc.wf(),
            pos.valid(),
        ensures
            result_matches(r, spec_way_result(*doc, *self, *pos)),
            r matches Ok(dq) ==> 0 <= dq.0 <= MAX_DISTANCE_MM && dq.1.valid(),
    {
        if self.node_refs.len() == 0 {
            return Err(QueryError::MissingNodeReference);
        }
        let mut cs: Vec<Coord> = Vec::new();
        let mut j: usize = 0;
        while j < self.node_refs.len()
            invariant
                j <= self.node_refs@.len(),
                cs@.len() == j,
                doc.wf(),
                forall|t: int|
                    0 <= t < j ==> (#[trigger] doc.spec_find_node(self.node_refs@[t])) is Some,
                forall|t: int|
                    0 <= t < j ==> cs@[t] == doc.spec_find_node(
                        self.node_refs@[t],
                    ).unwrap().coord,
                forall|t: int| 0 <= t < j ==> (#[trigger] cs@[t]).valid(),
            decreases self.node_refs@.len() - j,
        {
            match doc.find_node(self.node_refs[j]) {
                Some(n) => {
                    proof {
                        lemma_find_node_valid(*doc, self.node_refs@[j as int]);
                    }
                    cs.push(n.coord);
                },
                None => {
                    proof {
                        assert(!way_resolves(*doc, *self)) by {
                            assert(doc.spec_find_node(self.node_refs@[j as int]) is None);
                        }
                    }
                    return Err(QueryError::MissingNodeReference);
                },
            }
            j = j + 1;
        }
        proof {
            assert(cs@ =~= spec_way_coords(*doc, *self));
        }
        if cs.len() == 1 {
            let d = distance(pos, &cs[0]);
            return Ok((d, cs[0]));
        }
        let mut best = segment_nearest(&cs[0], &cs[1], pos);
        let mut i: usize = 1;
        while i < cs.len() - 1
            invariant
                cs@.len() >= 2,
                1 <= i <= cs@.len() - 1,
                pos.valid(),
                forall|t: int| 0 <= t < cs@.len() ==> (#[trigger] cs@[t]).valid(),
                best.0 as int == spec_best_upto(cs@, *pos, i as int).0,
                best.1 == spec_best_upto(cs@, *pos, i as int).1,
                0 <= best.0 <= MAX_DISTANCE_MM,
                best.1.valid(),
            decreases cs@.len() - 1 - i,
        {
            let cand = segment_nearest(&cs[i], &cs[i + 1], pos);
            if cand.0 < best.0 {
                best = cand;
            }
            i = i + 1;
        }
        Ok(best)
    }

    /// This way's distance to `pos` in millimetres: the distance of
    /// its nearest point.
    pub fn distance(&self, pos: &Coord, doc: &OsmDocument) -> (r: Result<i64, QueryError>)
        requires
            doc.wf(),
            pos.valid(),
        ensures
            r matches Ok(d) ==> spec_way_result(*doc, *self, *pos) matches Ok(v) && v.0 == d as int
                && 0 <= d <= MAX_DISTANCE_MM,
            r matches Err(e) ==> spec_way_result(*doc, *self, *pos) matches Err(e2) && e2 == e,
    {
        match self.nearest_point(pos, doc) {
            Ok(dq) => Ok(dq.0),
            Err(e) => Err(e),
        }
    }
}

/// One query result per way of the document, in way order: each way's
/// nearest point and distance, or its individual failure, so one bad
/// way does not lose the others' results.
pub fn nearest_points(doc: &OsmDocument, pos: &Coord) -> (r: Vec<
    Result<(i64, Coord), QueryError>,
>)
    requires
        doc.wf(),
        pos.valid(),
    ensures
        r@.len() == doc.ways@.len(),
        forall|i: int|
            0 <= i < r@.len() ==> result_matches(
                #[trigger] r@[i],
                spec_way_result(*doc, doc.ways@[i], *pos),
            ),
{
    let mut out: Vec<Result<(i64, Coord), QueryError>> = Vec::new();
    let mut w: usize = 0;
    while w < doc.ways.len()
        invariant
            w <= doc.ways@.len(),
            out@.len() == w,
            doc.wf(),
            pos.valid(),
            forall|i: int|
                0 <= i < w ==> result_matches(
                    #[trigger] out@[i],
                    spec_way_result(*doc, doc.ways@[i], *pos),
                ),
        decreases doc.ways@.len() - w,
    {
        let res = doc.ways[w].nearest_point(pos, doc);
        out.push(res);
        w = w + 1;
    }
    out
}

/// The way nearest to the query position: the index of the winning
/// way, its distance in millimetres, and the nearest point itself.
/// Ties in distance go to the earliest way.  Fails with `NoPosition`
/// when no position is supplied, `NoWays` when the document has no
/// ways, and `MissingNodeReference` when some way fails to resolve.
pub fn nearest_way(doc: &OsmDocument, pos: &Option<Coord>) -> (r: Result<
    (usize, i64, Coord),
    QueryError,
>)
    requires
        doc.wf(),
        pos matches Some(q) ==> q.valid(),
    ensures
        pos is None ==> r == Err::<(usize, i64, Coord), QueryError>(QueryError::NoPosition),
        pos is Some && doc.ways@.len() == 0 ==> r == Err::<(usize, i64, Coord), QueryError>(
            QueryError::NoWays,
        ),
        match *pos {
            None => true,
            Some(q) => {
                &&& ((exists|t: int| 0 <= t < doc.ways@.len() && !way_ok(*doc, doc.ways@[t]))
                    ==> r == Err::<(usize, i64, Coord), QueryError>(
                    QueryError::MissingNodeReference,
                ))
                &&& ((doc.ways@.len() > 0 && (forall|t: int|
                    0 <= t < doc.ways@.len() ==> way_ok(*doc, #[trigger] doc.ways@[t])))
                    ==> match r {
                    Ok(b) => {
                        &&& b.0 < doc.ways@.len()
                        &&& spec_way_nearest(*doc, doc.ways@[b.0 as int], q).0 == b.1 as int
                        &&& spec_way_nearest(*doc, doc.ways@[b.0 as int], q).1 == b.2
                        &&& forall|t: int|
                            0 <= t < doc.ways@.len() ==> spec_way_nearest(
                                *doc,
                                #[trigger] doc.ways@[t],
                                q,
                            ).0 >= b.1 as int
                        &&& forall|t: int|
                            0 <= t < b.0 ==> spec_way_nearest(
                                *doc,
                                #[trigger] doc.ways@[t],
                                q,
                            ).0 > b.1 as int
                    },
                    Err(_) => false,
                })
            },
        },
{
    let q = match pos {
        None => {
            return Err(QueryError::NoPosition);
        },
        Some(q) => *q,
    };
    let mut best: Option<(usize, i64, Coord)> = None;
    let mut w: usize = 0;
    while w < doc.ways.len()
        invariant
            w <= doc.ways@.len(),
            doc.wf(),
            q.valid(),
            *pos == Some(q),
            forall|t: int| 0 <= t < w ==> way_ok(*doc, #[trigger] doc.ways@[t]),
            best is None ==> w == 0,
            best matches Some(b) ==> b.0 < w && spec_way_nearest(*doc, doc.ways@[b.0 as int], q).0
                == b.1 as int && spec_way_nearest(*doc, doc.ways@[b.0 as int], q).1 == b.2 && (
            forall|t: int|
                0 <= t < w ==> spec_way_nearest(*doc, #[trigger] doc.ways@[t], q).0 >= b.1 as int)
                && (forall|t: int|
                0 <= t < b.0 ==> spec_way_nearest(*doc, #[trigger] doc.ways@[t], q).0
                    > b.1 as int),
        decreases doc.ways@.len() - w,
    {
        match doc.ways[w].nearest_point(&q, doc) {
            Err(e) => {
                proof {
                    assert(!way_ok(*doc, doc.ways@[w as int]));
                }
                return Err(e);
            },
            Ok(dq) => {
                match best {
                    None => {
                        best = Some((w, dq.0, dq.1));
                    },
                    Some(b) => {
                        if dq.0 < b.1 {
                            best = Some((w, dq.0, dq.1));
                        }
                    },
                }
            },
        }
        w = w + 1;
    }
    match best {
        None => Err(QueryError::NoWays),
        Some(b) => Ok(b),
    }
}

} // verus!
