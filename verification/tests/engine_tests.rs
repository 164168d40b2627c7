//! Tests for the document model and the nearest-point queries.

use osm_nearest::engine::nearest_points;
use osm_nearest::engine::nearest_way;
use osm_nearest::engine::QueryError;
use osm_nearest::geo::distance;
use osm_nearest::geo::Coord;
use osm_nearest::osm::OsmDocument;
use osm_nearest::osm::OsmNode;
use osm_nearest::osm::OsmTag;
use osm_nearest::osm::OsmWay;

const N1: Coord = Coord { lat: 633998100, lon: 102907200 };
const N2: Coord = Coord { lat: 634026500, lon: 102942600 };
const Q: Coord = Coord { lat: 634015000, lon: 102935000 };

fn node(id: i64, coord: Coord) -> OsmNode {
    OsmNode { id, coord }
}

fn way(id: i64, refs: &[i64]) -> OsmWay {
    OsmWay {
        id,
        node_refs: refs.to_vec(),
        tags: vec![OsmTag { k: "highway".to_string(), v: "path".to_string() }],
    }
}

fn two_node_doc() -> OsmDocument {
    OsmDocument { nodes: vec![node(1, N1), node(2, N2)], ways: vec![way(10, &[1, 2])] }
}

#[test]
fn find_node_resolves_ids() {
    let doc = two_node_doc();
    assert_eq!(doc.find_node(1).unwrap().coord, N1);
    assert_eq!(doc.find_node(2).unwrap().coord, N2);
    assert!(doc.find_node(3).is_none());
}

#[test]
fn new_document_is_empty() {
    let doc = OsmDocument::new();
    assert!(doc.nodes.is_empty());
    assert!(doc.ways.is_empty());
}

#[test]
fn projected_point_beats_both_endpoints() {
    // The query position projects strictly between the way's two
    // nodes, closer than either endpoint.
    let doc = two_node_doc();
    let (d, p) = doc.ways[0].nearest_point(&Q, &doc).unwrap();
    assert!(d < distance(&Q, &N1), "{d}");
    assert!(d < distance(&Q, &N2), "{d}");
    assert!(N1.lat < p.lat && p.lat < N2.lat, "{p:?}");
    assert!(N1.lon < p.lon && p.lon < N2.lon, "{p:?}");
    assert_eq!(d, distance(&Q, &p));
    assert_eq!(d, 29280);
}

#[test]
fn way_distance_not_above_any_node_distance() {
    let doc = two_node_doc();
    let d = doc.ways[0].distance(&Q, &doc).unwrap();
    let min_node = distance(&Q, &N1).min(distance(&Q, &N2));
    assert!(d <= min_node, "{d} vs {min_node}");
}

#[test]
fn single_node_way_is_point_to_point() {
    let doc = OsmDocument { nodes: vec![node(1, N1)], ways: vec![way(10, &[1])] };
    let (d, p) = doc.ways[0].nearest_point(&Q, &doc).unwrap();
    assert_eq!(d, distance(&Q, &N1));
    assert_eq!(p, N1);
}

#[test]
fn missing_reference_is_reported() {
    let doc = OsmDocument { nodes: vec![node(1, N1)], ways: vec![way(10, &[1, 99])] };
    assert_eq!(doc.ways[0].nearest_point(&Q, &doc), Err(QueryError::MissingNodeReference));
    assert_eq!(nearest_way(&doc, &Some(Q)), Err(QueryError::MissingNodeReference));
}

#[test]
fn zero_node_way_is_reported_as_missing_reference() {
    let doc = OsmDocument { nodes: vec![node(1, N1)], ways: vec![way(10, &[])] };
    assert_eq!(doc.ways[0].nearest_point(&Q, &doc), Err(QueryError::MissingNodeReference));
}

#[test]
fn nearest_points_reports_each_way() {
    let far1 = Coord { lat: 634100000, lon: 103100000 };
    let far2 = Coord { lat: 634120000, lon: 103140000 };
    let doc = OsmDocument {
        nodes: vec![node(1, N1), node(2, N2), node(3, far1), node(4, far2)],
        ways: vec![way(10, &[1, 2]), way(20, &[3, 4]), way(30, &[5])],
    };
    let all = nearest_points(&doc, &Q);
    assert_eq!(all.len(), 3);
    assert_eq!(all[0].unwrap().0, 29280);
    assert!(all[1].unwrap().0 > all[0].unwrap().0);
    assert_eq!(all[2], Err(QueryError::MissingNodeReference));
}

#[test]
fn nearest_way_picks_the_closer_way() {
    let far1 = Coord { lat: 634100000, lon: 103100000 };
    let far2 = Coord { lat: 634120000, lon: 103140000 };
    let doc = OsmDocument {
        nodes: vec![node(1, N1), node(2, N2), node(3, far1), node(4, far2)],
        ways: vec![way(20, &[3, 4]), way(10, &[1, 2])],
    };
    let (idx, d, p) = nearest_way(&doc, &Some(Q)).unwrap();
    assert_eq!(idx, 1);
    assert_eq!(doc.ways[idx].id, 10);
    assert_eq!(d, doc.ways[1].distance(&Q, &doc).unwrap());
    assert_eq!(d, distance(&Q, &p));
}

#[test]
fn nearest_way_breaks_ties_by_way_order() {
    // The same geometry twice: the earlier way must win.
    let doc = OsmDocument {
        nodes: vec![node(1, N1), node(2, N2)],
        ways: vec![way(11, &[1, 2]), way(12, &[1, 2])],
    };
    let (idx, _, _) = nearest_way(&doc, &Some(Q)).unwrap();
    assert_eq!(idx, 0);
}

#[test]
fn nearest_way_without_ways_fails() {
    let doc = OsmDocument::new();
    assert_eq!(nearest_way(&doc, &Some(Q)), Err(QueryError::NoWays));
}

#[test]
fn nearest_way_without_position_fails() {
    let doc = two_node_doc();
    assert_eq!(nearest_way(&doc, &None), Err(QueryError::NoPosition));
}

#[test]
fn tags_stay_with_their_way() {
    let doc = two_node_doc();
    assert_eq!(doc.ways[0].tags.len(), 1);
    assert_eq!(doc.ways[0].tags[0].k, "highway");
    assert_eq!(doc.ways[0].tags[0].v, "path");
}
