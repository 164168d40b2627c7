//! Tests for the great-circle functions on concrete coordinates.
//!
//! The scenario coordinates are two road nodes near Trondheim and a
//! query position between them; reference distances were checked
//! against a double-precision haversine implementation.

use osm_nearest::geo::along_track_distance;
use osm_nearest::geo::bearing;
use osm_nearest::geo::destination;
use osm_nearest::geo::distance;
use osm_nearest::geo::Coord;

const N1: Coord = Coord { lat: 633998100, lon: 102907200 };
const N2: Coord = Coord { lat: 634026500, lon: 102942600 };
const Q: Coord = Coord { lat: 634015000, lon: 102935000 };

#[test]
fn distance_to_self_is_zero() {
    assert_eq!(distance(&Q, &Q), 0);
    assert_eq!(distance(&N1, &N1), 0);
    let poles = Coord { lat: 900000000, lon: -1800000000 };
    assert_eq!(distance(&poles, &poles), 0);
}

#[test]
fn distance_exact_values() {
    // 361.645 m between the two nodes (haversine reference 361.6455 m).
    assert_eq!(distance(&N1, &N2), 361645);
    assert_eq!(distance(&Q, &N1), 233389);
    assert_eq!(distance(&Q, &N2), 133354);
}

#[test]
fn distance_is_symmetric() {
    assert_eq!(distance(&N1, &N2), distance(&N2, &N1));
    assert_eq!(distance(&Q, &N1), distance(&N1, &Q));
    let a = Coord { lat: -330000000, lon: 1510000000 };
    let b = Coord { lat: 519000000, lon: -1000000 };
    assert_eq!(distance(&a, &b), distance(&b, &a));
}

#[test]
fn distance_long_haul() {
    // Pole to pole: half the circumference, about 20015 km.
    let np = Coord { lat: 900000000, lon: 0 };
    let sp = Coord { lat: -900000000, lon: 0 };
    let d = distance(&np, &sp);
    assert!((d - 20015086796).abs() < 100_000, "pole distance {d}");
}

#[test]
fn bearing_in_range() {
    // Reference initial bearing N1 -> N2: 29.1642300 degrees.
    assert_eq!(bearing(&N1, &N2), 291642297);
    assert_eq!(bearing(&N2, &N1), 2091673939);
    let pairs = [
        (N1, N2),
        (N2, N1),
        (Q, N1),
        (Q, N2),
        (Coord { lat: -700000000, lon: -1700000000 }, Coord { lat: 100, lon: 200 }),
    ];
    for (a, b) in pairs {
        let br = bearing(&a, &b);
        assert!((0..3600000000).contains(&br), "bearing {br}");
    }
}

#[test]
fn bearing_of_equal_points_falls_back_to_zero() {
    assert_eq!(bearing(&Q, &Q), 0);
}

#[test]
fn destination_round_trip() {
    // destination(a, bearing(a, b), distance(a, b)) lands on b, and the
    // travelled distance matches, within 0.1 m over a 361 m leg.
    let d = distance(&N1, &N2);
    let br = bearing(&N1, &N2);
    let dest = destination(&N1, br, d);
    assert!(distance(&dest, &N2) < 100, "landed {} mm away", distance(&dest, &N2));
    let back = distance(&N1, &dest);
    assert!((back - d).abs() < 100, "round trip {back} vs {d}");
}

#[test]
fn destination_zero_distance_stays_close() {
    let dest = destination(&Q, 123456789, 0);
    assert!(distance(&dest, &Q) < 100);
}

#[test]
fn along_track_at_start_is_zero() {
    assert_eq!(along_track_distance(&N1, &N2, &N1), 0);
    assert_eq!(along_track_distance(&Q, &N2, &Q), 0);
}

#[test]
fn along_track_at_end_matches_distance() {
    let d = distance(&N1, &N2);
    let at = along_track_distance(&N1, &N2, &N2);
    assert!((at - d).abs() < 100, "along {at} vs distance {d}");
}

#[test]
fn along_track_exact_value() {
    assert_eq!(along_track_distance(&N1, &N2, &Q), 231545);
}

#[test]
fn along_track_sign() {
    // A point behind the start projects to a negative along-track
    // distance; one beyond the end projects past the segment length.
    let behind = Coord { lat: 633970000, lon: 102870000 };
    assert!(along_track_distance(&N1, &N2, &behind) < 0);
    let beyond = Coord { lat: 634060000, lon: 102980000 };
    assert!(along_track_distance(&N1, &N2, &beyond) > distance(&N1, &N2));
}
