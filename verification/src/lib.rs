//! Nearest-way search over an OpenStreetMap road network.
//!
//! The crate models coordinates as integers (degrees scaled by `1e7`, the
//! resolution OSM itself uses) and distances as millimetres, so that every
//! computation is exact integer arithmetic with a full functional
//! specification.  Spherical trigonometry is carried out in fixed-point
//! arithmetic at a scale of `1e12`.
//!
//! - [`trig`]: fixed-point sine, cosine, arctangent and square root.
//! - [`geo`]: great-circle distance, bearing, destination point and
//!   along-track projection.
//! - [`osm`]: the document model (nodes, ways, tags) with id-based node
//!   references.
//! - [`engine`]: the nearest-point / nearest-way queries over a document.

pub mod engine;
pub mod geo;
pub mod osm;
pub mod trig;
