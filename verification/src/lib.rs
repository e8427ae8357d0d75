//! Catalog of Quebec hiking trails: GeoJSON ingestion, coordinate
//! reprojection, deduplication, great-circle distances, and elevation
//! profiles, all over fixed-point integer representations.

pub mod cache;
pub mod conditions;
pub mod elevation;
pub mod geo;
pub mod gpx;
pub mod hunting;
pub mod icons;
pub mod json;
pub mod logs;
pub mod num;
pub mod strings;
pub mod trails;
