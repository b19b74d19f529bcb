//! Maps a photograph's capture time to a geographic position recorded during a
//! tracked journey and encodes that position into metadata fields.
//!
//! The core is made of three pieces: a timestamp-sorted track of geo-samples
//! with point and interpolated lookup ([`flight_geodata`]), a codec turning
//! fixed-point decimal-degree coordinates into the degree/minute/second
//! rational encoding of the positional metadata fields ([`coord`]), and a
//! merge protocol that replaces stale positional fields while preserving all
//! unrelated fields and their order ([`metadata`]).
//!
//! Timestamps are UTC epoch seconds. Coordinates are signed fixed-point
//! decimal degrees in units of `10^-7` degree (see [`coord::COORD_SCALE`]),
//! so that all track and codec arithmetic is exact integer arithmetic.

pub mod cli;
pub mod coord;
pub mod flight_geodata;
pub mod image_geotagger;
pub mod metadata;
pub mod providers;
pub mod result;
