//! Geographic coordinates.
//!
//! A [`Position`] stores longitude and latitude as whole micro-degrees
//! (millionths of a degree, about 0.11 m of longitude at the equator), so
//! that all coordinate arithmetic in this crate is exact integer arithmetic.

use vstd::prelude::*;

verus! {

/// Longitudes lie in `[-LON_LIMIT_MICRO, LON_LIMIT_MICRO]` micro-degrees.
pub const LON_LIMIT_MICRO: i64 = 180_000_000;

/// Latitudes lie in `[-LAT_LIMIT_MICRO, LAT_LIMIT_MICRO]` micro-degrees.
pub const LAT_LIMIT_MICRO: i64 = 90_000_000;

/// The spherical-mercator projection is defined only for latitudes up to
/// about 85.051128 degrees on either side of the equator; beyond them the
/// projected world bitmap would be taller than it is wide.
pub const MERCATOR_LAT_LIMIT_MICRO: i64 = 85_051_128;

/// Geographic coordinate: (longitude, latitude) in micro-degrees.
///
/// Immutable value type; positions are never mutated, only recombined into
/// new values.
#[derive(Debug, Clone, Copy, PartialEq, Eq, Structural)]
pub struct Position {
    lon_micro: i64,
    lat_micro: i64,
}

impl Position {
    /// Longitude in micro-degrees, east of Greenwich positive.
    pub closed spec fn lon(self) -> i64 {
        self.lon_micro
    }

    /// Latitude in micro-degrees, north of the equator positive.
    pub closed spec fn lat(self) -> i64 {
        self.lat_micro
    }

    #[verifier::type_invariant]
    spec fn inv(self) -> bool {
        &&& -LON_LIMIT_MICRO <= self.lon_micro <= LON_LIMIT_MICRO
        &&& -LAT_LIMIT_MICRO <= self.lat_micro <= LAT_LIMIT_MICRO
    }

    /// Whether the latitude is within the range on which the mercator
    /// projection is defined.
    pub open spec fn mercator_valid(self) -> bool {
        -MERCATOR_LAT_LIMIT_MICRO <= self.lat() <= MERCATOR_LAT_LIMIT_MICRO
    }

    /// Build a position from micro-degree coordinates.
    pub fn new(lon_micro: i64, lat_micro: i64) -> (r: Position)
        requires
            -LON_LIMIT_MICRO <= lon_micro <= LON_LIMIT_MICRO,
            -LAT_LIMIT_MICRO <= lat_micro <= LAT_LIMIT_MICRO,
        ensures
            r.lon() == lon_micro,
            r.lat() == lat_micro,
    {
        Position { lon_micro, lat_micro }
    }

    /// Longitude in micro-degrees (the horizontal coordinate).
    pub fn x(&self) -> (r: i64)
        ensures
            r == self.lon(),
            -LON_LIMIT_MICRO <= r <= LON_LIMIT_MICRO,
    {
        proof {
            use_type_invariant(self);
        }
        self.lon_micro
    }

    /// Latitude in micro-degrees (the vertical coordinate).
    pub fn y(&self) -> (r: i64)
        ensures
            r == self.lat(),
            -LAT_LIMIT_MICRO <= r <= LAT_LIMIT_MICRO,
    {
        proof {
            use_type_invariant(self);
        }
        self.lat_micro
    }
}

} // verus!
