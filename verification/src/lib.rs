//! Planning of a paddling trip across a tidal waterway.
//!
//! The library simulates travel through a time-varying current field and
//! ranks candidate departure times.  All quantities are held in fixed-point
//! integer units:
//!
//! - latitude and longitude in micro-degrees;
//! - speeds in millimetres per hour (one knot is 1_852_000 mm/h);
//! - lengths in sixtieths of a millimetre, so that a speed in mm/h advanced
//!   for a whole number of minutes is an exact number of length units;
//! - directions in milli-degrees, clockwise from north;
//! - times in minutes.

pub mod angles;
pub mod calendar;
pub mod geo;
pub mod leg;
pub mod nearest;
pub mod order;
pub mod proxy;
pub mod saturating;
pub mod series;
pub mod station;
pub mod trip;
pub mod waypoint;
