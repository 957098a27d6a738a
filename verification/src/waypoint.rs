//! Waypoints: the user-ordered stops of a trip.

use vstd::prelude::*;

use crate::geo::GeoPos;

verus! {

/// What happens at a waypoint.
#[derive(Debug, Clone, Copy, PartialEq, Eq, Structural)]
pub enum WaypointType {
    /// Travel towards this waypoint.
    Move,
    /// Rest here for a fixed while.
    Pause,
}

/// One stop of the trip, in travel order.
#[derive(Debug, Clone, Copy, PartialEq, Eq, Structural)]
pub struct Waypoint {
    /// Where the waypoint lies.
    pub point: GeoPos,
    /// What happens there.
    pub type_: WaypointType,
}

impl Waypoint {
    /// The waypoint lies within the representable coordinate ranges.
    pub open spec fn wf(self) -> bool {
        self.point.in_domain()
    }
}

} // verus!
