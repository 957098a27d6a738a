//! Current stations: identity, location and prediction kind.

use vstd::prelude::*;

use crate::geo::GeoPos;

verus! {

/// How a station's predictions were computed.
#[derive(Debug, Clone, Copy, PartialEq, Eq, Structural)]
pub enum StationType {
    /// A full harmonic model: continuous speed and direction.
    Harmonic,
    /// Predictions derived from a reference station, reported as flood and
    /// ebb events with a sign convention for direction.
    Subordinate,
}

/// Two station values carry the same data in every field.
pub open spec fn station_eq(a: Station, b: Station) -> bool {
    &&& a.id@ == b.id@
    &&& a.name@ == b.name@
    &&& a.loc == b.loc
    &&& a.type_ == b.type_
}

/// A current station in the study area.
#[derive(Debug)]
pub struct Station {
    /// Unique identifier; station identity is this field alone.
    pub id: String,
    /// Display name.
    pub name: String,
    /// Geographic location.
    pub loc: GeoPos,
    /// Prediction kind.
    pub type_: StationType,
}

impl Station {
    /// The location lies within the representable coordinate ranges.
    pub open spec fn wf(self) -> bool {
        self.loc.in_domain()
    }

    /// Two stations stand for the same physical station when their ids
    /// agree.
    pub open spec fn same_id(self, other: Station) -> bool {
        self.id@ == other.id@
    }

    /// An exact copy of the station.
    pub fn duplicate(&self) -> (r: Station)
        ensures
            r.id@ == self.id@,
            r.name@ == self.name@,
            r.loc == self.loc,
            r.type_ == self.type_,
    {
        Station {
            id: self.id.clone(),
            name: self.name.clone(),
            loc: self.loc,
            type_: self.type_,
        }
    }
}

} // verus!
