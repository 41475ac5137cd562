//! The slice of an airport record that filtering reads: the airport's
//! category, and its runways with their optional lengths.

use vstd::prelude::*;

verus! {

/// Category of an airport record.
#[derive(Debug, Clone, Copy, PartialEq, Eq, Structural)]
pub enum AirportType {
    SmallAirport,
    MediumAirport,
    LargeAirport,
    Heliport,
    SeaplaneBase,
    Closed,
}

/// One runway of an airport record. A length of `None` means the
/// length is unknown; an unknown length never matches a length filter.
#[derive(Debug, Clone, Copy, PartialEq, Eq)]
pub struct Runway {
    pub length: Option<u32>,
}

} // verus!
