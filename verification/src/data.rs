//! Document model: the validated, already-parsed representations of the
//! network description and of the candidate light schedule.
//!
//! Street and intersection names are kept as raw bytes; the engine itself
//! never compares names except during the one interning pass that replaces
//! them with integer street ids.
use vstd::prelude::*;

verus! {

/// First line of the network document: global counts and the completion bonus.
#[derive(Debug, Clone, PartialEq, Eq, Structural)]
pub struct InputHeader {
    pub simulation_duration: usize,
    pub intersections: usize,
    pub streets: usize,
    pub cars: usize,
    pub bonus: usize,
}

/// One street line of the network document: a directed street with a name
/// and a length in ticks.
#[derive(Debug, Clone, PartialEq, Eq)]
pub struct PStreet {
    pub intersection_start: usize,
    pub intersection_end: usize,
    pub street_name: Vec<u8>,
    pub street_length: usize,
}

/// One car line of the network document: the announced number of streets and
/// the ordered street names of the route.
#[derive(Debug, Clone, PartialEq, Eq)]
pub struct PCarPath {
    pub streets: usize,
    pub street_names: Vec<Vec<u8>>,
}

/// Body of the network document: all street lines, then all car lines.
#[derive(Debug, Clone, PartialEq, Eq)]
pub struct PInputBody {
    pub streets: Vec<PStreet>,
    pub car_paths: Vec<PCarPath>,
}

/// A whole parsed network document.
#[derive(Debug, Clone, PartialEq, Eq)]
pub struct PInputData {
    pub header: InputHeader,
    pub body: PInputBody,
}

/// One block of the schedule document: the lights of one intersection as an
/// ordered list of (incoming street name, green duration) pairs.
#[derive(Debug, Clone, PartialEq, Eq)]
pub struct PIntersectionSchedule {
    pub intersection_id: usize,
    pub incoming_streets: usize,
    pub light_schedules: Vec<(Vec<u8>, usize)>,
}

/// A whole parsed schedule document.
#[derive(Debug, Clone, PartialEq, Eq)]
pub struct POutputData {
    pub schedules: usize,
    pub intersection_schedules: Vec<PIntersectionSchedule>,
}

} // verus!
