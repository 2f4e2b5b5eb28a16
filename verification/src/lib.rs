//! Scoring engine for traffic-light timing plans.
//!
//! Given a road network with car routes and a candidate light schedule, the
//! library replays the traffic tick by tick and computes the total score:
//! every car that completes its route before the horizon earns the bonus plus
//! the number of ticks remaining.
pub mod data;
pub mod laws;
pub mod model;
pub mod parser;
pub mod score;
