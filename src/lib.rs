//! Route planning over a commuter-rail network: enumeration of line-transfer
//! paths between stations, and selection of the fastest concrete itinerary
//! built from live schedule data.
pub mod error;
pub mod itinerary;
pub mod line;
pub mod model;
pub mod pathfinder;
pub mod station;
pub mod text;
pub mod timeofday;
