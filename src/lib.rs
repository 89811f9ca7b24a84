//! A terminal calendar viewer: property-list ingestion, day-bucketed
//! calendars, view layout and terminal color composition.
pub mod compose;
pub mod config;
pub mod layout;
pub mod model;
pub mod parse;
