//! Error-reporting support: source positions and locations.

pub mod location;
