//! Two small deterministic calculators: a resolver for the UTC offset in
//! effect at an instant, read out of a compiled timezone-transition table, and
//! a resolver that maps a calendar date to one of eight lunar-phase symbols
//! through a sparse calendar of primary-phase dates.

pub mod phase;
pub mod reader;
pub mod tzif;
