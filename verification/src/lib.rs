//! Join-and-export pipeline for relational speed-skating competition data.
//!
//! Raw table rows (loosely typed, every field optional) are joined into a
//! nested race/lane domain model with missing-data tolerance, races are put
//! into a deterministic total order, and the ordered model is rendered twice:
//! as the fixed-column legacy text protocol for the timing system and as a
//! JSON document for live display. Both renderings enumerate the same races
//! and lanes in the same order.
//!
//! Reading the tables and writing the files is left to the caller; this crate
//! holds the transformation itself, with its behaviour stated in contracts.

pub mod emit;
pub mod join;
pub mod lookups;
pub mod model;
pub mod pipeline;
pub mod names;
pub mod resolve;
pub mod sequence;
pub mod strings;
pub mod tables;
