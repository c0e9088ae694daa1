//! Reconciles street and house-number data of an area between a crowd-sourced
//! map and an authoritative reference: normalizes raw house-number fields and
//! computes what is missing on either side.

pub mod text;
pub mod ranges;
pub mod housenumber;
pub mod config;
pub mod relation;
pub mod normalize;
pub mod table;
pub mod order;
pub mod streets;
pub mod missing;
pub mod report;
pub mod relations;
pub mod query;
pub mod reference;
