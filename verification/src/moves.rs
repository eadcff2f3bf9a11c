//! Move evaluation and application for the five structural move families.

pub mod inter_route;
pub mod intra_route;
pub mod types;
