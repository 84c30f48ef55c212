//! Core of a terminal explorer for geographic and economic reference data:
//! key canonicalization and catalogue lookups, polygon models with fragment
//! filtering, a yearly indicator index, and the navigation state machine.

pub mod amount;
pub mod data;
pub mod gdp_reader;
pub mod map_draw;
pub mod shape;
pub mod state;
pub mod text;
