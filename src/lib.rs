//! Extraction of decision records from a game review report: rounds, turns,
//! the actions on offer with their scores, and which action each of two
//! agents chose.

pub mod dom;
pub mod extract;
pub mod laws;
pub mod model;
pub mod parser;
pub mod query;
pub mod score;
pub mod summary;
pub mod text;
