//! Storage logic of the wallpaper console: flat-file line lists, SQL text
//! builders, schema normalization, display-state rules, library browser
//! queries and cursors, and scan snapshot validation.

pub mod error;
pub mod flat;
pub mod order;
pub mod paths;
pub mod sqlite;
pub mod storage;
pub mod text;
pub mod types;
