//! Line-oriented text search: every line of a text that holds a query,
//! with or without regard to letter case.

pub mod config;
pub mod search;
pub mod text;

pub use config::{run, Config};
pub use search::{push_if_found, search, search_case_insensitive};
