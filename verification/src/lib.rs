//! Line-oriented search: regex and similarity-based selection of lines,
//! context windows, match limits and the rendering of results.

pub mod text;
pub mod matcher;
pub mod search;
pub mod printer;
pub mod limit;
pub mod run;
pub mod cli;
