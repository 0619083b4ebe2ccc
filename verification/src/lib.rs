//! Small command-line helpers: a terminal-aware column layout for directory
//! listings, a project-type detector with its build/format command tables,
//! file-metadata text helpers, and a substring search with highlighting.
//!
//! The column layout is the heart of the crate: `layout::format_columns`
//! renders a sorted list of names as a column-major grid, and `extract`
//! proves that the grid can be split back into exactly the input names.

pub mod extract;
pub mod layout;
pub mod listing;
pub mod project;
pub mod search;
pub mod textutil;
