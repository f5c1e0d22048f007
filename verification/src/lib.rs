//! Suggestion engine of an inline shell autocompleter: tool detection,
//! script parsers, fuzzy ranking, the directory cache, the line tracker and
//! the dropdown renderers.
pub mod text;
pub mod tools;
pub mod manifests;
pub mod fuzzy;
pub mod line_tracker;
pub mod cache;
pub mod dropdown;
pub mod tui;
pub mod session;
pub mod config;
pub mod protocol;
pub mod suggest;
pub mod launch;
