//! Data model and editing logic of a GTFS dataset viewer and editor.
pub mod app_data;
pub mod cli;
pub mod commands;
pub mod counts;
pub mod delegate;
pub mod feed;
pub mod fields;
pub mod filtered;
pub mod ids;
pub mod items;
pub mod kinds;
pub mod laws;
pub mod map_input;
pub mod order;
pub mod queries;
pub mod records;
pub mod runs;
pub mod stops;
pub mod zoom;

pub use zoom::ZoomLevel;
