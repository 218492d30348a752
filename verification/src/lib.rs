//! Time-domain model and layout engine of a multi-timezone terminal dashboard.
//!
//! Every tracked timezone is one row: a badge, a title, a clock and a
//! two-sided bar chart of the day, coloured by the track's time ranges.
//! This crate holds the arithmetic of that picture; painting it is left to
//! the program that embeds it.

pub mod app;
pub mod clock;
pub mod config;
pub mod geometry;
pub mod ranges;
pub mod sorting;
pub mod time;
pub mod ui;
pub mod validate;

pub use app::App;
pub use ranges::{fill_gaps, time_to_range};
pub use time::{point_to_time, to_hour_minute, to_minutes, MINUTES_PER_DAY};
