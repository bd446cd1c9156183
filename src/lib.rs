//! A personal time tracker: days with a check-in time, chunks of work that end
//! at given times, and reports that sum the time spent on each project.

pub mod clock;
pub mod commands;
pub mod config;
pub mod date_format;
pub mod day;
pub mod details;
pub mod order;
pub mod parse;
pub mod record;
pub mod render;
pub mod report;
pub mod reporting;
pub mod text;
pub mod time_format;
