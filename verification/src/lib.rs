//! Air-quality sensor exporter core.
//!
//! Polls environmental sensor devices (the surrounding binary does the HTTP
//! work), derives the EPA Air Quality Index from particulate readings, and
//! keeps a label-indexed metrics store that renders a deterministic text
//! snapshot for pull-based scrape readers.
//!
//! All numeric sensor values are carried as fixed-point integers in
//! hundredths of a unit ("centi" values), so that truncation, interpolation
//! and rendering are exact.

pub mod apollo;
pub mod aqi;
pub mod config;
pub mod metrics;
pub mod text;
pub mod tick;
