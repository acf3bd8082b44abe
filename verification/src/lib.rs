//! Fuego: the logic behind the news digest and event calendar feeds.
//!
//! The library decides how many days a digest feed covers, writes the
//! database query for them, merges the per-day digests, resolves the source
//! links of each digest entry and assembles iCalendar feeds from buckets and
//! events. Database access and HTTP serving live outside the library.
pub mod calendar;
pub mod digest;
pub mod events;
pub mod laws;
pub mod model;
pub mod text;
