//! The records that the feeds are built from, as the database hands them out.
use icalendar::DatePerhapsTime;
use vstd::prelude::*;

verus! {

/// A news event (one article), as far as the calendar feeds read it.
pub struct CalendarEventFull {
    pub id: String,
    pub name: String,
    pub summary: String,
    pub article_url: String,
    pub timestamp: DatePerhapsTime,
}

/// A digest bucket of one theme over one period, with the keys of its
/// source events.
pub struct BucketWithSources {
    pub id: String,
    pub summary: String,
    pub theme: String,
    pub begin_timestamp: DatePerhapsTime,
    pub end_timestamp: DatePerhapsTime,
    /// event keys, ordered by similarity to `theme` (highest first)
    pub sources: Vec<String>,
}

} // verus!
