# fuego

The verified core of Fuego, a news digest and event API that serves its
digests and events as iCalendar feeds.

- `src/` is the library, verified with Verus:
  - `digest.rs`: the days a digest feed covers, the per-day database query,
    the merging of per-day digests, the event keys to look up, the source
    lines and descriptions, and the digest calendar;
  - `events.rs`: the event calendar;
  - `calendar.rs`: the calls into the `icalendar` crate and what they do to
    a calendar and its events;
  - `text.rs`: decimal numerals and joining lines;
  - `laws.rs`: properties that span several steps of the digest feed;
  - `model.rs`: the records the feeds are built from.
- `app/` is the HTTP server (axum) and the SurrealDB access around it.
- `tests/` runs the library on concrete inputs.
