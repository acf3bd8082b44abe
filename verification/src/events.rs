//! The event feed: one calendar entry per news event.
use crate::calendar::{
    calendar_component_parameters, calendar_components, calendar_properties, calendar_text,
    calendar_text_filled, event_parameters, event_properties, new_calendar, new_event,
    no_parameters, no_properties, no_property_parameters, push_event, set_calendar_name,
    set_description, set_starts, set_summary, set_uid, set_url, start_property,
};
use crate::digest::titled_properties;
use crate::model::CalendarEventFull;
use icalendar::{Calendar, Event};
use vstd::prelude::*;

verus! {

/// The properties of the calendar entry for a news event: its name as the
/// summary, its summary as the description, the link to its article, its
/// id and its start time.
pub open spec fn article_entry(event: CalendarEventFull) -> Map<Seq<char>, Seq<char>> {
    no_properties().insert("SUMMARY"@, event.name@).insert("DESCRIPTION"@, event.summary@).insert(
        "URL"@,
        event.article_url@,
    ).insert("UID"@, event.id@).insert("DTSTART"@, start_property(event.timestamp).0)
}

/// The parameters of the properties of the calendar entry for a news event:
/// the start carries those that its time makes, the other properties none.
pub open spec fn article_entry_parameters(event: CalendarEventFull) -> Map<
    Seq<char>,
    Map<Seq<char>, Seq<char>>,
> {
    no_property_parameters().insert("SUMMARY"@, no_parameters()).insert(
        "DESCRIPTION"@,
        no_parameters(),
    ).insert("URL"@, no_parameters()).insert("UID"@, no_parameters()).insert(
        "DTSTART"@,
        start_property(event.timestamp).1,
    )
}

/// The calendar entry for one news event.
pub fn article_event(event: &CalendarEventFull) -> (entry: Event)
    ensures
        event_properties(entry) == article_entry(*event),
        event_parameters(entry) == article_entry_parameters(*event),
{
    let mut entry = new_event();
    set_summary(&mut entry, event.name.as_str());
    set_description(&mut entry, event.summary.as_str());
    set_url(&mut entry, event.article_url.as_str());
    set_uid(&mut entry, event.id.as_str());
    set_starts(&mut entry, &event.timestamp);
    entry
}

/// The event calendar: titled `title`, with one entry per event, in order.
pub fn events_calendar(title: &str, events: &Vec<CalendarEventFull>) -> (calendar: Calendar)
    ensures
        calendar_properties(calendar) == titled_properties(title@),
        calendar_components(calendar) == events@.map_values(
            |e: CalendarEventFull| article_entry(e),
        ),
        calendar_component_parameters(calendar) == events@.map_values(
            |e: CalendarEventFull| article_entry_parameters(e),
        ),
{
    let mut calendar = new_calendar();
    set_calendar_name(&mut calendar, title);
    let mut i: usize = 0;
    while i < events.len()
        invariant
            i <= events.len(),
            calendar_properties(calendar) == titled_properties(title@),
            calendar_components(calendar) == events@.take(i as int).map_values(
                |e: CalendarEventFull| article_entry(e),
            ),
            calendar_component_parameters(calendar) == events@.take(i as int).map_values(
                |e: CalendarEventFull| article_entry_parameters(e),
            ),
        decreases events.len() - i,
    {
        let entry = article_event(&events[i]);
        push_event(&mut calendar, entry);
        assert(events@.take(i + 1).map_values(|e: CalendarEventFull| article_entry(e))
            =~= events@.take(i as int).map_values(|e: CalendarEventFull| article_entry(e)).push(
            article_entry(events@[i as int]),
        ));
        assert(events@.take(i + 1).map_values(|e: CalendarEventFull| article_entry_parameters(e))
            =~= events@.take(i as int).map_values(
            |e: CalendarEventFull| article_entry_parameters(e),
        ).push(article_entry_parameters(events@[i as int])));
        i = i + 1;
    }
    assert(events@.take(events.len() as int) =~= events@);
    calendar
}

/// The iCalendar text of the event feed: the text that `icalendar` writes
/// for a calendar titled `title` with one entry per event, as
/// `events_calendar` builds it.
pub fn events_feed(title: &str, events: &Vec<CalendarEventFull>) -> (text: String)
    ensures
        exists|calendar: Calendar, fills: Seq<Seq<char>>|
            #![trigger calendar_text_filled(calendar, fills)]
            calendar_properties(calendar) == titled_properties(title@)
                && calendar_components(calendar) == events@.map_values(
                |e: CalendarEventFull| article_entry(e),
            ) && calendar_component_parameters(calendar) == events@.map_values(
                |e: CalendarEventFull| article_entry_parameters(e),
            )
                && text@ == calendar_text_filled(calendar, fills),
{
    let calendar = events_calendar(title, events);
    let text = calendar_text(&calendar);
    proof {
        let fills = choose|fills: Seq<Seq<char>>| text@ == calendar_text_filled(calendar, fills);
        assert(text@ == calendar_text_filled(calendar, fills));
    }
    text
}

} // verus!
