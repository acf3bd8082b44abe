//! The iCalendar side of the feeds, built with the `icalendar` crate.
//!
//! A `Calendar` and an `Event` are opaque to the verifier. What the feeds
//! put into them is described by the names below: the properties of an
//! event, as a map from property name to property value, and the top-level
//! properties and the components of a calendar.
use icalendar::{Calendar, Component, DatePerhapsTime, Event, EventLike};
use vstd::prelude::*;

verus! {

#[verifier::external_type_specification]
#[verifier::external_body]
pub struct ExDatePerhapsTime(icalendar::DatePerhapsTime);

#[verifier::external_type_specification]
#[verifier::external_body]
pub struct ExEvent(icalendar::Event);

#[verifier::external_type_specification]
#[verifier::external_body]
pub struct ExCalendar(icalendar::Calendar);

#[verifier::external_type_specification]
#[verifier::external_body]
pub struct ExCalendarComponent(icalendar::CalendarComponent);

/// The properties of an event: each property name mapped to its value.
/// The parameters attached to the properties are given by
/// `event_parameters`.
pub uninterp spec fn event_properties(event: Event) -> Map<Seq<char>, Seq<char>>;

/// The parameters of the properties of an event: each property name mapped
/// to the parameters of that property (such as `VALUE` to `DATE`), each
/// parameter name to its value.
pub uninterp spec fn event_parameters(event: Event) -> Map<Seq<char>, Map<Seq<char>, Seq<char>>>;

/// The top-level properties of a calendar, as (name, value) pairs in order.
pub uninterp spec fn calendar_properties(calendar: Calendar) -> Seq<(Seq<char>, Seq<char>)>;

/// The components of a calendar, in order, each given by its properties.
pub uninterp spec fn calendar_components(calendar: Calendar) -> Seq<Map<Seq<char>, Seq<char>>>;

/// The components of a calendar, in order, each given by the parameters of
/// its properties (as in `event_parameters`).
pub uninterp spec fn calendar_component_parameters(calendar: Calendar) -> Seq<
    Map<Seq<char>, Map<Seq<char>, Seq<char>>>,
>;

/// The text that `icalendar` writes as the value of a `DTSTART` or `DTEND`
/// property that holds the calendar date of `t`, taken with
/// `DatePerhapsTime::date_naive` (the form `YYYYMMDD`).
pub uninterp spec fn all_day_text(t: DatePerhapsTime) -> Seq<char>;

/// The `DTSTART` property that `DatePerhapsTime::to_property` makes of `t`:
/// its value (for a UTC date and time, the form `YYYYMMDDTHHMMSSZ`) and its
/// parameters (none for a UTC date and time).
pub uninterp spec fn start_property(t: DatePerhapsTime) -> (Seq<char>, Map<Seq<char>, Seq<char>>);

/// The property map of an event that has no property yet.
pub open spec fn no_properties() -> Map<Seq<char>, Seq<char>> {
    Map::empty()
}

/// A property without parameters.
pub open spec fn no_parameters() -> Map<Seq<char>, Seq<char>> {
    Map::empty()
}

/// The parameter map of an event that has no property yet.
pub open spec fn no_property_parameters() -> Map<Seq<char>, Map<Seq<char>, Seq<char>>> {
    Map::empty()
}

/// The parameters of a property that holds a date without a time.
pub open spec fn date_value_parameters() -> Map<Seq<char>, Seq<char>> {
    map!["VALUE"@ => "DATE"@]
}

/// The three properties that `Calendar::default` starts every calendar with.
pub open spec fn default_calendar_properties() -> Seq<(Seq<char>, Seq<char>)> {
    seq![("VERSION"@, "2.0"@), ("PRODID"@, "ICALENDAR-RS"@), ("CALSCALE"@, "GREGORIAN"@)]
}

/// `Calendar::default`: a calendar that holds the default properties
/// (`VERSION`, `PRODID`, `CALSCALE`) and no component.
#[verifier::external_body]
pub(crate) fn new_calendar() -> (made: Calendar)
    ensures
        calendar_properties(made) == default_calendar_properties(),
        calendar_components(made).len() == 0,
        calendar_component_parameters(made).len() == 0,
{
    Calendar::default()
}

/// `Calendar::name`: appends a `NAME` and an `X-WR-CALNAME` property, both
/// holding `name`, and leaves the components as they were.
#[verifier::external_body]
pub(crate) fn set_calendar_name(calendar: &mut Calendar, name: &str)
    ensures
        calendar_properties(*final(calendar)) == calendar_properties(*old(calendar)).push(
            ("NAME"@, name@),
        ).push(("X-WR-CALNAME"@, name@)),
        calendar_components(*final(calendar)) == calendar_components(*old(calendar)),
        calendar_component_parameters(*final(calendar)) == calendar_component_parameters(
            *old(calendar),
        ),
{
    calendar.name(name);
}

/// `Calendar::push`: appends the event as the last component.
#[verifier::external_body]
pub(crate) fn push_event(calendar: &mut Calendar, event: Event)
    ensures
        calendar_properties(*final(calendar)) == calendar_properties(*old(calendar)),
        calendar_components(*final(calendar)) == calendar_components(*old(calendar)).push(
            event_properties(event),
        ),
        calendar_component_parameters(*final(calendar)) == calendar_component_parameters(
            *old(calendar),
        ).push(event_parameters(event)),
{
    calendar.push(event);
}

/// `Event::new`: an event without any property.
#[verifier::external_body]
pub(crate) fn new_event() -> (made: Event)
    ensures
        event_properties(made) == no_properties(),
        event_parameters(made) == no_property_parameters(),
{
    Event::new()
}

/// `Component::summary`: sets the `SUMMARY` property, without parameters.
#[verifier::external_body]
pub(crate) fn set_summary(event: &mut Event, summary: &str)
    ensures
        event_properties(*final(event)) == event_properties(*old(event)).insert(
            "SUMMARY"@,
            summary@,
        ),
        event_parameters(*final(event)) == event_parameters(*old(event)).insert(
            "SUMMARY"@,
            no_parameters(),
        ),
{
    event.summary(summary);
}

/// `Component::description`: sets the `DESCRIPTION` property, without
/// parameters.
#[verifier::external_body]
pub(crate) fn set_description(event: &mut Event, description: &str)
    ensures
        event_properties(*final(event)) == event_properties(*old(event)).insert(
            "DESCRIPTION"@,
            description@,
        ),
        event_parameters(*final(event)) == event_parameters(*old(event)).insert(
            "DESCRIPTION"@,
            no_parameters(),
        ),
{
    event.description(description);
}

/// `Component::url`: sets the `URL` property, without parameters.
#[verifier::external_body]
pub(crate) fn set_url(event: &mut Event, url: &str)
    ensures
        event_properties(*final(event)) == event_properties(*old(event)).insert("URL"@, url@),
        event_parameters(*final(event)) == event_parameters(*old(event)).insert(
            "URL"@,
            no_parameters(),
        ),
{
    event.url(url);
}

/// `Component::uid`: sets the `UID` property, without parameters.
#[verifier::external_body]
pub(crate) fn set_uid(event: &mut Event, uid: &str)
    ensures
        event_properties(*final(event)) == event_properties(*old(event)).insert("UID"@, uid@),
        event_parameters(*final(event)) == event_parameters(*old(event)).insert(
            "UID"@,
            no_parameters(),
        ),
{
    event.uid(uid);
}

/// `EventLike::starts`: sets the `DTSTART` property to the property that
/// `start` makes.
#[verifier::external_body]
pub(crate) fn set_starts(event: &mut Event, start: &DatePerhapsTime)
    ensures
        event_properties(*final(event)) == event_properties(*old(event)).insert(
            "DTSTART"@,
            start_property(*start).0,
        ),
        event_parameters(*final(event)) == event_parameters(*old(event)).insert(
            "DTSTART"@,
            start_property(*start).1,
        ),
{
    event.starts(start.clone());
}

/// `EventLike::all_day` on the calendar date of `day` (taken with
/// `DatePerhapsTime::date_naive`): sets both `DTSTART` and `DTEND` to that
/// date, each with the parameter `VALUE=DATE`.
#[verifier::external_body]
pub(crate) fn set_all_day(event: &mut Event, day: &DatePerhapsTime)
    ensures
        event_properties(*final(event)) == event_properties(*old(event)).insert(
            "DTSTART"@,
            all_day_text(*day),
        ).insert("DTEND"@, all_day_text(*day)),
        event_parameters(*final(event)) == event_parameters(*old(event)).insert(
            "DTSTART"@,
            date_value_parameters(),
        ).insert("DTEND"@, date_value_parameters()),
{
    event.all_day(day.date_naive());
}

/// The text that `icalendar` writes for `calendar` when the values that it
/// supplies itself while writing are `fills`, in writing order: the current
/// time for each component that has no `DTSTAMP` property, and a fresh random
/// id for each component that has no `UID` property.
pub uninterp spec fn calendar_text_filled(calendar: Calendar, fills: Seq<Seq<char>>) -> Seq<char>;

/// `Calendar`'s `Display`: the iCalendar text of the calendar. The text is
/// that of the calendar up to the values that `icalendar` supplies while it
/// writes (the current time, fresh ids); which values those are is not
/// stated, since they depend on the clock and on chance.
#[verifier::external_body]
pub(crate) fn calendar_text(calendar: &Calendar) -> (text: String)
    ensures
        exists|fills: Seq<Seq<char>>| text@ == calendar_text_filled(*calendar, fills),
{
    calendar.to_string()
}

} // verus!
