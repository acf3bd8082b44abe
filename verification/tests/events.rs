use chrono::{TimeZone, Utc};
use fuego::events::{article_event, events_calendar, events_feed};
use fuego::model::CalendarEventFull;
use icalendar::{CalendarComponent, Component, DatePerhapsTime};

fn news(id: &str, name: &str, minute: u32) -> CalendarEventFull {
    CalendarEventFull {
        id: id.to_string(),
        name: name.to_string(),
        summary: format!("What happened: {name}"),
        article_url: format!("https://news.example/{id}"),
        timestamp: DatePerhapsTime::from(Utc.with_ymd_and_hms(2026, 9, 19, 21, minute, 0).unwrap()),
    }
}

#[test]
fn article_entry_properties() {
    let event = article_event(&news("20260919211500-382", "Storm", 15));
    assert_eq!(event.get_summary(), Some("Storm"));
    assert_eq!(event.get_description(), Some("What happened: Storm"));
    assert_eq!(event.get_url(), Some("https://news.example/20260919211500-382"));
    assert_eq!(event.get_uid(), Some("20260919211500-382"));
    assert_eq!(event.property_value("DTSTART"), Some("20260919T211500Z"));
    assert_eq!(event.property_value("DTEND"), None);
}

#[test]
fn events_calendar_keeps_order() {
    let events = vec![news("a", "First", 0), news("b", "Second", 30), news("a", "Again", 45)];
    let calendar = events_calendar("News", &events);
    assert_eq!(calendar.get_name(), Some("News"));
    let uids: Vec<&str> = calendar
        .components
        .iter()
        .map(|c| match c {
            CalendarComponent::Event(e) => e.get_uid().unwrap(),
            _ => panic!("not an event"),
        })
        .collect();
    assert_eq!(uids, vec!["a", "b", "a"]);
}

#[test]
fn events_feed_text() {
    let text = events_feed("News", &vec![news("a", "First", 5)]);
    assert!(text.starts_with("BEGIN:VCALENDAR\r\n"));
    assert!(text.contains("NAME:News\r\n"));
    assert!(text.contains("BEGIN:VEVENT\r\n"));
    assert!(text.contains("SUMMARY:First\r\n"));
    assert!(text.contains("URL:https://news.example/a\r\n"));
    assert!(text.contains("DTSTART:20260919T210500Z\r\n"));
    assert!(text.contains("UID:a\r\n"));
}

#[test]
fn empty_events_feed() {
    let text = events_feed("Nothing", &vec![]);
    assert!(!text.contains("BEGIN:VEVENT"));
    assert!(text.ends_with("END:VCALENDAR\r\n"));
}

#[test]
fn article_entry_has_no_parameters() {
    let event = article_event(&news("e", "Quiet", 1));
    for key in ["SUMMARY", "DESCRIPTION", "URL", "UID", "DTSTART"] {
        assert!(event.properties().get(key).unwrap().params().is_empty());
    }
}
