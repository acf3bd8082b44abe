use chrono::{TimeZone, Utc};
use fuego::digest::{
    digest_calendar, digest_days, digest_description, digest_feed, digest_query, merge_digests,
    source_links, source_lookup, DEFAULT_DIGEST_DAYS, MAX_DIGEST_DAYS,
};
use fuego::model::{BucketWithSources, CalendarEventFull};
use fuego::text::{join_strings, push_decimal};
use icalendar::{CalendarComponent, Component, DatePerhapsTime};

fn at(y: i32, mo: u32, d: u32, h: u32, mi: u32) -> DatePerhapsTime {
    DatePerhapsTime::from(Utc.with_ymd_and_hms(y, mo, d, h, mi, 0).unwrap())
}

fn bucket(id: &str, theme: &str, summary: &str, sources: &[&str]) -> BucketWithSources {
    BucketWithSources {
        id: id.to_string(),
        summary: summary.to_string(),
        theme: theme.to_string(),
        begin_timestamp: at(2026, 9, 18, 0, 0),
        end_timestamp: at(2026, 9, 19, 23, 0),
        sources: sources.iter().map(|s| s.to_string()).collect(),
    }
}

fn article(id: &str, name: &str, url: &str) -> CalendarEventFull {
    CalendarEventFull {
        id: id.to_string(),
        name: name.to_string(),
        summary: format!("summary of {name}"),
        article_url: url.to_string(),
        timestamp: at(2026, 9, 19, 21, 15),
    }
}

fn ids(buckets: &[BucketWithSources]) -> Vec<String> {
    buckets.iter().map(|b| b.id.clone()).collect()
}

#[test]
fn days_default_to_seven() {
    assert_eq!(digest_days(None), 7);
    assert_eq!(DEFAULT_DIGEST_DAYS, 7);
}

#[test]
fn days_are_clamped() {
    assert_eq!(digest_days(Some(0)), 1);
    assert_eq!(digest_days(Some(1)), 1);
    assert_eq!(digest_days(Some(10)), 10);
    assert_eq!(digest_days(Some(31)), 31);
    assert_eq!(digest_days(Some(32)), MAX_DIGEST_DAYS);
    assert_eq!(digest_days(Some(u32::MAX)), 31);
}

#[test]
fn query_for_one_day() {
    assert_eq!(
        digest_query(1),
        "fn::get_daily_digest($themes, time::now() - 0d, $limit, $threshold);"
    );
}

#[test]
fn query_for_no_day_is_empty() {
    assert_eq!(digest_query(0), "");
}

#[test]
fn query_has_one_line_per_day() {
    let query = digest_query(12);
    let lines: Vec<&str> = query.split('\n').collect();
    assert_eq!(lines.len(), 12);
    for (i, line) in lines.iter().enumerate() {
        assert_eq!(
            *line,
            format!("fn::get_daily_digest($themes, time::now() - {i}d, $limit, $threshold);")
        );
    }
}

#[test]
fn decimal_numerals() {
    for n in [0u32, 7, 10, 31, 100, 4096, 1234567890, u32::MAX] {
        let mut out = String::from("n=");
        push_decimal(&mut out, n);
        assert_eq!(out, format!("n={n}"));
    }
}

#[test]
fn joining_lines() {
    let parts = vec!["a".to_string(), "bc".to_string(), "".to_string(), "d".to_string()];
    assert_eq!(join_strings(&parts, "\n"), "a\nbc\n\nd");
    assert_eq!(join_strings(&vec![], ", "), "");
    assert_eq!(join_strings(&vec!["x".to_string()], ", "), "x");
}

#[test]
fn merge_keeps_first_occurrence() {
    let today = vec![bucket("b1", "sports", "today", &[]), bucket("b2", "health", "today", &[])];
    let yesterday = vec![bucket("b2", "health", "yesterday", &[]), bucket("b3", "sports", "y", &[])];
    let earlier = vec![bucket("b1", "sports", "earlier", &[]), bucket("b4", "arts", "e", &[])];
    let merged = merge_digests(vec![today, yesterday, earlier]);
    assert_eq!(ids(&merged), vec!["b1", "b2", "b3", "b4"]);
    assert_eq!(merged[0].summary, "today");
    assert_eq!(merged[1].summary, "today");
}

#[test]
fn merge_of_nothing_is_empty() {
    assert!(merge_digests(vec![]).is_empty());
    assert!(merge_digests(vec![vec![], vec![]]).is_empty());
}

#[test]
fn merge_within_one_day() {
    let day = vec![bucket("a", "t", "1", &[]), bucket("a", "t", "2", &[]), bucket("b", "t", "3", &[])];
    let merged = merge_digests(vec![day]);
    assert_eq!(ids(&merged), vec!["a", "b"]);
    assert_eq!(merged[0].summary, "1");
}

#[test]
fn merging_twice_changes_nothing() {
    let days = vec![
        vec![bucket("x", "t", "1", &[]), bucket("y", "t", "2", &[])],
        vec![bucket("y", "t", "3", &[]), bucket("z", "t", "4", &[])],
    ];
    let once = merge_digests(days);
    let once_ids = ids(&once);
    let twice = merge_digests(vec![once]);
    assert_eq!(ids(&twice), once_ids);
}

#[test]
fn no_lookup_without_sources() {
    assert!(source_lookup(&vec![]).is_none());
    assert!(source_lookup(&vec![bucket("b1", "t", "s", &[]), bucket("b2", "t", "s", &[])]).is_none());
}

#[test]
fn lookup_names_each_source_once() {
    let buckets = vec![
        bucket("b1", "t", "s", &["e1", "e2", "e1"]),
        bucket("b2", "t", "s", &[]),
        bucket("b3", "t", "s", &["e3", "e2"]),
    ];
    assert_eq!(source_lookup(&buckets), Some(vec!["e1".to_string(), "e2".to_string(), "e3".to_string()]));
}

#[test]
fn links_skip_unknown_sources() {
    let events = vec![article("e1", "First", "https://a.example/1"), article("e2", "Second", "https://a.example/2")];
    let sources = vec!["e2".to_string(), "missing".to_string(), "e1".to_string()];
    assert_eq!(
        source_links(&sources, &events),
        vec!["- Second: https://a.example/2".to_string(), "- First: https://a.example/1".to_string()]
    );
}

#[test]
fn links_use_the_last_event_with_an_id() {
    let events = vec![article("e1", "Old", "https://old"), article("e1", "New", "https://new")];
    assert_eq!(source_links(&vec!["e1".to_string()], &events), vec!["- New: https://new".to_string()]);
}

#[test]
fn description_without_links_is_the_summary() {
    assert_eq!(digest_description(&"Quiet day.".to_string(), &vec![]), "Quiet day.");
}

#[test]
fn description_lists_the_links() {
    let links = vec!["- A: u1".to_string(), "- B: u2".to_string()];
    assert_eq!(
        digest_description(&"Busy day.".to_string(), &links),
        "Busy day.\n\nSources:\n- A: u1\n- B: u2"
    );
}

fn event_of(component: &CalendarComponent) -> &icalendar::Event {
    match component {
        CalendarComponent::Event(e) => e,
        _ => panic!("not an event"),
    }
}

#[test]
fn digest_calendar_entries() {
    let buckets = vec![
        bucket("bucket-sports_2026-09-19", "sports", "Match report.", &["e1", "nope"]),
        bucket("bucket-health_2026-09-19", "health", "Nothing new.", &[]),
    ];
    let events = vec![article("e1", "Final", "https://news.example/final")];
    let calendar = digest_calendar("My digest", &buckets, &events);
    assert_eq!(calendar.get_name(), Some("My digest"));
    assert_eq!(calendar.components.len(), 2);
    let first = event_of(&calendar.components[0]);
    assert_eq!(first.get_summary(), Some("sports digest"));
    assert_eq!(
        first.get_description(),
        Some("Match report.\n\nSources:\n- Final: https://news.example/final")
    );
    assert_eq!(first.get_uid(), Some("digest-bucket-sports_2026-09-19"));
    assert_eq!(first.property_value("DTSTART"), Some("20260919"));
    assert_eq!(first.property_value("DTEND"), Some("20260919"));
    assert_eq!(first.get_url(), None);
    let second = event_of(&calendar.components[1]);
    assert_eq!(second.get_summary(), Some("health digest"));
    assert_eq!(second.get_description(), Some("Nothing new."));
    assert_eq!(second.get_uid(), Some("digest-bucket-health_2026-09-19"));
}

#[test]
fn digest_calendar_properties() {
    let calendar = digest_calendar("T", &vec![], &vec![]);
    let props: Vec<(String, String)> = calendar
        .properties
        .iter()
        .map(|p| (p.key().to_string(), p.value().to_string()))
        .collect();
    let expected: Vec<(String, String)> = [
        ("VERSION", "2.0"),
        ("PRODID", "ICALENDAR-RS"),
        ("CALSCALE", "GREGORIAN"),
        ("NAME", "T"),
        ("X-WR-CALNAME", "T"),
    ]
    .iter()
    .map(|(k, v)| (k.to_string(), v.to_string()))
    .collect();
    assert_eq!(props, expected);
    assert!(calendar.components.is_empty());
}

#[test]
fn digest_feed_text() {
    let buckets = vec![bucket("b1", "sports", "Short.", &[])];
    let text = digest_feed("Sports", &buckets, &vec![]);
    assert!(text.starts_with("BEGIN:VCALENDAR\r\n"));
    assert!(text.contains("X-WR-CALNAME:Sports\r\n"));
    assert!(text.contains("SUMMARY:sports digest\r\n"));
    assert!(text.contains("UID:digest-b1\r\n"));
    assert!(text.contains("DTSTART;VALUE=DATE:20260919\r\n"));
    assert!(text.contains("DESCRIPTION:Short.\r\n"));
    assert!(text.ends_with("END:VCALENDAR\r\n"));
}

#[test]
fn merged_digest_feed_has_distinct_uids() {
    let days = vec![
        vec![bucket("a", "t", "1", &[]), bucket("b", "t", "2", &[])],
        vec![bucket("b", "t", "3", &[]), bucket("a", "t", "4", &[]), bucket("c", "t", "5", &[])],
    ];
    let merged = merge_digests(days);
    let calendar = digest_calendar("x", &merged, &vec![]);
    let uids: Vec<&str> = calendar.components.iter().map(|c| event_of(c).get_uid().unwrap()).collect();
    assert_eq!(uids, vec!["digest-a", "digest-b", "digest-c"]);
}

#[test]
fn digest_dates_carry_value_date() {
    let buckets = vec![bucket("b1", "sports", "Short.", &[])];
    let calendar = digest_calendar("x", &buckets, &vec![]);
    let entry = event_of(&calendar.components[0]);
    for key in ["DTSTART", "DTEND"] {
        let property = entry.properties().get(key).unwrap();
        let params: Vec<(String, String)> = property
            .params()
            .values()
            .map(|p| (p.key().to_string(), p.value().to_string()))
            .collect();
        assert_eq!(params, vec![("VALUE".to_string(), "DATE".to_string())]);
    }
    for key in ["SUMMARY", "DESCRIPTION", "UID"] {
        assert!(entry.properties().get(key).unwrap().params().is_empty());
    }
}
