//! The daily digest feed: how many days it covers, the query that fetches
//! one digest per day, the merging of those digests, the source events to
//! look up, and the calendar built from the merged buckets.
use crate::calendar::{
    all_day_text, calendar_component_parameters, calendar_components, calendar_properties,
    calendar_text, calendar_text_filled, date_value_parameters, default_calendar_properties,
    event_parameters, event_properties, new_calendar, new_event, no_parameters,
    no_properties, no_property_parameters, push_event, set_all_day, set_calendar_name,
    set_description, set_summary, set_uid,
};
use crate::laws::{
    description_holds_every_line, digest_description_lists_every_resolving_source,
    every_day_is_merged, every_source_is_looked_up, links_are_the_resolving_sources,
    looked_up_keys_are_sources, looked_up_sources_are_distinct_and_complete,
    merged_buckets_come_from_the_days, merged_ids_are_distinct, no_lookup_exactly_without_sources,
    resolved_line,
};
use crate::model::{BucketWithSources, CalendarEventFull};
use crate::text::{decimal, join, join_strings, push_decimal, texts, total_length};
use icalendar::{Calendar, Event};
use vstd::prelude::*;

verus! {

broadcast use vstd::seq_lib::group_seq_properties;

/// Days a digest feed covers when the request names none.
pub const DEFAULT_DIGEST_DAYS: u32 = 7;

/// The most days a digest feed covers.
pub const MAX_DIGEST_DAYS: u32 = 31;

/// The number of days a feed covers for the requested number: the default
/// when none is requested, otherwise the request clamped to `1..=31`.
pub open spec fn covered_days(requested: Option<u32>) -> u32 {
    let wanted = match requested {
        Some(d) => d,
        None => DEFAULT_DIGEST_DAYS,
    };
    if wanted < 1 {
        1
    } else if wanted > MAX_DIGEST_DAYS {
        MAX_DIGEST_DAYS
    } else {
        wanted
    }
}

/// How many days a digest feed covers.
pub fn digest_days(requested: Option<u32>) -> (days: u32)
    ensures
        days == covered_days(requested),
        1 <= days <= MAX_DIGEST_DAYS,
        requested is None ==> days == DEFAULT_DIGEST_DAYS,
        requested matches Some(d) ==> (1 <= d <= MAX_DIGEST_DAYS ==> days == d),
{
    let wanted = match requested {
        Some(d) => d,
        None => DEFAULT_DIGEST_DAYS,
    };
    if wanted < 1 {
        1
    } else if wanted > MAX_DIGEST_DAYS {
        MAX_DIGEST_DAYS
    } else {
        wanted
    }
}

/// The query statement for the digest `day` days before now.
pub open spec fn day_statement(day: nat) -> Seq<char> {
    "fn::get_daily_digest($themes, time::now() - "@ + decimal(day)
        + "d, $limit, $threshold);"@
}

/// The statements for days `0 .. days`, nearest first.
pub open spec fn day_statements(days: nat) -> Seq<Seq<char>> {
    Seq::new(days, |i: int| day_statement(i as nat))
}

/// The query for a feed of `days` days: one statement per day, one per line.
pub open spec fn digest_query_text(days: nat) -> Seq<char> {
    join(day_statements(days), "\n"@)
}

/// Writes the statement for the digest `day` days before now.
fn day_query(day: u32) -> (statement: String)
    ensures
        statement@ == day_statement(day as nat),
{
    let mut statement = String::from_str("fn::get_daily_digest($themes, time::now() - ");
    push_decimal(&mut statement, day);
    statement.append("d, $limit, $threshold);");
    statement
}

/// The query that fetches one digest per day, stepping back from now.
pub fn digest_query(days: u32) -> (query: String)
    ensures
        query@ == digest_query_text(days as nat),
{
    let mut statements: Vec<String> = Vec::new();
    let mut day: u32 = 0;
    while day < days
        invariant
            day <= days,
            texts(statements@) =~= day_statements(day as nat),
        decreases days - day,
    {
        let statement = day_query(day);
        let ghost before = statements@;
        statements.push(statement);
        assert(texts(statements@) =~= texts(before).push(day_statement(day as nat)));
        day = day + 1;
    }
    join_strings(&statements, "\n")
}

/// The ids of a sequence of buckets.
pub open spec fn bucket_ids(buckets: Seq<BucketWithSources>) -> Seq<Seq<char>> {
    buckets.map_values(|b: BucketWithSources| b.id@)
}

/// The buckets of all days, day after day.
pub open spec fn all_buckets(days: Seq<Vec<BucketWithSources>>) -> Seq<BucketWithSources>
    decreases days.len(),
{
    if days.len() == 0 {
        Seq::empty()
    } else {
        all_buckets(days.drop_last()) + days.last()@
    }
}

/// The buckets whose id does not occur earlier in `buckets`, in order: each
/// id is kept at its first occurrence.
pub open spec fn first_by_id(buckets: Seq<BucketWithSources>) -> Seq<BucketWithSources>
    decreases buckets.len(),
{
    if buckets.len() == 0 {
        Seq::empty()
    } else {
        let earlier = buckets.drop_last();
        if bucket_ids(earlier).contains(buckets.last().id@) {
            first_by_id(earlier)
        } else {
            first_by_id(earlier).push(buckets.last())
        }
    }
}

/// The merged digest of several days: the buckets of all days, nearest day
/// first, each bucket id kept once, at its first occurrence.
pub open spec fn merged_digest(days: Seq<Vec<BucketWithSources>>) -> Seq<BucketWithSources> {
    first_by_id(all_buckets(days))
}

/// An id occurs among the kept buckets exactly when it occurs in the input.
pub proof fn lemma_first_by_id_keeps_ids(buckets: Seq<BucketWithSources>, id: Seq<char>)
    ensures
        bucket_ids(first_by_id(buckets)).contains(id) == bucket_ids(buckets).contains(id),
    decreases buckets.len(),
{
    if buckets.len() > 0 {
        let earlier = buckets.drop_last();
        lemma_first_by_id_keeps_ids(earlier, id);
        lemma_first_by_id_keeps_ids(earlier, buckets.last().id@);
        assert(bucket_ids(buckets) =~= bucket_ids(earlier).push(buckets.last().id@));
        if !bucket_ids(earlier).contains(buckets.last().id@) {
            assert(bucket_ids(first_by_id(buckets)) =~= bucket_ids(first_by_id(earlier)).push(
                buckets.last().id@,
            ));
        }
    }
}

/// Whether `item` is among the texts of `items`.
fn contains_text(items: &Vec<String>, item: &String) -> (found: bool)
    ensures
        found == texts(items@).contains(item@),
{
    let mut i: usize = 0;
    while i < items.len()
        invariant
            i <= items.len(),
            forall|j: int| 0 <= j < i ==> items@[j]@ != item@,
        decreases items.len() - i,
    {
        if items[i] == *item {
            assert(texts(items@)[i as int] == item@);
            return true;
        }
        i = i + 1;
    }
    assert forall|j: int| 0 <= j < texts(items@).len() implies texts(items@)[j] != item@ by {
        assert(texts(items@)[j] == items@[j]@);
    }
    false
}

/// Merges the digests of several days, nearest day first, into one list of
/// buckets in which each bucket id occurs once: a bucket that shows up on
/// several days is kept where it first shows up.
pub fn merge_digests(digests: Vec<Vec<BucketWithSources>>) -> (merged: Vec<BucketWithSources>)
    ensures
        merged@ == merged_digest(digests@),
        bucket_ids(merged@).no_duplicates(),
        forall|d: int, k: int|
            0 <= d < digests@.len() && 0 <= k < digests@[d]@.len() ==> bucket_ids(
                merged@,
            ).contains(#[trigger] digests@[d]@[k].id@),
        forall|j: int|
            #![trigger merged@[j]]
            0 <= j < merged@.len() ==> exists|d: int, k: int|
                0 <= d < digests@.len() && 0 <= k < digests@[d]@.len() && digests@[d]@[k]
                    == merged@[j],
{
    let ghost days = digests@;
    let mut all: Vec<BucketWithSources> = Vec::new();
    for day in it: digests
        invariant
            it.seq() == days,
            all@ == all_buckets(days.take(it.index() as int)),
    {
        let ghost done = days.take(it.index() as int);
        assert(days.take(it.index() + 1).drop_last() =~= done);
        let mut day = day;
        all.append(&mut day);
    }
    assert(days.take(days.len() as int) =~= days);
    let ghost flat = all@;
    let mut seen: Vec<String> = Vec::new();
    let mut merged: Vec<BucketWithSources> = Vec::new();
    for bucket in it: all
        invariant
            it.seq() == flat,
            merged@ == first_by_id(flat.take(it.index() as int)),
            texts(seen@) == bucket_ids(merged@),
    {
        let ghost done = flat.take(it.index() as int);
        proof {
            assert(flat.take(it.index() + 1).drop_last() =~= done);
            lemma_first_by_id_keeps_ids(done, bucket.id@);
        }
        if !contains_text(&seen, &bucket.id) {
            let ghost before = merged@;
            seen.push(bucket.id.clone());
            merged.push(bucket);
            assert(bucket_ids(merged@) =~= bucket_ids(before).push(merged@.last().id@));
        }
    }
    assert(flat.take(flat.len() as int) =~= flat);
    proof {
        merged_ids_are_distinct(days);
        assert forall|d: int, k: int|
            0 <= d < days.len() && 0 <= k < days[d]@.len() implies bucket_ids(merged@).contains(
            #[trigger] days[d]@[k].id@,
        ) by {
            every_day_is_merged(days, d, k);
        }
        assert forall|j: int| #![trigger merged@[j]] 0 <= j < merged@.len() implies exists|
            d: int,
            k: int,
        | 0 <= d < days.len() && 0 <= k < days[d]@.len() && days[d]@[k] == merged@[j] by {
            merged_buckets_come_from_the_days(days, j);
        }
    }
    merged
}

/// The source keys of all buckets, bucket after bucket.
pub open spec fn all_sources(buckets: Seq<BucketWithSources>) -> Seq<Seq<char>>
    decreases buckets.len(),
{
    if buckets.len() == 0 {
        Seq::empty()
    } else {
        all_sources(buckets.drop_last()) + texts(buckets.last().sources@)
    }
}

/// The items that do not occur earlier in `items`, in order.
pub open spec fn first_occurrences(items: Seq<Seq<char>>) -> Seq<Seq<char>>
    decreases items.len(),
{
    if items.len() == 0 {
        Seq::empty()
    } else {
        let earlier = items.drop_last();
        if earlier.contains(items.last()) {
            first_occurrences(earlier)
        } else {
            first_occurrences(earlier).push(items.last())
        }
    }
}

/// The event keys to look up for a list of buckets: none when no bucket
/// names a source, otherwise each source key once, in order of first
/// mention.
pub open spec fn sources_to_look_up(buckets: Seq<BucketWithSources>) -> Option<Seq<Seq<char>>> {
    if all_sources(buckets).len() == 0 {
        None
    } else {
        Some(first_occurrences(all_sources(buckets)))
    }
}

/// The texts of an optional vector of strings.
pub open spec fn optional_texts(strings: Option<Vec<String>>) -> Option<Seq<Seq<char>>> {
    match strings {
        Some(v) => Some(texts(v@)),
        None => None,
    }
}

/// An item occurs among the first occurrences exactly when it occurs at all.
pub proof fn lemma_first_occurrences_keeps_items(items: Seq<Seq<char>>, item: Seq<char>)
    ensures
        first_occurrences(items).contains(item) == items.contains(item),
    decreases items.len(),
{
    if items.len() > 0 {
        let earlier = items.drop_last();
        lemma_first_occurrences_keeps_items(earlier, item);
        lemma_first_occurrences_keeps_items(earlier, items.last());
        assert(items =~= earlier.push(items.last()));
    }
}

/// Appends to `ids` each of `sources` that it does not hold yet, where `ids`
/// holds the first occurrences of `seen`.
fn add_new_sources(ids: &mut Vec<String>, sources: &Vec<String>, Ghost(seen): Ghost<Seq<Seq<char>>>)
    requires
        texts(old(ids)@) == first_occurrences(seen),
    ensures
        texts(final(ids)@) == first_occurrences(seen + texts(sources@)),
{
    let mut j: usize = 0;
    while j < sources.len()
        invariant
            j <= sources.len(),
            texts(ids@) == first_occurrences(seen + texts(sources@).take(j as int)),
        decreases sources.len() - j,
    {
        let ghost seen_items = seen + texts(sources@).take(j as int);
        let ghost next = seen + texts(sources@).take(j + 1);
        proof {
            assert(next =~= seen_items.push(sources@[j as int]@));
            assert(next.drop_last() =~= seen_items);
            lemma_first_occurrences_keeps_items(seen_items, sources@[j as int]@);
        }
        if !contains_text(ids, &sources[j]) {
            let ghost old_ids = ids@;
            ids.push(sources[j].clone());
            assert(texts(ids@) =~= texts(old_ids).push(sources@[j as int]@));
        }
        j = j + 1;
    }
    assert(texts(sources@).take(sources.len() as int) =~= texts(sources@));
}

/// Each source key of the buckets once, in order of first mention.
fn source_keys(buckets: &Vec<BucketWithSources>) -> (ids: Vec<String>)
    ensures
        texts(ids@) == first_occurrences(all_sources(buckets@)),
{
    let mut ids: Vec<String> = Vec::new();
    let mut i: usize = 0;
    while i < buckets.len()
        invariant
            i <= buckets.len(),
            texts(ids@) == first_occurrences(all_sources(buckets@.take(i as int))),
        decreases buckets.len() - i,
    {
        add_new_sources(&mut ids, &buckets[i].sources, Ghost(all_sources(buckets@.take(i as int))));
        assert(buckets@.take(i + 1).drop_last() =~= buckets@.take(i as int));
        i = i + 1;
    }
    assert(buckets@.take(buckets.len() as int) =~= buckets@);
    ids
}

/// The event keys that the digest feed has to look up: `None` when the
/// buckets name no source, so that no lookup is made.
pub fn source_lookup(buckets: &Vec<BucketWithSources>) -> (ids: Option<Vec<String>>)
    ensures
        optional_texts(ids) == sources_to_look_up(buckets@),
        ids is None <==> forall|b: int|
            0 <= b < buckets@.len() ==> #[trigger] buckets@[b].sources@.len() == 0,
        forall|b: int, k: int|
            0 <= b < buckets@.len() && 0 <= k < buckets@[b].sources@.len() ==> (ids matches Some(v)
                && texts(v@).contains(#[trigger] buckets@[b].sources@[k]@)),
        ids matches Some(v) ==> texts(v@).no_duplicates(),
        ids matches Some(v) ==> forall|i: int|
            #![trigger v@[i]]
            0 <= i < v@.len() ==> exists|b: int, k: int|
                0 <= b < buckets@.len() && 0 <= k < buckets@[b].sources@.len()
                    && buckets@[b].sources@[k]@ == v@[i]@,
{
    let ids = source_keys(buckets);
    proof {
        let all = all_sources(buckets@);
        if all.len() > 0 {
            lemma_first_occurrences_keeps_items(all, all[0]);
            assert(all.contains(all[0]));
        }
    }
    proof {
        no_lookup_exactly_without_sources(buckets@);
        assert forall|b: int, k: int|
            0 <= b < buckets@.len() && 0 <= k < buckets@[b].sources@.len() implies texts(
            ids@,
        ).contains(#[trigger] buckets@[b].sources@[k]@) by {
            every_source_is_looked_up(buckets@, b, k);
        }
        if ids.len() > 0 {
            looked_up_sources_are_distinct_and_complete(buckets@, Seq::empty());
            assert forall|i: int| #![trigger ids@[i]] 0 <= i < ids@.len() implies exists|
                b: int,
                k: int,
            | 0 <= b < buckets@.len() && 0 <= k < buckets@[b].sources@.len()
                && buckets@[b].sources@[k]@ == ids@[i]@ by {
                assert(texts(ids@)[i] == ids@[i]@);
                looked_up_keys_are_sources(buckets@, ids@[i]@);
            }
        }
    }
    if ids.len() == 0 {
        None
    } else {
        Some(ids)
    }
}

/// The last event with the given id: the one that a lookup of events by id
/// finds when later events replace earlier ones with the same id.
pub open spec fn event_with_id(events: Seq<CalendarEventFull>, id: Seq<char>) -> Option<
    CalendarEventFull,
>
    decreases events.len(),
{
    if events.len() == 0 {
        None
    } else if events.last().id@ == id {
        Some(events.last())
    } else {
        event_with_id(events.drop_last(), id)
    }
}

/// The line that lists one source event in a digest description.
pub open spec fn source_link(event: CalendarEventFull) -> Seq<char> {
    "- "@ + event.name@ + ": "@ + event.article_url@
}

/// The links of the sources that resolve to an event, in the order of the
/// sources; a source without an event gets no link.
pub open spec fn links_of(sources: Seq<Seq<char>>, events: Seq<CalendarEventFull>) -> Seq<
    Seq<char>,
>
    decreases sources.len(),
{
    if sources.len() == 0 {
        Seq::empty()
    } else {
        let earlier = links_of(sources.drop_last(), events);
        match event_with_id(events, sources.last()) {
            Some(event) => earlier.push(source_link(event)),
            None => earlier,
        }
    }
}

/// Finds the last event with the given id.
fn find_event(events: &Vec<CalendarEventFull>, id: &String) -> (found: Option<usize>)
    ensures
        match found {
            Some(k) => k < events.len() && event_with_id(events@, id@) == Some(events@[k as int]),
            None => event_with_id(events@, id@) is None,
        },
{
    let mut k: usize = events.len();
    while k > 0
        invariant
            k <= events.len(),
            event_with_id(events@, id@) == event_with_id(events@.take(k as int), id@),
        decreases k,
    {
        assert(events@.take(k as int).drop_last() =~= events@.take(k - 1));
        if events[k - 1].id == *id {
            return Some(k - 1);
        }
        k = k - 1;
    }
    None
}

/// The source lines of a digest entry: one per source that resolves to an
/// event, naming the event and the link to its article.
pub fn source_links(sources: &Vec<String>, events: &Vec<CalendarEventFull>) -> (links: Vec<
    String,
>)
    ensures
        texts(links@) == links_of(texts(sources@), events@),
        texts(links@) == texts(sources@).filter(
            |s: Seq<char>| event_with_id(events@, s) is Some,
        ).map_values(|s: Seq<char>| resolved_line(events@, s)),
{
    let mut links: Vec<String> = Vec::new();
    let mut j: usize = 0;
    while j < sources.len()
        invariant
            j <= sources.len(),
            texts(links@) == links_of(texts(sources@).take(j as int), events@),
        decreases sources.len() - j,
    {
        assert(texts(sources@).take(j + 1).drop_last() =~= texts(sources@).take(j as int));
        match find_event(events, &sources[j]) {
            Some(k) => {
                let event = &events[k];
                let mut link = String::from_str("- ");
                link.append(event.name.as_str());
                link.append(": ");
                link.append(event.article_url.as_str());
                let ghost before = links@;
                links.push(link);
                assert(texts(links@) =~= texts(before).push(source_link(*event)));
            },
            None => {},
        }
        j = j + 1;
    }
    assert(texts(sources@).take(sources.len() as int) =~= texts(sources@));
    proof {
        links_are_the_resolving_sources(texts(sources@), events@);
    }
    links
}

/// The description of a digest entry: its summary, followed by its source
/// lines when there are any.
pub open spec fn description_text(summary: Seq<char>, links: Seq<Seq<char>>) -> Seq<char> {
    if links.len() == 0 {
        summary
    } else {
        summary + "\n\nSources:\n"@ + join(links, "\n"@)
    }
}

/// Writes the description of a digest entry.
pub fn digest_description(summary: &String, links: &Vec<String>) -> (description: String)
    ensures
        description@ == description_text(summary@, texts(links@)),
        links@.len() == 0 ==> description@ == summary@,
        links@.len() > 0 ==> description@ == summary@ + "\n\nSources:\n"@ + links@[0]@ + texts(
            links@,
        ).drop_first().map_values(|p: Seq<char>| "\n"@ + p).flatten(),
        links@.len() > 0 ==> description@.len() == summary@.len() + 11 + total_length(texts(links@))
            + links@.len() - 1,
{
    proof {
        description_holds_every_line(summary@, texts(links@));
    }
    let mut description = summary.clone();
    if links.len() > 0 {
        description.append("\n\nSources:\n");
        let joined = join_strings(links, "\n");
        description.append(joined.as_str());
    }
    description
}

/// The properties of the calendar entry for a digest bucket: a summary
/// naming the theme, the description with the source lines, an id derived
/// from the bucket id, and the all-day date of the end of the bucket.
pub open spec fn digest_entry(bucket: BucketWithSources, events: Seq<CalendarEventFull>) -> Map<
    Seq<char>,
    Seq<char>,
> {
    no_properties().insert("SUMMARY"@, bucket.theme@ + " digest"@).insert(
        "DESCRIPTION"@,
        description_text(bucket.summary@, links_of(texts(bucket.sources@), events)),
    ).insert("UID"@, "digest-"@ + bucket.id@).insert(
        "DTSTART"@,
        all_day_text(bucket.end_timestamp),
    ).insert("DTEND"@, all_day_text(bucket.end_timestamp))
}

/// The parameters of the properties of a digest entry: the dates carry
/// `VALUE=DATE`, the other properties no parameter.
pub open spec fn digest_entry_parameters() -> Map<Seq<char>, Map<Seq<char>, Seq<char>>> {
    no_property_parameters().insert("SUMMARY"@, no_parameters()).insert(
        "DESCRIPTION"@,
        no_parameters(),
    ).insert("UID"@, no_parameters()).insert("DTSTART"@, date_value_parameters()).insert(
        "DTEND"@,
        date_value_parameters(),
    )
}

/// The top-level properties of a feed titled `title`.
pub open spec fn titled_properties(title: Seq<char>) -> Seq<(Seq<char>, Seq<char>)> {
    default_calendar_properties().push(("NAME"@, title)).push(("X-WR-CALNAME"@, title))
}

/// The calendar entry for one digest bucket.
pub fn digest_event(bucket: &BucketWithSources, events: &Vec<CalendarEventFull>) -> (event: Event)
    ensures
        event_properties(event) == digest_entry(*bucket, events@),
        event_parameters(event) == digest_entry_parameters(),
        ({
            let lines = texts(bucket.sources@).filter(
                |s: Seq<char>| event_with_id(events@, s) is Some,
            ).map_values(|s: Seq<char>| resolved_line(events@, s));
            &&& lines.len() == 0 ==> event_properties(event)["DESCRIPTION"@] == bucket.summary@
            &&& lines.len() > 0 ==> event_properties(event)["DESCRIPTION"@] == bucket.summary@
                + "\n\nSources:\n"@ + lines[0] + lines.drop_first().map_values(
                |p: Seq<char>| "\n"@ + p,
            ).flatten()
        }),
{
    proof {
        digest_description_lists_every_resolving_source(*bucket, events@);
    }
    let links = source_links(&bucket.sources, events);
    let description = digest_description(&bucket.summary, &links);
    let mut summary = bucket.theme.clone();
    summary.append(" digest");
    let mut uid = String::from_str("digest-");
    uid.append(bucket.id.as_str());
    let mut event = new_event();
    set_summary(&mut event, summary.as_str());
    set_description(&mut event, description.as_str());
    set_uid(&mut event, uid.as_str());
    set_all_day(&mut event, &bucket.end_timestamp);
    event
}

/// The digest calendar: titled `title`, with one entry per bucket, in order.
pub fn digest_calendar(title: &str, buckets: &Vec<BucketWithSources>, events: &Vec<
    CalendarEventFull,
>) -> (calendar: Calendar)
    ensures
        calendar_properties(calendar) == titled_properties(title@),
        calendar_components(calendar) == buckets@.map_values(
            |b: BucketWithSources| digest_entry(b, events@),
        ),
        calendar_component_parameters(calendar) == buckets@.map_values(
            |b: BucketWithSources| digest_entry_parameters(),
        ),
{
    let mut calendar = new_calendar();
    set_calendar_name(&mut calendar, title);
    let mut i: usize = 0;
    while i < buckets.len()
        invariant
            i <= buckets.len(),
            calendar_properties(calendar) == titled_properties(title@),
            calendar_components(calendar) == buckets@.take(i as int).map_values(
                |b: BucketWithSources| digest_entry(b, events@),
            ),
            calendar_component_parameters(calendar) == buckets@.take(i as int).map_values(
                |b: BucketWithSources| digest_entry_parameters(),
            ),
        decreases buckets.len() - i,
    {
        let event = digest_event(&buckets[i], events);
        push_event(&mut calendar, event);
        assert(buckets@.take(i + 1).map_values(|b: BucketWithSources| digest_entry(b, events@))
            =~= buckets@.take(i as int).map_values(
            |b: BucketWithSources| digest_entry(b, events@),
        ).push(digest_entry(buckets@[i as int], events@)));
        assert(buckets@.take(i + 1).map_values(|b: BucketWithSources| digest_entry_parameters())
            =~= buckets@.take(i as int).map_values(
            |b: BucketWithSources| digest_entry_parameters(),
        ).push(digest_entry_parameters()));
        i = i + 1;
    }
    assert(buckets@.take(buckets.len() as int) =~= buckets@);
    calendar
}

/// The iCalendar text of the digest feed: the text that `icalendar` writes
/// for a calendar titled `title` with one entry per bucket, as
/// `digest_calendar` builds it.
pub fn digest_feed(title: &str, buckets: &Vec<BucketWithSources>, events: &Vec<CalendarEventFull>) -> (text: String)
    ensures
        exists|calendar: Calendar, fills: Seq<Seq<char>>|
            #![trigger calendar_text_filled(calendar, fills)]
            calendar_properties(calendar) == titled_properties(title@)
                && calendar_components(calendar) == buckets@.map_values(
                |b: BucketWithSources| digest_entry(b, events@),
            ) && calendar_component_parameters(calendar) == buckets@.map_values(
                |b: BucketWithSources| digest_entry_parameters(),
            )
                && text@ == calendar_text_filled(calendar, fills),
{
    let calendar = digest_calendar(title, buckets, events);
    let text = calendar_text(&calendar);
    proof {
        let fills = choose|fills: Seq<Seq<char>>| text@ == calendar_text_filled(calendar, fills);
        assert(text@ == calendar_text_filled(calendar, fills));
    }
    text
}

} // verus!
