//! What holds of the digest feed across its steps.
use crate::digest::{
    all_buckets, all_sources, bucket_ids, description_text, digest_entry, event_with_id,
    first_by_id, first_occurrences, lemma_first_by_id_keeps_ids,
    lemma_first_occurrences_keeps_items, links_of, merged_digest, sources_to_look_up,
};
use crate::model::{BucketWithSources, CalendarEventFull};
use crate::text::{join, join_is_separated_concatenation, join_length, texts, total_length};
use vstd::prelude::*;

verus! {

broadcast use vstd::seq_lib::group_seq_properties;

/// The kept buckets have pairwise different ids.
proof fn lemma_first_by_id_distinct(buckets: Seq<BucketWithSources>)
    ensures
        bucket_ids(first_by_id(buckets)).no_duplicates(),
    decreases buckets.len(),
{
    if buckets.len() > 0 {
        let earlier = buckets.drop_last();
        lemma_first_by_id_distinct(earlier);
        lemma_first_by_id_keeps_ids(earlier, buckets.last().id@);
        if !bucket_ids(earlier).contains(buckets.last().id@) {
            assert(bucket_ids(first_by_id(buckets)) =~= bucket_ids(first_by_id(earlier)).push(
                buckets.last().id@,
            ));
        }
    }
}

/// Buckets whose ids are pairwise different are all kept, in order.
proof fn lemma_first_by_id_of_distinct(buckets: Seq<BucketWithSources>)
    requires
        bucket_ids(buckets).no_duplicates(),
    ensures
        first_by_id(buckets) == buckets,
    decreases buckets.len(),
{
    if buckets.len() > 0 {
        let earlier = buckets.drop_last();
        assert(bucket_ids(earlier) =~= bucket_ids(buckets).drop_last());
        lemma_first_by_id_of_distinct(earlier);
        if bucket_ids(earlier).contains(buckets.last().id@) {
            let k = choose|k: int| 0 <= k < earlier.len() && bucket_ids(earlier)[k] == buckets.last().id@;
            assert(bucket_ids(buckets)[k] == bucket_ids(buckets)[buckets.len() - 1]);
        }
        assert(buckets =~= earlier.push(buckets.last()));
    }
}

/// Each kept bucket is a bucket of the input at a position where its id
/// occurs for the first time.
proof fn lemma_first_by_id_first_occurrence(buckets: Seq<BucketWithSources>)
    ensures
        forall|k: int|
            #![trigger first_by_id(buckets)[k]]
            0 <= k < first_by_id(buckets).len() ==> exists|j: int|
                0 <= j < buckets.len() && buckets[j] == first_by_id(buckets)[k] && forall|i: int|
                    0 <= i < j ==> #[trigger] buckets[i].id@ != buckets[j].id@,
    decreases buckets.len(),
{
    if buckets.len() > 0 {
        let earlier = buckets.drop_last();
        lemma_first_by_id_first_occurrence(earlier);
        let kept = first_by_id(buckets);
        assert forall|k: int| #![trigger kept[k]] 0 <= k < kept.len() implies exists|j: int|
            0 <= j < buckets.len() && buckets[j] == kept[k] && forall|i: int|
                0 <= i < j ==> #[trigger] buckets[i].id@ != buckets[j].id@ by {
            if k < first_by_id(earlier).len() {
                assert(kept[k] == first_by_id(earlier)[k]);
                let j = choose|j: int|
                    0 <= j < earlier.len() && earlier[j] == first_by_id(earlier)[k] && forall|i: int|
                        0 <= i < j ==> #[trigger] earlier[i].id@ != earlier[j].id@;
                assert(buckets[j] == earlier[j]);
                assert forall|i: int| 0 <= i < j implies #[trigger] buckets[i].id@ != buckets[j].id@ by {
                    assert(buckets[i] == earlier[i]);
                }
            } else {
                let j = buckets.len() - 1;
                assert(kept[k] == buckets[j]);
                assert forall|i: int| 0 <= i < j implies #[trigger] buckets[i].id@ != buckets[j].id@ by {
                    assert(bucket_ids(earlier)[i] == buckets[i].id@);
                }
            }
        }
    }
}

/// A merged digest holds each bucket id at most once.
pub proof fn merged_ids_are_distinct(days: Seq<Vec<BucketWithSources>>)
    ensures
        bucket_ids(merged_digest(days)).no_duplicates(),
{
    lemma_first_by_id_distinct(all_buckets(days));
}

/// A merged digest holds every bucket id that occurs on any of its days, and
/// no other.
pub proof fn merged_ids_are_complete(days: Seq<Vec<BucketWithSources>>, id: Seq<char>)
    ensures
        bucket_ids(merged_digest(days)).contains(id) == bucket_ids(all_buckets(days)).contains(id),
{
    lemma_first_by_id_keeps_ids(all_buckets(days), id);
}

/// Each bucket of a merged digest is the first bucket with its id among the
/// buckets of all days, nearest day first.
pub proof fn merged_buckets_are_first_occurrences(days: Seq<Vec<BucketWithSources>>)
    ensures
        forall|k: int|
            #![trigger merged_digest(days)[k]]
            0 <= k < merged_digest(days).len() ==> exists|j: int|
                0 <= j < all_buckets(days).len() && all_buckets(days)[j] == merged_digest(days)[k]
                    && forall|i: int|
                    0 <= i < j ==> #[trigger] all_buckets(days)[i].id@ != all_buckets(days)[j].id@,
{
    lemma_first_by_id_first_occurrence(all_buckets(days));
}

/// Merging a merged digest again (as the only day) changes nothing.
pub proof fn merging_is_idempotent(days: Seq<Vec<BucketWithSources>>)
    ensures
        first_by_id(merged_digest(days)) == merged_digest(days),
{
    lemma_first_by_id_distinct(all_buckets(days));
    lemma_first_by_id_of_distinct(merged_digest(days));
}

/// Two texts with the same prefix are equal only when the rests are.
proof fn lemma_prefix_cancels(prefix: Seq<char>, a: Seq<char>, b: Seq<char>)
    requires
        prefix + a == prefix + b,
    ensures
        a == b,
{
    assert((prefix + a).subrange(prefix.len() as int, (prefix + a).len() as int) =~= a);
    assert((prefix + b).subrange(prefix.len() as int, (prefix + b).len() as int) =~= b);
}

/// The entries of a digest feed built from a merged digest have pairwise
/// different UIDs.
pub proof fn merged_digest_uids_are_distinct(
    days: Seq<Vec<BucketWithSources>>,
    events: Seq<CalendarEventFull>,
)
    ensures
        forall|i: int, j: int|
            0 <= i < merged_digest(days).len() && 0 <= j < merged_digest(days).len() && i != j
                ==> #[trigger] digest_entry(merged_digest(days)[i], events)["UID"@]
                != #[trigger] digest_entry(merged_digest(days)[j], events)["UID"@],
{
    let merged = merged_digest(days);
    merged_ids_are_distinct(days);
    assert forall|i: int, j: int|
        0 <= i < merged.len() && 0 <= j < merged.len() && i != j implies #[trigger] digest_entry(
        merged[i],
        events,
    )["UID"@] != #[trigger] digest_entry(merged[j], events)["UID"@] by {
        assert(bucket_ids(merged)[i] != bucket_ids(merged)[j]);
        reveal_strlit("UID");
        reveal_strlit("DTSTART");
        reveal_strlit("DTEND");
        assert("UID"@ != "DTSTART"@ && "UID"@ != "DTEND"@) by {
            assert("UID"@[0] != "DTSTART"@[0]);
            assert("UID"@[0] != "DTEND"@[0]);
        }
        assert(digest_entry(merged[i], events)["UID"@] == "digest-"@ + merged[i].id@);
        assert(digest_entry(merged[j], events)["UID"@] == "digest-"@ + merged[j].id@);
        if digest_entry(merged[i], events)["UID"@] == digest_entry(merged[j], events)["UID"@] {
            lemma_prefix_cancels("digest-"@, merged[i].id@, merged[j].id@);
        }
    }
}

/// The event keys to look up are pairwise different, and they are exactly
/// the keys that the buckets name as sources.
pub proof fn looked_up_sources_are_distinct_and_complete(
    buckets: Seq<BucketWithSources>,
    key: Seq<char>,
)
    ensures
        sources_to_look_up(buckets) matches Some(ids) ==> ids.no_duplicates() && (ids.contains(key)
            == all_sources(buckets).contains(key)),
        sources_to_look_up(buckets) is None ==> !all_sources(buckets).contains(key),
{
    lemma_first_occurrences_distinct(all_sources(buckets));
    lemma_first_occurrences_keeps_items(all_sources(buckets), key);
}

/// The first occurrences are pairwise different.
proof fn lemma_first_occurrences_distinct(items: Seq<Seq<char>>)
    ensures
        first_occurrences(items).no_duplicates(),
    decreases items.len(),
{
    if items.len() > 0 {
        let earlier = items.drop_last();
        lemma_first_occurrences_distinct(earlier);
        lemma_first_occurrences_keeps_items(earlier, items.last());
    }
}

/// Whether some source resolves to an event.
pub open spec fn some_source_resolves(sources: Seq<Seq<char>>, events: Seq<CalendarEventFull>) -> bool {
    exists|k: int| 0 <= k < sources.len() && #[trigger] event_with_id(events, sources[k]) is Some
}

/// A source list has links exactly when one of its sources resolves to an
/// event.
proof fn lemma_links_exist(sources: Seq<Seq<char>>, events: Seq<CalendarEventFull>)
    ensures
        (links_of(sources, events).len() > 0) == some_source_resolves(sources, events),
    decreases sources.len(),
{
    if sources.len() > 0 {
        let earlier = sources.drop_last();
        lemma_links_exist(earlier, events);
        if some_source_resolves(earlier, events) {
            let k = choose|k: int| 0 <= k < earlier.len() && #[trigger] event_with_id(events, earlier[k]) is Some;
            assert(sources[k] == earlier[k]);
        }
        if some_source_resolves(sources, events) {
            let k = choose|k: int| 0 <= k < sources.len() && #[trigger] event_with_id(events, sources[k]) is Some;
            if k < earlier.len() {
                assert(earlier[k] == sources[k]);
            }
        }
    }
}

/// The description of a digest entry is its bare summary exactly when none
/// of its sources resolves to an event; otherwise it starts with the summary
/// and goes on with the source lines.
pub proof fn description_is_summary_without_resolved_sources(
    bucket: BucketWithSources,
    events: Seq<CalendarEventFull>,
)
    ensures
        !some_source_resolves(texts(bucket.sources@), events) ==> description_text(
            bucket.summary@,
            links_of(texts(bucket.sources@), events),
        ) == bucket.summary@,
        some_source_resolves(texts(bucket.sources@), events) ==> description_text(
            bucket.summary@,
            links_of(texts(bucket.sources@), events),
        ).len() > bucket.summary@.len() && description_text(
            bucket.summary@,
            links_of(texts(bucket.sources@), events),
        ).subrange(0, bucket.summary@.len() as int) == bucket.summary@,
{
    lemma_links_exist(texts(bucket.sources@), events);
    let links = links_of(texts(bucket.sources@), events);
    if links.len() > 0 {
        let d = description_text(bucket.summary@, links);
        assert(d.subrange(0, bucket.summary@.len() as int) =~= bucket.summary@);
        reveal_strlit("\n\nSources:\n");
    }
}

/// The buckets that a merge goes over are those of every day, day after
/// day: the flattening of the days.
pub proof fn merge_goes_over_every_day(days: Seq<Vec<BucketWithSources>>)
    ensures
        all_buckets(days) == days.map_values(|v: Vec<BucketWithSources>| v@).flatten(),
    decreases days.len(),
{
    broadcast use Seq::group_seq_flatten;

    if days.len() > 0 {
        let earlier = days.drop_last();
        merge_goes_over_every_day(earlier);
        let f = |v: Vec<BucketWithSources>| v@;
        assert(days.map_values(f) =~= earlier.map_values(f).push(days.last()@));
        earlier.map_values(f).lemma_flatten_push(days.last()@);
    } else {
        assert(days.map_values(|v: Vec<BucketWithSources>| v@) =~= Seq::<Seq<BucketWithSources>>::empty());
    }
}

/// A bucket of any day is among the buckets that a merge goes over.
proof fn lemma_day_bucket_is_gone_over(days: Seq<Vec<BucketWithSources>>, d: int, k: int)
    requires
        0 <= d < days.len(),
        0 <= k < days[d]@.len(),
    ensures
        all_buckets(days).contains(days[d]@[k]),
    decreases days.len(),
{
    let earlier = days.drop_last();
    let before = all_buckets(earlier);
    if d == days.len() - 1 {
        assert(all_buckets(days)[before.len() + k] == days[d]@[k]);
    } else {
        lemma_day_bucket_is_gone_over(earlier, d, k);
        assert(earlier[d] == days[d]);
        let i = choose|i: int| 0 <= i < before.len() && before[i] == days[d]@[k];
        assert(all_buckets(days)[i] == before[i]);
    }
}

/// Each bucket that a merge goes over is a bucket of one of the days.
proof fn lemma_gone_over_bucket_is_from_a_day(days: Seq<Vec<BucketWithSources>>, x: BucketWithSources)
    requires
        all_buckets(days).contains(x),
    ensures
        exists|d: int, k: int| 0 <= d < days.len() && 0 <= k < days[d]@.len() && days[d]@[k] == x,
    decreases days.len(),
{
    let earlier = days.drop_last();
    let before = all_buckets(earlier);
    let i = choose|i: int| 0 <= i < all_buckets(days).len() && all_buckets(days)[i] == x;
    if i < before.len() {
        assert(before[i] == x);
        lemma_gone_over_bucket_is_from_a_day(earlier, x);
        let (d, k) = choose|d: int, k: int|
            0 <= d < earlier.len() && 0 <= k < earlier[d]@.len() && earlier[d]@[k] == x;
        assert(days[d] == earlier[d]);
    } else {
        let d = days.len() - 1;
        assert(days[d]@[i - before.len()] == x);
    }
}

/// The kept buckets are buckets of the input.
proof fn lemma_first_by_id_keeps_only_input(buckets: Seq<BucketWithSources>, x: BucketWithSources)
    requires
        first_by_id(buckets).contains(x),
    ensures
        buckets.contains(x),
    decreases buckets.len(),
{
    let earlier = buckets.drop_last();
    if buckets.len() > 0 {
        if first_by_id(earlier).contains(x) {
            lemma_first_by_id_keeps_only_input(earlier, x);
            let i = choose|i: int| 0 <= i < earlier.len() && earlier[i] == x;
            assert(buckets[i] == x);
        } else {
            assert(buckets[buckets.len() - 1] == x);
        }
    }
}

/// Every bucket id that occurs on any day of a merge occurs in the merged
/// digest, however many days there are.
pub proof fn every_day_is_merged(days: Seq<Vec<BucketWithSources>>, d: int, k: int)
    requires
        0 <= d < days.len(),
        0 <= k < days[d]@.len(),
    ensures
        bucket_ids(merged_digest(days)).contains(days[d]@[k].id@),
{
    lemma_day_bucket_is_gone_over(days, d, k);
    let all = all_buckets(days);
    let i = choose|i: int| 0 <= i < all.len() && all[i] == days[d]@[k];
    assert(bucket_ids(all)[i] == days[d]@[k].id@);
    lemma_first_by_id_keeps_ids(all, days[d]@[k].id@);
}

/// Every bucket of a merged digest is a bucket of one of the days.
pub proof fn merged_buckets_come_from_the_days(days: Seq<Vec<BucketWithSources>>, j: int)
    requires
        0 <= j < merged_digest(days).len(),
    ensures
        exists|d: int, k: int|
            0 <= d < days.len() && 0 <= k < days[d]@.len() && days[d]@[k] == merged_digest(days)[j],
{
    let x = merged_digest(days)[j];
    assert(merged_digest(days).contains(x));
    lemma_first_by_id_keeps_only_input(all_buckets(days), x);
    lemma_gone_over_bucket_is_from_a_day(days, x);
}

/// The keys that a lookup goes over are the sources of every bucket, bucket
/// after bucket.
pub proof fn lookup_goes_over_every_source(buckets: Seq<BucketWithSources>)
    ensures
        all_sources(buckets) == buckets.map_values(|b: BucketWithSources| texts(b.sources@)).flatten(),
    decreases buckets.len(),
{
    broadcast use Seq::group_seq_flatten;

    if buckets.len() > 0 {
        let earlier = buckets.drop_last();
        lookup_goes_over_every_source(earlier);
        let f = |b: BucketWithSources| texts(b.sources@);
        assert(buckets.map_values(f) =~= earlier.map_values(f).push(texts(buckets.last().sources@)));
        earlier.map_values(f).lemma_flatten_push(texts(buckets.last().sources@));
    } else {
        assert(buckets.map_values(|b: BucketWithSources| texts(b.sources@)) =~= Seq::<Seq<Seq<char>>>::empty());
    }
}

/// A source of any bucket is among the keys that a lookup goes over.
proof fn lemma_bucket_source_is_gone_over(buckets: Seq<BucketWithSources>, b: int, k: int)
    requires
        0 <= b < buckets.len(),
        0 <= k < buckets[b].sources@.len(),
    ensures
        all_sources(buckets).contains(buckets[b].sources@[k]@),
    decreases buckets.len(),
{
    let earlier = buckets.drop_last();
    let before = all_sources(earlier);
    if b == buckets.len() - 1 {
        assert(all_sources(buckets)[before.len() + k] == buckets[b].sources@[k]@);
    } else {
        lemma_bucket_source_is_gone_over(earlier, b, k);
        assert(earlier[b] == buckets[b]);
        let i = choose|i: int| 0 <= i < before.len() && before[i] == buckets[b].sources@[k]@;
        assert(all_sources(buckets)[i] == before[i]);
    }
}

/// Each key that a lookup goes over is a source of one of the buckets.
proof fn lemma_gone_over_key_is_a_source(buckets: Seq<BucketWithSources>, x: Seq<char>)
    requires
        all_sources(buckets).contains(x),
    ensures
        exists|b: int, k: int|
            0 <= b < buckets.len() && 0 <= k < buckets[b].sources@.len() && buckets[b].sources@[k]@
                == x,
    decreases buckets.len(),
{
    let earlier = buckets.drop_last();
    let before = all_sources(earlier);
    let i = choose|i: int| 0 <= i < all_sources(buckets).len() && all_sources(buckets)[i] == x;
    if i < before.len() {
        assert(before[i] == x);
        lemma_gone_over_key_is_a_source(earlier, x);
        let (b, k) = choose|b: int, k: int|
            0 <= b < earlier.len() && 0 <= k < earlier[b].sources@.len() && earlier[b].sources@[k]@
                == x;
        assert(buckets[b] == earlier[b]);
    } else {
        let b = buckets.len() - 1;
        assert(buckets[b].sources@[i - before.len()]@ == x);
    }
}

/// Every source of every bucket is looked up.
pub proof fn every_source_is_looked_up(buckets: Seq<BucketWithSources>, b: int, k: int)
    requires
        0 <= b < buckets.len(),
        0 <= k < buckets[b].sources@.len(),
    ensures
        sources_to_look_up(buckets) matches Some(ids) && ids.contains(buckets[b].sources@[k]@),
{
    lemma_bucket_source_is_gone_over(buckets, b, k);
    lemma_first_occurrences_keeps_items(all_sources(buckets), buckets[b].sources@[k]@);
}

/// Every key that is looked up is a source of one of the buckets.
pub proof fn looked_up_keys_are_sources(buckets: Seq<BucketWithSources>, x: Seq<char>)
    requires
        sources_to_look_up(buckets) matches Some(ids) && ids.contains(x),
    ensures
        exists|b: int, k: int|
            0 <= b < buckets.len() && 0 <= k < buckets[b].sources@.len() && buckets[b].sources@[k]@
                == x,
{
    lemma_first_occurrences_keeps_items(all_sources(buckets), x);
    lemma_gone_over_key_is_a_source(buckets, x);
}

/// No lookup is made exactly when no bucket names a source.
pub proof fn no_lookup_exactly_without_sources(buckets: Seq<BucketWithSources>)
    ensures
        sources_to_look_up(buckets) is None <==> forall|b: int|
            0 <= b < buckets.len() ==> #[trigger] buckets[b].sources@.len() == 0,
{
    if sources_to_look_up(buckets) is None {
        assert forall|b: int| 0 <= b < buckets.len() implies #[trigger] buckets[b].sources@.len() == 0 by {
            if buckets[b].sources@.len() > 0 {
                lemma_bucket_source_is_gone_over(buckets, b, 0);
            }
        }
    } else {
        let all = all_sources(buckets);
        assert(all.contains(all[0]));
        lemma_gone_over_key_is_a_source(buckets, all[0]);
    }
}

/// The event that a source resolves to is the last event with that id; a
/// source resolves to none exactly when no event has its id.
pub proof fn lookup_finds_the_last_event_with_the_id(events: Seq<CalendarEventFull>, id: Seq<char>)
    ensures
        event_with_id(events, id) is None <==> forall|k: int|
            0 <= k < events.len() ==> #[trigger] events[k].id@ != id,
        event_with_id(events, id) matches Some(e) ==> exists|k: int|
            0 <= k < events.len() && events[k] == e && e.id@ == id && forall|j: int|
                k < j < events.len() ==> #[trigger] events[j].id@ != id,
    decreases events.len(),
{
    if events.len() > 0 {
        let earlier = events.drop_last();
        lookup_finds_the_last_event_with_the_id(earlier, id);
        let last = events.len() - 1;
        if events[last].id@ == id {
            assert(events[last].id@ == id);
        }
        if events[last].id@ != id {
            assert(events.last() == events[last]);
            assert(event_with_id(events, id) == event_with_id(earlier, id));
            if event_with_id(earlier, id) is None {
                assert forall|k: int| 0 <= k < events.len() implies #[trigger] events[k].id@ != id by {
                    if k < last {
                        assert(earlier[k] == events[k]);
                        assert(earlier[k].id@ != id);
                    }
                }
            } else {
                if forall|k: int| 0 <= k < events.len() ==> #[trigger] events[k].id@ != id {
                    assert forall|k: int| 0 <= k < earlier.len() implies #[trigger] earlier[k].id@ != id by {
                        assert(earlier[k] == events[k]);
                    }
                }
            }
            if let Some(e) = event_with_id(events, id) {
                let k = choose|k: int|
                    0 <= k < earlier.len() && earlier[k] == e && e.id@ == id && forall|j: int|
                        k < j < earlier.len() ==> #[trigger] earlier[j].id@ != id;
                assert(events[k] == earlier[k]);
                assert forall|j: int| k < j < events.len() implies #[trigger] events[j].id@ != id by {
                    if j < last {
                        assert(events[j] == earlier[j]);
                    }
                }
            }
        }
    }
}

/// The source line of a resolving source: its event's name and the link to
/// the event's article.
pub open spec fn resolved_line(events: Seq<CalendarEventFull>, source: Seq<char>) -> Seq<char> {
    "- "@ + event_with_id(events, source)->0.name@ + ": "@ + event_with_id(
        events,
        source,
    )->0.article_url@
}

/// The source lines are one line per source that resolves to an event, in
/// the order of the sources: the resolving sources, each made into the
/// line of its event.
pub proof fn links_are_the_resolving_sources(
    sources: Seq<Seq<char>>,
    events: Seq<CalendarEventFull>,
)
    ensures
        links_of(sources, events) == sources.filter(
            |s: Seq<char>| event_with_id(events, s) is Some,
        ).map_values(|s: Seq<char>| resolved_line(events, s)),
    decreases sources.len(),
{
    let pred = |s: Seq<char>| event_with_id(events, s) is Some;
    let line = |s: Seq<char>| resolved_line(events, s);
    if sources.len() == 0 {
        reveal(Seq::filter);
        assert(sources.filter(pred).map_values(line) =~= Seq::<Seq<char>>::empty());
    } else {
        let earlier = sources.drop_last();
        links_are_the_resolving_sources(earlier, events);
        assert(sources =~= earlier.push(sources.last()));
        earlier.lemma_filter_push(sources.last(), pred);
        if pred(sources.last()) {
            assert(earlier.push(sources.last()).filter(pred).map_values(line) =~= earlier.filter(
                pred,
            ).map_values(line).push(line(sources.last())));
        }
    }
}

/// A description with source lines is the summary, `Sources:` after a blank
/// line, and then every line, each on a line of its own; its length is that
/// of the summary, 11 for the heading, the lengths of the lines and one
/// line break between each two of them.
pub proof fn description_holds_every_line(summary: Seq<char>, links: Seq<Seq<char>>)
    ensures
        links.len() == 0 ==> description_text(summary, links) == summary,
        links.len() > 0 ==> description_text(summary, links) == summary + "\n\nSources:\n"@
            + links[0] + links.drop_first().map_values(|p: Seq<char>| "\n"@ + p).flatten(),
        links.len() > 0 ==> description_text(summary, links).len() == summary.len() + 11
            + total_length(links) + links.len() - 1,
{
    if links.len() > 0 {
        join_is_separated_concatenation(links, "\n"@);
        join_length(links, "\n"@);
        reveal_strlit("\n\nSources:\n");
        reveal_strlit("\n");
        assert(((links.len() - 1) * 1) == links.len() - 1);
    }
}

/// The description of a digest entry lists a line for every source of its
/// bucket that resolves to an event, in order, after the bucket's summary;
/// without such a source it is the bare summary.
pub proof fn digest_description_lists_every_resolving_source(
    bucket: BucketWithSources,
    events: Seq<CalendarEventFull>,
)
    ensures
        ({
            let lines = texts(bucket.sources@).filter(
                |s: Seq<char>| event_with_id(events, s) is Some,
            ).map_values(|s: Seq<char>| resolved_line(events, s));
            &&& lines.len() == 0 ==> digest_entry(bucket, events)["DESCRIPTION"@] == bucket.summary@
            &&& lines.len() > 0 ==> digest_entry(bucket, events)["DESCRIPTION"@] == bucket.summary@
                + "\n\nSources:\n"@ + lines[0] + lines.drop_first().map_values(
                |p: Seq<char>| "\n"@ + p,
            ).flatten()
        }),
{
    let lines = texts(bucket.sources@).filter(
        |s: Seq<char>| event_with_id(events, s) is Some,
    ).map_values(|s: Seq<char>| resolved_line(events, s));
    links_are_the_resolving_sources(texts(bucket.sources@), events);
    description_holds_every_line(bucket.summary@, lines);
    reveal_strlit("DESCRIPTION");
    reveal_strlit("UID");
    reveal_strlit("DTSTART");
    reveal_strlit("DTEND");
    assert("DESCRIPTION"@ != "UID"@ && "DESCRIPTION"@ != "DTSTART"@ && "DESCRIPTION"@ != "DTEND"@) by {
        assert("DESCRIPTION"@[0] != "UID"@[0]);
        assert("DESCRIPTION"@[1] != "DTSTART"@[1]);
        assert("DESCRIPTION"@[1] != "DTEND"@[1]);
    }
}

/// `kept` is taken from `buckets` at the positions `pos`, in increasing
/// order, each at the first position of its id.
pub open spec fn taken_at_first_positions(
    buckets: Seq<BucketWithSources>,
    kept: Seq<BucketWithSources>,
    pos: Seq<int>,
) -> bool {
    &&& pos.len() == kept.len()
    &&& forall|k: int|
        #![trigger pos[k]]
        0 <= k < pos.len() ==> 0 <= pos[k] < buckets.len() && buckets[pos[k]] == kept[k]
            && forall|i: int| 0 <= i < pos[k] ==> #[trigger] buckets[i].id@ != kept[k].id@
    &&& forall|k1: int, k2: int| 0 <= k1 < k2 < pos.len() ==> #[trigger] pos[k1] < #[trigger] pos[k2]
}

proof fn lemma_first_by_id_positions(buckets: Seq<BucketWithSources>)
    ensures
        exists|pos: Seq<int>| taken_at_first_positions(buckets, first_by_id(buckets), pos),
    decreases buckets.len(),
{
    if buckets.len() == 0 {
        assert(taken_at_first_positions(buckets, first_by_id(buckets), Seq::empty()));
    } else {
        let earlier = buckets.drop_last();
        lemma_first_by_id_positions(earlier);
        let pos0 = choose|pos: Seq<int>| taken_at_first_positions(earlier, first_by_id(earlier), pos);
        let last = buckets.len() - 1;
        if bucket_ids(earlier).contains(buckets[last].id@) {
            assert forall|k: int| #![trigger pos0[k]] 0 <= k < pos0.len() implies 0 <= pos0[k]
                < buckets.len() && buckets[pos0[k]] == first_by_id(buckets)[k] && forall|i: int|
                0 <= i < pos0[k] ==> #[trigger] buckets[i].id@ != first_by_id(buckets)[k].id@ by {
                assert(buckets[pos0[k]] == earlier[pos0[k]]);
                assert forall|i: int| 0 <= i < pos0[k] implies #[trigger] buckets[i].id@
                    != first_by_id(buckets)[k].id@ by {
                    assert(buckets[i] == earlier[i]);
                }
            }
            assert(taken_at_first_positions(buckets, first_by_id(buckets), pos0));
        } else {
            let pos = pos0.push(last);
            let kept = first_by_id(buckets);
            assert(kept == first_by_id(earlier).push(buckets[last]));
            assert forall|k: int| #![trigger pos[k]] 0 <= k < pos.len() implies 0 <= pos[k]
                < buckets.len() && buckets[pos[k]] == kept[k] && forall|i: int|
                0 <= i < pos[k] ==> #[trigger] buckets[i].id@ != kept[k].id@ by {
                if k < pos0.len() {
                    assert(pos[k] == pos0[k]);
                    assert(buckets[pos0[k]] == earlier[pos0[k]]);
                    assert forall|i: int| 0 <= i < pos[k] implies #[trigger] buckets[i].id@
                        != kept[k].id@ by {
                        assert(buckets[i] == earlier[i]);
                    }
                } else {
                    assert forall|i: int| 0 <= i < pos[k] implies #[trigger] buckets[i].id@
                        != kept[k].id@ by {
                        assert(bucket_ids(earlier)[i] == buckets[i].id@);
                    }
                }
            }
            assert forall|k1: int, k2: int| 0 <= k1 < k2 < pos.len() implies #[trigger] pos[k1]
                < #[trigger] pos[k2] by {
                if k2 < pos0.len() {
                    assert(pos[k1] == pos0[k1] && pos[k2] == pos0[k2]);
                } else {
                    assert(pos[k1] == pos0[k1]);
                    assert(pos0[k1] < earlier.len());
                }
            }
            assert(taken_at_first_positions(buckets, kept, pos));
        }
    }
}

/// The merged digest is taken from the buckets that the merge goes over
/// (those of all days, day after day: `merge_goes_over_every_day`), in their
/// order, each bucket where its id first occurs.
pub proof fn merged_digest_keeps_the_order_of_the_days(days: Seq<Vec<BucketWithSources>>)
    ensures
        exists|pos: Seq<int>|
            #[trigger] taken_at_first_positions(all_buckets(days), merged_digest(days), pos),
{
    lemma_first_by_id_positions(all_buckets(days));
    let pos = choose|pos: Seq<int>|
        taken_at_first_positions(all_buckets(days), first_by_id(all_buckets(days)), pos);
    assert(taken_at_first_positions(all_buckets(days), merged_digest(days), pos));
}

} // verus!
