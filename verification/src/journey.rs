//! What a whole scrub does: the lines that it prints and the deletions that it
//! asks for, over all the pages that it is given.

use crate::listing::{
    bucket_of, is_sorted_set_of, law_bucket_of_meta_key, law_string_order, lemma_sorted_set,
    meta_key, named_buckets, sorted_set, Page,
};
use crate::report::{
    bucket_lines, dry_run_lines, law_purged_total_text, law_would_delete_lines, no_buckets_lines,
    purged_text, purged_total_text, would_delete_lines,
};
use crate::session::{
    after_deletion, after_page, after_purge_of_page, after_search, after_summary, first_state,
    first_turn, law_deletion_keeps_session, law_page_keeps_session, rest_after, Ask, PhaseView,
    RestView, SessionView, TurnView,
};
use crate::summary::{law_summary_of_one_more_page, sample_of, summary_of};
use crate::text::{before, decimal, law_decimal, numeral};
use vstd::prelude::*;

verus! {

/// A deletion that is asked for: from a bucket, the objects with these keys.
pub struct Deletion {
    pub bucket: Seq<char>,
    pub keys: Seq<Seq<char>>,
}

/// The lines of turns, one after the other.
pub open spec fn printed(turns: Seq<TurnView>) -> Seq<Seq<char>>
    decreases turns.len(),
{
    if turns.len() == 0 {
        seq![]
    } else {
        printed(turns.drop_last()) + turns.last().lines
    }
}

/// The deletions that turns ask for, in order.
pub open spec fn deletions(turns: Seq<TurnView>) -> Seq<Deletion>
    decreases turns.len(),
{
    if turns.len() == 0 {
        seq![]
    } else {
        match turns.last().ask {
            Ask::Delete { bucket, keys } => deletions(turns.drop_last()).push(
                Deletion { bucket, keys },
            ),
            _ => deletions(turns.drop_last()),
        }
    }
}

/// What a scrub does with one page, where a deletion that it asks for succeeds.
pub open spec fn page_journey(s: SessionView, page: Page) -> (SessionView, Seq<TurnView>) {
    let (next, turn) = after_page(s, page);
    if turn.ask is Delete {
        let (last, second) = after_deletion(next);
        (last, seq![turn, second])
    } else {
        (next, seq![turn])
    }
}

/// What a scrub does with one page after the other.
pub open spec fn journey(s: SessionView, pages: Seq<Page>) -> (SessionView, Seq<TurnView>)
    decreases pages.len(),
{
    if pages.len() == 0 {
        (s, seq![])
    } else {
        let (before_last, turns) = journey(s, pages.drop_last());
        let (last, more) = page_journey(before_last, pages.last());
        (last, turns + more)
    }
}

/// Pages that list a bucket to its end: all but the last say that there is more.
pub open spec fn is_listing(pages: Seq<Page>) -> bool {
    &&& pages.len() > 0
    &&& goes_on(pages.drop_last())
    &&& !pages.last().truncated
}

/// Pages each of which says that there is more.
pub open spec fn goes_on(pages: Seq<Page>) -> bool {
    forall|i: int| 0 <= i < pages.len() ==> (#[trigger] pages[i]).truncated
}

/// The keys of pages, one page after the other.
pub open spec fn all_keys(pages: Seq<Page>) -> Seq<Seq<char>>
    decreases pages.len(),
{
    if pages.len() == 0 {
        seq![]
    } else {
        all_keys(pages.drop_last()) + pages.last().keys
    }
}

/// The buckets that a listing of the system bucket names, each once, in order.
pub open spec fn discovered(search: Seq<Page>, system_bucket: Seq<char>) -> Seq<Seq<char>> {
    sorted_set(named_buckets(all_keys(search), system_bucket))
}

/// Listings, one after the other.
pub open spec fn chained(listings: Seq<Seq<Page>>) -> Seq<Page>
    decreases listings.len(),
{
    if listings.len() == 0 {
        seq![]
    } else {
        chained(listings.drop_last()) + listings.last()
    }
}

/// How many objects listings show.
pub open spec fn objects(listings: Seq<Seq<Page>>) -> nat
    decreases listings.len(),
{
    if listings.len() == 0 {
        0
    } else {
        objects(listings.drop_last()) + all_keys(listings.last()).len()
    }
}

/// What a dry run says of buckets with these listings.
pub open spec fn summary_lines(buckets: Seq<Seq<char>>, listings: Seq<Seq<Page>>) -> Seq<Seq<char>>
    decreases listings.len(),
{
    if listings.len() == 0 {
        seq![]
    } else {
        let keys = all_keys(listings.last());
        summary_lines(buckets, listings.drop_last()) + bucket_lines(
            buckets[listings.len() - 1],
            keys.len(),
            sample_of(keys),
        )
    }
}

/// What is said of the purge of buckets with these listings.
pub open spec fn purged_lines(buckets: Seq<Seq<char>>, listings: Seq<Seq<Page>>) -> Seq<Seq<char>> {
    Seq::new(
        listings.len(),
        |i: int| purged_text(buckets[i], all_keys(listings[i]).len()),
    )
}

/// The deletions from one bucket: one for each page that shows an object, of all
/// that it shows.
pub open spec fn page_deletions(bucket: Seq<char>, pages: Seq<Page>) -> Seq<Deletion>
    decreases pages.len(),
{
    if pages.len() == 0 {
        seq![]
    } else {
        let earlier = page_deletions(bucket, pages.drop_last());
        if pages.last().keys.len() > 0 {
            earlier.push(Deletion { bucket, keys: pages.last().keys })
        } else {
            earlier
        }
    }
}

/// The deletions from buckets with these listings.
pub open spec fn bucket_deletions(buckets: Seq<Seq<char>>, listings: Seq<Seq<Page>>) -> Seq<
    Deletion,
>
    decreases listings.len(),
{
    if listings.len() == 0 {
        seq![]
    } else {
        bucket_deletions(buckets, listings.drop_last()) + page_deletions(
            buckets[listings.len() - 1],
            listings.last(),
        )
    }
}

/// The keys of deletions, one deletion after the other.
pub open spec fn deleted_keys(asked: Seq<Deletion>) -> Seq<Seq<char>>
    decreases asked.len(),
{
    if asked.len() == 0 {
        seq![]
    } else {
        deleted_keys(asked.drop_last()) + asked.last().keys
    }
}

// ---------------------------------------------------------------------------
// Chaining
// ---------------------------------------------------------------------------

proof fn lemma_turns_chain(a: Seq<TurnView>, b: Seq<TurnView>)
    ensures
        printed(a + b) == printed(a) + printed(b),
        deletions(a + b) == deletions(a) + deletions(b),
    decreases b.len(),
{
    if b.len() == 0 {
        assert(a + b =~= a);
    } else {
        lemma_turns_chain(a, b.drop_last());
        assert((a + b).drop_last() =~= a + b.drop_last());
        assert((a + b).last() == b.last());
        assert(printed(a + b) =~= printed(a) + printed(b));
        assert(deletions(a + b) =~= deletions(a) + deletions(b));
    }
}

proof fn lemma_one_turn(t: TurnView)
    ensures
        printed(seq![t]) == t.lines,
        deletions(seq![t]) == match t.ask {
            Ask::Delete { bucket, keys } => seq![Deletion { bucket, keys }],
            _ => seq![],
        },
{
    let one = seq![t];
    let none = Seq::<TurnView>::empty();
    assert(one.drop_last() =~= none);
    assert(printed(none) =~= Seq::<Seq<char>>::empty());
    assert(deletions(none) =~= Seq::<Deletion>::empty());
    assert(printed(one) =~= t.lines);
    match t.ask {
        Ask::Delete { bucket, keys } => {
            assert(deletions(one) =~= seq![Deletion { bucket, keys }]);
        },
        _ => {},
    }
}

proof fn lemma_two_turns(t: TurnView, u: TurnView)
    ensures
        printed(seq![t, u]) == t.lines + u.lines,
        deletions(seq![t, u]) == deletions(seq![t]) + deletions(seq![u]),
{
    assert(seq![t, u] =~= seq![t] + seq![u]);
    lemma_turns_chain(seq![t], seq![u]);
    lemma_one_turn(t);
    lemma_one_turn(u);
}

/// A scrub does with pages and then more pages what it does with the first ones
/// and, from there, with the others.
pub proof fn law_journey_chains(s: SessionView, a: Seq<Page>, b: Seq<Page>)
    ensures
        journey(s, a + b).0 == journey(journey(s, a).0, b).0,
        journey(s, a + b).1 == journey(s, a).1 + journey(journey(s, a).0, b).1,
    decreases b.len(),
{
    if b.len() == 0 {
        assert(a + b =~= a);
        assert(journey(s, a).1 + Seq::<TurnView>::empty() =~= journey(s, a).1);
    } else {
        law_journey_chains(s, a, b.drop_last());
        assert((a + b).drop_last() =~= a + b.drop_last());
        assert((a + b).last() == b.last());
        assert(journey(s, a + b).1 =~= journey(s, a).1 + journey(journey(s, a).0, b).1);
    }
}

proof fn lemma_journey_of_last(s: SessionView, pages: Seq<Page>)
    requires
        pages.len() > 0,
    ensures
        ({
            let (m, ts) = journey(s, pages.drop_last());
            let (e, us) = page_journey(m, pages.last());
            &&& journey(s, pages).0 == e
            &&& printed(journey(s, pages).1) == printed(ts) + printed(us)
            &&& deletions(journey(s, pages).1) == deletions(ts) + deletions(us)
        }),
{
    let (m, ts) = journey(s, pages.drop_last());
    let (e, us) = page_journey(m, pages.last());
    lemma_turns_chain(ts, us);
}

proof fn lemma_journey_chains(s: SessionView, a: Seq<Page>, b: Seq<Page>)
    ensures
        ({
            let (m, ts) = journey(s, a);
            let (e, us) = journey(m, b);
            &&& journey(s, a + b).0 == e
            &&& printed(journey(s, a + b).1) == printed(ts) + printed(us)
            &&& deletions(journey(s, a + b).1) == deletions(ts) + deletions(us)
        }),
{
    law_journey_chains(s, a, b);
    lemma_turns_chain(journey(s, a).1, journey(journey(s, a).0, b).1);
}

// ---------------------------------------------------------------------------
// One listing
// ---------------------------------------------------------------------------

proof fn lemma_named_buckets_chain(a: Seq<Seq<char>>, b: Seq<Seq<char>>, system: Seq<char>)
    ensures
        named_buckets(a + b, system) == named_buckets(a, system) + named_buckets(b, system),
    decreases b.len(),
{
    if b.len() == 0 {
        assert(a + b =~= a);
        assert(named_buckets(a, system) + Seq::<Seq<char>>::empty() =~= named_buckets(a, system));
    } else {
        lemma_named_buckets_chain(a, b.drop_last(), system);
        assert((a + b).drop_last() =~= a + b.drop_last());
        assert((a + b).last() == b.last());
        assert(named_buckets(a + b, system) =~= named_buckets(a, system) + named_buckets(
            b,
            system,
        ));
    }
}

proof fn lemma_searching(dry_run: bool, system: Seq<char>, pages: Seq<Page>)
    requires
        goes_on(pages),
    ensures
        ({
            let (e, ts) = journey(first_state(dry_run, system), pages);
            &&& e == (SessionView {
                dry_run,
                system_bucket: system,
                phase: PhaseView::Searching { found: named_buckets(all_keys(pages), system) },
            })
            &&& printed(ts) == Seq::<Seq<char>>::empty()
            &&& deletions(ts) == Seq::<Deletion>::empty()
        }),
    decreases pages.len(),
{
    let s = first_state(dry_run, system);
    if pages.len() > 0 {
        let earlier = pages.drop_last();
        assert forall|i: int| 0 <= i < earlier.len() implies (#[trigger] earlier[i]).truncated by {
            assert(pages[i].truncated);
        }
        lemma_searching(dry_run, system, earlier);
        lemma_journey_of_last(s, pages);
        assert(pages[pages.len() - 1].truncated);
        let m = journey(s, earlier).0;
        lemma_one_turn(after_page(m, pages.last()).1);
        lemma_named_buckets_chain(all_keys(earlier), pages.last().keys, system);
        assert(printed(journey(s, pages).1) =~= Seq::<Seq<char>>::empty());
        assert(deletions(journey(s, pages).1) =~= Seq::<Deletion>::empty());
    } else {
        assert(named_buckets(all_keys(pages), system) =~= Seq::<Seq<char>>::empty());
    }
}

/// When the system bucket was listed to its end, the scrub goes on with the
/// buckets that its keys name, each once and in order. Nothing was deleted by
/// then, and nothing printed but what `after_search` says.
pub proof fn law_search(dry_run: bool, system: Seq<char>, search: Seq<Page>)
    requires
        is_listing(search),
    ensures
        ({
            let (e, ts) = journey(first_state(dry_run, system), search);
            let (state, turn) = after_search(
                first_state(dry_run, system),
                discovered(search, system),
            );
            &&& e == state
            &&& printed(ts) == turn.lines
            &&& deletions(ts) == Seq::<Deletion>::empty()
        }),
{
    let s = first_state(dry_run, system);
    let earlier = search.drop_last();
    lemma_searching(dry_run, system, earlier);
    lemma_journey_of_last(s, search);
    lemma_named_buckets_chain(all_keys(earlier), search.last().keys, system);
    let m = journey(s, earlier).0;
    let t = after_page(m, search.last()).1;
    lemma_one_turn(t);
    assert(printed(journey(s, search).1) =~= t.lines);
    assert(deletions(journey(s, search).1) =~= Seq::<Deletion>::empty());
}

proof fn lemma_named_buckets_contain(keys: Seq<Seq<char>>, system: Seq<char>, bucket: Seq<char>)
    ensures
        named_buckets(keys, system).contains(bucket) <==> bucket != system && keys.contains(
            meta_key(bucket),
        ),
    decreases keys.len(),
{
    let named = named_buckets(keys, system);
    if keys.len() == 0 {
    } else {
        let earlier = keys.drop_last();
        let before_last = named_buckets(earlier, system);
        lemma_named_buckets_contain(earlier, system, bucket);
        law_bucket_of_meta_key(bucket, keys.last());
        if keys.contains(meta_key(bucket)) {
            let i = choose|i: int| 0 <= i < keys.len() && keys[i] == meta_key(bucket);
            if i < keys.len() - 1 {
                assert(earlier[i] == meta_key(bucket));
            }
        }
        if earlier.contains(meta_key(bucket)) {
            let i = choose|i: int| 0 <= i < earlier.len() && earlier[i] == meta_key(bucket);
            assert(keys[i] == meta_key(bucket));
        }
        assert(keys[keys.len() - 1] == keys.last());
        match bucket_of(keys.last()) {
            Some(b) if b != system => {
                assert(named == before_last.push(b));
                assert(named[before_last.len() as int] == b);
                if before_last.contains(bucket) {
                    let i = choose|i: int| 0 <= i < before_last.len() && before_last[i] == bucket;
                    assert(named[i] == bucket);
                }
                if named.contains(bucket) && b != bucket {
                    let i = choose|i: int| 0 <= i < named.len() && named[i] == bucket;
                    assert(before_last[i] == bucket);
                }
            },
            _ => {},
        }
    }
}

/// The buckets of a scrub are in order and none is there twice, and a bucket is
/// among them exactly if its key was listed and it is not the system bucket.
pub proof fn law_discovered(search: Seq<Page>, system: Seq<char>)
    ensures
        is_sorted_set_of(
            discovered(search, system),
            named_buckets(all_keys(search), system),
        ),
        forall|bucket: Seq<char>| #[trigger]
            discovered(search, system).contains(bucket) <==> bucket != system && all_keys(
                search,
            ).contains(meta_key(bucket)),
        forall|bucket: Seq<char>| #[trigger]
            discovered(search, system).contains(bucket) <==> bucket != system && all_keys(
                search,
            ).contains("buckets/"@ + bucket + "/.metadata.bin"@),
        forall|i: int, j: int|
            0 <= i < j < discovered(search, system).len() ==> before(
                #[trigger] discovered(search, system)[i],
                #[trigger] discovered(search, system)[j],
            ),
{
    lemma_sorted_set(named_buckets(all_keys(search), system));
    assert forall|bucket: Seq<char>| #[trigger]
        discovered(search, system).contains(bucket) <==> bucket != system && all_keys(
            search,
        ).contains(meta_key(bucket)) by {
        lemma_named_buckets_contain(all_keys(search), system, bucket);
    }
}

/// A dry run that is about to sum up the bucket at `at`.
pub open spec fn summarizing(
    system: Seq<char>,
    buckets: Seq<Seq<char>>,
    at: nat,
    total: nat,
) -> SessionView {
    SessionView {
        dry_run: true,
        system_bucket: system,
        phase: PhaseView::Summarizing { buckets, at, summary: summary_of(seq![]), total },
    }
}

proof fn lemma_summarizing(
    system: Seq<char>,
    buckets: Seq<Seq<char>>,
    at: nat,
    total: nat,
    pages: Seq<Page>,
)
    requires
        goes_on(pages),
    ensures
        ({
            let (e, ts) = journey(summarizing(system, buckets, at, total), pages);
            &&& e == (SessionView {
                dry_run: true,
                system_bucket: system,
                phase: PhaseView::Summarizing {
                    buckets,
                    at,
                    summary: summary_of(all_keys(pages)),
                    total,
                },
            })
            &&& printed(ts) == Seq::<Seq<char>>::empty()
            &&& deletions(ts) == Seq::<Deletion>::empty()
        }),
    decreases pages.len(),
{
    let s = summarizing(system, buckets, at, total);
    if pages.len() > 0 {
        let earlier = pages.drop_last();
        assert forall|i: int| 0 <= i < earlier.len() implies (#[trigger] earlier[i]).truncated by {
            assert(pages[i].truncated);
        }
        lemma_summarizing(system, buckets, at, total, earlier);
        lemma_journey_of_last(s, pages);
        assert(pages[pages.len() - 1].truncated);
        let m = journey(s, earlier).0;
        lemma_one_turn(after_page(m, pages.last()).1);
        law_summary_of_one_more_page(all_keys(earlier), pages.last());
        assert(printed(journey(s, pages).1) =~= Seq::<Seq<char>>::empty());
        assert(deletions(journey(s, pages).1) =~= Seq::<Deletion>::empty());
    }
}

/// When a bucket was listed to its end in a dry run, what is printed of it is the
/// number of all its objects and the first of their keys.
pub proof fn law_summary_of_bucket(
    system: Seq<char>,
    buckets: Seq<Seq<char>>,
    at: nat,
    total: nat,
    listing: Seq<Page>,
)
    requires
        is_listing(listing),
    ensures
        ({
            let s = summarizing(system, buckets, at, total);
            let (e, ts) = journey(s, listing);
            let (state, turn) = after_summary(
                s,
                buckets,
                at,
                summary_of(all_keys(listing)),
                total,
            );
            &&& e == state
            &&& printed(ts) == turn.lines
            &&& deletions(ts) == Seq::<Deletion>::empty()
        }),
{
    let s = summarizing(system, buckets, at, total);
    let earlier = listing.drop_last();
    lemma_summarizing(system, buckets, at, total, earlier);
    lemma_journey_of_last(s, listing);
    law_summary_of_one_more_page(all_keys(earlier), listing.last());
    let m = journey(s, earlier).0;
    let t = after_page(m, listing.last()).1;
    lemma_one_turn(t);
    assert(printed(journey(s, listing).1) =~= t.lines);
    assert(deletions(journey(s, listing).1) =~= Seq::<Deletion>::empty());
}

/// A scrub that is about to purge the bucket at `at`, `deleted` objects of which
/// are gone.
pub open spec fn purging(
    system: Seq<char>,
    buckets: Seq<Seq<char>>,
    at: nat,
    deleted: nat,
    total: nat,
) -> SessionView {
    SessionView {
        dry_run: false,
        system_bucket: system,
        phase: PhaseView::Purging { buckets, at, deleted, total, pending: None },
    }
}

proof fn lemma_purging_page(
    system: Seq<char>,
    buckets: Seq<Seq<char>>,
    at: nat,
    deleted: nat,
    total: nat,
    page: Page,
)
    ensures
        ({
            let s = purging(system, buckets, at, deleted, total);
            let (e, ts) = page_journey(s, page);
            let (state, turn) = after_purge_of_page(
                s,
                buckets,
                at,
                deleted + page.keys.len(),
                total,
                rest_after(page),
            );
            &&& e == state
            &&& printed(ts) == turn.lines
            &&& deletions(ts) == if page.keys.len() > 0 {
                seq![Deletion { bucket: buckets[at as int], keys: page.keys }]
            } else {
                seq![]
            }
        }),
{
    let s = purging(system, buckets, at, deleted, total);
    let (next, t) = after_page(s, page);
    if page.keys.len() > 0 {
        let (last, u) = after_deletion(next);
        lemma_two_turns(t, u);
        lemma_one_turn(t);
        lemma_one_turn(u);
        assert(t.lines + u.lines =~= u.lines);
        assert(deletions(seq![t, u]) =~= seq![
            Deletion { bucket: buckets[at as int], keys: page.keys },
        ]);
    } else {
        lemma_one_turn(t);
    }
}

proof fn lemma_purging(
    system: Seq<char>,
    buckets: Seq<Seq<char>>,
    at: nat,
    total: nat,
    pages: Seq<Page>,
)
    requires
        goes_on(pages),
    ensures
        ({
            let (e, ts) = journey(purging(system, buckets, at, 0, total), pages);
            &&& e == purging(system, buckets, at, all_keys(pages).len(), total)
            &&& printed(ts) == Seq::<Seq<char>>::empty()
            &&& deletions(ts) == page_deletions(buckets[at as int], pages)
        }),
    decreases pages.len(),
{
    let s = purging(system, buckets, at, 0, total);
    if pages.len() > 0 {
        let earlier = pages.drop_last();
        assert forall|i: int| 0 <= i < earlier.len() implies (#[trigger] earlier[i]).truncated by {
            assert(pages[i].truncated);
        }
        lemma_purging(system, buckets, at, total, earlier);
        lemma_journey_of_last(s, pages);
        assert(pages[pages.len() - 1].truncated);
        lemma_purging_page(
            system,
            buckets,
            at,
            all_keys(earlier).len(),
            total,
            pages.last(),
        );
        assert(printed(journey(s, pages).1) =~= Seq::<Seq<char>>::empty());
        assert(deletions(journey(s, pages).1) =~= page_deletions(buckets[at as int], pages));
    }
}

/// When a bucket was listed to its end and purged, one deletion was asked for
/// each page that shows an object, of all that it shows, and the number that is
/// printed is that of all the objects of the listing.
pub proof fn law_purge_of_bucket(
    system: Seq<char>,
    buckets: Seq<Seq<char>>,
    at: nat,
    total: nat,
    listing: Seq<Page>,
)
    requires
        is_listing(listing),
    ensures
        ({
            let s = purging(system, buckets, at, 0, total);
            let (e, ts) = journey(s, listing);
            let (state, turn) = after_purge_of_page(
                s,
                buckets,
                at,
                all_keys(listing).len(),
                total,
                RestView::Nothing,
            );
            &&& e == state
            &&& printed(ts) == turn.lines
            &&& deletions(ts) == page_deletions(buckets[at as int], listing)
        }),
{
    let s = purging(system, buckets, at, 0, total);
    let earlier = listing.drop_last();
    lemma_purging(system, buckets, at, total, earlier);
    lemma_journey_of_last(s, listing);
    lemma_purging_page(system, buckets, at, all_keys(earlier).len(), total, listing.last());
    let m = purging(system, buckets, at, all_keys(earlier).len(), total);
    let us = page_journey(m, listing.last()).1;
    assert(printed(journey(s, listing).1) =~= printed(us));
    assert(deletions(journey(s, listing).1) =~= page_deletions(buckets[at as int], listing));
}

/// What is deleted from a bucket is what its listing shows: the same keys, in the
/// same order, none left out and none twice.
pub proof fn law_deleted_is_listed(bucket: Seq<char>, listing: Seq<Page>)
    ensures
        deleted_keys(page_deletions(bucket, listing)) == all_keys(listing),
        forall|i: int|
            0 <= i < page_deletions(bucket, listing).len() ==> {
                &&& (#[trigger] page_deletions(bucket, listing)[i]).bucket == bucket
                &&& page_deletions(bucket, listing)[i].keys.len() > 0
            },
    decreases listing.len(),
{
    if listing.len() > 0 {
        let earlier = listing.drop_last();
        law_deleted_is_listed(bucket, earlier);
        let before_last = page_deletions(bucket, earlier);
        let all = page_deletions(bucket, listing);
        if listing.last().keys.len() > 0 {
            assert(all.drop_last() =~= before_last);
            assert forall|i: int| 0 <= i < all.len() implies {
                &&& (#[trigger] all[i]).bucket == bucket
                &&& all[i].keys.len() > 0
            } by {
                if i < before_last.len() {
                    assert(all[i] == before_last[i]);
                }
            }
        } else {
            assert(all_keys(listing) =~= all_keys(earlier));
        }
    }
}

// ---------------------------------------------------------------------------
// A whole scrub
// ---------------------------------------------------------------------------

/// Every one of the listings goes to its end.
pub open spec fn are_listings(listings: Seq<Seq<Page>>) -> bool {
    forall|i: int| 0 <= i < listings.len() ==> is_listing(#[trigger] listings[i])
}

proof fn lemma_fewer_listings(listings: Seq<Seq<Page>>)
    requires
        are_listings(listings),
        listings.len() > 0,
    ensures
        are_listings(listings.drop_last()),
        is_listing(listings.last()),
{
    let fewer = listings.drop_last();
    assert forall|i: int| 0 <= i < fewer.len() implies is_listing(#[trigger] fewer[i]) by {
        assert(is_listing(listings[i]));
    }
    assert(is_listing(listings[listings.len() - 1]));
}

proof fn lemma_summaries(
    system: Seq<char>,
    buckets: Seq<Seq<char>>,
    listings: Seq<Seq<Page>>,
)
    requires
        are_listings(listings),
        listings.len() <= buckets.len(),
        buckets.len() > 0,
    ensures
        ({
            let (e, ts) = journey(summarizing(system, buckets, 0, 0), chained(listings));
            &&& listings.len() < buckets.len() ==> {
                &&& e == summarizing(system, buckets, listings.len(), objects(listings))
                &&& printed(ts) == summary_lines(buckets, listings)
            }
            &&& listings.len() == buckets.len() ==> {
                &&& e.phase is Done
                &&& printed(ts) == summary_lines(buckets, listings) + would_delete_lines(
                    objects(listings),
                    buckets.len(),
                )
            }
            &&& deletions(ts) == Seq::<Deletion>::empty()
        }),
    decreases listings.len(),
{
    let s = summarizing(system, buckets, 0, 0);
    if listings.len() > 0 {
        lemma_fewer_listings(listings);
        let fewer = listings.drop_last();
        lemma_summaries(system, buckets, fewer);
        lemma_journey_chains(s, chained(fewer), listings.last());
        law_summary_of_bucket(system, buckets, fewer.len(), objects(fewer), listings.last());
        let ts = journey(s, chained(listings)).1;
        assert(deletions(ts) =~= Seq::<Deletion>::empty());
        if listings.len() == buckets.len() {
            assert(printed(ts) =~= summary_lines(buckets, listings) + would_delete_lines(
                objects(listings),
                buckets.len(),
            ));
        }
    }
}

/// A dry run that is given the listing of the system bucket and then that of each
/// bucket found in it, each to its end, asks for no deletion, prints a summary of
/// each bucket and ends with the number of all the objects and of the buckets.
pub proof fn law_dry_run(system: Seq<char>, search: Seq<Page>, listings: Seq<Seq<Page>>)
    requires
        is_listing(search),
        are_listings(listings),
        listings.len() == discovered(search, system).len() > 0,
    ensures
        ({
            let buckets = discovered(search, system);
            let (e, ts) = journey(first_state(true, system), search + chained(listings));
            &&& e.phase is Done
            &&& printed(ts) == dry_run_lines() + summary_lines(buckets, listings)
                + would_delete_lines(objects(listings), buckets.len())
            &&& deletions(ts) == Seq::<Deletion>::empty()
        }),
{
    let buckets = discovered(search, system);
    let s = first_state(true, system);
    law_search(true, system, search);
    lemma_summaries(system, buckets, listings);
    lemma_journey_chains(s, search, chained(listings));
    let ts = journey(s, search + chained(listings)).1;
    assert(printed(ts) =~= dry_run_lines() + summary_lines(buckets, listings) + would_delete_lines(
        objects(listings),
        buckets.len(),
    ));
    assert(deletions(ts) =~= Seq::<Deletion>::empty());
}

proof fn lemma_purges(system: Seq<char>, buckets: Seq<Seq<char>>, listings: Seq<Seq<Page>>)
    requires
        are_listings(listings),
        listings.len() <= buckets.len(),
        buckets.len() > 0,
    ensures
        ({
            let (e, ts) = journey(purging(system, buckets, 0, 0, 0), chained(listings));
            &&& listings.len() < buckets.len() ==> {
                &&& e == purging(system, buckets, listings.len(), 0, objects(listings))
                &&& printed(ts) == purged_lines(buckets, listings)
            }
            &&& listings.len() == buckets.len() ==> {
                &&& e.phase is Done
                &&& printed(ts) == purged_lines(buckets, listings).push(
                    purged_total_text(objects(listings)),
                )
            }
            &&& deletions(ts) == bucket_deletions(buckets, listings)
        }),
    decreases listings.len(),
{
    let s = purging(system, buckets, 0, 0, 0);
    if listings.len() > 0 {
        lemma_fewer_listings(listings);
        let fewer = listings.drop_last();
        lemma_purges(system, buckets, fewer);
        lemma_journey_chains(s, chained(fewer), listings.last());
        law_purge_of_bucket(system, buckets, fewer.len(), objects(fewer), listings.last());
        let ts = journey(s, chained(listings)).1;
        let n = fewer.len() as int;
        assert(purged_lines(buckets, listings) =~= purged_lines(buckets, fewer).push(
            purged_text(buckets[n], all_keys(listings.last()).len()),
        ));
        if listings.len() == buckets.len() {
            assert(printed(ts) =~= purged_lines(buckets, listings).push(
                purged_total_text(objects(listings)),
            ));
        } else {
            assert(printed(ts) =~= purged_lines(buckets, listings));
        }
    } else {
        assert(purged_lines(buckets, listings) =~= Seq::<Seq<char>>::empty());
    }
}

/// A scrub that is given the listing of the system bucket and then that of each
/// bucket found in it, each to its end, asks for the deletion of every object
/// that is listed and of no other, prints how many each bucket held and ends
/// with the number of them all.
pub proof fn law_purge(system: Seq<char>, search: Seq<Page>, listings: Seq<Seq<Page>>)
    requires
        is_listing(search),
        are_listings(listings),
        listings.len() == discovered(search, system).len() > 0,
    ensures
        ({
            let buckets = discovered(search, system);
            let (e, ts) = journey(first_state(false, system), search + chained(listings));
            &&& e.phase is Done
            &&& printed(ts) == purged_lines(buckets, listings).push(
                purged_total_text(objects(listings)),
            )
            &&& deletions(ts) == bucket_deletions(buckets, listings)
        }),
{
    let buckets = discovered(search, system);
    let s = first_state(false, system);
    law_search(false, system, search);
    lemma_purges(system, buckets, listings);
    lemma_journey_chains(s, search, chained(listings));
    let ts = journey(s, search + chained(listings)).1;
    assert(printed(ts) =~= purged_lines(buckets, listings).push(
        purged_total_text(objects(listings)),
    ));
    assert(deletions(ts) =~= bucket_deletions(buckets, listings));
}

proof fn lemma_deleted_keys_chain(a: Seq<Deletion>, b: Seq<Deletion>)
    ensures
        deleted_keys(a + b) == deleted_keys(a) + deleted_keys(b),
    decreases b.len(),
{
    if b.len() == 0 {
        assert(a + b =~= a);
        assert(deleted_keys(a) + Seq::<Seq<char>>::empty() =~= deleted_keys(a));
    } else {
        lemma_deleted_keys_chain(a, b.drop_last());
        assert((a + b).drop_last() =~= a + b.drop_last());
        assert((a + b).last() == b.last());
        assert(deleted_keys(a + b) =~= deleted_keys(a) + deleted_keys(b));
    }
}

proof fn lemma_all_keys_chain(a: Seq<Page>, b: Seq<Page>)
    ensures
        all_keys(a + b) == all_keys(a) + all_keys(b),
    decreases b.len(),
{
    if b.len() == 0 {
        assert(a + b =~= a);
        assert(all_keys(a) + Seq::<Seq<char>>::empty() =~= all_keys(a));
    } else {
        lemma_all_keys_chain(a, b.drop_last());
        assert((a + b).drop_last() =~= a + b.drop_last());
        assert((a + b).last() == b.last());
        assert(all_keys(a + b) =~= all_keys(a) + all_keys(b));
    }
}

/// Over all the buckets, what is deleted is what is listed.
pub proof fn law_all_deleted_is_listed(buckets: Seq<Seq<char>>, listings: Seq<Seq<Page>>)
    ensures
        deleted_keys(bucket_deletions(buckets, listings)) == all_keys(chained(listings)),
        deleted_keys(bucket_deletions(buckets, listings)).len() == objects(listings),
    decreases listings.len(),
{
    if listings.len() > 0 {
        let fewer = listings.drop_last();
        let last = listings.last();
        let bucket = buckets[listings.len() - 1];
        law_all_deleted_is_listed(buckets, fewer);
        law_deleted_is_listed(bucket, last);
        lemma_deleted_keys_chain(
            bucket_deletions(buckets, fewer),
            page_deletions(bucket, last),
        );
        lemma_all_keys_chain(chained(fewer), last);
    }
}

/// A dry run announces at its end exactly as many objects as a purge deletes that
/// is given the same pages, and the purge ends with that number too.
pub proof fn law_dry_run_announces_the_purge(
    system: Seq<char>,
    search: Seq<Page>,
    listings: Seq<Seq<Page>>,
)
    requires
        is_listing(search),
        are_listings(listings),
        listings.len() == discovered(search, system).len() > 0,
    ensures
        ({
            let pages = search + chained(listings);
            let announced = printed(journey(first_state(true, system), pages).1);
            let purge = journey(first_state(false, system), pages).1;
            let deleted = deleted_keys(deletions(purge));
            &&& deleted == all_keys(chained(listings))
            &&& announced.skip(announced.len() - 2) == would_delete_lines(
                deleted.len(),
                listings.len(),
            )
            &&& printed(purge).last() == purged_total_text(deleted.len())
        }),
{
    let buckets = discovered(search, system);
    law_dry_run(system, search, listings);
    law_purge(system, search, listings);
    law_all_deleted_is_listed(buckets, listings);
    let announced = printed(journey(first_state(true, system), search + chained(listings)).1);
    assert(announced.skip(announced.len() - 2) =~= would_delete_lines(
        objects(listings),
        buckets.len(),
    ));
}

/// A purge that breaks off, wherever that is: after the listings of some of the
/// buckets and the first pages of the next one, it has asked for the deletion of
/// what these pages show and of nothing else, and has said of every bucket that
/// was listed to its end how many objects it held.
pub proof fn law_purge_that_breaks_off(
    system: Seq<char>,
    search: Seq<Page>,
    listings: Seq<Seq<Page>>,
    begun: Seq<Page>,
)
    requires
        is_listing(search),
        are_listings(listings),
        listings.len() < discovered(search, system).len(),
        goes_on(begun),
    ensures
        ({
            let buckets = discovered(search, system);
            let at = listings.len();
            let pages = search + (chained(listings) + begun);
            let (e, ts) = journey(first_state(false, system), pages);
            let deleted = deletions(ts);
            &&& e == purging(system, buckets, at, all_keys(begun).len(), objects(listings))
            &&& printed(ts) == purged_lines(buckets, listings)
            &&& deleted == bucket_deletions(buckets, listings) + page_deletions(
                buckets[at as int],
                begun,
            )
            &&& deleted_keys(deleted) == all_keys(chained(listings) + begun)
        }),
{
    let buckets = discovered(search, system);
    let at = listings.len();
    let s = first_state(false, system);
    let p = purging(system, buckets, 0, 0, 0);
    law_search(false, system, search);
    lemma_purges(system, buckets, listings);
    lemma_purging(system, buckets, at, objects(listings), begun);
    lemma_journey_chains(p, chained(listings), begun);
    lemma_journey_chains(s, search, chained(listings) + begun);
    let ts = journey(s, search + (chained(listings) + begun)).1;
    assert(printed(ts) =~= purged_lines(buckets, listings));
    assert(deletions(ts) =~= bucket_deletions(buckets, listings) + page_deletions(
        buckets[at as int],
        begun,
    ));
    law_all_deleted_is_listed(buckets, listings);
    law_deleted_is_listed(buckets[at as int], begun);
    lemma_deleted_keys_chain(
        bucket_deletions(buckets, listings),
        page_deletions(buckets[at as int], begun),
    );
    lemma_all_keys_chain(chained(listings), begun);
}

/// The pages that turns ask for, in order.
pub open spec fn pages_asked(turns: Seq<TurnView>) -> Seq<Ask>
    decreases turns.len(),
{
    if turns.len() == 0 {
        seq![]
    } else {
        let earlier = pages_asked(turns.drop_last());
        if turns.last().ask is List {
            earlier.push(turns.last().ask)
        } else {
            earlier
        }
    }
}

proof fn lemma_pages_asked_chain(a: Seq<TurnView>, b: Seq<TurnView>)
    ensures
        pages_asked(a + b) == pages_asked(a) + pages_asked(b),
    decreases b.len(),
{
    if b.len() == 0 {
        assert(a + b =~= a);
        assert(pages_asked(a) + Seq::<Ask>::empty() =~= pages_asked(a));
    } else {
        lemma_pages_asked_chain(a, b.drop_last());
        assert((a + b).drop_last() =~= a + b.drop_last());
        assert((a + b).last() == b.last());
        assert(pages_asked(a + b) =~= pages_asked(a) + pages_asked(b));
    }
}

/// A dry run and a purge that have come equally far.
spec fn are_abreast(dry: SessionView, purge: SessionView) -> bool {
    &&& dry.dry_run && !purge.dry_run
    &&& dry.system_bucket == purge.system_bucket
    &&& match (dry.phase, purge.phase) {
        (PhaseView::Searching { found }, PhaseView::Searching { found: other }) => found == other,
        (
            PhaseView::Summarizing { buckets, at, .. },
            PhaseView::Purging { buckets: others, at: place, pending, .. },
        ) => buckets == others && at == place && pending is None,
        (PhaseView::Done, PhaseView::Done) => true,
        _ => false,
    }
}

proof fn lemma_abreast_after_page(dry: SessionView, purge: SessionView, page: Page)
    requires
        are_abreast(dry, purge),
    ensures
        are_abreast(page_journey(dry, page).0, page_journey(purge, page).0),
        pages_asked(page_journey(dry, page).1) == pages_asked(page_journey(purge, page).1),
{
    reveal_with_fuel(pages_asked, 3);
    let t = page_journey(dry, page).1;
    let u = page_journey(purge, page).1;
    assert(t.len() == 1);
    assert(t.drop_last() =~= Seq::<TurnView>::empty());
    if u.len() == 1 {
        assert(u.drop_last() =~= Seq::<TurnView>::empty());
    } else {
        assert(u.drop_last() =~= seq![u[0]]);
        assert(u.drop_last().drop_last() =~= Seq::<TurnView>::empty());
    }
    assert(t.last().ask is List <==> u.last().ask is List);
    assert(t.last().ask is List ==> t.last().ask == u.last().ask);
    assert(pages_asked(t) =~= pages_asked(u));
}

/// A dry run and a purge that are given the same pages ask for the same pages, in
/// the same order, wherever they break off.
pub proof fn law_dry_run_lists_what_a_purge_lists(system: Seq<char>, pages: Seq<Page>)
    ensures
        pages_asked(journey(first_state(true, system), pages).1) == pages_asked(
            journey(first_state(false, system), pages).1,
        ),
{
    lemma_abreast(system, pages);
}

proof fn lemma_abreast(system: Seq<char>, pages: Seq<Page>)
    ensures
        ({
            let dry = journey(first_state(true, system), pages);
            let purge = journey(first_state(false, system), pages);
            are_abreast(dry.0, purge.0) && pages_asked(dry.1) == pages_asked(purge.1)
        }),
    decreases pages.len(),
{
    if pages.len() > 0 {
        let earlier = pages.drop_last();
        lemma_abreast(system, earlier);
        let (dry, ts) = journey(first_state(true, system), earlier);
        let (purge, us) = journey(first_state(false, system), earlier);
        lemma_abreast_after_page(dry, purge, pages.last());
        lemma_pages_asked_chain(ts, page_journey(dry, pages.last()).1);
        lemma_pages_asked_chain(us, page_journey(purge, pages.last()).1);
    }
}

/// A dry run that breaks off, wherever that is: after the listings of some of the
/// buckets and the first pages of the next one, it has said what it found in every
/// bucket that was listed to its end, has told no total and has asked for no
/// deletion.
pub proof fn law_dry_run_that_breaks_off(
    system: Seq<char>,
    search: Seq<Page>,
    listings: Seq<Seq<Page>>,
    begun: Seq<Page>,
)
    requires
        is_listing(search),
        are_listings(listings),
        listings.len() < discovered(search, system).len(),
        goes_on(begun),
    ensures
        ({
            let buckets = discovered(search, system);
            let pages = search + (chained(listings) + begun);
            let (e, ts) = journey(first_state(true, system), pages);
            &&& e.phase == (PhaseView::Summarizing {
                buckets,
                at: listings.len(),
                summary: summary_of(all_keys(begun)),
                total: objects(listings),
            })
            &&& printed(ts) == dry_run_lines() + summary_lines(buckets, listings)
            &&& deletions(ts) == Seq::<Deletion>::empty()
        }),
{
    let buckets = discovered(search, system);
    let s = first_state(true, system);
    let p = summarizing(system, buckets, 0, 0);
    law_search(true, system, search);
    lemma_summaries(system, buckets, listings);
    lemma_summarizing(system, buckets, listings.len(), objects(listings), begun);
    lemma_journey_chains(p, chained(listings), begun);
    lemma_journey_chains(s, search, chained(listings) + begun);
    let ts = journey(s, search + (chained(listings) + begun)).1;
    assert(printed(ts) =~= dry_run_lines() + summary_lines(buckets, listings));
    assert(deletions(ts) =~= Seq::<Deletion>::empty());
}

/// The asks for the pages of one listing: the first page from the beginning, and
/// every other one from the token of the page before it.
pub open spec fn listing_asks(
    bucket: Seq<char>,
    prefix: Option<Seq<char>>,
    pages: Seq<Page>,
) -> Seq<Ask> {
    Seq::new(
        pages.len(),
        |i: int|
            Ask::List {
                bucket,
                prefix,
                token: if i == 0 {
                    None
                } else {
                    pages[i - 1].next
                },
            },
    )
}

/// The asks for the listings of buckets, one after the other.
pub open spec fn bucket_asks(buckets: Seq<Seq<char>>, listings: Seq<Seq<Page>>) -> Seq<Ask>
    decreases listings.len(),
{
    if listings.len() == 0 {
        seq![]
    } else {
        bucket_asks(buckets, listings.drop_last()) + listing_asks(
            buckets[listings.len() - 1],
            None,
            listings.last(),
        )
    }
}

/// The asks that pages lead to which say that there is more.
spec fn asks_after(bucket: Seq<char>, prefix: Option<Seq<char>>, pages: Seq<Page>) -> Seq<Ask> {
    Seq::new(pages.len(), |i: int| Ask::List { bucket, prefix, token: pages[i].next })
}

proof fn lemma_listing_asks(bucket: Seq<char>, prefix: Option<Seq<char>>, pages: Seq<Page>)
    requires
        pages.len() > 0,
    ensures
        listing_asks(bucket, prefix, pages) == seq![Ask::List { bucket, prefix, token: None }]
            + asks_after(bucket, prefix, pages.drop_last()),
{
    assert(listing_asks(bucket, prefix, pages) =~= seq![Ask::List { bucket, prefix, token: None }]
        + asks_after(bucket, prefix, pages.drop_last()));
}

proof fn lemma_one_page_asked(t: TurnView)
    ensures
        pages_asked(seq![t]) == if t.ask is List {
            seq![t.ask]
        } else {
            seq![]
        },
{
    let one = seq![t];
    assert(one.drop_last() =~= Seq::<TurnView>::empty());
    reveal_with_fuel(pages_asked, 2);
    assert(pages_asked(one) =~= if t.ask is List { seq![t.ask] } else { seq![] });
}

proof fn lemma_asked_of_last(s: SessionView, pages: Seq<Page>)
    requires
        pages.len() > 0,
    ensures
        pages_asked(journey(s, pages).1) == pages_asked(journey(s, pages.drop_last()).1)
            + pages_asked(page_journey(journey(s, pages.drop_last()).0, pages.last()).1),
{
    let (m, ts) = journey(s, pages.drop_last());
    lemma_pages_asked_chain(ts, page_journey(m, pages.last()).1);
}

/// Reading on within one listing, a dry run asks for each page from its token.
proof fn lemma_asked_within(s: SessionView, pages: Seq<Page>)
    requires
        s.dry_run,
        s.phase is Searching || s.phase is Summarizing,
        goes_on(pages),
    ensures
        pages_asked(journey(s, pages).1) == asks_after(reads(s).0, reads(s).1, pages),
        reads(journey(s, pages).0) == reads(s),
        journey(s, pages).0.phase is Searching <==> s.phase is Searching,
        journey(s, pages).0.phase is Summarizing <==> s.phase is Summarizing,
        journey(s, pages).0.dry_run,
        journey(s, pages).0.system_bucket == s.system_bucket,
    decreases pages.len(),
{
    if pages.len() == 0 {
        assert(asks_after(reads(s).0, reads(s).1, pages) =~= Seq::<Ask>::empty());
    } else {
        let earlier = pages.drop_last();
        assert forall|i: int| 0 <= i < earlier.len() implies (#[trigger] earlier[i]).truncated by {
            assert(pages[i].truncated);
        }
        lemma_asked_within(s, earlier);
        lemma_asked_of_last(s, pages);
        assert(pages[pages.len() - 1].truncated);
        let m = journey(s, earlier).0;
        lemma_one_page_asked(after_page(m, pages.last()).1);
        assert(pages_asked(journey(s, pages).1) =~= asks_after(reads(s).0, reads(s).1, pages));
    }
}

/// The ask for the first page of the bucket at `at`, if there is such a bucket.
spec fn first_ask(buckets: Seq<Seq<char>>, at: nat) -> Seq<Ask> {
    if at < buckets.len() {
        seq![Ask::List { bucket: buckets[at as int], prefix: None, token: None }]
    } else {
        seq![]
    }
}

proof fn lemma_asked_of_bucket(
    system: Seq<char>,
    buckets: Seq<Seq<char>>,
    at: nat,
    total: nat,
    listing: Seq<Page>,
)
    requires
        is_listing(listing),
        at < buckets.len(),
    ensures
        first_ask(buckets, at) + pages_asked(
            journey(summarizing(system, buckets, at, total), listing).1,
        ) == listing_asks(buckets[at as int], None, listing) + first_ask(buckets, at + 1),
{
    let s = summarizing(system, buckets, at, total);
    let earlier = listing.drop_last();
    lemma_asked_within(s, earlier);
    lemma_asked_of_last(s, listing);
    lemma_summarizing(system, buckets, at, total, earlier);
    let m = journey(s, earlier).0;
    lemma_one_page_asked(after_page(m, listing.last()).1);
    lemma_listing_asks(buckets[at as int], None, listing);
    assert(first_ask(buckets, at) + pages_asked(journey(s, listing).1) =~= listing_asks(
        buckets[at as int],
        None,
        listing,
    ) + first_ask(buckets, at + 1));
}

proof fn lemma_asked_of_buckets(
    system: Seq<char>,
    buckets: Seq<Seq<char>>,
    listings: Seq<Seq<Page>>,
)
    requires
        are_listings(listings),
        listings.len() <= buckets.len(),
        buckets.len() > 0,
    ensures
        first_ask(buckets, 0) + pages_asked(
            journey(summarizing(system, buckets, 0, 0), chained(listings)).1,
        ) == bucket_asks(buckets, listings) + first_ask(buckets, listings.len()),
    decreases listings.len(),
{
    let s = summarizing(system, buckets, 0, 0);
    if listings.len() == 0 {
        assert(pages_asked(journey(s, chained(listings)).1) =~= Seq::<Ask>::empty());
        assert(first_ask(buckets, 0) + Seq::<Ask>::empty() =~= bucket_asks(buckets, listings)
            + first_ask(buckets, 0));
    } else {
        lemma_fewer_listings(listings);
        let fewer = listings.drop_last();
        let n = fewer.len();
        lemma_asked_of_buckets(system, buckets, fewer);
        lemma_summaries(system, buckets, fewer);
        law_journey_chains(s, chained(fewer), listings.last());
        let m = summarizing(system, buckets, n, objects(fewer));
        let a = pages_asked(journey(s, chained(fewer)).1);
        let b = pages_asked(journey(m, listings.last()).1);
        lemma_pages_asked_chain(journey(s, chained(fewer)).1, journey(m, listings.last()).1);
        lemma_asked_of_bucket(system, buckets, n, objects(fewer), listings.last());
        assert(first_ask(buckets, 0) + (a + b) =~= (first_ask(buckets, 0) + a) + b);
        assert((bucket_asks(buckets, fewer) + first_ask(buckets, n)) + b =~= bucket_asks(
            buckets,
            fewer,
        ) + (first_ask(buckets, n) + b));
        assert(bucket_asks(buckets, fewer) + (listing_asks(buckets[n as int], None, listings.last())
            + first_ask(buckets, n + 1)) =~= bucket_asks(buckets, listings) + first_ask(
            buckets,
            n + 1,
        ));
    }
}

/// The pages that a scrub asks for, from its first turn on. It asks for the listing
/// of what the system bucket knows of buckets, then for that of each bucket found
/// in it, in order, each page from the token of the page before it. After the
/// listings of some of the buckets and the first pages of the next one, it has
/// asked for these pages and the one that follows.
pub proof fn law_pages_asked(
    dry_run: bool,
    lines: Seq<Seq<char>>,
    system: Seq<char>,
    search: Seq<Page>,
    listings: Seq<Seq<Page>>,
    begun: Seq<Page>,
)
    requires
        is_listing(search),
        are_listings(listings),
        0 < discovered(search, system).len(),
        listings.len() < discovered(search, system).len() || (begun.len() == 0 && listings.len()
            == discovered(search, system).len()),
        goes_on(begun),
    ensures
        ({
            let buckets = discovered(search, system);
            let at = listings.len();
            let pages = search + (chained(listings) + begun);
            let turns = seq![first_turn(lines, system)] + journey(
                first_state(dry_run, system),
                pages,
            ).1;
            let whole = listing_asks(system, Some("buckets/"@), search) + bucket_asks(
                buckets,
                listings,
            );
            &&& at == buckets.len() ==> pages_asked(turns) == whole
            &&& at < buckets.len() ==> pages_asked(turns) == whole + seq![
                Ask::List { bucket: buckets[at as int], prefix: None, token: None },
            ] + Seq::new(
                begun.len(),
                |i: int|
                    Ask::List { bucket: buckets[at as int], prefix: None, token: begun[i].next },
            )
        }),
{
    let buckets = discovered(search, system);
    let at = listings.len();
    let s = first_state(true, system);
    let p = summarizing(system, buckets, 0, 0);
    let more = chained(listings) + begun;
    let pages = search + more;
    law_dry_run_lists_what_a_purge_lists(system, pages);
    let ts = journey(first_state(dry_run, system), pages).1;
    let us = journey(s, pages).1;
    assert(pages_asked(ts) == pages_asked(us));
    let first = seq![first_turn(lines, system)];
    lemma_pages_asked_chain(first, ts);
    lemma_one_page_asked(first_turn(lines, system));
    // the search
    let earlier = search.drop_last();
    lemma_asked_within(s, earlier);
    lemma_asked_of_last(s, search);
    lemma_searching(true, system, earlier);
    law_search(true, system, search);
    let m = journey(s, earlier).0;
    lemma_named_buckets_chain(all_keys(earlier), search.last().keys, system);
    lemma_one_page_asked(after_page(m, search.last()).1);
    lemma_listing_asks(system, Some("buckets/"@), search);
    let a = pages_asked(journey(s, search).1);
    let l = listing_asks(system, Some("buckets/"@), search);
    assert(pages_asked(first) + a =~= l + first_ask(buckets, 0));
    // the buckets
    law_journey_chains(s, search, more);
    lemma_pages_asked_chain(journey(s, search).1, journey(p, more).1);
    law_journey_chains(p, chained(listings), begun);
    let q = journey(p, chained(listings)).0;
    lemma_pages_asked_chain(journey(p, chained(listings)).1, journey(q, begun).1);
    lemma_asked_of_buckets(system, buckets, listings);
    lemma_summaries(system, buckets, listings);
    let b = pages_asked(journey(p, chained(listings)).1);
    let c = pages_asked(journey(q, begun).1);
    let f = first_ask(buckets, 0);
    let g = first_ask(buckets, at);
    let w = bucket_asks(buckets, listings);
    assert(pages_asked(us) == a + (b + c));
    assert(pages_asked(first) + (a + (b + c)) =~= (pages_asked(first) + a) + b + c);
    assert((l + f) + b + c =~= l + (f + b) + c);
    assert(l + (w + g) + c =~= l + w + g + c);
    if at < buckets.len() {
        lemma_asked_within(q, begun);
        assert(c =~= Seq::new(
            begun.len(),
            |i: int| Ask::List { bucket: buckets[at as int], prefix: None, token: begun[i].next },
        ));
    } else {
        assert(c =~= Seq::<Ask>::empty());
        assert(l + w + g + c =~= l + w);
    }
}

/// Where the listing of the system bucket names no bucket, the scrub says so and
/// ends without a deletion.
pub proof fn law_no_buckets(dry_run: bool, system: Seq<char>, search: Seq<Page>)
    requires
        is_listing(search),
        forall|bucket: Seq<char>|
            bucket != system ==> !all_keys(search).contains(#[trigger] meta_key(bucket)),
    ensures
        ({
            let (e, ts) = journey(first_state(dry_run, system), search);
            &&& e.phase is Done
            &&& printed(ts) == no_buckets_lines()
            &&& deletions(ts) == Seq::<Deletion>::empty()
        }),
{
    law_search(dry_run, system, search);
    law_discovered(search, system);
    let buckets = discovered(search, system);
    if buckets.len() > 0 {
        assert(buckets.contains(buckets[0]));
        assert(all_keys(search).contains(meta_key(buckets[0])));
    }
}

// ---------------------------------------------------------------------------
// What the words of the laws mean
// ---------------------------------------------------------------------------

/// A journey goes page by page. With each page the scrub does what it does with
/// that page and, where that is to ask for a deletion, what it does when the
/// deletion is done.
pub proof fn law_journey_step(s: SessionView, pages: Seq<Page>, page: Page)
    ensures
        journey(s, Seq::empty()).0 == s,
        journey(s, Seq::empty()).1.len() == 0,
        ({
            let (here, turns) = journey(s, pages);
            let (there, all) = journey(s, pages.push(page));
            let (next, turn) = after_page(here, page);
            if turn.ask is Delete {
                there == after_deletion(next).0 && all == turns.push(turn).push(
                    after_deletion(next).1,
                )
            } else {
                there == next && all == turns.push(turn)
            }
        }),
{
    assert(pages.push(page).drop_last() =~= pages);
    let (here, turns) = journey(s, pages);
    let (next, turn) = after_page(here, page);
    assert(turns + seq![turn] =~= turns.push(turn));
    assert(turns + seq![turn, after_deletion(next).1] =~= turns.push(turn).push(
        after_deletion(next).1,
    ));
}

/// What turns print is their lines, one turn after the other.
pub proof fn law_printed(turns: Seq<TurnView>)
    ensures
        printed(turns) == turns.map_values(|t: TurnView| t.lines).flatten_alt(),
    decreases turns.len(),
{
    let all = turns.map_values(|t: TurnView| t.lines);
    if turns.len() > 0 {
        law_printed(turns.drop_last());
        assert(all.drop_last() =~= turns.drop_last().map_values(|t: TurnView| t.lines));
        assert(all.last() == turns.last().lines);
    }
}

/// The keys of pages are those of each page, one page after the other.
pub proof fn law_all_keys(pages: Seq<Page>)
    ensures
        all_keys(pages) == pages.map_values(|p: Page| p.keys).flatten_alt(),
    decreases pages.len(),
{
    let all = pages.map_values(|p: Page| p.keys);
    if pages.len() > 0 {
        law_all_keys(pages.drop_last());
        assert(all.drop_last() =~= pages.drop_last().map_values(|p: Page| p.keys));
        assert(all.last() == pages.last().keys);
    }
}

/// Listings in a row are their pages in a row, and their objects are the keys of
/// all these pages.
pub proof fn law_chained(listings: Seq<Seq<Page>>)
    ensures
        chained(listings) == listings.flatten_alt(),
        objects(listings) == all_keys(chained(listings)).len(),
    decreases listings.len(),
{
    if listings.len() > 0 {
        law_chained(listings.drop_last());
        lemma_all_keys_chain(chained(listings.drop_last()), listings.last());
    }
}

/// The keys of deletions are those of each deletion, one after the other.
pub proof fn law_deleted_keys(asked: Seq<Deletion>)
    ensures
        deleted_keys(asked) == asked.map_values(|d: Deletion| d.keys).flatten_alt(),
    decreases asked.len(),
{
    let all = asked.map_values(|d: Deletion| d.keys);
    if asked.len() > 0 {
        law_deleted_keys(asked.drop_last());
        assert(all.drop_last() =~= asked.drop_last().map_values(|d: Deletion| d.keys));
        assert(all.last() == asked.last().keys);
    }
}

/// The deletions and the pages that turns ask for are the asks of that kind, in
/// their order, and all of them.
pub proof fn law_asks(turns: Seq<TurnView>)
    ensures
        deletions(turns).map_values(
            |d: Deletion| Ask::Delete { bucket: d.bucket, keys: d.keys },
        ) == turns.map_values(|t: TurnView| t.ask).filter(|a: Ask| a is Delete),
        pages_asked(turns) == turns.map_values(|t: TurnView| t.ask).filter(|a: Ask| a is List),
    decreases turns.len(),
{
    reveal(Seq::filter);
    let asks = turns.map_values(|t: TurnView| t.ask);
    if turns.len() == 0 {
        assert(deletions(turns).map_values(
            |d: Deletion| Ask::Delete { bucket: d.bucket, keys: d.keys },
        ) =~= Seq::<Ask>::empty());
        assert(asks =~= Seq::<Ask>::empty());
    } else {
        let fewer = turns.drop_last();
        law_asks(fewer);
        assert(asks.drop_last() =~= fewer.map_values(|t: TurnView| t.ask));
        assert(asks.last() == turns.last().ask);
        let earlier = deletions(fewer).map_values(
            |d: Deletion| Ask::Delete { bucket: d.bucket, keys: d.keys },
        );
        match turns.last().ask {
            Ask::Delete { bucket, keys } => {
                assert(deletions(turns).map_values(
                    |d: Deletion| Ask::Delete { bucket: d.bucket, keys: d.keys },
                ) =~= earlier.push(turns.last().ask));
            },
            _ => {},
        }
    }
}

/// Pages list a bucket to its end where the last one, and no other, says that there
/// is no more.
pub proof fn law_listing(pages: Seq<Page>, listings: Seq<Seq<Page>>)
    ensures
        is_listing(pages) <==> pages.len() > 0 && !pages[pages.len() - 1].truncated && forall|
            i: int,
        |
            0 <= i < pages.len() - 1 ==> (#[trigger] pages[i]).truncated,
        goes_on(pages) <==> forall|i: int| 0 <= i < pages.len() ==> (#[trigger] pages[i]).truncated,
        are_listings(listings) <==> forall|i: int|
            0 <= i < listings.len() ==> is_listing(#[trigger] listings[i]),
{
    if pages.len() > 0 {
        let earlier = pages.drop_last();
        if is_listing(pages) {
            assert forall|i: int| 0 <= i < pages.len() - 1 implies (
            #[trigger] pages[i]).truncated by {
                assert(earlier[i].truncated);
            }
        }
        if forall|i: int| 0 <= i < pages.len() - 1 ==> (#[trigger] pages[i]).truncated {
            assert forall|i: int| 0 <= i < earlier.len() implies (
            #[trigger] earlier[i]).truncated by {
                assert(pages[i].truncated);
            }
        }
    }
}

/// The deletions from a bucket are one for each page that shows an object, of all
/// that it shows.
pub proof fn law_page_deletions(bucket: Seq<char>, pages: Seq<Page>)
    ensures
        page_deletions(bucket, pages).map_values(|d: Deletion| d.keys) == pages.map_values(
            |p: Page| p.keys,
        ).filter(|keys: Seq<Seq<char>>| keys.len() > 0),
        forall|i: int|
            0 <= i < page_deletions(bucket, pages).len() ==> (#[trigger] page_deletions(
                bucket,
                pages,
            )[i]).bucket == bucket,
    decreases pages.len(),
{
    reveal(Seq::filter);
    let all = pages.map_values(|p: Page| p.keys);
    if pages.len() == 0 {
        assert(all =~= Seq::<Seq<Seq<char>>>::empty());
        assert(page_deletions(bucket, pages).map_values(|d: Deletion| d.keys) =~= Seq::<
            Seq<Seq<char>>,
        >::empty());
    } else {
        let fewer = pages.drop_last();
        law_page_deletions(bucket, fewer);
        assert(all.drop_last() =~= fewer.map_values(|p: Page| p.keys));
        assert(all.last() == pages.last().keys);
        let earlier = page_deletions(bucket, fewer);
        if pages.last().keys.len() > 0 {
            assert(page_deletions(bucket, pages).map_values(|d: Deletion| d.keys)
                =~= earlier.map_values(|d: Deletion| d.keys).push(pages.last().keys));
            assert forall|i: int| 0 <= i < page_deletions(bucket, pages).len() implies (
            #[trigger] page_deletions(bucket, pages)[i]).bucket == bucket by {
                if i < earlier.len() {
                    assert(earlier[i].bucket == bucket);
                }
            }
        }
    }
}

/// What is done with buckets is done with each of them, one after the other: the
/// deletions, the asks for pages and what a dry run says.
pub proof fn law_bucket_by_bucket(buckets: Seq<Seq<char>>, listings: Seq<Seq<Page>>)
    ensures
        bucket_deletions(buckets, listings) == Seq::new(
            listings.len(),
            |i: int| page_deletions(buckets[i], listings[i]),
        ).flatten_alt(),
        bucket_asks(buckets, listings) == Seq::new(
            listings.len(),
            |i: int| listing_asks(buckets[i], None, listings[i]),
        ).flatten_alt(),
        summary_lines(buckets, listings) == Seq::new(
            listings.len(),
            |i: int|
                bucket_lines(
                    buckets[i],
                    all_keys(listings[i]).len(),
                    all_keys(listings[i]).take(
                        if all_keys(listings[i]).len() < 10 {
                            all_keys(listings[i]).len() as int
                        } else {
                            10
                        },
                    ),
                ),
        ).flatten_alt(),
        purged_lines(buckets, listings).len() == listings.len(),
        forall|i: int|
            0 <= i < listings.len() ==> #[trigger] purged_lines(buckets, listings)[i] == "purged "@
                + decimal(all_keys(listings[i]).len()) + " objects from "@ + buckets[i],
    decreases listings.len(),
{
    let d = Seq::new(listings.len(), |i: int| page_deletions(buckets[i], listings[i]));
    let a = Seq::new(listings.len(), |i: int| listing_asks(buckets[i], None, listings[i]));
    let l = Seq::new(
        listings.len(),
        |i: int|
            bucket_lines(
                buckets[i],
                all_keys(listings[i]).len(),
                all_keys(listings[i]).take(
                    if all_keys(listings[i]).len() < 10 {
                        all_keys(listings[i]).len() as int
                    } else {
                        10
                    },
                ),
            ),
    );
    if listings.len() > 0 {
        let fewer = listings.drop_last();
        let n = listings.len() - 1;
        law_bucket_by_bucket(buckets, fewer);
        assert(listings.last() == listings[n]);
        assert(d.drop_last() =~= Seq::new(
            fewer.len(),
            |i: int| page_deletions(buckets[i], fewer[i]),
        ));
        assert(a.drop_last() =~= Seq::new(
            fewer.len(),
            |i: int| listing_asks(buckets[i], None, fewer[i]),
        ));
        assert(l.drop_last() =~= Seq::new(
            fewer.len(),
            |i: int|
                bucket_lines(
                    buckets[i],
                    all_keys(fewer[i]).len(),
                    all_keys(fewer[i]).take(
                        if all_keys(fewer[i]).len() < 10 {
                            all_keys(fewer[i]).len() as int
                        } else {
                            10
                        },
                    ),
                ),
        ));
        let keys = all_keys(listings[n]);
        assert(keys.take(keys.len() as int) =~= keys);
    }
}

/// The asks for a listing: one for each page, the first from the beginning and every
/// other one from the token of the page before it.
pub proof fn law_listing_asks(bucket: Seq<char>, prefix: Option<Seq<char>>, pages: Seq<Page>)
    ensures
        listing_asks(bucket, prefix, pages).len() == pages.len(),
        forall|i: int|
            0 < i < pages.len() ==> #[trigger] listing_asks(bucket, prefix, pages)[i] == (
            Ask::List { bucket, prefix, token: pages[i - 1].next }),
        pages.len() > 0 ==> listing_asks(bucket, prefix, pages)[0] == (Ask::List {
            bucket,
            prefix,
            token: None,
        }),
{
}

/// The keys that deletions name in one bucket.
pub open spec fn keys_gone(asked: Seq<Deletion>, bucket: Seq<char>) -> Seq<Seq<char>>
    decreases asked.len(),
{
    if asked.len() == 0 {
        seq![]
    } else {
        let earlier = keys_gone(asked.drop_last(), bucket);
        if asked.last().bucket == bucket {
            earlier + asked.last().keys
        } else {
            earlier
        }
    }
}

/// The keys that deletions name in a bucket are those of each deletion from that
/// bucket, one after the other.
pub proof fn law_keys_gone(asked: Seq<Deletion>, bucket: Seq<char>)
    ensures
        keys_gone(asked, bucket) == asked.filter(|d: Deletion| d.bucket == bucket).map_values(
            |d: Deletion| d.keys,
        ).flatten_alt(),
    decreases asked.len(),
{
    reveal(Seq::filter);
    let here = asked.filter(|d: Deletion| d.bucket == bucket);
    let all = here.map_values(|d: Deletion| d.keys);
    if asked.len() > 0 {
        let fewer = asked.drop_last();
        law_keys_gone(fewer, bucket);
        let earlier = fewer.filter(|d: Deletion| d.bucket == bucket);
        if asked.last().bucket == bucket {
            assert(here =~= earlier.push(asked.last()));
            assert(all.drop_last() =~= earlier.map_values(|d: Deletion| d.keys));
            assert(all.last() == asked.last().keys);
        }
    }
}

proof fn lemma_keys_gone_chain(a: Seq<Deletion>, b: Seq<Deletion>, bucket: Seq<char>)
    ensures
        keys_gone(a + b, bucket) == keys_gone(a, bucket) + keys_gone(b, bucket),
    decreases b.len(),
{
    if b.len() == 0 {
        assert(a + b =~= a);
        assert(keys_gone(a, bucket) + Seq::<Seq<char>>::empty() =~= keys_gone(a, bucket));
    } else {
        lemma_keys_gone_chain(a, b.drop_last(), bucket);
        assert((a + b).drop_last() =~= a + b.drop_last());
        assert((a + b).last() == b.last());
        assert(keys_gone(a + b, bucket) =~= keys_gone(a, bucket) + keys_gone(b, bucket));
    }
}

proof fn lemma_keys_gone_of_bucket(from: Seq<char>, pages: Seq<Page>, bucket: Seq<char>)
    ensures
        keys_gone(page_deletions(from, pages), bucket) == if from == bucket {
            all_keys(pages)
        } else {
            seq![]
        },
    decreases pages.len(),
{
    if pages.len() > 0 {
        let fewer = pages.drop_last();
        lemma_keys_gone_of_bucket(from, fewer, bucket);
        let earlier = page_deletions(from, fewer);
        if pages.last().keys.len() > 0 {
            assert(page_deletions(from, pages).drop_last() =~= earlier);
        } else {
            assert(all_keys(pages) =~= all_keys(fewer));
        }
    }
}

proof fn lemma_keys_gone(buckets: Seq<Seq<char>>, listings: Seq<Seq<Page>>, i: int)
    requires
        listings.len() <= buckets.len(),
        0 <= i < buckets.len(),
        forall|j: int, k: int|
            0 <= j < k < buckets.len() ==> #[trigger] buckets[j] != #[trigger] buckets[k],
    ensures
        keys_gone(bucket_deletions(buckets, listings), buckets[i]) == if i < listings.len() {
            all_keys(listings[i])
        } else {
            seq![]
        },
    decreases listings.len(),
{
    if listings.len() > 0 {
        let fewer = listings.drop_last();
        let n = listings.len() - 1;
        lemma_keys_gone(buckets, fewer, i);
        lemma_keys_gone_chain(
            bucket_deletions(buckets, fewer),
            page_deletions(buckets[n], listings[n]),
            buckets[i],
        );
        lemma_keys_gone_of_bucket(buckets[n], listings[n], buckets[i]);
        if i < n {
            assert(buckets[i] != buckets[n]);
            assert(fewer[i] == listings[i]);
            assert(all_keys(listings[i]) + Seq::<Seq<char>>::empty() =~= all_keys(listings[i]));
        } else if i > n {
            assert(buckets[n] != buckets[i]);
        } else {
            assert(Seq::<Seq<char>>::empty() + all_keys(listings[i]) =~= all_keys(listings[i]));
        }
    }
}

/// A purge says how much it deletes. There is one line for each bucket, on which
/// digits amount to the number of all the keys whose deletion from that bucket was
/// asked for, over all the pages of its listing; and a last line, on which digits
/// amount to the number of all the keys whose deletion was asked for.
pub proof fn law_purge_tells_what_it_deletes(
    system: Seq<char>,
    search: Seq<Page>,
    listings: Seq<Seq<Page>>,
)
    requires
        is_listing(search),
        are_listings(listings),
        listings.len() == discovered(search, system).len() > 0,
    ensures
        ({
            let buckets = discovered(search, system);
            let ts = journey(first_state(false, system), search + listings.flatten_alt()).1;
            let lines = printed(ts);
            let gone = deletions(ts);
            &&& lines.len() == buckets.len() + 1
            &&& forall|i: int|
                0 <= i < buckets.len() ==> {
                    let keys = listings[i].map_values(|p: Page| p.keys).flatten_alt();
                    &&& #[trigger] lines[i] == "purged "@ + decimal(keys.len()) + " objects from "@
                        + buckets[i]
                    &&& numeral(decimal(keys.len())) == keys.len()
                    &&& keys_gone(gone, buckets[i]) == keys
                }
            &&& lines[buckets.len() as int] == "purged "@ + decimal(
                gone.map_values(|d: Deletion| d.keys).flatten_alt().len(),
            ) + " objects total"@
            &&& gone.map_values(|d: Deletion| d.keys).flatten_alt() == listings.flatten_alt(
            ).map_values(|p: Page| p.keys).flatten_alt()
        }),
{
    let buckets = discovered(search, system);
    law_chained(listings);
    law_purge(system, search, listings);
    law_all_deleted_is_listed(buckets, listings);
    law_bucket_by_bucket(buckets, listings);
    law_discovered(search, system);
    let ts = journey(first_state(false, system), search + chained(listings)).1;
    let gone = deletions(ts);
    law_deleted_keys(gone);
    law_all_keys(chained(listings));
    assert forall|j: int, k: int| 0 <= j < k < buckets.len() implies #[trigger] buckets[j]
        != #[trigger] buckets[k] by {
        assert(before(buckets[j], buckets[k]));
        law_string_order(buckets[j], buckets[k], buckets[k]);
    }
    assert forall|i: int| 0 <= i < buckets.len() implies {
        let keys = listings[i].map_values(|p: Page| p.keys).flatten_alt();
        &&& #[trigger] printed(ts)[i] == "purged "@ + decimal(keys.len()) + " objects from "@
            + buckets[i]
        &&& numeral(decimal(keys.len())) == keys.len()
        &&& keys_gone(gone, buckets[i]) == keys
    } by {
        law_all_keys(listings[i]);
        law_decimal(all_keys(listings[i]).len());
        lemma_keys_gone(buckets, listings, i);
        assert(printed(ts)[i] == purged_lines(buckets, listings)[i]);
    }
    law_purged_total_text(objects(listings), objects(listings));
}

/// A dry run tells what a purge of the same pages deletes. On its last line digits
/// amount to the number of all the keys that the purge asks to delete, and to the
/// number of the buckets, and the last line of the purge names the same number of
/// keys. Before its last line the dry run says of each bucket how many keys all the
/// pages of its listing hold, and shows the first ten of them.
pub proof fn law_dry_run_tells_what_a_purge_deletes(
    system: Seq<char>,
    search: Seq<Page>,
    listings: Seq<Seq<Page>>,
)
    requires
        is_listing(search),
        are_listings(listings),
        listings.len() == discovered(search, system).len() > 0,
    ensures
        ({
            let buckets = discovered(search, system);
            let pages = search + listings.flatten_alt();
            let lines = printed(journey(first_state(true, system), pages).1);
            let gone = deletions(journey(first_state(false, system), pages).1);
            let keys = gone.map_values(|d: Deletion| d.keys).flatten_alt();
            &&& lines.len() > 0
            &&& lines.last() == "Would delete: "@ + decimal(keys.len()) + " objects across "@
                + decimal(buckets.len()) + " buckets."@
            &&& numeral(decimal(keys.len())) == keys.len()
            &&& numeral(decimal(buckets.len())) == buckets.len()
            &&& printed(journey(first_state(false, system), pages).1).last() == "purged "@
                + decimal(keys.len()) + " objects total"@
            &&& deletions(journey(first_state(true, system), pages).1).len() == 0
            &&& lines == seq![
                "WARNING: This operation will delete all objects and may take several minutes."@,
                "Dry run: no objects will be deleted."@,
                "Cluster nodes: 1"@,
            ] + Seq::new(
                listings.len(),
                |i: int|
                    bucket_lines(
                        buckets[i],
                        all_keys(listings[i]).len(),
                        all_keys(listings[i]).take(
                            if all_keys(listings[i]).len() < 10 {
                                all_keys(listings[i]).len() as int
                            } else {
                                10
                            },
                        ),
                    ),
            ).flatten_alt() + seq![
                "Bucket information was discovered from the public S3 endpoint."@,
                "Would delete: "@ + decimal(keys.len()) + " objects across "@ + decimal(
                    buckets.len(),
                ) + " buckets."@,
            ]
        }),
{
    let buckets = discovered(search, system);
    law_chained(listings);
    law_dry_run(system, search, listings);
    law_purge(system, search, listings);
    law_all_deleted_is_listed(buckets, listings);
    law_bucket_by_bucket(buckets, listings);
    let gone = deletions(journey(first_state(false, system), search + chained(listings)).1);
    law_deleted_keys(gone);
    law_would_delete_lines(objects(listings), buckets.len(), objects(listings), buckets.len());
    let lines = printed(journey(first_state(true, system), search + chained(listings)).1);
    let last = would_delete_lines(objects(listings), buckets.len());
    assert(lines.last() == last[1]);
    assert(dry_run_lines() =~= seq![
        "WARNING: This operation will delete all objects and may take several minutes."@,
        "Dry run: no objects will be deleted."@,
        "Cluster nodes: 1"@,
    ]);
    assert(last =~= seq![
        "Bucket information was discovered from the public S3 endpoint."@,
        "Would delete: "@ + decimal(objects(listings)) + " objects across "@ + decimal(
            buckets.len(),
        ) + " buckets."@,
    ]);
}

/// What has been counted at any time of a run is what the pages of its buckets have
/// shown by then, and nothing before the first of them.
pub proof fn law_counted(
    dry_run: bool,
    system: Seq<char>,
    search: Seq<Page>,
    listings: Seq<Seq<Page>>,
    begun: Seq<Page>,
)
    requires
        is_listing(search),
        are_listings(listings),
        listings.len() < discovered(search, system).len(),
        goes_on(begun),
    ensures
        first_state(dry_run, system).counted() == 0,
        first_state(dry_run, system).wf(),
        first_state(dry_run, system).expects_page(),
        ({
            let pages = search + (listings.flatten_alt() + begun);
            let e = journey(first_state(dry_run, system), pages).0;
            &&& e.counted() == (listings.flatten_alt() + begun).map_values(
                |p: Page| p.keys,
            ).flatten_alt().len()
            &&& e.expects_page()
        }),
{
    law_chained(listings);
    law_all_keys(chained(listings) + begun);
    lemma_all_keys_chain(chained(listings), begun);
    if dry_run {
        law_dry_run_that_breaks_off(system, search, listings, begun);
    } else {
        law_purge_that_breaks_off(system, search, listings, begun);
    }
}

// ---------------------------------------------------------------------------
// Whatever the endpoint answers
// ---------------------------------------------------------------------------

/// The turn touches no bucket but those that a scrub is for: it deletes nothing
/// from the system bucket, and in a dry run nothing at all.
pub open spec fn is_harmless(turn: TurnView, dry_run: bool, system: Seq<char>) -> bool {
    match turn.ask {
        Ask::Delete { bucket, keys } => !dry_run && bucket != system && keys.len() > 0,
        Ask::List { bucket, prefix, token } => bucket == system <==> prefix is Some,
        Ask::Finished => true,
    }
}

proof fn lemma_page_harmless(s: SessionView, page: Page)
    requires
        s.wf(),
        s.expects_page(),
    ensures
        is_harmless(after_page(s, page).1, s.dry_run, s.system_bucket),
{
    law_page_keeps_session(s, page);
    lemma_targets_differ(after_page(s, page).0);
    lemma_targets_differ(s);
}

proof fn lemma_deletion_harmless(s: SessionView)
    requires
        s.wf(),
        s.expects_deletion(),
    ensures
        is_harmless(after_deletion(s).1, s.dry_run, s.system_bucket),
{
    law_deletion_keeps_session(s);
    lemma_targets_differ(s);
}

proof fn lemma_targets_differ(s: SessionView)
    requires
        s.wf(),
    ensures
        match s.phase {
            PhaseView::Summarizing { buckets, .. } => forall|i: int|
                0 <= i < buckets.len() ==> #[trigger] buckets[i] != s.system_bucket,
            PhaseView::Purging { buckets, .. } => forall|i: int|
                0 <= i < buckets.len() ==> #[trigger] buckets[i] != s.system_bucket,
            _ => true,
        },
{
    match s.phase {
        PhaseView::Summarizing { buckets, .. } => {
            assert forall|i: int| 0 <= i < buckets.len() implies #[trigger] buckets[i]
                != s.system_bucket by {
                assert(buckets.contains(buckets[i]));
            }
        },
        PhaseView::Purging { buckets, .. } => {
            assert forall|i: int| 0 <= i < buckets.len() implies #[trigger] buckets[i]
                != s.system_bucket by {
                assert(buckets.contains(buckets[i]));
            }
        },
        _ => {},
    }
}

/// The bucket whose listing a scrub reads, and the prefix of the keys it asks for.
pub open spec fn reads(s: SessionView) -> (Seq<char>, Option<Seq<char>>) {
    match s.phase {
        PhaseView::Searching { .. } => (s.system_bucket, Some("buckets/"@)),
        PhaseView::Summarizing { buckets, at, .. } => (buckets[at as int], None),
        PhaseView::Purging { buckets, at, .. } => (buckets[at as int], None),
        PhaseView::Done => (seq![], None),
    }
}

/// Where a page says that there is more, the next page that is asked for is of
/// the same listing, from the place that the page names; what the page shows is
/// deleted before.
pub proof fn law_listing_goes_on_from_its_token(s: SessionView, page: Page)
    requires
        s.wf(),
        s.expects_page(),
        page.truncated,
    ensures
        page_journey(s, page).1.last().ask == (Ask::List {
            bucket: reads(s).0,
            prefix: reads(s).1,
            token: page.next,
        }),
        page_journey(s, page).1.last().lines.len() == 0,
        reads(page_journey(s, page).0) == reads(s),
{
}

/// Whatever pages a scrub is given, and wherever they break off, it deletes
/// nothing from the system bucket, lists that bucket only for what it knows of
/// buckets, asks for no empty deletion and, in a dry run, for none at all.
pub proof fn law_harmless(s: SessionView, pages: Seq<Page>)
    requires
        s.wf(),
        s.expects_page() || s.phase is Done,
    ensures
        journey(s, pages).0.wf(),
        journey(s, pages).0.expects_page() || journey(s, pages).0.phase is Done,
        journey(s, pages).0.dry_run == s.dry_run,
        journey(s, pages).0.system_bucket == s.system_bucket,
        forall|i: int|
            0 <= i < journey(s, pages).1.len() ==> is_harmless(
                #[trigger] journey(s, pages).1[i],
                s.dry_run,
                s.system_bucket,
            ),
    decreases pages.len(),
{
    if pages.len() > 0 {
        let earlier = pages.drop_last();
        law_harmless(s, earlier);
        let (m, ts) = journey(s, earlier);
        let (e, us) = page_journey(m, pages.last());
        let (next, t) = after_page(m, pages.last());
        if m.expects_page() {
            law_page_keeps_session(m, pages.last());
            lemma_page_harmless(m, pages.last());
            if t.ask is Delete {
                law_deletion_keeps_session(next);
                lemma_deletion_harmless(next);
            }
        }
        let all = ts + us;
        assert forall|i: int| 0 <= i < all.len() implies is_harmless(
            #[trigger] all[i],
            s.dry_run,
            s.system_bucket,
        ) by {
            if i < ts.len() {
                assert(all[i] == ts[i]);
            } else {
                assert(all[i] == us[i - ts.len()]);
            }
        }
    }
}

} // verus!
