//! Collation: the busy threads, keyed by title.

use vstd::prelude::*;
use vstd::seq_lib::to_multiset_contains;
use crate::chart::{bar_views, draws, heights, Bar};
use crate::stats::{stats_views, Stats, StatsView, MIN_THRESH};

verus! {

/// The counts after one more thread: a thread with more than
/// [`MIN_THRESH`] messages takes the place under its title, whatever was
/// there before; any other thread changes nothing.
pub open spec fn recorded(
    counts: Map<Seq<char>, (nat, nat)>,
    stats: StatsView,
) -> Map<Seq<char>, (nat, nat)> {
    if stats.is_active() {
        counts.insert(stats.thread_title, (stats.sent_by_me, stats.sent_by_others))
    } else {
        counts
    }
}

/// The counts after all of `stats`, taken first to last.
pub open spec fn collated(stats: Seq<StatsView>) -> Map<Seq<char>, (nat, nat)>
    decreases stats.len(),
{
    if stats.len() == 0 {
        Map::empty()
    } else {
        recorded(collated(stats.drop_last()), stats.last())
    }
}

/// Every thread in `counts` holds more than [`MIN_THRESH`] messages.
pub open spec fn above_threshold(counts: Map<Seq<char>, (nat, nat)>) -> bool {
    forall|title: Seq<char>| #[trigger]
        counts.dom().contains(title) ==> counts[title].0 + counts[title].1 > MIN_THRESH
}

/// A collation holds finitely many threads, each above the threshold.
pub proof fn lemma_collated_above_threshold(stats: Seq<StatsView>)
    ensures
        collated(stats).dom().finite(),
        above_threshold(collated(stats)),
    decreases stats.len(),
{
    if stats.len() > 0 {
        lemma_collated_above_threshold(stats.drop_last());
    }
}

/// A title is in the collation if and only if some thread of that title
/// holds more than [`MIN_THRESH`] messages.
pub proof fn lemma_collated_titles(stats: Seq<StatsView>, title: Seq<char>)
    ensures
        collated(stats).dom().contains(title) <==> exists|i: int|
            0 <= i < stats.len() && (#[trigger] stats[i]).thread_title == title
                && stats[i].is_active(),
    decreases stats.len(),
{
    if stats.len() > 0 {
        let before = stats.drop_last();
        lemma_collated_titles(before, title);
        if collated(stats).dom().contains(title) {
            if stats.last().is_active() && stats.last().thread_title == title {
                assert(stats[stats.len() - 1].thread_title == title);
            } else {
                let i = choose|i: int|
                    0 <= i < before.len() && (#[trigger] before[i]).thread_title == title
                        && before[i].is_active();
                assert(stats[i] == before[i]);
            }
        }
        if exists|i: int|
            0 <= i < stats.len() && (#[trigger] stats[i]).thread_title == title
                && stats[i].is_active() {
            let i = choose|i: int|
                0 <= i < stats.len() && (#[trigger] stats[i]).thread_title == title
                    && stats[i].is_active();
            if i < stats.len() - 1 {
                assert(before[i] == stats[i]);
            }
        }
    }
}

/// Of the busy threads that share a title the last one wins: the collation
/// holds its counts alone, and nothing is summed.
pub proof fn lemma_collated_last_wins(stats: Seq<StatsView>, i: int)
    requires
        0 <= i < stats.len(),
        stats[i].is_active(),
        forall|j: int|
            i < j < stats.len() && (#[trigger] stats[j]).thread_title == stats[i].thread_title
                ==> !stats[j].is_active(),
    ensures
        collated(stats).dom().contains(stats[i].thread_title),
        collated(stats)[stats[i].thread_title] == (stats[i].sent_by_me, stats[i].sent_by_others),
    decreases stats.len(),
{
    if i < stats.len() - 1 {
        let before = stats.drop_last();
        assert(before[i] == stats[i]);
        assert forall|j: int|
            i < j < before.len() && (#[trigger] before[j]).thread_title
                == before[i].thread_title implies !before[j].is_active() by {
            assert(before[j] == stats[j]);
        }
        lemma_collated_last_wins(before, i);
        assert(stats.last() == stats[stats.len() - 1]);
    }
}

/// A thread whose title no other busy thread bears is in the collation,
/// with its own counts, if and only if it holds more than [`MIN_THRESH`]
/// messages: 1000 are too few, 1001 are enough.
pub proof fn lemma_collated_entry_iff_active(stats: Seq<StatsView>, i: int)
    requires
        0 <= i < stats.len(),
        forall|j: int|
            0 <= j < stats.len() && j != i && (#[trigger] stats[j]).thread_title
                == stats[i].thread_title ==> !stats[j].is_active(),
    ensures
        stats[i].is_active() <==> collated(stats).dom().contains(stats[i].thread_title)
            && collated(stats)[stats[i].thread_title]
            == (stats[i].sent_by_me, stats[i].sent_by_others),
        stats[i].is_active() <==> collated(stats).dom().contains(stats[i].thread_title),
        stats[i].is_active() <==> stats[i].sent_by_me + stats[i].sent_by_others >= 1001,
{
    lemma_collated_titles(stats, stats[i].thread_title);
    if stats[i].is_active() {
        lemma_collated_last_wins(stats, i);
    }
}

/// Which titles are collated does not depend on the order of the threads.
pub proof fn lemma_collated_titles_in_any_order(first: Seq<StatsView>, second: Seq<StatsView>)
    requires
        first.to_multiset() == second.to_multiset(),
    ensures
        collated(first).dom() == collated(second).dom(),
{
    assert forall|title: Seq<char>| collated(first).dom().contains(title) implies collated(
        second,
    ).dom().contains(title) by {
        lemma_collated_title_elsewhere(first, second, title);
    }
    assert forall|title: Seq<char>| collated(second).dom().contains(title) implies collated(
        first,
    ).dom().contains(title) by {
        lemma_collated_title_elsewhere(second, first, title);
    }
    assert(collated(first).dom() =~= collated(second).dom());
}

/// A title collated from some threads is collated from the same threads in
/// another order.
proof fn lemma_collated_title_elsewhere(
    first: Seq<StatsView>,
    second: Seq<StatsView>,
    title: Seq<char>,
)
    requires
        first.to_multiset() == second.to_multiset(),
        collated(first).dom().contains(title),
    ensures
        collated(second).dom().contains(title),
{
    lemma_collated_titles(first, title);
    lemma_collated_titles(second, title);
    let i = choose|i: int|
        0 <= i < first.len() && (#[trigger] first[i]).thread_title == title
            && first[i].is_active();
    assert(first.contains(first[i]));
    to_multiset_contains(first, first[i]);
    to_multiset_contains(second, first[i]);
    let j = choose|j: int| 0 <= j < second.len() && second[j] == first[i];
    assert(second[j].thread_title == title && second[j].is_active());
}

/// One collated thread.
#[derive(Debug)]
struct Entry {
    title: String,
    sent_by_me: usize,
    sent_by_others: usize,
}

/// The busy threads, keyed by title.
///
/// It holds only threads with more than [`MIN_THRESH`] messages, and at
/// most one under each title.
#[derive(Debug)]
pub struct CollatedCounts {
    entries: Vec<Entry>,
}

spec fn counts_of(entry: Entry) -> (nat, nat) {
    (entry.sent_by_me as nat, entry.sent_by_others as nat)
}

/// No two entries share a title.
spec fn distinct_titles(entries: Seq<Entry>) -> bool {
    forall|i: int, j: int|
        0 <= i < j < entries.len()
            ==> (#[trigger] entries[i]).title@ != (#[trigger] entries[j]).title@
}

spec fn holds_title(entries: Seq<Entry>, title: Seq<char>) -> bool {
    exists|i: int| 0 <= i < entries.len() && (#[trigger] entries[i]).title@ == title
}

spec fn place_of(entries: Seq<Entry>, title: Seq<char>) -> int {
    choose|i: int| 0 <= i < entries.len() && (#[trigger] entries[i]).title@ == title
}

spec fn counts_by_title(entries: Seq<Entry>) -> Map<Seq<char>, (nat, nat)> {
    Map::new(
        |title: Seq<char>| holds_title(entries, title),
        |title: Seq<char>| counts_of(entries[place_of(entries, title)]),
    )
}

/// With distinct titles, each entry is found under its title.
proof fn lemma_place_of(entries: Seq<Entry>, i: int)
    requires
        distinct_titles(entries),
        0 <= i < entries.len(),
    ensures
        holds_title(entries, entries[i].title@),
        place_of(entries, entries[i].title@) == i,
        counts_by_title(entries).dom().contains(entries[i].title@),
        counts_by_title(entries)[entries[i].title@] == counts_of(entries[i]),
{
}

/// With distinct titles, there are as many titles as entries.
proof fn lemma_count_of_titles(entries: Seq<Entry>)
    requires
        distinct_titles(entries),
    ensures
        counts_by_title(entries).dom().finite(),
        counts_by_title(entries).dom().len() == entries.len(),
{
    let titles = entries.map_values(|e: Entry| e.title@);
    assert forall|i: int, j: int|
        0 <= i < titles.len() && 0 <= j < titles.len() && i != j implies titles[i]
        != titles[j] by {
        if i < j {
            assert(entries[i].title@ != entries[j].title@);
        } else {
            assert(entries[j].title@ != entries[i].title@);
        }
    }
    assert(titles.no_duplicates());
    titles.unique_seq_to_set();
    let held = counts_by_title(entries).dom();
    assert forall|title: Seq<char>| titles.to_set().contains(title) implies held.contains(
        title,
    ) by {
        let i = choose|i: int| 0 <= i < titles.len() && titles[i] == title;
        assert(entries[i].title@ == title);
    }
    assert forall|title: Seq<char>| held.contains(title) implies titles.to_set().contains(
        title,
    ) by {
        let i = place_of(entries, title);
        assert(titles[i] == title);
    }
    assert(held =~= titles.to_set());
}

impl CollatedCounts {
    /// No title is held twice, and every thread held is above the threshold.
    #[verifier::type_invariant]
    spec fn well_formed(&self) -> bool {
        &&& distinct_titles(self.entries@)
        &&& forall|i: int|
            0 <= i < self.entries@.len() ==> (#[trigger] self.entries@[i]).sent_by_me
                + self.entries@[i].sent_by_others > MIN_THRESH
    }

    /// The counts, sent by the owner and sent by others, under each title.
    pub closed spec fn view(&self) -> Map<Seq<char>, (nat, nat)> {
        counts_by_title(self.entries@)
    }

    /// A collation without threads.
    pub fn new() -> (counts: Self)
        ensures
            counts@ == Map::<Seq<char>, (nat, nat)>::empty(),
    {
        let counts = CollatedCounts { entries: Vec::new() };
        assert(counts@ =~= Map::<Seq<char>, (nat, nat)>::empty());
        counts
    }

    /// Takes one more thread into the collation.
    pub fn record(&mut self, stats: Stats)
        ensures
            final(self)@ == recorded(old(self)@, stats@),
            above_threshold(final(self)@),
    {
        proof {
            use_type_invariant(&*self);
            lemma_above_threshold(self.entries@);
        }
        if stats.is_active() {
            let mut entries: Vec<Entry> = Vec::new();
            std::mem::swap(&mut entries, &mut self.entries);
            let ghost before = entries@;
            let place = find_title(&entries, &stats.thread_title);
            let entry = Entry {
                title: stats.thread_title,
                sent_by_me: stats.sent_by_me,
                sent_by_others: stats.sent_by_others,
            };
            match place {
                Some(i) => {
                    entries.set(i, entry);
                    proof {
                        lemma_entry_replaced(before, i as int, entry);
                    }
                },
                None => {
                    entries.push(entry);
                    proof {
                        lemma_entry_added(before, entry);
                    }
                },
            }
            self.entries = entries;
            proof {
                lemma_above_threshold(self.entries@);
            }
        }
    }

    /// How many threads are held.
    pub fn len(&self) -> (count: usize)
        ensures
            self@.dom().finite(),
            count == self@.dom().len(),
    {
        proof {
            use_type_invariant(self);
            lemma_count_of_titles(self.entries@);
        }
        self.entries.len()
    }

    /// The counts held under `title`: sent by the owner, sent by others.
    pub fn get(&self, title: &str) -> (counts: Option<(usize, usize)>)
        ensures
            counts.is_some() <==> self@.dom().contains(title@),
            counts matches Some(pair) ==> self@[title@] == (pair.0 as nat, pair.1 as nat),
            counts matches Some(pair) ==> pair.0 + pair.1 > MIN_THRESH,
    {
        proof {
            use_type_invariant(self);
        }
        let wanted: String = title.to_owned();
        match find_title(&self.entries, &wanted) {
            Some(i) => {
                proof {
                    lemma_place_of(self.entries@, i as int);
                }
                Some((self.entries[i].sent_by_me, self.entries[i].sent_by_others))
            },
            None => None,
        }
    }

    /// One bar for each thread held: its title as the label, all its
    /// messages as the height.
    pub fn bars(&self) -> (bars: Vec<Bar>)
        ensures
            draws(bar_views(bars@), heights(self@)),
            bars.len() == self@.dom().len(),
            forall|k: int| 0 <= k < bars.len() ==> (#[trigger] bars[k]).height > MIN_THRESH,
    {
        proof {
            use_type_invariant(self);
            lemma_count_of_titles(self.entries@);
        }
        let mut bars: Vec<Bar> = Vec::new();
        let mut i: usize = 0;
        while i < self.entries.len()
            invariant
                i <= self.entries@.len(),
                bars@.len() == i,
                forall|k: int|
                    0 <= k < i ==> (#[trigger] bars@[k]).label@ == self.entries@[k].title@
                        && bars@[k].height == self.entries@[k].sent_by_me
                        + self.entries@[k].sent_by_others,
            decreases self.entries@.len() - i,
        {
            let entry = &self.entries[i];
            bars.push(
                Bar {
                    label: entry.title.clone(),
                    height: entry.sent_by_me as u128 + entry.sent_by_others as u128,
                },
            );
            i = i + 1;
        }
        proof {
            let drawn = bar_views(bars@);
            let chart = heights(self@);
            assert forall|k: int| 0 <= k < drawn.len() implies {
                &&& chart.dom().contains((#[trigger] drawn[k]).label)
                &&& chart[drawn[k].label] == drawn[k].height
            } by {
                lemma_place_of(self.entries@, k);
                assert(bars@[k].label@ == self.entries@[k].title@);
            }
            assert forall|j: int, k: int| 0 <= j < k < drawn.len() implies {
                (#[trigger] drawn[j]).label != (#[trigger] drawn[k]).label
            } by {
                assert(bars@[j].label@ == self.entries@[j].title@);
                assert(bars@[k].label@ == self.entries@[k].title@);
            }
            assert forall|title: Seq<char>| #[trigger] chart.dom().contains(title) implies {
                exists|k: int| 0 <= k < drawn.len() && (#[trigger] drawn[k]).label == title
            } by {
                let k = place_of(self.entries@, title);
                assert(bars@[k].label@ == self.entries@[k].title@);
                assert(drawn[k].label == title);
            }
        }
        bars
    }
}

/// Collates the counts of all threads, first to last: the threads with
/// more than [`MIN_THRESH`] messages are kept, and of those that share a
/// title the last.
pub fn collate(stats: Vec<Stats>) -> (counts: CollatedCounts)
    ensures
        counts@ == collated(stats_views(stats@)),
        above_threshold(counts@),
{
    let ghost all = stats_views(stats@);
    let mut counts = CollatedCounts::new();
    for thread_stats in it: stats
        invariant
            stats_views(it.seq()) == all,
            counts@ == collated(all.take(it.index() as int)),
    {
        proof {
            let n = it.index() as int;
            assert(all.take(n + 1).drop_last() == all.take(n));
            assert(all.take(n + 1).last() == thread_stats@);
        }
        counts.record(thread_stats);
    }
    proof {
        assert(all.take(all.len() as int) == all);
        lemma_collated_above_threshold(all);
    }
    counts
}

/// Where the thread of this title is held, if it is.
fn find_title(entries: &Vec<Entry>, title: &String) -> (place: Option<usize>)
    ensures
        place matches Some(i) ==> i < entries@.len() && entries@[i as int].title@ == title@,
        place.is_none() ==> !holds_title(entries@, title@),
{
    let mut i: usize = 0;
    while i < entries.len()
        invariant
            i <= entries@.len(),
            forall|k: int| 0 <= k < i ==> (#[trigger] entries@[k]).title@ != title@,
        decreases entries@.len() - i,
    {
        if entries[i].title == *title {
            return Some(i);
        }
        i = i + 1;
    }
    None
}

/// Entries that are each above the threshold give counts that are.
proof fn lemma_above_threshold(entries: Seq<Entry>)
    requires
        distinct_titles(entries),
        forall|i: int|
            0 <= i < entries.len() ==> (#[trigger] entries[i]).sent_by_me
                + entries[i].sent_by_others > MIN_THRESH,
    ensures
        above_threshold(counts_by_title(entries)),
{
    let counts = counts_by_title(entries);
    assert forall|title: Seq<char>| #[trigger] counts.dom().contains(title) implies {
        counts[title].0 + counts[title].1 > MIN_THRESH
    } by {
        let i = place_of(entries, title);
        assert(entries[i].title@ == title);
    }
}

/// An entry put in the place of one of the same title takes its counts.
proof fn lemma_entry_replaced(entries: Seq<Entry>, i: int, entry: Entry)
    requires
        distinct_titles(entries),
        0 <= i < entries.len(),
        entries[i].title@ == entry.title@,
    ensures
        distinct_titles(entries.update(i, entry)),
        counts_by_title(entries.update(i, entry)) == counts_by_title(entries).insert(
            entry.title@,
            counts_of(entry),
        ),
{
    let after = entries.update(i, entry);
    assert forall|j: int, k: int| 0 <= j < k < after.len() implies {
        (#[trigger] after[j]).title@ != (#[trigger] after[k]).title@
    } by {
        assert(after[j].title@ == entries[j].title@);
        assert(after[k].title@ == entries[k].title@);
    }
    let expected = counts_by_title(entries).insert(entry.title@, counts_of(entry));
    assert forall|title: Seq<char>| {
        counts_by_title(after).dom().contains(title) <==> expected.dom().contains(title)
    } by {
        if holds_title(after, title) {
            let k = place_of(after, title);
            assert(entries[k].title@ == title);
        }
        if holds_title(entries, title) {
            let k = place_of(entries, title);
            assert(after[k].title@ == title);
        }
        if title == entry.title@ {
            assert(after[i].title@ == title);
        }
    }
    assert forall|title: Seq<char>| counts_by_title(after).dom().contains(title) implies {
        counts_by_title(after)[title] == expected[title]
    } by {
        let k = place_of(after, title);
        lemma_place_of(after, k);
        if k != i {
            assert(entries[k].title@ == title);
            lemma_place_of(entries, k);
        }
    }
    assert(counts_by_title(after) =~= expected);
}

/// An entry under a title not yet held is added with its counts.
proof fn lemma_entry_added(entries: Seq<Entry>, entry: Entry)
    requires
        distinct_titles(entries),
        !holds_title(entries, entry.title@),
    ensures
        distinct_titles(entries.push(entry)),
        counts_by_title(entries.push(entry)) == counts_by_title(entries).insert(
            entry.title@,
            counts_of(entry),
        ),
{
    let after = entries.push(entry);
    assert forall|j: int, k: int| 0 <= j < k < after.len() implies {
        (#[trigger] after[j]).title@ != (#[trigger] after[k]).title@
    } by {
        assert(after[j] == entries[j]);
        if k < entries.len() {
            assert(after[k] == entries[k]);
        }
    }
    let expected = counts_by_title(entries).insert(entry.title@, counts_of(entry));
    assert forall|title: Seq<char>| {
        counts_by_title(after).dom().contains(title) <==> expected.dom().contains(title)
    } by {
        if holds_title(after, title) {
            let k = place_of(after, title);
            if k < entries.len() {
                assert(entries[k].title@ == title);
            }
        }
        if holds_title(entries, title) {
            let k = place_of(entries, title);
            assert(after[k].title@ == title);
        }
        if title == entry.title@ {
            assert(after[entries.len() as int].title@ == title);
        }
    }
    assert forall|title: Seq<char>| counts_by_title(after).dom().contains(title) implies {
        counts_by_title(after)[title] == expected[title]
    } by {
        let k = place_of(after, title);
        lemma_place_of(after, k);
        if k < entries.len() {
            assert(entries[k].title@ == title);
            lemma_place_of(entries, k);
        }
    }
    assert(counts_by_title(after) =~= expected);
}

} // verus!
