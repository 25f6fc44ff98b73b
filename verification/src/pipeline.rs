//! From the conversations of an archive to the bars of its chart.

use vstd::prelude::*;
use crate::chart::{bar_views, draws, heights, lemma_draws_same_bars, Bar, BarView};
use crate::collate::{
    collate, collated, lemma_collated_above_threshold, lemma_collated_last_wins,
    lemma_collated_titles,
};
use crate::conversation::{thread_views, MessageThread, ThreadView};
use crate::stats::{
    analyse, analysed, lemma_analysed_counts_every_message, stats_views, Stats, StatsView,
    MIN_THRESH,
};

verus! {

/// The counts of each conversation, in the order of the conversations.
pub open spec fn analysed_all(threads: Seq<ThreadView>) -> Seq<StatsView> {
    threads.map_values(|t: ThreadView| analysed(t))
}

/// The chart of an archive: the height of the bar under each title.
pub open spec fn charted(threads: Seq<ThreadView>) -> Map<Seq<char>, nat> {
    heights(collated(analysed_all(threads)))
}

/// A title has a bar if and only if some conversation of that title holds
/// more than [`MIN_THRESH`] messages.
pub proof fn lemma_charted_titles(threads: Seq<ThreadView>, title: Seq<char>)
    ensures
        charted(threads).dom().contains(title) <==> exists|i: int|
            0 <= i < threads.len() && (#[trigger] threads[i]).title == title
                && threads[i].messages.len() > MIN_THRESH,
{
    let stats = analysed_all(threads);
    lemma_collated_titles(stats, title);
    if charted(threads).dom().contains(title) {
        let i = choose|i: int|
            0 <= i < stats.len() && (#[trigger] stats[i]).thread_title == title
                && stats[i].is_active();
        lemma_analysed_counts_every_message(threads[i]);
    }
    if exists|i: int|
        0 <= i < threads.len() && (#[trigger] threads[i]).title == title
            && threads[i].messages.len() > MIN_THRESH {
        let i = choose|i: int|
            0 <= i < threads.len() && (#[trigger] threads[i]).title == title
                && threads[i].messages.len() > MIN_THRESH;
        lemma_analysed_counts_every_message(threads[i]);
        assert(stats[i].thread_title == title && stats[i].is_active());
    }
}

/// The bar of a title is as high as the last conversation of that title
/// with more than [`MIN_THRESH`] messages is long.
pub proof fn lemma_charted_height(threads: Seq<ThreadView>, i: int)
    requires
        0 <= i < threads.len(),
        threads[i].messages.len() > MIN_THRESH,
        forall|j: int|
            i < j < threads.len() && (#[trigger] threads[j]).title == threads[i].title
                ==> threads[j].messages.len() <= MIN_THRESH,
    ensures
        charted(threads).dom().contains(threads[i].title),
        charted(threads)[threads[i].title] == threads[i].messages.len(),
{
    let stats = analysed_all(threads);
    lemma_analysed_counts_every_message(threads[i]);
    assert forall|j: int|
        i < j < stats.len() && (#[trigger] stats[j]).thread_title
            == stats[i].thread_title implies !stats[j].is_active() by {
        lemma_analysed_counts_every_message(threads[j]);
        assert(threads[j].title == threads[i].title);
    }
    lemma_collated_last_wins(stats, i);
}

/// Every bar stands for more than [`MIN_THRESH`] messages.
pub proof fn lemma_charted_above_threshold(threads: Seq<ThreadView>)
    ensures
        charted(threads).dom().finite(),
        forall|title: Seq<char>| #[trigger]
            charted(threads).dom().contains(title) ==> charted(threads)[title] > MIN_THRESH,
{
    lemma_collated_above_threshold(analysed_all(threads));
    assert(charted(threads).dom() =~= collated(analysed_all(threads)).dom());
}

/// Two runs over the same conversations chart the same bars, with the same
/// heights, in whatever order each run draws them.
pub proof fn lemma_rerun_draws_same_bars(
    threads: Seq<ThreadView>,
    first_run: Seq<BarView>,
    second_run: Seq<BarView>,
)
    requires
        draws(first_run, charted(threads)),
        draws(second_run, charted(threads)),
    ensures
        first_run.to_set() == second_run.to_set(),
        first_run.len() == second_run.len(),
{
    lemma_draws_same_bars(first_run, second_run, charted(threads));
}

/// Reduces each conversation to its counts.
pub fn analyse_all(threads: Vec<MessageThread>) -> (stats: Vec<Stats>)
    ensures
        stats_views(stats@) == analysed_all(thread_views(threads@)),
{
    let ghost all = thread_views(threads@);
    let mut stats: Vec<Stats> = Vec::new();
    for message_thread in it: threads
        invariant
            thread_views(it.seq()) == all,
            stats@.len() == it.index(),
            forall|k: int| 0 <= k < stats@.len() ==> (#[trigger] stats@[k])@ == analysed(all[k]),
    {
        let thread_stats = analyse(message_thread);
        stats.push(thread_stats);
    }
    assert(stats_views(stats@) =~= analysed_all(all));
    stats
}

/// The bars of the chart of an archive: one for each title under which a
/// conversation holds more than [`MIN_THRESH`] messages.
pub fn chart_bars(threads: Vec<MessageThread>) -> (bars: Vec<Bar>)
    ensures
        draws(bar_views(bars@), charted(thread_views(threads@))),
        bars.len() == charted(thread_views(threads@)).dom().len(),
        forall|k: int| 0 <= k < bars.len() ==> (#[trigger] bars[k]).height > MIN_THRESH,
        threads.len() == 0 ==> bars.len() == 0,
{
    let stats = analyse_all(threads);
    let counts = collate(stats);
    let bars = counts.bars();
    proof {
        let chart = charted(thread_views(threads@));
        assert(chart.dom() =~= counts@.dom());
        if threads.len() == 0 {
            assert(counts@.dom() =~= Set::<Seq<char>>::empty());
        }
    }
    bars
}

} // verus!
