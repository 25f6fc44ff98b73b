//! The bars of the chart: one per collated thread.

use vstd::prelude::*;

verus! {

/// The label of the axis along which the threads stand.
pub const X_LABEL: &'static str = "Chats";

/// The label of the axis along which the messages are counted.
pub const Y_LABEL: &'static str = "Total messages";

/// One bar of the chart.
///
/// The height is wide enough for the sum of any two counts.
#[derive(Debug)]
pub struct Bar {
    pub label: String,
    pub height: u128,
}

/// What a [`Bar`] holds.
pub struct BarView {
    pub label: Seq<char>,
    pub height: nat,
}

impl View for Bar {
    type V = BarView;

    open spec fn view(&self) -> BarView {
        BarView { label: self.label@, height: self.height as nat }
    }
}

/// Several bars, each by its view.
pub open spec fn bar_views(bars: Seq<Bar>) -> Seq<BarView> {
    bars.map_values(|b: Bar| b@)
}

/// The height of each thread's bar: all its messages, whoever sent them.
pub open spec fn heights(counts: Map<Seq<char>, (nat, nat)>) -> Map<Seq<char>, nat> {
    Map::new(
        |title: Seq<char>| counts.dom().contains(title),
        |title: Seq<char>| counts[title].0 + counts[title].1,
    )
}

/// `bars` shows `chart` and nothing else: no label comes twice, every bar
/// has the height that `chart` gives its label, and every label of `chart`
/// has a bar. The order of the bars is left open.
pub open spec fn draws(bars: Seq<BarView>, chart: Map<Seq<char>, nat>) -> bool {
    &&& forall|j: int, k: int|
        0 <= j < k < bars.len() ==> (#[trigger] bars[j]).label != (#[trigger] bars[k]).label
    &&& forall|k: int|
        0 <= k < bars.len() ==> chart.dom().contains((#[trigger] bars[k]).label)
            && chart[bars[k].label] == bars[k].height
    &&& forall|title: Seq<char>| #[trigger]
        chart.dom().contains(title) ==> exists|k: int|
            0 <= k < bars.len() && (#[trigger] bars[k]).label == title
}

/// Whatever order they come in, two charts of the same heights hold the
/// same bars, and as many.
pub proof fn lemma_draws_same_bars(
    first: Seq<BarView>,
    second: Seq<BarView>,
    chart: Map<Seq<char>, nat>,
)
    requires
        draws(first, chart),
        draws(second, chart),
    ensures
        first.to_set() == second.to_set(),
        first.len() == second.len(),
{
    assert forall|bar: BarView| first.contains(bar) implies second.contains(bar) by {
        lemma_bar_drawn_again(first, second, chart, bar);
    }
    assert forall|bar: BarView| second.contains(bar) implies first.contains(bar) by {
        lemma_bar_drawn_again(second, first, chart, bar);
    }
    assert(first.to_set() =~= second.to_set());
    lemma_no_bar_twice(first, chart);
    lemma_no_bar_twice(second, chart);
    first.unique_seq_to_set();
    second.unique_seq_to_set();
}

/// A bar of one chart is a bar of every chart of the same heights.
proof fn lemma_bar_drawn_again(
    first: Seq<BarView>,
    second: Seq<BarView>,
    chart: Map<Seq<char>, nat>,
    bar: BarView,
)
    requires
        draws(first, chart),
        draws(second, chart),
        first.contains(bar),
    ensures
        second.contains(bar),
{
    let j = choose|j: int| 0 <= j < first.len() && first[j] == bar;
    assert(chart.dom().contains(first[j].label));
    let k = choose|k: int| 0 <= k < second.len() && (#[trigger] second[k]).label == bar.label;
    assert(second[k] == bar);
}

/// Bars with different labels are different bars.
proof fn lemma_no_bar_twice(bars: Seq<BarView>, chart: Map<Seq<char>, nat>)
    requires
        draws(bars, chart),
    ensures
        bars.no_duplicates(),
{
    assert forall|j: int, k: int| 0 <= j < bars.len() && 0 <= k < bars.len() && j != k implies {
        bars[j] != bars[k]
    } by {
        if j < k {
            assert(bars[j].label != bars[k].label);
        } else {
            assert(bars[k].label != bars[j].label);
        }
    }
}

} // verus!
