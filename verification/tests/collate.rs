use inbox_stats::chart::Bar;
use inbox_stats::collate::{collate, CollatedCounts};
use inbox_stats::stats::Stats;

fn stats(title: &str, me: usize, others: usize) -> Stats {
    Stats { thread_title: title.to_string(), num_participants: 2, sent_by_me: me, sent_by_others: others }
}

fn sorted(bars: Vec<Bar>) -> Vec<(String, u128)> {
    let mut pairs: Vec<(String, u128)> = bars.into_iter().map(|b| (b.label, b.height)).collect();
    pairs.sort();
    pairs
}

#[test]
fn a_new_collation_is_empty() {
    let counts = CollatedCounts::new();
    assert_eq!(counts.len(), 0);
    assert_eq!(counts.get("Alice"), None);
    assert!(counts.bars().is_empty());
}

#[test]
fn collate_of_nothing_is_empty() {
    let counts = collate(Vec::new());
    assert_eq!(counts.len(), 0);
    assert!(counts.bars().is_empty());
}

#[test]
fn collate_keeps_threads_above_the_threshold() {
    let counts = collate(vec![stats("Alice", 600, 500), stats("Bob", 400, 500), stats("Carol", 1, 2000)]);
    assert_eq!(counts.len(), 2);
    assert_eq!(counts.get("Alice"), Some((600, 500)));
    assert_eq!(counts.get("Bob"), None);
    assert_eq!(counts.get("Carol"), Some((1, 2000)));
}

#[test]
fn collate_leaves_out_exactly_one_thousand() {
    let counts = collate(vec![stats("even", 500, 500), stats("mine", 1000, 0), stats("theirs", 0, 1000)]);
    assert_eq!(counts.len(), 0);
    assert_eq!(counts.get("even"), None);
    assert_eq!(counts.get("mine"), None);
    assert_eq!(counts.get("theirs"), None);
}

#[test]
fn collate_takes_in_one_thousand_and_one() {
    let counts = collate(vec![stats("even", 500, 501), stats("mine", 1001, 0), stats("theirs", 0, 1001)]);
    assert_eq!(counts.len(), 3);
    assert_eq!(counts.get("even"), Some((500, 501)));
    assert_eq!(counts.get("mine"), Some((1001, 0)));
    assert_eq!(counts.get("theirs"), Some((0, 1001)));
}

#[test]
fn collate_lets_the_last_of_a_title_win() {
    let counts = collate(vec![
        stats("Alice", 600, 500),
        stats("Bob", 2000, 1),
        stats("Alice", 700, 800),
        stats("Alice", 3, 1500),
    ]);
    assert_eq!(counts.len(), 2);
    assert_eq!(counts.get("Alice"), Some((3, 1500)));
    assert_eq!(counts.get("Bob"), Some((2000, 1)));
    assert_eq!(sorted(counts.bars()), vec![("Alice".to_string(), 1503), ("Bob".to_string(), 2001)]);
}

#[test]
fn collate_does_not_sum_threads_of_one_title() {
    let counts = collate(vec![stats("Alice", 600, 500), stats("Alice", 600, 500)]);
    assert_eq!(counts.len(), 1);
    assert_eq!(counts.get("Alice"), Some((600, 500)));
    assert_eq!(sorted(counts.bars()), vec![("Alice".to_string(), 1100)]);
}

#[test]
fn collate_does_not_sum_quiet_threads_of_one_title() {
    let counts = collate(vec![stats("Alice", 300, 300), stats("Alice", 300, 300)]);
    assert_eq!(counts.len(), 0);
    assert_eq!(counts.get("Alice"), None);
}

#[test]
fn a_quiet_thread_does_not_displace_a_busy_one_of_its_title() {
    let counts = collate(vec![stats("Alice", 600, 500), stats("Alice", 1, 1)]);
    assert_eq!(counts.len(), 1);
    assert_eq!(counts.get("Alice"), Some((600, 500)));
}

#[test]
fn collate_depends_on_the_order_of_equal_titles() {
    let forward = collate(vec![stats("Alice", 600, 500), stats("Alice", 900, 900)]);
    let backward = collate(vec![stats("Alice", 900, 900), stats("Alice", 600, 500)]);
    assert_eq!(forward.get("Alice"), Some((900, 900)));
    assert_eq!(backward.get("Alice"), Some((600, 500)));
}

#[test]
fn titles_are_told_apart_exactly() {
    let counts = collate(vec![stats("Alice", 600, 500), stats("alice", 700, 500), stats("Alice ", 800, 500), stats("", 900, 500)]);
    assert_eq!(counts.len(), 4);
    assert_eq!(counts.get("Alice"), Some((600, 500)));
    assert_eq!(counts.get("alice"), Some((700, 500)));
    assert_eq!(counts.get("Alice "), Some((800, 500)));
    assert_eq!(counts.get(""), Some((900, 500)));
    assert_eq!(counts.get("ALICE"), None);
}

#[test]
fn record_takes_threads_one_by_one() {
    let mut counts = CollatedCounts::new();
    counts.record(stats("Alice", 600, 500));
    assert_eq!(counts.len(), 1);
    counts.record(stats("Bob", 400, 500));
    assert_eq!(counts.len(), 1);
    assert_eq!(counts.get("Bob"), None);
    counts.record(stats("Bob", 400, 601));
    assert_eq!(counts.len(), 2);
    assert_eq!(counts.get("Bob"), Some((400, 601)));
    counts.record(stats("Alice", 0, 5000));
    assert_eq!(counts.len(), 2);
    assert_eq!(counts.get("Alice"), Some((0, 5000)));
    assert_eq!(counts.get("Bob"), Some((400, 601)));
}

#[test]
fn record_and_collate_agree() {
    let list = || vec![stats("a", 600, 500), stats("b", 1, 1), stats("a", 2000, 0), stats("c", 0, 1001), stats("b", 1001, 1)];
    let collated = collate(list());
    let mut recorded = CollatedCounts::new();
    for s in list() {
        recorded.record(s);
    }
    assert_eq!(collated.len(), recorded.len());
    for title in ["a", "b", "c", "d"] {
        assert_eq!(collated.get(title), recorded.get(title));
    }
    assert_eq!(sorted(collated.bars()), sorted(recorded.bars()));
}

#[test]
fn bars_show_each_thread_once_with_all_its_messages() {
    let counts = collate(vec![
        stats("Alice", 600, 500),
        stats("Bob", 400, 500),
        stats("Carol", 1, 2000),
        stats("Dave", 1001, 0),
    ]);
    let bars = counts.bars();
    assert_eq!(bars.len(), counts.len());
    assert_eq!(
        sorted(bars),
        vec![("Alice".to_string(), 1100), ("Carol".to_string(), 2001), ("Dave".to_string(), 1001)]
    );
}

#[test]
fn bars_hold_sums_beyond_the_range_of_a_count() {
    let counts = collate(vec![stats("Huge", usize::MAX, usize::MAX)]);
    assert_eq!(counts.get("Huge"), Some((usize::MAX, usize::MAX)));
    assert_eq!(sorted(counts.bars()), vec![("Huge".to_string(), 2 * (usize::MAX as u128))]);
}

#[test]
fn every_bar_is_above_the_threshold() {
    let mut list = Vec::new();
    for n in 990..1010 {
        list.push(stats(&format!("t{}", n), n / 2, n - n / 2));
    }
    let bars = collate(list).bars();
    assert_eq!(bars.len(), 9);
    for bar in &bars {
        assert!(bar.height > 1000);
        assert_eq!(bar.label, format!("t{}", bar.height));
    }
}

#[test]
fn the_order_does_not_decide_which_titles_are_kept() {
    let forward = collate(vec![
        stats("Alice", 600, 500),
        stats("Bob", 400, 500),
        stats("Alice", 1, 1),
        stats("Carol", 0, 1001),
        stats("Bob", 1, 2),
    ]);
    let backward = collate(vec![
        stats("Bob", 1, 2),
        stats("Carol", 0, 1001),
        stats("Alice", 1, 1),
        stats("Bob", 400, 500),
        stats("Alice", 600, 500),
    ]);
    assert_eq!(forward.len(), 2);
    assert_eq!(backward.len(), 2);
    for title in ["Alice", "Bob", "Carol"] {
        assert_eq!(forward.get(title).is_some(), backward.get(title).is_some());
    }
    assert!(forward.get("Alice").is_some());
    assert!(forward.get("Bob").is_none());
    assert!(forward.get("Carol").is_some());
}
