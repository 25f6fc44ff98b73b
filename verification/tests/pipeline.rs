use inbox_stats::chart::{Bar, X_LABEL, Y_LABEL};
use inbox_stats::conversation::{Message, MessageThread, Participant};
use inbox_stats::pipeline::{analyse_all, chart_bars};

fn conversation(title: &str, from_me: usize, from_others: &[(&str, usize)]) -> MessageThread {
    let mut messages = Vec::new();
    let mut participants = vec![Participant { name: "Will Taylor".to_string() }];
    for i in 0..from_me {
        messages.push(Message { sender_name: "Will Taylor".to_string(), timestamp_ms: i, content: None });
    }
    for (name, count) in from_others {
        participants.push(Participant { name: name.to_string() });
        for i in 0..*count {
            messages.push(Message {
                sender_name: name.to_string(),
                timestamp_ms: from_me + i,
                content: Some("hi".to_string()),
            });
        }
    }
    MessageThread {
        participants,
        messages,
        title: title.to_string(),
        is_still_participant: true,
        thread_type: "Regular".to_string(),
        thread_path: format!("inbox/{}", title),
    }
}

fn sorted(bars: Vec<Bar>) -> Vec<(String, u128)> {
    let mut pairs: Vec<(String, u128)> = bars.into_iter().map(|b| (b.label, b.height)).collect();
    pairs.sort();
    pairs
}

#[test]
fn the_axes_are_labelled() {
    assert_eq!(X_LABEL, "Chats");
    assert_eq!(Y_LABEL, "Total messages");
}

#[test]
fn a_busy_conversation_gets_a_bar() {
    let bars = chart_bars(vec![conversation("Alice", 600, &[("Alice", 500)])]);
    assert_eq!(bars.len(), 1);
    assert_eq!(bars[0].label, "Alice");
    assert_eq!(bars[0].height, 1100);
}

#[test]
fn a_quiet_conversation_gets_no_bar() {
    let bars = chart_bars(vec![conversation("Bob", 400, &[("Bob", 500)])]);
    assert!(bars.is_empty());
}

#[test]
fn an_empty_archive_gives_a_chart_without_bars() {
    let bars = chart_bars(Vec::new());
    assert!(bars.is_empty());
}

#[test]
fn busy_and_quiet_conversations_together() {
    let bars = chart_bars(vec![
        conversation("Alice", 600, &[("Alice", 500)]),
        conversation("Bob", 400, &[("Bob", 500)]),
        conversation("Group", 1, &[("Alice", 700), ("Bob", 300)]),
        conversation("Edge", 500, &[("Carol", 500)]),
        conversation("Over", 500, &[("Carol", 501)]),
        conversation("Empty", 0, &[]),
    ]);
    assert_eq!(
        sorted(bars),
        vec![("Alice".to_string(), 1100), ("Group".to_string(), 1001), ("Over".to_string(), 1001)]
    );
}

#[test]
fn the_last_busy_conversation_of_a_title_is_charted() {
    let bars = chart_bars(vec![
        conversation("Alice", 600, &[("Alice", 500)]),
        conversation("Alice", 900, &[("Alice", 900)]),
        conversation("Alice", 10, &[("Alice", 10)]),
    ]);
    assert_eq!(sorted(bars), vec![("Alice".to_string(), 1800)]);
}

#[test]
fn running_again_gives_the_same_bars() {
    let archive = || {
        vec![
            conversation("Alice", 600, &[("Alice", 500)]),
            conversation("Bob", 400, &[("Bob", 500)]),
            conversation("Carol", 0, &[("Carol", 1200)]),
            conversation("Alice", 700, &[("Alice", 700)]),
            conversation("Dave", 1001, &[]),
        ]
    };
    let first = sorted(chart_bars(archive()));
    let second = sorted(chart_bars(archive()));
    assert_eq!(first, second);
    assert_eq!(
        first,
        vec![("Alice".to_string(), 1400), ("Carol".to_string(), 1200), ("Dave".to_string(), 1001)]
    );
}

#[test]
fn analyse_all_keeps_the_order_of_the_conversations() {
    let stats = analyse_all(vec![
        conversation("Alice", 3, &[("Alice", 2)]),
        conversation("Bob", 0, &[("Bob", 4)]),
        conversation("Empty", 0, &[]),
    ]);
    assert_eq!(stats.len(), 3);
    assert_eq!(stats[0].thread_title, "Alice");
    assert_eq!((stats[0].sent_by_me, stats[0].sent_by_others, stats[0].num_participants), (3, 2, 2));
    assert_eq!(stats[1].thread_title, "Bob");
    assert_eq!((stats[1].sent_by_me, stats[1].sent_by_others, stats[1].num_participants), (0, 4, 2));
    assert_eq!(stats[2].thread_title, "Empty");
    assert_eq!((stats[2].sent_by_me, stats[2].sent_by_others, stats[2].num_participants), (0, 0, 1));
}

#[test]
fn analyse_all_of_nothing_is_nothing() {
    assert!(analyse_all(Vec::new()).is_empty());
}
