//! Per-thread message counts, split by who sent the message.

use vstd::prelude::*;
use crate::conversation::{message_views, Message, MessageThread, MessageView, ThreadView};

verus! {

/// The sender name under which the archive's owner appears.
pub const ME: &'static str = "Will Taylor";

/// A thread is charted only if it holds more messages than this.
pub const MIN_THRESH: usize = 1000;

/// The counts of one thread.
#[derive(Debug)]
pub struct Stats {
    pub thread_title: String,
    pub num_participants: u8,
    pub sent_by_me: usize,
    pub sent_by_others: usize,
}

/// What a [`Stats`] holds.
pub struct StatsView {
    pub thread_title: Seq<char>,
    pub num_participants: nat,
    pub sent_by_me: nat,
    pub sent_by_others: nat,
}

impl StatsView {
    /// All messages of the thread.
    pub open spec fn total(self) -> nat {
        self.sent_by_me + self.sent_by_others
    }

    /// Whether the thread holds more than [`MIN_THRESH`] messages.
    pub open spec fn is_active(self) -> bool {
        self.total() > MIN_THRESH
    }
}

impl View for Stats {
    type V = StatsView;

    open spec fn view(&self) -> StatsView {
        StatsView {
            thread_title: self.thread_title@,
            num_participants: self.num_participants as nat,
            sent_by_me: self.sent_by_me as nat,
            sent_by_others: self.sent_by_others as nat,
        }
    }
}

/// The counts of several threads, each by its view.
pub open spec fn stats_views(stats: Seq<Stats>) -> Seq<StatsView> {
    stats.map_values(|s: Stats| s@)
}

/// How many of `messages` were sent under exactly the name `name`.
pub open spec fn sent_by(messages: Seq<MessageView>, name: Seq<char>) -> nat {
    messages.filter(|m: MessageView| m.sender_name == name).len()
}

/// The counts of a thread: the messages are split into those sent under
/// [`ME`] and all the others, and the number of participants is kept
/// modulo 256.
pub open spec fn analysed(thread: ThreadView) -> StatsView {
    StatsView {
        thread_title: thread.title,
        num_participants: thread.participants.len() % 256,
        sent_by_me: sent_by(thread.messages, ME@),
        sent_by_others: (thread.messages.len() - sent_by(thread.messages, ME@)) as nat,
    }
}

/// Every message is counted once: under the owner or under the others.
pub proof fn lemma_analysed_counts_every_message(thread: ThreadView)
    ensures
        analysed(thread).sent_by_me + analysed(thread).sent_by_others == thread.messages.len(),
        analysed(thread).total() == thread.messages.len(),
{
    thread.messages.lemma_filter_len(|m: MessageView| m.sender_name == ME@);
}

/// A thread without messages has both counts zero.
pub proof fn lemma_analysed_without_messages(thread: ThreadView)
    requires
        thread.messages.len() == 0,
    ensures
        analysed(thread).sent_by_me == 0,
        analysed(thread).sent_by_others == 0,
{
    lemma_analysed_counts_every_message(thread);
}

/// Counts the messages sent under exactly the name `name`.
pub fn count_sent_by(messages: &Vec<Message>, name: &str) -> (count: usize)
    ensures
        count == sent_by(message_views(messages@), name@),
        count <= messages.len(),
{
    let wanted: String = name.to_owned();
    let mut count: usize = 0;
    let mut i: usize = 0;
    while i < messages.len()
        invariant
            i <= messages.len(),
            wanted@ == name@,
            count == sent_by(message_views(messages@.take(i as int)), name@),
            count <= i,
        decreases messages.len() - i,
    {
        proof {
            let seen = messages@.take(i as int);
            let pred = |m: MessageView| m.sender_name == name@;
            assert(messages@.take(i + 1) == seen.push(messages@[i as int]));
            assert(message_views(seen.push(messages@[i as int])) == message_views(seen).push(
                messages@[i as int]@,
            ));
            message_views(seen).lemma_filter_len_push(pred, messages@[i as int]@);
        }
        if messages[i].sender_name == wanted {
            count = count + 1;
        }
        i = i + 1;
    }
    proof {
        assert(messages@.take(i as int) == messages@);
    }
    count
}

/// Reduces a conversation to its counts.
pub fn analyse(message_thread: MessageThread) -> (stats: Stats)
    ensures
        stats@ == analysed(message_thread@),
        stats.sent_by_me + stats.sent_by_others == message_thread.messages.len(),
        message_thread.messages.len() == 0 ==> stats.sent_by_me == 0 && stats.sent_by_others == 0,
{
    let sent_by_me: usize = count_sent_by(&message_thread.messages, ME);
    let sent_by_others: usize = message_thread.messages.len() - sent_by_me;
    let num_participants: u8 = (message_thread.participants.len() % 256) as u8;
    Stats { thread_title: message_thread.title, num_participants, sent_by_me, sent_by_others }
}

impl Stats {
    /// All messages of the thread.
    pub fn total(&self) -> (total: u128)
        ensures
            total == self@.total(),
    {
        self.sent_by_me as u128 + self.sent_by_others as u128
    }

    /// Whether the thread holds more than [`MIN_THRESH`] messages.
    pub fn is_active(&self) -> (active: bool)
        ensures
            active == self@.is_active(),
    {
        self.total() > MIN_THRESH as u128
    }
}

} // verus!
