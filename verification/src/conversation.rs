//! Conversation records as they are found in an exported archive.

use vstd::prelude::*;

verus! {

/// Somebody who takes part in a conversation.
#[derive(Debug)]
pub struct Participant {
    pub name: String,
}

/// One message of a conversation.
///
/// `content` is absent for messages without text.
#[derive(Debug)]
pub struct Message {
    pub sender_name: String,
    pub timestamp_ms: usize,
    pub content: Option<String>,
}

/// One exported conversation.
#[derive(Debug)]
pub struct MessageThread {
    pub participants: Vec<Participant>,
    pub messages: Vec<Message>,
    pub title: String,
    pub is_still_participant: bool,
    pub thread_type: String,
    pub thread_path: String,
}

/// What a [`Message`] holds.
pub struct MessageView {
    pub sender_name: Seq<char>,
    pub timestamp_ms: nat,
    pub content: Option<Seq<char>>,
}

/// What a [`MessageThread`] holds.
pub struct ThreadView {
    pub participants: Seq<Seq<char>>,
    pub messages: Seq<MessageView>,
    pub title: Seq<char>,
    pub is_still_participant: bool,
    pub thread_type: Seq<char>,
    pub thread_path: Seq<char>,
}

impl View for Participant {
    type V = Seq<char>;

    open spec fn view(&self) -> Seq<char> {
        self.name@
    }
}

impl View for Message {
    type V = MessageView;

    open spec fn view(&self) -> MessageView {
        MessageView {
            sender_name: self.sender_name@,
            timestamp_ms: self.timestamp_ms as nat,
            content: match self.content {
                Some(text) => Some(text@),
                None => None,
            },
        }
    }
}

impl View for MessageThread {
    type V = ThreadView;

    open spec fn view(&self) -> ThreadView {
        ThreadView {
            participants: self.participants@.map_values(|p: Participant| p@),
            messages: message_views(self.messages@),
            title: self.title@,
            is_still_participant: self.is_still_participant,
            thread_type: self.thread_type@,
            thread_path: self.thread_path@,
        }
    }
}

/// The messages of a conversation, each by its view.
pub open spec fn message_views(messages: Seq<Message>) -> Seq<MessageView> {
    messages.map_values(|m: Message| m@)
}

/// The conversations of an archive, each by its view.
pub open spec fn thread_views(threads: Seq<MessageThread>) -> Seq<ThreadView> {
    threads.map_values(|t: MessageThread| t@)
}

} // verus!
