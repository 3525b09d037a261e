//! Append-only message logs and their pages.

use vstd::prelude::*;
use vstd::string::StringExecFns;

verus! {

/// Messages handed out per page.
pub const PAGE_SIZE: u64 = 100;

/// The topic under which every received message is answered.
pub const RESPONSE_TOPIC: &'static str = "/response";

/// A message on a topic, numbered by its position in the log that holds it.
#[derive(Debug, Clone)]
pub struct Message {
    pub index: u64,
    pub topic: String,
    pub message: String,
    pub timestamp: u64,
}

/// One page of a message log.
#[derive(Debug, Clone)]
pub struct PagedResult {
    pub skip: u64,
    pub limit: u64,
    pub total: u64,
    pub data: Vec<Message>,
}

/// An append-only log of messages.
pub struct MessageStore {
    messages: Vec<Message>,
}

impl Message {
    /// A copy of this message.
    pub fn copy(&self) -> (r: Message)
        ensures
            r == *self,
    {
        Message {
            index: self.index,
            topic: self.topic.clone(),
            message: self.message.clone(),
            timestamp: self.timestamp,
        }
    }
}

/// The messages of `log` from position `skip` on, at most a page of them.
pub open spec fn page_of(log: Seq<Message>, skip: u64) -> Seq<Message> {
    if skip >= log.len() {
        seq![]
    } else if log.len() - skip <= PAGE_SIZE {
        log.subrange(skip as int, log.len() as int)
    } else {
        log.subrange(skip as int, skip + PAGE_SIZE)
    }
}

impl View for MessageStore {
    type V = Seq<Message>;

    closed spec fn view(&self) -> Seq<Message> {
        self.messages@
    }
}

impl MessageStore {
    /// An empty log.
    pub fn new() -> (r: MessageStore)
        ensures
            r@ == Seq::<Message>::empty(),
    {
        MessageStore { messages: Vec::new() }
    }

    /// Appends a copy of `message`, numbered with its position in the log; the number
    /// the message carries is ignored.
    pub fn add_message(&mut self, message: &Message)
        ensures
            final(self)@ == old(self)@.push(
                Message {
                    index: old(self)@.len() as u64,
                    topic: message.topic,
                    message: message.message,
                    timestamp: message.timestamp,
                },
            ),
    {
        let msg = Message {
            index: self.messages.len() as u64,
            topic: message.topic.clone(),
            message: message.message.clone(),
            timestamp: message.timestamp,
        };
        self.messages.push(msg);
    }

    /// The whole log, oldest first.
    pub fn get_messages(&self) -> (r: &Vec<Message>)
        ensures
            r@ == self@,
    {
        &self.messages
    }

    /// The page of the log that starts at position `skip`: at most a page of messages, and
    /// `total` the number on the page.
    pub fn page(&self, skip: u64) -> (r: PagedResult)
        ensures
            r.skip == skip,
            r.limit == PAGE_SIZE,
            r.data@ == page_of(self@, skip),
            r.total == r.data@.len(),
    {
        let n = self.messages.len();
        let mut data: Vec<Message> = Vec::new();
        if (skip as u128) < (n as u128) {
            let start = skip as usize;
            let stop: usize = if n - start <= 100 { n } else { start + 100 };
            let mut i = start;
            while i < stop
                invariant
                    start <= i <= stop <= n,
                    n == self@.len(),
                    data@ == self@.subrange(start as int, i as int),
                decreases stop - i,
            {
                data.push(self.messages[i].copy());
                assert(self@.subrange(start as int, i + 1) == self@.subrange(start as int, i as int).push(self@[i as int]));
                i = i + 1;
            }
        } else {
            assert(data@ =~= page_of(self@, skip));
        }
        let total = data.len() as u64;
        PagedResult { skip, limit: PAGE_SIZE, total, data }
    }
}

/// What a received message does to the logs: `inbox` records it as received, and
/// `outbox` records the answer, the same text under the response topic.
pub fn on_message(
    inbox: &mut MessageStore,
    outbox: &mut MessageStore,
    topic: String,
    message: String,
    timestamp: u64,
)
    ensures
        final(inbox)@ == old(inbox)@.push(
            Message { index: old(inbox)@.len() as u64, topic, message, timestamp },
        ),
        final(outbox)@.len() == old(outbox)@.len() + 1,
        final(outbox)@.drop_last() == old(outbox)@,
        final(outbox)@.last().index == old(outbox)@.len() as u64,
        final(outbox)@.last().topic@ == RESPONSE_TOPIC@,
        final(outbox)@.last().message == message,
        final(outbox)@.last().timestamp == timestamp,
{
    let answer = Message {
        index: 0,
        topic: String::from_str(RESPONSE_TOPIC),
        message: message.clone(),
        timestamp,
    };
    inbox.add_message(&Message { index: 0, topic, message, timestamp });
    outbox.add_message(&answer);
}

} // verus!
