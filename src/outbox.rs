use vstd::prelude::*;
use crate::buffer::PopOutcome;
use crate::codec::encode;
use crate::message::InputMessage;
use crate::settings::RedisQueues;

verus! {

/// The list a dispatcher pops from: new records in the inbox, records whose
/// delivery failed in the outbox.
#[derive(Clone, Copy, Debug, PartialEq, Eq, Structural)]
pub enum Source {
    Inbox,
    Outbox,
}

/// The dispatcher's next move.
pub enum DispatchStep {
    /// Publish this record downstream.
    Deliver(InputMessage),
    /// Pop from this list.
    Pop(Source),
    /// Both lists are empty: wait one polling interval, then pop the inbox.
    Idle,
}

/// The decisions of the dispatcher that moves buffered records downstream.
/// A round starts with a pop from the inbox; where that is empty, the
/// outbox is popped; a record that fails delivery goes to the outbox tail.
pub struct OutboxDaemon {
    pub queues: RedisQueues,
}

impl OutboxDaemon {
    pub fn new(queues: RedisQueues) -> (r: OutboxDaemon)
        ensures
            r.queues == queues,
    {
        OutboxDaemon { queues }
    }

    /// The list key of `source`.
    pub fn key(&self, source: Source) -> (r: &str)
        ensures
            source == Source::Inbox ==> r@ == self.queues.inbox@,
            source == Source::Outbox ==> r@ == self.queues.outbox@,
    {
        match source {
            Source::Inbox => self.queues.inbox.as_str(),
            Source::Outbox => self.queues.outbox.as_str(),
        }
    }

    /// The next move after a pop from `source` came to `outcome`.
    pub fn after_pop(&self, source: Source, outcome: PopOutcome) -> (r: DispatchStep)
        ensures
            outcome is Empty && source == Source::Inbox ==> (r matches DispatchStep::Pop(t) && t
                == Source::Outbox),
            outcome is Empty && source == Source::Outbox ==> r is Idle,
            outcome is Discard ==> (r matches DispatchStep::Pop(t) && t == source),
            outcome matches PopOutcome::Record(m) ==> (r matches DispatchStep::Deliver(x) && x@
                == m@),
    {
        match outcome {
            PopOutcome::Empty => match source {
                Source::Inbox => DispatchStep::Pop(Source::Outbox),
                Source::Outbox => DispatchStep::Idle,
            },
            PopOutcome::Record(m) => DispatchStep::Deliver(m),
            PopOutcome::Discard => DispatchStep::Pop(source),
        }
    }

    /// What to push after a delivery attempt of `message`: nothing where it
    /// was delivered, else the record's entry to the outbox tail, as a
    /// (key, entry) pair.
    pub fn after_delivery(&self, message: &InputMessage, delivered: bool) -> (r: Option<
        (String, String),
    >)
        ensures
            delivered ==> r is None,
            !delivered ==> (r matches Some((k, e)) && k@ == self.queues.outbox@ && e@ == encode(
                message@,
            )),
    {
        if delivered {
            None
        } else {
            Some((self.queues.outbox.clone(), message.to_json()))
        }
    }

    /// The payload that publishing `message` downstream sends.
    pub fn payload(&self, message: &InputMessage) -> (r: String)
        ensures
            r@ == encode(message@),
    {
        message.to_json()
    }
}

} // verus!
