use vstd::prelude::*;
use crate::message::{InputMessage, MessageView};

verus! {

/// The records of a batch of upstream messages, each decoded (`None` where
/// it holds no record), in arrival order: one for each message that decoded.
pub open spec fn batch_records(decoded: Seq<Option<InputMessage>>) -> Seq<MessageView>
    decreases decoded.len(),
{
    if decoded.len() == 0 {
        Seq::empty()
    } else {
        let earlier = batch_records(decoded.drop_last());
        match decoded.last() {
            Some(m) => earlier.push(m@),
            None => earlier,
        }
    }
}

/// How many messages of a batch decoded.
pub open spec fn decodable_count(decoded: Seq<Option<InputMessage>>) -> nat
    decreases decoded.len(),
{
    if decoded.len() == 0 {
        0
    } else {
        decodable_count(decoded.drop_last()) + if decoded.last() is Some {
            1nat
        } else {
            0nat
        }
    }
}

/// The views of a sequence of records.
pub open spec fn views(ms: Seq<InputMessage>) -> Seq<MessageView> {
    ms.map_values(|m: InputMessage| m@)
}

/// Whether a batch of `len` messages is complete.
pub fn batch_full(len: usize, batch_size: usize) -> (r: bool)
    ensures
        r == (len >= batch_size),
{
    len >= batch_size
}

/// What the upstream stream handed the consumer.
#[derive(Clone, Copy, Debug, PartialEq, Eq, Structural)]
pub enum StreamEvent {
    /// A message, now held in the pending batch.
    Arrived,
    /// A read error: logged, and the message is skipped.
    ReadFailed,
    /// The stream ended.
    Ended,
}

/// The consumer's next move on the stream.
#[derive(Clone, Copy, Debug, PartialEq, Eq, Structural)]
pub enum ConsumeStep {
    /// Read the next message.
    Collect,
    /// Process the pending batch to its commit; a failure ends consumption
    /// with that error.
    ProcessBatch,
    /// Stop; process the pending messages first where `flush` holds.
    Finish { flush: bool },
}

/// Decides the consumer's next move after `event`, with `pending` messages
/// held (the one that arrived included).
pub fn on_stream_event(pending: usize, batch_size: usize, event: StreamEvent) -> (r: ConsumeStep)
    ensures
        event == StreamEvent::Arrived ==> r == (if pending >= batch_size {
            ConsumeStep::ProcessBatch
        } else {
            ConsumeStep::Collect
        }),
        event == StreamEvent::ReadFailed ==> r == ConsumeStep::Collect,
        event == StreamEvent::Ended ==> r == (ConsumeStep::Finish { flush: pending > 0 }),
{
    match event {
        StreamEvent::Arrived => if batch_full(pending, batch_size) {
            ConsumeStep::ProcessBatch
        } else {
            ConsumeStep::Collect
        },
        StreamEvent::ReadFailed => ConsumeStep::Collect,
        StreamEvent::Ended => ConsumeStep::Finish { flush: pending > 0 },
    }
}

/// What a batch of upstream messages leads to: the records to push to the
/// inbox, in order, and how many messages the one commit covers.
pub struct BatchPlan {
    pub records: Vec<InputMessage>,
    pub commit_count: usize,
}

/// Plans a batch from its messages, each decoded (`None` where it holds no
/// record): the records are pushed in arrival order, the others dropped,
/// and the commit covers every message of the batch.
pub fn plan_batch(decoded: Vec<Option<InputMessage>>) -> (r: BatchPlan)
    ensures
        views(r.records@) == batch_records(decoded@),
        r.commit_count == decoded.len(),
{
    let mut records: Vec<InputMessage> = Vec::new();
    let n = decoded.len();
    let mut i: usize = 0;
    while i < n
        invariant
            n == decoded@.len(),
            i <= n,
            views(records@) == batch_records(decoded@.take(i as int)),
        decreases n - i,
    {
        let ghost before = records@;
        assert(decoded@.take(i + 1).drop_last() =~= decoded@.take(i as int));
        assert(decoded@.take(i + 1).last() == decoded@[i as int]);
        match &decoded[i] {
            Some(m) => {
                records.push(m.duplicate());
                assert(views(records@) =~= views(before).push(records@.last()@));
            },
            None => {},
        }
        i = i + 1;
    }
    assert(decoded@.take(n as int) =~= decoded@);
    BatchPlan { records, commit_count: n }
}

/// A batch of N messages of which M decode gives M records to push, and its
/// commit covers all N.
pub proof fn lemma_batch_counts(decoded: Seq<Option<InputMessage>>)
    ensures
        batch_records(decoded).len() == decodable_count(decoded),
        decodable_count(decoded) <= decoded.len(),
    decreases decoded.len(),
{
    if decoded.len() > 0 {
        lemma_batch_counts(decoded.drop_last());
    }
}

/// The next move of the consumer on a planned batch.
pub enum BatchAction {
    /// Push this record to the inbox.
    Push(InputMessage),
    /// Wait for the inbox to drain: read its depth.
    AwaitDrain,
    /// Commit the offsets of this many messages, the whole batch, at once.
    Commit(usize),
}

/// The consumer's progress through one batch: every record is pushed, then
/// the inbox is waited on until it is empty, and only then is the batch
/// committed.
pub struct BatchCycle {
    records: Vec<InputMessage>,
    message_count: usize,
    pushed: usize,
    drained: bool,
}

/// The state of a batch cycle.
pub struct CycleView {
    pub records: Seq<MessageView>,
    pub message_count: nat,
    pub pushed: nat,
    pub drained: bool,
}

impl View for BatchCycle {
    type V = CycleView;

    closed spec fn view(&self) -> CycleView {
        CycleView {
            records: views(self.records@),
            message_count: self.message_count as nat,
            pushed: self.pushed as nat,
            drained: self.drained,
        }
    }
}

/// Whether a cycle's state is consistent: no more pushes than records, and
/// a drained inbox seen only after the last push.
pub open spec fn cycle_wf(v: CycleView) -> bool {
    &&& v.pushed <= v.records.len()
    &&& v.drained ==> v.pushed == v.records.len()
}

/// The state after the move that `v` calls for, where a depth read while
/// waiting gives `depth`.
pub open spec fn cycle_after(v: CycleView, depth: nat) -> CycleView {
    if v.pushed < v.records.len() {
        CycleView {
            records: v.records,
            message_count: v.message_count,
            pushed: v.pushed + 1,
            drained: false,
        }
    } else if !v.drained {
        CycleView {
            records: v.records,
            message_count: v.message_count,
            pushed: v.pushed,
            drained: depth == 0,
        }
    } else {
        v
    }
}

/// The state after the moves of a run in which the depth reads give
/// `depths`, one per move.
pub open spec fn run_cycle(v: CycleView, depths: Seq<nat>) -> CycleView
    decreases depths.len(),
{
    if depths.len() == 0 {
        v
    } else {
        run_cycle(cycle_after(v, depths[0]), depths.drop_first())
    }
}

/// As long as no depth read finds the inbox empty, a batch is never
/// committed, however many moves are made.
pub proof fn lemma_no_commit_while_undrained(v: CycleView, depths: Seq<nat>)
    requires
        !v.drained,
        forall|i: int| 0 <= i < depths.len() ==> depths[i] > 0,
    ensures
        !run_cycle(v, depths).drained,
    decreases depths.len(),
{
    if depths.len() > 0 {
        let rest = depths.drop_first();
        assert forall|i: int| 0 <= i < rest.len() implies rest[i] > 0 by {
            assert(rest[i] == depths[i + 1]);
        }
        lemma_no_commit_while_undrained(cycle_after(v, depths[0]), rest);
    }
}

impl BatchCycle {
    pub fn new(plan: BatchPlan) -> (r: BatchCycle)
        ensures
            cycle_wf(r@),
            r@.records == views(plan.records@),
            r@.message_count == plan.commit_count,
            r@.pushed == 0,
            !r@.drained,
    {
        BatchCycle {
            records: plan.records,
            message_count: plan.commit_count,
            pushed: 0,
            drained: false,
        }
    }

    /// Whether the inbox was last seen empty after every push.
    pub fn is_drained(&self) -> (r: bool)
        ensures
            r == self@.drained,
    {
        self.drained
    }

    /// What to do next.
    pub fn next_action(&self) -> (r: BatchAction)
        requires
            cycle_wf(self@),
        ensures
            self@.pushed < self@.records.len() ==> (r matches BatchAction::Push(m) && m@
                == self@.records[self@.pushed as int]),
            self@.pushed == self@.records.len() && !self@.drained ==> r is AwaitDrain,
            self@.drained ==> r == BatchAction::Commit(self@.message_count as usize),
            r is Commit ==> self@.drained,
    {
        assert(self@.records.len() == self.records@.len());
        if self.pushed < self.records.len() {
            BatchAction::Push(self.records[self.pushed].duplicate())
        } else if !self.drained {
            BatchAction::AwaitDrain
        } else {
            BatchAction::Commit(self.message_count)
        }
    }

    /// Notes that the next record was pushed.
    pub fn record_pushed(&mut self)
        requires
            cycle_wf(old(self)@),
            old(self)@.pushed < old(self)@.records.len(),
        ensures
            cycle_wf(final(self)@),
            final(self)@ == cycle_after(old(self)@, 0),
    {
        let n = self.records.len();
        assert(self.pushed < n);
        self.pushed = self.pushed + 1;
    }

    /// Notes the inbox depth read while waiting: the batch may be committed
    /// once it is zero.
    pub fn record_depth(&mut self, depth: usize)
        requires
            cycle_wf(old(self)@),
            old(self)@.pushed == old(self)@.records.len(),
            !old(self)@.drained,
        ensures
            cycle_wf(final(self)@),
            final(self)@ == cycle_after(old(self)@, depth as nat),
            final(self)@.drained == (depth == 0),
    {
        self.drained = depth == 0;
    }
}

} // verus!
