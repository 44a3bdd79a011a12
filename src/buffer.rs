use vstd::prelude::*;
use crate::message::{InputMessage, MessageView};

verus! {

/// What a pop makes of the entry it took from the head of a list.
pub enum PopOutcome {
    /// The entry held a record: the pop returns it.
    Record(InputMessage),
    /// The entry held no record: it is dropped and the pop takes the next one.
    Discard,
    /// The list was empty: the pop waits one polling interval and tries again.
    Empty,
}

/// The decoded value of a list entry: the record it holds, if it holds one.
pub open spec fn entry_view(entry: Option<InputMessage>) -> Option<MessageView> {
    match entry {
        Some(m) => Some(m@),
        None => None,
    }
}

/// Decides a pop on the head of a list: `None` where the list was empty,
/// else the entry taken, decoded (`None` where it holds no record).
pub fn pop_outcome(head: Option<Option<InputMessage>>) -> (r: PopOutcome)
    ensures
        head is None ==> r is Empty,
        head matches Some(e) ==> match entry_view(e) {
            Some(m) => r matches PopOutcome::Record(x) && x@ == m,
            None => r is Discard,
        },
{
    match head {
        None => PopOutcome::Empty,
        Some(Some(m)) => PopOutcome::Record(m),
        Some(None) => PopOutcome::Discard,
    }
}

/// Whether a list of `depth` entries is drained, so that a wait for it ends.
pub fn queue_drained(depth: usize) -> (r: bool)
    ensures
        r == (depth == 0),
{
    depth == 0
}

/// The record that a pop returns from a list whose entries decode to
/// `entries`, head first, and how many entries it takes off; `None` while
/// no entry holds a record.
pub open spec fn next_record(entries: Seq<Option<MessageView>>) -> Option<(MessageView, int)>
    decreases entries.len(),
{
    if entries.len() == 0 {
        None
    } else {
        match entries[0] {
            Some(m) => Some((m, 1)),
            None => match next_record(entries.drop_first()) {
                Some((m, k)) => Some((m, k + 1)),
                None => None,
            },
        }
    }
}

/// The records that pops return, in order, from a list whose entries decode
/// to `entries`, with nothing pushed meanwhile, until the list is empty.
pub open spec fn records_of(entries: Seq<Option<MessageView>>) -> Seq<MessageView>
    decreases entries.len(),
{
    if entries.len() == 0 {
        Seq::empty()
    } else {
        match entries[0] {
            Some(m) => seq![m] + records_of(entries.drop_first()),
            None => records_of(entries.drop_first()),
        }
    }
}

/// The decoded entries that pushes of `ms`, in order, append to a list.
pub open spec fn entries_of(ms: Seq<MessageView>) -> Seq<Option<MessageView>> {
    ms.map_values(|m: MessageView| Some(m))
}

/// Pushes come out of pops in the order they went in: pops on a list filled
/// by pushes of `ms` return the records of `ms`, in order, one entry each.
pub proof fn lemma_fifo(ms: Seq<MessageView>)
    ensures
        records_of(entries_of(ms)) == ms,
        ms.len() > 0 ==> next_record(entries_of(ms)) == Some((ms[0], 1int)),
    decreases ms.len(),
{
    if ms.len() > 0 {
        assert(entries_of(ms).drop_first() =~= entries_of(ms.drop_first()));
        lemma_fifo(ms.drop_first());
        assert(seq![ms[0]] + ms.drop_first() =~= ms);
    } else {
        assert(entries_of(ms) =~= Seq::<Option<MessageView>>::empty());
    }
}

/// An entry at the head that holds no record is passed over: the pop returns
/// the record it would have returned without it, taking one entry more, and
/// no record is lost behind it.
pub proof fn lemma_skip_malformed(rest: Seq<Option<MessageView>>)
    ensures
        next_record(seq![None] + rest) == match next_record(rest) {
            Some((m, k)) => Some((m, k + 1)),
            None => None,
        },
        records_of(seq![None] + rest) == records_of(rest),
{
    assert((seq![None] + rest).drop_first() =~= rest);
}

/// A pushed record, a re-queued one included, comes out after everything
/// the list held before it.
pub proof fn lemma_push_tail(entries: Seq<Option<MessageView>>, m: MessageView)
    ensures
        records_of(entries.push(Some(m))) == records_of(entries).push(m),
    decreases entries.len(),
{
    if entries.len() == 0 {
        assert(entries.push(Some(m)) =~= seq![Some(m)]);
        assert(seq![Some(m)].drop_first() =~= Seq::<Option<MessageView>>::empty());
        assert(records_of(Seq::<Option<MessageView>>::empty()) == Seq::<MessageView>::empty());
        assert(records_of(entries) == Seq::<MessageView>::empty());
        assert(records_of(seq![Some(m)]) == seq![m] + records_of(
            Seq::<Option<MessageView>>::empty(),
        ));
        assert(seq![m] + Seq::<MessageView>::empty() =~= seq![m]);
        assert(Seq::<MessageView>::empty().push(m) =~= seq![m]);
    } else {
        assert(entries.push(Some(m)).drop_first() =~= entries.drop_first().push(Some(m)));
        assert(entries.push(Some(m))[0] == entries[0]);
        lemma_push_tail(entries.drop_first(), m);
        match entries[0] {
            Some(h) => {
                assert(seq![h] + records_of(entries.drop_first()).push(m) =~= (seq![h]
                    + records_of(entries.drop_first())).push(m));
            },
            None => {},
        }
    }
}

} // verus!
