//! The queue's loss ledger. Every line a session loses is counted once in its
//! cumulative total and stays owed until exactly one thing carries it out: the gap of
//! the record that next survives, or the residual handed out at the end. What a
//! session has lost is therefore always what it is still owed plus what has already
//! been carried out of the queue, never more and never less.
use vstd::prelude::*;
use crate::archive::queue::{
    batch_begun, discarded, enqueued, fresh_session, front_taken,
    pending_gap_taken, record_bytes, released, session_finished, finish_called, session_taken, ArchiveQueue, SessionQueue,
};
use crate::archive::record::{
    gap_of, no_loss, text_bytes, with_loss, ArchiveRecord, DropCounters, FinishedSession, QueuedRecord,
};
use crate::error::AppError;

verus! {

/// The lines of the gap a record carries for session `id`: none for another
/// session's record.
pub open spec fn gap_lines(item: QueuedRecord, id: Seq<char>) -> int {
    if item.record.session_id@ == id {
        match item.gap_before {
            Some(g) => g.lines as int,
            None => 0,
        }
    } else {
        0
    }
}

/// The bytes of the gap a record carries for session `id`.
pub open spec fn gap_bytes(item: QueuedRecord, id: Seq<char>) -> int {
    if item.record.session_id@ == id {
        match item.gap_before {
            Some(g) => g.bytes as int,
            None => 0,
        }
    } else {
        0
    }
}

/// The lost lines the records of `items` carry for session `id`.
pub open spec fn carried_lines(items: Seq<QueuedRecord>, id: Seq<char>) -> int
    decreases items.len(),
{
    if items.len() == 0 {
        0
    } else {
        carried_lines(items.drop_last(), id) + gap_lines(items.last(), id)
    }
}

/// The lost bytes the records of `items` carry for session `id`.
pub open spec fn carried_bytes(items: Seq<QueuedRecord>, id: Seq<char>) -> int
    decreases items.len(),
{
    if items.len() == 0 {
        0
    } else {
        carried_bytes(items.drop_last(), id) + gap_bytes(items.last(), id)
    }
}

/// The lost lines of session `id` the queue no longer owes: lost, and already carried
/// out of the queue, on a record handed out or as a residual handed over.
pub open spec fn settled_lines(q: ArchiveQueue, id: Seq<char>) -> int {
    q.session(id).dropped.lines - q.session(id).pending.lines - carried_lines(q.queued_records(), id)
        - carried_lines(q.in_flight_records(), id)
}

/// The lost bytes of session `id` the queue no longer owes.
pub open spec fn settled_bytes(q: ArchiveQueue, id: Seq<char>) -> int {
    q.session(id).dropped.bytes - q.session(id).pending.bytes - carried_bytes(q.queued_records(), id)
        - carried_bytes(q.in_flight_records(), id)
}

/// Whether one more loss of `bytes` bytes can be counted into `counters` exactly,
/// with no saturation.
pub open spec fn counts_exactly(counters: DropCounters, bytes: int) -> bool {
    &&& counters.lines + 1 <= i64::MAX
    &&& counters.bytes + bytes <= i64::MAX
}

proof fn lemma_carried_concat(a: Seq<QueuedRecord>, b: Seq<QueuedRecord>, id: Seq<char>)
    ensures
        carried_lines(a + b, id) == carried_lines(a, id) + carried_lines(b, id),
        carried_bytes(a + b, id) == carried_bytes(a, id) + carried_bytes(b, id),
    decreases b.len(),
{
    if b.len() == 0 {
        assert(a + b =~= a);
    } else {
        lemma_carried_concat(a, b.drop_last(), id);
        assert((a + b).drop_last() =~= a + b.drop_last());
        assert((a + b).last() == b.last());
    }
}

proof fn lemma_carried_first(items: Seq<QueuedRecord>, id: Seq<char>)
    requires
        items.len() > 0,
    ensures
        carried_lines(items, id) == gap_lines(items[0], id) + carried_lines(items.drop_first(), id),
        carried_bytes(items, id) == gap_bytes(items[0], id) + carried_bytes(items.drop_first(), id),
{
    let head = seq![items[0]];
    lemma_carried_concat(head, items.drop_first(), id);
    assert(head + items.drop_first() =~= items);
    assert(head.drop_last() =~= Seq::<QueuedRecord>::empty());
    assert(head.last() == items[0]);
    assert(carried_lines(Seq::<QueuedRecord>::empty(), id) == 0);
    assert(carried_bytes(Seq::<QueuedRecord>::empty(), id) == 0);
    assert(carried_lines(head, id) == gap_lines(items[0], id));
    assert(carried_bytes(head, id) == gap_bytes(items[0], id));
}

/// A queue just made has settled nothing and owes nothing.
pub proof fn a_new_queue_has_settled_nothing(q: ArchiveQueue, id: Seq<char>)
    requires
        q.queued_records().len() == 0,
        q.in_flight_records().len() == 0,
        q.session(id) == fresh_session(),
    ensures
        settled_lines(q, id) == 0,
        settled_bytes(q, id) == 0,
{
}

/// An enqueue moves no loss out of the queue: an accepted record takes its session's
/// pending loss along as its gap, and a refused one is counted both as lost and as
/// owed, as long as the counts do not saturate.
pub proof fn an_enqueue_settles_no_loss(
    before: ArchiveQueue,
    after: ArchiveQueue,
    record: ArchiveRecord,
    accepted: bool,
    id: Seq<char>,
)
    requires
        enqueued(before, after, record, accepted),
        !accepted && id == record.session_id@ ==> {
            &&& counts_exactly(before.session(id).dropped, text_bytes(record.line@) as int)
            &&& counts_exactly(before.session(id).pending, text_bytes(record.line@) as int)
        },
    ensures
        settled_lines(after, id) == settled_lines(before, id),
        settled_bytes(after, id) == settled_bytes(before, id),
{
    let rid = record.session_id@;
    let entry = before.session(rid);
    if accepted {
        let item = QueuedRecord { record, gap_before: gap_of(entry.pending) };
        let one = seq![item];
        lemma_carried_concat(before.queued_records(), one, id);
        assert(before.queued_records().push(item) =~= before.queued_records() + one);
        assert(one.drop_last() =~= Seq::<QueuedRecord>::empty());
        assert(one.last() == item);
        assert(carried_lines(Seq::<QueuedRecord>::empty(), id) == 0);
        assert(carried_bytes(Seq::<QueuedRecord>::empty(), id) == 0);
        assert(carried_lines(one, id) == gap_lines(item, id));
        assert(carried_bytes(one, id) == gap_bytes(item, id));
        if id == rid {
            assert(gap_lines(item, id) == entry.pending.lines);
            assert(gap_bytes(item, id) == entry.pending.bytes);
            assert(after.session(id).pending == no_loss());
            assert(after.session(id).dropped == entry.dropped);
        } else {
            assert(gap_lines(item, id) == 0);
            assert(gap_bytes(item, id) == 0);
            assert(after.session(id) == before.session(id));
        }
    } else {
        if id == rid {
            assert(after.session(id).dropped.lines == entry.dropped.lines + 1);
            assert(after.session(id).pending.lines == entry.pending.lines + 1);
            assert(after.session(id).dropped.bytes - entry.dropped.bytes == after.session(id).pending.bytes
                - entry.pending.bytes);
        } else {
            assert(after.session(id) == before.session(id));
        }
    }
}

/// Starting a batch moves records, not losses.
pub proof fn a_batch_settles_no_loss(before: ArchiveQueue, after: ArchiveQueue, id: Seq<char>)
    requires
        batch_begun(before, after),
    ensures
        settled_lines(after, id) == settled_lines(before, id),
        settled_bytes(after, id) == settled_bytes(before, id),
{
    lemma_carried_concat(before.in_flight_records(), before.queued_records(), id);
    assert(after.queued_records() =~= Seq::<QueuedRecord>::empty());
}

/// A record handed out carries its gap out of the queue with it, and nothing else.
pub proof fn a_taken_record_carries_its_gap_out(
    before: ArchiveQueue,
    after: ArchiveQueue,
    item: QueuedRecord,
    id: Seq<char>,
)
    requires
        front_taken(before, after, Some(item)),
    ensures
        settled_lines(after, id) == settled_lines(before, id) + gap_lines(item, id),
        settled_bytes(after, id) == settled_bytes(before, id) + gap_bytes(item, id),
{
    lemma_carried_first(before.in_flight_records(), id);
}

/// A written record settles no loss of its own: only its room comes back.
pub proof fn a_release_settles_no_loss(before: ArchiveQueue, after: ArchiveQueue, item: QueuedRecord, id: Seq<char>)
    requires
        released(before, after, item),
    ensures
        settled_lines(after, id) == settled_lines(before, id),
        settled_bytes(after, id) == settled_bytes(before, id),
{
}

/// A record that will never be written is a new loss, counted once, and the gap it
/// carried is owed again rather than counted a second time, as long as the counts do
/// not saturate.
pub proof fn a_discard_takes_its_gap_back(before: ArchiveQueue, after: ArchiveQueue, item: QueuedRecord, id: Seq<char>)
    requires
        discarded(before, after, item),
        id == item.record.session_id@ ==> {
            let entry = before.session(id);
            let bytes = text_bytes(item.record.line@) as int;
            &&& counts_exactly(entry.dropped, bytes)
            &&& match item.gap_before {
                Some(g) => {
                    &&& i64::MIN <= entry.pending.lines + g.lines <= i64::MAX
                    &&& i64::MIN <= entry.pending.bytes + g.bytes <= i64::MAX
                    &&& counts_exactly(
                        DropCounters {
                            lines: (entry.pending.lines + g.lines) as i64,
                            bytes: (entry.pending.bytes + g.bytes) as i64,
                        },
                        bytes,
                    )
                },
                None => counts_exactly(entry.pending, bytes),
            }
        },
    ensures
        settled_lines(after, id) == settled_lines(before, id) - gap_lines(item, id),
        settled_bytes(after, id) == settled_bytes(before, id) - gap_bytes(item, id),
{
}

/// The residual, handed out, leaves the queue: what was pending is settled, and the
/// cumulative total stays.
pub proof fn the_residual_is_settled_when_handed_out(
    before: ArchiveQueue,
    after: ArchiveQueue,
    id: Seq<char>,
    gap: Option<DropCounters>,
    other: Seq<char>,
)
    requires
        pending_gap_taken(before, after, id, gap),
    ensures
        settled_lines(after, id) == settled_lines(before, id) + match gap {
            Some(g) => g.lines as int,
            None => 0,
        },
        settled_bytes(after, id) == settled_bytes(before, id) + match gap {
            Some(g) => g.bytes as int,
            None => 0,
        },
        other != id ==> settled_lines(after, other) == settled_lines(before, other),
        other != id ==> settled_bytes(after, other) == settled_bytes(before, other),
{
}

/// One public call on a queue that changes it, short of `discard_session`.
pub enum QueueStep {
    /// `enqueue`, accepted or not.
    Enqueue(ArchiveRecord, bool),
    /// `begin_batch`.
    Batch,
    /// `take_front`, with what it handed out.
    Take(Option<QueuedRecord>),
    /// `release` of a record.
    Release(QueuedRecord),
    /// `discard` of a record.
    Discard(QueuedRecord),
    /// `take_pending_gap` for a session, with what it handed out.
    TakeGap(String, Option<DropCounters>),
    /// `take_session` for a session, with the records it handed out.
    TakeSession(String, Vec<QueuedRecord>),
    /// `finish_session` for a session, with its answer.
    Finish(String, Result<FinishedSession, AppError>),
}

/// Whether `after` is what `step` makes of `before`, as each call's contract says.
pub open spec fn step_taken(before: ArchiveQueue, after: ArchiveQueue, step: QueueStep) -> bool {
    match step {
        QueueStep::Enqueue(record, accepted) => enqueued(before, after, record, accepted),
        QueueStep::Batch => batch_begun(before, after),
        QueueStep::Take(r) => front_taken(before, after, r),
        QueueStep::Release(item) => released(before, after, item),
        QueueStep::Discard(item) => discarded(before, after, item),
        QueueStep::TakeGap(session_id, gap) => pending_gap_taken(before, after, session_id@, gap),
        QueueStep::TakeSession(session_id, taken) => session_taken(before, after, session_id@, taken@),
        QueueStep::Finish(session_id, r) => finish_called(before, after, session_id@, r),
    }
}

/// How many records `steps` accepted.
pub open spec fn accepted_count(steps: Seq<QueueStep>) -> int
    decreases steps.len(),
{
    if steps.len() == 0 {
        0
    } else {
        accepted_count(steps.drop_last()) + match steps.last() {
            QueueStep::Enqueue(_, true) => 1int,
            _ => 0int,
        }
    }
}

/// How many records `steps` settled, by a release or a discard.
pub open spec fn settled_count(steps: Seq<QueueStep>) -> int
    decreases steps.len(),
{
    if steps.len() == 0 {
        0
    } else {
        settled_count(steps.drop_last()) + match steps.last() {
            QueueStep::Release(_) | QueueStep::Discard(_) => 1int,
            _ => 0int,
        }
    }
}

/// The records a queue holds room for are those accepted and not yet settled: an
/// accepted `enqueue` adds one, a `release` or a `discard` gives one back, and
/// `begin_batch`, `take_front`, `take_pending_gap`, `take_session` and
/// `finish_session` change nothing. Stated for every run of calls from
/// a new queue that settles only records it has accepted, so that no count goes below
/// zero; so `len` counts the records still owed a release or a discard.
pub proof fn the_queue_holds_what_was_accepted_and_not_settled(states: Seq<ArchiveQueue>, steps: Seq<QueueStep>)
    requires
        states.len() == steps.len() + 1,
        states[0].reserved_records() == 0,
        forall|i: int| 0 <= i < steps.len() ==> step_taken(states[i], states[i + 1], #[trigger] steps[i]),
        forall|k: int| 0 <= k <= steps.len() ==> settled_count(#[trigger] steps.subrange(0, k)) <= accepted_count(
            steps.subrange(0, k)),
    ensures
        states.last().reserved_records() == accepted_count(steps) - settled_count(steps),
    decreases steps.len(),
{
    if steps.len() > 0 {
        let n = steps.len() - 1;
        let fewer = steps.subrange(0, n as int);
        assert(steps.drop_last() =~= fewer);
        assert forall|k: int| 0 <= k <= fewer.len() implies settled_count(#[trigger] fewer.subrange(0, k))
            <= accepted_count(fewer.subrange(0, k)) by {
            assert(fewer.subrange(0, k) =~= steps.subrange(0, k));
        }
        assert forall|i: int| 0 <= i < fewer.len() implies step_taken(
            states.subrange(0, n + 1)[i],
            states.subrange(0, n + 1)[i + 1],
            #[trigger] fewer[i],
        ) by {
            assert(fewer[i] == steps[i]);
        }
        the_queue_holds_what_was_accepted_and_not_settled(states.subrange(0, n + 1), fewer);
        assert(steps.subrange(0, steps.len() as int) =~= steps);
        assert(step_taken(states[n], states[n + 1], steps[n]));
    }
}

/// Session `id`'s cumulative loss after `step`, from `dropped` before it: a refused
/// record of `id` or a discarded one adds itself, saturating; finishing `id` clears
/// it; nothing else changes it.
pub open spec fn dropped_after(dropped: DropCounters, step: QueueStep, id: Seq<char>) -> DropCounters {
    match step {
        QueueStep::Enqueue(record, accepted) => if !accepted && record.session_id@ == id {
            with_loss(dropped, text_bytes(record.line@))
        } else {
            dropped
        },
        QueueStep::Discard(item) => if item.record.session_id@ == id {
            with_loss(dropped, record_bytes(item))
        } else {
            dropped
        },
        QueueStep::Finish(session_id, r) => if session_id@ == id && r is Ok {
            no_loss()
        } else {
            dropped
        },
        _ => dropped,
    }
}

/// Session `id`'s cumulative loss after every one of `steps`, from `dropped`.
pub open spec fn dropped_after_all(dropped: DropCounters, steps: Seq<QueueStep>, id: Seq<char>) -> DropCounters
    decreases steps.len(),
{
    if steps.len() == 0 {
        dropped
    } else {
        dropped_after(dropped_after_all(dropped, steps.drop_last(), id), steps.last(), id)
    }
}

/// A session's losses are never forgotten while it runs: no call but
/// `finish_session` lowers its cumulative count of lost lines or bytes, and a refused
/// `enqueue` or a `discard` of one of its records adds that record to it, once.
pub proof fn losses_are_never_forgotten(before: ArchiveQueue, after: ArchiveQueue, step: QueueStep, id: Seq<char>)
    requires
        step_taken(before, after, step),
    ensures
        after.session(id).dropped == dropped_after(before.session(id).dropped, step, id),
        !(step is Finish) ==> after.session(id).dropped.lines >= before.session(id).dropped.lines,
        !(step is Finish) ==> after.session(id).dropped.bytes >= before.session(id).dropped.bytes,
{
    before.lemma_untracked_is_fresh(id);
    after.lemma_untracked_is_fresh(id);
}

/// Over any run of calls, a session's cumulative loss is what it started from with
/// every refused record of the session and every discarded one added once, in order,
/// and cleared only by finishing the session; so between finishes it never goes down,
/// and taking a gap out, taking the session's records or settling a batch clears none
/// of it.
pub proof fn the_cumulative_loss_counts_every_lost_record_once(
    states: Seq<ArchiveQueue>,
    steps: Seq<QueueStep>,
    id: Seq<char>,
)
    requires
        states.len() == steps.len() + 1,
        forall|i: int| 0 <= i < steps.len() ==> step_taken(states[i], states[i + 1], #[trigger] steps[i]),
    ensures
        states.last().session(id).dropped == dropped_after_all(states[0].session(id).dropped, steps, id),
        (forall|i: int| 0 <= i < steps.len() ==> !(#[trigger] steps[i] is Finish)) ==> {
            &&& states.last().session(id).dropped.lines >= states[0].session(id).dropped.lines
            &&& states.last().session(id).dropped.bytes >= states[0].session(id).dropped.bytes
        },
    decreases steps.len(),
{
    if steps.len() > 0 {
        let n = steps.len() - 1;
        let fewer = steps.subrange(0, n as int);
        assert(steps.drop_last() =~= fewer);
        assert forall|i: int| 0 <= i < fewer.len() implies step_taken(
            states.subrange(0, n + 1)[i],
            states.subrange(0, n + 1)[i + 1],
            #[trigger] fewer[i],
        ) by {
            assert(fewer[i] == steps[i]);
        }
        the_cumulative_loss_counts_every_lost_record_once(states.subrange(0, n + 1), fewer, id);
        assert(step_taken(states[n], states[n + 1], steps[n]));
        losses_are_never_forgotten(states[n], states[n + 1], steps[n], id);
    }
}


/// The call that settles the `i`th of `taken` records after the first `written` of
/// them reached the disk: a release for those, a discard for every later one.
pub open spec fn settle_step(taken: Seq<QueuedRecord>, written: int, i: int) -> QueueStep {
    if i < written {
        QueueStep::Release(taken[i])
    } else {
        QueueStep::Discard(taken[i])
    }
}

/// Settle records a close took and tried to write in order, where the writes stopped
/// at the first failure: the first `written` are released, every later one is charged
/// as a loss, in order, each exactly once.
pub fn settle_written(queue: &mut ArchiveQueue, taken: Vec<QueuedRecord>, written: usize)
    requires
        old(queue).wf(),
    ensures
        final(queue).wf(),
        exists|states: Seq<ArchiveQueue>|
            {
                &&& states.len() == taken@.len() + 1
                &&& states[0] == *old(queue)
                &&& states.last() == *final(queue)
                &&& forall|i: int|
                    0 <= i < taken@.len() ==> step_taken(
                        states[i],
                        states[i + 1],
                        #[trigger] settle_step(taken@, written as int, i),
                    )
            },
{
    let ghost all = taken@;
    let total = taken.len();
    let ghost start = *queue;
    let ghost mut states: Seq<ArchiveQueue> = seq![*queue];
    let mut rest = taken;
    let mut i: usize = 0;
    while rest.len() > 0
        invariant
            queue.wf(),
            0 <= i <= all.len(),
            all.len() == total,
            rest@ == all.subrange(i as int, all.len() as int),
            states.len() == i + 1,
            states[0] == start,
            states.last() == *queue,
            forall|k: int|
                0 <= k < i ==> step_taken(states[k], states[k + 1], #[trigger] settle_step(all, written as int, k)),
        decreases rest@.len(),
    {
        assert(i < all.len());
        let item = rest.remove(0);
        proof {
            assert(item == all[i as int]);
        }
        let ghost before = *queue;
        if i < written {
            queue.release(&item);
        } else {
            queue.discard(item);
        }
        proof {
            let old_states = states;
            states = states.push(*queue);
            assert forall|k: int| 0 <= k < i + 1 implies step_taken(
                states[k],
                states[k + 1],
                #[trigger] settle_step(all, written as int, k),
            ) by {
                if k < i {
                    assert(states[k] == old_states[k]);
                    assert(states[k + 1] == old_states[k + 1]);
                } else {
                    assert(states[k] == before);
                    assert(states[k + 1] == *queue);
                }
            }
        }
        i = i + 1;
        proof {
            assert(rest@ =~= all.subrange(i as int, all.len() as int));
        }
    }
    proof {
        assert(all.subrange(i as int, all.len() as int).len() == 0);
    }
}


/// A session is finished once: when nothing of it is still reserved, finishing hands
/// over its pending gap (if any) and its cumulative loss and forgets it, whether or
/// not the queue tracked it; finishing it again is owed nothing and changes nothing.
pub proof fn a_session_is_finished_once(
    first: ArchiveQueue,
    second: ArchiveQueue,
    third: ArchiveQueue,
    id: Seq<char>,
    r1: Result<FinishedSession, AppError>,
    r2: Result<FinishedSession, AppError>,
)
    requires
        first.session(id).records == 0,
        session_finished(first, second, id, r1),
        session_finished(second, third, id, r2),
    ensures
        r1 == Ok::<FinishedSession, AppError>(FinishedSession {
            residual_gap: gap_of(first.session(id).pending),
            dropped: first.session(id).dropped,
        }),
        second.session(id) == fresh_session(),
        r2 == Ok::<FinishedSession, AppError>(FinishedSession { residual_gap: None, dropped: no_loss() }),
        third.session(id) == fresh_session(),
{
    first.lemma_untracked_is_fresh(id);
    second.lemma_untracked_is_fresh(id);
    third.lemma_untracked_is_fresh(id);
}

} // verus!
