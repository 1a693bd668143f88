//! The bounded hand-off from the capture threads to the writer.
use std::collections::VecDeque;
use vstd::prelude::*;
use crate::archive::record::{
    combined, no_loss, text_bytes, with_loss, DropCounters, FinishedSession, QueuedRecord,
    gap_of, line_bytes, ArchiveRecord,
};
use crate::error::{invalid, AppError, AppResult};
use crate::text::{decimal_digits, push_decimal, push_str, str_eq};

verus! {

/// Queue bound for one session, in records.
pub const SESSION_QUEUE_RECORDS: usize = 2_048;

/// Queue bound for one session, in bytes of archived text.
pub const SESSION_QUEUE_BYTES: usize = 4 * 1024 * 1024;

/// Queue bound across all sessions, in records.
pub const TOTAL_QUEUE_RECORDS: usize = 4_096;

/// Queue bound across all sessions, in bytes of archived text.
pub const TOTAL_QUEUE_BYTES: usize = 8 * 1024 * 1024;

/// The queue bounds. Production uses [`QueueBounds::default`], the documented
/// numbers; a test uses small ones so an overflow is reached in a few records.
#[derive(Debug, Clone, Copy, PartialEq, Eq, Structural)]
pub struct QueueBounds {
    pub session_records: usize,
    pub session_bytes: usize,
    pub total_records: usize,
    pub total_bytes: usize,
}

impl Default for QueueBounds {
    fn default() -> (b: Self)
        ensures
            b == (QueueBounds {
                session_records: SESSION_QUEUE_RECORDS,
                session_bytes: SESSION_QUEUE_BYTES,
                total_records: TOTAL_QUEUE_RECORDS,
                total_bytes: TOTAL_QUEUE_BYTES,
            }),
    {
        QueueBounds {
            session_records: SESSION_QUEUE_RECORDS,
            session_bytes: SESSION_QUEUE_BYTES,
            total_records: TOTAL_QUEUE_RECORDS,
            total_bytes: TOTAL_QUEUE_BYTES,
        }
    }
}

/// One session's share of the queue.
#[derive(Debug, Clone, Copy, PartialEq, Eq, Structural)]
pub struct SessionQueue {
    /// Records this session currently has reserved.
    pub records: usize,
    /// Bytes of archived text this session currently has reserved.
    pub bytes: usize,
    /// Lost since this session's last accepted record, and not yet handed to anyone.
    pub pending: DropCounters,
    /// Everything this session has lost. Never cleared while the session lasts.
    pub dropped: DropCounters,
}

/// The entry a session that has not been seen starts from.
pub open spec fn fresh_session() -> SessionQueue {
    SessionQueue { records: 0, bytes: 0, pending: no_loss(), dropped: no_loss() }
}

/// The bytes a record reserves: the UTF-8 length of its text, not of its encoding.
pub open spec fn record_bytes(item: QueuedRecord) -> usize {
    text_bytes(item.record.line@)
}

/// Whether a record of `bytes` bytes still fits a session holding `session`, in a
/// queue holding `reserved` records and `held` bytes. Reaching a bound exactly still
/// fits; one record or one byte past it does not.
pub open spec fn fits(
    bounds: QueueBounds,
    session: SessionQueue,
    reserved: usize,
    held: usize,
    bytes: usize,
) -> bool {
    &&& session.records < bounds.session_records
    &&& session.bytes + bytes <= bounds.session_bytes
    &&& reserved < bounds.total_records
    &&& held + bytes <= bounds.total_bytes
}

/// `session` after one more of its records was refused or lost.
pub open spec fn after_loss(session: SessionQueue, bytes: usize) -> SessionQueue {
    SessionQueue {
        pending: with_loss(session.pending, bytes),
        dropped: with_loss(session.dropped, bytes),
        ..session
    }
}

/// `session` after one of its records carrying `gap` was lost after being accepted:
/// the carried gap returns to `pending` and to nothing else, and the record itself
/// is a new loss.
pub open spec fn after_discard(session: SessionQueue, gap: Option<DropCounters>, bytes: usize) -> SessionQueue {
    let pending = match gap {
        Some(carried) => combined(session.pending, carried),
        None => session.pending,
    };
    SessionQueue {
        pending: with_loss(pending, bytes),
        dropped: with_loss(session.dropped, bytes),
        ..session
    }
}

/// `session` after one of its reserved records, `bytes` long, was settled.
pub open spec fn after_free(session: SessionQueue, bytes: usize) -> SessionQueue {
    SessionQueue {
        records: if session.records > 0 { (session.records - 1) as usize } else { 0 },
        bytes: if session.bytes >= bytes { (session.bytes - bytes) as usize } else { 0 },
        ..session
    }
}

/// `x - y`, or zero when `y` is larger.
pub open spec fn minus(x: usize, y: usize) -> usize {
    if x >= y { (x - y) as usize } else { 0 }
}

/// The records of one session in a list, in order.
pub open spec fn of_session(items: Seq<QueuedRecord>, session_id: Seq<char>) -> Seq<QueuedRecord>
    decreases items.len(),
{
    if items.len() == 0 {
        items
    } else if items.last().record.session_id@ == session_id {
        of_session(items.drop_last(), session_id).push(items.last())
    } else {
        of_session(items.drop_last(), session_id)
    }
}

/// The records of every other session in a list, in order.
pub open spec fn not_of_session(items: Seq<QueuedRecord>, session_id: Seq<char>) -> Seq<QueuedRecord>
    decreases items.len(),
{
    if items.len() == 0 {
        items
    } else if items.last().record.session_id@ != session_id {
        not_of_session(items.drop_last(), session_id).push(items.last())
    } else {
        not_of_session(items.drop_last(), session_id)
    }
}

/// A session's entry after every one of `items` was lost after being accepted and
/// had its room given back, in order.
pub open spec fn after_discarding_all(session: SessionQueue, items: Seq<QueuedRecord>) -> SessionQueue
    decreases items.len(),
{
    if items.len() == 0 {
        session
    } else {
        let before = after_discarding_all(session, items.drop_last());
        let last = items.last();
        after_free(after_discard(before, last.gap_before, record_bytes(last)), record_bytes(last))
    }
}

/// A record count after every one of `items` gave its room back.
pub open spec fn records_after_freeing(reserved: usize, items: Seq<QueuedRecord>) -> usize
    decreases items.len(),
{
    if items.len() == 0 {
        reserved
    } else {
        minus(records_after_freeing(reserved, items.drop_last()), 1)
    }
}

/// A byte count after every one of `items` gave its room back.
pub open spec fn bytes_after_freeing(held: usize, items: Seq<QueuedRecord>) -> usize
    decreases items.len(),
{
    if items.len() == 0 {
        held
    } else {
        minus(bytes_after_freeing(held, items.drop_last()), record_bytes(items.last()))
    }
}

proof fn lemma_of_session_is_of_session(items: Seq<QueuedRecord>, session_id: Seq<char>)
    ensures
        forall|k: int| 0 <= k < of_session(items, session_id).len()
            ==> (#[trigger] of_session(items, session_id)[k]).record.session_id@ == session_id,
    decreases items.len(),
{
    if items.len() > 0 {
        lemma_of_session_is_of_session(items.drop_last(), session_id);
    }
}

proof fn lemma_split_push(items: Seq<QueuedRecord>, item: QueuedRecord, session_id: Seq<char>)
    ensures
        of_session(items.push(item), session_id) == if item.record.session_id@ == session_id {
            of_session(items, session_id).push(item)
        } else {
            of_session(items, session_id)
        },
        not_of_session(items.push(item), session_id) == if item.record.session_id@ != session_id {
            not_of_session(items, session_id).push(item)
        } else {
            not_of_session(items, session_id)
        },
{
    assert(items.push(item).drop_last() =~= items);
}

/// What [`ArchiveQueue::enqueue`] does: accepts a record exactly when it fits every
/// bound, queueing it with the loss its session had pending; or refuses it and counts
/// it as a loss. Nothing else changes.
pub open spec fn enqueued(before: ArchiveQueue, after: ArchiveQueue, record: ArchiveRecord, accepted: bool) -> bool {
    let id = record.session_id@;
    let entry = before.session(id);
    let bytes = text_bytes(record.line@);
    &&& after.bounds_of() == before.bounds_of()
    &&& accepted == fits(before.bounds_of(), entry, before.reserved_records(), before.reserved_bytes(), bytes)
    &&& after.tracks(id)
    &&& after.in_flight_records() == before.in_flight_records()
    &&& accepted ==> {
        &&& after.queued_records() == before.queued_records().push(
            QueuedRecord { record, gap_before: gap_of(entry.pending) },
        )
        &&& after.session(id) == (SessionQueue {
            records: (entry.records + 1) as usize,
            bytes: (entry.bytes + bytes) as usize,
            pending: no_loss(),
            dropped: entry.dropped,
        })
        &&& after.reserved_records() == before.reserved_records() + 1
        &&& after.reserved_bytes() == before.reserved_bytes() + bytes
    }
    &&& !accepted ==> {
        &&& after.queued_records() == before.queued_records()
        &&& after.session(id) == after_loss(entry, bytes)
        &&& after.reserved_records() == before.reserved_records()
        &&& after.reserved_bytes() == before.reserved_bytes()
    }
    &&& forall|other: Seq<char>| other != id ==> #[trigger] after.tracks(other) == before.tracks(other)
    &&& forall|other: Seq<char>| other != id ==> #[trigger] after.session(other) == before.session(other)
}

/// What [`ArchiveQueue::begin_batch`] does: everything queued moves behind what is in
/// flight. Nothing is freed.
pub open spec fn batch_begun(before: ArchiveQueue, after: ArchiveQueue) -> bool {
    &&& after.in_flight_records() == before.in_flight_records() + before.queued_records()
    &&& after.queued_records().len() == 0
    &&& after.reserved_records() == before.reserved_records()
    &&& after.reserved_bytes() == before.reserved_bytes()
    &&& after.bounds_of() == before.bounds_of()
    &&& forall|id: Seq<char>| #[trigger] after.tracks(id) == before.tracks(id)
    &&& forall|id: Seq<char>| #[trigger] after.session(id) == before.session(id)
}

/// What [`ArchiveQueue::take_front`] does: hands out the front in-flight record, if
/// any. Nothing is freed.
pub open spec fn front_taken(before: ArchiveQueue, after: ArchiveQueue, r: Option<QueuedRecord>) -> bool {
    &&& match r {
        Some(item) => before.in_flight_records().len() > 0
            && item == before.in_flight_records()[0]
            && after.in_flight_records() == before.in_flight_records().drop_first(),
        None => before.in_flight_records().len() == 0
            && after.in_flight_records() == before.in_flight_records(),
    }
    &&& after.queued_records() == before.queued_records()
    &&& after.reserved_records() == before.reserved_records()
    &&& after.reserved_bytes() == before.reserved_bytes()
    &&& after.bounds_of() == before.bounds_of()
    &&& forall|id: Seq<char>| #[trigger] after.tracks(id) == before.tracks(id)
    &&& forall|id: Seq<char>| #[trigger] after.session(id) == before.session(id)
}

/// What [`ArchiveQueue::release`] does: gives a written record's room back and
/// counts no loss.
pub open spec fn released(before: ArchiveQueue, after: ArchiveQueue, item: QueuedRecord) -> bool {
    let id = item.record.session_id@;
    &&& after.queued_records() == before.queued_records()
    &&& after.in_flight_records() == before.in_flight_records()
    &&& after.bounds_of() == before.bounds_of()
    &&& after.reserved_records() == minus(before.reserved_records(), 1)
    &&& after.reserved_bytes() == minus(before.reserved_bytes(), record_bytes(item))
    &&& forall|other: Seq<char>| #[trigger] after.tracks(other) == before.tracks(other)
    &&& after.session(id) == if before.tracks(id) {
        after_free(before.session(id), record_bytes(item))
    } else {
        before.session(id)
    }
    &&& forall|other: Seq<char>| other != id ==> #[trigger] after.session(other) == before.session(other)
}

/// What [`ArchiveQueue::discard`] does: gives a record's room back and counts it as a
/// loss, returning the gap it carried to its session's `pending`.
pub open spec fn discarded(before: ArchiveQueue, after: ArchiveQueue, item: QueuedRecord) -> bool {
    let id = item.record.session_id@;
    &&& after.queued_records() == before.queued_records()
    &&& after.in_flight_records() == before.in_flight_records()
    &&& after.bounds_of() == before.bounds_of()
    &&& after.reserved_records() == minus(before.reserved_records(), 1)
    &&& after.reserved_bytes() == minus(before.reserved_bytes(), record_bytes(item))
    &&& after.tracks(id)
    &&& after.session(id) == after_free(
        after_discard(before.session(id), item.gap_before, record_bytes(item)),
        record_bytes(item),
    )
    &&& forall|other: Seq<char>| other != id ==> #[trigger] after.tracks(other) == before.tracks(other)
    &&& forall|other: Seq<char>| other != id ==> #[trigger] after.session(other) == before.session(other)
}

/// What [`ArchiveQueue::take_pending_gap`] does: hands out a session's pending loss,
/// if any, and clears it. Its cumulative total stays.
pub open spec fn pending_gap_taken(before: ArchiveQueue, after: ArchiveQueue, session_id: Seq<char>, gap: Option<DropCounters>) -> bool {
    &&& gap == gap_of(before.session(session_id).pending)
    &&& after.session(session_id) == (SessionQueue { pending: no_loss(), ..before.session(session_id) })
    &&& forall|id: Seq<char>| #[trigger] after.tracks(id) == before.tracks(id)
    &&& forall|other: Seq<char>| other != session_id ==> #[trigger] after.session(other) == before.session(other)
    &&& after.queued_records() == before.queued_records()
    &&& after.in_flight_records() == before.in_flight_records()
    &&& after.reserved_records() == before.reserved_records()
    &&& after.reserved_bytes() == before.reserved_bytes()
    &&& after.bounds_of() == before.bounds_of()
}

/// What [`ArchiveQueue::finish_session`] does to `id` and answers: nothing is owed
/// for a session it does not track; one with records still reserved is refused and
/// kept; any other hands over its pending gap and cumulative loss and is forgotten.
pub open spec fn session_finished(before: ArchiveQueue, after: ArchiveQueue, id: Seq<char>, r: AppResult<FinishedSession>) -> bool {
    let entry = before.session(id);
    if !before.tracks(id) {
        &&& r == Ok::<FinishedSession, AppError>(FinishedSession { residual_gap: None, dropped: no_loss() })
        &&& !after.tracks(id)
        &&& after.session_count() == before.session_count()
    } else if entry.records > 0 {
        &&& r is Err
        &&& r->Err_0 is Message
        &&& r->Err_0.text() == "Session "@ + id + " still has "@ + decimal_digits(entry.records as nat)
            + " queued log lines to archive"@
        &&& after.tracks(id)
        &&& after.session(id) == entry
        &&& after.session_count() == before.session_count()
    } else {
        &&& r == Ok::<FinishedSession, AppError>(FinishedSession {
            residual_gap: gap_of(entry.pending),
            dropped: entry.dropped,
        })
        &&& !after.tracks(id)
        &&& after.session(id) == fresh_session()
        &&& after.session_count() + 1 == before.session_count()
    }
}

/// What [`ArchiveQueue::finish_session`] does as a whole: [`session_finished`] for
/// `id`, with every record and every other session left as it was.
pub open spec fn finish_called(before: ArchiveQueue, after: ArchiveQueue, id: Seq<char>, r: AppResult<FinishedSession>) -> bool {
    &&& after.queued_records() == before.queued_records()
    &&& after.in_flight_records() == before.in_flight_records()
    &&& after.reserved_records() == before.reserved_records()
    &&& after.reserved_bytes() == before.reserved_bytes()
    &&& after.bounds_of() == before.bounds_of()
    &&& forall|other: Seq<char>| other != id ==> #[trigger] after.tracks(other) == before.tracks(other)
    &&& forall|other: Seq<char>| other != id ==> #[trigger] after.session(other) == before.session(other)
    &&& session_finished(before, after, id, r)
}

/// What [`ArchiveQueue::take_session`] does: moves every record of `id` out of both
/// lists, in arrival order, in flight first, freeing nothing and changing no session.
pub open spec fn session_taken(before: ArchiveQueue, after: ArchiveQueue, id: Seq<char>, taken: Seq<QueuedRecord>) -> bool {
    &&& taken == of_session(before.in_flight_records(), id) + of_session(before.queued_records(), id)
    &&& after.in_flight_records() == not_of_session(before.in_flight_records(), id)
    &&& after.queued_records() == not_of_session(before.queued_records(), id)
    &&& after.reserved_records() == before.reserved_records()
    &&& after.reserved_bytes() == before.reserved_bytes()
    &&& after.bounds_of() == before.bounds_of()
    &&& forall|other: Seq<char>| #[trigger] after.tracks(other) == before.tracks(other)
    &&& forall|other: Seq<char>| #[trigger] after.session(other) == before.session(other)
}

/// The bounded hand-off from the capture threads to the writer.
///
/// Bounded four ways at once — records and bytes, per session and in total. When a
/// bound refuses a record the queue counts the loss instead of blocking the capture
/// thread or giving up a line it already holds. The queue owns every record from
/// [`ArchiveQueue::enqueue`] until it is settled by [`ArchiveQueue::release`]
/// (written) or [`ArchiveQueue::discard`] (lost, and counted): nothing else frees a
/// record's room, which is what makes a failed pump retryable.
pub struct ArchiveQueue {
    bounds: QueueBounds,
    /// Records no pump has claimed yet, in arrival order.
    queued: VecDeque<QueuedRecord>,
    /// Records a pump has claimed and not yet taken, in arrival order.
    in_flight: VecDeque<QueuedRecord>,
    /// Records this queue is holding room for: queued, in flight, and taken but not
    /// yet settled.
    reserved: usize,
    /// Bytes of archived text reserved, on the same three counts.
    bytes: usize,
    /// The sessions that have not been finished, by id; `states[i]` belongs to
    /// `ids[i]`.
    ids: Vec<String>,
    states: Vec<SessionQueue>,
}

impl ArchiveQueue {
    /// The bounds this queue enforces.
    pub closed spec fn bounds_of(&self) -> QueueBounds {
        self.bounds
    }

    /// Records no pump has claimed yet, in arrival order.
    pub closed spec fn queued_records(&self) -> Seq<QueuedRecord> {
        self.queued@
    }

    /// Records a pump has claimed and not yet taken, in arrival order.
    pub closed spec fn in_flight_records(&self) -> Seq<QueuedRecord> {
        self.in_flight@
    }

    /// The number [`ArchiveQueue::len`] reports.
    pub closed spec fn reserved_records(&self) -> usize {
        self.reserved
    }

    /// The number [`ArchiveQueue::queued_bytes`] reports.
    pub closed spec fn reserved_bytes(&self) -> usize {
        self.bytes
    }

    /// Whether the queue holds an entry for this session.
    pub closed spec fn tracks(&self, session_id: Seq<char>) -> bool {
        exists|i: int| 0 <= i < self.ids@.len() && #[trigger] self.ids@[i]@ == session_id
    }

    /// The entry of this session, or a fresh one for a session the queue does not
    /// track.
    pub closed spec fn session(&self, session_id: Seq<char>) -> SessionQueue {
        if self.tracks(session_id) {
            let i = choose|i: int| 0 <= i < self.ids@.len() && #[trigger] self.ids@[i]@ == session_id;
            self.states@[i]
        } else {
            fresh_session()
        }
    }

    /// How many sessions the queue tracks.
    pub closed spec fn session_count(&self) -> nat {
        self.ids@.len()
    }

    /// A session the queue does not track reads as a fresh entry: nothing queued,
    /// nothing pending, nothing lost.
    pub proof fn lemma_untracked_is_fresh(&self, session_id: Seq<char>)
        ensures
            !self.tracks(session_id) ==> self.session(session_id) == fresh_session(),
    {
    }

    /// The queue's invariant: one entry per session, and no bound exceeded.
    pub closed spec fn wf(&self) -> bool {
        &&& self.ids@.len() == self.states@.len()
        &&& forall|i: int, j: int|
            0 <= i < j < self.ids@.len() ==> #[trigger] self.ids@[i]@ != #[trigger] self.ids@[j]@
        &&& self.reserved <= self.bounds.total_records
        &&& self.bytes <= self.bounds.total_bytes
        &&& forall|i: int|
            0 <= i < self.states@.len() ==> (#[trigger] self.states@[i]).records
                <= self.bounds.session_records && self.states@[i].bytes
                <= self.bounds.session_bytes
    }

    /// Where this session's entry sits, if it has one.
    fn position(&self, session_id: &str) -> (r: Option<usize>)
        requires
            self.wf(),
        ensures
            match r {
                Some(i) => i < self.ids@.len() && self.ids@[i as int]@ == session_id@
                    && self.tracks(session_id@) && self.session(session_id@) == self.states@[i as int],
                None => !self.tracks(session_id@),
            },
    {
        let mut i: usize = 0;
        while i < self.ids.len()
            invariant
                self.wf(),
                i <= self.ids@.len(),
                forall|k: int| 0 <= k < i ==> #[trigger] self.ids@[k]@ != session_id@,
            decreases self.ids@.len() - i,
        {
            if str_eq(self.ids[i].as_str(), session_id) {
                proof {
                    let c = choose|k: int| 0 <= k < self.ids@.len() && #[trigger] self.ids@[k]@ == session_id@;
                    assert(self.ids@[i as int]@ == session_id@);
                    if c != i as int {
                        if c < i as int {
                            assert(self.ids@[c]@ != self.ids@[i as int]@);
                        } else {
                            assert(self.ids@[i as int]@ != self.ids@[c]@);
                        }
                    }
                }
                return Some(i);
            }
            i = i + 1;
        }
        None
    }

    /// Where this session's entry sits, creating a fresh one if it has none.
    fn position_or_insert(&mut self, session_id: &str) -> (i: usize)
        requires
            old(self).wf(),
        ensures
            final(self).wf(),
            i < final(self).ids@.len(),
            final(self).ids@[i as int]@ == session_id@,
            final(self).states@[i as int] == old(self).session(session_id@),
            final(self).tracks(session_id@),
            forall|other: Seq<char>| other != session_id@ ==> (#[trigger] final(self).tracks(other))
                == old(self).tracks(other),
            forall|other: Seq<char>| other != session_id@ ==> #[trigger] final(self).session(other)
                == old(self).session(other),
            forall|other: Seq<char>| #[trigger] final(self).session(other) == old(self).session(other),
            final(self).bounds == old(self).bounds,
            final(self).queued@ == old(self).queued@,
            final(self).in_flight@ == old(self).in_flight@,
            final(self).reserved == old(self).reserved,
            final(self).bytes == old(self).bytes,
    {
        match self.position(session_id) {
            Some(i) => i,
            None => {
                let ghost before = *self;
                self.ids.push(session_id.to_owned());
                self.states.push(SessionQueue {
                    records: 0,
                    bytes: 0,
                    pending: DropCounters::zero(),
                    dropped: DropCounters::zero(),
                });
                let i = self.ids.len() - 1;
                proof {
                    assert forall|a: int, b: int|
                        0 <= a < b < self.ids@.len() implies #[trigger] self.ids@[a]@ != #[trigger] self.ids@[b]@ by {
                        if b == i as int {
                            assert(!before.tracks(session_id@));
                            assert(before.ids@[a] == self.ids@[a]);
                        } else {
                            assert(before.ids@[a] == self.ids@[a] && before.ids@[b] == self.ids@[b]);
                        }
                    }
                    assert forall|other: Seq<char>| other != session_id@ implies (#[trigger] self.tracks(other))
                        == before.tracks(other) by {
                        if self.tracks(other) {
                            let k = choose|k: int| 0 <= k < self.ids@.len() && #[trigger] self.ids@[k]@ == other;
                            assert(k < before.ids@.len());
                            assert(before.ids@[k]@ == other);
                        }
                        if before.tracks(other) {
                            let k = choose|k: int| 0 <= k < before.ids@.len() && #[trigger] before.ids@[k]@ == other;
                            assert(self.ids@[k]@ == other);
                        }
                    }
                    assert forall|other: Seq<char>| #[trigger] self.session(other) == before.session(other) by {
                        if other == session_id@ {
                            let k = choose|k: int| 0 <= k < self.ids@.len() && #[trigger] self.ids@[k]@ == other;
                            if k != i as int {
                                assert(self.ids@[k]@ != self.ids@[i as int]@);
                            }
                        } else if self.tracks(other) {
                            let k = choose|k: int| 0 <= k < self.ids@.len() && #[trigger] self.ids@[k]@ == other;
                            let k2 = choose|k: int| 0 <= k < before.ids@.len() && #[trigger] before.ids@[k]@ == other;
                            assert(self.ids@[k2]@ == other);
                            if k != k2 {
                                if k < k2 {
                                    assert(self.ids@[k]@ != self.ids@[k2]@);
                                } else {
                                    assert(self.ids@[k2]@ != self.ids@[k]@);
                                }
                            }
                        }
                    }
                }
                i
            }
        }
    }

    /// An empty queue with these bounds.
    pub fn new(bounds: QueueBounds) -> (q: Self)
        ensures
            q.wf(),
            q.bounds_of() == bounds,
            q.queued_records().len() == 0,
            q.in_flight_records().len() == 0,
            q.reserved_records() == 0,
            q.reserved_bytes() == 0,
            q.session_count() == 0,
            forall|id: Seq<char>| !q.tracks(id),
            forall|id: Seq<char>| #[trigger] q.session(id) == fresh_session(),
    {
        ArchiveQueue {
            bounds,
            queued: VecDeque::new(),
            in_flight: VecDeque::new(),
            reserved: 0,
            bytes: 0,
            ids: Vec::new(),
            states: Vec::new(),
        }
    }

    /// Replace the entry at `i`, the one belonging to `ids[i]`.
    fn set_state(&mut self, i: usize, state: SessionQueue)
        requires
            old(self).wf(),
            i < old(self).ids@.len(),
            state.records <= old(self).bounds.session_records,
            state.bytes <= old(self).bounds.session_bytes,
        ensures
            final(self).wf(),
            final(self).ids@ == old(self).ids@,
            final(self).states@ == old(self).states@.update(i as int, state),
            final(self).session(old(self).ids@[i as int]@) == state,
            forall|other: Seq<char>| #[trigger] final(self).tracks(other) == old(self).tracks(other),
            forall|other: Seq<char>| other != old(self).ids@[i as int]@ ==> #[trigger] final(self).session(other)
                == old(self).session(other),
            final(self).bounds == old(self).bounds,
            final(self).queued@ == old(self).queued@,
            final(self).in_flight@ == old(self).in_flight@,
            final(self).reserved == old(self).reserved,
            final(self).bytes == old(self).bytes,
    {
        let ghost before = *self;
        self.states.set(i, state);
        proof {
            let id = before.ids@[i as int]@;
            assert(self.ids@[i as int]@ == id);
            assert(self.tracks(id));
            let k = choose|k: int| 0 <= k < self.ids@.len() && #[trigger] self.ids@[k]@ == id;
            if k != i as int {
                if k < i as int {
                    assert(self.ids@[k]@ != self.ids@[i as int]@);
                } else {
                    assert(self.ids@[i as int]@ != self.ids@[k]@);
                }
            }
            assert forall|other: Seq<char>| other != id implies #[trigger] self.session(other)
                == before.session(other) by {
                if self.tracks(other) {
                    let k = choose|k: int| 0 <= k < self.ids@.len() && #[trigger] self.ids@[k]@ == other;
                    assert(k != i as int);
                }
            }
        }
    }

    /// `false` when the record was dropped. The incoming record is always the one
    /// dropped, so a session never loses a line it already queued.
    ///
    /// A drop joins the session's pending gap. An accepted record takes that pending
    /// gap with it as [`QueuedRecord::gap_before`], which fixes the marker's place in
    /// the file: the loss is written immediately before the first line that survived
    /// it.
    pub fn enqueue(&mut self, record: ArchiveRecord) -> (accepted: bool)
        requires
            old(self).wf(),
        ensures
            final(self).wf(),
            enqueued(*old(self), *final(self), record, accepted),
    {
        // Bytes are the archived text, not the JSON encoding around it: the bound has
        // to mean the same thing as the counters the row reports.
        let bytes = line_bytes(&record.line);
        // An entry appears even for a record that is about to be refused, because
        // the loss it causes belongs to this session's history.
        let i = self.position_or_insert(record.session_id.as_str());
        let ghost id = record.session_id@;
        let session = self.states[i];
        assert(session.records <= self.bounds.session_records && session.bytes <= self.bounds.session_bytes);
        let fits = session.records < self.bounds.session_records
            && bytes <= self.bounds.session_bytes - session.bytes
            && self.reserved < self.bounds.total_records
            && bytes <= self.bounds.total_bytes - self.bytes;
        if !fits {
            let mut lost = session;
            lost.pending.record_loss(bytes);
            lost.dropped.record_loss(bytes);
            self.set_state(i, lost);
            return false;
        }
        let gap_before = if session.pending.is_zero() { None } else { Some(session.pending) };
        let kept = SessionQueue {
            records: session.records + 1,
            bytes: session.bytes + bytes,
            pending: DropCounters::zero(),
            dropped: session.dropped,
        };
        self.set_state(i, kept);
        let ghost mid = *self;
        self.reserved = self.reserved + 1;
        self.bytes = self.bytes + bytes;
        self.queued.push_back(QueuedRecord { record, gap_before });
        assert(self.ids@ == mid.ids@ && self.states@ == mid.states@);
        assert forall|other: Seq<char>| #[trigger] self.tracks(other) == mid.tracks(other) by {}
        assert forall|other: Seq<char>| #[trigger] self.session(other) == mid.session(other) by {}
        true
    }

    /// Records this queue is holding room for: queued, in flight, and taken but not
    /// yet settled.
    pub fn len(&self) -> (n: usize)
        ensures
            n == self.reserved_records(),
    {
        self.reserved
    }

    /// Whether the queue holds room for nothing.
    pub fn is_empty(&self) -> (r: bool)
        ensures
            r == (self.reserved_records() == 0),
    {
        self.reserved == 0
    }

    /// Bytes of archived text this queue is holding room for.
    pub fn queued_bytes(&self) -> (n: usize)
        ensures
            n == self.reserved_bytes(),
    {
        self.bytes
    }

    /// How many sessions the queue still tracks: those with a record or a loss and
    /// not yet finished.
    pub fn tracked_sessions(&self) -> (n: usize)
        requires
            self.wf(),
        ensures
            n == self.session_count(),
    {
        self.ids.len()
    }

    /// Move everything queued into the in-flight list, behind whatever a previous
    /// pump left there. Nothing is freed and nothing is handed out.
    pub fn begin_batch(&mut self)
        requires
            old(self).wf(),
        ensures
            final(self).wf(),
            batch_begun(*old(self), *final(self)),
    {
        let ghost before = *self;
        self.in_flight.append(&mut self.queued);
        assert(self.ids@ == before.ids@ && self.states@ == before.states@);
        assert forall|id: Seq<char>| #[trigger] self.tracks(id) == before.tracks(id) by {}
        assert forall|id: Seq<char>| #[trigger] self.session(id) == before.session(id) by {}
    }

    /// The front in-flight record, for the pump that is about to decide what it costs.
    pub fn front(&self) -> (r: Option<&QueuedRecord>)
        ensures
            r == if self.in_flight_records().len() > 0 {
                Some(&self.in_flight_records()[0])
            } else {
                None
            },
    {
        if self.in_flight.len() > 0 {
            Some(&self.in_flight[0])
        } else {
            None
        }
    }

    /// The front in-flight record's session and archived-text length, without taking
    /// it out.
    pub fn peek_front(&self) -> (r: Option<(&str, usize)>)
        ensures
            match r {
                Some((id, bytes)) => self.in_flight_records().len() > 0
                    && id@ == self.in_flight_records()[0].record.session_id@
                    && bytes == record_bytes(self.in_flight_records()[0]),
                None => self.in_flight_records().len() == 0,
            },
    {
        match self.front() {
            Some(item) => Some((item.record.session_id.as_str(), line_bytes(&item.record.line))),
            None => None,
        }
    }

    /// Take the front in-flight record, which the caller must settle with exactly one
    /// of [`ArchiveQueue::release`] and [`ArchiveQueue::discard`]. Its room stays
    /// reserved until then.
    pub fn take_front(&mut self) -> (r: Option<QueuedRecord>)
        requires
            old(self).wf(),
        ensures
            final(self).wf(),
            front_taken(*old(self), *final(self), r),
    {
        let ghost before = *self;
        let r = self.in_flight.pop_front();
        assert(self.ids@ == before.ids@ && self.states@ == before.states@);
        assert forall|id: Seq<char>| #[trigger] self.tracks(id) == before.tracks(id) by {}
        assert forall|id: Seq<char>| #[trigger] self.session(id) == before.session(id) by {}
        proof {
            if r is Some {
                assert(before.in_flight@.subrange(1, before.in_flight@.len() as int) =~= before.in_flight@.drop_first());
            }
        }
        r
    }

    /// Give one settled record's room back, to its session and to the totals.
    ///
    /// The session's entry is looked up rather than created: a record settling for a
    /// session the queue has already finished has nothing to give room back to.
    fn free(&mut self, session_id: &str, bytes: usize)
        requires
            old(self).wf(),
        ensures
            final(self).wf(),
            final(self).queued@ == old(self).queued@,
            final(self).in_flight@ == old(self).in_flight@,
            final(self).bounds == old(self).bounds,
            final(self).reserved == minus(old(self).reserved, 1),
            final(self).bytes == minus(old(self).bytes, bytes),
            forall|id: Seq<char>| #[trigger] final(self).tracks(id) == old(self).tracks(id),
            final(self).session(session_id@) == if old(self).tracks(session_id@) {
                after_free(old(self).session(session_id@), bytes)
            } else {
                old(self).session(session_id@)
            },
            forall|other: Seq<char>| other != session_id@ ==> #[trigger] final(self).session(other)
                == old(self).session(other),
    {
        match self.position(session_id) {
            Some(i) => {
                let session = self.states[i];
                let freed = SessionQueue {
                    records: if session.records > 0 { session.records - 1 } else { 0 },
                    bytes: if session.bytes >= bytes { session.bytes - bytes } else { 0 },
                    pending: session.pending,
                    dropped: session.dropped,
                };
                assert(session.records <= self.bounds.session_records);
                self.set_state(i, freed);
            }
            None => {}
        }
        let ghost mid = *self;
        self.reserved = if self.reserved > 0 { self.reserved - 1 } else { 0 };
        self.bytes = if self.bytes >= bytes { self.bytes - bytes } else { 0 };
        assert(self.ids@ == mid.ids@ && self.states@ == mid.states@);
        assert forall|id: Seq<char>| #[trigger] self.tracks(id) == mid.tracks(id) by {}
        assert forall|id: Seq<char>| #[trigger] self.session(id) == mid.session(id) by {}
    }

    /// Count one record that will never be written, exactly as
    /// [`ArchiveQueue::enqueue`] counts one it refuses. The gap it carried returns to
    /// `pending` and to nothing else: it was already counted in `dropped` when the
    /// lines it stands for were refused.
    fn charge_loss(&mut self, item: &QueuedRecord)
        requires
            old(self).wf(),
        ensures
            final(self).wf(),
            final(self).queued@ == old(self).queued@,
            final(self).in_flight@ == old(self).in_flight@,
            final(self).bounds == old(self).bounds,
            final(self).reserved == old(self).reserved,
            final(self).bytes == old(self).bytes,
            final(self).tracks(item.record.session_id@),
            final(self).session(item.record.session_id@) == after_discard(
                old(self).session(item.record.session_id@),
                item.gap_before,
                record_bytes(*item),
            ),
            forall|other: Seq<char>| other != item.record.session_id@ ==> #[trigger] final(self).tracks(other)
                == old(self).tracks(other),
            forall|other: Seq<char>| other != item.record.session_id@ ==> #[trigger] final(self).session(other)
                == old(self).session(other),
    {
        let bytes = line_bytes(&item.record.line);
        let i = self.position_or_insert(item.record.session_id.as_str());
        let mut session = self.states[i];
        match item.gap_before {
            Some(carried) => session.pending.absorb(carried),
            None => {}
        }
        session.pending.record_loss(bytes);
        session.dropped.record_loss(bytes);
        assert(self.states@[i as int].records <= self.bounds.session_records);
        self.set_state(i, session);
    }

    /// The record is on the disk: its room comes back and nothing is lost.
    pub fn release(&mut self, item: &QueuedRecord)
        requires
            old(self).wf(),
        ensures
            final(self).wf(),
            released(*old(self), *final(self), *item),
    {
        self.free(item.record.session_id.as_str(), line_bytes(&item.record.line));
    }

    /// The record will never be written: its room comes back and it is charged as a
    /// loss. The gap it carried returns to the session's `pending`, so the next record
    /// that survives carries it, and is not counted in `dropped` a second time.
    pub fn discard(&mut self, item: QueuedRecord)
        requires
            old(self).wf(),
        ensures
            final(self).wf(),
            discarded(*old(self), *final(self), item),
    {
        self.charge_loss(&item);
        self.free(item.record.session_id.as_str(), line_bytes(&item.record.line));
    }

    /// Move this session's records out of one list, in order, keeping the others in
    /// order.
    fn split_off_session(
        items: VecDeque<QueuedRecord>,
        session_id: &str,
        taken: &mut VecDeque<QueuedRecord>,
    ) -> (kept: VecDeque<QueuedRecord>)
        ensures
            kept@ == not_of_session(items@, session_id@),
            final(taken)@ == old(taken)@ + of_session(items@, session_id@),
    {
        let ghost all = items@;
        let mut rest = items;
        let mut kept: VecDeque<QueuedRecord> = VecDeque::new();
        let ghost mut done: int = 0;
        while rest.len() > 0
            invariant
                0 <= done <= all.len(),
                rest@ == all.subrange(done, all.len() as int),
                kept@ == not_of_session(all.subrange(0, done), session_id@),
                taken@ == old(taken)@ + of_session(all.subrange(0, done), session_id@),
            decreases rest@.len(),
        {
            let item = rest.pop_front().unwrap();
            proof {
                lemma_split_push(all.subrange(0, done), item, session_id@);
                assert(all.subrange(0, done + 1) =~= all.subrange(0, done).push(item));
                done = done + 1;
            }
            let mine = str_eq(item.record.session_id.as_str(), session_id);
            if mine {
                taken.push_back(item);
            } else {
                kept.push_back(item);
            }
            proof {
                assert(rest@ =~= all.subrange(done, all.len() as int));
            }
        }
        assert(all.subrange(0, done) =~= all);
        kept
    }

    /// Take every record this session has accepted out of both lists, in arrival
    /// order — the in-flight ones first, then the queued ones — without freeing
    /// anything. The caller owes each one a release or a discard.
    pub fn take_session(&mut self, session_id: &str) -> (taken: VecDeque<QueuedRecord>)
        requires
            old(self).wf(),
        ensures
            final(self).wf(),
            session_taken(*old(self), *final(self), session_id@, taken@),
    {
        let ghost before = *self;
        let mut taken: VecDeque<QueuedRecord> = VecDeque::new();
        let mut in_flight: VecDeque<QueuedRecord> = VecDeque::new();
        std::mem::swap(&mut in_flight, &mut self.in_flight);
        let kept = Self::split_off_session(in_flight, session_id, &mut taken);
        self.in_flight = kept;
        let mut queued: VecDeque<QueuedRecord> = VecDeque::new();
        std::mem::swap(&mut queued, &mut self.queued);
        let still_queued = Self::split_off_session(queued, session_id, &mut taken);
        self.queued = still_queued;
        assert(self.ids@ == before.ids@ && self.states@ == before.states@);
        assert forall|id: Seq<char>| #[trigger] self.tracks(id) == before.tracks(id) by {}
        assert forall|id: Seq<char>| #[trigger] self.session(id) == before.session(id) by {}
        assert(taken@ =~= Seq::<QueuedRecord>::empty() + of_session(before.in_flight@, session_id@)
            + of_session(before.queued@, session_id@));
        taken
    }

    /// Charge every record of this session, in flight or still queued, as a loss, in
    /// arrival order, and leave every other session's alone.
    pub fn discard_session(&mut self, session_id: &str)
        requires
            old(self).wf(),
        ensures
            final(self).wf(),
            ({
                let lost = of_session(old(self).in_flight_records(), session_id@) + of_session(
                    old(self).queued_records(),
                    session_id@,
                );
                &&& final(self).session(session_id@) == if lost.len() == 0 {
                    old(self).session(session_id@)
                } else {
                    after_discarding_all(old(self).session(session_id@), lost)
                }
                &&& final(self).reserved_records() == records_after_freeing(old(self).reserved_records(), lost)
                &&& final(self).reserved_bytes() == bytes_after_freeing(old(self).reserved_bytes(), lost)
                &&& lost.len() > 0 ==> final(self).tracks(session_id@)
                &&& lost.len() == 0 ==> final(self).tracks(session_id@) == old(self).tracks(session_id@)
            }),
            final(self).in_flight_records() == not_of_session(old(self).in_flight_records(), session_id@),
            final(self).queued_records() == not_of_session(old(self).queued_records(), session_id@),
            final(self).bounds_of() == old(self).bounds_of(),
            forall|other: Seq<char>| other != session_id@ ==> #[trigger] final(self).tracks(other)
                == old(self).tracks(other),
            forall|other: Seq<char>| other != session_id@ ==> #[trigger] final(self).session(other)
                == old(self).session(other),
    {
        let ghost before = *self;
        let mut taken = self.take_session(session_id);
        let ghost lost = taken@;
        let ghost start = self.session(session_id@);
        let ghost mut done: int = 0;
        proof {
            lemma_of_session_is_of_session(before.in_flight@, session_id@);
            lemma_of_session_is_of_session(before.queued@, session_id@);
        }
        while taken.len() > 0
            invariant
                self.wf(),
                0 <= done <= lost.len(),
                taken@ == lost.subrange(done, lost.len() as int),
                forall|k: int| 0 <= k < lost.len() ==> (#[trigger] lost[k]).record.session_id@ == session_id@,
                self.session(session_id@) == if done == 0 { start } else { after_discarding_all(start, lost.subrange(0, done)) },
                done > 0 ==> self.tracks(session_id@),
                done == 0 ==> self.tracks(session_id@) == before.tracks(session_id@),
                self.reserved == records_after_freeing(before.reserved, lost.subrange(0, done)),
                self.bytes == bytes_after_freeing(before.bytes, lost.subrange(0, done)),
                self.in_flight@ == not_of_session(before.in_flight@, session_id@),
                self.queued@ == not_of_session(before.queued@, session_id@),
                self.bounds == before.bounds,
                forall|other: Seq<char>| other != session_id@ ==> #[trigger] self.tracks(other)
                    == before.tracks(other),
                forall|other: Seq<char>| other != session_id@ ==> #[trigger] self.session(other)
                    == before.session(other),
            decreases taken@.len(),
        {
            let item = taken.pop_front().unwrap();
            proof {
                assert(item == lost[done]);
                assert(lost.subrange(0, done + 1) =~= lost.subrange(0, done).push(item));
                assert(lost.subrange(0, done + 1).drop_last() =~= lost.subrange(0, done));
                if done == 0 {
                    assert(after_discarding_all(start, lost.subrange(0, 0)) == start) by {
                        assert(lost.subrange(0, 0).len() == 0);
                    }
                }
            }
            self.discard(item);
            proof {
                done = done + 1;
                assert(taken@ =~= lost.subrange(done, lost.len() as int));
            }
        }
        proof {
            assert(lost.subrange(0, done) =~= lost);
            if lost.len() == 0 {
                assert(records_after_freeing(before.reserved, lost) == before.reserved);
                assert(bytes_after_freeing(before.bytes, lost) == before.bytes);
            }
        }
    }

    /// Take what `session_id` has lost with no accepted record behind it — the
    /// residual — for a caller that wants it while the session is still running.
    /// `None` when nothing is pending.
    pub fn take_pending_gap(&mut self, session_id: &str) -> (gap: Option<DropCounters>)
        requires
            old(self).wf(),
        ensures
            final(self).wf(),
            pending_gap_taken(*old(self), *final(self), session_id@, gap),
    {
        match self.position(session_id) {
            None => None,
            Some(i) => {
                let session = self.states[i];
                if session.pending.is_zero() {
                    return None;
                }
                let mut cleared = session;
                cleared.pending = DropCounters::zero();
                assert(session.records <= self.bounds.session_records);
                self.set_state(i, cleared);
                Some(session.pending)
            }
        }
    }

    /// Everything `session_id` has lost so far.
    pub fn dropped(&self, session_id: &str) -> (d: DropCounters)
        requires
            self.wf(),
        ensures
            d == self.session(session_id@).dropped,
    {
        match self.position(session_id) {
            Some(i) => self.states[i].dropped,
            None => DropCounters::zero(),
        }
    }

    /// End this session's accounting: hand back the residual gap and the cumulative
    /// totals, then forget the session.
    ///
    /// Refused while the session still has records reserved, because those have not
    /// been written yet; the refusal takes nothing. A session that was never seen, or
    /// was already finished, is owed nothing.
    pub fn finish_session(&mut self, session_id: &str) -> (r: AppResult<FinishedSession>)
        requires
            old(self).wf(),
        ensures
            final(self).wf(),
            finish_called(*old(self), *final(self), session_id@, r),
    {
        let i = match self.position(session_id) {
            None => {
                return Ok(FinishedSession::default());
            }
            Some(i) => i,
        };
        let session = self.states[i];
        if session.records > 0 {
            let mut message = String::new();
            push_str(&mut message, "Session ");
            push_str(&mut message, session_id);
            push_str(&mut message, " still has ");
            push_decimal(&mut message, session.records as u64);
            push_str(&mut message, " queued log lines to archive");
            return Err(invalid(message));
        }
        let residual_gap = if session.pending.is_zero() { None } else { Some(session.pending) };
        let dropped = session.dropped;
        let ghost before = *self;
        self.ids.remove(i);
        self.states.remove(i);
        proof {
            assert forall|a: int, b: int|
                0 <= a < b < self.ids@.len() implies #[trigger] self.ids@[a]@ != #[trigger] self.ids@[b]@ by {
                let a0 = if a < i as int { a } else { a + 1 };
                let b0 = if b < i as int { b } else { b + 1 };
                assert(self.ids@[a] == before.ids@[a0]);
                assert(self.ids@[b] == before.ids@[b0]);
            }
            assert forall|k: int| 0 <= k < self.states@.len() implies (#[trigger] self.states@[k]).records
                <= self.bounds.session_records && self.states@[k].bytes <= self.bounds.session_bytes by {
                let k0 = if k < i as int { k } else { k + 1 };
                assert(self.states@[k] == before.states@[k0]);
            }
            assert(!self.tracks(session_id@)) by {
                if self.tracks(session_id@) {
                    let k = choose|k: int| 0 <= k < self.ids@.len() && #[trigger] self.ids@[k]@ == session_id@;
                    let k0 = if k < i as int { k } else { k + 1 };
                    assert(self.ids@[k] == before.ids@[k0]);
                    assert(k0 != i as int);
                    if k0 < i as int {
                        assert(before.ids@[k0]@ != before.ids@[i as int]@);
                    } else {
                        assert(before.ids@[i as int]@ != before.ids@[k0]@);
                    }
                }
            }
            assert forall|other: Seq<char>| other != session_id@ implies (#[trigger] self.tracks(other))
                == before.tracks(other) by {
                if self.tracks(other) {
                    let k = choose|k: int| 0 <= k < self.ids@.len() && #[trigger] self.ids@[k]@ == other;
                    let k0 = if k < i as int { k } else { k + 1 };
                    assert(self.ids@[k] == before.ids@[k0]);
                }
                if before.tracks(other) {
                    let k = choose|k: int| 0 <= k < before.ids@.len() && #[trigger] before.ids@[k]@ == other;
                    assert(k != i as int);
                    let k1 = if k < i as int { k } else { k - 1 };
                    assert(self.ids@[k1] == before.ids@[k]);
                }
            }
            assert forall|other: Seq<char>| other != session_id@ implies #[trigger] self.session(other)
                == before.session(other) by {
                if self.tracks(other) {
                    let k = choose|k: int| 0 <= k < self.ids@.len() && #[trigger] self.ids@[k]@ == other;
                    let k0 = if k < i as int { k } else { k + 1 };
                    assert(self.ids@[k] == before.ids@[k0]);
                    assert(self.states@[k] == before.states@[k0]);
                    let j = choose|j: int| 0 <= j < before.ids@.len() && #[trigger] before.ids@[j]@ == other;
                    if j != k0 {
                        if j < k0 {
                            assert(before.ids@[j]@ != before.ids@[k0]@);
                        } else {
                            assert(before.ids@[k0]@ != before.ids@[j]@);
                        }
                    }
                }
            }
        }
        Ok(FinishedSession { residual_gap, dropped })
    }
}

} // verus!
