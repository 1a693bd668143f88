//! The writer's state behind one lock: the sessions it holds and what they have
//! queued. Each operation here is one critical section of the writer, which is what
//! makes the closing boundary a single step: a session stops accepting and gives up
//! every record it had queued at once, so no record is left accepted with nobody to
//! write it.
use vstd::prelude::*;
use std::collections::VecDeque;
use crate::archive::encode::{pending_write, record_payload, PendingWrite};
use crate::archive::queue::{discarded, enqueued, front_taken, not_of_session, of_session, released, ArchiveQueue, QueueBounds};
use crate::archive::record::{ArchiveRecord, FinishedSession, QueuedRecord};
use crate::archive::slots::{saturating_bytes, saturating_lines, OpenSlots, Slot};
use crate::archive::writer::{close_refusal_message, SlotState};
use crate::error::AppResult;

verus! {

/// The sessions a writer holds, and the records between its capture threads and its
/// files.
pub struct ArchiveBook {
    pub slots: OpenSlots,
    pub queue: ArchiveQueue,
}

/// A list with one session's records taken out holds none of them.
pub proof fn lemma_none_left(items: Seq<QueuedRecord>, session_id: Seq<char>)
    ensures
        of_session(not_of_session(items, session_id), session_id).len() == 0,
    decreases items.len(),
{
    if items.len() > 0 {
        lemma_none_left(items.drop_last(), session_id);
        let rest = not_of_session(items.drop_last(), session_id);
        if items.last().record.session_id@ != session_id {
            assert(rest.push(items.last()).drop_last() =~= rest);
        }
    }
}

/// What the front of a pump's batch is.
pub enum FrontWrite {
    /// Nothing is in flight: the batch is done.
    Empty,
    /// The front record belonged to no session this writer holds; it was taken out
    /// and charged as lost, since a line that left a capture thread is accounted for
    /// somewhere.
    Charged,
    /// The front record, encoded for its file, and the bytes that file already holds.
    /// It stays in front until it is settled.
    Ready { write: PendingWrite, counted: u64 },
}

impl ArchiveBook {
    /// Whether the book is well formed.
    pub open spec fn wf(&self) -> bool {
        self.slots.wf() && self.queue.wf()
    }

    /// Whether records for this session are accepted: only while its slot is open.
    pub open spec fn accepting(&self, session_id: Seq<char>) -> bool {
        self.slots.slot(session_id) matches Some(s) && s.state == SlotState::Open
    }

    /// A book of nothing, with these queue bounds.
    pub fn new(bounds: QueueBounds) -> (b: Self)
        ensures
            b.wf(),
            forall|id: Seq<char>| b.slots.slot(id) is None,
            b.queue.bounds_of() == bounds,
            b.queue.queued_records().len() == 0,
            b.queue.in_flight_records().len() == 0,
            b.queue.reserved_records() == 0,
            b.queue.reserved_bytes() == 0,
    {
        ArchiveBook { slots: OpenSlots::new(), queue: ArchiveQueue::new(bounds) }
    }

    /// Hand one record over. A session that is not open has it ignored, uncounted:
    /// it has no row to carry a drop counter, or its losses are already settled. An
    /// open one queues it or counts it as lost, as the queue's bounds say.
    pub fn enqueue(&mut self, record: ArchiveRecord) -> (accepted: bool)
        requires
            old(self).wf(),
        ensures
            final(self).wf(),
            final(self).slots == old(self).slots,
            old(self).accepting(record.session_id@) ==> enqueued(old(self).queue, final(self).queue, record, accepted),
            !old(self).accepting(record.session_id@) ==> !accepted && final(self).queue == old(self).queue,
    {
        if !self.slots.accepts(record.session_id.as_str()) {
            return false;
        }
        self.queue.enqueue(record)
    }

    /// The closing boundary of a close that was asked for: an open session stops
    /// accepting, and every record it accepted leaves the queue, in arrival order, to
    /// be written by the close. A session that is not open is refused with nothing
    /// changed.
    pub fn begin_close(&mut self, session_id: &str) -> (r: AppResult<(i64, u64, VecDeque<QueuedRecord>)>)
        requires
            old(self).wf(),
        ensures
            final(self).wf(),
            !old(self).accepting(session_id@) ==> {
                &&& r matches Err(e) && e is Message && e.text() == close_refusal_message(
                    session_id@,
                    match old(self).slots.slot(session_id@) {
                        Some(s) => Some(s.state),
                        None => None,
                    },
                )
                &&& final(self).queue == old(self).queue
                &&& forall|id: Seq<char>| #[trigger] final(self).slots.slot(id) == old(self).slots.slot(id)
            },
            old(self).accepting(session_id@) ==> {
                let s = old(self).slots.slot(session_id@)->Some_0;
                &&& r matches Ok((lines, bytes, taken)) && lines == s.lines && bytes == s.bytes && taken@
                    == of_session(old(self).queue.in_flight_records(), session_id@) + of_session(
                    old(self).queue.queued_records(),
                    session_id@,
                )
                &&& final(self).slots.slot(session_id@) == Some(Slot { state: SlotState::Closing, ..s })
                &&& !final(self).accepting(session_id@)
                &&& of_session(final(self).queue.in_flight_records(), session_id@).len() == 0
                &&& of_session(final(self).queue.queued_records(), session_id@).len() == 0
                &&& final(self).queue.in_flight_records() == not_of_session(old(self).queue.in_flight_records(), session_id@)
                &&& final(self).queue.queued_records() == not_of_session(old(self).queue.queued_records(), session_id@)
                &&& final(self).queue.reserved_records() == old(self).queue.reserved_records()
                &&& final(self).queue.reserved_bytes() == old(self).queue.reserved_bytes()
                &&& forall|id: Seq<char>| #[trigger] final(self).queue.session(id) == old(self).queue.session(id)
                &&& forall|other: Seq<char>| other != session_id@ ==> #[trigger] final(self).slots.slot(other)
                    == old(self).slots.slot(other)
            },
    {
        let (lines, bytes) = self.slots.begin_close(session_id)?;
        let taken = self.queue.take_session(session_id);
        proof {
            lemma_none_left(old(self).queue.in_flight_records(), session_id@);
            lemma_none_left(old(self).queue.queued_records(), session_id@);
        }
        Ok((lines, bytes, taken))
    }

    /// The closing boundary of a session the writer itself stops: it stops accepting,
    /// every record it accepted is charged as lost, and the queue hands over what it
    /// lost in all. `None` for the counts when the writer held no slot for it.
    pub fn stop(&mut self, session_id: &str) -> (r: (Option<(i64, u64)>, AppResult<FinishedSession>))
        requires
            old(self).wf(),
        ensures
            final(self).wf(),
            old(self).slots.slot(session_id@) matches Some(s) ==> {
                &&& r.0 == Some((s.lines, s.bytes))
                &&& final(self).slots.slot(session_id@) == Some(Slot { state: SlotState::Closing, ..s })
            },
            old(self).slots.slot(session_id@) is None ==> r.0 is None && final(self).slots.slot(session_id@) is None,
            !final(self).accepting(session_id@),
            of_session(final(self).queue.in_flight_records(), session_id@).len() == 0,
            of_session(final(self).queue.queued_records(), session_id@).len() == 0,
            forall|other: Seq<char>| other != session_id@ ==> #[trigger] final(self).slots.slot(other)
                == old(self).slots.slot(other),
            forall|other: Seq<char>| other != session_id@ ==> #[trigger] final(self).queue.session(other)
                == old(self).queue.session(other),
    {
        let counts = self.slots.stop(session_id);
        self.queue.discard_session(session_id);
        proof {
            lemma_none_left(old(self).queue.in_flight_records(), session_id@);
            lemma_none_left(old(self).queue.queued_records(), session_id@);
        }
        let ghost mid = self.queue;
        let finished = self.queue.finish_session(session_id);
        proof {
            assert(self.queue.in_flight_records() == mid.in_flight_records());
            assert(self.queue.queued_records() == mid.queued_records());
        }
        (counts, finished)
    }

    /// Look at the front of the batch: encode it for a session the writer holds, or
    /// charge it as lost when no session holds it.
    pub fn front_write(&mut self) -> (r: FrontWrite)
        requires
            old(self).wf(),
        ensures
            final(self).wf(),
            final(self).slots == old(self).slots,
            old(self).queue.in_flight_records().len() == 0 ==> r is Empty && final(self).queue == old(self).queue,
            old(self).queue.in_flight_records().len() > 0 ==> {
                let item = old(self).queue.in_flight_records()[0];
                match old(self).slots.slot(item.record.session_id@) {
                    None => {
                        &&& r is Charged
                        &&& exists|mid: ArchiveQueue| front_taken(old(self).queue, mid, Some(item))
                            && discarded(mid, final(self).queue, item)
                    },
                    Some(s) => {
                        &&& r matches FrontWrite::Ready { write, counted }
                        &&& write.session_id@ == item.record.session_id@
                        &&& write.payload@ == record_payload(item)
                        &&& write.lines == if item.gap_before is Some { 2i64 } else { 1i64 }
                        &&& counted == s.bytes
                        &&& final(self).queue == old(self).queue
                    },
                }
            },
    {
        match self.queue.front() {
            None => return FrontWrite::Empty,
            Some(item) => match self.slots.counted_bytes(item.record.session_id.as_str()) {
                Some(counted) => return FrontWrite::Ready { write: pending_write(item), counted },
                None => {}
            },
        }
        let ghost before = self.queue;
        let taken = self.queue.take_front();
        let ghost mid = self.queue;
        match taken {
            Some(item) => {
                self.queue.discard(item);
                proof {
                    assert(front_taken(before, mid, Some(item)) && discarded(mid, self.queue, item));
                }
            }
            None => {}
        }
        FrontWrite::Charged
    }

    /// A write of the front record reached its file: the record is taken out and its
    /// room given back, and the session counts the lines and bytes it added.
    pub fn settle_written(&mut self, lines: i64, bytes: u64) -> (r: Option<QueuedRecord>)
        requires
            old(self).wf(),
        ensures
            final(self).wf(),
            old(self).queue.in_flight_records().len() == 0 ==> r is None && final(self).slots == old(self).slots
                && front_taken(old(self).queue, final(self).queue, None),
            old(self).queue.in_flight_records().len() > 0 ==> {
                let item = old(self).queue.in_flight_records()[0];
                let id = item.record.session_id@;
                &&& r == Some(item)
                &&& exists|mid: ArchiveQueue| front_taken(old(self).queue, mid, Some(item))
                    && released(mid, final(self).queue, item)
                &&& old(self).slots.slot(id) matches Some(s) ==> final(self).slots.slot(id) == Some(Slot {
                    state: s.state,
                    lines: saturating_lines(s.lines, lines),
                    bytes: saturating_bytes(s.bytes, bytes),
                })
                &&& old(self).slots.slot(id) is None ==> final(self).slots.slot(id) is None
                &&& forall|other: Seq<char>| other != id ==> #[trigger] final(self).slots.slot(other)
                    == old(self).slots.slot(other)
            },
    {
        let ghost before = self.queue;
        let taken = self.queue.take_front();
        let ghost mid = self.queue;
        match taken {
            Some(item) => {
                self.queue.release(&item);
                self.slots.add_written(item.record.session_id.as_str(), lines, bytes);
                proof {
                    assert(front_taken(before, mid, Some(item)) && released(mid, self.queue, item));
                }
                Some(item)
            }
            None => None,
        }
    }
}

} // verus!
