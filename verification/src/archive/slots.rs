//! The writer's open sessions: one slot per session, taken before its file exists,
//! open while it archives, closing until its row is written. The file handles live
//! beside this map with the caller; what a slot is, and what it has counted, lives
//! here.
use vstd::prelude::*;
use crate::archive::sorted::{lemma_lookup_put, lemma_lookup_without, lookup, put, without, NameMap};
use crate::archive::writer::{begin_close, close_refusal_message, slot_taken_message, take_slot, SlotState};
use crate::error::AppResult;
use crate::text::{push_str, texts};

verus! {

/// One session's slot: its state, and the lines and bytes this writer put in its file.
#[derive(Debug, Clone, Copy, PartialEq, Eq, Structural)]
pub struct Slot {
    pub state: SlotState,
    /// Archived lines the file holds, gap lines included.
    pub lines: i64,
    /// Encoded bytes handed to the file and charged to the quota.
    pub bytes: u64,
}

/// A slot just taken, before its file exists.
pub open spec fn opening_slot() -> Slot {
    Slot { state: SlotState::Opening, lines: 0, bytes: 0 }
}

/// A slot whose file was just created.
pub open spec fn fresh_open_slot() -> Slot {
    Slot { state: SlotState::Open, lines: 0, bytes: 0 }
}

/// `x + y`, saturating at the bounds of an `i64`, for non-negative `y`.
pub open spec fn saturating_lines(x: i64, y: i64) -> i64 {
    if x + y > i64::MAX { i64::MAX } else if x + y < i64::MIN { i64::MIN } else { (x + y) as i64 }
}

/// `x + y`, saturating at `u64::MAX`.
pub open spec fn saturating_bytes(x: u64, y: u64) -> u64 {
    if x + y > u64::MAX { u64::MAX } else { (x + y) as u64 }
}

/// The sessions this writer holds, by session id.
pub struct OpenSlots {
    pub slots: NameMap<Slot>,
}

impl OpenSlots {
    /// Whether the map is well formed.
    pub open spec fn wf(&self) -> bool {
        self.slots.wf()
    }

    /// The slot of a session, if the writer holds one.
    pub open spec fn slot(&self, session_id: Seq<char>) -> Option<Slot> {
        lookup(self.slots@, session_id)
    }

    /// No session held.
    pub fn new() -> (m: Self)
        ensures
            m.wf(),
            forall|id: Seq<char>| m.slot(id) is None,
    {
        OpenSlots { slots: NameMap::new() }
    }

    /// The slot of a session, if the writer holds one.
    pub fn get(&self, session_id: &str) -> (r: Option<Slot>)
        requires
            self.wf(),
        ensures
            r == self.slot(session_id@),
    {
        self.slots.get(session_id)
    }

    fn set(&mut self, session_id: &str, slot: Slot)
        requires
            old(self).wf(),
        ensures
            final(self).wf(),
            final(self).slot(session_id@) == Some(slot),
            forall|other: Seq<char>| other != session_id@ ==> #[trigger] final(self).slot(other) == old(self).slot(other),
    {
        let mut key = String::new();
        push_str(&mut key, session_id);
        proof {
            assert forall|other: Seq<char>| other != session_id@ implies #[trigger] lookup(
                put(self.slots@, session_id@, slot), other) == lookup(self.slots@, other) by {
                lemma_lookup_put(self.slots@, session_id@, slot, other);
            }
            lemma_lookup_put(self.slots@, session_id@, slot, session_id@);
        }
        self.slots.insert(key, slot);
    }

    /// Take a session's slot before its file is created, or refuse because something
    /// already holds it. This is the whole duplicate rule: of two `begin`s for one
    /// session, exactly one takes the slot.
    pub fn take(&mut self, session_id: &str) -> (r: AppResult<()>)
        requires
            old(self).wf(),
        ensures
            final(self).wf(),
            old(self).slot(session_id@) is None ==> {
                &&& r is Ok
                &&& final(self).slot(session_id@) == Some(opening_slot())
                &&& forall|other: Seq<char>| other != session_id@ ==> #[trigger] final(self).slot(other) == old(self).slot(other)
            },
            old(self).slot(session_id@) matches Some(held) ==> {
                &&& r matches Err(e) && e is Message && e.text() == slot_taken_message(session_id@, held.state)
                &&& forall|other: Seq<char>| #[trigger] final(self).slot(other) == old(self).slot(other)
            },
    {
        let held = match self.get(session_id) {
            Some(slot) => Some(slot.state),
            None => None,
        };
        take_slot(session_id, held)?;
        self.set(session_id, Slot { state: SlotState::Opening, lines: 0, bytes: 0 });
        Ok(())
    }

    /// The session's file exists and its row is written: it archives from now on.
    pub fn open(&mut self, session_id: &str)
        requires
            old(self).wf(),
        ensures
            final(self).wf(),
            final(self).slot(session_id@) == Some(fresh_open_slot()),
            forall|other: Seq<char>| other != session_id@ ==> #[trigger] final(self).slot(other) == old(self).slot(other),
    {
        self.set(session_id, Slot { state: SlotState::Open, lines: 0, bytes: 0 });
    }

    /// Give a session's slot back: a `begin` that failed, or a close whose file work
    /// is done.
    pub fn release(&mut self, session_id: &str)
        requires
            old(self).wf(),
        ensures
            final(self).wf(),
            final(self).slot(session_id@) is None,
            forall|other: Seq<char>| other != session_id@ ==> #[trigger] final(self).slot(other) == old(self).slot(other),
    {
        proof {
            assert forall|other: Seq<char>| other != session_id@ implies #[trigger] lookup(
                without(self.slots@, session_id@), other) == lookup(self.slots@, other) by {
                lemma_lookup_without(self.slots@, session_id@, other);
            }
            lemma_lookup_without(self.slots@, session_id@, session_id@);
        }
        self.slots.remove(session_id);
    }

    /// Whether a record for this session is accepted: only while its slot is open.
    pub fn accepts(&self, session_id: &str) -> (r: bool)
        requires
            self.wf(),
        ensures
            r == (self.slot(session_id@) matches Some(s) && s.state == SlotState::Open),
    {
        match self.get(session_id) {
            Some(slot) => slot.state == SlotState::Open,
            None => false,
        }
    }

    /// Whether the writer holds this session, in any state; a delete is refused while
    /// it does.
    pub fn holds(&self, session_id: &str) -> (r: bool)
        requires
            self.wf(),
        ensures
            r == self.slot(session_id@) is Some,
    {
        self.get(session_id).is_some()
    }

    /// The bytes a held session's file already has, the figure its own cap is
    /// measured against.
    pub fn counted_bytes(&self, session_id: &str) -> (r: Option<u64>)
        requires
            self.wf(),
        ensures
            r == match self.slot(session_id@) {
                Some(s) => Some(s.bytes),
                None => None,
            },
    {
        match self.get(session_id) {
            Some(slot) => Some(slot.bytes),
            None => None,
        }
    }

    /// Count what a write put in a held session's file; a session no longer held is
    /// left alone.
    pub fn add_written(&mut self, session_id: &str, lines: i64, bytes: u64)
        requires
            old(self).wf(),
        ensures
            final(self).wf(),
            old(self).slot(session_id@) matches Some(s) ==> final(self).slot(session_id@) == Some(Slot {
                state: s.state,
                lines: saturating_lines(s.lines, lines),
                bytes: saturating_bytes(s.bytes, bytes),
            }),
            old(self).slot(session_id@) is None ==> final(self).slot(session_id@) is None,
            forall|other: Seq<char>| other != session_id@ ==> #[trigger] final(self).slot(other) == old(self).slot(other),
    {
        match self.get(session_id) {
            Some(slot) => {
                let sum = slot.lines as i128 + lines as i128;
                let new_lines: i64 = if sum > i64::MAX as i128 {
                    i64::MAX
                } else if sum < i64::MIN as i128 {
                    i64::MIN
                } else {
                    sum as i64
                };
                self.set(
                    session_id,
                    Slot { state: slot.state, lines: new_lines, bytes: slot.bytes.saturating_add(bytes) },
                );
            }
            None => {}
        }
    }

    /// Begin the close of an open session: it stops accepting records and its counts
    /// are handed to the close. Any other session is refused with nothing changed, so
    /// a second close, or a close of a session never begun, is inert.
    pub fn begin_close(&mut self, session_id: &str) -> (r: AppResult<(i64, u64)>)
        requires
            old(self).wf(),
        ensures
            final(self).wf(),
            old(self).slot(session_id@) matches Some(s) ==> (s.state == SlotState::Open ==> {
                &&& r == Ok::<(i64, u64), crate::error::AppError>((s.lines, s.bytes))
                &&& final(self).slot(session_id@) == Some(Slot { state: SlotState::Closing, ..s })
                &&& forall|other: Seq<char>| other != session_id@ ==> #[trigger] final(self).slot(other) == old(self).slot(other)
            }),
            !(old(self).slot(session_id@) matches Some(s) && s.state == SlotState::Open) ==> {
                &&& r matches Err(e) && e is Message && e.text() == close_refusal_message(
                    session_id@,
                    match old(self).slot(session_id@) {
                        Some(s) => Some(s.state),
                        None => None,
                    },
                )
                &&& forall|other: Seq<char>| #[trigger] final(self).slot(other) == old(self).slot(other)
            },
    {
        let slot = self.get(session_id);
        let held = match slot {
            Some(s) => Some(s.state),
            None => None,
        };
        begin_close(session_id, held)?;
        let s = match slot {
            Some(s) => s,
            None => return Ok((0, 0)),
        };
        self.set(session_id, Slot { state: SlotState::Closing, lines: s.lines, bytes: s.bytes });
        Ok((s.lines, s.bytes))
    }

    /// Mark a session the writer itself is stopping as closing, and hand over its
    /// counts; `None` when it holds no slot.
    pub fn stop(&mut self, session_id: &str) -> (r: Option<(i64, u64)>)
        requires
            old(self).wf(),
        ensures
            final(self).wf(),
            old(self).slot(session_id@) matches Some(s) ==> {
                &&& r == Some((s.lines, s.bytes))
                &&& final(self).slot(session_id@) == Some(Slot { state: SlotState::Closing, ..s })
            },
            old(self).slot(session_id@) is None ==> r is None && final(self).slot(session_id@) is None,
            forall|other: Seq<char>| other != session_id@ ==> #[trigger] final(self).slot(other) == old(self).slot(other),
    {
        match self.get(session_id) {
            Some(s) => {
                self.set(session_id, Slot { state: SlotState::Closing, lines: s.lines, bytes: s.bytes });
                Some((s.lines, s.bytes))
            }
            None => None,
        }
    }

    /// The sessions that are open, in id order: what closing everything closes. A
    /// session another thread is opening or closing is not on it.
    pub fn open_sessions(&self) -> (ids: Vec<String>)
        requires
            self.wf(),
        ensures
            texts(ids@) == self.slots@.filter(|e: (Seq<char>, Slot)| e.1.state == SlotState::Open).map_values(
                |e: (Seq<char>, Slot)| e.0),
    {
        let mut ids: Vec<String> = Vec::new();
        let mut i: usize = 0;
        while i < self.slots.entries.len()
            invariant
                i <= self.slots@.len(),
                texts(ids@) == self.slots@.subrange(0, i as int).filter(|e: (Seq<char>, Slot)| e.1.state
                    == SlotState::Open).map_values(|e: (Seq<char>, Slot)| e.0),
            decreases self.slots@.len() - i,
        {
            let ghost prefix = self.slots@.subrange(0, i + 1);
            let ghost before = ids@;
            proof {
                assert(prefix.drop_last() =~= self.slots@.subrange(0, i as int));
                reveal(Seq::filter);
            }
            if self.slots.entries[i].1.state == SlotState::Open {
                ids.push(self.slots.entries[i].0.clone());
                proof {
                    assert(texts(ids@) =~= texts(before).push(self.slots@[i as int].0));
                }
            }
            i = i + 1;
        }
        proof {
            assert(self.slots@.subrange(0, i as int) =~= self.slots@);
        }
        ids
    }

    /// Every session the writer holds, in any state, in id order: what eviction may
    /// never touch.
    pub fn held_sessions(&self) -> (ids: Vec<String>)
        requires
            self.wf(),
        ensures
            texts(ids@) == self.slots@.map_values(|e: (Seq<char>, Slot)| e.0),
    {
        let mut ids: Vec<String> = Vec::new();
        let mut i: usize = 0;
        while i < self.slots.entries.len()
            invariant
                i <= self.slots@.len(),
                texts(ids@) == self.slots@.subrange(0, i as int).map_values(|e: (Seq<char>, Slot)| e.0),
            decreases self.slots@.len() - i,
        {
            let ghost before = ids@;
            ids.push(self.slots.entries[i].0.clone());
            proof {
                assert(texts(ids@) =~= texts(before).push(self.slots@[i as int].0));
                assert(self.slots@.subrange(0, i + 1).map_values(|e: (Seq<char>, Slot)| e.0) =~= self.slots@.subrange(
                    0, i as int).map_values(|e: (Seq<char>, Slot)| e.0).push(self.slots@[i as int].0));
            }
            i = i + 1;
        }
        proof {
            assert(self.slots@.subrange(0, i as int) =~= self.slots@);
        }
        ids
    }
}

/// A session that has taken its slot cannot take it again until the slot is given
/// back: a second `begin` finds the slot held while opening and is told so.
pub proof fn a_second_begin_is_refused(after: OpenSlots, session_id: Seq<char>)
    requires
        after.slot(session_id) == Some(opening_slot()),
    ensures
        after.slot(session_id) matches Some(held) && slot_taken_message(session_id, held.state)
            == "Session "@ + session_id + " is already opening its archive"@,
{
}

} // verus!
