//! The writer's decisions: who may open, feed and close a session, how the byte
//! quota moves, when a write has room, which archive is evicted first, and what a
//! closed row says. The caller holds the locks, the files and the index, and does
//! what is decided here.
use vstd::prelude::*;
use crate::archive::names::{is_archive_name, row_label_text};
use crate::archive::order::{lemma_text_less_transitive, lemma_text_less_trichotomy, str_less, text_less};
use crate::archive::record::{ArchiveCounters, ArchiveRow, DropCounters};
use crate::archive::status::{more_severe, reason_named, status_named, ArchiveReason, ArchiveStatus};
use crate::archive::sweep::{saturated_total, stored_length, EntryKind, QuotaTotal};
use crate::error::{invalid, AppError, AppResult};
use crate::text::{contains_text, push_str, texts};

verus! {

/// Largest size one archive file may reach.
pub const SESSION_BYTE_CAP: u64 = 10 * 1024 * 1024;

/// Largest size all archive files together may reach.
pub const TOTAL_BYTE_CAP: u64 = 200 * 1024 * 1024;

/// Bytes buffered in front of each open archive file before they reach it.
pub const WRITE_BUFFER_BYTES: usize = 64 * 1024;

/// The byte caps the writer enforces. Production uses [`QuotaLimits::default`], the
/// documented caps; a test uses small ones so a cap is crossed without writing
/// hundreds of megabytes.
#[derive(Debug, Clone, Copy, PartialEq, Eq, Structural)]
pub struct QuotaLimits {
    pub session_bytes: u64,
    pub total_bytes: u64,
}

impl Default for QuotaLimits {
    fn default() -> (l: Self)
        ensures
            l == (QuotaLimits { session_bytes: SESSION_BYTE_CAP, total_bytes: TOTAL_BYTE_CAP }),
    {
        QuotaLimits { session_bytes: SESSION_BYTE_CAP, total_bytes: TOTAL_BYTE_CAP }
    }
}

/// What one slot in the writer's open map currently is. Three states rather than the
/// presence of a handle, because a handle is absent both before the file exists and
/// while a pump writes through it, and a record must be accepted in the second case
/// and not in the first.
#[derive(Debug, Clone, Copy, PartialEq, Eq, Structural)]
pub enum SlotState {
    /// Taken, the file not yet created. Only a concurrent `begin` can see this, to lose.
    Opening,
    /// Archiving, and accepting records.
    Open,
    /// No longer accepting records, not yet finished closing.
    Closing,
}

/// Whether a record for a session in this state is accepted. Only an open session
/// takes records; one with no slot, or one opening or closing, is ignored.
pub fn accepts_records(state: Option<SlotState>) -> (r: bool)
    ensures
        r == (state == Some(SlotState::Open)),
{
    match state {
        Some(SlotState::Open) => true,
        _ => false,
    }
}

/// The refusal a second `begin` meets, by the state it lost to.
pub open spec fn slot_taken_message(session_id: Seq<char>, state: SlotState) -> Seq<char> {
    match state {
        SlotState::Opening => "Session "@ + session_id + " is already opening its archive"@,
        SlotState::Open => "Session "@ + session_id + " already has an open archive"@,
        SlotState::Closing => "Session "@ + session_id + " is still closing its archive"@,
    }
}

/// Whether a session may take a slot: only when nothing holds one for it.
pub fn take_slot(session_id: &str, held: Option<SlotState>) -> (r: AppResult<()>)
    ensures
        held is None <==> r is Ok,
        held matches Some(state) ==> (r matches Err(e) && e is Message && e.text() == slot_taken_message(session_id@, state)),
{
    match held {
        None => Ok(()),
        Some(state) => {
            let mut m = String::new();
            push_str(&mut m, "Session ");
            push_str(&mut m, session_id);
            match state {
                SlotState::Opening => push_str(&mut m, " is already opening its archive"),
                SlotState::Open => push_str(&mut m, " already has an open archive"),
                SlotState::Closing => push_str(&mut m, " is still closing its archive"),
            }
            Err(invalid(m))
        }
    }
}

/// The refusal a close meets when the session is not open.
pub open spec fn close_refusal_message(session_id: Seq<char>, held: Option<SlotState>) -> Seq<char> {
    match held {
        None => "Session "@ + session_id + " has no open archive to close"@,
        Some(SlotState::Opening) => "Session "@ + session_id + " is still opening its archive"@,
        Some(SlotState::Closing) => "Session "@ + session_id + " is already closing its archive"@,
        Some(SlotState::Open) => Seq::empty(),
    }
}

/// Whether a close may begin: only for an open session. Anything else is refused
/// with nothing taken, so a second close, or a close of a session never begun, is
/// inert.
pub fn begin_close(session_id: &str, held: Option<SlotState>) -> (r: AppResult<()>)
    ensures
        r is Ok <==> held == Some(SlotState::Open),
        r matches Err(e) ==> e is Message && e.text() == close_refusal_message(session_id@, held),
{
    let mut m = String::new();
    push_str(&mut m, "Session ");
    push_str(&mut m, session_id);
    match held {
        Some(SlotState::Open) => return Ok(()),
        None => push_str(&mut m, " has no open archive to close"),
        Some(SlotState::Opening) => push_str(&mut m, " is still opening its archive"),
        Some(SlotState::Closing) => push_str(&mut m, " is already closing its archive"),
    }
    Err(invalid(m))
}

/// The worse of a close's reason so far and one more, or the new one when there was
/// none before.
pub open spec fn worse(current: Option<ArchiveReason>, addition: ArchiveReason) -> ArchiveReason {
    match current {
        Some(existing) => more_severe(existing, addition),
        None => addition,
    }
}

/// Fold one more fact into a close's verdict.
pub fn worsened(current: Option<ArchiveReason>, addition: ArchiveReason) -> (r: ArchiveReason)
    ensures
        r == worse(current, addition),
{
    match current {
        Some(existing) => ArchiveReason::most_severe(existing, addition),
        None => addition,
    }
}

/// The reason a requested close ends with: what was asked for, worsened by a queue
/// overflow if the session lost lines, and by a write error if its file refused
/// bytes or could not be made durable. `None` is a clean close.
pub open spec fn close_reason(requested: Option<ArchiveReason>, dropped: DropCounters, failed: bool) -> Option<ArchiveReason> {
    let after_loss = if dropped.lines > 0 || dropped.bytes > 0 {
        Some(worse(requested, ArchiveReason::QueueOverflow))
    } else {
        requested
    };
    if failed {
        Some(worse(after_loss, ArchiveReason::WriteError))
    } else {
        after_loss
    }
}

/// The reason a requested close ends with.
pub fn close_outcome(requested: Option<ArchiveReason>, dropped: DropCounters, failed: bool) -> (r: Option<ArchiveReason>)
    ensures
        r == close_reason(requested, dropped, failed),
{
    let mut outcome = requested;
    if dropped.lines > 0 || dropped.bytes > 0 {
        outcome = Some(worsened(outcome, ArchiveReason::QueueOverflow));
    }
    if failed {
        outcome = Some(worsened(outcome, ArchiveReason::WriteError));
    }
    outcome
}

/// A session ends `complete` only when nothing was lost: a close reports no reason
/// exactly when none was asked for, the session dropped nothing, and its file took
/// every byte and was made durable. Every other close is `partial`.
pub proof fn a_close_is_complete_only_when_nothing_was_lost(
    requested: Option<ArchiveReason>,
    dropped: DropCounters,
    failed: bool,
)
    ensures
        close_reason(requested, dropped, failed) is None <==> (requested is None && !(dropped.lines > 0
            || dropped.bytes > 0) && !failed),
{
}

/// The status a closed row gets: `complete` only with no reason at all.
pub fn closed_status(reason: Option<ArchiveReason>) -> (s: ArchiveStatus)
    ensures
        s == (if reason is Some { ArchiveStatus::Partial } else { ArchiveStatus::Complete }),
{
    match reason {
        Some(_) => ArchiveStatus::Partial,
        None => ArchiveStatus::Complete,
    }
}

/// The reason a session the writer itself stops ends with: the one that stopped it,
/// outranked by a write error when its final flush failed.
pub fn stopped_reason(reason: ArchiveReason, flush_failed: bool) -> (r: ArchiveReason)
    ensures
        r == (if flush_failed { more_severe(reason, ArchiveReason::WriteError) } else { reason }),
{
    if flush_failed {
        ArchiveReason::most_severe(reason, ArchiveReason::WriteError)
    } else {
        reason
    }
}

/// The counters a row carries for a session: the lines and bytes its file was given,
/// and everything the session lost.
pub fn row_counters(lines: i64, bytes: u64, dropped: DropCounters) -> (c: ArchiveCounters)
    ensures
        c == (ArchiveCounters {
            line_count: lines,
            byte_size: stored_length(bytes),
            dropped_lines: dropped.lines,
            dropped_bytes: dropped.bytes,
        }),
{
    let byte_size: i64 = if bytes <= 0x7fff_ffff_ffff_ffffu64 { bytes as i64 } else { i64::MAX };
    ArchiveCounters { line_count: lines, byte_size, dropped_lines: dropped.lines, dropped_bytes: dropped.bytes }
}

/// The size a closing session's row records: the writer's own count when the file
/// was made durable, else what the file measures, else the writer's count as the
/// only number there is.
pub fn closed_byte_size(durable: bool, counted: u64, measured: Option<u64>) -> (n: u64)
    ensures
        n == (if durable { counted } else {
            match measured {
                Some(m) => m,
                None => counted,
            }
        }),
{
    if durable {
        counted
    } else {
        match measured {
            Some(m) => m,
            None => counted,
        }
    }
}

impl QuotaTotal {
    /// The total after a file that really went away gave back the bytes it was
    /// measured at. Saturating; an unknown total stays unknown.
    pub fn credited(self, measured: u64) -> (t: QuotaTotal)
        ensures
            t == match self {
                QuotaTotal::Known(held) => QuotaTotal::Known(
                    if held >= measured { (held - measured) as u64 } else { 0 },
                ),
                QuotaTotal::Unavailable => QuotaTotal::Unavailable,
            },
    {
        match self {
            QuotaTotal::Known(held) => QuotaTotal::Known(held.saturating_sub(measured)),
            QuotaTotal::Unavailable => QuotaTotal::Unavailable,
        }
    }

    /// The total after bytes reached a file. Saturating; an unknown total stays
    /// unknown.
    pub fn charged(self, bytes: u64) -> (t: QuotaTotal)
        ensures
            t == match self {
                QuotaTotal::Known(held) => QuotaTotal::Known(
                    if held + bytes <= u64::MAX { (held + bytes) as u64 } else { u64::MAX },
                ),
                QuotaTotal::Unavailable => QuotaTotal::Unavailable,
            },
    {
        match self {
            QuotaTotal::Known(held) => QuotaTotal::Known(held.saturating_add(bytes)),
            QuotaTotal::Unavailable => QuotaTotal::Unavailable,
        }
    }

    /// The total corrected by what a session's file turned out to hold against what
    /// the writer had charged for it.
    pub fn reconciled(self, counted: u64, measured: u64) -> (t: QuotaTotal)
        ensures
            t == if measured > counted {
                self.charged_spec((measured - counted) as u64)
            } else {
                self.credited_spec((counted - measured) as u64)
            },
    {
        if measured > counted {
            self.charged(measured - counted)
        } else {
            self.credited(counted - measured)
        }
    }

    /// What [`QuotaTotal::charged`] returns.
    pub open spec fn charged_spec(self, bytes: u64) -> QuotaTotal {
        match self {
            QuotaTotal::Known(held) => QuotaTotal::Known(
                if held + bytes <= u64::MAX { (held + bytes) as u64 } else { u64::MAX },
            ),
            QuotaTotal::Unavailable => QuotaTotal::Unavailable,
        }
    }

    /// What [`QuotaTotal::credited`] returns.
    pub open spec fn credited_spec(self, measured: u64) -> QuotaTotal {
        match self {
            QuotaTotal::Known(held) => QuotaTotal::Known(if held >= measured { (held - measured) as u64 } else { 0 }),
            QuotaTotal::Unavailable => QuotaTotal::Unavailable,
        }
    }
}

/// What the caps say about one write.
#[derive(Debug, Clone, Copy, PartialEq, Eq, Structural)]
pub enum Room {
    /// The write fits.
    Available,
    /// The write does not fit and nothing can be freed for it: its session stops.
    Full,
    /// The write fits its session's cap but not the directory's: evict one ended
    /// archive and ask again.
    EvictFirst,
}

/// Whether the caps leave room for a write of `cost` bytes to a session whose file
/// holds `counted`. The session's own cap first, which no eviction can help; then the
/// directory's, where an unknown total refuses outright rather than grow a directory
/// nobody could measure.
pub open spec fn room_verdict(counted: u64, cost: u64, total: QuotaTotal, limits: QuotaLimits) -> Room {
    if saturated_total(counted + cost) > limits.session_bytes {
        Room::Full
    } else {
        match total {
            QuotaTotal::Unavailable => Room::Full,
            QuotaTotal::Known(held) => if saturated_total(held + cost) <= limits.total_bytes {
                Room::Available
            } else {
                Room::EvictFirst
            },
        }
    }
}

/// Whether the caps leave room for one write. The caller evicts and asks again on
/// [`Room::EvictFirst`], and stops the session when nothing is left to evict.
pub fn room_for(counted: u64, cost: u64, total: QuotaTotal, limits: QuotaLimits) -> (r: Room)
    ensures
        r == room_verdict(counted, cost, total, limits),
{
    if counted.saturating_add(cost) > limits.session_bytes {
        return Room::Full;
    }
    match total {
        QuotaTotal::Unavailable => Room::Full,
        QuotaTotal::Known(held) => if held.saturating_add(cost) <= limits.total_bytes {
            Room::Available
        } else {
            Room::EvictFirst
        },
    }
}

/// A write the caps admit, once counted against its session and charged to the
/// directory (both saturating, as the writer does), leaves both within their caps:
/// the quota is never exceeded by a pump's write.
pub proof fn an_admitted_write_stays_within_both_caps(counted: u64, cost: u64, total: QuotaTotal, limits: QuotaLimits)
    requires
        room_verdict(counted, cost, total, limits) == Room::Available,
    ensures
        saturated_total(counted + cost) <= limits.session_bytes,
        total.charged_spec(cost) matches QuotaTotal::Known(after) && after <= limits.total_bytes,
{
}

/// Whether an index row may be evicted: it has ended, `complete` or `partial` with an
/// end time, and the writer does not hold its session open. A status this build does
/// not know is never a candidate.
pub open spec fn evictable(row: ArchiveRow, held: Seq<Seq<char>>) -> bool {
    &&& (status_named(row.status@) == Some(ArchiveStatus::Complete)
        || status_named(row.status@) == Some(ArchiveStatus::Partial))
    &&& row.ended_at is Some
    &&& !held.contains(row.session_id@)
}

/// Whether row `a` goes strictly before row `b`: oldest end first, then oldest
/// start, then session id.
pub open spec fn evicts_before(a: ArchiveRow, b: ArchiveRow) -> bool {
    match (a.ended_at, b.ended_at) {
        (Some(x), Some(y)) => x < y || (x == y && (a.started_at < b.started_at
            || (a.started_at == b.started_at && text_less(a.session_id@, b.session_id@)))),
        _ => false,
    }
}

proof fn lemma_before_transitive(a: ArchiveRow, b: ArchiveRow, c: ArchiveRow)
    requires
        evicts_before(a, b),
        evicts_before(b, c),
    ensures
        evicts_before(a, c),
{
    if a.ended_at == b.ended_at && b.ended_at == c.ended_at && a.started_at == b.started_at
        && b.started_at == c.started_at {
        lemma_text_less_transitive(a.session_id@, b.session_id@, c.session_id@);
    }
}

/// A row that goes before `k`, goes before every row `k` does not go after.
proof fn lemma_before_lower(i: ArchiveRow, k: ArchiveRow, j: ArchiveRow)
    requires
        evicts_before(i, k),
        j.ended_at is Some,
        !evicts_before(j, k),
    ensures
        evicts_before(i, j),
{
    lemma_text_less_trichotomy(j.session_id@, k.session_id@);
    if j.ended_at == k.ended_at && j.started_at == k.started_at && j.session_id@ != k.session_id@ {
        lemma_before_transitive(i, k, j);
    }
}

/// Whether row `a` goes strictly before row `b`.
fn goes_before(a: &ArchiveRow, b: &ArchiveRow) -> (r: bool)
    ensures
        r == evicts_before(*a, *b),
{
    match (a.ended_at, b.ended_at) {
        (Some(x), Some(y)) => {
            if x != y {
                x < y
            } else if a.started_at != b.started_at {
                a.started_at < b.started_at
            } else {
                str_less(a.session_id.as_str(), b.session_id.as_str())
            }
        }
        _ => false,
    }
}

/// Whether a row is a candidate for eviction.
fn is_evictable(row: &ArchiveRow, held: &Vec<String>) -> (r: bool)
    ensures
        r == evictable(*row, texts(held@)),
{
    let ended = match ArchiveStatus::parse(row.status.as_str()) {
        Some(ArchiveStatus::Complete) | Some(ArchiveStatus::Partial) => true,
        _ => false,
    };
    ended && row.ended_at.is_some() && !contains_text(held, row.session_id.as_str())
}

/// The archive that goes first when room has to be made, as a position in `rows`, or
/// `None` when none may go. Eligibility is settled before order, so an ineligible row
/// never wins a comparison; of rows equal in every key, the first is chosen.
pub fn eviction_candidate(rows: &Vec<ArchiveRow>, held: &Vec<String>) -> (r: Option<usize>)
    ensures
        r is None <==> forall|i: int| 0 <= i < rows@.len() ==> !evictable(#[trigger] rows@[i], texts(held@)),
        r matches Some(k) ==> {
            &&& k < rows@.len()
            &&& evictable(rows@[k as int], texts(held@))
            &&& forall|i: int| 0 <= i < rows@.len() && evictable(#[trigger] rows@[i], texts(held@)) ==> if i < k {
                evicts_before(rows@[k as int], rows@[i])
            } else {
                !evicts_before(rows@[i], rows@[k as int])
            }
        },
{
    let mut best: Option<usize> = None;
    let mut i: usize = 0;
    while i < rows.len()
        invariant
            i <= rows@.len(),
            best is None ==> forall|j: int| 0 <= j < i ==> !evictable(#[trigger] rows@[j], texts(held@)),
            best matches Some(k) ==> {
                &&& k < i
                &&& evictable(rows@[k as int], texts(held@))
                &&& forall|j: int| 0 <= j < i && evictable(#[trigger] rows@[j], texts(held@)) ==> if j < k {
                    evicts_before(rows@[k as int], rows@[j])
                } else {
                    !evicts_before(rows@[j], rows@[k as int])
                }
            },
        decreases rows@.len() - i,
    {
        if is_evictable(&rows[i], held) {
            match best {
                None => {
                    best = Some(i);
                    proof {
                        assert forall|j: int| 0 <= j < i + 1 && evictable(#[trigger] rows@[j], texts(held@)) implies
                            !evicts_before(rows@[j], rows@[i as int]) by {
                            assert(j == i);
                            if evicts_before(rows@[j], rows@[j]) {
                                lemma_text_less_trichotomy(rows@[j].session_id@, rows@[j].session_id@);
                            }
                        }
                    }
                }
                Some(k) => {
                    if goes_before(&rows[i], &rows[k]) {
                        proof {
                            assert forall|j: int| 0 <= j < i + 1 && evictable(#[trigger] rows@[j], texts(held@)) implies
                                (if j < i { evicts_before(rows@[i as int], rows@[j]) } else {
                                    !evicts_before(rows@[j], rows@[i as int])
                                }) by {
                                if j < k {
                                    lemma_before_transitive(rows@[i as int], rows@[k as int], rows@[j]);
                                } else if j < i {
                                    lemma_before_lower(rows@[i as int], rows@[k as int], rows@[j]);
                                } else if evicts_before(rows@[j], rows@[j]) {
                                    lemma_text_less_trichotomy(rows@[j].session_id@, rows@[j].session_id@);
                                }
                            }
                        }
                        best = Some(i);
                    }
                }
            }
        }
        i = i + 1;
    }
    best
}

/// The refusal for a delete of a session the writer still holds.
pub open spec fn still_writing_message(session_id: Seq<char>) -> Seq<char> {
    "Session "@ + session_id + " is still writing its run log archive"@
}

/// Whether an archive may be deleted: never while its writer holds the session,
/// including the instant a slot exists without its file.
pub fn check_deletable(session_id: &str, held_open: bool) -> (r: AppResult<()>)
    ensures
        r is Ok <==> !held_open,
        r matches Err(e) ==> e is Message && e.text() == still_writing_message(session_id@),
{
    if held_open {
        let mut m = String::new();
        push_str(&mut m, "Session ");
        push_str(&mut m, session_id);
        push_str(&mut m, " is still writing its run log archive");
        return Err(invalid(m));
    }
    Ok(())
}

/// The refusal for a session the index has no row for.
pub open spec fn no_archive_message(session_id: Seq<char>) -> Seq<char> {
    "Session "@ + session_id + " has no run log archive"@
}

/// The row a session's archive has, or the refusal for a session the index does not
/// know: the name an id would produce is not permission to open the file at it.
pub fn require_row(session_id: &str, row: Option<ArchiveRow>) -> (r: AppResult<ArchiveRow>)
    ensures
        row matches Some(found) ==> r == Ok::<ArchiveRow, AppError>(found),
        row is None ==> (r matches Err(e) && e is Message && e.text() == no_archive_message(session_id@)),
{
    match row {
        Some(found) => Ok(found),
        None => {
            let mut m = String::new();
            push_str(&mut m, "Session ");
            push_str(&mut m, session_id);
            push_str(&mut m, " has no run log archive");
            Err(invalid(m))
        }
    }
}

/// The refusal for reading an archive that was removed: its row's reason, or
/// `removed` when the row gives none.
pub open spec fn gone_message(session_id: Seq<char>, reason: Option<Seq<char>>) -> Seq<char> {
    "The run log archive of session "@ + session_id + " is gone: "@ + match reason {
        Some(r) => r,
        None => "removed"@,
    }
}

/// Whether a row's archive may be read: not once it is `removed`, so a viewer left
/// open across an eviction says what happened instead of showing an empty file.
pub fn check_readable(session_id: &str, row: &ArchiveRow) -> (r: AppResult<()>)
    ensures
        r is Ok <==> status_named(row.status@) != Some(ArchiveStatus::Removed),
        r matches Err(e) ==> e is Message && e.text() == gone_message(session_id@, match row.reason {
            Some(reason) => Some(reason@),
            None => None,
        }),
{
    match ArchiveStatus::parse(row.status.as_str()) {
        Some(ArchiveStatus::Removed) => {
            let mut m = String::new();
            push_str(&mut m, "The run log archive of session ");
            push_str(&mut m, session_id);
            push_str(&mut m, " is gone: ");
            match &row.reason {
                Some(reason) => push_str(&mut m, reason.as_str()),
                None => push_str(&mut m, "removed"),
            }
            Err(invalid(m))
        }
        _ => Ok(()),
    }
}

/// The refusal for an archive name taken by something that is not an ordinary file.
pub open spec fn not_a_file_message(file_name: Seq<char>, kind: EntryKind) -> Seq<char> {
    match kind {
        EntryKind::Directory => "Archive entry "@ + file_name + " is a directory, not a file"@,
        _ => "Archive entry "@ + file_name + " is a reparse point, which RunCove reports instead of reading"@,
    }
}

/// What every read, delete and eviction checks first: the entry at an archive name
/// must be an ordinary file, never one reached through a link; its length is returned.
pub fn ordinary_file_length(file_name: &str, kind: EntryKind, len: u64) -> (r: AppResult<u64>)
    ensures
        kind == EntryKind::File ==> r == Ok::<u64, AppError>(len),
        kind != EntryKind::File ==> (r matches Err(e) && e is Message && e.text() == not_a_file_message(file_name@, kind)),
{
    match kind {
        EntryKind::File => Ok(len),
        EntryKind::Directory => {
            let mut m = String::new();
            push_str(&mut m, "Archive entry ");
            push_str(&mut m, file_name);
            push_str(&mut m, " is a directory, not a file");
            Err(invalid(m))
        }
        EntryKind::ReparsePoint => {
            let mut m = String::new();
            push_str(&mut m, "Archive entry ");
            push_str(&mut m, file_name);
            push_str(&mut m, " is a reparse point, which RunCove reports instead of reading");
            Err(invalid(m))
        }
    }
}


/// `x` held in an `i64`, saturating at either end.
pub open spec fn saturated_i64(x: int) -> i64 {
    if x > i64::MAX {
        i64::MAX
    } else if x < i64::MIN {
        i64::MIN
    } else {
        x as i64
    }
}

/// `x` held in a `u64`, saturating at the top.
pub open spec fn saturated_u64(x: int) -> u64 {
    if x > u64::MAX {
        u64::MAX
    } else if x < 0 {
        0
    } else {
        x as u64
    }
}

/// What a close has written to its session's archive so far: the lines and bytes that
/// reached the file, and whether a write has failed, after which nothing more is
/// written.
#[derive(Clone, Copy, Debug)]
pub struct CloseTally {
    pub lines: i64,
    pub bytes: u64,
    pub failed: bool,
}

impl CloseTally {
    /// A close that has written nothing yet.
    pub fn new(lines: i64, bytes: u64) -> (t: Self)
        ensures
            t == (CloseTally { lines, bytes, failed: false }),
    {
        CloseTally { lines, bytes, failed: false }
    }

    /// Whether the next payload is written: nothing has failed, and the session's
    /// handle is there.
    pub fn may_append(&self, has_file: bool) -> (r: bool)
        ensures
            r == (!self.failed && has_file),
    {
        !self.failed && has_file
    }

    /// The tally after one payload of `lines` lines and `cost` bytes was offered:
    /// unchanged once failed; failed when the bytes did not reach the file; else both
    /// counts grow, saturating.
    pub fn after_append(self, reached: bool, lines: i64, cost: u64) -> (r: Self)
        ensures
            r == if self.failed {
                self
            } else if !reached {
                CloseTally { failed: true, ..self }
            } else {
                CloseTally {
                    lines: saturated_i64(self.lines + lines),
                    bytes: saturated_u64(self.bytes + cost),
                    failed: false,
                }
            },
    {
        if self.failed {
            return self;
        }
        if !reached {
            return CloseTally { failed: true, ..self };
        }
        let new_lines: i64 = if lines >= 0 {
            if self.lines > i64::MAX - lines { i64::MAX } else { self.lines + lines }
        } else {
            if self.lines < i64::MIN - lines { i64::MIN } else { self.lines + lines }
        };
        let new_bytes: u64 = if self.bytes > u64::MAX - cost { u64::MAX } else { self.bytes + cost };
        CloseTally { lines: new_lines, bytes: new_bytes, failed: false }
    }
}

/// How a close ends with its session's handle.
#[derive(Debug, PartialEq, Eq, Structural)]
pub enum CloseFinish {
    /// Flush and sync what was written; a refusal marks the close failed.
    FlushAndSync,
    /// A write failed: give the handle up without flushing what it buffers.
    DropUnflushed,
    /// The handle is gone; nothing is durable.
    NoHandle,
}

/// How a close ends, given whether the handle is there and whether a write failed.
pub fn close_finish(has_file: bool, failed: bool) -> (r: CloseFinish)
    ensures
        r == if !has_file {
            CloseFinish::NoHandle
        } else if failed {
            CloseFinish::DropUnflushed
        } else {
            CloseFinish::FlushAndSync
        },
{
    if !has_file {
        CloseFinish::NoHandle
    } else if failed {
        CloseFinish::DropUnflushed
    } else {
        CloseFinish::FlushAndSync
    }
}

} // verus!
