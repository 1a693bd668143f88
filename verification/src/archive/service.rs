//! How the application runs the archive: how often a running session's row counters
//! are refreshed, which failures reach the user, how the pump thread is woken and
//! stopped, and what the toggle reports. The threads, locks and clock are the
//! caller's; the decisions are made here.
use vstd::prelude::*;
use crate::archive::record::saturate;
use crate::archive::sorted::{lookup, put, without, NameMap};
use crate::error::{invalid, AppError};
use crate::models::RunLogArchiveState;
use crate::text::{push_str, str_eq, texts};

verus! {

/// The shortest gap between two refreshes of one session's row counters.
pub const COUNTER_REFRESH_INTERVAL_MS: i64 = 4_000;

/// How many bytes one session may gain between two refreshes of its row counters.
pub const COUNTER_REFRESH_BYTES: i64 = 1024 * 1024;

/// How long the pump waits to be told there is work before looking anyway.
pub const PUMP_IDLE_INTERVAL_MS: u64 = 500;

/// Said of a service built without an archive behind it.
pub const UNCONFIGURED: &'static str = "This build of the run log archive has no storage behind it.";

/// Said when a read or a delete arrives before anything has ever been archived.
pub const NOTHING_ARCHIVED: &'static str = "No run log archive exists yet.";

/// The last counter refresh let through for a session.
#[derive(Debug, Clone, Copy, PartialEq, Eq, Structural)]
pub struct Refreshed {
    pub at: i64,
    pub byte_size: i64,
}

/// Whether a refresh this close behind the last one can wait for the next batch:
/// less than the interval has passed, by a clock that has not gone backwards, and
/// fewer than the refresh bytes were gained.
pub open spec fn refresh_can_wait(last: Refreshed, now: i64, byte_size: i64) -> bool {
    let elapsed = saturate(now - last.at);
    let gained = saturate(byte_size - last.byte_size);
    0 <= elapsed < COUNTER_REFRESH_INTERVAL_MS && gained < COUNTER_REFRESH_BYTES
}

/// `a - b`, saturating at the bounds of an `i64`.
fn saturating_sub_i64(a: i64, b: i64) -> (r: i64)
    ensures
        r == saturate(a - b),
{
    match a.checked_sub(b) {
        Some(d) => d,
        None => if b < 0 { i64::MAX } else { i64::MIN },
    }
}

/// Whether a refresh can wait for the next batch. A clock that went backwards is
/// not thinned: refreshing too often is the harmless answer to a reading that makes
/// no sense.
pub fn can_wait(last: Refreshed, now: i64, byte_size: i64) -> (r: bool)
    ensures
        r == refresh_can_wait(last, now, byte_size),
{
    let elapsed = saturating_sub_i64(now, last.at);
    let gained = saturating_sub_i64(byte_size, last.byte_size);
    0 <= elapsed && elapsed < COUNTER_REFRESH_INTERVAL_MS && gained < COUNTER_REFRESH_BYTES
}

/// The last refresh let through for each session whose row is still `writing`.
pub struct CounterThrottle {
    pub refreshed: NameMap<Refreshed>,
}

impl CounterThrottle {
    /// A throttle that has let nothing through yet.
    pub fn new() -> (t: Self)
        ensures
            t.refreshed.wf(),
            t.refreshed@ == Seq::<(Seq<char>, Refreshed)>::empty(),
    {
        CounterThrottle { refreshed: NameMap::new() }
    }

    /// Whether a session's counter refresh goes through now. A session's first
    /// refresh always does; after that, time or bytes, whichever comes first. A
    /// refresh let through is remembered before the write is made, so a database
    /// refusing writes is asked once per interval rather than once per line.
    pub fn admits(&mut self, session_id: &str, now: i64, byte_size: i64) -> (r: bool)
        requires
            old(self).refreshed.wf(),
        ensures
            final(self).refreshed.wf(),
            r == !(lookup(old(self).refreshed@, session_id@) matches Some(last) && refresh_can_wait(last, now, byte_size)),
            r ==> final(self).refreshed@ == put(old(self).refreshed@, session_id@, Refreshed { at: now, byte_size }),
            !r ==> final(self).refreshed@ == old(self).refreshed@,
    {
        match self.refreshed.get(session_id) {
            Some(last) => {
                if can_wait(last, now, byte_size) {
                    return false;
                }
            }
            None => {}
        }
        let mut key = String::new();
        push_str(&mut key, session_id);
        self.refreshed.insert(key, Refreshed { at: now, byte_size });
        true
    }

    /// Stop thinning a session whose row is no longer `writing`, so the map follows
    /// the open sessions rather than the run's history.
    pub fn forget(&mut self, session_id: &str)
        requires
            old(self).refreshed.wf(),
        ensures
            final(self).refreshed.wf(),
            final(self).refreshed@ == without(old(self).refreshed@, session_id@),
    {
        self.refreshed.remove(session_id);
    }
}

/// The archive's failures on their way to the user, with consecutive duplicates
/// dropped: a pump failing on every tick is one message, while failing again after
/// recovering is news.
pub struct ReportDedupe {
    pub last: Option<String>,
}

impl ReportDedupe {
    /// Nothing reported yet.
    pub fn new() -> (d: Self)
        ensures
            d.last is None,
    {
        ReportDedupe { last: None }
    }

    /// The message to pass on, or `None` when it repeats the one before it.
    pub fn pass_on(&mut self, message: String) -> (r: Option<String>)
        ensures
            (old(self).last matches Some(previous) && previous@ == message@) ==> {
                &&& r is None
                &&& final(self).last == old(self).last
            },
            !(old(self).last matches Some(previous) && previous@ == message@) ==> {
                &&& r matches Some(passed) && passed@ == message@
                &&& final(self).last matches Some(kept) && kept@ == message@
            },
    {
        let repeated = match &self.last {
            Some(previous) => str_eq(previous.as_str(), message.as_str()),
            None => false,
        };
        if repeated {
            return None;
        }
        self.last = Some(message.clone());
        Some(message)
    }
}

/// The handshake between the threads that hand records over and the pump.
#[derive(Debug, Clone, Copy, PartialEq, Eq, Structural)]
pub struct PumpState {
    /// A record has arrived since the last pump.
    pub pending: bool,
    /// The application is closing: pump once more, then stop.
    pub stopping: bool,
}

impl PumpState {
    /// Neither work nor a stop has been signalled.
    pub fn idle() -> (s: Self)
        ensures
            !s.pending && !s.stopping,
    {
        PumpState { pending: false, stopping: false }
    }

    /// Whether the pump should sleep before looking: only when nothing is pending and
    /// no stop was asked for.
    pub fn should_wait(self) -> (r: bool)
        ensures
            r == self.should_wait_spec(),
    {
        !self.pending && !self.stopping
    }

    /// The state once the pump wakes and takes the pending work, and whether this is
    /// the last round.
    pub fn woken(self) -> (r: (PumpState, bool))
        ensures
            r == self.woken_spec(),
    {
        (PumpState { pending: false, stopping: self.stopping }, self.stopping)
    }

    /// The state once a record arrives, and whether the pump must be notified. An
    /// outstanding notification is not repeated.
    pub fn nudged(self) -> (r: (PumpState, bool))
        ensures
            r == self.nudged_spec(),
    {
        if self.pending {
            (self, false)
        } else {
            (PumpState { pending: true, stopping: self.stopping }, true)
        }
    }

    /// The state once the application asks the pump to stop after one more round.
    pub fn stopped(self) -> (s: PumpState)
        ensures
            s == self.stopped_spec(),
    {
        PumpState { pending: self.pending, stopping: true }
    }
}

/// A record's nudge is never lost: from the moment it is signalled until the pump
/// takes it, the pump does not sleep; and a stop, once asked for, keeps the pump from
/// sleeping and tells it the round is its last.
pub proof fn a_signal_is_never_slept_through(s: PumpState)
    ensures
        !s.nudged_spec().0.should_wait_spec(),
        !s.stopped_spec().should_wait_spec(),
        s.stopped_spec().woken_spec().1,
{
}

impl PumpState {
    /// What [`PumpState::should_wait`] returns.
    pub open spec fn should_wait_spec(self) -> bool {
        !self.pending && !self.stopping
    }

    /// What [`PumpState::woken`] returns.
    pub open spec fn woken_spec(self) -> (PumpState, bool) {
        (PumpState { pending: false, stopping: self.stopping }, self.stopping)
    }

    /// What [`PumpState::nudged`] returns.
    pub open spec fn nudged_spec(self) -> (PumpState, bool) {
        (PumpState { pending: true, stopping: self.stopping }, !self.pending)
    }

    /// What [`PumpState::stopped`] returns.
    pub open spec fn stopped_spec(self) -> PumpState {
        PumpState { pending: self.pending, stopping: true }
    }
}

/// Why this run cannot archive, or `None` when it can: a writer means it can; a
/// service with no archive behind it says so; otherwise the last initialization
/// failure, if any. A service that has not initialized and has not failed is
/// available.
pub fn unavailable_reason(writer_ready: bool, configured: bool, failure: &Option<String>) -> (r: Option<String>)
    ensures
        writer_ready ==> r is None,
        !writer_ready && !configured ==> (r matches Some(m) && m@ == UNCONFIGURED@),
        !writer_ready && configured ==> match (r, *failure) {
            (None, None) => true,
            (Some(m), Some(f)) => m@ == f@,
            _ => false,
        },
{
    if writer_ready {
        return None;
    }
    if !configured {
        let mut m = String::new();
        push_str(&mut m, UNCONFIGURED);
        return Some(m);
    }
    match failure {
        Some(f) => Some(f.clone()),
        None => None,
    }
}

/// What the toggle and the viewer show: the setting as the user left it, and whether
/// this run can archive, with why not. The two are never collapsed into one.
pub fn archive_state(enabled: bool, unavailable: Option<String>) -> (s: RunLogArchiveState)
    ensures
        s.enabled == enabled,
        s.available == unavailable is None,
        s.unavailable_reason == unavailable,
{
    match unavailable {
        Some(reason) => RunLogArchiveState { enabled, available: false, unavailable_reason: Some(reason) },
        None => RunLogArchiveState { enabled, available: true, unavailable_reason: None },
    }
}

/// Whether startup initializes the archive: the setting is on, or a directory from an
/// earlier run is there to reconcile. Nothing is created for a user who never enabled
/// it.
pub fn has_reason_to_initialize(enabled: bool, directory_listable: bool) -> (r: bool)
    ensures
        r == (enabled || directory_listable),
{
    enabled || directory_listable
}

/// What a change of the setting means to a run already in progress.
#[derive(Debug, Clone, Copy, PartialEq, Eq, Structural)]
pub enum SettingChange {
    /// Turned on: make sure a writer exists; running sessions are not backfilled.
    Initialize,
    /// Turned off: close every open archive as `user-disabled`.
    CloseOpenArchives,
    /// Off, and it was off: nothing to do.
    Nothing,
}

/// What a change of the setting means.
pub fn setting_change(enabled: bool, was_enabled: bool) -> (c: SettingChange)
    ensures
        enabled ==> c == SettingChange::Initialize,
        !enabled && was_enabled ==> c == SettingChange::CloseOpenArchives,
        !enabled && !was_enabled ==> c == SettingChange::Nothing,
{
    if enabled {
        SettingChange::Initialize
    } else if was_enabled {
        SettingChange::CloseOpenArchives
    } else {
        SettingChange::Nothing
    }
}

/// The refusal a read or a delete meets when no writer could be had: the reason this
/// run cannot archive, or that nothing has been archived yet.
pub fn no_reader(reason: Option<String>) -> (e: AppError)
    ensures
        e is Message,
        reason matches Some(r) ==> e.text() == r@,
        reason is None ==> e.text() == NOTHING_ARCHIVED@,
{
    match reason {
        Some(r) => invalid(r),
        None => {
            let mut m = String::new();
            push_str(&mut m, NOTHING_ARCHIVED);
            invalid(m)
        }
    }
}

/// The words of `items` joined by single spaces.
pub open spec fn joined(items: Seq<Seq<char>>) -> Seq<char>
    decreases items.len(),
{
    if items.len() == 0 {
        Seq::empty()
    } else if items.len() == 1 {
        items[0]
    } else {
        joined(items.drop_last()) + " "@ + items.last()
    }
}

/// What the startup sweep refused to touch, as one message for the user, or `None`
/// when it refused nothing. Repairs are not reported: they are the sweep doing its
/// job.
pub fn sweep_summary(anomalies: &Vec<String>) -> (r: Option<String>)
    ensures
        anomalies@.len() == 0 ==> r is None,
        anomalies@.len() > 0 ==> (r matches Some(m) && m@ == "Run log archive: "@ + joined(texts(anomalies@))),
{
    if anomalies.len() == 0 {
        return None;
    }
    let mut m = String::new();
    push_str(&mut m, "Run log archive: ");
    let ghost head = m@;
    let mut i: usize = 0;
    while i < anomalies.len()
        invariant
            i <= anomalies@.len(),
            anomalies@.len() > 0,
            m@ == head + joined(texts(anomalies@).subrange(0, i as int)),
            head == "Run log archive: "@,
        decreases anomalies@.len() - i,
    {
        let ghost prefix = texts(anomalies@).subrange(0, i + 1);
        proof {
            assert(prefix.drop_last() =~= texts(anomalies@).subrange(0, i as int));
            assert(prefix.last() == anomalies@[i as int]@);
        }
        if i > 0 {
            push_str(&mut m, " ");
        }
        push_str(&mut m, anomalies[i].as_str());
        proof {
            if i == 0 {
                assert(joined(prefix) == prefix[0]);
                assert(joined(texts(anomalies@).subrange(0, 0)) =~= Seq::<char>::empty());
            }
            assert(m@ =~= head + joined(prefix));
        }
        i = i + 1;
    }
    proof {
        assert(texts(anomalies@).subrange(0, i as int) =~= texts(anomalies@));
    }
    Some(m)
}

} // verus!
