//! The lifecycle state of one archive and the reasons it ends early.
use vstd::prelude::*;
use crate::text::str_eq;

verus! {

/// Lifecycle state of one archive, mirroring the `run_log_archives.status` column.
#[derive(Debug, Clone, Copy, PartialEq, Eq, Structural)]
pub enum ArchiveStatus {
    Writing,
    Complete,
    Partial,
    Removed,
}

/// The database string of each status.
pub open spec fn status_text(status: ArchiveStatus) -> Seq<char> {
    match status {
        ArchiveStatus::Writing => "writing"@,
        ArchiveStatus::Complete => "complete"@,
        ArchiveStatus::Partial => "partial"@,
        ArchiveStatus::Removed => "removed"@,
    }
}

/// The status a database string names, if this build knows it.
pub open spec fn status_named(text: Seq<char>) -> Option<ArchiveStatus> {
    if text == "writing"@ {
        Some(ArchiveStatus::Writing)
    } else if text == "complete"@ {
        Some(ArchiveStatus::Complete)
    } else if text == "partial"@ {
        Some(ArchiveStatus::Partial)
    } else if text == "removed"@ {
        Some(ArchiveStatus::Removed)
    } else {
        None
    }
}

impl ArchiveStatus {
    /// The exact string stored in the database.
    pub fn as_str(self) -> (s: &'static str)
        ensures
            s@ == status_text(self),
    {
        match self {
            ArchiveStatus::Writing => "writing",
            ArchiveStatus::Complete => "complete",
            ArchiveStatus::Partial => "partial",
            ArchiveStatus::Removed => "removed",
        }
    }

    /// `None` for a value this build does not know, which a database written by a
    /// newer build may contain.
    pub fn parse(value: &str) -> (r: Option<Self>)
        ensures
            r == status_named(value@),
    {
        if str_eq(value, "writing") {
            Some(ArchiveStatus::Writing)
        } else if str_eq(value, "complete") {
            Some(ArchiveStatus::Complete)
        } else if str_eq(value, "partial") {
            Some(ArchiveStatus::Partial)
        } else if str_eq(value, "removed") {
            Some(ArchiveStatus::Removed)
        } else {
            None
        }
    }
}

/// Why an archive is `partial` or `removed`. A `writing` or `complete` archive has
/// no reason.
#[derive(Debug, Clone, Copy, PartialEq, Eq, Structural)]
pub enum ArchiveReason {
    WriteError,
    QuotaExceeded,
    QueueOverflow,
    Interrupted,
    UserDisabled,
    QuotaEvicted,
    UserDeleted,
    FileMissing,
}

/// The database string of each reason.
pub open spec fn reason_text(reason: ArchiveReason) -> Seq<char> {
    match reason {
        ArchiveReason::WriteError => "write-error"@,
        ArchiveReason::QuotaExceeded => "quota-exceeded"@,
        ArchiveReason::QueueOverflow => "queue-overflow"@,
        ArchiveReason::Interrupted => "interrupted"@,
        ArchiveReason::UserDisabled => "user-disabled"@,
        ArchiveReason::QuotaEvicted => "quota-evicted"@,
        ArchiveReason::UserDeleted => "user-deleted"@,
        ArchiveReason::FileMissing => "file-missing"@,
    }
}

/// The reason a database string names, if this build knows it.
pub open spec fn reason_named(text: Seq<char>) -> Option<ArchiveReason> {
    if text == "write-error"@ {
        Some(ArchiveReason::WriteError)
    } else if text == "quota-exceeded"@ {
        Some(ArchiveReason::QuotaExceeded)
    } else if text == "queue-overflow"@ {
        Some(ArchiveReason::QueueOverflow)
    } else if text == "interrupted"@ {
        Some(ArchiveReason::Interrupted)
    } else if text == "user-disabled"@ {
        Some(ArchiveReason::UserDisabled)
    } else if text == "quota-evicted"@ {
        Some(ArchiveReason::QuotaEvicted)
    } else if text == "user-deleted"@ {
        Some(ArchiveReason::UserDeleted)
    } else if text == "file-missing"@ {
        Some(ArchiveReason::FileMissing)
    } else {
        None
    }
}

/// The documented severity order, most severe first: what happened to the archive
/// outranks what RunCove or the user chose to do with it.
pub open spec fn severity_rank(reason: ArchiveReason) -> int {
    match reason {
        ArchiveReason::WriteError => 8,
        ArchiveReason::QuotaExceeded => 7,
        ArchiveReason::QueueOverflow => 6,
        ArchiveReason::Interrupted => 5,
        ArchiveReason::FileMissing => 4,
        ArchiveReason::QuotaEvicted => 3,
        ArchiveReason::UserDeleted => 2,
        ArchiveReason::UserDisabled => 1,
    }
}

/// The more severe of two reasons.
pub open spec fn more_severe(first: ArchiveReason, second: ArchiveReason) -> ArchiveReason {
    if severity_rank(second) > severity_rank(first) {
        second
    } else {
        first
    }
}

impl ArchiveReason {
    /// The exact string stored in the database.
    pub fn as_str(self) -> (s: &'static str)
        ensures
            s@ == reason_text(self),
    {
        match self {
            ArchiveReason::WriteError => "write-error",
            ArchiveReason::QuotaExceeded => "quota-exceeded",
            ArchiveReason::QueueOverflow => "queue-overflow",
            ArchiveReason::Interrupted => "interrupted",
            ArchiveReason::UserDisabled => "user-disabled",
            ArchiveReason::QuotaEvicted => "quota-evicted",
            ArchiveReason::UserDeleted => "user-deleted",
            ArchiveReason::FileMissing => "file-missing",
        }
    }

    /// `None` for a value this build does not know.
    pub fn parse(value: &str) -> (r: Option<Self>)
        ensures
            r == reason_named(value@),
    {
        if str_eq(value, "write-error") {
            Some(ArchiveReason::WriteError)
        } else if str_eq(value, "quota-exceeded") {
            Some(ArchiveReason::QuotaExceeded)
        } else if str_eq(value, "queue-overflow") {
            Some(ArchiveReason::QueueOverflow)
        } else if str_eq(value, "interrupted") {
            Some(ArchiveReason::Interrupted)
        } else if str_eq(value, "user-disabled") {
            Some(ArchiveReason::UserDisabled)
        } else if str_eq(value, "quota-evicted") {
            Some(ArchiveReason::QuotaEvicted)
        } else if str_eq(value, "user-deleted") {
            Some(ArchiveReason::UserDeleted)
        } else if str_eq(value, "file-missing") {
            Some(ArchiveReason::FileMissing)
        } else {
            None
        }
    }

    /// The reason a session keeps when several apply before it closes. A write
    /// error outranks a quota stop, which outranks a queue overflow.
    pub fn most_severe(first: Self, second: Self) -> (r: Self)
        ensures
            r == more_severe(first, second),
    {
        if second.severity() > first.severity() {
            second
        } else {
            first
        }
    }

    /// Rank used only by [`ArchiveReason::most_severe`].
    fn severity(self) -> (rank: u8)
        ensures
            rank as int == severity_rank(self),
    {
        match self {
            ArchiveReason::WriteError => 8,
            ArchiveReason::QuotaExceeded => 7,
            ArchiveReason::QueueOverflow => 6,
            ArchiveReason::Interrupted => 5,
            ArchiveReason::FileMissing => 4,
            ArchiveReason::QuotaEvicted => 3,
            ArchiveReason::UserDeleted => 2,
            ArchiveReason::UserDisabled => 1,
        }
    }
}

/// Every status reads back as itself from the string it is stored as, and no two
/// statuses share a string.
pub proof fn status_round_trips(status: ArchiveStatus)
    ensures
        status_named(status_text(status)) == Some(status),
{
    reveal_strlit("writing");
    reveal_strlit("complete");
    reveal_strlit("partial");
    reveal_strlit("removed");
    assert("writing"@[0] != "complete"@[0]);
    assert("writing"@[0] != "partial"@[0]);
    assert("writing"@[0] != "removed"@[0]);
    assert("complete"@[0] != "partial"@[0]);
    assert("complete"@[0] != "removed"@[0]);
    assert("partial"@[0] != "removed"@[0]);
}

/// Every reason reads back as itself from the string it is stored as, and no two
/// reasons share a string.
pub proof fn reason_round_trips(reason: ArchiveReason)
    ensures
        reason_named(reason_text(reason)) == Some(reason),
{
    reveal_strlit("write-error");
    reveal_strlit("quota-exceeded");
    reveal_strlit("queue-overflow");
    reveal_strlit("interrupted");
    reveal_strlit("user-disabled");
    reveal_strlit("quota-evicted");
    reveal_strlit("user-deleted");
    reveal_strlit("file-missing");
    // Told apart by their first letter, their length, or their sixth letter.
    assert("write-error"@.len() != "quota-exceeded"@.len());
    assert("write-error"@[0] != "queue-overflow"@[0]);
    assert("write-error"@[0] != "interrupted"@[0]);
    assert("write-error"@[0] != "user-disabled"@[0]);
    assert("write-error"@[0] != "quota-evicted"@[0]);
    assert("write-error"@[0] != "user-deleted"@[0]);
    assert("write-error"@[0] != "file-missing"@[0]);
    assert("quota-exceeded"@[2] != "queue-overflow"@[2]);
    assert("quota-exceeded"@[0] != "interrupted"@[0]);
    assert("quota-exceeded"@[0] != "user-disabled"@[0]);
    assert("quota-exceeded"@[6] != "quota-evicted"@[6] || "quota-exceeded"@[7] != "quota-evicted"@[7]);
    assert("quota-exceeded"@[0] != "user-deleted"@[0]);
    assert("quota-exceeded"@[0] != "file-missing"@[0]);
    assert("queue-overflow"@[0] != "interrupted"@[0]);
    assert("queue-overflow"@[0] != "user-disabled"@[0]);
    assert("queue-overflow"@[2] != "quota-evicted"@[2]);
    assert("queue-overflow"@[0] != "user-deleted"@[0]);
    assert("queue-overflow"@[0] != "file-missing"@[0]);
    assert("interrupted"@[0] != "user-disabled"@[0]);
    assert("interrupted"@[0] != "quota-evicted"@[0]);
    assert("interrupted"@[0] != "user-deleted"@[0]);
    assert("interrupted"@[0] != "file-missing"@[0]);
    assert("user-disabled"@[0] != "quota-evicted"@[0]);
    assert("user-disabled"@[6] != "user-deleted"@[6] || "user-disabled"@[7] != "user-deleted"@[7]);
    assert("user-disabled"@[0] != "file-missing"@[0]);
    assert("quota-evicted"@[0] != "user-deleted"@[0]);
    assert("quota-evicted"@[0] != "file-missing"@[0]);
    assert("user-deleted"@[0] != "file-missing"@[0]);
}

/// Choosing the more severe reason is a total order: it picks one of its two
/// arguments, does not depend on which came first, is idempotent and associative,
/// and picks whichever sits earlier in the documented order.
pub proof fn most_severe_is_a_total_order(a: ArchiveReason, b: ArchiveReason, c: ArchiveReason)
    ensures
        more_severe(a, b) == a || more_severe(a, b) == b,
        more_severe(a, b) == more_severe(b, a),
        more_severe(a, a) == a,
        more_severe(more_severe(a, b), c) == more_severe(a, more_severe(b, c)),
        severity_rank(more_severe(a, b)) >= severity_rank(a),
        severity_rank(more_severe(a, b)) >= severity_rank(b),
        severity_rank(a) == severity_rank(b) ==> a == b,
{
}

} // verus!
