//! What travels through the archive: records, the losses counted against a
//! session, and the counters an index row carries.
use vstd::prelude::*;
use vstd::utf8::encode_utf8;

verus! {

/// Which stream a captured line came from. `System` lines are the ones RunCove
/// writes itself, such as the marker that stands in for dropped lines.
#[derive(Debug, Clone, Copy, PartialEq, Eq, Structural)]
pub enum LogStream {
    Stdout,
    Stderr,
    System,
}

/// How a stream is named in an archive record.
pub open spec fn stream_text(stream: LogStream) -> Seq<char> {
    match stream {
        LogStream::Stdout => "stdout"@,
        LogStream::Stderr => "stderr"@,
        LogStream::System => "system"@,
    }
}

impl LogStream {
    /// The name a record carries for this stream.
    pub fn as_str(self) -> (s: &'static str)
        ensures
            s@ == stream_text(self),
    {
        match self {
            LogStream::Stdout => "stdout",
            LogStream::Stderr => "stderr",
            LogStream::System => "system",
        }
    }
}

/// One line on its way to disk: the already-decoded text a session printed.
#[derive(Debug)]
pub struct ArchiveRecord {
    pub session_id: String,
    pub stream: LogStream,
    pub line: String,
    pub timestamp: i64,
}

/// Bytes of archived text a string holds: its UTF-8 length, never its character
/// count.
pub open spec fn text_bytes(text: Seq<char>) -> usize {
    encode_utf8(text).len() as usize
}

/// `line.len()`, the UTF-8 length of a line.
pub fn line_bytes(line: &String) -> (n: usize)
    ensures
        n == text_bytes(line@),
{
    line.as_str().len()
}

impl ArchiveRecord {
    /// A record with these fields.
    pub fn new(session_id: String, stream: LogStream, line: String, timestamp: i64) -> (r: Self)
        ensures
            r.session_id == session_id,
            r.stream == stream,
            r.line == line,
            r.timestamp == timestamp,
    {
        ArchiveRecord { session_id, stream, line, timestamp }
    }
}

/// `x` clamped into the range of an `i64`, which is what a saturating sum gives.
pub open spec fn saturate(x: int) -> i64 {
    if x > i64::MAX {
        i64::MAX
    } else if x < i64::MIN {
        i64::MIN
    } else {
        x as i64
    }
}

/// `a + b`, saturating at the bounds of an `i64`.
pub fn saturating_add_i64(a: i64, b: i64) -> (r: i64)
    ensures
        r == saturate(a + b),
{
    match a.checked_add(b) {
        Some(sum) => sum,
        None => if b > 0 { i64::MAX } else { i64::MIN },
    }
}

/// Lines and bytes of archived text a session lost, whatever the cause.
#[derive(Debug, Clone, Copy, PartialEq, Eq, Structural)]
pub struct DropCounters {
    pub lines: i64,
    pub bytes: i64,
}

/// Nothing lost.
pub open spec fn no_loss() -> DropCounters {
    DropCounters { lines: 0, bytes: 0 }
}

/// One more lost line carrying `bytes` of archived text, saturating.
pub open spec fn with_loss(counters: DropCounters, bytes: usize) -> DropCounters {
    DropCounters {
        lines: saturate(counters.lines + 1),
        bytes: saturate(counters.bytes + if bytes > i64::MAX { i64::MAX as int } else { bytes as int }),
    }
}

/// Two runs of losses taken together, saturating.
pub open spec fn combined(counters: DropCounters, other: DropCounters) -> DropCounters {
    DropCounters {
        lines: saturate(counters.lines + other.lines),
        bytes: saturate(counters.bytes + other.bytes),
    }
}

/// A run of losses as the gap a record carries: `None` when nothing was lost, since
/// an empty gap is not a gap.
pub open spec fn gap_of(counters: DropCounters) -> Option<DropCounters> {
    if counters == no_loss() {
        None
    } else {
        Some(counters)
    }
}

impl Default for DropCounters {
    fn default() -> (c: Self)
        ensures
            c == no_loss(),
    {
        DropCounters { lines: 0, bytes: 0 }
    }
}

impl DropCounters {
    /// Nothing lost.
    pub fn zero() -> (c: Self)
        ensures
            c == no_loss(),
    {
        DropCounters { lines: 0, bytes: 0 }
    }

    /// One more lost line, carrying `bytes` of archived text.
    ///
    /// Saturating: a counter that wrapped would be worse than one that stopped,
    /// because the row's `CHECK` refuses a negative one.
    pub fn record_loss(&mut self, bytes: usize)
        ensures
            *final(self) == with_loss(*old(self), bytes),
    {
        let counted: i64 = if bytes as u64 > 9223372036854775807u64 { i64::MAX } else { bytes as i64 };
        self.lines = saturating_add_i64(self.lines, 1);
        self.bytes = saturating_add_i64(self.bytes, counted);
    }

    /// Take another run of losses back into this one, saturating.
    pub fn absorb(&mut self, other: Self)
        ensures
            *final(self) == combined(*old(self), other),
    {
        self.lines = saturating_add_i64(self.lines, other.lines);
        self.bytes = saturating_add_i64(self.bytes, other.bytes);
    }

    /// Whether nothing was lost.
    pub fn is_zero(&self) -> (r: bool)
        ensures
            r == (*self == no_loss()),
    {
        self.lines == 0 && self.bytes == 0
    }
}

/// One record on its way out of the queue, with whatever its session lost
/// immediately before it.
#[derive(Debug)]
pub struct QueuedRecord {
    pub record: ArchiveRecord,
    /// What this session lost since its last accepted record; `None` when nothing
    /// was.
    pub gap_before: Option<DropCounters>,
}

/// Everything the queue still owed a session when it ended, handed over once.
#[derive(Debug, Clone, Copy, PartialEq, Eq, Structural)]
pub struct FinishedSession {
    /// The trailing run of losses no accepted record carried.
    pub residual_gap: Option<DropCounters>,
    /// Everything this session ever lost.
    pub dropped: DropCounters,
}

impl Default for FinishedSession {
    fn default() -> (f: Self)
        ensures
            f == (FinishedSession { residual_gap: None, dropped: no_loss() }),
    {
        FinishedSession { residual_gap: None, dropped: DropCounters::zero() }
    }
}

/// The four counters one index row carries.
#[derive(Debug, Clone, Copy, PartialEq, Eq, Structural)]
pub struct ArchiveCounters {
    pub line_count: i64,
    pub byte_size: i64,
    pub dropped_lines: i64,
    pub dropped_bytes: i64,
}

impl Default for ArchiveCounters {
    fn default() -> (c: Self)
        ensures
            c == (ArchiveCounters { line_count: 0, byte_size: 0, dropped_lines: 0, dropped_bytes: 0 }),
    {
        ArchiveCounters { line_count: 0, byte_size: 0, dropped_lines: 0, dropped_bytes: 0 }
    }
}

} // verus!

verus! {

/// One `run_log_archives` row as the writer reads it back.
///
/// `status` and `reason` are strings: a database written by a newer build may carry
/// values this build does not know, and such a row is reported rather than misread.
#[derive(Debug)]
pub struct ArchiveRow {
    pub session_id: String,
    pub file_name: String,
    pub status: String,
    pub reason: Option<String>,
    pub counters: ArchiveCounters,
    pub started_at: i64,
    pub ended_at: Option<i64>,
}

} // verus!
