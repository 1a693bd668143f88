//! The startup sweep's decisions: which directory entries and index rows are this
//! build's, what each row needs, which files are orphans, and how many bytes the
//! quota starts from. The caller lists the directory, reads the rows, and carries
//! out what is decided here.
use vstd::prelude::*;
use crate::archive::names::{
    debug_quoted, debug_rendering, is_archive_file_name, is_archive_name, row_label, row_label_text,
    stem_of, verified_file_name, is_session_id, archive_suffix, archive_file_stem,
};
use crate::archive::order::text_less;
use crate::archive::sorted::{lookup, put, put_all, NameMap};
use crate::archive::record::{ArchiveCounters, ArchiveRow};
use crate::archive::status::{status_named, ArchiveStatus};
use crate::text::{chars_of, contains_text, push_str, str_eq, texts};

verus! {

/// What one directory entry is, decided without following links.
#[derive(Debug, Clone, Copy, PartialEq, Eq, Structural)]
pub enum EntryKind {
    File,
    Directory,
    /// A symbolic link, a junction, or anything else Windows marks as a reparse point.
    ReparsePoint,
}

/// One entry of the archive directory.
#[derive(Debug, PartialEq, Eq)]
pub struct DirEntryInfo {
    pub name: String,
    pub kind: EntryKind,
    pub len: u64,
}

/// One entry whose metadata could not be read. The name still arrives, so the sweep
/// can say which entry it is reporting.
#[derive(Debug, PartialEq, Eq)]
pub struct UnreadableEntry {
    pub name: String,
    /// Why the read failed. Never a path.
    pub reason: String,
}

/// What one listed entry is, or why this build could not tell.
pub type ListedEntry = Result<DirEntryInfo, UnreadableEntry>;

/// How many bytes the archive directory holds, or the fact that this build could not
/// work it out. `Unavailable` means "no room": the archive stops instead of growing a
/// directory it cannot measure.
#[derive(Debug, Clone, Copy, PartialEq, Eq, Structural)]
pub enum QuotaTotal {
    Known(u64),
    Unavailable,
}

impl Default for QuotaTotal {
    /// A report that has measured nothing has measured zero bytes.
    fn default() -> (t: Self)
        ensures
            t == QuotaTotal::Known(0),
    {
        QuotaTotal::Known(0)
    }
}

/// What one startup sweep changed.
#[derive(Debug, PartialEq, Eq)]
pub struct SweepReport {
    /// Sessions whose `writing` row became `partial` / `interrupted`.
    pub repaired_writing: Vec<String>,
    /// Sessions whose row became `removed` / `file-missing`.
    pub marked_file_missing: Vec<String>,
    /// Eligible files with no row, deleted.
    pub deleted_orphan_files: Vec<String>,
    /// Bytes the quota counter starts from.
    pub measured_bytes: QuotaTotal,
    /// Everything the sweep refused to touch, reported once and left alone.
    pub anomalies: Vec<String>,
}

impl SweepReport {
    /// A report of nothing yet.
    pub fn new() -> (r: Self)
        ensures
            r.repaired_writing@.len() == 0,
            r.marked_file_missing@.len() == 0,
            r.deleted_orphan_files@.len() == 0,
            r.measured_bytes == QuotaTotal::Known(0),
            r.anomalies@.len() == 0,
    {
        SweepReport {
            repaired_writing: Vec::new(),
            marked_file_missing: Vec::new(),
            deleted_orphan_files: Vec::new(),
            measured_bytes: QuotaTotal::Known(0),
            anomalies: Vec::new(),
        }
    }
}

/// One entry of the archive directory that this build could have written.
#[derive(Debug, Clone, Copy, PartialEq, Eq, Structural)]
pub enum SweptEntry {
    /// An ordinary file, with its own length in bytes.
    File(u64),
    /// An archive name taken by a directory or a reparse point: never read, measured
    /// or deleted.
    NotOurFile,
    /// An entry the filesystem refused to describe.
    Unmeasurable,
}

/// How one listed entry is classified: under its name, when the name is one this
/// build generates, and with the anomaly it is reported as, if any.
pub open spec fn classify_listed(listed: ListedEntry) -> (Option<(Seq<char>, SweptEntry)>, Option<Seq<char>>) {
    match listed {
        Ok(info) => if is_archive_name(info.name@) {
            match info.kind {
                EntryKind::File => (Some((info.name@, SweptEntry::File(info.len))), None),
                EntryKind::Directory => (
                    Some((info.name@, SweptEntry::NotOurFile)),
                    Some("Archive entry "@ + info.name@ + " is a directory, not a file this build wrote"@),
                ),
                EntryKind::ReparsePoint => (
                    Some((info.name@, SweptEntry::NotOurFile)),
                    Some("Archive entry "@ + info.name@
                        + " is a reparse point, which RunCove reports instead of reading, measuring, or deleting"@),
                ),
            }
        } else {
            (None, Some("Archive directory entry "@ + info.name@
                + " is not a name RunCove generates, so RunCove left it alone"@))
        },
        Err(unreadable) => if is_archive_name(unreadable.name@) {
            (
                Some((unreadable.name@, SweptEntry::Unmeasurable)),
                Some("Archive entry "@ + unreadable.name@ + " could not be measured: "@ + unreadable.reason@),
            )
        } else {
            (None, Some("Archive directory entry "@ + unreadable.name@
                + " is not a name RunCove generates and could not be measured: "@ + unreadable.reason@))
        },
    }
}

/// The classified entries of a listing, in listing order.
pub open spec fn classified(listed: Seq<ListedEntry>) -> Seq<(Seq<char>, SweptEntry)>
    decreases listed.len(),
{
    if listed.len() == 0 {
        Seq::empty()
    } else {
        let before = classified(listed.drop_last());
        match classify_listed(listed.last()).0 {
            Some(entry) => before.push(entry),
            None => before,
        }
    }
}

/// The anomalies a listing is reported with, in listing order.
pub open spec fn listing_anomalies(listed: Seq<ListedEntry>) -> Seq<Seq<char>>
    decreases listed.len(),
{
    if listed.len() == 0 {
        Seq::empty()
    } else {
        let before = listing_anomalies(listed.drop_last());
        match classify_listed(listed.last()).1 {
            Some(anomaly) => before.push(anomaly),
            None => before,
        }
    }
}

/// Classify every immediate child of the archive directory, by name first. A name
/// this build could not have generated is reported and dropped, readable or not.
pub fn classify_entries(listed: &Vec<ListedEntry>, anomalies: &mut Vec<String>) -> (entries: NameMap<SweptEntry>)
    ensures
        entries.wf(),
        entries@ == put_all(classified(listed@)),
        texts(final(anomalies)@) == texts(old(anomalies)@) + listing_anomalies(listed@),
{
    let mut entries: NameMap<SweptEntry> = NameMap::new();
    let mut i: usize = 0;
    while i < listed.len()
        invariant
            i <= listed@.len(),
            entries.wf(),
            entries@ == put_all(classified(listed@.subrange(0, i as int))),
            texts(anomalies@) == texts(old(anomalies)@) + listing_anomalies(listed@.subrange(0, i as int)),
        decreases listed@.len() - i,
    {
        let ghost before_anomalies = texts(anomalies@);
        proof {
            assert(listed@.subrange(0, i + 1).drop_last() =~= listed@.subrange(0, i as int));
            assert(listed@.subrange(0, i + 1).last() == listed@[i as int]);
        }
        match &listed[i] {
            Ok(info) => {
                if is_archive_file_name(info.name.as_str()) {
                    match info.kind {
                        EntryKind::File => {
                            entries.insert(info.name.clone(), SweptEntry::File(info.len));
                        }
                        EntryKind::Directory => {
                            let mut message = String::new();
                            push_str(&mut message, "Archive entry ");
                            push_str(&mut message, info.name.as_str());
                            push_str(&mut message, " is a directory, not a file this build wrote");
                            anomalies.push(message);
                            proof { assert(texts(anomalies@) =~= before_anomalies.push(anomalies@.last()@)); }
                            entries.insert(info.name.clone(), SweptEntry::NotOurFile);
                        }
                        EntryKind::ReparsePoint => {
                            let mut message = String::new();
                            push_str(&mut message, "Archive entry ");
                            push_str(&mut message, info.name.as_str());
                            push_str(
                                &mut message,
                                " is a reparse point, which RunCove reports instead of reading, measuring, or deleting",
                            );
                            anomalies.push(message);
                            proof { assert(texts(anomalies@) =~= before_anomalies.push(anomalies@.last()@)); }
                            entries.insert(info.name.clone(), SweptEntry::NotOurFile);
                        }
                    }
                } else {
                    let mut message = String::new();
                    push_str(&mut message, "Archive directory entry ");
                    push_str(&mut message, info.name.as_str());
                    push_str(&mut message, " is not a name RunCove generates, so RunCove left it alone");
                    anomalies.push(message);
                    proof { assert(texts(anomalies@) =~= before_anomalies.push(anomalies@.last()@)); }
                }
            }
            Err(unreadable) => {
                if is_archive_file_name(unreadable.name.as_str()) {
                    let mut message = String::new();
                    push_str(&mut message, "Archive entry ");
                    push_str(&mut message, unreadable.name.as_str());
                    push_str(&mut message, " could not be measured: ");
                    push_str(&mut message, unreadable.reason.as_str());
                    anomalies.push(message);
                    proof { assert(texts(anomalies@) =~= before_anomalies.push(anomalies@.last()@)); }
                    entries.insert(unreadable.name.clone(), SweptEntry::Unmeasurable);
                } else {
                    let mut message = String::new();
                    push_str(&mut message, "Archive directory entry ");
                    push_str(&mut message, unreadable.name.as_str());
                    push_str(&mut message, " is not a name RunCove generates and could not be measured: ");
                    push_str(&mut message, unreadable.reason.as_str());
                    anomalies.push(message);
                    proof { assert(texts(anomalies@) =~= before_anomalies.push(anomalies@.last()@)); }
                }
            }
        }
        proof {
            match classify_listed(listed@[i as int]).0 {
                Some(item) => {
                    assert(classified(listed@.subrange(0, i + 1)).drop_last() =~= classified(listed@.subrange(0, i as int)));
                }
                None => {}
            }
            assert(listing_anomalies(listed@.subrange(0, i + 1)) == match classify_listed(listed@[i as int]).1 {
                Some(a) => listing_anomalies(listed@.subrange(0, i as int)).push(a),
                None => listing_anomalies(listed@.subrange(0, i as int)),
            });
            assert(texts(anomalies@) =~= texts(old(anomalies)@) + listing_anomalies(listed@.subrange(0, i + 1)));
        }
        i = i + 1;
    }
    proof {
        assert(listed@.subrange(0, i as int) =~= listed@);
    }
    entries
}

/// Whether a row names exactly the file its own session generates, the one kind of
/// row the sweep acts on.
pub open spec fn owns_its_file(row: ArchiveRow) -> bool {
    is_session_id(row.session_id@) && row.file_name@ == row.session_id@ + archive_suffix()
}

/// The rows the sweep acts on, as (file name, position in `rows`), in row order.
pub open spec fn owned_items(rows: Seq<ArchiveRow>) -> Seq<(Seq<char>, usize)>
    decreases rows.len(),
{
    if rows.len() == 0 {
        Seq::empty()
    } else {
        let before = owned_items(rows.drop_last());
        if owns_its_file(rows.last()) {
            before.push((rows.last().file_name@, (rows.len() - 1) as usize))
        } else {
            before
        }
    }
}

/// The report for a row the sweep will not act on.
pub open spec fn unowned_row_message(session_id: Seq<char>) -> Seq<char> {
    "The archive row for "@ + row_label_text(session_id)
        + " does not name that session's own file, so RunCove left it alone"@
}

/// The reports the rows the sweep will not act on get, in row order.
pub open spec fn ownership_anomalies(rows: Seq<ArchiveRow>) -> Seq<Seq<char>>
    decreases rows.len(),
{
    if rows.len() == 0 {
        Seq::empty()
    } else {
        let before = ownership_anomalies(rows.drop_last());
        if owns_its_file(rows.last()) {
            before
        } else {
            before.push(unowned_row_message(rows.last().session_id@))
        }
    }
}

/// Every value of a map built from `items` is a value some item carried.
proof fn lemma_put_all_values(items: Seq<(Seq<char>, usize)>, bound: usize)
    requires
        forall|i: int| 0 <= i < items.len() ==> (#[trigger] items[i]).1 < bound,
    ensures
        forall|j: int| 0 <= j < put_all(items).len() ==> (#[trigger] put_all(items)[j]).1 < bound,
    decreases items.len(),
{
    if items.len() > 0 {
        let rest = items.drop_last();
        assert forall|i: int| 0 <= i < rest.len() implies (#[trigger] rest[i]).1 < bound by {
            assert(rest[i] == items[i]);
        }
        lemma_put_all_values(rest, bound);
        lemma_put_values(put_all(rest), items.last().0, items.last().1, bound);
    }
}

proof fn lemma_put_values(s: Seq<(Seq<char>, usize)>, name: Seq<char>, value: usize, bound: usize)
    requires
        value < bound,
        forall|i: int| 0 <= i < s.len() ==> (#[trigger] s[i]).1 < bound,
    ensures
        forall|j: int| 0 <= j < put(s, name, value).len() ==> (#[trigger] put(s, name, value)[j]).1 < bound,
    decreases s.len(),
{
    if s.len() > 0 && s[0].0 != name && !text_less(name, s[0].0) {
        let rest = s.drop_first();
        assert forall|i: int| 0 <= i < rest.len() implies (#[trigger] rest[i]).1 < bound by {
            assert(rest[i] == s[i + 1]);
        }
        lemma_put_values(rest, name, value, bound);
        let t = put(s, name, value);
        assert forall|j: int| 0 <= j < t.len() implies (#[trigger] t[j]).1 < bound by {
            if j > 0 {
                assert(t[j] == put(rest, name, value)[j - 1]);
            }
        }
    } else if s.len() > 0 {
        let t = put(s, name, value);
        assert forall|j: int| 0 <= j < t.len() implies (#[trigger] t[j]).1 < bound by {
            if s[0].0 == name {
                if j > 0 {
                    assert(t[j] == s[j]);
                }
            } else if j > 0 {
                assert(t[j] == s[j - 1]);
            }
        }
    }
}

/// The rows the sweep is willing to act on, keyed by the file name each one owns,
/// as positions in `rows`. A row that does not name exactly its own session's file
/// is reported and left as it is; a later row of the same name replaces an earlier.
pub fn owned_rows(rows: &Vec<ArchiveRow>, anomalies: &mut Vec<String>) -> (owned: NameMap<usize>)
    ensures
        owned.wf(),
        owned@ == put_all(owned_items(rows@)),
        forall|j: int| 0 <= j < owned@.len() ==> (#[trigger] owned@[j]).1 < rows@.len(),
        texts(final(anomalies)@) == texts(old(anomalies)@) + ownership_anomalies(rows@),
{
    let mut owned: NameMap<usize> = NameMap::new();
    let mut i: usize = 0;
    while i < rows.len()
        invariant
            i <= rows@.len(),
            owned.wf(),
            owned@ == put_all(owned_items(rows@.subrange(0, i as int))),
            texts(anomalies@) == texts(old(anomalies)@) + ownership_anomalies(rows@.subrange(0, i as int)),
        decreases rows@.len() - i,
    {
        let ghost before_anomalies = texts(anomalies@);
        let ghost prefix = rows@.subrange(0, i + 1);
        proof {
            assert(prefix.drop_last() =~= rows@.subrange(0, i as int));
            assert(prefix.last() == rows@[i as int]);
        }
        let row = &rows[i];
        match verified_file_name(row.session_id.as_str(), row) {
            Ok(file_name) => {
                owned.insert(file_name, i);
                proof {
                    assert(owned_items(prefix).drop_last() =~= owned_items(rows@.subrange(0, i as int)));
                }
            }
            Err(_) => {
                let label = row_label(row);
                let mut message = String::new();
                push_str(&mut message, "The archive row for ");
                push_str(&mut message, label.as_str());
                push_str(&mut message, " does not name that session's own file, so RunCove left it alone");
                anomalies.push(message);
                proof {
                    assert(texts(anomalies@) =~= before_anomalies.push(anomalies@.last()@));
                }
            }
        }
        i = i + 1;
    }
    proof {
        assert(rows@.subrange(0, i as int) =~= rows@);
        lemma_owned_items_in_range(rows@);
        lemma_put_all_values(owned_items(rows@), rows.len());
    }
    owned
}

proof fn lemma_owned_items_in_range(rows: Seq<ArchiveRow>)
    ensures
        forall|i: int| 0 <= i < owned_items(rows).len() ==> (#[trigger] owned_items(rows)[i]).1 < rows.len(),
    decreases rows.len(),
{
    if rows.len() > 0 {
        let r = rows.drop_last();
        lemma_owned_items_in_range(r);
        let o = owned_items(rows);
        assert forall|i: int| 0 <= i < o.len() implies (#[trigger] o[i]).1 < rows.len() by {
            if i < owned_items(r).len() {
                assert(o[i] == owned_items(r)[i]);
            }
        }
    }
}

/// How a row the last run left `writing` is closed.
#[derive(Debug, Clone, Copy, PartialEq, Eq, Structural)]
pub enum RowAction {
    /// The row's status is one this build does not know: reported, left alone.
    LeaveUnknownStatus,
    /// Close the row `partial` / `interrupted` with these counters. Where `recount`
    /// is set, the file's lines are counted first and replace `line_count`; when
    /// that count cannot be had, the counters stand as they are.
    Repair { counters: ArchiveCounters, recount: bool },
    /// The row's file is gone: mark it `removed` / `file-missing`.
    MarkFileMissing,
    /// Nothing to do.
    Keep,
    /// A `removed` row whose name holds a file: reported, left alone.
    LeaveRemovedButPresent,
}

/// The number a length in bytes is stored as: itself, or `i64::MAX` past it.
pub open spec fn stored_length(len: u64) -> i64 {
    if len <= i64::MAX as u64 { len as i64 } else { i64::MAX }
}

/// What the sweep does with an owned row, given what its name holds on disk.
pub open spec fn row_action(status: Seq<char>, counters: ArchiveCounters, entry: Option<SweptEntry>) -> RowAction {
    match status_named(status) {
        None => RowAction::LeaveUnknownStatus,
        Some(ArchiveStatus::Writing) => match entry {
            Some(SweptEntry::File(len)) => RowAction::Repair {
                counters: ArchiveCounters { byte_size: stored_length(len), ..counters },
                recount: true,
            },
            Some(SweptEntry::NotOurFile) => RowAction::Repair {
                counters: ArchiveCounters { line_count: 0, byte_size: 0, ..counters },
                recount: false,
            },
            Some(SweptEntry::Unmeasurable) => RowAction::Repair { counters, recount: false },
            None => RowAction::MarkFileMissing,
        },
        Some(ArchiveStatus::Complete) | Some(ArchiveStatus::Partial) => match entry {
            None => RowAction::MarkFileMissing,
            Some(_) => RowAction::Keep,
        },
        Some(ArchiveStatus::Removed) => match entry {
            Some(SweptEntry::File(_)) => RowAction::LeaveRemovedButPresent,
            _ => RowAction::Keep,
        },
    }
}

/// Bring one row back in line with what is on the disk. The status is parsed first,
/// so a row written by a build that knows more states is reported rather than
/// repaired by guessing; an ended row whose file is there is never re-measured.
pub fn reconcile_action(row: &ArchiveRow, entry: Option<SweptEntry>) -> (a: RowAction)
    ensures
        a == row_action(row.status@, row.counters, entry),
{
    let status = match ArchiveStatus::parse(row.status.as_str()) {
        Some(status) => status,
        None => return RowAction::LeaveUnknownStatus,
    };
    match status {
        ArchiveStatus::Writing => match entry {
            Some(SweptEntry::File(len)) => {
                let byte_size: i64 = if len <= 0x7fff_ffff_ffff_ffffu64 { len as i64 } else { i64::MAX };
                RowAction::Repair { counters: ArchiveCounters { byte_size, ..row.counters }, recount: true }
            }
            Some(SweptEntry::NotOurFile) => RowAction::Repair {
                counters: ArchiveCounters { line_count: 0, byte_size: 0, ..row.counters },
                recount: false,
            },
            Some(SweptEntry::Unmeasurable) => RowAction::Repair { counters: row.counters, recount: false },
            None => RowAction::MarkFileMissing,
        },
        ArchiveStatus::Complete | ArchiveStatus::Partial => match entry {
            None => RowAction::MarkFileMissing,
            Some(_) => RowAction::Keep,
        },
        ArchiveStatus::Removed => match entry {
            Some(SweptEntry::File(_)) => RowAction::LeaveRemovedButPresent,
            _ => RowAction::Keep,
        },
    }
}

/// The report for a row whose status this build does not know.
pub fn unknown_status_message(row: &ArchiveRow) -> (m: String)
    ensures
        m@ == "The archive row for "@ + row_label_text(row.session_id@) + " carries status "@
            + debug_rendering(row.status@) + ", which this build does not know, so RunCove left it alone"@,
{
    let label = row_label(row);
    let quoted = debug_quoted(row.status.as_str());
    let mut m = String::new();
    push_str(&mut m, "The archive row for ");
    push_str(&mut m, label.as_str());
    push_str(&mut m, " carries status ");
    push_str(&mut m, quoted.as_str());
    push_str(&mut m, ", which this build does not know, so RunCove left it alone");
    m
}

/// The report for a `removed` row whose name still holds a file.
pub fn removed_but_present_message(row: &ArchiveRow) -> (m: String)
    ensures
        m@ == "The archive of "@ + row_label_text(row.session_id@)
            + " is recorded as removed and a file is still at its name, so RunCove left it alone"@,
{
    let label = row_label(row);
    let mut m = String::new();
    push_str(&mut m, "The archive of ");
    push_str(&mut m, label.as_str());
    push_str(&mut m, " is recorded as removed and a file is still at its name, so RunCove left it alone");
    m
}

/// The report for a row's file that could not be read for its recount.
pub fn unreadable_recount_message(row: &ArchiveRow, error: &str) -> (m: String)
    ensures
        m@ == "The archive of "@ + row_label_text(row.session_id@)
            + " could not be read, so its recorded line count is kept: "@ + error@,
{
    let label = row_label(row);
    let mut m = String::new();
    push_str(&mut m, "The archive of ");
    push_str(&mut m, label.as_str());
    push_str(&mut m, " could not be read, so its recorded line count is kept: ");
    push_str(&mut m, error);
    m
}

/// The report for a row the index refused to close.
pub fn unrepaired_message(row: &ArchiveRow, error: &str) -> (m: String)
    ensures
        m@ == "The archive row for "@ + row_label_text(row.session_id@)
            + " could not be repaired and stays open for the next sweep: "@ + error@,
{
    let label = row_label(row);
    let mut m = String::new();
    push_str(&mut m, "The archive row for ");
    push_str(&mut m, label.as_str());
    push_str(&mut m, " could not be repaired and stays open for the next sweep: ");
    push_str(&mut m, error);
    m
}

/// The report for a row the index refused to mark as having lost its file.
pub fn unmarked_message(row: &ArchiveRow, error: &str) -> (m: String)
    ensures
        m@ == "The archive row for "@ + row_label_text(row.session_id@)
            + " could not be marked as having lost its file: "@ + error@,
{
    let label = row_label(row);
    let mut m = String::new();
    push_str(&mut m, "The archive row for ");
    push_str(&mut m, label.as_str());
    push_str(&mut m, " could not be marked as having lost its file: ");
    push_str(&mut m, error);
    m
}

/// The report for an orphan file the filesystem refused to delete.
pub fn undeleted_orphan_message(file_name: &str, error: &str) -> (m: String)
    ensures
        m@ == "Archive file "@ + file_name@
            + " has no row and could not be deleted, so its bytes still count towards the quota: "@ + error@,
{
    let mut m = String::new();
    push_str(&mut m, "Archive file ");
    push_str(&mut m, file_name);
    push_str(&mut m, " has no row and could not be deleted, so its bytes still count towards the quota: ");
    push_str(&mut m, error);
    m
}

/// How many `'\n'` a text holds.
pub open spec fn newline_count(text: Seq<char>) -> nat
    decreases text.len(),
{
    if text.len() == 0 {
        0
    } else {
        newline_count(text.drop_last()) + if text.last() == '\n' { 1nat } else { 0nat }
    }
}

/// How many lines `str::lines` yields for a text: one per line feed, plus an
/// unterminated last line when the text does not end in one.
pub open spec fn lines_in(text: Seq<char>) -> nat {
    newline_count(text) + if text.len() > 0 && text.last() != '\n' { 1nat } else { 0nat }
}

/// How many lines an archive's text holds, as the row stores it.
pub fn line_count(text: &str) -> (n: i64)
    ensures
        n == if lines_in(text@) <= i64::MAX { lines_in(text@) as i64 } else { i64::MAX },
{
    let chars = chars_of(text);
    let mut count: usize = 0;
    let mut i: usize = 0;
    while i < chars.len()
        invariant
            chars@ == text@,
            i <= chars@.len(),
            count == newline_count(chars@.subrange(0, i as int)),
            count <= i,
        decreases chars@.len() - i,
    {
        proof {
            assert(chars@.subrange(0, i + 1).drop_last() =~= chars@.subrange(0, i as int));
        }
        if chars[i] == '\n' {
            count = count + 1;
        }
        i = i + 1;
    }
    proof {
        assert(chars@.subrange(0, i as int) =~= chars@);
    }
    if chars.len() > 0 && chars[chars.len() - 1] != '\n' {
        if count < chars.len() {
            count = count + 1;
        } else {
            proof {
                assert(false) by {
                    lemma_newline_count_short(chars@);
                }
            }
        }
    }
    let wide: u64 = count as u64;
    if wide <= 0x7fff_ffff_ffff_ffffu64 {
        wide as i64
    } else {
        i64::MAX
    }
}

/// A text that does not end in a line feed holds fewer line feeds than characters.
proof fn lemma_newline_count_short(text: Seq<char>)
    requires
        text.len() > 0,
        text.last() != '\n',
    ensures
        newline_count(text) < text.len(),
{
    lemma_newline_count_bound(text.drop_last());
}

proof fn lemma_newline_count_bound(text: Seq<char>)
    ensures
        newline_count(text) <= text.len(),
    decreases text.len(),
{
    if text.len() > 0 {
        lemma_newline_count_bound(text.drop_last());
    }
}

/// Whether some row, acted on or not, belongs to session `id`.
pub open spec fn remembered(rows: Seq<ArchiveRow>, id: Seq<char>) -> bool {
    exists|i: int| 0 <= i < rows.len() && (#[trigger] rows[i]).session_id@ == id
}

/// Whether an entry is an orphan: an ordinary file under a generated name whose
/// session no row remembers, whatever such a row would have said.
pub open spec fn is_orphan(entry: (Seq<char>, SweptEntry), rows: Seq<ArchiveRow>) -> bool {
    &&& entry.1 is File
    &&& stem_of(entry.0) is Some
    &&& !remembered(rows, stem_of(entry.0)->Some_0)
}

/// The orphans among `entries`, in the order they are walked.
pub open spec fn orphans_of(entries: Seq<(Seq<char>, SweptEntry)>, rows: Seq<ArchiveRow>) -> Seq<Seq<char>>
    decreases entries.len(),
{
    if entries.len() == 0 {
        Seq::empty()
    } else {
        let before = orphans_of(entries.drop_last(), rows);
        if is_orphan(entries.last(), rows) {
            before.push(entries.last().0)
        } else {
            before
        }
    }
}

/// Whether some row belongs to session `id`.
fn is_remembered(rows: &Vec<ArchiveRow>, id: &str) -> (r: bool)
    ensures
        r == remembered(rows@, id@),
{
    let mut i: usize = 0;
    while i < rows.len()
        invariant
            i <= rows@.len(),
            forall|k: int| 0 <= k < i ==> (#[trigger] rows@[k]).session_id@ != id@,
        decreases rows@.len() - i,
    {
        if str_eq(rows[i].session_id.as_str(), id) {
            return true;
        }
        i = i + 1;
    }
    false
}

/// The files the sweep deletes: every eligible file no row remembers, in name order.
/// A file some row names is never among them, not even when the sweep refused to
/// act on that row.
pub fn orphan_candidates(entries: &NameMap<SweptEntry>, rows: &Vec<ArchiveRow>) -> (orphans: Vec<String>)
    ensures
        texts(orphans@) == orphans_of(entries@, rows@),
{
    let mut orphans: Vec<String> = Vec::new();
    let mut i: usize = 0;
    while i < entries.entries.len()
        invariant
            i <= entries@.len(),
            texts(orphans@) == orphans_of(entries@.subrange(0, i as int), rows@),
        decreases entries@.len() - i,
    {
        let ghost before = texts(orphans@);
        let ghost prefix = entries@.subrange(0, i + 1);
        proof {
            assert(prefix.drop_last() =~= entries@.subrange(0, i as int));
            assert(prefix.last() == entries@[i as int]);
        }
        let name = &entries.entries[i].0;
        if let SweptEntry::File(_) = entries.entries[i].1 {
            if let Some(stem) = archive_file_stem(name.as_str()) {
                if !is_remembered(rows, stem.as_str()) {
                    orphans.push(name.clone());
                    proof {
                        assert(texts(orphans@) =~= before.push(orphans@.last()@));
                    }
                }
            }
        }
        i = i + 1;
    }
    proof {
        assert(entries@.subrange(0, i as int) =~= entries@);
    }
    orphans
}

/// What a row's recorded size adds to the quota: itself, or nothing if negative.
pub open spec fn recorded_bytes(byte_size: i64) -> int {
    if byte_size < 0 { 0 } else { byte_size as int }
}

/// The bytes `entries` hold, or `None` when one entry nobody can size belongs to
/// no owned row. A deleted orphan and a name taken by something else add nothing;
/// an entry the filesystem would not describe adds its row's recorded size.
pub open spec fn measured_bytes(
    entries: Seq<(Seq<char>, SweptEntry)>,
    owned: Seq<(Seq<char>, usize)>,
    rows: Seq<ArchiveRow>,
    deleted: Seq<Seq<char>>,
) -> Option<int>
    decreases entries.len(),
{
    if entries.len() == 0 {
        Some(0)
    } else {
        match measured_bytes(entries.drop_last(), owned, rows, deleted) {
            None => None,
            Some(total) => {
                let (name, entry) = entries.last();
                match entry {
                    SweptEntry::File(len) => if deleted.contains(name) { Some(total) } else { Some(total + len) },
                    SweptEntry::NotOurFile => Some(total),
                    SweptEntry::Unmeasurable => match lookup(owned, name) {
                        Some(at) => Some(total + recorded_bytes(rows[at as int].counters.byte_size)),
                        None => None,
                    },
                }
            }
        }
    }
}

/// The total a byte count is kept as: itself, or `u64::MAX` past it.
pub open spec fn saturated_total(total: int) -> u64 {
    if total <= u64::MAX { total as u64 } else { u64::MAX }
}

proof fn lemma_measured_nonnegative(
    entries: Seq<(Seq<char>, SweptEntry)>,
    owned: Seq<(Seq<char>, usize)>,
    rows: Seq<ArchiveRow>,
    deleted: Seq<Seq<char>>,
)
    ensures
        measured_bytes(entries, owned, rows, deleted) matches Some(t) ==> t >= 0,
    decreases entries.len(),
{
    if entries.len() > 0 {
        lemma_measured_nonnegative(entries.drop_last(), owned, rows, deleted);
    }
}

/// The byte total the quota counter starts from. One entry nobody can size, and that
/// no owned row remembers, makes the whole total `Unavailable`: a guessed total is
/// worse than none, because the cap it feeds is what keeps the disk from filling.
pub fn measure(
    entries: &NameMap<SweptEntry>,
    owned: &NameMap<usize>,
    rows: &Vec<ArchiveRow>,
    deleted: &Vec<String>,
) -> (total: QuotaTotal)
    requires
        owned.wf(),
        forall|j: int| 0 <= j < owned@.len() ==> (#[trigger] owned@[j]).1 < rows@.len(),
    ensures
        total == match measured_bytes(entries@, owned@, rows@, texts(deleted@)) {
            Some(t) => QuotaTotal::Known(saturated_total(t)),
            None => QuotaTotal::Unavailable,
        },
{
    let mut total: u64 = 0;
    let mut i: usize = 0;
    while i < entries.entries.len()
        invariant
            i <= entries@.len(),
            owned.wf(),
            forall|j: int| 0 <= j < owned@.len() ==> (#[trigger] owned@[j]).1 < rows@.len(),
            measured_bytes(entries@.subrange(0, i as int), owned@, rows@, texts(deleted@)) matches Some(t)
                && total == saturated_total(t),
        decreases entries@.len() - i,
    {
        let ghost prefix = entries@.subrange(0, i + 1);
        proof {
            assert(prefix.drop_last() =~= entries@.subrange(0, i as int));
            assert(prefix.last() == entries@[i as int]);
            lemma_measured_nonnegative(entries@.subrange(0, i as int), owned@, rows@, texts(deleted@));
        }
        let name = &entries.entries[i].0;
        match entries.entries[i].1 {
            SweptEntry::File(len) => {
                if !contains_text(deleted, name.as_str()) {
                    total = total.saturating_add(len);
                }
            }
            SweptEntry::NotOurFile => {}
            SweptEntry::Unmeasurable => {
                match owned.get(name.as_str()) {
                    Some(at) => {
                        proof {
                            lemma_lookup_in(owned@, name@);
                        }
                        let size = rows[at].counters.byte_size;
                        let add: u64 = if size < 0 { 0 } else { size as u64 };
                        total = total.saturating_add(add);
                    }
                    None => {
                        proof {
                            lemma_unmeasurable_stays(entries@, owned@, rows@, texts(deleted@), i + 1);
                        }
                        return QuotaTotal::Unavailable;
                    }
                }
            }
        }
        i = i + 1;
    }
    proof {
        assert(entries@.subrange(0, i as int) =~= entries@);
    }
    QuotaTotal::Known(total)
}

/// Once a prefix of the entries cannot be measured, no longer one can.
proof fn lemma_unmeasurable_stays(
    entries: Seq<(Seq<char>, SweptEntry)>,
    owned: Seq<(Seq<char>, usize)>,
    rows: Seq<ArchiveRow>,
    deleted: Seq<Seq<char>>,
    k: int,
)
    requires
        0 <= k <= entries.len(),
        measured_bytes(entries.subrange(0, k), owned, rows, deleted) is None,
    ensures
        measured_bytes(entries, owned, rows, deleted) is None,
    decreases entries.len(),
{
    if k == entries.len() {
        assert(entries.subrange(0, k) =~= entries);
    } else {
        let shorter = entries.drop_last();
        assert(shorter.subrange(0, k) =~= entries.subrange(0, k));
        lemma_unmeasurable_stays(shorter, owned, rows, deleted, k);
    }
}

/// What `lookup` finds is a value stored in the map.
proof fn lemma_lookup_in(s: Seq<(Seq<char>, usize)>, name: Seq<char>)
    ensures
        lookup(s, name) matches Some(v) ==> exists|j: int| 0 <= j < s.len() && (#[trigger] s[j]).1 == v,
    decreases s.len(),
{
    if s.len() > 0 && s[0].0 != name {
        lemma_lookup_in(s.drop_first(), name);
        if let Some(v) = lookup(s, name) {
            let j = choose|j: int| 0 <= j < s.drop_first().len() && (#[trigger] s.drop_first()[j]).1 == v;
            assert(s[j + 1].1 == v);
        }
    } else if s.len() > 0 {
        assert(s[0].1 == s[0].1);
    }
}

} // verus!
