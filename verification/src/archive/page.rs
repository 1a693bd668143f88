//! Reading an archive a page at a time, backwards from a cursor, without ever
//! loading the whole file.
use vstd::prelude::*;
use crate::error::{invalid, AppError, AppResult};
use crate::text::{decimal_digits, push_decimal, push_str};

verus! {

/// Fewest records one page may be asked for.
pub const MIN_PAGE_RECORDS: usize = 1;

/// Records one page returns when the caller names no bound.
pub const DEFAULT_PAGE_RECORDS: usize = 500;

/// Most records one page may consume.
pub const MAX_PAGE_RECORDS: usize = 2_000;

/// Bytes of archived text one page may consume before it stops.
pub const PAGE_BYTE_CAP: usize = 1024 * 1024;

/// Block the backward scan reads at a time, so a page never loads a whole file.
pub const READ_BLOCK_BYTES: usize = 64 * 1024;

/// The bytes of an archive file, as the contracts of its readers speak of them.
pub type FileContent = Seq<u8>;

/// An archive file open for reading at arbitrary offsets.
///
/// The length a page trusts is the one measured before the file was opened, so the
/// reader has none of its own.
pub trait ArchiveReadFile {
    /// The bytes of the file, as this reader sees them.
    spec fn content(&self) -> FileContent;

    /// Up to `len` bytes from `offset`. Short only at the end of the file: an
    /// implementation loops over a short read rather than passing one on, so a
    /// caller that asked for bytes it had already measured can treat a short fill as
    /// the file having changed under it. `Err` carries the reason the read failed.
    fn fill_at(&mut self, offset: u64, len: usize) -> (r: Result<Vec<u8>, String>)
        ensures
            final(self).content() == old(self).content(),
            r matches Ok(bytes) ==> {
                &&& bytes@.len() <= len
                &&& offset + bytes@.len() <= old(self).content().len()
                &&& bytes@ == old(self).content().subrange(offset as int, offset + bytes@.len())
                &&& bytes@.len() < len ==> offset + bytes@.len() == old(self).content().len()
            },
    ;
}

/// Which bound ended a page.
#[derive(Debug, Clone, Copy, PartialEq, Eq, Structural)]
pub enum PageBound {
    /// The page reached the start of the file, so nothing precedes it.
    Start,
    /// The page consumed as many records as it was allowed.
    Lines,
    /// The page consumed as much archived text as it was allowed.
    Bytes,
}

pub open spec fn page_bound_text(bound: PageBound) -> Seq<char> {
    match bound {
        PageBound::Start => "start"@,
        PageBound::Lines => "lines"@,
        PageBound::Bytes => "bytes"@,
    }
}

impl PageBound {
    /// The exact string the page carries to the user interface.
    pub fn as_str(self) -> (s: &'static str)
        ensures
            s@ == page_bound_text(self),
    {
        match self {
            PageBound::Start => "start",
            PageBound::Lines => "lines",
            PageBound::Bytes => "bytes",
        }
    }
}

/// The records the caller asked for, clamped to what one page may carry.
pub open spec fn clamped_records(requested: Option<usize>) -> usize {
    let n = match requested {
        Some(n) => n,
        None => DEFAULT_PAGE_RECORDS,
    };
    if n < MIN_PAGE_RECORDS {
        MIN_PAGE_RECORDS
    } else if n > MAX_PAGE_RECORDS {
        MAX_PAGE_RECORDS
    } else {
        n
    }
}

/// The records the caller asked for, clamped to what one page may carry.
pub fn clamped_page_records(requested: Option<usize>) -> (n: usize)
    ensures
        n == clamped_records(requested),
        MIN_PAGE_RECORDS <= n <= MAX_PAGE_RECORDS,
{
    let n = match requested {
        Some(n) => n,
        None => DEFAULT_PAGE_RECORDS,
    };
    if n < MIN_PAGE_RECORDS {
        MIN_PAGE_RECORDS
    } else if n > MAX_PAGE_RECORDS {
        MAX_PAGE_RECORDS
    } else {
        n
    }
}

/// How many bytes to read when `remaining` bytes lie below the scan.
pub fn block_len(remaining: u64) -> (n: usize)
    ensures
        n == if remaining < READ_BLOCK_BYTES as u64 { remaining as int } else { READ_BLOCK_BYTES as int },
{
    if remaining < READ_BLOCK_BYTES as u64 {
        remaining as usize
    } else {
        READ_BLOCK_BYTES
    }
}

/// One past the last newline in `content[0..end)`, or `0` when there is none: where
/// the record that ends at `end` starts.
pub open spec fn boundary_before(content: Seq<u8>, end: int) -> int
    decreases end,
{
    if end <= 0 {
        0
    } else if content[end - 1] == 10u8 {
        end
    } else {
        boundary_before(content, end - 1)
    }
}

pub proof fn lemma_boundary_before_bounds(content: Seq<u8>, end: int)
    ensures
        0 <= boundary_before(content, end),
        end >= 0 ==> boundary_before(content, end) <= end,
        boundary_before(content, end) > 0 ==> content[boundary_before(content, end) - 1] == 10u8,
    decreases end,
{
    if end > 0 && content[end - 1] != 10u8 {
        lemma_boundary_before_bounds(content, end - 1);
    }
}

/// A newline-free stretch does not move the boundary.
proof fn lemma_boundary_skips(content: Seq<u8>, from: int, end: int)
    requires
        0 <= from <= end,
        forall|k: int| from <= k < end ==> content[k] != 10u8,
    ensures
        boundary_before(content, end) == boundary_before(content, from),
    decreases end - from,
{
    if end > from {
        lemma_boundary_skips(content, from, end - 1);
    }
}

/// `a + b`, saturating at `usize::MAX`.
pub open spec fn add_saturating(a: int, b: int) -> int {
    if a + b > usize::MAX { usize::MAX as int } else { a + b }
}

/// What a backward scan from `resolved` still yields: its records newest first, the
/// offset the page starts at, and the bound that ended it.
pub struct ScanOutcome {
    pub lines: Seq<Seq<u8>>,
    pub start: int,
    pub bound: PageBound,
}

/// The backward scan over a region whose end `resolved` is a record boundary, having
/// consumed `consumed` records and `bytes` bytes so far. The record count and the
/// byte cap both stop the page, but the byte cap never refuses a page's first record,
/// so a record larger than the whole cap is still delivered.
pub open spec fn scan_from(content: Seq<u8>, resolved: int, consumed: nat, bytes: int, max_records: nat) -> ScanOutcome
    decreases resolved,
{
    if resolved <= 0 {
        ScanOutcome { lines: Seq::empty(), start: 0, bound: PageBound::Start }
    } else if consumed == max_records {
        ScanOutcome { lines: Seq::empty(), start: resolved, bound: PageBound::Lines }
    } else {
        let start = boundary_before(content, resolved - 1);
        let line = content.subrange(start, resolved - 1);
        let with_line = add_saturating(bytes, line.len() as int);
        if consumed > 0 && with_line > PAGE_BYTE_CAP {
            ScanOutcome { lines: Seq::empty(), start: resolved, bound: PageBound::Bytes }
        } else {
            proof {
                lemma_boundary_before_bounds(content, resolved - 1);
            }
            let rest = scan_from(content, start, consumed + 1, with_line, max_records);
            ScanOutcome { lines: seq![line] + rest.lines, start: rest.start, bound: rest.bound }
        }
    }
}

/// What the backward scan found, before the index row's own fields join it.
pub struct ScannedPage {
    /// The raw bytes of each whole record, oldest first, without its newline.
    pub records: Vec<Vec<u8>>,
    pub page_start_offset: u64,
    pub stopped_by: PageBound,
    /// Bytes after the last newline below the cursor were left out: mid-flush for an
    /// archive still being written, a torn write for a closed one.
    pub incomplete_tail_skipped: bool,
}

/// The page of `content` that ends at `cursor`: the whole records inside
/// `[0, cursor)` that fit one page, newest end first, returned oldest first.
pub open spec fn page_matches(page: ScannedPage, content: Seq<u8>, cursor: int, max_records: nat) -> bool {
    let region_end = boundary_before(content, cursor);
    let scan = scan_from(content, region_end, 0, 0, max_records);
    &&& page.records@.len() == scan.lines.len()
    &&& forall|i: int| 0 <= i < page.records@.len() ==> (#[trigger] page.records@[i])@
        == scan.lines[scan.lines.len() - 1 - i]
    &&& page.page_start_offset == scan.start
    &&& page.stopped_by == scan.bound
    &&& page.incomplete_tail_skipped == (region_end != cursor)
}

/// The message a failed read carries, before the reason.
pub open spec fn unreadable_prefix(session_id: Seq<char>) -> Seq<char> {
    "The run log archive of session "@ + session_id + " could not be read: "@
}

/// The message a short read carries.
pub open spec fn changed_message(session_id: Seq<char>) -> Seq<char> {
    "The run log archive of session "@ + session_id + " changed while it was being read"@
}

/// `len` bytes from `offset`, insisting on every byte: every block a page reads lies
/// below a length measured before the file was opened, and an archive is append-only,
/// so a short fill means the file changed underneath the reader.
pub fn fill_exact<F: ArchiveReadFile>(file: &mut F, session_id: &str, offset: u64, len: usize) -> (r: AppResult<Vec<u8>>)
    ensures
        final(file).content() == old(file).content(),
        r matches Ok(bytes) ==> bytes@.len() == len && offset + len <= old(file).content().len()
            && bytes@ == old(file).content().subrange(offset as int, offset + len),
        r matches Err(e) ==> e is Message && (e.text() == changed_message(session_id@) || (exists|reason: Seq<char>|
            e.text() == #[trigger] unreadable_prefix(session_id@) + reason)),
        r is Err && offset + len <= old(file).content().len() ==> exists|reason: Seq<char>| r->Err_0.text()
            == #[trigger] unreadable_prefix(session_id@) + reason,
{
    match file.fill_at(offset, len) {
        Ok(bytes) => {
            if bytes.len() != len {
                let mut message = String::new();
                push_str(&mut message, "The run log archive of session ");
                push_str(&mut message, session_id);
                push_str(&mut message, " changed while it was being read");
                return Err(invalid(message));
            }
            Ok(bytes)
        }
        Err(reason) => {
            let mut message = String::new();
            push_str(&mut message, "The run log archive of session ");
            push_str(&mut message, session_id);
            push_str(&mut message, " could not be read: ");
            push_str(&mut message, reason.as_str());
            assert(message@ == unreadable_prefix(session_id@) + reason@);
            Err(invalid(message))
        }
    }
}

/// The views of a list of byte vectors.
pub open spec fn byte_views(items: Seq<Vec<u8>>) -> Seq<Seq<u8>> {
    Seq::new(items.len(), |i: int| items[i]@)
}

/// The position of the last newline in `bytes[0..upto)`.
fn last_newline(bytes: &Vec<u8>, upto: usize) -> (r: Option<usize>)
    requires
        upto <= bytes@.len(),
    ensures
        match r {
            Some(j) => j < upto && bytes@[j as int] == 10u8 && forall|k: int| j < k < upto ==> bytes@[k] != 10u8,
            None => forall|k: int| 0 <= k < upto ==> bytes@[k] != 10u8,
        },
{
    let mut i = upto;
    while i > 0
        invariant
            i <= upto <= bytes@.len(),
            forall|k: int| i <= k < upto ==> bytes@[k] != 10u8,
        decreases i,
    {
        if bytes[i - 1] == 10u8 {
            return Some(i - 1);
        }
        i = i - 1;
    }
    None
}

/// One past the last newline below `end`, or `0` when the region holds none.
///
/// Bytes after that point are not a record. Each block is discarded once it has been
/// looked at, so a file holding no newline at all costs one block of memory.
pub fn last_record_end<F: ArchiveReadFile>(file: &mut F, session_id: &str, end: u64) -> (r: AppResult<u64>)
    ensures
        final(file).content() == old(file).content(),
        r matches Ok(v) ==> v == boundary_before(old(file).content(), end as int) && (end == 0 || end
            <= old(file).content().len()),
        r is Err && end <= old(file).content().len() ==> exists|reason: Seq<char>| r->Err_0.text()
            == #[trigger] unreadable_prefix(session_id@) + reason,
        r matches Err(e) ==> e is Message,
        end == 0 ==> r == Ok::<u64, AppError>(0),
{
    let ghost content = file.content();
    let mut scan_end = end;
    while scan_end > 0
        invariant
            file.content() == content,
            old(file).content() == content,
            scan_end <= end,
            scan_end < end ==> end <= content.len(),
            boundary_before(content, end as int) == boundary_before(content, scan_end as int),
        decreases scan_end,
    {
        let take = block_len(scan_end);
        let start = scan_end - take as u64;
        let block = fill_exact(file, session_id, start, take)?;
        match last_newline(&block, block.len()) {
            Some(index) => {
                proof {
                    assert(content[start + index] == block@[index as int]);
                    assert forall|k: int| start + index + 1 <= k < scan_end implies content[k] != 10u8 by {
                        assert(content[k] == block@[k - start]);
                    }
                    lemma_boundary_skips(content, start + index + 1, scan_end as int);
                }
                return Ok(start + index as u64 + 1);
            }
            None => {
                proof {
                    assert forall|k: int| start <= k < scan_end implies content[k] != 10u8 by {
                        assert(content[k] == block@[k - start]);
                    }
                    lemma_boundary_skips(content, start as int, scan_end as int);
                }
                scan_end = start;
            }
        }
    }
    Ok(0)
}

/// The refusal for an offset past the file or at its very start.
pub open spec fn offset_outside_message(session_id: Seq<char>, offset: u64, file_length: u64) -> Seq<char> {
    "Offset "@ + decimal_digits(offset as nat) + " is not a record boundary of session "@ + session_id
        + "'s run log archive, which is "@ + decimal_digits(file_length as nat) + " bytes long"@
}

/// The refusal for an offset that does not follow a newline.
pub open spec fn offset_not_boundary_message(session_id: Seq<char>, offset: u64) -> Seq<char> {
    "Offset "@ + decimal_digits(offset as nat) + " is not a record boundary of session "@ + session_id
        + "'s run log archive"@
}

/// Where the caller's cursor puts the end of the region to read.
///
/// An absent cursor means the end of the file. A present one must be a boundary this
/// module returned earlier — `0 < n <= file_length` with a newline at `n - 1` — and
/// anything else is refused rather than resynced to a nearby newline.
pub fn validated_cursor<F: ArchiveReadFile>(
    file: &mut F,
    session_id: &str,
    before_offset: Option<u64>,
    file_length: u64,
) -> (r: AppResult<u64>)
    ensures
        final(file).content() == old(file).content(),
        before_offset is None ==> r == Ok::<u64, AppError>(file_length),
        before_offset matches Some(offset) ==> {
            &&& (offset == 0 || offset > file_length) ==> (r matches Err(e) && e is Message && e.text()
                == offset_outside_message(session_id@, offset, file_length))
            &&& r matches Ok(v) ==> v == offset && 0 < offset <= file_length && offset
                <= old(file).content().len() && old(file).content()[offset - 1] == 10u8
            &&& (0 < offset <= file_length && offset <= old(file).content().len() && old(file).content()[offset
                - 1] != 10u8) ==> (r matches Err(e) && e is Message && (e.text() == offset_not_boundary_message(session_id@, offset)
                || exists|reason: Seq<char>| e.text() == #[trigger] unreadable_prefix(session_id@) + reason))
        },
{
    let offset = match before_offset {
        None => {
            return Ok(file_length);
        }
        Some(offset) => offset,
    };
    if offset == 0 || offset > file_length {
        let mut message = String::new();
        push_str(&mut message, "Offset ");
        push_decimal(&mut message, offset);
        push_str(&mut message, " is not a record boundary of session ");
        push_str(&mut message, session_id);
        push_str(&mut message, "'s run log archive, which is ");
        push_decimal(&mut message, file_length);
        push_str(&mut message, " bytes long");
        return Err(invalid(message));
    }
    let terminator = fill_exact(file, session_id, offset - 1, 1)?;
    if terminator[0] != 10u8 {
        let mut message = String::new();
        push_str(&mut message, "Offset ");
        push_decimal(&mut message, offset);
        push_str(&mut message, " is not a record boundary of session ");
        push_str(&mut message, session_id);
        push_str(&mut message, "'s run log archive");
        return Err(invalid(message));
    }
    Ok(offset)
}

/// The records wholly inside `[0, cursor)` that fit one page, newest end first and
/// returned oldest first.
///
/// The scan reads fixed blocks from `cursor` backwards and keeps only the bytes it has
/// not yet turned into records, so the memory it holds is a block or two plus the
/// record it is assembling — never the file. The record count is clamped to at least
/// one by the caller, and the byte bound never refuses the first record, so every page
/// makes progress.
pub fn scan_page_backwards<F: ArchiveReadFile>(
    file: &mut F,
    session_id: &str,
    cursor: u64,
    max_records: usize,
) -> (r: AppResult<ScannedPage>)
    ensures
        final(file).content() == old(file).content(),
        r matches Ok(page) ==> page_matches(page, old(file).content(), cursor as int, max_records as nat),
        r is Err && cursor <= old(file).content().len() ==> exists|reason: Seq<char>| r->Err_0.text()
            == #[trigger] unreadable_prefix(session_id@) + reason,
        r matches Err(e) ==> e is Message,
        cursor == 0 ==> (r matches Ok(page) && page.records@.len() == 0 && page.page_start_offset == 0
            && page.stopped_by == PageBound::Start && !page.incomplete_tail_skipped),
{
    let ghost content = file.content();
    let region_end = last_record_end(file, session_id, cursor)?;
    proof {
        lemma_boundary_before_bounds(content, cursor as int);
    }
    let ghost full = scan_from(content, region_end as int, 0, 0, max_records as nat);

    // The window holds the file bytes `[window_start, resolved)`, and `resolved` is
    // always one past a newline, so every record inside the window is whole.
    let mut window: Vec<u8> = Vec::new();
    let mut window_start: u64 = region_end;
    let mut resolved: u64 = region_end;
    let mut consumed: usize = 0;
    let mut consumed_bytes: usize = 0;
    let mut newest_first: Vec<Vec<u8>> = Vec::new();
    let stopped_by;
    loop
        invariant
            file.content() == content,
            old(file).content() == content,
            region_end == boundary_before(content, cursor as int),
            region_end <= cursor,
            region_end > 0 ==> region_end <= content.len(),
            window_start <= resolved <= region_end,
            window@ == content.subrange(window_start as int, resolved as int),
            resolved > 0 ==> content[resolved - 1] == 10u8,
            consumed <= max_records,
            newest_first@.len() == consumed,
            full == (ScanOutcome {
                lines: byte_views(newest_first@) + scan_from(content, resolved as int, consumed as nat,
                    consumed_bytes as int, max_records as nat).lines,
                start: scan_from(content, resolved as int, consumed as nat, consumed_bytes as int,
                    max_records as nat).start,
                bound: scan_from(content, resolved as int, consumed as nat, consumed_bytes as int,
                    max_records as nat).bound,
            }),
        ensures
            scan_from(content, resolved as int, consumed as nat, consumed_bytes as int, max_records as nat).lines.len() == 0,
            scan_from(content, resolved as int, consumed as nat, consumed_bytes as int, max_records as nat).start == resolved,
            scan_from(content, resolved as int, consumed as nat, consumed_bytes as int, max_records as nat).bound == stopped_by,
        decreases resolved,
    {
        if resolved == 0 {
            stopped_by = PageBound::Start;
            break;
        }
        if consumed == max_records {
            stopped_by = PageBound::Lines;
            break;
        }
        let ghost record_start = boundary_before(content, resolved - 1);
        proof {
            lemma_boundary_before_bounds(content, resolved - 1);
        }
        // Where this record starts, reading further back only when the window does
        // not already hold its beginning.
        let mut line_start: usize = 0;
        loop
            invariant
                file.content() == content,
                old(file).content() == content,
                0 < resolved <= region_end,
                region_end <= cursor,
                region_end <= content.len(),
                window_start <= resolved,
                window@ == content.subrange(window_start as int, resolved as int),
                content[resolved - 1] == 10u8,
                record_start == boundary_before(content, resolved - 1),
            ensures
                line_start < window@.len(),
                window_start + line_start == record_start,
                window@ == content.subrange(window_start as int, resolved as int),
                file.content() == content,
            decreases window_start,
        {
            let searchable: usize = if window.len() > 0 { window.len() - 1 } else { 0 };
            match last_newline(&window, searchable) {
                Some(index) => {
                    proof {
                        assert(content[window_start + index] == window@[index as int]);
                        assert forall|k: int| window_start + index + 1 <= k < resolved - 1 implies content[k] != 10u8 by {
                            assert(content[k] == window@[k - window_start]);
                        }
                        lemma_boundary_skips(content, window_start + index + 1, resolved - 1);
                    }
                    line_start = index + 1;
                    break;
                }
                None => {
                    if window_start == 0 {
                        proof {
                            assert forall|k: int| 0 <= k < resolved - 1 implies content[k] != 10u8 by {
                                assert(content[k] == window@[k]);
                            }
                            lemma_boundary_skips(content, 0, resolved - 1);
                            assert(window@[resolved - 1] == 10u8);
                        }
                        line_start = 0;
                        break;
                    }
                    let take = block_len(window_start);
                    let start = window_start - take as u64;
                    let mut prefix = fill_exact(file, session_id, start, take)?;
                    prefix.append(&mut window);
                    window = prefix;
                    window_start = start;
                    proof {
                        assert(window@ =~= content.subrange(window_start as int, resolved as int));
                    }
                }
            }
        }
        let line_end = window.len() - 1;
        let mut line: Vec<u8> = Vec::new();
        let mut k = line_start;
        while k < line_end
            invariant
                line_start <= k <= line_end,
                line_end < window@.len(),
                line@ == window@.subrange(line_start as int, k as int),
            decreases line_end - k,
        {
            line.push(window[k]);
            k = k + 1;
            assert(window@.subrange(line_start as int, k as int) =~= window@.subrange(line_start as int, k - 1).push(window@[k - 1]));
        }
        proof {
            assert(line@ =~= content.subrange(record_start, resolved - 1));
        }
        let with_line = consumed_bytes.saturating_add(line.len());
        if consumed > 0 && with_line > PAGE_BYTE_CAP {
            stopped_by = PageBound::Bytes;
            break;
        }
        let ghost before_views = byte_views(newest_first@);
        newest_first.push(line);
        proof {
            assert(byte_views(newest_first@) =~= before_views.push(content.subrange(record_start, resolved - 1)));
        }
        consumed = consumed + 1;
        consumed_bytes = with_line;
        resolved = window_start + line_start as u64;
        window.truncate(line_start);
        proof {
            assert(full.lines =~= byte_views(newest_first@) + scan_from(content, resolved as int, consumed as nat,
                consumed_bytes as int, max_records as nat).lines);
        }
    }

    let mut records: Vec<Vec<u8>> = Vec::new();
    let ghost views = byte_views(newest_first@);
    let n = newest_first.len();
    while newest_first.len() > 0
        invariant
            views.len() == n,
            newest_first@.len() <= n,
            byte_views(newest_first@) == views.subrange(0, newest_first@.len() as int),
            records@.len() == n - newest_first@.len(),
            forall|i: int| 0 <= i < records@.len() ==> (#[trigger] records@[i])@ == views[n - 1 - i],
        decreases newest_first@.len(),
    {
        let ghost before = byte_views(newest_first@);
        let line = newest_first.pop().unwrap();
        proof {
            assert(line@ == before[before.len() - 1]);
            assert(byte_views(newest_first@) =~= views.subrange(0, newest_first@.len() as int));
        }
        records.push(line);
    }
    proof {
        assert(full.lines =~= views);
    }
    Ok(ScannedPage {
        records,
        page_start_offset: resolved,
        stopped_by,
        incomplete_tail_skipped: region_end != cursor,
    })
}

/// Every whole record that ends at or before `resolved`, newest first.
pub open spec fn records_before(content: Seq<u8>, resolved: int) -> Seq<Seq<u8>>
    decreases resolved,
{
    if resolved <= 0 {
        Seq::empty()
    } else {
        let start = boundary_before(content, resolved - 1);
        proof {
            lemma_boundary_before_bounds(content, resolved - 1);
        }
        seq![content.subrange(start, resolved - 1)] + records_before(content, start)
    }
}

/// A backward scan hands over a run of consecutive records: what it returns,
/// followed by everything before the offset it stopped at, is everything before the
/// offset it started from. Its stopping offset is itself a record boundary no later
/// than where it started, and a scan that may still take a record and has one to
/// take always takes one.
proof fn lemma_scan_takes_a_prefix(content: Seq<u8>, resolved: int, consumed: nat, bytes: int, max_records: nat)
    requires
        resolved >= 0,
        resolved > 0 ==> content[resolved - 1] == 10u8,
    ensures
        scan_from(content, resolved, consumed, bytes, max_records).lines + records_before(
            content,
            scan_from(content, resolved, consumed, bytes, max_records).start,
        ) == records_before(content, resolved),
        0 <= scan_from(content, resolved, consumed, bytes, max_records).start <= resolved,
        scan_from(content, resolved, consumed, bytes, max_records).start > 0 ==> content[scan_from(
            content,
            resolved,
            consumed,
            bytes,
            max_records,
        ).start - 1] == 10u8,
        (resolved > 0 && consumed == 0 && max_records > 0) ==> scan_from(content, resolved, consumed, bytes,
            max_records).start < resolved,
    decreases resolved,
{
    let scan = scan_from(content, resolved, consumed, bytes, max_records);
    if resolved <= 0 {
        assert(scan.lines + records_before(content, 0) =~= records_before(content, resolved));
    } else if consumed == max_records {
        assert(scan.lines + records_before(content, resolved) =~= records_before(content, resolved));
    } else {
        lemma_boundary_before_bounds(content, resolved - 1);
        let start = boundary_before(content, resolved - 1);
        let line = content.subrange(start, resolved - 1);
        let with_line = add_saturating(bytes, line.len() as int);
        if consumed > 0 && with_line > PAGE_BYTE_CAP {
            assert(scan.lines + records_before(content, resolved) =~= records_before(content, resolved));
        } else {
            lemma_scan_takes_a_prefix(content, start, consumed + 1, with_line, max_records);
            let rest = scan_from(content, start, consumed + 1, with_line, max_records);
            assert(scan.lines + records_before(content, scan.start) =~= seq![line] + (rest.lines
                + records_before(content, rest.start)));
        }
    }
}

/// Paging walks an archive once, from the end: the records of the page that ends
/// at `cursor`, newest first, followed by every record before that page's start
/// offset, are exactly the whole records before `cursor`. The start offset is a
/// record boundary — so passing it back as the next cursor is accepted and resumes
/// exactly there — and a page allowed at least one record, over a region holding
/// one, always consumes one, so paging never stalls.
pub proof fn paging_walks_the_archive_once(content: Seq<u8>, cursor: int, max_records: nat)
    requires
        0 <= cursor,
    ensures
        ({
            let region_end = boundary_before(content, cursor);
            let scan = scan_from(content, region_end, 0, 0, max_records);
            &&& scan.lines + records_before(content, scan.start) == records_before(content, region_end)
            &&& 0 <= scan.start <= region_end <= cursor
            &&& scan.start > 0 ==> content[scan.start - 1] == 10u8
            &&& boundary_before(content, scan.start) == scan.start
            &&& (region_end > 0 && max_records > 0) ==> scan.start < region_end
        }),
{
    lemma_boundary_before_bounds(content, cursor);
    let region_end = boundary_before(content, cursor);
    lemma_scan_takes_a_prefix(content, region_end, 0, 0, max_records);
}


/// The values of `decoded` that are there, in order.
pub open spec fn decoded_values<T>(decoded: Seq<Option<T>>) -> Seq<T>
    decreases decoded.len(),
{
    if decoded.len() == 0 {
        Seq::empty()
    } else {
        let rest = decoded_values(decoded.drop_last());
        match decoded.last() {
            Some(v) => rest.push(v),
            None => rest,
        }
    }
}

/// How many entries of `decoded` are missing.
pub open spec fn missing_count<T>(decoded: Seq<Option<T>>) -> nat
    decreases decoded.len(),
{
    if decoded.len() == 0 {
        0
    } else {
        missing_count(decoded.drop_last()) + if decoded.last() is None { 1nat } else { 0nat }
    }
}

/// Split a page's lines, each decoded or not, into the records that decoded, oldest
/// first, and the number of lines that did not.
pub fn split_decoded<T>(decoded: Vec<Option<T>>) -> (r: (Vec<T>, i64))
    requires
        decoded@.len() <= i64::MAX,
    ensures
        r.0@ == decoded_values(decoded@),
        r.1 == missing_count(decoded@),
{
    let ghost all = decoded@;
    let mut records: Vec<T> = Vec::new();
    let mut malformed: i64 = 0;
    let mut rest = decoded;
    let ghost mut done: int = 0;
    while rest.len() > 0
        invariant
            0 <= done <= all.len(),
            all.len() <= i64::MAX,
            rest@ == all.subrange(done, all.len() as int),
            records@ == decoded_values(all.subrange(0, done)),
            malformed == missing_count(all.subrange(0, done)),
            malformed <= done,
        decreases rest@.len(),
    {
        let next = rest.remove(0);
        proof {
            assert(next == all[done]);
            assert(all.subrange(0, done + 1).drop_last() =~= all.subrange(0, done));
            assert(all.subrange(0, done + 1).last() == next);
        }
        match next {
            Some(v) => records.push(v),
            None => malformed = malformed + 1,
        }
        proof {
            done = done + 1;
            assert(rest@ =~= all.subrange(done, all.len() as int));
        }
    }
    proof {
        assert(all.subrange(0, done) =~= all);
    }
    (records, malformed)
}

} // verus!
