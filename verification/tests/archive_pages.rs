use runcove_desktop::archive::page::{
    block_len, clamped_page_records, scan_page_backwards, split_decoded, validated_cursor, ArchiveReadFile, PageBound,
    DEFAULT_PAGE_RECORDS, MAX_PAGE_RECORDS, MIN_PAGE_RECORDS, PAGE_BYTE_CAP, READ_BLOCK_BYTES,
};
use runcove_desktop::archive::{encode_record, ArchiveRecord, LogStream};

const SESSION_A: &str = "0f8fad5b-d9cb-469f-a165-70867728950e";

/// An archive held in memory, read the way the real file is.
struct MemoryFile {
    bytes: Vec<u8>,
    fail: bool,
}

impl ArchiveReadFile for MemoryFile {
    fn content(&self) -> vstd::seq::Seq<u8> {
        unreachable!("the bytes of a file are a proof-time view")
    }

    fn fill_at(&mut self, offset: u64, len: usize) -> Result<Vec<u8>, String> {
        if self.fail {
            return Err("the disk refused".to_string());
        }
        let start = (offset as usize).min(self.bytes.len());
        let end = (start + len).min(self.bytes.len());
        Ok(self.bytes[start..end].to_vec())
    }
}

fn encoded_lines(lines: &[&str]) -> Vec<u8> {
    let mut bytes = Vec::new();
    for (index, line) in lines.iter().enumerate() {
        let record = ArchiveRecord {
            session_id: SESSION_A.to_string(),
            stream: LogStream::Stdout,
            line: line.to_string(),
            timestamp: 10_000 + index as i64,
        };
        bytes.extend_from_slice(encode_record(&record).as_bytes());
        bytes.push(b'\n');
    }
    bytes
}

fn texts(records: &[Vec<u8>]) -> Vec<String> {
    records
        .iter()
        .map(|raw| {
            let value: serde_json::Value = serde_json::from_slice(raw).expect("a record");
            value["l"].as_str().expect("its text").to_string()
        })
        .collect()
}

#[test]
fn the_page_size_is_clamped_and_never_to_nothing() {
    assert_eq!((MIN_PAGE_RECORDS, DEFAULT_PAGE_RECORDS, MAX_PAGE_RECORDS), (1, 500, 2_000));
    assert_eq!((PAGE_BYTE_CAP, READ_BLOCK_BYTES), (1024 * 1024, 64 * 1024));
    assert_eq!(clamped_page_records(None), 500);
    assert_eq!(clamped_page_records(Some(0)), 1);
    assert_eq!(clamped_page_records(Some(7)), 7);
    assert_eq!(clamped_page_records(Some(5_000)), 2_000);
    assert_eq!(block_len(10), 10);
    assert_eq!(block_len(1 << 40), READ_BLOCK_BYTES);
}

#[test]
fn the_tail_page_holds_the_newest_records_oldest_first() {
    let mut file = MemoryFile { bytes: encoded_lines(&["first", "second", "third"]), fail: false };
    let length = file.bytes.len() as u64;
    let cursor = validated_cursor(&mut file, SESSION_A, None, length).expect("the end of the file");
    assert_eq!(cursor, length);
    let tail = scan_page_backwards(&mut file, SESSION_A, cursor, 2).expect("the tail");
    assert_eq!(texts(&tail.records), vec!["second", "third"]);
    assert_eq!(tail.stopped_by, PageBound::Lines);
    assert_eq!(tail.stopped_by.as_str(), "lines");
    assert!(tail.page_start_offset > 0);
    assert!(!tail.incomplete_tail_skipped);

    let cursor = validated_cursor(&mut file, SESSION_A, Some(tail.page_start_offset), length).expect("a boundary");
    let older = scan_page_backwards(&mut file, SESSION_A, cursor, 2).expect("the page before");
    assert_eq!(texts(&older.records), vec!["first"]);
    assert_eq!(older.stopped_by, PageBound::Start);
    assert_eq!(older.page_start_offset, 0);
}

#[test]
fn every_page_walks_the_archive_once_from_the_end() {
    let lines: Vec<String> = (0..7).map(|index| format!("line-{index}")).collect();
    let borrowed: Vec<&str> = lines.iter().map(String::as_str).collect();
    let mut file = MemoryFile { bytes: encoded_lines(&borrowed), fail: false };
    let length = file.bytes.len() as u64;
    let mut seen: Vec<String> = Vec::new();
    let mut before = None;
    loop {
        let cursor = validated_cursor(&mut file, SESSION_A, before, length).expect("a cursor");
        let page = scan_page_backwards(&mut file, SESSION_A, cursor, 3).expect("a page");
        let mut page_lines = texts(&page.records);
        page_lines.extend(seen);
        seen = page_lines;
        if page.page_start_offset == 0 {
            break;
        }
        before = Some(page.page_start_offset);
    }
    assert_eq!(seen, lines);
}

#[test]
fn a_cursor_that_is_not_a_record_boundary_is_refused() {
    let mut file = MemoryFile { bytes: encoded_lines(&["first", "second"]), fail: false };
    let length = file.bytes.len() as u64;
    assert_eq!(
        validated_cursor(&mut file, SESSION_A, Some(0), length).unwrap_err().message(),
        format!("Offset 0 is not a record boundary of session {SESSION_A}'s run log archive, which is {length} bytes long")
    );
    assert_eq!(
        validated_cursor(&mut file, SESSION_A, Some(length + 1), length).unwrap_err().message(),
        format!(
            "Offset {} is not a record boundary of session {SESSION_A}'s run log archive, which is {length} bytes long",
            length + 1
        )
    );
    assert_eq!(
        validated_cursor(&mut file, SESSION_A, Some(3), length).unwrap_err().message(),
        format!("Offset 3 is not a record boundary of session {SESSION_A}'s run log archive")
    );
}

#[test]
fn bytes_after_the_last_newline_are_left_out_and_said_so() {
    let mut bytes = encoded_lines(&["whole"]);
    bytes.extend_from_slice(b"{\"t\":1,\"s\":\"std");
    let mut file = MemoryFile { bytes, fail: false };
    let length = file.bytes.len() as u64;
    let page = scan_page_backwards(&mut file, SESSION_A, length, 10).expect("a page");
    assert_eq!(texts(&page.records), vec!["whole"]);
    assert!(page.incomplete_tail_skipped);
    assert_eq!(page.stopped_by, PageBound::Start);
}

#[test]
fn a_file_with_no_boundary_yields_no_record() {
    let mut file = MemoryFile { bytes: b"no newline at all".to_vec(), fail: false };
    let page = scan_page_backwards(&mut file, SESSION_A, 17, 10).expect("a page");
    assert!(page.records.is_empty());
    assert_eq!(page.page_start_offset, 0);
    assert!(page.incomplete_tail_skipped);

    let mut empty = MemoryFile { bytes: Vec::new(), fail: false };
    let page = scan_page_backwards(&mut empty, SESSION_A, 0, 10).expect("an empty page");
    assert!(page.records.is_empty());
    assert!(!page.incomplete_tail_skipped);
    assert_eq!(page.stopped_by, PageBound::Start);
}

#[test]
fn a_page_stops_at_its_byte_cap_but_always_carries_one_record() {
    let big = "x".repeat(PAGE_BYTE_CAP / 2 + 10);
    let mut file = MemoryFile { bytes: encoded_lines(&[&big, &big, "small"]), fail: false };
    let length = file.bytes.len() as u64;
    let page = scan_page_backwards(&mut file, SESSION_A, length, 100).expect("a page");
    assert_eq!(page.stopped_by, PageBound::Bytes);
    assert_eq!(page.records.len(), 2);

    let huge = "y".repeat(PAGE_BYTE_CAP + 10);
    let mut alone = MemoryFile { bytes: encoded_lines(&[&huge]), fail: false };
    let length = alone.bytes.len() as u64;
    let page = scan_page_backwards(&mut alone, SESSION_A, length, 100).expect("a page");
    assert_eq!(page.records.len(), 1, "a record larger than the cap is still delivered");
}

#[test]
fn a_read_that_fails_is_reported_rather_than_paged_around() {
    let mut file = MemoryFile { bytes: encoded_lines(&["first"]), fail: true };
    let length = file.bytes.len() as u64;
    assert_eq!(
        scan_page_backwards(&mut file, SESSION_A, length, 10).err().expect("a refusal").message(),
        format!("The run log archive of session {SESSION_A} could not be read: the disk refused")
    );
}

#[test]
fn a_file_that_shrank_under_the_reader_is_reported() {
    let mut file = MemoryFile { bytes: encoded_lines(&["first"]), fail: false };
    let measured = file.bytes.len() as u64 + 40;
    assert_eq!(
        scan_page_backwards(&mut file, SESSION_A, measured, 10).err().expect("a refusal").message(),
        format!("The run log archive of session {SESSION_A} changed while it was being read")
    );
}

/// One page as the viewer receives it, over an archive held in memory: the cursor
/// checked, the page scanned, and every record decoded, a malformed one counted.
struct ViewedPage {
    lines: Vec<String>,
    malformed_lines: i64,
    file_length: u64,
    page_start_offset: u64,
    has_more_before: bool,
    stopped_by: String,
    incomplete_tail_skipped: bool,
}

fn page_over(file: &mut MemoryFile, before_offset: Option<u64>, max_records: Option<usize>) -> Result<ViewedPage, String> {
    let file_length = file.bytes.len() as u64;
    let cursor = validated_cursor(file, SESSION_A, before_offset, file_length).map_err(|e| e.message())?;
    let page = scan_page_backwards(file, SESSION_A, cursor, clamped_page_records(max_records)).map_err(|e| e.message())?;
    let mut lines = Vec::new();
    let mut malformed_lines = 0;
    for raw in &page.records {
        match serde_json::from_slice::<serde_json::Value>(raw).ok().and_then(|v| v["l"].as_str().map(str::to_string)) {
            Some(line) => lines.push(line),
            None => malformed_lines += 1,
        }
    }
    Ok(ViewedPage {
        lines,
        malformed_lines,
        file_length,
        page_start_offset: page.page_start_offset,
        has_more_before: page.page_start_offset > 0,
        stopped_by: page.stopped_by.as_str().to_string(),
        incomplete_tail_skipped: page.incomplete_tail_skipped,
    })
}

fn memory(bytes: Vec<u8>) -> MemoryFile {
    MemoryFile { bytes, fail: false }
}

#[test]
fn every_page_of_an_archive_walks_it_once_from_the_end() {
    let lines: Vec<String> = (0..7).map(|index| format!("line-{index}")).collect();
    let borrowed: Vec<&str> = lines.iter().map(String::as_str).collect();
    let mut file = memory(encoded_lines(&borrowed));

    let mut walked: Vec<String> = Vec::new();
    let mut cursor = None;
    let mut pages = 0;
    loop {
        let page = page_over(&mut file, cursor, Some(3)).expect("a page of the archive");
        pages += 1;
        assert!(pages <= 8, "paging back did not terminate");
        assert_eq!(page.has_more_before, page.stopped_by != "start", "has_more_before and stopped_by disagreed");
        let mut older = page.lines.clone();
        older.append(&mut walked);
        walked = older;
        if !page.has_more_before {
            break;
        }
        cursor = Some(page.page_start_offset);
    }
    assert_eq!(walked, lines, "the walk did not reproduce the archive");
    assert_eq!(pages, 3, "7 records at 3 a page is three pages");
}

#[test]
fn a_cursor_that_is_not_a_record_boundary_is_refused_rather_than_resynced() {
    let contents = encoded_lines(&["alpha", "beta"]);
    let length = contents.len() as u64;
    let mut file = memory(contents.clone());

    let refused = page_over(&mut file, Some(0), None).err().expect("offset zero is not a page");
    assert!(refused.contains(&length.to_string()), "the refusal did not name the file's length: {refused}");
    let beyond = page_over(&mut file, Some(length + 1), None).err().expect("an offset past the end is not a page");
    assert!(beyond.contains(&length.to_string()), "the refusal did not name the file's length: {beyond}");
    let inside = page_over(&mut file, Some(length - 2), None).err().expect("an offset inside a record is not a page");
    assert!(inside.contains("record boundary"), "the refusal did not say why: {inside}");

    let first_end = contents.iter().position(|byte| *byte == b'\n').expect("a terminated record") as u64 + 1;
    let page = page_over(&mut file, Some(first_end), None).expect("a record boundary is a page");
    assert_eq!(page.lines, vec!["alpha"]);
    assert_eq!(page.file_length, length);
}

#[test]
fn a_page_size_is_clamped_at_both_ends_and_never_to_nothing() {
    let lines: Vec<String> = (0..MAX_PAGE_RECORDS + 100).map(|index| format!("record-{index:07}")).collect();
    let borrowed: Vec<&str> = lines.iter().map(String::as_str).collect();
    let contents = encoded_lines(&borrowed);
    assert!(contents.len() > READ_BLOCK_BYTES, "the fixture must outgrow a single backward block");
    let mut file = memory(contents);

    let single = page_over(&mut file, None, Some(0)).expect("a page of one");
    assert_eq!(single.lines.len(), 1);
    assert_eq!(single.stopped_by, "lines");
    assert_eq!(single.lines[0], *lines.last().expect("a seeded record"));

    let greedy = page_over(&mut file, None, Some(usize::MAX)).expect("a capped page");
    assert_eq!(greedy.lines.len(), MAX_PAGE_RECORDS);
    assert_eq!(greedy.stopped_by, "lines");
    assert!(greedy.has_more_before);
    assert_eq!(greedy.lines, lines[100..].to_vec(), "the cap took the wrong end of the file");

    let default = page_over(&mut file, None, None).expect("a page");
    assert_eq!(default.lines.len(), DEFAULT_PAGE_RECORDS);
}

#[test]
fn a_record_that_will_not_decode_is_skipped_counted_and_still_paid_for() {
    let mut contents = encoded_lines(&["good-one"]);
    contents.extend_from_slice(b"not json at all\n");
    contents.extend_from_slice(&[0xff, 0xfe, b'\n']);
    let mut second = encoded_lines(&["good-two"]);
    contents.append(&mut second);
    let mut file = memory(contents);

    let whole = page_over(&mut file, None, Some(10)).expect("a page over the damage");
    assert_eq!(whole.lines, vec!["good-one", "good-two"]);
    assert_eq!(whole.malformed_lines, 2);
    assert_eq!(whole.stopped_by, "start");
    assert!(!whole.has_more_before);
    assert!(!whole.incomplete_tail_skipped);

    let bounded = page_over(&mut file, None, Some(2)).expect("a bounded page");
    assert_eq!(bounded.lines, vec!["good-two"]);
    assert_eq!(bounded.malformed_lines, 1);
    assert_eq!(bounded.stopped_by, "lines");
    assert!(bounded.has_more_before);

    let older = page_over(&mut file, Some(bounded.page_start_offset), Some(10)).expect("the page before it");
    assert_eq!(older.lines, vec!["good-one"]);
    assert_eq!(older.malformed_lines, 1);
    assert!(!older.has_more_before);
}

#[test]
fn bytes_after_the_last_newline_are_not_a_record_and_say_so() {
    let mut contents = encoded_lines(&["good-one", "good-two"]);
    let complete = contents.len() as u64;
    contents.extend_from_slice(br#"{"t":1,"s":"stdout","l":"half a rec"#);
    let length = contents.len() as u64;
    let mut file = memory(contents);

    let page = page_over(&mut file, None, Some(10)).expect("a page over the torn tail");
    assert_eq!(page.lines, vec!["good-one", "good-two"]);
    assert!(page.incomplete_tail_skipped);
    assert_eq!(page.malformed_lines, 0, "a fragment is not a bad record");
    assert_eq!(page.stopped_by, "start");
    assert!(!page.has_more_before);
    assert_eq!(page.file_length, length);

    let again = page_over(&mut file, Some(complete), Some(10)).expect("a page below the fragment");
    assert_eq!(again.lines, page.lines);
    assert!(!again.incomplete_tail_skipped, "nothing was skipped when the cursor already excluded it");
}

#[test]
fn a_file_with_no_record_boundary_at_all_costs_one_page_and_yields_nothing() {
    let contents = vec![b'x'; READ_BLOCK_BYTES * 3];
    let length = contents.len() as u64;
    let mut file = memory(contents);

    let page = page_over(&mut file, None, Some(10)).expect("a page of nothing");
    assert!(page.lines.is_empty());
    assert!(page.incomplete_tail_skipped);
    assert_eq!(page.malformed_lines, 0);
    assert_eq!(page.page_start_offset, 0);
    assert_eq!(page.stopped_by, "start");
    assert!(!page.has_more_before);
    assert_eq!(page.file_length, length);
}

#[test]
fn a_page_stops_at_its_byte_cap_before_it_runs_out_of_records() {
    let bulk = "b".repeat(400 * 1024);
    let lines: Vec<String> = (0..3).map(|index| format!("{index}-{bulk}")).collect();
    let borrowed: Vec<&str> = lines.iter().map(String::as_str).collect();
    let mut file = memory(encoded_lines(&borrowed));

    let page = page_over(&mut file, None, Some(MAX_PAGE_RECORDS)).expect("a page of bulk");
    assert_eq!(page.lines, lines[1..].to_vec());
    assert_eq!(page.stopped_by, "bytes");
    assert!(page.has_more_before);

    let older = page_over(&mut file, Some(page.page_start_offset), Some(MAX_PAGE_RECORDS)).expect("the page before it");
    assert_eq!(older.lines, lines[..1].to_vec());
    assert_eq!(older.stopped_by, "start");
}

#[test]
fn a_record_larger_than_the_whole_byte_cap_is_still_delivered() {
    let huge = "h".repeat(PAGE_BYTE_CAP + 1);
    let mut file = memory(encoded_lines(&["tiny", huge.as_str()]));

    let page = page_over(&mut file, None, None).expect("a page of one very long record");
    assert_eq!(page.lines.len(), 1);
    assert_eq!(page.lines[0].len(), huge.len());
    assert_eq!(page.stopped_by, "bytes");
    assert!(page.has_more_before);

    let older = page_over(&mut file, Some(page.page_start_offset), None).expect("the page before it");
    assert_eq!(older.lines, vec!["tiny"]);
    assert_eq!(older.stopped_by, "start");
    assert!(!older.has_more_before);
}

#[test]
fn an_archive_that_holds_nothing_pages_to_nothing() {
    let mut file = memory(Vec::new());
    let page = page_over(&mut file, None, None).expect("an empty archive still has a page");
    assert!(page.lines.is_empty());
    assert_eq!(page.file_length, 0);
    assert_eq!(page.page_start_offset, 0);
    assert_eq!(page.stopped_by, "start");
    assert!(!page.has_more_before);
    assert!(!page.incomplete_tail_skipped);
    assert_eq!(page.malformed_lines, 0);
    assert!(page_over(&mut file, Some(1), None).is_err(), "an empty archive has no offsets");
}

#[test]
fn a_file_that_shrinks_under_the_reader_is_reported_not_served() {
    let contents = encoded_lines(&["alpha", "beta"]);
    let measured = contents.len() as u64;
    let mut shrunk = contents.clone();
    shrunk.truncate(contents.len() - 1);
    let mut file = memory(shrunk);
    let refused = scan_page_backwards(&mut file, SESSION_A, measured, DEFAULT_PAGE_RECORDS)
        .err()
        .expect("a page of a file that moved")
        .message();
    assert!(refused.contains("changed while it was being read"), "the failure did not say the file moved: {refused}");
}

#[test]
fn decoded_lines_keep_their_order_and_the_rest_are_counted() {

    let (records, malformed) = split_decoded(vec![Some("a"), None, Some("b"), None, None, Some("c")]);
    assert_eq!(records, vec!["a", "b", "c"]);
    assert_eq!(malformed, 3);

    let (none, nothing_malformed) = split_decoded(Vec::<Option<u8>>::new());
    assert!(none.is_empty());
    assert_eq!(nothing_malformed, 0);
}
