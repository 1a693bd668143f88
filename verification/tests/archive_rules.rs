use runcove_desktop::archive::{
    archive_file_name, encode_record, gap_line, is_archive_file_name, verified_file_name, ArchiveCounters,
    ArchiveReason, ArchiveRecord, ArchiveRow, ArchiveStatus, DropCounters, LogStream, QueueBounds, QuotaLimits,
    ARCHIVE_DIR_NAME, ARCHIVE_FILE_EXTENSION, SESSION_BYTE_CAP, SESSION_QUEUE_BYTES, SESSION_QUEUE_RECORDS,
    TOTAL_BYTE_CAP, TOTAL_QUEUE_BYTES, TOTAL_QUEUE_RECORDS, WRITE_BUFFER_BYTES,
};

const SESSION_A: &str = "0f8fad5b-d9cb-469f-a165-70867728950e";
const SESSION_B: &str = "7c9e6679-7425-40de-944b-e07fc1f90ae7";

fn name_of(session_id: &str) -> String {
    format!("{session_id}.{ARCHIVE_FILE_EXTENSION}")
}

fn rejected_file_names() -> Vec<String> {
    let uuid = SESSION_A;
    vec![
        String::new(),
        ".".into(),
        "..".into(),
        format!("C:\\{uuid}.jsonl"),
        format!("\\\\?\\C:\\{uuid}.jsonl"),
        format!("\\\\server\\share\\{uuid}.jsonl"),
        format!("/{uuid}.jsonl"),
        format!("\\{uuid}.jsonl"),
        format!("C:{uuid}.jsonl"),
        format!("..\\{uuid}.jsonl"),
        format!("../{uuid}.jsonl"),
        format!("logs\\{uuid}.jsonl"),
        format!("logs/{uuid}.jsonl"),
        format!("{uuid}.jsonl\\"),
        format!("{uuid}.jsonl/"),
        format!("{uuid}.jsonl "),
        format!("{uuid}.jsonl."),
        format!("{uuid}.jsonl:stream"),
        format!("{uuid}.jsonl.txt"),
        format!("{uuid}.JSONL"),
        format!("{uuid}"),
        SESSION_A.to_uppercase(),
        format!("{}.jsonl", SESSION_A.to_uppercase()),
        format!("{}.jsonl", &uuid[..uuid.len() - 1]),
        format!("{uuid}x.jsonl"),
        "CON.jsonl".into(),
        "runcove.sqlite3".into(),
        "notes.txt".into(),
    ]
}

fn seeded_row(
    session_id: &str,
    status: &str,
    reason: Option<&str>,
    byte_size: i64,
) -> ArchiveRow {
    ArchiveRow {
        session_id: session_id.to_string(),
        file_name: name_of(session_id),
        status: status.to_string(),
        reason: reason.map(str::to_string),
        counters: ArchiveCounters {
            line_count: 0,
            byte_size,
            dropped_lines: 0,
            dropped_bytes: 0,
        },
        started_at: 1_000,
        ended_at: if status == "writing" {
            None
        } else {
            Some(2_000)
        },
    }
}

/// The database strings, written out here independently of the code under
/// test, so a test compares against an expectation rather than against
/// itself.
fn status_text(status: ArchiveStatus) -> &'static str {
    match status {
        ArchiveStatus::Writing => "writing",
        ArchiveStatus::Complete => "complete",
        ArchiveStatus::Partial => "partial",
        ArchiveStatus::Removed => "removed",
    }
}

fn reason_text(reason: ArchiveReason) -> &'static str {
    match reason {
        ArchiveReason::WriteError => "write-error",
        ArchiveReason::QuotaExceeded => "quota-exceeded",
        ArchiveReason::QueueOverflow => "queue-overflow",
        ArchiveReason::Interrupted => "interrupted",
        ArchiveReason::UserDisabled => "user-disabled",
        ArchiveReason::QuotaEvicted => "quota-evicted",
        ArchiveReason::UserDeleted => "user-deleted",
        ArchiveReason::FileMissing => "file-missing",
    }
}


#[test]
fn the_file_name_rule_accepts_only_a_name_this_build_generates() {
    let generated = archive_file_name(SESSION_A).expect("a generated session id");
    assert_eq!(generated, name_of(SESSION_A));

    // The positive control: a rule that refuses everything is not a rule.
    assert!(is_archive_file_name(&generated));
    assert!(is_archive_file_name(&name_of(SESSION_B)));

    for rejected in rejected_file_names() {
        assert!(!is_archive_file_name(&rejected), "accepted {rejected:?}");
    }

    assert!(archive_file_name("not-a-uuid").is_err());
    assert!(archive_file_name(&format!("..\\{SESSION_A}")).is_err());
}


#[test]
fn a_row_may_only_name_the_file_its_own_session_generates() {
    // The name this build would have generated is the only one accepted.
    let owned = seeded_row(SESSION_A, "complete", None, 10);
    assert_eq!(
        verified_file_name(SESSION_A, &owned).expect("the generated name"),
        name_of(SESSION_A)
    );

    // Another session's archive, reached through this session's row.
    let mut borrowed = seeded_row(SESSION_A, "complete", None, 10);
    borrowed.file_name = name_of(SESSION_B);
    assert!(verified_file_name(SESSION_A, &borrowed).is_err());

    // A row belonging to a different session than the one asked about.
    let other = seeded_row(SESSION_B, "complete", None, 10);
    assert!(verified_file_name(SESSION_A, &other).is_err());

    // A session id this build could not have produced has no valid name at
    // all, whatever the row says.
    let mut shouting = seeded_row(SESSION_A, "complete", None, 10);
    shouting.session_id = SESSION_A.to_uppercase();
    shouting.file_name = name_of(&SESSION_A.to_uppercase());
    assert!(verified_file_name(&SESSION_A.to_uppercase(), &shouting).is_err());

    // Every name this build could not have generated, carried by a row that
    // is otherwise ordinary.
    for name in rejected_file_names() {
        let mut row = seeded_row(SESSION_A, "complete", None, 10);
        row.file_name = name.clone();
        assert!(
            verified_file_name(SESSION_A, &row).is_err(),
            "accepted {name:?}"
        );
    }
}

#[test]
fn archive_status_and_reason_round_trip_their_database_strings() {
    for status in [
        ArchiveStatus::Writing,
        ArchiveStatus::Complete,
        ArchiveStatus::Partial,
        ArchiveStatus::Removed,
    ] {
        let text = status_text(status);
        assert_eq!(status.as_str(), text);
        assert_eq!(ArchiveStatus::parse(text), Some(status));
    }

    for reason in [
        ArchiveReason::WriteError,
        ArchiveReason::QuotaExceeded,
        ArchiveReason::QueueOverflow,
        ArchiveReason::Interrupted,
        ArchiveReason::UserDisabled,
        ArchiveReason::QuotaEvicted,
        ArchiveReason::UserDeleted,
        ArchiveReason::FileMissing,
    ] {
        let text = reason_text(reason);
        assert_eq!(reason.as_str(), text);
        assert_eq!(ArchiveReason::parse(text), Some(reason));
    }

    // A value a newer build wrote is unknown, not an error to crash on.
    assert_eq!(ArchiveStatus::parse("archived"), None);
    assert_eq!(ArchiveReason::parse("disk-full"), None);
    assert_eq!(ArchiveStatus::parse("Writing"), None);
}

#[test]
fn the_most_severe_partial_reason_wins() {
    const QUEUE_OVERFLOW: ArchiveReason = ArchiveReason::QueueOverflow;
    const QUOTA_EXCEEDED: ArchiveReason = ArchiveReason::QuotaExceeded;
    const WRITE_ERROR: ArchiveReason = ArchiveReason::WriteError;

    assert_eq!(
        ArchiveReason::most_severe(QUEUE_OVERFLOW, WRITE_ERROR),
        WRITE_ERROR
    );
    assert_eq!(
        ArchiveReason::most_severe(WRITE_ERROR, QUEUE_OVERFLOW),
        WRITE_ERROR
    );
    assert_eq!(
        ArchiveReason::most_severe(QUEUE_OVERFLOW, QUOTA_EXCEEDED),
        QUOTA_EXCEEDED
    );
    assert_eq!(
        ArchiveReason::most_severe(WRITE_ERROR, WRITE_ERROR),
        WRITE_ERROR
    );
}

/// The documented severity order, most severe first.
const SEVERITY_ORDER: [ArchiveReason; 8] = [
    ArchiveReason::WriteError,
    ArchiveReason::QuotaExceeded,
    ArchiveReason::QueueOverflow,
    ArchiveReason::Interrupted,
    ArchiveReason::FileMissing,
    ArchiveReason::QuotaEvicted,
    ArchiveReason::UserDeleted,
    ArchiveReason::UserDisabled,
];

/// Where a reason sits in the documented order, as an exhaustive match rather
/// than a lookup, so a reason added without being placed in that order fails
/// to compile instead of quietly ranking itself.
fn documented_rank(reason: ArchiveReason) -> usize {
    match reason {
        ArchiveReason::WriteError => 0,
        ArchiveReason::QuotaExceeded => 1,
        ArchiveReason::QueueOverflow => 2,
        ArchiveReason::Interrupted => 3,
        ArchiveReason::FileMissing => 4,
        ArchiveReason::QuotaEvicted => 5,
        ArchiveReason::UserDeleted => 6,
        ArchiveReason::UserDisabled => 7,
    }
}

/// Every pair, checked against the documented order rather than against the
/// private `severity` numbers: this fails if those numbers ever move without
/// the documented order moving with them.
#[test]
fn the_most_severe_reason_is_the_documented_order_over_every_pair() {
    for (rank, reason) in SEVERITY_ORDER.into_iter().enumerate() {
        assert_eq!(
            documented_rank(reason),
            rank,
            "{reason:?} sits at two different places in the documented order"
        );
    }

    for first in SEVERITY_ORDER {
        for second in SEVERITY_ORDER {
            let winner = ArchiveReason::most_severe(first, second);
            let expected = if documented_rank(first) <= documented_rank(second) {
                first
            } else {
                second
            };
            assert_eq!(
                winner, expected,
                "most_severe({first:?}, {second:?}) must be whichever comes first in the documented order"
            );
            // Which of the two arrived first must never decide the answer: a
            // session collects its reasons in whatever order they happen.
            assert_eq!(winner, ArchiveReason::most_severe(second, first));
        }
    }
}


#[test]
fn the_documented_bounds_are_the_ones_the_defaults_use() {
    assert_eq!(ARCHIVE_DIR_NAME, "run-log-archives");
    assert_eq!(ARCHIVE_FILE_EXTENSION, "jsonl");
    assert_eq!(SESSION_BYTE_CAP, 10 * 1024 * 1024);
    assert_eq!(TOTAL_BYTE_CAP, 200 * 1024 * 1024);
    assert_eq!(SESSION_QUEUE_RECORDS, 2_048);
    assert_eq!(SESSION_QUEUE_BYTES, 4 * 1024 * 1024);
    assert_eq!(TOTAL_QUEUE_RECORDS, 4_096);
    assert_eq!(TOTAL_QUEUE_BYTES, 8 * 1024 * 1024);
    assert_eq!(WRITE_BUFFER_BYTES, 64 * 1024);

    assert_eq!(
        QueueBounds::default(),
        QueueBounds {
            session_records: SESSION_QUEUE_RECORDS,
            session_bytes: SESSION_QUEUE_BYTES,
            total_records: TOTAL_QUEUE_RECORDS,
            total_bytes: TOTAL_QUEUE_BYTES,
        }
    );
    assert_eq!(
        QuotaLimits::default(),
        QuotaLimits {
            session_bytes: SESSION_BYTE_CAP,
            total_bytes: TOTAL_BYTE_CAP,
        }
    );
}

#[test]
fn the_json_lines_record_carries_the_decoded_text_unchanged() {
    let line = "tab\there, \"quoted\", back\\slash, \u{fffd}, end";
    let encoded = encode_record(&ArchiveRecord {
        session_id: SESSION_A.to_string(),
        stream: LogStream::Stderr,
        line: line.to_string(),
        timestamp: 7,
    });

    // One record is one line, so nothing may contain a raw newline.
    assert!(!encoded.contains('\n'));
    let parsed: serde_json::Value =
        serde_json::from_str(&encoded).expect("one JSON object per line");
    assert_eq!(parsed["t"], 7);
    assert_eq!(parsed["s"], "stderr");
    assert_eq!(parsed["l"], line);
}

/// A captured line may carry the very characters that end lines. The encoding
/// has to keep them inside the JSON string and out of the file's line
/// structure, or one record would become two on the way in and neither of them
/// would parse on the way out.
#[test]
fn a_carriage_return_in_the_text_never_becomes_a_line_of_its_own() {
    let line = "first\rsecond\r\nthird\nfourth\u{0}fifth";
    let encoded = encode_record(&ArchiveRecord {
        session_id: SESSION_A.to_string(),
        stream: LogStream::Stdout,
        line: line.to_string(),
        timestamp: 11,
    });

    // One record is one line: the only newline in the file is the one the
    // writer appends after this string.
    assert_eq!(encoded.lines().count(), 1);
    assert!(!encoded.contains('\n'));
    assert!(!encoded.contains('\r'));
    assert!(encoded.contains("\\r\\n"));

    let parsed: serde_json::Value =
        serde_json::from_str(&encoded).expect("one JSON object per line");
    assert_eq!(parsed["t"], 11);
    assert_eq!(parsed["s"], "stdout");
    // What a reader hands back is what the process printed, byte for byte.
    assert_eq!(parsed["l"], line);
}


#[test]
fn a_gap_line_reports_the_lines_and_bytes_lost() {
    assert_eq!(
        gap_line(DropCounters {
            lines: 41,
            bytes: 6_218
        }),
        "[RunCove: dropped 41 lines / 6218 bytes]"
    );
    // The line is shown to a user, so it is written as English.
    assert_eq!(
        gap_line(DropCounters { lines: 1, bytes: 1 }),
        "[RunCove: dropped 1 line / 1 byte]"
    );
}

