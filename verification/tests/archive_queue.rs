use runcove_desktop::archive::ledger::settle_written;
use std::collections::BTreeMap;
use runcove_desktop::archive::{
    gap_line, ArchiveQueue, ArchiveRecord, DropCounters, FinishedSession, LogStream, QueueBounds, QueuedRecord,
};

const SESSION_A: &str = "0f8fad5b-d9cb-469f-a165-70867728950e";
const SESSION_B: &str = "7c9e6679-7425-40de-944b-e07fc1f90ae7";
const SESSION_C: &str = "9b1deb4d-3b7d-4bad-9bdd-2b0d7b3dcb6d";

fn record(session_id: &str, line: &str, timestamp: i64) -> ArchiveRecord {
    ArchiveRecord {
        session_id: session_id.to_string(),
        stream: LogStream::Stdout,
        line: line.to_string(),
        timestamp,
    }
}

/// Settle a whole batch the way a successful pump does: begin it, then take and
/// release every record in order.
fn settle_all(queue: &mut ArchiveQueue) -> Vec<QueuedRecord> {
    queue.begin_batch();
    let mut settled = Vec::new();
    while let Some(item) = queue.take_front() {
        queue.release(&item);
        settled.push(item);
    }
    settled
}

/// What a settled batch handed over, for a single-session test: the text of each
/// record and the gap it carries, in order.
fn lines_and_gaps(queue: &mut ArchiveQueue) -> Vec<(String, Option<DropCounters>)> {
    settle_all(queue)
        .into_iter()
        .map(|item| (item.record.line, item.gap_before))
        .collect()
}

/// Bounds wide enough that a test crossing them would be a bug in the test.
fn roomy_bounds() -> QueueBounds {
    QueueBounds {
        session_records: 64,
        session_bytes: 1 << 20,
        total_records: 128,
        total_bytes: 2 << 20,
    }
}

#[test]
fn the_queue_drops_the_incoming_record_and_never_a_queued_one() {
    let mut queue = ArchiveQueue::new(QueueBounds {
        session_records: 2,
        session_bytes: 1_024,
        total_records: 8,
        total_bytes: 4_096,
    });

    assert!(queue.is_empty());
    assert!(queue.enqueue(record(SESSION_A, "first", 1)));
    assert!(queue.enqueue(record(SESSION_A, "second", 2)));
    assert_eq!(queue.len(), 2);

    // The session is full, so the arriving record is the one lost.
    assert!(!queue.enqueue(record(SESSION_A, "third", 3)));
    assert_eq!(queue.len(), 2);
    assert_eq!(
        queue.dropped(SESSION_A),
        DropCounters { lines: 1, bytes: 5 }
    );

    // A different session has its own room.
    assert!(queue.enqueue(record(SESSION_B, "other", 4)));

    let settled: Vec<String> = settle_all(&mut queue)
        .into_iter()
        .map(|item| item.record.line)
        .collect();
    assert_eq!(settled, vec!["first", "second", "other"]);
    assert!(queue.is_empty());
}

#[test]
fn the_queue_enforces_its_byte_bounds_per_session_and_in_total() {
    let mut queue = ArchiveQueue::new(QueueBounds {
        session_records: 16,
        session_bytes: 20,
        total_records: 16,
        total_bytes: 30,
    });

    // Bytes are the archived text, not the JSON encoding around it.
    assert!(queue.enqueue(record(SESSION_A, "0123456789", 1)));
    assert_eq!(queue.queued_bytes(), 10);
    assert!(queue.enqueue(record(SESSION_A, "0123456789", 2)));
    assert_eq!(queue.queued_bytes(), 20);
    assert!(!queue.enqueue(record(SESSION_A, "x", 3)));

    // The total bound has ten bytes left, so a longer record does not fit
    // even though its own session is still empty.
    assert!(!queue.enqueue(record(SESSION_B, "01234567890", 4)));
    assert!(queue.enqueue(record(SESSION_B, "0123456789", 5)));
    assert_eq!(queue.queued_bytes(), 30);
    assert!(!queue.enqueue(record(SESSION_C, "y", 6)));

    assert_eq!(
        queue.dropped(SESSION_A),
        DropCounters { lines: 1, bytes: 1 }
    );
    assert_eq!(
        queue.dropped(SESSION_B),
        DropCounters {
            lines: 1,
            bytes: 11
        }
    );
    assert_eq!(
        queue.dropped(SESSION_C),
        DropCounters { lines: 1, bytes: 1 }
    );

    // The gap owed to a session is taken once.
    assert_eq!(
        queue.take_pending_gap(SESSION_A),
        Some(DropCounters { lines: 1, bytes: 1 })
    );
    assert_eq!(queue.take_pending_gap(SESSION_A), None);
    // Taking the gap does not forget what the session lost.
    assert_eq!(
        queue.dropped(SESSION_A),
        DropCounters { lines: 1, bytes: 1 }
    );
}

#[test]
fn dropping_an_empty_line_counts_one_line_and_no_bytes() {
    // A lone newline is a real captured event whose text is empty, so losing
    // it costs one line and nothing else. The record bound has to be what
    // refuses it: an empty record can never exhaust a byte bound.
    let mut queue = ArchiveQueue::new(QueueBounds {
        session_records: 1,
        session_bytes: 64,
        total_records: 8,
        total_bytes: 512,
    });

    assert!(queue.enqueue(record(SESSION_A, "kept", 1)));
    assert!(!queue.enqueue(record(SESSION_A, "", 2)));

    assert_eq!(queue.queued_bytes(), 4, "the empty record added no bytes");
    assert_eq!(
        queue.dropped(SESSION_A),
        DropCounters { lines: 1, bytes: 0 }
    );
    assert_eq!(
        queue.take_pending_gap(SESSION_A),
        Some(DropCounters { lines: 1, bytes: 0 })
    );
    // What the user is told about the loss, in the same terms.
    assert_eq!(
        gap_line(DropCounters { lines: 1, bytes: 0 }),
        "[RunCove: dropped 1 line / 0 bytes]"
    );
}
#[test]
fn the_queue_counts_utf8_bytes_and_not_characters() {
    // Written with escapes so the counts do not depend on the encoding of
    // this source file.
    const HAN: &str = "\u{4e2d}";
    const ROCKET: &str = "\u{1f680}";
    const COMBINED: &str = "e\u{301}";
    assert_eq!(
        (HAN.len(), ROCKET.len(), COMBINED.len()),
        (3, 4, 3),
        "the premise: these hold three, four, and three UTF-8 bytes"
    );
    assert_eq!(
        (
            HAN.chars().count(),
            ROCKET.chars().count(),
            COMBINED.chars().count()
        ),
        (1, 1, 2),
        "the premise: their character counts are not their byte counts"
    );

    let mut queue = ArchiveQueue::new(QueueBounds {
        session_records: 8,
        session_bytes: 7,
        total_records: 16,
        total_bytes: 64,
    });

    assert!(queue.enqueue(record(SESSION_A, HAN, 1)));
    assert_eq!(queue.queued_bytes(), 3, "one character, three bytes");
    assert!(queue.enqueue(record(SESSION_A, ROCKET, 2)));
    assert_eq!(queue.queued_bytes(), 7, "two characters, seven bytes");

    // The session's seven bytes are spoken for, so a three-byte record does
    // not fit even though six of its eight records are still free.
    assert!(!queue.enqueue(record(SESSION_A, COMBINED, 3)));
    assert_eq!(
        queue.dropped(SESSION_A),
        DropCounters { lines: 1, bytes: 3 },
        "the dropped bytes are the text's UTF-8 length, not its character count"
    );
}
/// The bounds the gap-placement tests share: only the session byte bound ever
/// refuses anything, so which record is lost is decided by its own length and
/// nothing else. Long enough to overflow the session's eight bytes on its own,
/// short enough that two of them plus the kept records stay inside the total.
const OVER_SESSION_BYTES: &str = "toolongtoolong";
const ALSO_OVER: &str = "alsotoolong";

fn gap_bounds() -> QueueBounds {
    QueueBounds {
        session_records: 4,
        session_bytes: 8,
        total_records: 8,
        total_bytes: 64,
    }
}

#[test]
fn two_drop_runs_become_two_carried_gaps_on_two_different_records() {
    // drop, accept, drop, accept: each loss belongs to the record that first
    // survived it, so the file says where each one happened instead of
    // reporting both at one place.
    let mut queue = ArchiveQueue::new(gap_bounds());

    assert!(queue.enqueue(record(SESSION_A, "aa", 1)));
    assert!(!queue.enqueue(record(SESSION_A, OVER_SESSION_BYTES, 2)));
    assert!(queue.enqueue(record(SESSION_A, "bb", 3)));
    assert!(!queue.enqueue(record(SESSION_A, ALSO_OVER, 4)));
    assert!(queue.enqueue(record(SESSION_A, "cc", 5)));

    let first = DropCounters {
        lines: 1,
        bytes: OVER_SESSION_BYTES.len() as i64,
    };
    let second = DropCounters {
        lines: 1,
        bytes: ALSO_OVER.len() as i64,
    };
    assert_ne!(first, second, "the premise: the two runs are told apart");
    assert_eq!(
        lines_and_gaps(&mut queue),
        vec![
            ("aa".to_string(), None),
            ("bb".to_string(), Some(first)),
            ("cc".to_string(), Some(second)),
        ],
        "each run rides out on the first record accepted after it"
    );

    // Both runs left with a record, so nothing is owed at close, and the
    // session's running total is still the sum of the two.
    assert_eq!(queue.take_pending_gap(SESSION_A), None);
    assert_eq!(
        queue.dropped(SESSION_A),
        DropCounters {
            lines: 2,
            bytes: first.bytes + second.bytes
        }
    );
}

#[test]
fn a_contiguous_run_of_drops_becomes_one_gap_on_the_next_accepted_record() {
    // Two losses with nothing kept between them are one gap, not two: the
    // marker stands for a contiguous run, so the file gains one line however
    // long the run was.
    let mut queue = ArchiveQueue::new(gap_bounds());

    assert!(queue.enqueue(record(SESSION_A, "aa", 1)));
    assert!(!queue.enqueue(record(SESSION_A, OVER_SESSION_BYTES, 2)));
    assert!(!queue.enqueue(record(SESSION_A, ALSO_OVER, 3)));
    assert!(queue.enqueue(record(SESSION_A, "bb", 4)));

    let run = DropCounters {
        lines: 2,
        bytes: (OVER_SESSION_BYTES.len() + ALSO_OVER.len()) as i64,
    };
    assert_eq!(
        lines_and_gaps(&mut queue),
        vec![("aa".to_string(), None), ("bb".to_string(), Some(run))],
        "one gap for the run, on the record that ended it"
    );
    assert_eq!(queue.take_pending_gap(SESSION_A), None);
    assert_eq!(queue.dropped(SESSION_A), run);
    // What the one line will say.
    assert_eq!(gap_line(run), "[RunCove: dropped 2 lines / 25 bytes]");
}

#[test]
fn a_trailing_drop_has_no_record_to_carry_it_and_stays_the_residual() {
    // Nothing survived the loss, so there is no record to hang it on. It is
    // the residual, and `close` is what writes it.
    let mut queue = ArchiveQueue::new(gap_bounds());

    assert!(queue.enqueue(record(SESSION_A, "aa", 1)));
    assert!(!queue.enqueue(record(SESSION_A, OVER_SESSION_BYTES, 2)));

    let trailing = DropCounters {
        lines: 1,
        bytes: OVER_SESSION_BYTES.len() as i64,
    };
    assert_eq!(
        lines_and_gaps(&mut queue),
        vec![("aa".to_string(), None)],
        "the record that arrived before the loss carries nothing"
    );
    assert_eq!(queue.take_pending_gap(SESSION_A), Some(trailing));
    assert_eq!(
        queue.take_pending_gap(SESSION_A),
        None,
        "the residual is owed once"
    );
    assert_eq!(queue.dropped(SESSION_A), trailing);
}

#[test]
fn a_pending_gap_survives_a_drain_and_lands_on_the_next_accepted_record() {
    // The loss falls between two pumps: after everything the first drain took
    // and before the first record the second one takes. Carrying it across the
    // drain is what keeps the marker in that spot instead of moving it to the
    // end of the earlier batch.
    let mut queue = ArchiveQueue::new(gap_bounds());

    assert!(queue.enqueue(record(SESSION_A, "aa", 1)));
    assert!(!queue.enqueue(record(SESSION_A, OVER_SESSION_BYTES, 2)));
    assert_eq!(
        lines_and_gaps(&mut queue),
        vec![("aa".to_string(), None)],
        "the first batch carries nothing: the loss came after it"
    );

    let across = DropCounters {
        lines: 1,
        bytes: OVER_SESSION_BYTES.len() as i64,
    };
    assert!(queue.enqueue(record(SESSION_A, "bb", 3)));
    assert_eq!(
        lines_and_gaps(&mut queue),
        vec![("bb".to_string(), Some(across))],
        "the next accepted record picks it up, one drain later"
    );
    assert_eq!(queue.take_pending_gap(SESSION_A), None);
    assert_eq!(queue.dropped(SESSION_A), across);
}

#[test]
fn a_gap_attaches_only_to_a_record_of_its_own_session() {
    // Sessions are separate files, so another session's record is not a place
    // this loss could be reported. It waits for one of its own.
    let mut queue = ArchiveQueue::new(gap_bounds());

    assert!(queue.enqueue(record(SESSION_A, "aa", 1)));
    assert!(!queue.enqueue(record(SESSION_A, OVER_SESSION_BYTES, 2)));
    assert!(queue.enqueue(record(SESSION_B, "bb", 3)));
    assert!(queue.enqueue(record(SESSION_A, "cc", 4)));

    let owed = DropCounters {
        lines: 1,
        bytes: OVER_SESSION_BYTES.len() as i64,
    };
    let settled: Vec<(String, String, Option<DropCounters>)> = settle_all(&mut queue)
        .into_iter()
        .map(|item| (item.record.session_id, item.record.line, item.gap_before))
        .collect();
    assert_eq!(
        settled,
        vec![
            (SESSION_A.to_string(), "aa".to_string(), None),
            (SESSION_B.to_string(), "bb".to_string(), None),
            (SESSION_A.to_string(), "cc".to_string(), Some(owed)),
        ]
    );

    assert_eq!(queue.take_pending_gap(SESSION_A), None);
    assert_eq!(queue.take_pending_gap(SESSION_B), None);
    assert_eq!(queue.dropped(SESSION_A), owed);
    assert_eq!(queue.dropped(SESSION_B), DropCounters::default());
}

fn records_of(kept: &[(&str, &str)], session_id: &str) -> usize {
    kept.iter().filter(|(id, _)| *id == session_id).count()
}
fn bytes_of(kept: &[(&str, &str)], session_id: &str) -> usize {
    kept.iter()
        .filter(|(id, _)| *id == session_id)
        .map(|(_, line)| line.len())
        .sum()
}
fn total_bytes_of(kept: &[(&str, &str)]) -> usize {
    kept.iter().map(|(_, line)| line.len()).sum()
}
/// Reaching a bound exactly still fits; one record or one byte past it
/// does not. So a record fits while the count is still below its bound,
/// and its bytes fit while the total after adding them stays at or under
/// the byte bound.
fn fits(kept: &[(&str, &str)], session_id: &str, line: &str, bounds: QueueBounds) -> bool {
    records_of(kept, session_id) < bounds.session_records
        && bytes_of(kept, session_id) + line.len() <= bounds.session_bytes
        && kept.len() < bounds.total_records
        && total_bytes_of(kept) + line.len() <= bounds.total_bytes
}

/// A deterministic stand-in for a property test, with no new dependency:
/// every sequence of six records drawn from a four-record alphabet, each one
/// checked against a model the test keeps itself. The alphabet meets each of
/// the four bounds exactly and then exceeds it, one of its records is empty,
/// and another is multi-byte, so byte accounting cannot pass here by
/// counting characters.
///
/// The model tracks where each loss ends up as well as how much was lost, so
/// the gap partition is checked over all 4096 sequences rather than only in
/// the hand-written cases above.
#[test]
fn every_short_enqueue_sequence_keeps_the_queues_invariants() {
    const HAN: &str = "\u{4e2d}";
    const LENGTH: usize = 6;
    // (label, session, line), holding 0, 4, 3, and 4 bytes.
    let alphabet = [
        ("A:empty", SESSION_A, ""),
        ("A:abcd", SESSION_A, "abcd"),
        ("B:han", SESSION_B, HAN),
        ("C:xyzw", SESSION_C, "xyzw"),
    ];
    let bounds = QueueBounds {
        session_records: 2,
        session_bytes: 4,
        total_records: 3,
        total_bytes: 8,
    };
    let sessions = [SESSION_A, SESSION_B, SESSION_C];

    for encoded in 0..alphabet.len().pow(LENGTH as u32) {
        let mut sequence = Vec::with_capacity(LENGTH);
        let mut rest = encoded;
        for _ in 0..LENGTH {
            sequence.push(alphabet[rest % alphabet.len()]);
            rest /= alphabet.len();
        }
        let trace = sequence
            .iter()
            .map(|(label, _, _)| *label)
            .collect::<Vec<_>>()
            .join(",");

        let mut queue = ArchiveQueue::new(bounds);
        let mut kept: Vec<(&str, &str)> = Vec::new();
        // The gap each accepted record should be carrying, in the same order
        // as `kept`. Positional on purpose: the contract is not "the session
        // lost this much" but "this record, and no other, carries this run of
        // losses".
        let mut carried: Vec<Option<DropCounters>> = Vec::new();
        // Lost with no accepted record behind it yet. An entry exists only
        // while it is non-empty, so presence is the model's answer to
        // "is a gap pending".
        let mut pending: BTreeMap<&str, DropCounters> = BTreeMap::new();
        let mut lost: BTreeMap<&str, DropCounters> = BTreeMap::new();

        for (step, (_, session_id, line)) in sequence.iter().copied().enumerate() {
            let expected = fits(&kept, session_id, line, bounds);
            let accepted = queue.enqueue(record(session_id, line, step as i64));
            assert_eq!(
                accepted, expected,
                "[{trace}] step {step}: a record is accepted exactly when it stays inside every bound"
            );
            if accepted {
                kept.push((session_id, line));
                carried.push(pending.remove(session_id));
            } else {
                let counters = lost.entry(session_id).or_default();
                counters.lines += 1;
                counters.bytes += line.len() as i64;
                let owed = pending.entry(session_id).or_default();
                owed.lines += 1;
                owed.bytes += line.len() as i64;
            }
            // Nothing already queued is ever given up to make room, and the
            // queue never holds more than a bound allows.
            assert_eq!(
                queue.len(),
                kept.len(),
                "[{trace}] step {step}: queued records"
            );
            assert_eq!(
                queue.queued_bytes(),
                total_bytes_of(&kept),
                "[{trace}] step {step}: queued bytes"
            );
            assert!(
                queue.len() <= bounds.total_records,
                "[{trace}] step {step}: over the total record bound"
            );
            assert!(
                queue.queued_bytes() <= bounds.total_bytes,
                "[{trace}] step {step}: over the total byte bound"
            );
            for each in sessions {
                assert!(
                    records_of(&kept, each) <= bounds.session_records,
                    "[{trace}] step {step}: {each} holds too many records"
                );
                assert!(
                    bytes_of(&kept, each) <= bounds.session_bytes,
                    "[{trace}] step {step}: {each} holds too many bytes"
                );
            }
        }
        let expected_drops =
            |session_id: &str| lost.get(session_id).copied().unwrap_or_default();
        for each in sessions {
            assert_eq!(
                queue.dropped(each),
                expected_drops(each),
                "[{trace}] {each} lost exactly the lines and UTF-8 text bytes of the refused records"
            );
        }

        // A settled batch hands over every kept record in global arrival order and
        // leaves nothing reserved behind. Settling, not draining: room comes back
        // when a record is released or discarded, so "nothing left" is a statement
        // about a batch that finished, not about one that was handed out.
        let settled = settle_all(&mut queue);
        let arrivals: Vec<(&str, &str)> = settled
            .iter()
            .map(|item| (item.record.session_id.as_str(), item.record.line.as_str()))
            .collect();
        assert_eq!(arrivals, kept, "[{trace}] settled in arrival order");
        assert!(queue.is_empty(), "[{trace}] a settled queue holds nothing");
        assert_eq!(queue.len(), 0, "[{trace}] a settled queue holds nothing");
        assert_eq!(
            queue.queued_bytes(),
            0,
            "[{trace}] a settled queue owes no bytes"
        );

        // Each drop run rides out on the first accepted record after it, and
        // on no other. Comparing the whole sequence at once is what pins the
        // placement: a queue that merged two runs, moved one onto a later
        // record, or handed the same run to two records disagrees here even
        // though its per-session totals would still add up.
        let gaps: Vec<Option<DropCounters>> =
            settled.iter().map(|item| item.gap_before).collect();
        assert_eq!(
            gaps, carried,
            "[{trace}] the gap each settled record carries"
        );

        for each in sessions {
            let expected = expected_drops(each);
            // What left with this session's records, and what is still owed
            // because no record came after it.
            let carried_away = settled
                .iter()
                .filter(|item| item.record.session_id == each)
                .filter_map(|item| item.gap_before)
                .fold(DropCounters::default(), |sum, gap| DropCounters {
                    lines: sum.lines + gap.lines,
                    bytes: sum.bytes + gap.bytes,
                });
            let residual = queue.take_pending_gap(each);
            assert_eq!(
                residual,
                pending.get(each).copied(),
                "[{trace}] {each}: the residual is the trailing run, and nothing else"
            );
            assert_ne!(
                residual,
                Some(DropCounters::default()),
                "[{trace}] {each}: an empty gap is None, never Some(zero)"
            );
            // Nothing is lost between the two halves and nothing is counted
            // twice, whichever way the sequence split them.
            let owed = residual.unwrap_or_default();
            assert_eq!(
                DropCounters {
                    lines: carried_away.lines + owed.lines,
                    bytes: carried_away.bytes + owed.bytes,
                },
                expected,
                "[{trace}] {each}: the carried gaps plus the residual are everything it lost"
            );
            assert_eq!(
                queue.take_pending_gap(each),
                None,
                "[{trace}] {each} is owed no second gap"
            );
            assert_eq!(
                queue.dropped(each),
                expected,
                "[{trace}] {each} still remembers what it lost"
            );
        }
    }
}
#[test]
fn a_pending_gap_is_taken_once_and_the_cumulative_total_is_never_cleared() {
    let mut queue = ArchiveQueue::new(QueueBounds {
        session_records: 1,
        session_bytes: 64,
        total_records: 8,
        total_bytes: 512,
    });

    // Each round fills the session's one slot, loses the record behind it,
    // then drains so the round can repeat. The gap belongs to the round; the
    // total belongs to the session. One round loses an empty line.
    let mut total = DropCounters::default();
    for (round, lost) in ["one", "", "three"].iter().enumerate() {
        let at = round as i64 * 10;
        assert!(queue.enqueue(record(SESSION_A, "kept", at + 1)));
        assert!(!queue.enqueue(record(SESSION_A, lost, at + 2)));

        let gap = DropCounters {
            lines: 1,
            bytes: lost.len() as i64,
        };
        total.lines += gap.lines;
        total.bytes += gap.bytes;

        assert_eq!(
            queue.take_pending_gap(SESSION_A),
            Some(gap),
            "round {round}"
        );
        assert_eq!(
            queue.take_pending_gap(SESSION_A),
            None,
            "round {round}: the gap is owed once"
        );
        assert_eq!(queue.dropped(SESSION_A), total, "round {round}");

        settle_all(&mut queue);
        // A batch hands over records, not the drop history.
        assert_eq!(
            queue.dropped(SESSION_A),
            total,
            "round {round} after settling"
        );
        assert_eq!(
            queue.take_pending_gap(SESSION_A),
            None,
            "round {round}: settling a batch does not owe a gap"
        );
    }

    assert_eq!(total, DropCounters { lines: 3, bytes: 8 });
    // A session that lost nothing is owed nothing and remembers nothing.
    assert_eq!(queue.take_pending_gap(SESSION_B), None);
    assert_eq!(queue.dropped(SESSION_B), DropCounters::default());
}

#[test]
fn finishing_a_session_hands_over_its_residual_and_totals_and_forgets_it() {
    // The queue's last word on a session: the run nobody carried plus
    // everything it lost, in one value — and then no entry at all. An entry
    // that outlives its session is a leak the process cannot bound, because
    // a long-lived RunCove runs an unbounded number of sessions.
    let mut queue = ArchiveQueue::new(gap_bounds());

    assert!(queue.enqueue(record(SESSION_A, "aa", 1)));
    assert!(!queue.enqueue(record(SESSION_A, OVER_SESSION_BYTES, 2)));
    // The pump the writer would have done: records leave, the loss stays.
    assert_eq!(lines_and_gaps(&mut queue), vec![("aa".to_string(), None)]);
    assert_eq!(queue.tracked_sessions(), 1, "the premise: it is tracked");

    let lost = DropCounters {
        lines: 1,
        bytes: OVER_SESSION_BYTES.len() as i64,
    };
    assert_eq!(
        queue
            .finish_session(SESSION_A)
            .expect("nothing of this session's is queued"),
        FinishedSession {
            residual_gap: Some(lost),
            dropped: lost,
        },
        "the trailing run and the cumulative total leave together, once"
    );
    assert!(
        queue.tracked_sessions() == 0,
        "the entry is gone: what the queue holds is bounded by open sessions"
    );
    // And it has really forgotten, rather than kept a hollow entry: it now
    // answers exactly as it would for a session it never saw.
    assert_eq!(queue.take_pending_gap(SESSION_A), None);
    assert_eq!(queue.dropped(SESSION_A), DropCounters::default());
}
#[test]
fn a_session_with_queued_records_cannot_be_finished() {
    // Those records are not on disk yet, and their bytes and their carried
    // gaps are still owed to the file. Forgetting the session now would lose
    // both, so the queue refuses and the writer has to pump first.
    let mut queue = ArchiveQueue::new(gap_bounds());

    assert!(queue.enqueue(record(SESSION_A, "aa", 1)));
    assert!(!queue.enqueue(record(SESSION_A, OVER_SESSION_BYTES, 2)));

    assert!(
        queue.finish_session(SESSION_A).is_err(),
        "one queued record is enough to refuse"
    );

    // The refusal took nothing. Everything needed to pump and then finish is
    // still here, which is what makes retrying safe.
    let lost = DropCounters {
        lines: 1,
        bytes: OVER_SESSION_BYTES.len() as i64,
    };
    assert_eq!(queue.tracked_sessions(), 1);
    assert_eq!(queue.len(), 1, "the record is still queued");
    assert_eq!(queue.dropped(SESSION_A), lost);

    assert_eq!(lines_and_gaps(&mut queue), vec![("aa".to_string(), None)]);
    assert_eq!(
        queue
            .finish_session(SESSION_A)
            .expect("the queue was pumped"),
        FinishedSession {
            residual_gap: Some(lost),
            dropped: lost,
        },
        "the same session finishes after the pump, with nothing lost to the refusal"
    );
    assert!(queue.tracked_sessions() == 0);
}
#[test]
fn finishing_one_session_leaves_the_others_untouched() {
    // Sessions are separate files with separate rows. One ending says nothing
    // about another — not about its counters, and not about whether it is
    // ready to end. The refusal is per session, not a property of the queue.
    let mut queue = ArchiveQueue::new(gap_bounds());
    let lost = DropCounters {
        lines: 1,
        bytes: OVER_SESSION_BYTES.len() as i64,
    };

    // A loses a line and is then pumped. B's record arrives afterwards and is
    // still queued, and B loses a line after that, so B holds both a queued
    // record and a residual of its own.
    assert!(queue.enqueue(record(SESSION_A, "aa", 1)));
    assert!(!queue.enqueue(record(SESSION_A, OVER_SESSION_BYTES, 2)));
    settle_all(&mut queue);
    assert!(queue.enqueue(record(SESSION_B, "bb", 3)));
    assert!(!queue.enqueue(record(SESSION_B, OVER_SESSION_BYTES, 4)));

    assert_eq!(
        queue
            .finish_session(SESSION_A)
            .expect("A has nothing queued, whatever B is doing"),
        FinishedSession {
            residual_gap: Some(lost),
            dropped: lost,
        }
    );
    assert_eq!(queue.tracked_sessions(), 1, "only A was forgotten");
    assert_eq!(queue.dropped(SESSION_A), DropCounters::default(), "only A was forgotten");

    assert!(
        queue.finish_session(SESSION_B).is_err(),
        "B is the one with a record queued"
    );
    assert_eq!(queue.dropped(SESSION_B), lost, "B kept its own history");

    assert_eq!(lines_and_gaps(&mut queue), vec![("bb".to_string(), None)]);
    assert_eq!(
        queue.finish_session(SESSION_B).expect("B was pumped"),
        FinishedSession {
            residual_gap: Some(lost),
            dropped: lost,
        },
        "B's residual is its own and survived A's ending"
    );
    assert!(queue.tracked_sessions() == 0);
}
#[test]
fn a_session_can_only_be_finished_once() {
    // A second hand-over is what would write the gap line twice and count the
    // same losses into the row twice. There is nothing left to take, and the
    // queue says so instead of guessing.
    let mut queue = ArchiveQueue::new(gap_bounds());
    let lost = DropCounters {
        lines: 1,
        bytes: OVER_SESSION_BYTES.len() as i64,
    };

    assert!(!queue.enqueue(record(SESSION_A, OVER_SESSION_BYTES, 1)));
    assert_eq!(
        queue.finish_session(SESSION_A).expect("nothing is queued"),
        FinishedSession {
            residual_gap: Some(lost),
            dropped: lost,
        }
    );
    assert_eq!(
        queue
            .finish_session(SESSION_A)
            .expect("finishing a forgotten session is not an error"),
        FinishedSession::default(),
        "no gap to write again, no total to count again"
    );
    // A session this queue never saw answers the same way, which is what
    // makes forgetting safe: there is one answer for "owed nothing".
    assert_eq!(
        queue.finish_session(SESSION_C).expect("an unknown session"),
        FinishedSession::default()
    );
    assert!(queue.tracked_sessions() == 0, "and neither call left an entry");
}
#[test]
fn finishing_sessions_keeps_the_queue_from_accumulating_them() {
    // The regression this operation exists for. A RunCove process runs an
    // unbounded number of sessions over its lifetime, so what the queue
    // remembers has to be bounded by the sessions that are open, not by the
    // ones that have ended.
    let mut queue = ArchiveQueue::new(gap_bounds());
    let lost = DropCounters {
        lines: 1,
        bytes: OVER_SESSION_BYTES.len() as i64,
    };
    let owed = FinishedSession {
        residual_gap: Some(lost),
        dropped: lost,
    };
    let ids: Vec<String> = (0..50)
        .map(|n| format!("{n:08x}-d9cb-469f-a165-70867728950e"))
        .collect();

    // Fifty at once. The map is allowed to hold them: they are open.
    for (n, id) in ids.iter().enumerate() {
        assert!(!queue.enqueue(record(id, OVER_SESSION_BYTES, n as i64)));
    }
    assert_eq!(
        queue.tracked_sessions(),
        ids.len(),
        "open sessions are what it holds"
    );

    for id in &ids {
        assert_eq!(
            queue.finish_session(id).expect("nothing is queued"),
            owed,
            "{id}"
        );
    }
    assert!(
        queue.tracked_sessions() == 0,
        "a finished batch leaves no entries behind"
    );

    // And run one after another, it never holds more than the one running.
    for (n, id) in ids.iter().enumerate() {
        let at = 1_000 + n as i64;
        assert!(queue.enqueue(record(id, "aa", at)));
        assert!(!queue.enqueue(record(id, OVER_SESSION_BYTES, at + 1)));
        assert_eq!(queue.tracked_sessions(), 1, "while {id} runs");
        settle_all(&mut queue);
        assert_eq!(queue.finish_session(id).expect("pumped"), owed, "{id}");
        assert!(queue.tracked_sessions() == 0, "after {id}");
    }
    assert_eq!(queue.len(), 0);
    assert_eq!(queue.queued_bytes(), 0);
}
#[test]
fn a_record_after_a_finish_starts_a_fresh_entry() {
    // The cost of forgetting, stated so the writer's obligation is a test and
    // not a comment: a finish is final, so a record that arrives after one is
    // a new session's worth of history. It carries no gap and reports no
    // losses, because the run that was owed left with the finish and must not
    // be written twice. The writer therefore finishes a session only once its
    // capture threads are done with it.
    let mut queue = ArchiveQueue::new(gap_bounds());
    let lost = DropCounters {
        lines: 1,
        bytes: OVER_SESSION_BYTES.len() as i64,
    };

    assert!(queue.enqueue(record(SESSION_A, "aa", 1)));
    assert!(!queue.enqueue(record(SESSION_A, OVER_SESSION_BYTES, 2)));
    assert_eq!(lines_and_gaps(&mut queue), vec![("aa".to_string(), None)]);
    assert_eq!(
        queue.finish_session(SESSION_A).expect("pumped"),
        FinishedSession {
            residual_gap: Some(lost),
            dropped: lost,
        }
    );
    assert!(queue.tracked_sessions() == 0);

    // A late record. The queue has no reason to refuse it, and no history to
    // give it.
    assert!(queue.enqueue(record(SESSION_A, "bb", 3)));
    assert_eq!(queue.tracked_sessions(), 1, "a fresh entry, not a resurrection");
    assert_eq!(
        queue.dropped(SESSION_A),
        DropCounters::default(),
        "the losses were already handed over once"
    );
    assert_eq!(
        lines_and_gaps(&mut queue),
        vec![("bb".to_string(), None)],
        "a record after a finish carries no gap"
    );
    assert_eq!(
        queue.finish_session(SESSION_A).expect("pumped"),
        FinishedSession::default(),
        "and the second finish is owed nothing"
    );
    assert!(queue.tracked_sessions() == 0);
}

/// The retry contract, at the queue's own level: a pump that fails must leave the
/// records it could not write exactly where they were, and the next pump must get
/// the same ones in the same order.
///
/// That is why neither [`ArchiveQueue::begin_batch`] nor
/// [`ArchiveQueue::take_front`] frees anything. The queue owns every record until
/// it is settled, so a failed pump needs no undo — there is nothing to put back,
/// and no local batch to lose when it returns. [`ArchiveQueue::release`] and
/// [`ArchiveQueue::discard`] are the only two calls that free room, and exactly one
/// of them settles each record.
#[test]
fn a_failed_batch_stays_in_flight_and_the_next_batch_appends_behind_it() {
    let mut queue = ArchiveQueue::new(roomy_bounds());

    assert!(queue.enqueue(record(SESSION_A, "a1", 1)));
    assert!(queue.enqueue(record(SESSION_A, "a2", 2)));
    assert_eq!(queue.len(), 2);
    assert_eq!(queue.queued_bytes(), 4);
    // Nothing is in flight until a pump asks for a batch.
    assert_eq!(queue.peek_front(), None);

    // Asking for one hands nothing over and frees nothing.
    queue.begin_batch();
    assert_eq!(
        queue.len(),
        2,
        "a batch is still the queue's to account for"
    );
    assert_eq!(queue.queued_bytes(), 4);
    assert!(!queue.is_empty());
    assert_eq!(queue.peek_front(), Some((SESSION_A, 2)));

    // The pump takes the front record to write it. Its room stays charged for as
    // long as its fate is undecided.
    let first = queue.take_front().expect("the front record");
    assert_eq!(first.record.line, "a1");
    assert_eq!(queue.len(), 2, "a taken record is not a freed record");
    assert_eq!(queue.queued_bytes(), 4);
    assert_eq!(queue.peek_front(), Some((SESSION_A, 2)), "now a2");
    assert!(
        queue.finish_session(SESSION_A).is_err(),
        "a session with records in flight cannot be finished"
    );

    queue.release(&first);
    assert_eq!(queue.len(), 1);
    assert_eq!(queue.queued_bytes(), 2);

    // Here the pump fails and returns, leaving `a2` in flight and unsettled. A
    // capture thread hands over one more record, and the next pump asks for a
    // batch again.
    assert!(queue.enqueue(record(SESSION_A, "a3", 3)));
    assert_eq!(queue.len(), 2);
    queue.begin_batch();

    let mut written = Vec::new();
    while let Some(front) = queue.take_front() {
        written.push(front.record.line.clone());
        queue.release(&front);
    }
    assert_eq!(
        written,
        vec!["a2".to_string(), "a3".to_string()],
        "the retry resumes where it stopped, and the new record queues behind it"
    );

    assert!(queue.is_empty());
    assert_eq!(queue.len(), 0);
    assert_eq!(queue.queued_bytes(), 0);
    assert_eq!(queue.peek_front(), None);
    // Nothing was lost along the way: a retry is not a drop.
    assert_eq!(queue.dropped(SESSION_A), DropCounters::default());
    assert_eq!(
        queue.finish_session(SESSION_A).expect("everything settled"),
        FinishedSession::default()
    );
}

/// Every one of the four bounds counts a record that is in flight, because a record
/// whose fate is undecided is still occupying memory. If any of them stopped
/// counting it, a long run of failing pumps would admit an unbounded number of
/// records behind the batch it cannot write — which is the whole thing the bounds
/// exist to prevent.
///
/// One case per bound, each set so that only that bound can be the one refusing:
/// the per-session cases ask again as the same session, the total cases ask as
/// another one whose own room is untouched.
#[test]
fn an_in_flight_batch_counts_against_all_four_bounds() {
    for (bound, bounds, asking) in [
        (
            "session_records",
            QueueBounds {
                session_records: 1,
                session_bytes: 1 << 20,
                total_records: 64,
                total_bytes: 1 << 20,
            },
            SESSION_A,
        ),
        (
            "session_bytes",
            QueueBounds {
                session_records: 64,
                session_bytes: 2,
                total_records: 64,
                total_bytes: 1 << 20,
            },
            SESSION_A,
        ),
        (
            "total_records",
            QueueBounds {
                session_records: 64,
                session_bytes: 1 << 20,
                total_records: 1,
                total_bytes: 1 << 20,
            },
            SESSION_B,
        ),
        (
            "total_bytes",
            QueueBounds {
                session_records: 64,
                session_bytes: 1 << 20,
                total_records: 64,
                total_bytes: 2,
            },
            SESSION_B,
        ),
    ] {
        let mut queue = ArchiveQueue::new(bounds);
        assert!(queue.enqueue(record(SESSION_A, "aa", 1)), "{bound}");

        // In flight, and still charged, so the next record does not fit.
        queue.begin_batch();
        assert!(
            !queue.enqueue(record(asking, "bb", 2)),
            "{bound}: in flight"
        );
        assert_eq!(
            queue.dropped(asking),
            DropCounters { lines: 1, bytes: 2 },
            "{bound}: the refused record is the asking session's loss"
        );

        // Taken by the pump and not yet settled, which is the same answer: the
        // record still exists and still costs what it cost.
        let front = queue.take_front().expect("the front record");
        assert!(!queue.enqueue(record(asking, "cc", 3)), "{bound}: taken");

        // Settled, so the room comes back and the next record fits.
        queue.release(&front);
        assert!(queue.enqueue(record(asking, "dd", 4)), "{bound}: released");

        assert_eq!(
            queue.dropped(asking),
            DropCounters { lines: 2, bytes: 4 },
            "{bound}: two refusals, and no third"
        );
        assert_eq!(
            queue.take_pending_gap(asking),
            None,
            "{bound}: the accepted record carried both losses out"
        );
    }
}

/// A discarded carrier's gap goes back to `pending`, and to nothing else.
///
/// The loss it carries was counted the moment [`ArchiveQueue::enqueue`] refused the
/// lines it stands for, so adding it to `dropped` again here would report the same
/// lost lines twice — and the row's drop counters are the only account of them that
/// anyone will ever read. Returning it to `pending` is what keeps it attached to
/// whatever survives next, or to the residual gap at close.
#[test]
fn discarding_a_gap_carrier_does_not_count_the_carried_loss_twice() {
    let mut queue = ArchiveQueue::new(gap_bounds());
    let refused = DropCounters {
        lines: 1,
        bytes: OVER_SESSION_BYTES.len() as i64,
    };

    // A loss, then the record that has to carry it out to the file.
    assert!(!queue.enqueue(record(SESSION_A, OVER_SESSION_BYTES, 1)));
    assert!(queue.enqueue(record(SESSION_A, "aa", 2)));
    assert_eq!(queue.dropped(SESSION_A), refused);

    queue.begin_batch();
    let carrier = queue.take_front().expect("the carrier");
    assert_eq!(carrier.gap_before, Some(refused));

    // The write failed, so this carrier will never reach the disk.
    queue.discard(carrier);
    let both = DropCounters {
        lines: refused.lines + 1,
        bytes: refused.bytes + 2,
    };
    assert_eq!(
        queue.dropped(SESSION_A),
        both,
        "the discarded record is a new loss; the one it carried was already counted"
    );
    assert_eq!(queue.len(), 0, "a discarded record frees its room");
    assert_eq!(queue.queued_bytes(), 0);

    // The gap is still owed, so the next record to survive carries both losses at
    // once — one gap line, not two, and none of it counted twice.
    assert!(queue.enqueue(record(SESSION_A, "bb", 3)));
    queue.begin_batch();
    let next = queue.take_front().expect("the next record");
    assert_eq!(next.gap_before, Some(both));
    queue.release(&next);
    assert_eq!(
        queue.finish_session(SESSION_A).expect("everything settled"),
        FinishedSession {
            residual_gap: None,
            dropped: both,
        },
        "the cumulative total is both losses, counted once each"
    );
}

/// A session whose file has just failed takes its own in-flight records down with
/// it and leaves every other session's alone.
///
/// The close path needs exactly this: [`ArchiveQueue::finish_session`] refuses while
/// any of the session's records are still counted against it, and after a write
/// error there is no file left to write them to. Their loss is owed to the row's
/// drop counters; the residual gap it also reports cannot be written for the same
/// reason the records cannot, so the write-error close is the one caller that
/// answers it with nothing.
#[test]
fn discarding_one_sessions_in_flight_records_leaves_the_others_alone() {
    let mut queue = ArchiveQueue::new(roomy_bounds());
    let lost = DropCounters { lines: 2, bytes: 4 };

    // Interleaved, so a discard that walked the batch by position rather than by
    // session would take the wrong records.
    assert!(queue.enqueue(record(SESSION_A, "a1", 1)));
    assert!(queue.enqueue(record(SESSION_B, "b1", 2)));
    assert!(queue.enqueue(record(SESSION_A, "a2", 3)));
    assert!(queue.enqueue(record(SESSION_B, "b2", 4)));
    queue.begin_batch();

    queue.discard_session(SESSION_A);
    assert_eq!(
        queue.dropped(SESSION_A),
        lost,
        "both of the failed session's records are counted losses"
    );
    assert_eq!(queue.dropped(SESSION_B), DropCounters::default());
    assert_eq!(queue.len(), 2, "only the failed session's room came back");
    assert_eq!(queue.queued_bytes(), 4);

    // This is the write-error close, in the order the writer will do it: discard the
    // failed session's records, then finish its entry for the row's counters — while
    // the other session's batch is still mid-flight. The residual gap comes back
    // because the queue owes it; the write-error close is the one caller that has
    // nowhere to write it and must answer it with nothing.
    assert_eq!(
        queue
            .finish_session(SESSION_A)
            .expect("nothing of A's is still in flight"),
        FinishedSession {
            residual_gap: Some(lost),
            dropped: lost,
        },
        "the discarded records are owed to the row"
    );
    assert_eq!(
        queue.len(),
        2,
        "finishing one session leaves the other's batch alone"
    );

    let mut written = Vec::new();
    while let Some(front) = queue.take_front() {
        written.push(front.record.line.clone());
        queue.release(&front);
    }
    assert_eq!(
        written,
        vec!["b1".to_string(), "b2".to_string()],
        "the discard took the failed session's records and nothing else, in order"
    );

    assert_eq!(
        queue
            .finish_session(SESSION_B)
            .expect("everything of B's settled"),
        FinishedSession::default(),
        "the session whose file was fine lost nothing"
    );
    assert!(queue.is_empty());
    assert_eq!(queue.queued_bytes(), 0);
    assert!(queue.tracked_sessions() == 0);
}

#[test]
fn settling_a_close_releases_what_was_written_and_charges_the_rest() {

    let mut queue = ArchiveQueue::new(roomy_bounds());
    assert!(queue.enqueue(record(SESSION_A, "one", 1)));
    assert!(queue.enqueue(record(SESSION_A, "three", 2)));
    assert!(queue.enqueue(record(SESSION_A, "fiver", 3)));
    let taken: Vec<QueuedRecord> = queue.take_session(SESSION_A).into_iter().collect();
    assert_eq!(taken.len(), 3);

    // The first write landed; the second failed, so it and the third are lost.
    settle_written(&mut queue, taken, 1);
    assert_eq!(queue.len(), 0);
    assert_eq!(queue.queued_bytes(), 0);
    assert_eq!(queue.dropped(SESSION_A), DropCounters { lines: 2, bytes: 10 });
}

#[test]
fn settling_a_close_that_wrote_everything_loses_nothing() {

    let mut queue = ArchiveQueue::new(roomy_bounds());
    assert!(queue.enqueue(record(SESSION_B, "alpha", 1)));
    assert!(queue.enqueue(record(SESSION_B, "beta", 2)));
    let taken: Vec<QueuedRecord> = queue.take_session(SESSION_B).into_iter().collect();
    settle_written(&mut queue, taken, 2);
    assert!(queue.is_empty());
    assert_eq!(queue.dropped(SESSION_B), DropCounters::default());
}

#[test]
fn a_refused_record_and_a_discarded_one_each_add_one_loss() {
    let mut queue = ArchiveQueue::new(QueueBounds {
        session_records: 1,
        session_bytes: 64,
        total_records: 8,
        total_bytes: 512,
    });
    assert!(queue.enqueue(record(SESSION_C, "kept", 1)));
    assert!(!queue.enqueue(record(SESSION_C, "refused", 2)));
    assert_eq!(queue.dropped(SESSION_C), DropCounters { lines: 1, bytes: 7 });
    queue.begin_batch();
    let item = queue.take_front().expect("the front record");
    queue.discard(item);
    assert_eq!(queue.dropped(SESSION_C), DropCounters { lines: 2, bytes: 11 });
}
