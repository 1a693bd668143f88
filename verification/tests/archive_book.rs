use runcove_desktop::archive::book::{ArchiveBook, FrontWrite};
use runcove_desktop::archive::{ArchiveRecord, DropCounters, LogStream, QueueBounds};

const SESSION_A: &str = "0f8fad5b-d9cb-469f-a165-70867728950e";
const SESSION_B: &str = "7c9e6679-7425-40de-944b-e07fc1f90ae7";

fn record(session_id: &str, line: &str) -> ArchiveRecord {
    ArchiveRecord { session_id: session_id.to_string(), stream: LogStream::Stdout, line: line.to_string(), timestamp: 1 }
}

fn open_book(sessions: &[&str]) -> ArchiveBook {
    let mut book = ArchiveBook::new(QueueBounds::default());
    for session in sessions {
        book.slots.take(session).expect("a free slot");
        book.slots.open(session);
    }
    book
}

#[test]
fn a_record_for_a_session_that_is_not_open_is_ignored_and_not_counted() {
    let mut book = ArchiveBook::new(QueueBounds::default());
    assert!(!book.enqueue(record(SESSION_A, "never begun")));
    assert_eq!(book.queue.len(), 0);
    assert_eq!(book.queue.dropped(SESSION_A), DropCounters { lines: 0, bytes: 0 });

    book.slots.take(SESSION_A).expect("a free slot");
    assert!(!book.enqueue(record(SESSION_A, "still opening")), "an opening session takes nothing");
    book.slots.open(SESSION_A);
    assert!(book.enqueue(record(SESSION_A, "open")));
    assert_eq!(book.queue.len(), 1);
}

#[test]
fn a_close_takes_every_record_its_session_accepted_and_nothing_after() {
    let mut book = open_book(&[SESSION_A, SESSION_B]);
    assert!(book.enqueue(record(SESSION_A, "a-1")));
    assert!(book.enqueue(record(SESSION_B, "b-1")));
    book.queue.begin_batch();
    assert!(book.enqueue(record(SESSION_A, "a-2")));

    let (lines, bytes, taken) = book.begin_close(SESSION_A).expect("an open session closes");
    assert_eq!((lines, bytes), (0, 0));
    let texts: Vec<String> = taken.iter().map(|item| item.record.line.clone()).collect();
    assert_eq!(texts, vec!["a-1", "a-2"], "in flight first, then queued, in arrival order");

    assert!(!book.enqueue(record(SESSION_A, "too late")), "the boundary is behind it");
    assert!(book.enqueue(record(SESSION_B, "b-2")), "another session is untouched");
    assert!(book.slots.holds(SESSION_A), "the session is held until its close finishes");

    let second = book.begin_close(SESSION_A).err().expect("a second close is refused");
    assert_eq!(second.message(), format!("Session {SESSION_A} is already closing its archive"));
    for item in taken {
        book.queue.release(&item);
    }
}

#[test]
fn a_stopped_session_charges_what_it_accepted_and_hands_over_its_losses() {
    let mut book = open_book(&[SESSION_A]);
    assert!(book.enqueue(record(SESSION_A, "lost-1")));
    assert!(book.enqueue(record(SESSION_A, "lost-22")));
    let (counts, finished) = book.stop(SESSION_A);
    assert_eq!(counts, Some((0, 0)));
    let finished = finished.expect("nothing of it is left queued");
    assert_eq!(finished.dropped, DropCounters { lines: 2, bytes: 13 });
    assert_eq!(book.queue.len(), 0);
    assert!(!book.enqueue(record(SESSION_A, "after")), "a stopped session takes nothing");

    let (none, finished) = book.stop(SESSION_B);
    assert_eq!(none, None);
    assert_eq!(finished.expect("a session never seen is owed nothing").dropped, DropCounters { lines: 0, bytes: 0 });
}

#[test]
fn the_front_of_a_batch_is_encoded_for_its_session_or_charged_when_none_holds_it() {

    let mut book = open_book(&[SESSION_A]);
    assert!(matches!(book.front_write(), FrontWrite::Empty));
    assert!(book.enqueue(record(SESSION_A, "kept")));
    book.queue.begin_batch();
    match book.front_write() {
        FrontWrite::Ready { write, counted } => {
            assert_eq!(write.session_id, SESSION_A);
            assert_eq!(write.lines, 1);
            assert_eq!(counted, 0);
            let written = book.settle_written(write.lines, write.cost()).expect("the front record");
            assert_eq!(written.record.line, "kept");
            let slot = book.slots.get(SESSION_A).expect("still held");
            assert_eq!((slot.lines, slot.bytes), (1, write.cost()));
        }
        _ => panic!("an open session's record is ready to write"),
    }
    assert_eq!(book.queue.len(), 0, "a written record gives its room back");

    assert!(book.enqueue(record(SESSION_A, "orphaned")));
    book.queue.begin_batch();
    book.slots.release(SESSION_A);
    assert!(matches!(book.front_write(), FrontWrite::Charged));
    assert_eq!(book.queue.len(), 0);
    assert_eq!(book.queue.dropped(SESSION_A), DropCounters { lines: 1, bytes: 8 });
    assert!(matches!(book.front_write(), FrontWrite::Empty));
}
