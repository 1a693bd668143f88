//! The opt-in run log archive.

pub mod status;
pub mod record;
pub mod queue;
pub mod encode;
pub mod names;
pub mod page;
pub mod order;
pub mod sorted;
pub mod sweep;
pub mod writer;
pub mod service;
pub mod slots;
pub mod ledger;
pub mod book;

pub use encode::{encode_record, gap_line};
pub use names::{archive_file_name, is_archive_file_name, verified_file_name, ARCHIVE_DIR_NAME, ARCHIVE_FILE_EXTENSION};
pub use queue::{
    ArchiveQueue, QueueBounds, SESSION_QUEUE_BYTES, SESSION_QUEUE_RECORDS, TOTAL_QUEUE_BYTES, TOTAL_QUEUE_RECORDS,
};
pub use record::{ArchiveCounters, ArchiveRecord, ArchiveRow, DropCounters, FinishedSession, LogStream, QueuedRecord};
pub use status::{ArchiveReason, ArchiveStatus};
pub use writer::{QuotaLimits, SESSION_BYTE_CAP, TOTAL_BYTE_CAP, WRITE_BUFFER_BYTES};
