//! The archive's file format: one JSON object per line, `{"t":…,"s":…,"l":…}`,
//! and the `system` line that stands in for a run of dropped records.
use vstd::prelude::*;
use vstd::utf8::encode_utf8;
use crate::archive::record::{
    stream_text, ArchiveRecord, DropCounters, LogStream, QueuedRecord,
};
use crate::text::{decimal, push_signed_decimal, push_str};

verus! {

/// One hexadecimal digit, lowercase.
pub open spec fn hex_digit(d: u32) -> char {
    if d < 10 { ((d + 48) as u8) as char } else { ((d + 87) as u8) as char }
}

/// How `serde_json` writes one character inside a string: a quote and a backslash
/// are escaped, the control characters with a short form get it, every other control
/// character below U+0020 becomes `\u00XX` in lowercase hex, and everything else —
/// U+007F and all non-ASCII text included — is written as it is.
pub open spec fn json_escaped_char(c: char) -> Seq<char> {
    if c == '"' {
        seq!['\\', '"']
    } else if c == '\\' {
        seq!['\\', '\\']
    } else if c == '\u{8}' {
        seq!['\\', 'b']
    } else if c == '\t' {
        seq!['\\', 't']
    } else if c == '\n' {
        seq!['\\', 'n']
    } else if c == '\u{c}' {
        seq!['\\', 'f']
    } else if c == '\r' {
        seq!['\\', 'r']
    } else if (c as u32) < 0x20 {
        seq!['\\', 'u', '0', '0', hex_digit((c as u32) / 16), hex_digit((c as u32) % 16)]
    } else {
        seq![c]
    }
}

/// A text escaped character by character.
pub open spec fn json_escaped(text: Seq<char>) -> Seq<char>
    decreases text.len(),
{
    if text.len() == 0 {
        Seq::empty()
    } else {
        json_escaped(text.drop_last()) + json_escaped_char(text.last())
    }
}

/// A text as a JSON string literal, quotes included.
pub open spec fn json_string(text: Seq<char>) -> Seq<char> {
    seq!['"'] + json_escaped(text) + seq!['"']
}

/// `serde_json::to_string` of a `&str`: the text as a JSON string literal, escaped
/// exactly as [`json_escaped_char`] says. Serializing a string cannot fail.
#[verifier::external_body]
fn json_string_literal(text: &str) -> (literal: String)
    ensures
        literal@ == json_string(text@),
{
    serde_json::to_string(text).expect("a string serializes")
}

/// The text of one record line, without its newline: the timestamp, the stream and
/// the line, under the keys `t`, `s` and `l`. The session id is not part of the line;
/// the file name already carries it.
pub open spec fn encoded_record(timestamp: i64, stream: LogStream, line: Seq<char>) -> Seq<char> {
    "{\"t\":"@ + decimal(timestamp as int) + ",\"s\":"@ + json_string(stream_text(stream)) + ",\"l\":"@
        + json_string(line) + "}"@
}

/// One JSON Lines record, without its trailing newline.
///
/// `serde_json` does the escaping, so a line carrying a quote, a backslash, or a
/// newline still occupies exactly one line of the file.
pub fn encode_record(record: &ArchiveRecord) -> (encoded: String)
    ensures
        encoded@ == encoded_record(record.timestamp, record.stream, record.line@),
{
    let mut encoded = String::new();
    push_str(&mut encoded, "{\"t\":");
    push_signed_decimal(&mut encoded, record.timestamp);
    push_str(&mut encoded, ",\"s\":");
    let stream = json_string_literal(record.stream.as_str());
    push_str(&mut encoded, stream.as_str());
    push_str(&mut encoded, ",\"l\":");
    let line = json_string_literal(record.line.as_str());
    push_str(&mut encoded, line.as_str());
    push_str(&mut encoded, "}");
    encoded
}

/// The marker text for a run of dropped records.
pub open spec fn gap_text(dropped: DropCounters) -> Seq<char> {
    "[RunCove: dropped "@ + decimal(dropped.lines as int) + (if dropped.lines == 1 { " line"@ } else { " lines"@ })
        + " / "@ + decimal(dropped.bytes as int) + (if dropped.bytes == 1 { " byte"@ } else { " bytes"@ })
        + "]"@
}

/// The `system` line that stands in for a contiguous run of dropped records. The
/// text is fixed English, like the other `system` lines the run log emits.
pub fn gap_line(dropped: DropCounters) -> (line: String)
    ensures
        line@ == gap_text(dropped),
{
    let mut line = String::new();
    push_str(&mut line, "[RunCove: dropped ");
    push_signed_decimal(&mut line, dropped.lines);
    if dropped.lines == 1 {
        push_str(&mut line, " line");
    } else {
        push_str(&mut line, " lines");
    }
    push_str(&mut line, " / ");
    push_signed_decimal(&mut line, dropped.bytes);
    if dropped.bytes == 1 {
        push_str(&mut line, " byte");
    } else {
        push_str(&mut line, " bytes");
    }
    push_str(&mut line, "]");
    line
}

/// Append bytes to a payload.
fn push_bytes(payload: &mut Vec<u8>, bytes: &[u8])
    ensures
        final(payload)@ == old(payload)@ + bytes@,
{
    let mut i: usize = 0;
    while i < bytes.len()
        invariant
            i <= bytes@.len(),
            payload@ == old(payload)@ + bytes@.subrange(0, i as int),
        decreases bytes@.len() - i,
    {
        payload.push(bytes[i]);
        i = i + 1;
        assert(bytes@.subrange(0, i as int) =~= bytes@.subrange(0, i - 1).push(bytes@[i - 1]));
    }
    assert(bytes@.subrange(0, i as int) =~= bytes@);
}

/// The bytes one archived line occupies in the file: its encoding, then the newline
/// that ends it.
pub open spec fn line_in_file(encoded: Seq<char>) -> Seq<u8> {
    encode_utf8(encoded).push(10u8)
}

/// Append one archived line to a payload: the encoding, then the newline that ends
/// it. The newline is part of what the file holds, so it is part of what the quota
/// weighs.
pub fn push_line(payload: &mut Vec<u8>, encoded: &str)
    ensures
        final(payload)@ == old(payload)@ + line_in_file(encoded@),
{
    push_bytes(payload, encoded.as_bytes());
    payload.push(10u8);
    assert(final(payload)@ =~= old(payload)@ + line_in_file(encoded@));
}

/// One record encoded and ready for the file, with the gap line that has to go in
/// front of it already part of the payload.
pub struct PendingWrite {
    pub session_id: String,
    /// The bytes as they will appear in the file, newline included.
    pub payload: Vec<u8>,
    /// Archived lines in `payload`: one, or two when it opens with a gap line.
    pub lines: i64,
}

impl PendingWrite {
    /// What this write would add to the archive directory, in encoded bytes.
    pub fn cost(&self) -> (c: u64)
        ensures
            c == self.payload@.len(),
    {
        self.payload.len() as u64
    }
}

/// The bytes a queued record becomes in its session's file: the gap line it carries,
/// if any, stamped with the record's own timestamp, then the record.
pub open spec fn record_payload(item: QueuedRecord) -> Seq<u8> {
    let record = line_in_file(encoded_record(item.record.timestamp, item.record.stream, item.record.line@));
    match item.gap_before {
        Some(gap) => line_in_file(encoded_record(item.record.timestamp, LogStream::System, gap_text(gap)))
            + record,
        None => record,
    }
}

/// Encode one queued record for the file, with the gap line it carries in front of
/// it in the same payload, so no failure can separate them. The gap line borrows the
/// carrier's own timestamp: this writer reads no clock.
pub fn pending_write(item: &QueuedRecord) -> (write: PendingWrite)
    ensures
        write.session_id@ == item.record.session_id@,
        write.payload@ == record_payload(*item),
        write.lines == if item.gap_before is Some { 2i64 } else { 1i64 },
{
    let mut payload: Vec<u8> = Vec::new();
    let mut lines: i64 = 0;
    match item.gap_before {
        Some(gap) => {
            let marker = ArchiveRecord {
                session_id: item.record.session_id.clone(),
                stream: LogStream::System,
                line: gap_line(gap),
                timestamp: item.record.timestamp,
            };
            let encoded = encode_record(&marker);
            push_line(&mut payload, encoded.as_str());
            lines = lines + 1;
        }
        None => {}
    }
    let encoded = encode_record(&item.record);
    push_line(&mut payload, encoded.as_str());
    lines = lines + 1;
    assert(payload@ =~= record_payload(*item));
    PendingWrite { session_id: item.record.session_id.clone(), payload, lines }
}

} // verus!
