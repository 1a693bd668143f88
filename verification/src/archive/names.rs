//! Which names the archive directory may hold: `<session-id>.jsonl`, where the
//! session id is a lowercase hyphenated UUID, and nothing else.
use vstd::prelude::*;
use crate::archive::record::ArchiveRow;
use crate::error::{invalid, AppError, AppResult};
use crate::text::{chars_of, push_str, str_eq};

verus! {

/// Directory RunCove owns alone, a child of the application data directory.
pub const ARCHIVE_DIR_NAME: &'static str = "run-log-archives";

/// The only extension this build generates.
pub const ARCHIVE_FILE_EXTENSION: &'static str = "jsonl";

/// A lowercase hexadecimal digit.
pub open spec fn is_lower_hex(c: char) -> bool {
    ('0' <= c && c <= '9') || ('a' <= c && c <= 'f')
}

/// Where a hyphen sits in a hyphenated UUID.
pub open spec fn is_hyphen_position(i: int) -> bool {
    i == 8 || i == 13 || i == 18 || i == 23
}

/// Whether `id` is a session id this build generates: a lowercase hyphenated UUID,
/// 8-4-4-4-12 lowercase hex digits with four hyphens. The version and variant
/// nibbles are deliberately not checked.
pub open spec fn is_session_id(id: Seq<char>) -> bool {
    &&& id.len() == 36
    &&& forall|i: int| 0 <= i < 36 ==> if is_hyphen_position(i) {
        #[trigger] id[i] == '-'
    } else {
        is_lower_hex(id[i])
    }
}

/// The suffix every archive file name ends with.
pub open spec fn archive_suffix() -> Seq<char> {
    seq!['.', 'j', 's', 'o', 'n', 'l']
}

/// What is left of `name` once the one extension this build generates is stripped,
/// or `None` when `name` does not carry it.
pub open spec fn stem_of(name: Seq<char>) -> Option<Seq<char>> {
    if name.len() >= 6 && name.subrange(name.len() - 6, name.len() as int) == archive_suffix() {
        Some(name.subrange(0, name.len() - 6))
    } else {
        None
    }
}

/// Whether `name` is a name this build's [`archive_file_name`] could have produced.
pub open spec fn is_archive_name(name: Seq<char>) -> bool {
    match stem_of(name) {
        Some(stem) => is_session_id(stem),
        None => false,
    }
}

/// How `format!("{:?}", text)` renders a text: quoted, with Rust's debug escapes.
pub uninterp spec fn debug_rendering(text: Seq<char>) -> Seq<char>;

/// `format!("{:?}", text)`. Its result is named by [`debug_rendering`]: the
/// quoting and escaping rules of `str`'s `Debug` impl are not restated here.
#[verifier::external_body]
pub(crate) fn debug_quoted(text: &str) -> (rendered: String)
    ensures
        rendered@ == debug_rendering(text@),
{
    format!("{text:?}")
}

/// Whether `id` is a session id this build generates.
pub fn is_generated_session_id(id: &str) -> (r: bool)
    ensures
        r == is_session_id(id@),
{
    let chars = chars_of(id);
    if chars.len() != 36 {
        return false;
    }
    let mut i: usize = 0;
    while i < 36
        invariant
            chars@ == id@,
            chars@.len() == 36,
            i <= 36,
            forall|k: int| 0 <= k < i ==> if is_hyphen_position(k) {
                #[trigger] chars@[k] == '-'
            } else {
                is_lower_hex(chars@[k])
            },
        decreases 36 - i,
    {
        let c = chars[i];
        let ok = if i == 8 || i == 13 || i == 18 || i == 23 {
            c == '-'
        } else {
            ('0' <= c && c <= '9') || ('a' <= c && c <= 'f')
        };
        if !ok {
            return false;
        }
        i = i + 1;
    }
    true
}

/// The stem of an archive file name, or `None` when it does not end in `.jsonl`.
pub(crate) fn archive_file_stem(name: &str) -> (stem: Option<String>)
    ensures
        match stem {
            Some(s) => stem_of(name@) == Some(s@),
            None => stem_of(name@) is None,
        },
{
    let chars = chars_of(name);
    let n = chars.len();
    if n < 6 {
        return None;
    }
    let suffix = ['.', 'j', 's', 'o', 'n', 'l'];
    let mut k: usize = 0;
    while k < 6
        invariant
            chars@ == name@,
            n == chars@.len(),
            n >= 6,
            k <= 6,
            suffix@ == archive_suffix(),
            forall|j: int| 0 <= j < k ==> chars@[n - 6 + j] == archive_suffix()[j],
        decreases 6 - k,
    {
        if chars[n - 6 + k] != suffix[k] {
            assert(name@.subrange(n - 6, n as int)[k as int] != archive_suffix()[k as int]);
            return None;
        }
        k = k + 1;
    }
    assert(name@.subrange(n - 6, n as int) =~= archive_suffix());
    let mut stem = String::new();
    let mut i: usize = 0;
    while i < n - 6
        invariant
            chars@ == name@,
            n == chars@.len(),
            n >= 6,
            i <= n - 6,
            stem@ == name@.subrange(0, i as int),
        decreases n - 6 - i,
    {
        crate::text::push_char(&mut stem, chars[i]);
        i = i + 1;
        assert(name@.subrange(0, i as int) =~= name@.subrange(0, i - 1).push(name@[i - 1]));
    }
    Some(stem)
}

/// Whether `name` is a name this build's [`archive_file_name`] could have produced.
///
/// It matches the generator rather than blocking a list of bad shapes, so absolute
/// and drive-relative paths, `.` and `..`, separators, trailing dots or spaces,
/// alternate data streams and reserved device names are all refused without being
/// named.
pub fn is_archive_file_name(name: &str) -> (r: bool)
    ensures
        r == is_archive_name(name@),
{
    match archive_file_stem(name) {
        Some(stem) => is_generated_session_id(stem.as_str()),
        None => false,
    }
}

/// The refusal for a session id this build could not have produced.
pub open spec fn foreign_id_message(session_id: Seq<char>) -> Seq<char> {
    "Session id "@ + debug_rendering(session_id) + " is not one RunCove generated, so it has no archive file name"@
}

/// The file name this build generates for a session: `<session-id>.jsonl`, exactly
/// one path component. Fails for a session id this build could not have produced.
pub fn archive_file_name(session_id: &str) -> (r: AppResult<String>)
    ensures
        is_session_id(session_id@) ==> (r matches Ok(name) && name@ == session_id@ + archive_suffix()),
        !is_session_id(session_id@) ==> (r matches Err(e) && e is Message && e.text() == foreign_id_message(session_id@)),
{
    if !is_generated_session_id(session_id) {
        let mut message = String::new();
        push_str(&mut message, "Session id ");
        let quoted = debug_quoted(session_id);
        push_str(&mut message, quoted.as_str());
        push_str(&mut message, " is not one RunCove generated, so it has no archive file name");
        return Err(invalid(message));
    }
    let mut name = String::new();
    push_str(&mut name, session_id);
    push_str(&mut name, ".");
    push_str(&mut name, ARCHIVE_FILE_EXTENSION);
    proof {
        reveal_strlit(".");
        reveal_strlit("jsonl");
        assert(name@ =~= session_id@ + archive_suffix());
    }
    Ok(name)
}

/// The names the generator produces are exactly the names the rule accepts: every
/// generated session id gives an accepted name whose stem is that id, and every
/// accepted name is the name of the session id that is its stem.
pub proof fn generated_names_are_exactly_accepted_names(id: Seq<char>, name: Seq<char>)
    ensures
        is_session_id(id) ==> is_archive_name(id + archive_suffix())
            && stem_of(id + archive_suffix()) == Some(id),
        is_archive_name(name) ==> is_session_id(stem_of(name)->Some_0)
            && name == stem_of(name)->Some_0 + archive_suffix(),
{
    let full = id + archive_suffix();
    assert(full.subrange(full.len() - 6, full.len() as int) =~= archive_suffix());
    assert(full.subrange(0, full.len() - 6) =~= id);
    if is_archive_name(name) {
        let stem = name.subrange(0, name.len() - 6);
        assert(name =~= stem + name.subrange(name.len() - 6, name.len() as int));
    }
}

/// An accepted name is one harmless path component: it holds no separator, no
/// colon, no space, and exactly one dot, the one before its extension.
pub proof fn accepted_names_are_one_plain_component(name: Seq<char>, i: int)
    requires
        is_archive_name(name),
        0 <= i < name.len(),
    ensures
        name[i] != '/',
        name[i] != '\\',
        name[i] != ':',
        name[i] != ' ',
        name[i] == '.' <==> i == name.len() - 6,
        name.len() == 42,
{
    let stem = name.subrange(0, name.len() - 6);
    if i < 36 {
        assert(name[i] == stem[i]);
        if is_hyphen_position(i) {
            assert(stem[i] == '-');
        } else {
            assert(is_lower_hex(stem[i]));
        }
    } else {
        assert(name[i] == name.subrange(name.len() - 6, name.len() as int)[i - 36]);
    }
}

/// The refusal for a row that belongs to another session.
pub open spec fn foreign_row_message(session_id: Seq<char>) -> Seq<char> {
    "This archive row belongs to another session, not to "@ + session_id
}

/// The refusal for a row that names some other file than its session's own.
pub open spec fn misnamed_row_message(session_id: Seq<char>) -> Seq<char> {
    "The archive row for session "@ + session_id + " does not name that session's own file"@
}

/// The file name a row is allowed to name, or an error.
///
/// A row is data out of a database this build does not exclusively own, so the name
/// it carries is checked against the name this build would have generated for that
/// session instead of being trusted.
pub fn verified_file_name(session_id: &str, row: &ArchiveRow) -> (r: AppResult<String>)
    ensures
        !is_session_id(session_id@) ==> (r matches Err(e) && e is Message && e.text() == foreign_id_message(session_id@)),
        is_session_id(session_id@) && row.session_id@ != session_id@ ==> (r matches Err(e) && e is Message && e.text()
            == foreign_row_message(session_id@)),
        is_session_id(session_id@) && row.session_id@ == session_id@ && row.file_name@ != session_id@
            + archive_suffix() ==> (r matches Err(e) && e is Message && e.text() == misnamed_row_message(session_id@)),
        is_session_id(session_id@) && row.session_id@ == session_id@ && row.file_name@ == session_id@
            + archive_suffix() ==> (r matches Ok(name) && name@ == session_id@ + archive_suffix()),
{
    let expected = archive_file_name(session_id)?;
    if !str_eq(row.session_id.as_str(), session_id) {
        let mut message = String::new();
        push_str(&mut message, "This archive row belongs to another session, not to ");
        push_str(&mut message, session_id);
        return Err(invalid(message));
    }
    if !str_eq(row.file_name.as_str(), expected.as_str()) {
        let mut message = String::new();
        push_str(&mut message, "The archive row for session ");
        push_str(&mut message, session_id);
        push_str(&mut message, " does not name that session's own file");
        return Err(invalid(message));
    }
    Ok(expected)
}

/// How a row names itself in an anomaly.
pub open spec fn row_label_text(session_id: Seq<char>) -> Seq<char> {
    if is_session_id(session_id) {
        "session "@ + session_id
    } else {
        "a session id RunCove could not have generated"@
    }
}

/// How a row names itself in an anomaly. The `file_name` column is never echoed,
/// and the session id only when it is one this build generates.
pub fn row_label(row: &ArchiveRow) -> (label: String)
    ensures
        label@ == row_label_text(row.session_id@),
{
    let mut label = String::new();
    if is_generated_session_id(row.session_id.as_str()) {
        push_str(&mut label, "session ");
        push_str(&mut label, row.session_id.as_str());
    } else {
        push_str(&mut label, "a session id RunCove could not have generated");
    }
    label
}

/// The refusal for a name that is not an archive file name. The name is not
/// echoed: a rejected one may itself be a path.
pub open spec fn bad_name_message() -> Seq<char> {
    "An archive file name must be \"<session-id>.jsonl\" and nothing else"@
}

/// Refuses any name but `<session-id>.jsonl`, before it is joined to the archive
/// directory.
pub fn check_archive_file_name(file_name: &str) -> (r: AppResult<()>)
    ensures
        r is Ok <==> is_archive_name(file_name@),
        r matches Err(e) ==> e is Message && e.text() == bad_name_message(),
{
    if !is_archive_file_name(file_name) {
        let mut message = String::new();
        push_str(&mut message, "An archive file name must be \"<session-id>.jsonl\" and nothing else");
        return Err(invalid(message));
    }
    Ok(())
}

} // verus!
