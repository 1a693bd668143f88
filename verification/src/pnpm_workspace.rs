//! The `packages:` list of a `pnpm-workspace.yaml`: a block list of `- pattern`
//! lines or one inline `[a, b]` list, with YAML's quoting and comments, and every
//! pattern checked to stay inside the project directory.
use vstd::prelude::*;
use crate::discovery::{no_backslash, sorted_names, sorted_unique};
use crate::error::{invalid, AppError, AppResult};
use crate::text::{
    chars_of, decimal_digits, is_white, is_whitespace, lines_of, push_char, push_decimal, push_str, str_eq,
    string_of, text_lines, texts, trim, trim_end, trim_start, trimmed, trimmed_end, trimmed_start,
};

verus! {

/// What `serde_json::from_str::<String>` makes of a text: the string it denotes, or
/// the text of its error.
pub uninterp spec fn json_string_reading(text: Seq<char>) -> Result<Seq<char>, Seq<char>>;

/// Whether `t` is a JSON string literal with nothing to unescape: a `"` at each end
/// and between them no `"`, no backslash and no control character.
pub open spec fn plain_json_string(t: Seq<char>) -> bool {
    &&& t.len() >= 2
    &&& t[0] == '"' && t[t.len() - 1] == '"'
    &&& forall|i: int| 1 <= i < t.len() - 1 ==> #[trigger] t[i] != '"' && t[i] != '\\' && t[i] as u32 >= 0x20
}

/// `serde_json::from_str::<String>`, with its error as text. What the JSON grammar
/// accepts and how serde_json words a refusal are named by [`json_string_reading`],
/// not restated. One short fact is stated from serde_json's string reader: a literal
/// with no escape, quote or control character inside denotes the text between its
/// quotes.
#[verifier::external_body]
fn read_json_string(text: &str) -> (r: Result<String, String>)
    ensures
        match r {
            Ok(s) => json_string_reading(text@) == Ok::<Seq<char>, Seq<char>>(s@),
            Err(m) => json_string_reading(text@) == Err::<Seq<char>, Seq<char>>(m@),
        },
        plain_json_string(text@) ==> (r is Ok && r->Ok_0@ == text@.subrange(1, text@.len() - 1)),
{
    match serde_json::from_str::<String>(text) {
        Ok(s) => Ok(s),
        Err(e) => Err(e.to_string()),
    }
}

/// Whether `p` holds a `..` segment between `/` separators (or at an end of `p`) at `i`.
pub open spec fn slash_parent_at(p: Seq<char>, i: int) -> bool {
    &&& 0 <= i && i + 2 <= p.len()
    &&& p[i] == '.' && p[i + 1] == '.'
    &&& (i == 0 || p[i - 1] == '/')
    &&& (i + 2 == p.len() || p[i + 2] == '/')
}

/// A character some platform separates path components at.
pub open spec fn any_separator(c: char) -> bool {
    c == '/' || c == '\\'
}

/// Whether `p` holds a `..` segment between separators of any platform at `i`.
pub open spec fn any_parent_at(p: Seq<char>, i: int) -> bool {
    &&& 0 <= i && i + 2 <= p.len()
    &&& p[i] == '.' && p[i + 1] == '.'
    &&& (i == 0 || any_separator(p[i - 1]))
    &&& (i + 2 == p.len() || any_separator(p[i + 2]))
}

/// Whether `p` starts with a separator of some platform, or names a drive.
pub open spec fn rooted_somewhere(p: Seq<char>) -> bool {
    (p.len() > 0 && any_separator(p[0])) || (p.len() > 1 && p[1] == ':')
}

/// Whether every platform reads `p` as leaving the directory it is relative to: it
/// starts at `/`, or a segment between `/`s is `..`.
pub open spec fn leaves_everywhere(p: Seq<char>) -> bool {
    (p.len() > 0 && p[0] == '/') || exists|i: int| slash_parent_at(p, i)
}

/// Whether no platform reads `p` as leaving the directory it is relative to: no
/// separator first, no drive, no `..` segment between separators of any platform.
pub open spec fn stays_everywhere(p: Seq<char>) -> bool {
    !rooted_somewhere(p) && forall|i: int| !#[trigger] any_parent_at(p, i)
}

/// Whether `glob` compiles `p` whatever the platform: no `[`, no run of three `*`,
/// and every `**` a whole component between `/`s or ends of `p`.
pub open spec fn compiles_everywhere(p: Seq<char>) -> bool {
    &&& forall|i: int| 0 <= i < p.len() ==> #[trigger] p[i] != '['
    &&& forall|i: int| 0 <= i && i + 2 < p.len() && #[trigger] p[i] == '*' && p[i + 1] == '*' ==> p[i + 2] != '*'
    &&& forall|i: int| 0 <= i && i + 1 < p.len() && #[trigger] p[i] == '*' && p[i + 1] == '*' && (i == 0 || p[i - 1] != '*')
        ==> (i == 0 || p[i - 1] == '/') && (i + 2 == p.len() || p[i + 2] == '/')
}

/// `glob::Pattern::new`: `None` when the pattern compiles, else its error's text.
/// In glob 0.3.4 the only refusals are a run of more than two `*`, a `**` that is not
/// a whole component, and a `[` that opens no valid range; `/` separates components on
/// every platform. So a pattern with none of these compiles everywhere. Without a
/// `\\` in the pattern the separators of every platform read it alike, so what it
/// answers is then a function of the pattern alone, named [`glob_compile_error`];
/// with one, it depends on the platform's separators and is not stated.
#[verifier::external_body]
fn glob_pattern_error(pattern: &str) -> (r: Option<String>)
    ensures
        compiles_everywhere(pattern@) ==> r is None,
        no_backslash(pattern@) ==> match r {
            Some(m) => glob_compile_error(pattern@) == Some(m@),
            None => glob_compile_error(pattern@) is None,
        },
{
    match glob::Pattern::new(pattern) {
        Ok(_) => None,
        Err(e) => Some(e.to_string()),
    }
}

/// What `glob::Pattern::new` answers for a pattern with no `\\`: `None` when it
/// compiles, else the text of its error.
pub uninterp spec fn glob_compile_error(pattern: Seq<char>) -> Option<Seq<char>>;

/// `Path::is_absolute` of the pattern read as a path. On Unix a path is absolute when
/// it starts at `/`; on Windows only with a prefix (which starts with `\\` or names a
/// drive with `:`) and a root. So a pattern with no separator first and no drive is
/// absolute nowhere. The rest depends on the platform and is not stated.
#[verifier::external_body]
fn path_is_absolute(pattern: &str) -> (r: bool)
    ensures
        !rooted_somewhere(pattern@) ==> !r,
{
    std::path::Path::new(pattern).is_absolute()
}

/// One component of a path as `Path::components` reads it.
#[derive(Debug, Clone, PartialEq, Eq)]
pub enum PathPart {
    /// A Windows prefix such as `C:` or `\\server\share`.
    Prefix,
    /// The root the path starts from.
    RootDir,
    /// A leading `.`.
    CurDir,
    /// A `..`.
    ParentDir,
    /// Any other component.
    Normal(String),
}

/// Whether a component takes a path out of the directory it is relative to.
pub open spec fn leaves_by(part: PathPart) -> bool {
    part is Prefix || part is RootDir || part is ParentDir
}

/// `Path::components` of the pattern read as a path, one part per component. On
/// every platform `/` separates components, a path starting with a separator starts
/// with a root (after any prefix), and `..` is the parent; Windows adds `\\` as a
/// separator and prefixes, which start with `\\` or name a drive with `:`. So a pattern
/// starting at `/`, or with a `..` segment between `/`s, has a root, prefix or parent
/// part everywhere; one with no separator first, no drive and no `..` segment between
/// any separators has none anywhere. Which parts the rest gives depends on the
/// platform and is not stated.
#[verifier::external_body]
fn path_parts(pattern: &str) -> (parts: Vec<PathPart>)
    ensures
        leaves_everywhere(pattern@) ==> exists|i: int| 0 <= i < parts@.len() && leaves_by(#[trigger] parts@[i]),
        stays_everywhere(pattern@) ==> forall|i: int| 0 <= i < parts@.len() ==> !leaves_by(#[trigger] parts@[i]),
{
    std::path::Path::new(pattern)
        .components()
        .map(|part| match part {
            std::path::Component::Prefix(_) => PathPart::Prefix,
            std::path::Component::RootDir => PathPart::RootDir,
            std::path::Component::CurDir => PathPart::CurDir,
            std::path::Component::ParentDir => PathPart::ParentDir,
            std::path::Component::Normal(name) => PathPart::Normal(name.to_string_lossy().into_owned()),
        })
        .collect()
}

/// Whether any of a path's parts takes it out of the directory it is relative to:
/// a prefix, a root or a parent.
pub fn leaves_directory(parts: &Vec<PathPart>) -> (r: bool)
    ensures
        r == exists|i: int| 0 <= i < parts@.len() && leaves_by(#[trigger] parts@[i]),
{
    let mut i: usize = 0;
    while i < parts.len()
        invariant
            i <= parts@.len(),
            forall|k: int| 0 <= k < i ==> !leaves_by(#[trigger] parts@[k]),
        decreases parts@.len() - i,
    {
        match &parts[i] {
            PathPart::Prefix | PathPart::RootDir | PathPart::ParentDir => return true,
            _ => {}
        }
        i = i + 1;
    }
    false
}

/// Whether a pattern passes every check on every platform: it names something, no
/// platform reads it as leaving the project directory, and it compiles everywhere.
pub open spec fn accepted_everywhere(pattern: Seq<char>) -> bool {
    let p = path_part(pattern);
    p.len() > 0 && stays_everywhere(p) && compiles_everywhere(p)
}

/// Whether every platform refuses `pattern`: it names nothing once its `!` is
/// dropped, or it leaves the directory everywhere.
pub open spec fn refused_everywhere(pattern: Seq<char>) -> bool {
    path_part(pattern).len() == 0 || leaves_everywhere(path_part(pattern))
}

/// `"line <n>"` followed by `tail`.
pub open spec fn line_message(line: nat, tail: Seq<char>) -> Seq<char> {
    "line "@ + decimal_digits(line) + tail
}

/// A refusal that names its line.
fn line_error(line: usize, tail: &str) -> (e: AppError)
    ensures
        e is Message,
        e.text() == line_message(line as nat, tail@),
{
    let mut m = String::new();
    push_str(&mut m, "line ");
    push_decimal(&mut m, line as u64);
    push_str(&mut m, tail);
    invalid(m)
}

/// Where a YAML comment starts in `value`, scanning from `i` in the given quoting
/// state; `value.len()` when there is none. A `#` starts a comment only outside quotes
/// and after white space or at the start.
pub open spec fn comment_start(
    value: Seq<char>,
    i: int,
    single: bool,
    double: bool,
    escaped: bool,
    after_space: bool,
) -> int
    decreases value.len() - i,
{
    if i < 0 || i >= value.len() {
        value.len() as int
    } else {
        let c = value[i];
        let white = is_white(c);
        if double {
            if escaped {
                comment_start(value, i + 1, single, true, false, white)
            } else if c == '\\' {
                comment_start(value, i + 1, single, true, true, white)
            } else if c == '"' {
                comment_start(value, i + 1, single, false, false, white)
            } else {
                comment_start(value, i + 1, single, true, false, white)
            }
        } else if single {
            comment_start(value, i + 1, c != '\'', double, escaped, white)
        } else if c == '\'' {
            comment_start(value, i + 1, true, double, escaped, white)
        } else if c == '"' {
            comment_start(value, i + 1, single, true, escaped, white)
        } else if c == '#' && after_space {
            i
        } else {
            comment_start(value, i + 1, single, double, escaped, white)
        }
    }
}

/// A YAML value without its trailing comment.
pub open spec fn comment_stripped(value: Seq<char>) -> Seq<char> {
    value.subrange(0, comment_start(value, 0, false, false, false, true))
}

/// A YAML value without its trailing comment.
pub fn strip_yaml_comment(value: &str) -> (r: String)
    ensures
        r@ == comment_stripped(value@),
{
    let chars = chars_of(value);
    let mut single = false;
    let mut double = false;
    let mut escaped = false;
    let mut after_space = true;
    let mut i: usize = 0;
    while i < chars.len()
        invariant
            chars@ == value@,
            i <= chars@.len(),
            comment_start(value@, 0, false, false, false, true) == comment_start(value@, i as int, single, double, escaped, after_space),
        decreases chars@.len() - i,
    {
        let c = chars[i];
        if double {
            if escaped {
                escaped = false;
            } else if c == '\\' {
                escaped = true;
            } else if c == '"' {
                double = false;
            }
        } else if single {
            if c == '\'' {
                single = false;
            }
        } else if c == '\'' {
            single = true;
        } else if c == '"' {
            double = true;
        } else if c == '#' && after_space {
            return string_of(&chars, 0, i);
        }
        after_space = is_whitespace(c);
        i = i + 1;
    }
    string_of(&chars, 0, chars.len())
}

/// A single-quoted YAML scalar's content with each doubled quote made one.
pub open spec fn unquoted(text: Seq<char>) -> Seq<char>
    decreases text.len(),
{
    if text.len() == 0 {
        text
    } else if text.len() >= 2 && text[0] == '\'' && text[1] == '\'' {
        seq!['\''] + unquoted(text.subrange(2, text.len() as int))
    } else {
        seq![text[0]] + unquoted(text.subrange(1, text.len() as int))
    }
}

/// `text.replace("''", "'")` of the characters of `chars` from `start` to `end`.
fn unquote(chars: &Vec<char>, start: usize, end: usize) -> (r: String)
    requires
        start <= end <= chars@.len(),
    ensures
        r@ == unquoted(chars@.subrange(start as int, end as int)),
{
    let mut r = String::new();
    let mut i: usize = start;
    while i < end
        invariant
            start <= i <= end <= chars@.len(),
            unquoted(chars@.subrange(start as int, end as int)) == r@ + unquoted(chars@.subrange(i as int, end as int)),
        decreases end - i,
    {
        let ghost rest = chars@.subrange(i as int, end as int);
        if i + 1 < end && chars[i] == '\'' && chars[i + 1] == '\'' {
            push_char(&mut r, '\'');
            proof {
                assert(rest.subrange(2, rest.len() as int) =~= chars@.subrange(i + 2, end as int));
                assert(unquoted(rest) == seq!['\''] + unquoted(chars@.subrange(i + 2, end as int)));
            }
            i = i + 2;
        } else {
            push_char(&mut r, chars[i]);
            proof {
                assert(rest.subrange(1, rest.len() as int) =~= chars@.subrange(i + 1, end as int));
                assert(unquoted(rest) == seq![chars@[i as int]] + unquoted(chars@.subrange(i + 1, end as int)));
            }
            i = i + 1;
        }
        proof {
            assert(unquoted(chars@.subrange(start as int, end as int)) =~= r@ + unquoted(chars@.subrange(i as int, end as int)));
        }
    }
    proof {
        assert(chars@.subrange(end as int, end as int) =~= Seq::<char>::empty());
        assert(r@ + Seq::<char>::empty() =~= r@);
    }
    r
}

/// How one YAML scalar of a workspace list reads: a double-quoted one as JSON (with
/// nothing to unescape, the text between its quotes), a single-quoted one with
/// doubled quotes undone, a plain one as it stands.
pub open spec fn yaml_string(value: Seq<char>, line: nat) -> Result<Seq<char>, Seq<char>> {
    if value.len() == 0 {
        Err(line_message(line, " contains an empty workspace pattern"@))
    } else if plain_json_string(value) {
        Ok(value.subrange(1, value.len() - 1))
    } else if value[0] == '"' {
        match json_string_reading(value) {
            Ok(s) => Ok(s),
            Err(m) => Err(line_message(line, " contains an invalid double-quoted pattern: "@ + m)),
        }
    } else if value[0] == '\'' {
        if value.len() < 2 || value.last() != '\'' {
            Err(line_message(line, " contains an unterminated single-quoted pattern"@))
        } else {
            Ok(unquoted(value.subrange(1, value.len() - 1)))
        }
    } else {
        Ok(value)
    }
}

/// Whether a result is `Ok` with this text, or `Err` with an error of this text.
pub open spec fn reads_as(r: AppResult<String>, expected: Result<Seq<char>, Seq<char>>) -> bool {
    match (r, expected) {
        (Ok(s), Ok(t)) => s@ == t,
        (Err(e), Err(t)) => e is Message && e.text() == t,
        _ => false,
    }
}

/// One YAML scalar of a workspace list, read.
pub fn parse_yaml_string(value: &str, line: usize) -> (r: AppResult<String>)
    ensures
        reads_as(r, yaml_string(value@, line as nat)),
{
    let chars = chars_of(value);
    if chars.len() == 0 {
        return Err(line_error(line, " contains an empty workspace pattern"));
    }
    if chars[0] == '"' {
        return match read_json_string(value) {
            Ok(s) => Ok(s),
            Err(m) => {
                let mut tail = String::new();
                push_str(&mut tail, " contains an invalid double-quoted pattern: ");
                push_str(&mut tail, m.as_str());
                Err(line_error(line, tail.as_str()))
            }
        };
    }
    if chars[0] == '\'' {
        if chars.len() < 2 || chars[chars.len() - 1] != '\'' {
            return Err(line_error(line, " contains an unterminated single-quoted pattern"));
        }
        return Ok(unquote(&chars, 1, chars.len() - 1));
    }
    let mut owned = String::new();
    push_str(&mut owned, value);
    Ok(owned)
}

/// How an inline list's content splits, scanning from `i`: the pieces ended by a
/// comma outside quotes, the piece still open at the end, and whether a quote was
/// left open.
pub open spec fn inline_walk(
    s: Seq<char>,
    i: int,
    current: Seq<char>,
    pieces: Seq<Seq<char>>,
    single: bool,
    double: bool,
    escaped: bool,
) -> (Seq<Seq<char>>, Seq<char>, bool)
    decreases s.len() - i,
{
    if i < 0 || i >= s.len() {
        (pieces, current, single || double || escaped)
    } else {
        let c = s[i];
        if double {
            if escaped {
                inline_walk(s, i + 1, current.push(c), pieces, single, true, false)
            } else if c == '\\' {
                inline_walk(s, i + 1, current.push(c), pieces, single, true, true)
            } else if c == '"' {
                inline_walk(s, i + 1, current.push(c), pieces, single, false, false)
            } else {
                inline_walk(s, i + 1, current.push(c), pieces, single, true, false)
            }
        } else if single {
            if c == '\'' {
                if i + 1 < s.len() && s[i + 1] == '\'' {
                    inline_walk(s, i + 2, current.push(c).push('\''), pieces, true, double, escaped)
                } else {
                    inline_walk(s, i + 1, current.push(c), pieces, false, double, escaped)
                }
            } else {
                inline_walk(s, i + 1, current.push(c), pieces, true, double, escaped)
            }
        } else if c == '\'' {
            inline_walk(s, i + 1, current.push(c), pieces, true, double, escaped)
        } else if c == '"' {
            inline_walk(s, i + 1, current.push(c), pieces, single, true, escaped)
        } else if c == ',' {
            inline_walk(s, i + 1, Seq::empty(), pieces.push(current), single, double, escaped)
        } else {
            inline_walk(s, i + 1, current.push(c), pieces, single, double, escaped)
        }
    }
}

/// Every piece read as a scalar, in order; the first that fails decides.
pub open spec fn read_pieces(pieces: Seq<Seq<char>>, line: nat) -> Result<Seq<Seq<char>>, Seq<char>>
    decreases pieces.len(),
{
    if pieces.len() == 0 {
        Ok(Seq::empty())
    } else {
        match read_pieces(pieces.drop_last(), line) {
            Err(e) => Err(e),
            Ok(items) => match yaml_string(trimmed(pieces.last()), line) {
                Err(e) => Err(e),
                Ok(item) => Ok(items.push(item)),
            },
        }
    }
}

/// How an inline `[a, b]` list reads.
pub open spec fn inline_list(value: Seq<char>, line: nat) -> Result<Seq<Seq<char>>, Seq<char>> {
    if !(value.len() >= 2 && value[0] == '[' && value.last() == ']') {
        Err(line_message(line, " must use a block or inline list under 'packages:'"@))
    } else {
        let inner = value.subrange(1, value.len() - 1);
        if trimmed(inner).len() == 0 {
            Ok(Seq::empty())
        } else {
            let (pieces, last, unterminated) = inline_walk(inner, 0, Seq::empty(), Seq::empty(), false, false, false);
            match read_pieces(pieces, line) {
                Err(e) => Err(e),
                Ok(items) => if unterminated {
                    Err(line_message(line, " contains an unterminated quoted workspace pattern"@))
                } else {
                    match yaml_string(trimmed(last), line) {
                        Err(e) => Err(e),
                        Ok(item) => Ok(items.push(item)),
                    }
                },
            }
        }
    }
}

/// The pieces a walk has finished stay finished: they begin what it ends with.
proof fn lemma_walk_keeps_pieces(
    s: Seq<char>,
    i: int,
    current: Seq<char>,
    pieces: Seq<Seq<char>>,
    single: bool,
    double: bool,
    escaped: bool,
)
    requires
        0 <= i,
    ensures
        ({
            let done = inline_walk(s, i, current, pieces, single, double, escaped).0;
            &&& done.len() >= pieces.len()
            &&& done.subrange(0, pieces.len() as int) == pieces
            &&& (i < s.len() && !double && !single && s[i] == ',') ==> done.len() > pieces.len()
                && done[pieces.len() as int] == current
        }),
    decreases s.len() - i,
{
    if i < s.len() {
        let c = s[i];
        if double {
            if escaped {
                lemma_walk_keeps_pieces(s, i + 1, current.push(c), pieces, single, true, false);
            } else if c == '\\' {
                lemma_walk_keeps_pieces(s, i + 1, current.push(c), pieces, single, true, true);
            } else if c == '"' {
                lemma_walk_keeps_pieces(s, i + 1, current.push(c), pieces, single, false, false);
            } else {
                lemma_walk_keeps_pieces(s, i + 1, current.push(c), pieces, single, true, false);
            }
        } else if single {
            if c == '\'' {
                if i + 1 < s.len() && s[i + 1] == '\'' {
                    lemma_walk_keeps_pieces(s, i + 2, current.push(c).push('\''), pieces, true, double, escaped);
                } else {
                    lemma_walk_keeps_pieces(s, i + 1, current.push(c), pieces, false, double, escaped);
                }
            } else {
                lemma_walk_keeps_pieces(s, i + 1, current.push(c), pieces, true, double, escaped);
            }
        } else if c == '\'' {
            lemma_walk_keeps_pieces(s, i + 1, current.push(c), pieces, true, double, escaped);
        } else if c == '"' {
            lemma_walk_keeps_pieces(s, i + 1, current.push(c), pieces, single, true, escaped);
        } else if c == ',' {
            let more = pieces.push(current);
            lemma_walk_keeps_pieces(s, i + 1, Seq::empty(), more, single, double, escaped);
            let done = inline_walk(s, i, current, pieces, single, double, escaped).0;
            assert(done.subrange(0, more.len() as int) == more);
            assert(done.subrange(0, pieces.len() as int) =~= more.subrange(0, pieces.len() as int));
            assert(more.subrange(0, pieces.len() as int) =~= pieces);
            assert(done[pieces.len() as int] == done.subrange(0, more.len() as int)[pieces.len() as int]);
        } else {
            lemma_walk_keeps_pieces(s, i + 1, current.push(c), pieces, single, double, escaped);
        }
    } else {
        let done = inline_walk(s, i, current, pieces, single, double, escaped).0;
        assert(done.subrange(0, pieces.len() as int) =~= pieces);
    }
}

/// A failure among the first pieces is the failure of every longer list of pieces.
proof fn lemma_read_pieces_prefix(pieces: Seq<Seq<char>>, n: int, line: nat)
    requires
        0 <= n <= pieces.len(),
        read_pieces(pieces.subrange(0, n), line) is Err,
    ensures
        read_pieces(pieces, line) == read_pieces(pieces.subrange(0, n), line),
    decreases pieces.len(),
{
    if n < pieces.len() {
        let shorter = pieces.drop_last();
        assert(shorter.subrange(0, n) =~= pieces.subrange(0, n));
        lemma_read_pieces_prefix(shorter, n, line);
    } else {
        assert(pieces.subrange(0, n) =~= pieces);
    }
}

/// An inline `[a, b]` list of workspace patterns, read.
pub fn parse_inline_yaml_list(value: &str, line: usize) -> (r: AppResult<Vec<String>>)
    ensures
        match (r, inline_list(value@, line as nat)) {
            (Ok(items), Ok(expected)) => texts(items@) == expected,
            (Err(e), Err(expected)) => e is Message && e.text() == expected,
            _ => false,
        },
{
    let chars = chars_of(value);
    let n = chars.len();
    if !(n >= 2 && chars[0] == '[' && chars[n - 1] == ']') {
        return Err(line_error(line, " must use a block or inline list under 'packages:'"));
    }
    let inner_text = string_of(&chars, 1, n - 1);
    let inner = chars_of(inner_text.as_str());
    let ghost s = inner@;
    let trimmed_inner = trim(inner_text.as_str());
    if trimmed_inner.as_str().is_empty() {
        proof {
            assert(trimmed(s).len() == 0);
        }
        return Ok(Vec::new());
    }
    let mut items: Vec<String> = Vec::new();
    let mut current = String::new();
    let ghost mut pieces: Seq<Seq<char>> = Seq::empty();
    proof {
        assert(texts(items@) =~= Seq::<Seq<char>>::empty());
        assert(inner_text@ == s);
    }
    let mut single = false;
    let mut double = false;
    let mut escaped = false;
    let mut i: usize = 0;
    while i < inner.len()
        invariant
            inner@ == s,
            value@.len() >= 2 && value@[0] == '[' && value@.last() == ']',
            s == value@.subrange(1, value@.len() - 1),
            trimmed(s).len() != 0,
            i <= s.len(),
            inline_walk(s, 0, Seq::empty(), Seq::empty(), false, false, false)
                == inline_walk(s, i as int, current@, pieces, single, double, escaped),
            read_pieces(pieces, line as nat) == Ok::<Seq<Seq<char>>, Seq<char>>(texts(items@)),
        decreases s.len() - i,
    {
        let c = inner[i];
        if double {
            push_char(&mut current, c);
            if escaped {
                escaped = false;
            } else if c == '\\' {
                escaped = true;
            } else if c == '"' {
                double = false;
            }
            i = i + 1;
        } else if single {
            push_char(&mut current, c);
            if c == '\'' {
                if i + 1 < inner.len() && inner[i + 1] == '\'' {
                    push_char(&mut current, '\'');
                    i = i + 2;
                } else {
                    single = false;
                    i = i + 1;
                }
            } else {
                i = i + 1;
            }
        } else if c == '\'' {
            single = true;
            push_char(&mut current, c);
            i = i + 1;
        } else if c == '"' {
            double = true;
            push_char(&mut current, c);
            i = i + 1;
        } else if c == ',' {
            proof {
                lemma_walk_keeps_pieces(s, i as int, current@, pieces, single, double, escaped);
            }
            let piece = trim(current.as_str());
            let ghost finished = pieces.push(current@);
            proof {
                assert(finished.drop_last() =~= pieces);
            }
            let ghost old_items = texts(items@);
            let ghost old_vec = items@;
            match parse_yaml_string(piece.as_str(), line) {
                Ok(item) => {
                    let ghost item_view = item@;
                    items.push(item);
                    proof {
                        assert forall|x: int| 0 <= x < old_items.len() + 1 implies #[trigger] texts(items@)[x]
                            == old_items.push(item_view)[x] by {
                            assert(texts(items@)[x] == items@[x]@);
                            if x < old_items.len() {
                                assert(items@[x] == old_vec[x]);
                            }
                        }
                        assert(texts(items@) =~= old_items.push(item_view));
                        assert(finished.last() == current@);
                        assert(read_pieces(finished, line as nat) == Ok::<Seq<Seq<char>>, Seq<char>>(old_items.push(item_view)));
                    }
                }
                Err(e) => {
                    proof {
                        let all = inline_walk(s, 0, Seq::empty(), Seq::empty(), false, false, false).0;
                        assert(all.subrange(0, finished.len() as int) =~= finished);
                        lemma_read_pieces_prefix(all, finished.len() as int, line as nat);
                    }
                    return Err(e);
                }
            }
            proof {
                pieces = finished;
            }
            current = String::new();
            i = i + 1;
        } else {
            push_char(&mut current, c);
            i = i + 1;
        }
    }
    if single || double || escaped {
        return Err(line_error(line, " contains an unterminated quoted workspace pattern"));
    }
    let last = trim(current.as_str());
    let ghost old_items = texts(items@);
    let ghost old_vec = items@;
    match parse_yaml_string(last.as_str(), line) {
        Ok(item) => {
            let ghost item_view = item@;
            items.push(item);
            proof {
                assert forall|x: int| 0 <= x < old_items.len() + 1 implies #[trigger] texts(items@)[x]
                    == old_items.push(item_view)[x] by {
                    assert(texts(items@)[x] == items@[x]@);
                    if x < old_items.len() {
                        assert(items@[x] == old_vec[x]);
                    }
                }
                assert(texts(items@) =~= old_items.push(item_view));
            }
            Ok(items)
        }
        Err(e) => Err(e),
    }
}

/// The block list items and any syntax error a workspace file's lines give, walking
/// from line `k` (counted from zero), inside the `packages:` block or not yet. Each
/// item carries its line number, counted from one. An inline list ends the walk.
pub open spec fn pnpm_walk(lines: Seq<Seq<char>>, k: int, in_packages: bool) -> (Seq<(Seq<char>, nat)>, Option<Seq<char>>)
    decreases lines.len() - k,
{
    if k < 0 || k >= lines.len() {
        (Seq::empty(), None)
    } else {
        let line = trimmed_end(lines[k]);
        let text = trimmed_start(line);
        let number = (k + 1) as nat;
        if text.len() == 0 || text[0] == '#' {
            pnpm_walk(lines, k + 1, in_packages)
        } else if !in_packages {
            if line != text {
                pnpm_walk(lines, k + 1, false)
            } else {
                let declaration = trimmed(comment_stripped(text));
                if declaration == "packages:"@ {
                    pnpm_walk(lines, k + 1, true)
                } else if declaration.len() >= 9 && declaration.subrange(0, 9) == "packages:"@ {
                    match inline_list(trimmed(declaration.subrange(9, declaration.len() as int)), number) {
                        Err(e) => (Seq::empty(), Some(e)),
                        Ok(items) => (items.map_values(|p: Seq<char>| (p, number)), None),
                    }
                } else {
                    pnpm_walk(lines, k + 1, false)
                }
            }
        } else if line == text {
            (Seq::empty(), None)
        } else {
            let item = trimmed(comment_stripped(text));
            if item.len() == 0 {
                pnpm_walk(lines, k + 1, true)
            } else if item[0] != '-' {
                (Seq::empty(), Some(line_message(number, " must be a list item under 'packages:'"@)))
            } else {
                match yaml_string(trimmed(item.subrange(1, item.len() as int)), number) {
                    Err(e) => (Seq::empty(), Some(e)),
                    Ok(pattern) => {
                        let rest = pnpm_walk(lines, k + 1, true);
                        (seq![(pattern, number)] + rest.0, rest.1)
                    },
                }
            }
        }
    }
}

/// The views of (pattern, line) items.
pub open spec fn item_views(items: Seq<(String, usize)>) -> Seq<(Seq<char>, nat)> {
    Seq::new(items.len(), |i: int| (items[i].0@, items[i].1 as nat))
}

/// Whether `chars` starts with the characters of `prefix`.
fn starts_with(chars: &Vec<char>, prefix: &str) -> (r: bool)
    ensures
        r == (chars@.len() >= prefix@.len() && chars@.subrange(0, prefix@.len() as int) == prefix@),
{
    let p = chars_of(prefix);
    if chars.len() < p.len() {
        return false;
    }
    let mut i: usize = 0;
    while i < p.len()
        invariant
            p@ == prefix@,
            p@.len() <= chars@.len(),
            i <= p@.len(),
            chars@.subrange(0, i as int) == p@.subrange(0, i as int),
        decreases p@.len() - i,
    {
        if chars[i] != p[i] {
            proof {
                assert(chars@.subrange(0, p@.len() as int)[i as int] != prefix@[i as int]);
            }
            return false;
        }
        proof {
            assert(chars@.subrange(0, i + 1) =~= chars@.subrange(0, i as int).push(chars@[i as int]));
            assert(p@.subrange(0, i + 1) =~= p@.subrange(0, i as int).push(p@[i as int]));
        }
        i = i + 1;
    }
    proof {
        assert(p@.subrange(0, i as int) =~= p@);
    }
    true
}

/// The block list items of a workspace file, each with its line, and the syntax error
/// that ended the walk, if one did.
pub fn workspace_pattern_items(contents: &str) -> (r: (Vec<(String, usize)>, Option<AppError>))
    ensures
        item_views(r.0@) == pnpm_walk(text_lines(contents@), 0, false).0,
        match (r.1, pnpm_walk(text_lines(contents@), 0, false).1) {
            (None, None) => true,
            (Some(e), Some(m)) => e is Message && e.text() == m,
            _ => false,
        },
{
    let lines = lines_of(contents);
    let ghost all = texts(lines@);
    let mut items: Vec<(String, usize)> = Vec::new();
    let mut in_packages = false;
    let mut k: usize = 0;
    while k < lines.len()
        invariant
            all == texts(lines@),
            all == text_lines(contents@),
            k <= all.len(),
            pnpm_walk(all, 0, false).0 == item_views(items@) + pnpm_walk(all, k as int, in_packages).0,
            pnpm_walk(all, 0, false).1 == pnpm_walk(all, k as int, in_packages).1,
        decreases all.len() - k,
    {
        let ghost before = item_views(items@);
        let line = trim_end(lines[k].as_str());
        let text = trim_start(line.as_str());
        let text_chars = chars_of(text.as_str());
        let number = k + 1;
        proof {
            assert(lines@[k as int]@ == all[k as int]);
        }
        if text_chars.len() == 0 || text_chars[0] == '#' {
            k = k + 1;
            continue;
        }
        let indented = !str_eq(line.as_str(), text.as_str());
        if !in_packages {
            if indented {
                k = k + 1;
                continue;
            }
            let stripped = strip_yaml_comment(text.as_str());
            let declaration = trim(stripped.as_str());
            let declaration_chars = chars_of(declaration.as_str());
            if str_eq(declaration.as_str(), "packages:") {
                in_packages = true;
                k = k + 1;
                continue;
            }
            if starts_with(&declaration_chars, "packages:") {
                proof {
                    reveal_strlit("packages:");
                }
                let value_text = string_of(&declaration_chars, 9, declaration_chars.len());
                let value = trim(value_text.as_str());
                match parse_inline_yaml_list(value.as_str(), number) {
                    Err(e) => return (items, Some(e)),
                    Ok(patterns) => {
                        let mut j: usize = 0;
                        proof {
                            assert(before + texts(patterns@).subrange(0, 0).map_values(|p: Seq<char>| (p, number as nat))
                                =~= before);
                        }
                        while j < patterns.len()
                            invariant
                                j <= patterns@.len(),
                                items@.len() == before.len() + j,
                                item_views(items@) == before + texts(patterns@).subrange(0, j as int).map_values(
                                    |p: Seq<char>| (p, number as nat)),
                            decreases patterns@.len() - j,
                        {
                            let ghost prior = items@;
                            items.push((patterns[j].clone(), number));
                            proof {
                                assert forall|x: int| 0 <= x < items@.len() implies #[trigger] item_views(items@)[x]
                                    == (before + texts(patterns@).subrange(0, j + 1).map_values(
                                    |p: Seq<char>| (p, number as nat)))[x] by {
                                    if x < before.len() + j {
                                        assert(items@[x] == prior[x]);
                                        assert(item_views(prior)[x] == (before + texts(patterns@).subrange(0, j as int).map_values(
                                            |p: Seq<char>| (p, number as nat)))[x]);
                                    }
                                }
                                assert(item_views(items@) =~= before + texts(patterns@).subrange(0, j + 1).map_values(
                                    |p: Seq<char>| (p, number as nat)));
                            }
                            j = j + 1;
                        }
                        proof {
                            assert(texts(patterns@).subrange(0, j as int) =~= texts(patterns@));
                            assert(pnpm_walk(all, k as int, false).0 =~= texts(patterns@).map_values(
                                |p: Seq<char>| (p, number as nat)));
                        }
                        return (items, None);
                    }
                }
            }
            k = k + 1;
            continue;
        }
        if !indented {
            proof {
                assert(pnpm_walk(all, k as int, in_packages).0 =~= Seq::<(Seq<char>, nat)>::empty());
                assert(item_views(items@) + Seq::<(Seq<char>, nat)>::empty() =~= item_views(items@));
            }
            return (items, None);
        }
        let stripped = strip_yaml_comment(text.as_str());
        let item = trim(stripped.as_str());
        let item_chars = chars_of(item.as_str());
        if item_chars.len() == 0 {
            k = k + 1;
            continue;
        }
        if item_chars[0] != '-' {
            proof {
                assert(pnpm_walk(all, k as int, in_packages).0 =~= Seq::<(Seq<char>, nat)>::empty());
                assert(item_views(items@) + Seq::<(Seq<char>, nat)>::empty() =~= item_views(items@));
            }
            return (items, Some(line_error(number, " must be a list item under 'packages:'")));
        }
        let value_text = string_of(&item_chars, 1, item_chars.len());
        let value = trim(value_text.as_str());
        match parse_yaml_string(value.as_str(), number) {
            Err(e) => {
                proof {
                    assert(item_views(items@) + Seq::<(Seq<char>, nat)>::empty() =~= item_views(items@));
                }
                return (items, Some(e));
            }
            Ok(pattern) => {
                items.push((pattern, number));
                proof {
                    let rest = pnpm_walk(all, k + 1, true);
                    assert(item_views(items@) =~= before.push((items@.last().0@, number as nat)));
                    assert(before + (seq![(items@.last().0@, number as nat)] + rest.0) =~= item_views(items@) + rest.0);
                }
            }
        }
        k = k + 1;
    }
    proof {
        assert(item_views(items@) + Seq::<(Seq<char>, nat)>::empty() =~= item_views(items@));
    }
    (items, None)
}

/// Why a workspace pattern is refused, if it is, given what the path and glob checks
/// made of it: an empty pattern, one that leaves the project directory, or one glob
/// cannot compile. A leading `!` marks an exclusion and is not part of the path.
pub open spec fn pattern_refusal(path_pattern: Seq<char>, line: nat, leaves: bool, glob_error: Option<Seq<char>>) -> Option<Seq<char>> {
    if path_pattern.len() == 0 {
        Some(line_message(line, " contains an empty workspace pattern"@))
    } else if leaves {
        Some(line_message(line, " workspace pattern must stay inside the project directory"@))
    } else {
        match glob_error {
            Some(m) => Some(line_message(line, " contains an invalid workspace pattern: "@ + m)),
            None => None,
        }
    }
}

/// A pattern without the `!` that marks an exclusion.
pub open spec fn path_part(pattern: Seq<char>) -> Seq<char> {
    if pattern.len() > 0 && pattern[0] == '!' { pattern.subrange(1, pattern.len() as int) } else { pattern }
}

/// Whether a workspace pattern may be used: it names something, stays inside the
/// project directory and compiles as a glob. The path and glob checks are the
/// platform's and glob's; what is stated is how their answers decide.
pub fn validate_workspace_pattern(pattern: &str, line: usize) -> (r: AppResult<()>)
    ensures
        path_part(pattern@).len() == 0 ==> (r matches Err(e) && e is Message && e.text()
            == line_message(line as nat, " contains an empty workspace pattern"@)),
        r matches Err(e) ==> e is Message && exists|leaves: bool, glob_error: Option<Seq<char>>|
            pattern_refusal(path_part(pattern@), line as nat, leaves, glob_error) == Some(e.text()),
        path_part(pattern@).len() > 0 && leaves_everywhere(path_part(pattern@)) ==> (r matches Err(e) && e is Message && e.text()
            == line_message(line as nat, " workspace pattern must stay inside the project directory"@)),
        accepted_everywhere(pattern@) ==> r is Ok,
        ({
            let p = path_part(pattern@);
            p.len() > 0 && stays_everywhere(p) && no_backslash(p) ==> match glob_compile_error(p) {
                None => r is Ok,
                Some(m) => r matches Err(e) && e is Message && e.text() == line_message(
                    line as nat,
                    " contains an invalid workspace pattern: "@ + m,
                ),
            }
        }),
{
    let chars = chars_of(pattern);
    let path_pattern = if chars.len() > 0 && chars[0] == '!' {
        string_of(&chars, 1, chars.len())
    } else {
        string_of(&chars, 0, chars.len())
    };
    proof {
        assert(chars@.subrange(0, chars@.len() as int) =~= chars@);
        assert(path_pattern@ == path_part(pattern@));
    }
    if path_pattern.as_str().is_empty() {
        let e = line_error(line, " contains an empty workspace pattern");
        proof {
            assert(pattern_refusal(path_part(pattern@), line as nat, false, None) == Some(e.text()));
        }
        return Err(e);
    }
    let leaves = path_is_absolute(path_pattern.as_str()) || leaves_directory(&path_parts(path_pattern.as_str()));
    let glob_error = if leaves { None } else { glob_pattern_error(path_pattern.as_str()) };
    let verdict = pattern_verdict(path_pattern.as_str(), line, leaves, &glob_error);
    proof {
        if let Err(e) = &verdict {
            let g = match glob_error {
                Some(m) => Some(m@),
                None => None,
            };
            assert(pattern_refusal(path_part(pattern@), line as nat, leaves, g) == Some(e.text()));
        }
    }
    verdict
}

/// How the answers of the path and glob checks decide a pattern.
pub fn pattern_verdict(path_pattern: &str, line: usize, leaves: bool, glob_error: &Option<String>) -> (r: AppResult<()>)
    ensures
        ({
            let g = match *glob_error {
                Some(m) => Some(m@),
                None => None,
            };
            match pattern_refusal(path_pattern@, line as nat, leaves, g) {
                None => r is Ok,
                Some(m) => r matches Err(e) && e is Message && e.text() == m,
            }
        }),
{
    if path_pattern.is_empty() {
        return Err(line_error(line, " contains an empty workspace pattern"));
    }
    if leaves {
        return Err(line_error(line, " workspace pattern must stay inside the project directory"));
    }
    match glob_error {
        Some(m) => {
            let mut tail = String::new();
            push_str(&mut tail, " contains an invalid workspace pattern: ");
            push_str(&mut tail, m.as_str());
            Err(line_error(line, tail.as_str()))
        }
        None => Ok(()),
    }
}

/// The patterns a `pnpm-workspace.yaml` declares under `packages:`, each once, sorted.
/// Every pattern is checked as it is read, so a bad pattern on an earlier line is the
/// refusal even when a later line is malformed.
pub fn parse_pnpm_workspace_patterns(contents: &str) -> (r: AppResult<Vec<String>>)
    ensures
        r matches Ok(patterns) ==> {
            &&& pnpm_walk(text_lines(contents@), 0, false).1 is None
            &&& texts(patterns@) == sorted_unique(pnpm_walk(text_lines(contents@), 0, false).0.map_values(
                |item: (Seq<char>, nat)| item.0))
        },
        pnpm_walk(text_lines(contents@), 0, false).1 matches Some(m) ==> r is Err,
        ({
            let walk = pnpm_walk(text_lines(contents@), 0, false);
            walk.1 is None && (forall|i: int| 0 <= i < walk.0.len() ==> accepted_everywhere(#[trigger] walk.0[i].0))
                ==> r is Ok
        }),
        (exists|i: int| 0 <= i < pnpm_walk(text_lines(contents@), 0, false).0.len() && refused_everywhere(
            #[trigger] pnpm_walk(text_lines(contents@), 0, false).0[i].0,
        )) ==> r is Err,
        forall|i: int|
            0 <= i < pnpm_walk(text_lines(contents@), 0, false).0.len() && refused_everywhere(
                #[trigger] pnpm_walk(text_lines(contents@), 0, false).0[i].0,
            ) ==> (r matches Err(e) && exists|j: int, leaves: bool, glob_error: Option<Seq<char>>|
                0 <= j <= i && #[trigger] pattern_refusal(
                    path_part(pnpm_walk(text_lines(contents@), 0, false).0[j].0),
                    pnpm_walk(text_lines(contents@), 0, false).0[j].1,
                    leaves,
                    glob_error,
                ) == Some(e.text())),
        r matches Err(e) ==> e is Message,
        r matches Err(e) ==> {
            let walk = pnpm_walk(text_lines(contents@), 0, false);
            ||| walk.1 == Some(e.text())
            ||| exists|i: int, leaves: bool, glob_error: Option<Seq<char>>| {
                &&& 0 <= i < walk.0.len()
                &&& #[trigger] pattern_refusal(path_part(walk.0[i].0), walk.0[i].1, leaves, glob_error) == Some(e.text())
            }
        },
{
    let (items, syntax_error) = workspace_pattern_items(contents);
    let mut patterns: Vec<String> = Vec::new();
    let mut i: usize = 0;
    while i < items.len()
        invariant
            i <= items@.len(),
            item_views(items@) == pnpm_walk(text_lines(contents@), 0, false).0,
            patterns@.len() == i,
            texts(patterns@) == item_views(items@).subrange(0, i as int).map_values(|item: (Seq<char>, nat)| item.0),
            forall|k: int| 0 <= k < i ==> !refused_everywhere(#[trigger] item_views(items@)[k].0),
        decreases items@.len() - i,
    {
        match validate_workspace_pattern(items[i].0.as_str(), items[i].1) {
            Ok(()) => {
                proof {
                    assert(item_views(items@)[i as int] == (items@[i as int].0@, items@[i as int].1 as nat));
                }
            }
            Err(e) => {
                proof {
                    assert(item_views(items@)[i as int] == (items@[i as int].0@, items@[i as int].1 as nat));
                    assert(!accepted_everywhere(item_views(items@)[i as int].0));
                    let (leaves, glob_error) = choose|leaves: bool, glob_error: Option<Seq<char>>|
                        pattern_refusal(path_part(items@[i as int].0@), items@[i as int].1 as nat, leaves, glob_error)
                        == Some(e.text());
                    assert(pattern_refusal(
                        path_part(item_views(items@)[i as int].0),
                        item_views(items@)[i as int].1,
                        leaves,
                        glob_error,
                    ) == Some(e.text()));
                }
                return Err(e);
            }
        }
        let ghost before = patterns@;
        patterns.push(items[i].0.clone());
        proof {
            assert forall|x: int| 0 <= x < i + 1 implies #[trigger] texts(patterns@)[x] == item_views(items@).subrange(
                0, i + 1).map_values(|item: (Seq<char>, nat)| item.0)[x] by {
                assert(texts(patterns@)[x] == patterns@[x]@);
                if x < i {
                    assert(patterns@[x] == before[x]);
                    assert(texts(before)[x] == item_views(items@).subrange(0, i as int).map_values(
                        |item: (Seq<char>, nat)| item.0)[x]);
                }
            }
            assert(texts(patterns@) =~= item_views(items@).subrange(0, i + 1).map_values(|item: (Seq<char>, nat)| item.0));
        }
        i = i + 1;
    }
    if let Some(e) = syntax_error {
        return Err(e);
    }
    proof {
        assert(item_views(items@).subrange(0, i as int) =~= item_views(items@));
    }
    Ok(sorted_names(&patterns))
}


/// Whether a line of a workspace file is a comment: its text, trimmed, starts with `#`.
pub open spec fn comment_line(line: Seq<char>) -> bool {
    let text = trimmed_start(trimmed_end(line));
    text.len() > 0 && text[0] == '#'
}

/// A comment line says nothing, wherever it stands, inside the `packages:` block or
/// not: a workspace file with one of its comment lines blanked out gives the same
/// patterns, on the same lines, and the same error, as the file itself.
pub proof fn a_comment_line_changes_nothing(lines: Seq<Seq<char>>, c: int, k: int, in_packages: bool)
    requires
        0 <= c < lines.len(),
        comment_line(lines[c]),
    ensures
        pnpm_walk(lines.update(c, Seq::empty()), k, in_packages) == pnpm_walk(lines, k, in_packages),
    decreases lines.len() - k,
{
    let blanked = lines.update(c, Seq::empty());
    if 0 <= k < lines.len() {
        a_comment_line_changes_nothing(lines, c, k + 1, true);
        a_comment_line_changes_nothing(lines, c, k + 1, false);
        if k == c {
            assert(trimmed_end(blanked[k]) == Seq::<char>::empty());
            assert(trimmed_start(Seq::<char>::empty()) == Seq::<char>::empty());
        } else {
            assert(blanked[k] == lines[k]);
        }
    }
}


/// A comment line keeps the walk where it was: inside the `packages:` block it ends
/// nothing, outside it starts nothing; the walk goes on from the next line as before.
pub proof fn a_comment_line_is_passed_over(lines: Seq<Seq<char>>, k: int, in_packages: bool)
    requires
        0 <= k < lines.len(),
        comment_line(lines[k]),
    ensures
        pnpm_walk(lines, k, in_packages) == pnpm_walk(lines, k + 1, in_packages),
{
}

} // verus!
