//! The `.env` file format read by the build tooling: one `KEY=VALUE` entry
//! per line, with optional `export ` prefixes, `#` comments and quoted values.
use vstd::prelude::*;

use crate::text::{
    is_white_space, lemma_trim_padded, lemma_first_index_of, chars_of, copy_range, find_char, first_index_of, has_prefix, replace_escape,
    replace_escape_chars, starts_with, string_of, trim, trim_chars, trim_start,
};

verus! {

/// What one line of a `.env` file is.
pub enum EnvLineKind {
    /// A blank line or a `#` comment.
    Skip,
    /// A line with no `=`.
    MissingSeparator,
    /// A line whose key is empty after trimming.
    EmptyKey,
    /// An entry: the trimmed key and the trimmed raw value.
    Entry(Seq<char>, Seq<char>),
}

/// One classified line of a `.env` file.
pub enum EnvLine {
    Skip,
    MissingSeparator,
    EmptyKey,
    Entry { key: String, raw_value: String },
}

impl View for EnvLine {
    type V = EnvLineKind;

    open spec fn view(&self) -> EnvLineKind {
        match self {
            EnvLine::Skip => EnvLineKind::Skip,
            EnvLine::MissingSeparator => EnvLineKind::MissingSeparator,
            EnvLine::EmptyKey => EnvLineKind::EmptyKey,
            EnvLine::Entry { key, raw_value } => EnvLineKind::Entry(key@, raw_value@),
        }
    }
}

/// The `export ` prefix that shell-style files put before assignments.
pub open spec fn export_prefix() -> Seq<char> {
    seq!['e', 'x', 'p', 'o', 'r', 't', ' ']
}

/// The trimmed line without a leading `export `.
pub open spec fn strip_export(line: Seq<char>) -> Seq<char> {
    if has_prefix(line, export_prefix()) {
        line.skip(7)
    } else {
        line
    }
}

/// How the loader reads one raw line of a `.env` file.
pub open spec fn classify_env_line(raw: Seq<char>) -> EnvLineKind {
    let line = trim(raw);
    if line.len() == 0 || line[0] == '#' {
        EnvLineKind::Skip
    } else {
        let rest = strip_export(line);
        match first_index_of(rest, '=') {
            None => EnvLineKind::MissingSeparator,
            Some(i) => {
                let key = trim(rest.take(i));
                if key.len() == 0 {
                    EnvLineKind::EmptyKey
                } else {
                    EnvLineKind::Entry(key, trim(rest.skip(i + 1)))
                }
            },
        }
    }
}

/// A raw value that opens a quote also closes it with the same quote.
pub open spec fn value_is_terminated(raw: Seq<char>) -> bool {
    (raw.len() > 0 && (raw[0] == '"' || raw[0] == '\'')) ==> (raw.len() >= 2 && raw.last()
        == raw[0])
}

/// The escapes of a double-quoted value, decoded in the loader's order:
/// `\"`, then `\n`, then `\r`, then `\t`.
pub open spec fn unescape(inner: Seq<char>) -> Seq<char> {
    replace_escape(
        replace_escape(replace_escape(replace_escape(inner, '"', '"'), 'n', '\n'), 'r', '\r'),
        't',
        '\t',
    )
}

/// The value of a quoted raw value: the text between the quotes, with its
/// escapes decoded where the quote is `"`.
pub open spec fn quoted_value(raw: Seq<char>, quote: char) -> Seq<char> {
    let inner = raw.subrange(1, raw.len() - 1);
    if quote == '"' {
        unescape(inner)
    } else {
        inner
    }
}

/// The value that a trimmed raw value stands for.
pub open spec fn env_value(raw: Seq<char>) -> Seq<char> {
    if raw.len() == 0 {
        raw
    } else if raw[0] == '"' {
        quoted_value(raw, '"')
    } else if raw[0] == '\'' {
        quoted_value(raw, '\'')
    } else {
        raw
    }
}

/// Classifies one raw line of a `.env` file.
pub fn parse_env_line(raw_line: &str) -> (res: EnvLine)
    ensures
        res@ == classify_env_line(raw_line@),
{
    let raw = chars_of(raw_line);
    let line = trim_chars(raw.as_slice());
    if line.len() == 0 || line[0] == '#' {
        return EnvLine::Skip;
    }
    let prefix = chars_of("export ");
    proof {
        reveal_strlit("export ");
        assert(prefix@ == export_prefix());
    }
    let rest = if starts_with(line.as_slice(), prefix.as_slice()) {
        copy_range(line.as_slice(), 7, line.len())
    } else {
        line
    };
    assert(rest@ == strip_export(trim(raw_line@)));
    match find_char(rest.as_slice(), '=') {
        None => EnvLine::MissingSeparator,
        Some(i) => {
            assert(rest@.subrange(0, i as int) == rest@.take(i as int));
            let key = trim_chars(&rest.as_slice()[0..i]);
            if key.len() == 0 {
                EnvLine::EmptyKey
            } else {
                assert(rest@.subrange(i + 1, rest@.len() as int) == rest@.skip(i + 1));
                let value = trim_chars(&rest.as_slice()[i + 1..rest.len()]);
                EnvLine::Entry { key: string_of(key.as_slice()), raw_value: string_of(value.as_slice()) }
            }
        },
    }
}

/// Whether a raw value closes the quote it opens; the loader refuses one that
/// does not.
pub fn value_terminated(raw_value: &str) -> (res: bool)
    ensures
        res == value_is_terminated(raw_value@),
{
    let raw = chars_of(raw_value);
    let n = raw.len();
    if n > 0 && (raw[0] == '"' || raw[0] == '\'') {
        n >= 2 && raw[n - 1] == raw[0]
    } else {
        true
    }
}

/// The value of a raw value between `quote`s: what lies between the quotes,
/// with `\"`, `\n`, `\r` and `\t` decoded in turn where the quote is `"`.
pub fn parse_quoted_value(raw_value: &str, quote: char) -> (res: String)
    requires
        quote == '"' || quote == '\'',
        raw_value@.len() >= 2,
        raw_value@.last() == quote,
        (raw_value@[0] as u32) < 0x80,
    ensures
        res@ == quoted_value(raw_value@, quote),
{
    let raw = chars_of(raw_value);
    let inner = copy_range(raw.as_slice(), 1, raw.len() - 1);
    if quote == '"' {
        let a = replace_escape_chars(inner.as_slice(), '"', '"');
        let b = replace_escape_chars(a.as_slice(), 'n', '\n');
        let c = replace_escape_chars(b.as_slice(), 'r', '\r');
        let d = replace_escape_chars(c.as_slice(), 't', '\t');
        string_of(d.as_slice())
    } else {
        string_of(inner.as_slice())
    }
}

/// The value that a trimmed raw value stands for: empty stays empty, a quoted
/// value is unquoted, anything else is taken as it is.
pub fn parse_value(raw_value: &str) -> (res: String)
    requires
        value_is_terminated(raw_value@),
    ensures
        res@ == env_value(raw_value@),
{
    let raw = chars_of(raw_value);
    if raw.len() == 0 {
        return string_of(raw.as_slice());
    }
    if raw[0] == '"' {
        return parse_quoted_value(raw_value, '"');
    }
    if raw[0] == '\'' {
        return parse_quoted_value(raw_value, '\'');
    }
    string_of(raw.as_slice())
}

/// Replacing escapes never lengthens a text.
proof fn lemma_replace_escape_len(s: Seq<char>, marker: char, replacement: char)
    ensures
        replace_escape(s, marker, replacement).len() <= s.len(),
    decreases s.len(),
{
    if s.len() >= 2 {
        if s[0] == '\\' && s[1] == marker {
            lemma_replace_escape_len(s.skip(2), marker, replacement);
        } else {
            lemma_replace_escape_len(s.drop_first(), marker, replacement);
        }
    }
}

/// A text without backslashes has no escapes to replace.
proof fn lemma_replace_escape_plain(s: Seq<char>, marker: char, replacement: char)
    requires
        forall|i: int| 0 <= i < s.len() ==> s[i] != '\\',
    ensures
        replace_escape(s, marker, replacement) == s,
    decreases s.len(),
{
    if s.len() >= 2 {
        lemma_replace_escape_plain(s.drop_first(), marker, replacement);
        assert(seq![s[0]] + s.drop_first() =~= s);
    }
}

/// A parsed value is never longer than the raw value it came from.
pub proof fn law_value_not_longer(raw: Seq<char>)
    requires
        value_is_terminated(raw),
    ensures
        env_value(raw).len() <= raw.len(),
{
    if raw.len() > 0 && raw[0] == '"' {
        let inner = raw.subrange(1, raw.len() - 1);
        let a = replace_escape(inner, '"', '"');
        let b = replace_escape(a, 'n', '\n');
        let c = replace_escape(b, 'r', '\r');
        lemma_replace_escape_len(inner, '"', '"');
        lemma_replace_escape_len(a, 'n', '\n');
        lemma_replace_escape_len(b, 'r', '\r');
        lemma_replace_escape_len(c, 't', '\t');
    }
}

/// A double-quoted value without backslashes stands for the text between its
/// quotes, unchanged.
pub proof fn law_plain_double_quoted(raw: Seq<char>)
    requires
        raw.len() >= 2,
        raw[0] == '"',
        raw.last() == '"',
        forall|i: int| 1 <= i < raw.len() - 1 ==> raw[i] != '\\',
    ensures
        env_value(raw) == raw.subrange(1, raw.len() - 1),
{
    let inner = raw.subrange(1, raw.len() - 1);
    lemma_replace_escape_plain(inner, '"', '"');
    lemma_replace_escape_plain(inner, 'n', '\n');
    lemma_replace_escape_plain(inner, 'r', '\r');
    lemma_replace_escape_plain(inner, 't', '\t');
}

/// A line without a trailing carriage return.
pub open spec fn strip_carriage_return(line: Seq<char>) -> Seq<char> {
    if line.len() > 0 && line.last() == '\r' {
        line.drop_last()
    } else {
        line
    }
}

/// `str::lines`: the text split at `\n` and `\r\n` line endings; a final line
/// ending is optional and makes no empty last line.
pub open spec fn text_lines(s: Seq<char>) -> Seq<Seq<char>>
    decreases s.len(),
{
    if s.len() == 0 {
        Seq::empty()
    } else {
        proof {
            lemma_first_index_of(s, '\n');
        }
        match first_index_of(s, '\n') {
            None => seq![s],
            Some(i) => seq![strip_carriage_return(s.take(i))] + text_lines(s.skip(i + 1)),
        }
    }
}

/// The lines of a `.env` file's text.
pub fn env_lines(contents: &str) -> (res: Vec<String>)
    ensures
        res@.len() == text_lines(contents@).len(),
        forall|k: int| 0 <= k < res@.len() ==> res@[k]@ == text_lines(contents@)[k],
{
    let text = chars_of(contents);
    let n = text.len();
    let mut res: Vec<String> = Vec::new();
    let mut start: usize = 0;
    assert(text@.skip(0) == text@);
    while start < n
        invariant
            start <= n == text@.len(),
            forall|k: int|
                0 <= k < res@.len() ==> #[trigger] res@[k]@ == text_lines(text@)[k],
            text_lines(text@) =~= res@.map_values(|l: String| l@) + text_lines(
                text@.skip(start as int),
            ),
        decreases n - start,
    {
        let ghost rest = text@.skip(start as int);
        let mut end: usize = start;
        while end < n && text[end] != '\n'
            invariant
                start <= end <= n == text@.len(),
                forall|k: int| start <= k < end ==> text@[k] != '\n',
            decreases n - end,
        {
            end = end + 1;
        }
        proof {
            lemma_first_index_of(rest, '\n');
            if end < n {
                assert(rest[end - start] == '\n');
                assert forall|k: int| 0 <= k < end - start implies rest[k] != '\n' by {
                    assert(rest[k] == text@[start + k]);
                }
                match first_index_of(rest, '\n') {
                    Some(i) => {
                        if i < end - start {
                            assert(rest[i] == text@[start + i]);
                        }
                        assert(i == end - start);
                    },
                    None => {
                        assert(rest[end - start] == '\n');
                    },
                }
            } else {
                assert forall|k: int| 0 <= k < rest.len() implies rest[k] != '\n' by {
                    assert(rest[k] == text@[start + k]);
                }
                match first_index_of(rest, '\n') {
                    Some(i) => {
                        assert(rest[i] == text@[start + i]);
                    },
                    None => {},
                }
            }
        }
        let line_end = if end < n && end > start && text[end - 1] == '\r' {
            end - 1
        } else {
            end
        };
        let line = string_of(&text.as_slice()[start..line_end]);
        proof {
            assert(rest.take(end - start) =~= text@.subrange(start as int, end as int));
            if end < n {
                assert(line@ =~= strip_carriage_return(rest.take(end - start)));
                assert(text_lines(rest) == seq![strip_carriage_return(rest.take(end - start))]
                    + text_lines(rest.skip(end - start + 1)));
            } else {
                assert(rest.take(end - start) =~= rest);
                assert(line@ =~= rest);
                assert(text_lines(rest) == seq![rest]);
            }
        }
        let ghost before = res@;
        res.push(line);
        if end < n {
            assert(rest.skip(end - start + 1) =~= text@.skip(end + 1));
            assert(res@.map_values(|l: String| l@) =~= before.map_values(|l: String| l@).push(
                line@,
            ));
            start = end + 1;
        } else {
            assert(text@.skip(n as int).len() == 0);
            assert(res@.map_values(|l: String| l@) =~= before.map_values(|l: String| l@).push(
                line@,
            ));
            start = n;
        }
        assert(text_lines(text@) =~= res@.map_values(|l: String| l@) + text_lines(
            text@.skip(start as int),
        ));
    }
    assert(text@.skip(n as int).len() == 0);
    res
}

/// What the loader does with one entry.
pub enum EntryAction {
    /// The variable is already set: the entry is passed over.
    Keep,
    /// The value opens a quote it does not close: the loader stops.
    UnterminatedQuote,
    /// The variable is set to the value.
    Assign { key: String, value: String },
}

/// Decides what to do with the entry `key = raw_value`, where `already_set`
/// says whether the environment already has `key`.
pub fn entry_action(key: String, raw_value: &str, already_set: bool) -> (res: EntryAction)
    ensures
        already_set ==> res is Keep,
        !already_set && !value_is_terminated(raw_value@) ==> res is UnterminatedQuote,
        !already_set && value_is_terminated(raw_value@) ==> (res matches EntryAction::Assign {
            key: k,
            value: v,
        } && k == key && v@ == env_value(raw_value@)),
{
    if already_set {
        EntryAction::Keep
    } else if !value_terminated(raw_value) {
        EntryAction::UnterminatedQuote
    } else {
        EntryAction::Assign { key, value: parse_value(raw_value) }
    }
}

/// The first `=` of a line is the one after its key.
proof fn lemma_first_equals_at(s: Seq<char>, i: int)
    requires
        0 <= i < s.len(),
        s[i] == '=',
        forall|k: int| 0 <= k < i ==> s[k] != '=',
    ensures
        first_index_of(s, '=') == Some(i),
{
    lemma_first_index_of(s, '=');
    match first_index_of(s, '=') {
        Some(j) => {
            if j < i {
                assert(s[j] == '=');
            } else if j > i {
                assert(s[i] != '=');
            }
        },
        None => {
            assert(s[i] != '=');
        },
    }
}

/// A line `key=value`, with any whitespace around it, is an entry whose key
/// is the trimmed text before the first `=` and whose raw value is the whole
/// trimmed rest of the line, spaces inside it included. The key does not
/// start a comment or an `export ` prefix and holds no `=`.
pub proof fn law_entry_line(w1: Seq<char>, key: Seq<char>, value: Seq<char>, w2: Seq<char>)
    requires
        forall|i: int| 0 <= i < w1.len() ==> is_white_space(w1[i]),
        forall|i: int| 0 <= i < w2.len() ==> is_white_space(w2[i]),
        key.len() > 0,
        !is_white_space(key[0]),
        key[0] != '#',
        !has_prefix(key, seq!['e', 'x', 'p', 'o', 'r', 't', ' ']),
        forall|i: int| 0 <= i < key.len() ==> key[i] != '=',
        value.len() == 0 || !is_white_space(value.last()),
    ensures
        classify_env_line(w1 + key + seq!['='] + value + w2) == EnvLineKind::Entry(
            trim(key),
            trim(value),
        ),
{
    let line = key + seq!['='] + value;
    assert(line[0] == key[0]);
    assert(!is_white_space(line.last())) by {
        if value.len() == 0 {
            assert(line.last() == '=');
        } else {
            assert(line.last() == value.last());
        }
    }
    lemma_trim_padded(w1, line, w2);
    assert(w1 + key + seq!['='] + value + w2 =~= w1 + line + w2);
    assert(!has_prefix(line, export_prefix())) by {
        if key.len() >= 7 {
            assert(line.subrange(0, 7) =~= key.subrange(0, 7));
        } else {
            assert(line[key.len() as int] == '=');
            if has_prefix(line, export_prefix()) {
                assert(line.subrange(0, 7)[key.len() as int] == line[key.len() as int]);
            }
        }
    }
    assert(line[key.len() as int] == '=');
    assert forall|k: int| 0 <= k < key.len() implies line[k] != '=' by {
        assert(line[k] == key[k]);
    }
    lemma_first_equals_at(line, key.len() as int);
    assert(line.take(key.len() as int) =~= key);
    assert(line.skip(key.len() as int + 1) =~= value);
    crate::text::lemma_trim_keeps_first(key);
}

/// A raw value is refused exactly when it opens a quote (`"` or `'`) that it
/// does not close with the same quote: a value quoted at both ends with the
/// same quote is accepted, and so is any value that does not start with one.
pub proof fn law_value_terminated(raw: Seq<char>)
    ensures
        raw.len() >= 2 && raw[0] == '"' && raw.last() == '"' ==> value_is_terminated(raw),
        raw.len() >= 2 && raw[0] == '\'' && raw.last() == '\'' ==> value_is_terminated(raw),
        raw.len() == 0 || (raw[0] != '"' && raw[0] != '\'') ==> value_is_terminated(raw),
        raw.len() > 0 && (raw[0] == '"' || raw[0] == '\'') && (raw.len() < 2 || raw.last()
            != raw[0]) ==> !value_is_terminated(raw),
{
}

/// A single-quoted value stands for the text between its quotes, unchanged,
/// backslashes included.
pub proof fn law_single_quoted_verbatim(inner: Seq<char>)
    ensures
        value_is_terminated(seq!['\''] + inner + seq!['\'']),
        env_value(seq!['\''] + inner + seq!['\'']) == inner,
{
    let raw = seq!['\''] + inner + seq!['\''];
    assert(raw[0] == '\'');
    assert(raw.last() == '\'');
    assert(raw.subrange(1, raw.len() - 1) =~= inner);
}

/// A value that does not start with a quote is taken as it is.
pub proof fn law_unquoted_verbatim(raw: Seq<char>)
    requires
        raw.len() == 0 || (raw[0] != '"' && raw[0] != '\''),
    ensures
        value_is_terminated(raw),
        env_value(raw) == raw,
{
}

/// A line ending with `\n` (or `\r\n`) is the first line of the text, and the
/// lines after it are those of the rest.
pub proof fn law_lines_split_at_newline(line: Seq<char>, rest: Seq<char>, crlf: bool)
    requires
        forall|i: int| 0 <= i < line.len() ==> line[i] != '\n',
        line.len() == 0 || line.last() != '\r',
    ensures
        text_lines(line + (if crlf { seq!['\r', '\n'] } else { seq!['\n'] }) + rest) == seq![line]
            + text_lines(rest),
        line.len() > 0 ==> text_lines(line) == seq![line],
        text_lines(Seq::empty()).len() == 0,
{
    if line.len() > 0 {
        lemma_first_index_of(line, '\n');
        match first_index_of(line, '\n') {
            Some(j) => {
                assert(line[j] != '\n');
            },
            None => {},
        }
    }
    let end = if crlf { seq!['\r', '\n'] } else { seq!['\n'] };
    let s = line + end + rest;
    let n: int = if crlf { line.len() as int + 1 } else { line.len() as int };
    assert(s[n] == '\n');
    assert forall|k: int| 0 <= k < n implies s[k] != '\n' by {
        if k < line.len() {
            assert(s[k] == line[k]);
        } else {
            assert(s[k] == '\r');
        }
    }
    lemma_first_index_of(s, '\n');
    match first_index_of(s, '\n') {
        Some(j) => {
            if j < n {
                assert(s[j] != '\n');
            } else if j > n {
                assert(s[n] != '\n');
            }
        },
        None => {
            assert(s[n] != '\n');
        },
    }
    assert(s.skip(n + 1) =~= rest);
    if crlf {
        assert(s.take(n).drop_last() =~= line);
        assert(s.take(n).last() == '\r');
    } else {
        assert(s.take(n) =~= line);
    }
}

/// Escape replacement leaves a leading text without backslashes alone.
proof fn lemma_replace_escape_plain_prefix(a: Seq<char>, rest: Seq<char>, marker: char, replacement: char)
    requires
        forall|i: int| 0 <= i < a.len() ==> a[i] != '\\',
    ensures
        replace_escape(a + rest, marker, replacement) == a + replace_escape(rest, marker, replacement),
    decreases a.len(),
{
    if a.len() > 0 {
        let s = a + rest;
        lemma_replace_escape_plain_prefix(a.drop_first(), rest, marker, replacement);
        assert(s.drop_first() =~= a.drop_first() + rest);
        if s.len() < 2 {
            assert(rest.len() == 0);
            assert(replace_escape(rest, marker, replacement) == rest);
            assert(s =~= a + rest);
        } else {
            assert(s[0] == a[0]);
            assert(seq![a[0]] + (a.drop_first() + replace_escape(rest, marker, replacement)) =~= a
                + replace_escape(rest, marker, replacement));
        }
    } else {
        assert(a + rest =~= rest);
        assert(a + replace_escape(rest, marker, replacement) =~= replace_escape(rest, marker, replacement));
    }
}

/// One escape in a text without other backslashes: replaced where it is the
/// one being replaced, kept otherwise.
proof fn lemma_replace_one_escape(
    a: Seq<char>,
    m: char,
    b: Seq<char>,
    marker: char,
    replacement: char,
)
    requires
        forall|i: int| 0 <= i < a.len() ==> a[i] != '\\',
        forall|i: int| 0 <= i < b.len() ==> b[i] != '\\',
        m != '\\',
        replacement != '\\',
    ensures
        replace_escape(a + seq!['\\', m] + b, marker, replacement) == if m == marker {
            a + seq![replacement] + b
        } else {
            a + seq!['\\', m] + b
        },
{
    let rest = seq!['\\', m] + b;
    assert(a + seq!['\\', m] + b =~= a + rest);
    lemma_replace_escape_plain_prefix(a, rest, marker, replacement);
    lemma_replace_escape_plain(b, marker, replacement);
    assert(rest.skip(2) =~= b);
    if m != marker {
        let tail = seq![m] + b;
        assert(rest.drop_first() =~= tail);
        lemma_replace_escape_plain(tail, marker, replacement);
        assert(seq!['\\'] + tail =~= rest);
    } else {
        assert(a + (seq![replacement] + b) =~= a + seq![replacement] + b);
    }
}

/// In a double-quoted value, each of `\"`, `\n`, `\r` and `\t` stands for the
/// quote, newline, carriage return and tab it escapes, and a backslash before
/// any other character stays as it is.
pub proof fn law_double_quoted_escape(a: Seq<char>, m: char, b: Seq<char>)
    requires
        forall|i: int| 0 <= i < a.len() ==> a[i] != '\\',
        forall|i: int| 0 <= i < b.len() ==> b[i] != '\\',
        m != '\\',
    ensures
        env_value(seq!['"'] + a + seq!['\\', m] + b + seq!['"']) == if m == '"' {
            a + seq!['"'] + b
        } else if m == 'n' {
            a + seq!['\n'] + b
        } else if m == 'r' {
            a + seq!['\r'] + b
        } else if m == 't' {
            a + seq!['\t'] + b
        } else {
            a + seq!['\\', m] + b
        },
{
    let raw = seq!['"'] + a + seq!['\\', m] + b + seq!['"'];
    let inner = a + seq!['\\', m] + b;
    assert(raw[0] == '"');
    assert(raw.subrange(1, raw.len() - 1) =~= inner);
    lemma_replace_one_escape(a, m, b, '"', '"');
    let s1 = replace_escape(inner, '"', '"');
    if m == '"' {
        let d = a + seq!['"'] + b;
        assert forall|i: int| 0 <= i < d.len() implies d[i] != '\\' by {
            if i < a.len() {
                assert(d[i] == a[i]);
            } else if i > a.len() {
                assert(d[i] == b[i - a.len() - 1]);
            }
        }
        lemma_replace_escape_plain(d, 'n', '\n');
        lemma_replace_escape_plain(d, 'r', '\r');
        lemma_replace_escape_plain(d, 't', '\t');
    } else {
        lemma_replace_one_escape(a, m, b, 'n', '\n');
        if m == 'n' {
            let d = a + seq!['\n'] + b;
            assert forall|i: int| 0 <= i < d.len() implies d[i] != '\\' by {
                if i < a.len() {
                    assert(d[i] == a[i]);
                } else if i > a.len() {
                    assert(d[i] == b[i - a.len() - 1]);
                }
            }
            lemma_replace_escape_plain(d, 'r', '\r');
            lemma_replace_escape_plain(d, 't', '\t');
        } else {
            lemma_replace_one_escape(a, m, b, 'r', '\r');
            if m == 'r' {
                let d = a + seq!['\r'] + b;
                assert forall|i: int| 0 <= i < d.len() implies d[i] != '\\' by {
                    if i < a.len() {
                        assert(d[i] == a[i]);
                    } else if i > a.len() {
                        assert(d[i] == b[i - a.len() - 1]);
                    }
                }
                lemma_replace_escape_plain(d, 't', '\t');
            } else {
                lemma_replace_one_escape(a, m, b, 't', '\t');
            }
        }
    }
}

/// A blank line, and a line whose first non-blank character is `#`, are
/// skipped.
pub proof fn law_blank_and_comment_lines(w: Seq<char>, rest: Seq<char>)
    requires
        forall|i: int| 0 <= i < w.len() ==> is_white_space(w[i]),
    ensures
        classify_env_line(w) == EnvLineKind::Skip,
        classify_env_line(w + seq!['#'] + rest) == EnvLineKind::Skip,
{
    crate::text::lemma_trim_start_skips_white_space(w, Seq::empty());
    assert(w + Seq::<char>::empty() =~= w);
    crate::text::lemma_trim_start_skips_white_space(w, seq!['#'] + rest);
    assert(w + seq!['#'] + rest =~= w + (seq!['#'] + rest));
    crate::text::lemma_trim_keeps_first(seq!['#'] + rest);
}

/// A line that is not blank, not a comment and has no `=` is refused as
/// having no separator; one whose `=` comes first is refused as having no
/// key.
pub proof fn law_malformed_lines(w1: Seq<char>, line: Seq<char>, w2: Seq<char>)
    requires
        forall|i: int| 0 <= i < w1.len() ==> is_white_space(w1[i]),
        forall|i: int| 0 <= i < w2.len() ==> is_white_space(w2[i]),
        line.len() > 0,
        !is_white_space(line[0]),
        !is_white_space(line.last()),
        line[0] != '#',
        !has_prefix(line, seq!['e', 'x', 'p', 'o', 'r', 't', ' ']),
    ensures
        (forall|i: int| 0 <= i < line.len() ==> line[i] != '=') ==> classify_env_line(
            w1 + line + w2,
        ) == EnvLineKind::MissingSeparator,
        line[0] == '=' ==> classify_env_line(w1 + line + w2) == EnvLineKind::EmptyKey,
{
    lemma_trim_padded(w1, line, w2);
    lemma_first_index_of(line, '=');
    if line[0] == '=' {
        lemma_first_equals_at(line, 0);
        assert(line.take(0).len() == 0);
        assert(trim_start(line.take(0)).len() == 0);
    }
    if forall|i: int| 0 <= i < line.len() ==> line[i] != '=' {
        match first_index_of(line, '=') {
            Some(j) => {
                assert(line[j] == '=');
            },
            None => {},
        }
    }
}

/// A line `export key=value` is the entry `key=value`: the prefix is dropped
/// and the key trimmed.
pub proof fn law_export_line(w1: Seq<char>, key: Seq<char>, value: Seq<char>, w2: Seq<char>)
    requires
        forall|i: int| 0 <= i < w1.len() ==> is_white_space(w1[i]),
        forall|i: int| 0 <= i < w2.len() ==> is_white_space(w2[i]),
        trim(key).len() > 0,
        forall|i: int| 0 <= i < key.len() ==> key[i] != '=',
        value.len() == 0 || !is_white_space(value.last()),
    ensures
        classify_env_line(
            w1 + seq!['e', 'x', 'p', 'o', 'r', 't', ' '] + key + seq!['='] + value + w2,
        ) == EnvLineKind::Entry(trim(key), trim(value)),
{
    let p = seq!['e', 'x', 'p', 'o', 'r', 't', ' '];
    let rest = key + seq!['='] + value;
    let line = p + rest;
    assert(line[0] == 'e');
    assert(!is_white_space(line.last())) by {
        if value.len() == 0 {
            assert(line.last() == '=');
        } else {
            assert(line.last() == value.last());
        }
    }
    lemma_trim_padded(w1, line, w2);
    assert(w1 + p + key + seq!['='] + value + w2 =~= w1 + line + w2);
    assert(line.subrange(0, 7) =~= export_prefix());
    assert(line.skip(7) =~= rest);
    assert(rest[key.len() as int] == '=');
    assert forall|k: int| 0 <= k < key.len() implies rest[k] != '=' by {
        assert(rest[k] == key[k]);
    }
    lemma_first_equals_at(rest, key.len() as int);
    assert(rest.take(key.len() as int) =~= key);
    assert(rest.skip(key.len() as int + 1) =~= value);
}

} // verus!
