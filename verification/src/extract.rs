//! Line extraction: from one raw line to a user name and a password.

use crate::text::{
    first_index, is_space, last_index, last_position, lemma_last_position, lemma_position_from,
    lemma_trimmed_ends, position, slice, strip, to_chars, to_text, trim, trimmed, without,
};
use vstd::prelude::*;

verus! {

/// How a line is taken apart.
#[derive(Clone, Copy, Debug, PartialEq, Eq, Structural)]
pub enum ExtractionMode {
    /// The separator is looked for: `:` first, then `|`, then `;`.
    GenericSeparator,
    /// The line is `source:user:pass`, cut at its last two colons.
    FixedThreeField,
}

/// The user name and the password that a line holds.
#[derive(Debug, PartialEq, Eq)]
pub struct ParsedRecord {
    pub user: String,
    pub pass: String,
}

impl View for ParsedRecord {
    type V = (Seq<char>, Seq<char>);

    open spec fn view(&self) -> (Seq<char>, Seq<char>) {
        (self.user@, self.pass@)
    }
}

/// The separator of `s`: the first of `:`, `|` and `;` that occurs in it.
pub open spec fn separator_of(s: Seq<char>) -> Option<char> {
    if s.contains(':') {
        Some(':')
    } else if s.contains('|') {
        Some('|')
    } else if s.contains(';') {
        Some(';')
    } else {
        None
    }
}

/// The two parts of `s` around the first occurrence of its separator.
pub open spec fn split_once(s: Seq<char>) -> Option<(Seq<char>, Seq<char>)> {
    match separator_of(s) {
        Some(sep) => Some((s.take(position(s, sep)), s.skip(position(s, sep) + 1))),
        None => None,
    }
}

/// The user name and password of `line` by separator detection: the line is
/// split once at its separator, and what follows is split once more at its
/// own separator. A line that lacks either separator gives nothing.
pub open spec fn split_generic(line: Seq<char>) -> Option<(Seq<char>, Seq<char>)> {
    match split_once(line) {
        Some((_, right)) => split_once(right),
        None => None,
    }
}

/// The user name and password of `line` as `source:user:pass`: the line is cut
/// at its last two colons, and each of the three parts has to hold something.
pub open spec fn split_fixed(line: Seq<char>) -> Option<(Seq<char>, Seq<char>)> {
    let j = last_position(line, ':', line.len() as int);
    let i = last_position(line, ':', j);
    if 0 < i && i + 1 < j && j + 1 < line.len() {
        Some((line.subrange(i + 1, j), line.skip(j + 1)))
    } else {
        None
    }
}

/// The user name as it is handed on: without its dots where `strip_dots` asks
/// for that, and without surrounding white space.
pub open spec fn clean_user(user: Seq<char>, strip_dots: bool) -> Seq<char> {
    trimmed(
        if strip_dots {
            without(user, '.')
        } else {
            user
        },
    )
}

/// What extraction gives for `line`.
pub open spec fn extract_spec(line: Seq<char>, mode: ExtractionMode, strip_dots: bool) -> Option<
    (Seq<char>, Seq<char>),
> {
    let parts = match mode {
        ExtractionMode::GenericSeparator => split_generic(line),
        ExtractionMode::FixedThreeField => split_fixed(line),
    };
    match parts {
        Some((user, pass)) => Some((clean_user(user, strip_dots), trimmed(pass))),
        None => None,
    }
}

/// The record as one line of output: the password alone where `pass_only` is
/// set, else the user name, a colon and the password.
pub open spec fn render_spec(user: Seq<char>, pass: Seq<char>, pass_only: bool) -> Seq<char> {
    if pass_only {
        pass
    } else {
        user + seq![':'] + pass
    }
}

/// The two parts of `v` around the first occurrence of its separator.
pub fn cut_once(v: &Vec<char>) -> (r: Option<(Vec<char>, Vec<char>)>)
    ensures
        match r {
            Some((left, right)) => split_once(v@) == Some((left@, right@)),
            None => split_once(v@) is None,
        },
{
    let mut at = first_index(v, ':');
    if at == v.len() {
        at = first_index(v, '|');
    }
    if at == v.len() {
        at = first_index(v, ';');
    }
    if at == v.len() {
        return None;
    }
    Some((slice(v, 0, at), slice(v, at + 1, v.len())))
}

/// The user name and password of `v`, split by separator detection.
pub fn cut_generic(v: &Vec<char>) -> (r: Option<(Vec<char>, Vec<char>)>)
    ensures
        match r {
            Some((user, pass)) => split_generic(v@) == Some((user@, pass@)),
            None => split_generic(v@) is None,
        },
{
    match cut_once(v) {
        Some((_, right)) => cut_once(&right),
        None => None,
    }
}

/// The user name and password of `v`, split as `source:user:pass`.
pub fn cut_fixed(v: &Vec<char>) -> (r: Option<(Vec<char>, Vec<char>)>)
    ensures
        match r {
            Some((user, pass)) => split_fixed(v@) == Some((user@, pass@)),
            None => split_fixed(v@) is None,
        },
{
    let j = match last_index(v, ':', v.len()) {
        Some(j) => j,
        None => {
            return None;
        },
    };
    let i = match last_index(v, ':', j) {
        Some(i) => i,
        None => {
            return None;
        },
    };
    if 0 < i && i + 1 < j && j + 1 < v.len() {
        Some((slice(v, i + 1, j), slice(v, j + 1, v.len())))
    } else {
        None
    }
}

/// A sequence that neither starts nor ends with white space.
pub open spec fn is_trimmed(s: Seq<char>) -> bool {
    s.len() > 0 ==> !is_space(s.first()) && !is_space(s.last())
}

/// Takes `line` apart under `mode`. Both parts come back without surrounding
/// white space, the user name without its dots where `strip_dots` is set. A
/// line that holds none of `:`, `|` and `;` gives nothing.
pub fn extract(line: &str, mode: ExtractionMode, strip_dots: bool) -> (r: Option<ParsedRecord>)
    ensures
        match r {
            Some(record) => extract_spec(line@, mode, strip_dots) == Some(record@),
            None => extract_spec(line@, mode, strip_dots) is None,
        },
        separator_of(line@) is None ==> r is None,
        r matches Some(record) ==> is_trimmed(record.user@) && is_trimmed(record.pass@),
{
    proof {
        if separator_of(line@) is None {
            lemma_no_separator_no_record(line@, mode, strip_dots);
        }
        lemma_parts_trimmed(line@, mode, strip_dots);
    }
    let v = to_chars(line);
    let parts = match mode {
        ExtractionMode::GenericSeparator => cut_generic(&v),
        ExtractionMode::FixedThreeField => cut_fixed(&v),
    };
    match parts {
        Some((user, pass)) => {
            let user = if strip_dots {
                trim(&strip(&user, '.'))
            } else {
                trim(&user)
            };
            let pass = trim(&pass);
            assert(user@.subrange(0, user@.len() as int) == user@);
            assert(pass@.subrange(0, pass@.len() as int) == pass@);
            Some(
                ParsedRecord {
                    user: to_text(&user, 0, user.len()),
                    pass: to_text(&pass, 0, pass.len()),
                },
            )
        },
        None => None,
    }
}

/// The record as one line of output.
pub fn render(record: &ParsedRecord, pass_only: bool) -> (out: String)
    ensures
        out@ == render_spec(record.user@, record.pass@, pass_only),
{
    if pass_only {
        record.pass.clone()
    } else {
        let mut out = record.user.clone();
        out.push(':');
        out.append(record.pass.as_str());
        out
    }
}

/// A line without `:`, `|` and `;` gives no record, however it is taken
/// apart.
pub proof fn lemma_no_separator_no_record(line: Seq<char>, mode: ExtractionMode, strip_dots: bool)
    requires
        separator_of(line) is None,
    ensures
        extract_spec(line, mode, strip_dots) is None,
{
    lemma_last_position(line, ':', line.len() as int);
    let j = last_position(line, ':', line.len() as int);
    if j >= 0 {
        assert(line.contains(':'));
    }
}

/// The two parts that `split_once` gives, joined again by the separator, are
/// the sequence that was split, and the first part holds no such separator.
pub proof fn lemma_split_once_rejoins(s: Seq<char>)
    ensures
        separator_of(s) is None <==> split_once(s) is None,
        (split_once(s), separator_of(s)) matches (Some((left, right)), Some(sep)) ==> left
            + seq![sep] + right == s && !left.contains(sep),
{
    if let Some(sep) = separator_of(s) {
        lemma_position_from(s, sep, 0);
        let at = position(s, sep);
        assert(s.contains(sep));
        let i = choose|i: int| 0 <= i < s.len() && s[i] == sep;
        assert(at <= i);
        let left = s.take(at);
        let right = s.skip(at + 1);
        assert(left + seq![sep] + right == s);
        if left.contains(sep) {
            let j = choose|j: int| 0 <= j < left.len() && left[j] == sep;
            assert(s[j] == sep);
        }
    }
}

/// The parts that `split_fixed` gives come from a line of the form
/// `source:user:pass` in which each part holds something and neither the user
/// name nor the password holds a colon.
pub proof fn lemma_split_fixed_rejoins(line: Seq<char>)
    ensures
        split_fixed(line) matches Some((user, pass)) ==> user.len() > 0 && pass.len() > 0
            && !user.contains(':') && !pass.contains(':') && exists|source: Seq<char>|
            source.len() > 0 && #[trigger] (source + seq![':'] + user + seq![':'] + pass) == line,
{
    if let Some((user, pass)) = split_fixed(line) {
        let j = last_position(line, ':', line.len() as int);
        lemma_last_position(line, ':', line.len() as int);
        let i = last_position(line, ':', j);
        lemma_last_position(line, ':', j);
        let source = line.take(i);
        assert(source + seq![':'] + user + seq![':'] + pass == line);
        if user.contains(':') {
            let k = choose|k: int| 0 <= k < user.len() && user[k] == ':';
            assert(line[i + 1 + k] == ':');
        }
        if pass.contains(':') {
            let k = choose|k: int| 0 <= k < pass.len() && pass[k] == ':';
            assert(line[j + 1 + k] == ':');
        }
    }
}

/// Every line of the form `source:user:pass` in which each part holds
/// something and neither the user name nor the password holds a colon is
/// split into that user name and that password.
pub proof fn lemma_split_fixed_of_joined(source: Seq<char>, user: Seq<char>, pass: Seq<char>)
    requires
        source.len() > 0,
        user.len() > 0,
        pass.len() > 0,
        !user.contains(':'),
        !pass.contains(':'),
    ensures
        split_fixed(source + seq![':'] + user + seq![':'] + pass) == Some((user, pass)),
{
    let line = source + seq![':'] + user + seq![':'] + pass;
    let i0 = source.len() as int;
    let j0 = i0 + 1 + user.len();
    assert(line[i0] == ':');
    assert(line[j0] == ':');
    assert forall|k: int| j0 < k < line.len() implies line[k] != ':' by {
        assert(line[k] == pass[k - j0 - 1]);
    }
    assert forall|k: int| i0 < k < j0 implies line[k] != ':' by {
        assert(line[k] == user[k - i0 - 1]);
    }
    lemma_last_position(line, ':', line.len() as int);
    let j = last_position(line, ':', line.len() as int);
    assert(j == j0);
    lemma_last_position(line, ':', j);
    let i = last_position(line, ':', j);
    assert(i == i0);
    assert(line.subrange(i + 1, j) == user);
    assert(line.skip(j + 1) == pass);
}

/// Both parts of what extraction gives are free of surrounding white space.
pub proof fn lemma_parts_trimmed(line: Seq<char>, mode: ExtractionMode, strip_dots: bool)
    ensures
        extract_spec(line, mode, strip_dots) matches Some((user, pass)) ==> is_trimmed(user)
            && is_trimmed(pass),
{
    let parts = match mode {
        ExtractionMode::GenericSeparator => split_generic(line),
        ExtractionMode::FixedThreeField => split_fixed(line),
    };
    if let Some((user, pass)) = parts {
        lemma_trimmed_ends(pass);
        if strip_dots {
            lemma_trimmed_ends(without(user, '.'));
        } else {
            lemma_trimmed_ends(user);
        }
    }
}

} // verus!
