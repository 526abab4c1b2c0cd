//! The work on one line and on the lines of one file: the keyword gate,
//! extraction, the password length, classification and rendering.

use crate::classify::{ClassificationConfig, CredType};
use crate::extract::{
    extract, extract_spec, lemma_no_separator_no_record, render, render_spec, separator_of,
    ExtractionMode,
};
use crate::text::{contains, contains_sub, to_chars, views};
use vstd::prelude::*;
use vstd::utf8::encode_utf8;

verus! {

/// What `str::to_lowercase` returns for a string with the characters `s`.
pub uninterp spec fn lowercase_of(s: Seq<char>) -> Seq<char>;

/// `str::to_lowercase` gives the lower-case form of the whole string, by the
/// Unicode rules. The contract only names that form: it is a function of the
/// characters alone.
pub assume_specification[ str::to_lowercase ](s: &str) -> (r: String)
    ensures
        r@ == lowercase_of(s@),
;

/// What decides over a line.
pub struct ScanConfig {
    /// A line is read only if it holds one of these; with none, every line is.
    pub keywords: Vec<String>,
    pub mode: ExtractionMode,
    /// Whether the dots leave the user name.
    pub strip_dots: bool,
    /// Whether a record is the password alone.
    pub pass_only: bool,
    /// The kinds of credential that are kept; with none, every kind is.
    pub filter: Vec<CredType>,
    pub thresholds: ClassificationConfig,
}

/// A `ScanConfig` as specifications see it.
pub struct ScanRules {
    pub keywords: Seq<Seq<char>>,
    pub mode: ExtractionMode,
    pub strip_dots: bool,
    pub pass_only: bool,
    pub filter: Seq<CredType>,
    pub thresholds: ClassificationConfig,
}

impl View for ScanConfig {
    type V = ScanRules;

    open spec fn view(&self) -> ScanRules {
        ScanRules {
            keywords: views(self.keywords@),
            mode: self.mode,
            strip_dots: self.strip_dots,
            pass_only: self.pass_only,
            filter: self.filter@,
            thresholds: self.thresholds,
        }
    }
}

/// `hay` holds one of `keywords`, or there are no keywords.
pub open spec fn holds_keyword(hay: Seq<char>, keywords: Seq<Seq<char>>) -> bool {
    keywords.len() == 0 || exists|i: int|
        0 <= i < keywords.len() && contains_sub(hay, #[trigger] keywords[i])
}

/// The text in which the keywords are looked for: the line as it stands under
/// separator detection, its lower-case form under the three-field split.
pub open spec fn gate_text(line: Seq<char>, mode: ExtractionMode) -> Seq<char> {
    match mode {
        ExtractionMode::GenericSeparator => line,
        ExtractionMode::FixedThreeField => lowercase_of(line),
    }
}

/// Whether the keyword gate lets `line` through.
pub open spec fn passes_gate(line: Seq<char>, keywords: Seq<Seq<char>>, mode: ExtractionMode) -> bool {
    holds_keyword(gate_text(line, mode), keywords)
}

/// The record that `line` gives under `rules`, if it gives one: the line has
/// to pass the keyword gate and to hold a user name and a password, the
/// password has to have its least length in bytes, and the user name has to
/// be of a selected kind.
pub open spec fn line_record(line: Seq<char>, rules: ScanRules) -> Option<Seq<char>> {
    match extract_spec(line, rules.mode, rules.strip_dots) {
        Some((user, pass)) => if encode_utf8(pass).len() >= rules.thresholds.min_pass_len
            && passes_gate(line, rules.keywords, rules.mode) && rules.thresholds.accepts_spec(
            user,
            rules.filter,
        ) {
            Some(render_spec(user, pass, rules.pass_only))
        } else {
            None
        },
        None => None,
    }
}

/// The records that `lines` give under `rules`, in the order of the lines.
pub open spec fn records_of(lines: Seq<Seq<char>>, rules: ScanRules) -> Seq<Seq<char>>
    decreases lines.len(),
{
    if lines.len() == 0 {
        Seq::empty()
    } else {
        let before = records_of(lines.drop_last(), rules);
        match line_record(lines.last(), rules) {
            Some(record) => before.push(record),
            None => before,
        }
    }
}

/// Whether `hay` holds one of `keywords`; with no keywords it does.
pub fn has_keyword(hay: &str, keywords: &Vec<String>) -> (r: bool)
    ensures
        r == holds_keyword(hay@, views(keywords@)),
        keywords.len() == 0 ==> r,
{
    if keywords.len() == 0 {
        return true;
    }
    let text = to_chars(hay);
    let mut i: usize = 0;
    while i < keywords.len()
        invariant
            i <= keywords.len(),
            text@ == hay@,
            forall|j: int| 0 <= j < i ==> !contains_sub(hay@, #[trigger] views(keywords@)[j]),
        decreases keywords.len() - i,
    {
        let needle = to_chars(keywords[i].as_str());
        assert(views(keywords@)[i as int] == needle@);
        if contains(&text, &needle) {
            return true;
        }
        i += 1;
    }
    false
}

/// The keyword gate: whether `line` holds one of `keywords`, looked for in the
/// line as it stands under separator detection and in its lower-case form
/// under the three-field split. With no keywords every line passes.
pub fn keyword_gate(line: &str, keywords: &Vec<String>, mode: ExtractionMode) -> (r: bool)
    ensures
        r == passes_gate(line@, views(keywords@), mode),
        keywords.len() == 0 ==> r,
{
    if keywords.len() == 0 {
        return true;
    }
    match mode {
        ExtractionMode::GenericSeparator => has_keyword(line, keywords),
        ExtractionMode::FixedThreeField => {
            let lowered = line.to_lowercase();
            has_keyword(lowered.as_str(), keywords)
        },
    }
}

/// The record that `line` gives, if it gives one. A line that holds none of
/// `:`, `|` and `;` gives none.
pub fn process_line(line: &str, config: &ScanConfig) -> (r: Option<String>)
    ensures
        match r {
            Some(record) => line_record(line@, config@) == Some(record@),
            None => line_record(line@, config@) is None,
        },
        separator_of(line@) is None ==> r is None,
{
    let record = match extract(line, config.mode, config.strip_dots) {
        Some(record) => record,
        None => {
            return None;
        },
    };
    if record.pass.as_str().as_bytes().len() < config.thresholds.min_pass_len {
        return None;
    }
    if !keyword_gate(line, &config.keywords, config.mode) {
        return None;
    }
    if !config.thresholds.accepts(record.user.as_str(), &config.filter) {
        return None;
    }
    Some(render(&record, config.pass_only))
}

/// The lines of each of `files`.
pub open spec fn file_views(files: Seq<Vec<String>>) -> Seq<Seq<Seq<char>>> {
    Seq::new(files.len(), |i: int| views(files[i]@))
}

/// The records of `files`, each a sequence of lines, file after file.
pub open spec fn all_records(files: Seq<Seq<Seq<char>>>, rules: ScanRules) -> Seq<Seq<char>>
    decreases files.len(),
{
    if files.len() == 0 {
        Seq::empty()
    } else {
        all_records(files.drop_last(), rules) + records_of(files.last(), rules)
    }
}

/// The records that `lines` give, in the order of the lines.
pub fn scan_lines(lines: &Vec<String>, config: &ScanConfig) -> (out: Vec<String>)
    ensures
        views(out@) == records_of(views(lines@), config@),
{
    let mut out: Vec<String> = Vec::new();
    let mut i: usize = 0;
    while i < lines.len()
        invariant
            i <= lines.len(),
            views(out@) == records_of(views(lines@).take(i as int), config@),
        decreases lines.len() - i,
    {
        let ghost before = views(lines@).take(i as int);
        let ghost after = views(lines@).take(i + 1);
        assert(after.drop_last() == before);
        assert(after.last() == lines@[i as int]@);
        let ghost old_out = views(out@);
        match process_line(lines[i].as_str(), config) {
            Some(record) => {
                out.push(record);
                assert(views(out@) == old_out.push(record@));
            },
            None => {},
        }
        i += 1;
    }
    assert(views(lines@).take(lines@.len() as int) == views(lines@));
    out
}

/// The records that the lines of `files` give, file after file: the work of
/// one worker on its chunk.
pub fn scan_files(files: &Vec<Vec<String>>, config: &ScanConfig) -> (out: Vec<String>)
    ensures
        views(out@) == all_records(file_views(files@), config@),
{
    let mut out: Vec<String> = Vec::new();
    let mut i: usize = 0;
    while i < files.len()
        invariant
            i <= files.len(),
            views(out@) == all_records(file_views(files@).take(i as int), config@),
        decreases files.len() - i,
    {
        assert(file_views(files@).take(i + 1).drop_last() == file_views(files@).take(i as int));
        assert(file_views(files@).take(i + 1).last() == views(files@[i as int]@));
        let ghost held = views(out@);
        let mut found = scan_lines(&files[i], config);
        let ghost added = views(found@);
        out.append(&mut found);
        assert(views(out@) == held + added);
        i += 1;
    }
    assert(file_views(files@).take(files@.len() as int) == file_views(files@));
    out
}

/// With no keywords every line passes the keyword gate, and gives the record
/// that its parts and the classifier allow.
pub proof fn lemma_no_keywords_pass_all(line: Seq<char>, rules: ScanRules)
    requires
        rules.keywords.len() == 0,
    ensures
        passes_gate(line, rules.keywords, rules.mode),
        line_record(line, rules) == (match extract_spec(line, rules.mode, rules.strip_dots) {
            Some((user, pass)) => if encode_utf8(pass).len() >= rules.thresholds.min_pass_len
                && rules.thresholds.accepts_spec(user, rules.filter) {
                Some(render_spec(user, pass, rules.pass_only))
            } else {
                None
            },
            None => None,
        }),
{
}

/// A line without `:`, `|` and `;` gives no record under any rules.
pub proof fn lemma_no_separator_no_line_record(line: Seq<char>, rules: ScanRules)
    requires
        separator_of(line) is None,
    ensures
        line_record(line, rules) is None,
{
    lemma_no_separator_no_record(line, rules.mode, rules.strip_dots);
}

} // verus!
