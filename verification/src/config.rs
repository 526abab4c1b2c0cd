//! The configuration of a run, and what is derived from it before the run
//! starts: the keywords, the name of the output file, the failures that end
//! a run.

use crate::classify::{ClassificationConfig, CredType};
use crate::extract::ExtractionMode;
use crate::text::{slice, to_chars, to_text, trim, trimmed, views};
use crate::worker::{lowercase_of, ScanConfig};
use vstd::prelude::*;

verus! {

/// How the records reach the output file.
#[derive(Clone, Copy, Debug, PartialEq, Eq, Structural)]
pub enum Persistence {
    /// Every record is written as it arrives; when the run ends the file is
    /// read again and written anew with its first-seen-unique lines.
    Streaming,
    /// The records are held in memory and written once, without repetitions,
    /// when the run ends.
    Buffered,
}

/// What a run is started with.
pub struct RunConfig {
    pub scan: ScanConfig,
    /// The number of workers asked for.
    pub worker_count: usize,
    /// Whether the output file keeps what it held.
    pub append_mode: bool,
    pub persistence: Persistence,
}

/// What is wrong with a configuration.
#[derive(Clone, Copy, Debug, PartialEq, Eq, Structural)]
pub enum ConfigError {
    /// No worker was asked for.
    ZeroWorkers,
    /// The least length of a national identifier's body is above the greatest.
    InvalidThresholds,
}

/// What can go wrong in a run.
#[derive(Clone, Copy, Debug, PartialEq, Eq, Structural)]
pub enum Failure {
    /// The input directory cannot be read.
    DirectoryRead,
    /// One input file cannot be opened.
    FileOpen,
    /// The output file cannot be opened or written.
    OutputWrite,
    /// The configuration was refused.
    Config(ConfigError),
}

impl Failure {
    /// Whether the failure ends the run: all do but a file that cannot be
    /// opened, which is passed over.
    pub open spec fn is_fatal(self) -> bool {
        !(self is FileOpen)
    }

    /// Whether the failure ends the run.
    pub fn aborts_run(&self) -> (r: bool)
        ensures
            r == self.is_fatal(),
    {
        match self {
            Failure::FileOpen => false,
            _ => true,
        }
    }
}

impl RunConfig {
    /// The configuration can start a run: a worker is asked for, and the
    /// lengths of a national identifier's body form a range.
    pub open spec fn valid(&self) -> bool {
        self.worker_count >= 1 && self.scan.thresholds.min_rut_len
            <= self.scan.thresholds.max_rut_len
    }

    /// Tests the configuration before a run. The number of workers is tested
    /// first.
    pub fn validate(&self) -> (r: Result<(), ConfigError>)
        ensures
            r is Ok <==> self.valid(),
            r == Err::<(), ConfigError>(ConfigError::ZeroWorkers) <==> self.worker_count == 0,
            r == Err::<(), ConfigError>(ConfigError::InvalidThresholds) <==> self.worker_count >= 1
                && self.scan.thresholds.min_rut_len > self.scan.thresholds.max_rut_len,
    {
        if self.worker_count == 0 {
            Err(ConfigError::ZeroWorkers)
        } else if self.scan.thresholds.min_rut_len > self.scan.thresholds.max_rut_len {
            Err(ConfigError::InvalidThresholds)
        } else {
            Ok(())
        }
    }
}

impl Default for RunConfig {
    /// Four workers, no keywords, every kind of credential, the three-field
    /// split, the default thresholds, records of user name and password, held
    /// in memory and written to a file that is emptied first.
    fn default() -> (r: Self)
        ensures
            r.worker_count == 4,
            !r.append_mode,
            r.persistence == Persistence::Buffered,
            r.scan.keywords@.len() == 0,
            r.scan.filter@.len() == 0,
            r.scan.mode == ExtractionMode::FixedThreeField,
            !r.scan.strip_dots,
            !r.scan.pass_only,
            r.scan.thresholds == (ClassificationConfig {
                min_numeric_len: 7,
                min_user_len: 4,
                min_pass_len: 4,
                min_rut_len: 7,
                max_rut_len: 8,
                strict_checksum: false,
            }),
            r.valid(),
    {
        RunConfig {
            scan: ScanConfig {
                keywords: Vec::new(),
                mode: ExtractionMode::FixedThreeField,
                strip_dots: false,
                pass_only: false,
                filter: Vec::new(),
                thresholds: ClassificationConfig::default(),
            },
            worker_count: 4,
            append_mode: false,
            persistence: Persistence::Buffered,
        }
    }
}

/// A character that parts two keywords: a comma or a space.
pub open spec fn is_delimiter(c: char) -> bool {
    c == ',' || c == ' '
}

/// The first position at or after `from` that holds a delimiter; `s.len()`
/// where there is none.
pub open spec fn field_end(s: Seq<char>, from: int) -> int
    decreases s.len() - from,
{
    if from >= s.len() {
        s.len() as int
    } else if is_delimiter(s[from]) {
        from
    } else {
        field_end(s, from + 1)
    }
}

/// The parts of `s` between delimiters from position `from` on, those that
/// hold nothing left out, each without surrounding white space.
pub open spec fn fields_from(s: Seq<char>, from: int) -> Seq<Seq<char>>
    decreases s.len() - from,
{
    let end = field_end(s, from);
    let here = if end > from {
        seq![trimmed(s.subrange(from, end))]
    } else {
        Seq::empty()
    };
    if from <= end < s.len() {
        here + fields_from(s, end + 1)
    } else {
        here
    }
}

/// The parts of `s` between commas and spaces, those that hold nothing left
/// out, each without surrounding white space.
pub open spec fn fields_of(s: Seq<char>) -> Seq<Seq<char>> {
    fields_from(s, 0)
}

/// The keywords that `s` holds: its parts between commas and spaces, each in
/// lower case.
pub open spec fn keywords_of(s: Seq<char>) -> Seq<Seq<char>> {
    Seq::new(fields_of(s).len(), |i: int| lowercase_of(fields_of(s)[i]))
}

/// `s` with `_` in the place of each `.` and each `/`.
pub open spec fn file_safe(s: Seq<char>) -> Seq<char> {
    Seq::new(
        s.len(),
        |i: int|
            if s[i] == '.' || s[i] == '/' {
                '_'
            } else {
                s[i]
            },
    )
}

/// The name of the output file: the first keyword, made safe for a file name,
/// or `all` where there is no keyword; then `_`, the kind's name and `.txt`.
pub open spec fn file_name_spec(keywords: Seq<Seq<char>>, kind: CredType) -> Seq<char> {
    let first = if keywords.len() > 0 {
        file_safe(keywords[0])
    } else {
        "all"@
    };
    first + seq!['_'] + kind.name() + ".txt"@
}

/// The parts of `text` between commas and spaces, those that hold nothing
/// left out, each without surrounding white space.
pub fn keyword_fields(text: &str) -> (out: Vec<String>)
    ensures
        views(out@) == fields_of(text@),
{
    let v = to_chars(text);
    let mut out: Vec<String> = Vec::new();
    let mut from: usize = 0;
    loop
        invariant
            from <= v.len(),
            v@ == text@,
            fields_of(v@) == views(out@) + fields_from(v@, from as int),
        decreases v.len() - from,
    {
        let mut end: usize = from;
        while end < v.len() && !(v[end] == ',' || v[end] == ' ')
            invariant
                from <= end <= v.len(),
                field_end(v@, from as int) == field_end(v@, end as int),
            decreases v.len() - end,
        {
            end += 1;
        }
        let ghost held = views(out@);
        if end > from {
            let piece = trim(&slice(&v, from, end));
            assert(piece@.subrange(0, piece@.len() as int) == piece@);
            out.push(to_text(&piece, 0, piece.len()));
            assert(views(out@) == held.push(trimmed(v@.subrange(from as int, end as int))));
        }
        if end >= v.len() {
            assert(views(out@) == held + fields_from(v@, from as int));
            return out;
        }
        assert(views(out@) + fields_from(v@, end + 1) == held + fields_from(v@, from as int));
        from = end + 1;
    }
}

/// The keywords that `text` holds: its parts between commas and spaces, those
/// that hold nothing left out, each without surrounding white space and in
/// lower case.
pub fn parse_keywords(text: &str) -> (out: Vec<String>)
    ensures
        views(out@) == keywords_of(text@),
{
    let fields = keyword_fields(text);
    let mut out: Vec<String> = Vec::new();
    let mut i: usize = 0;
    while i < fields.len()
        invariant
            i <= fields.len(),
            views(fields@) == fields_of(text@),
            out@.len() == i,
            forall|j: int| 0 <= j < i ==> (#[trigger] out@[j])@ == lowercase_of(fields_of(text@)[j]),
        decreases fields.len() - i,
    {
        assert(views(fields@)[i as int] == fields@[i as int]@);
        out.push(fields[i].as_str().to_lowercase());
        i += 1;
    }
    assert(views(out@) =~= keywords_of(text@));
    out
}

/// The name of the output file of a run with these keywords that keeps the
/// credentials of `kind`.
pub fn output_file_name(keywords: &Vec<String>, kind: CredType) -> (out: String)
    ensures
        out@ == file_name_spec(views(keywords@), kind),
{
    let mut out = String::new();
    if keywords.len() > 0 {
        let first = to_chars(keywords[0].as_str());
        let mut i: usize = 0;
        while i < first.len()
            invariant
                i <= first.len(),
                out@ == file_safe(first@).take(i as int),
            decreases first.len() - i,
        {
            let c = first[i];
            if c == '.' || c == '/' {
                out.push('_');
            } else {
                out.push(c);
            }
            i += 1;
        }
        assert(file_safe(first@).take(first@.len() as int) == file_safe(first@));
        assert(views(keywords@)[0] == first@);
    } else {
        out.append("all");
    }
    out.push('_');
    out.append(kind.as_str());
    out.append(".txt");
    out
}

/// The path of the file `file_name` in the directory `dir`.
pub fn output_path(dir: &str, file_name: &str) -> (out: String)
    ensures
        out@ == dir@ + seq!['/'] + file_name@,
{
    let mut out = String::new();
    out.append(dir);
    out.push('/');
    out.append(file_name);
    out
}

} // verus!
