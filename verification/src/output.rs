//! What the output writer puts into the file.

use crate::config::Persistence;
use crate::dedup::{dedup, first_seen, lemma_first_seen_set};
use crate::text::views;
use vstd::prelude::*;

verus! {

/// The text of an output file that holds `records`: each record on a line of
/// its own, each line closed by a line feed, nothing before and nothing
/// escaped.
pub open spec fn lines_text(records: Seq<Seq<char>>) -> Seq<char>
    decreases records.len(),
{
    if records.len() == 0 {
        Seq::empty()
    } else {
        lines_text(records.drop_last()) + records.last() + seq!['\n']
    }
}

/// How the output file is opened. Either way it is made if it is not there.
#[derive(Clone, Copy, Debug, PartialEq, Eq, Structural)]
pub enum OpenMode {
    /// What the file held stays, and what is written follows it.
    Append,
    /// What the file held is thrown away first.
    Truncate,
}

/// What is written when a run ends.
#[derive(Debug, PartialEq, Eq)]
pub struct Closing {
    /// Whether `text` takes the place of all that the file holds; where it
    /// does not, `text` is added at the file's end.
    pub replace: bool,
    pub text: String,
}

/// The lines of the output file after a run: `held` are the lines that the
/// file held before, `stream` the records in the order in which they came.
/// Without `append` nothing of `held` stays. A streaming run writes each
/// record behind what stays and then removes the repetitions of the whole
/// file; a buffered run removes the repetitions of its own records and
/// writes them behind what stays.
pub open spec fn file_after(
    held: Seq<Seq<char>>,
    stream: Seq<Seq<char>>,
    append: bool,
    persistence: Persistence,
) -> Seq<Seq<char>> {
    let kept = if append {
        held
    } else {
        Seq::empty()
    };
    match persistence {
        Persistence::Streaming => first_seen(kept + stream),
        Persistence::Buffered => kept + first_seen(stream),
    }
}

/// How the output file is opened.
pub fn open_mode(append_mode: bool) -> (r: OpenMode)
    ensures
        r == (if append_mode {
            OpenMode::Append
        } else {
            OpenMode::Truncate
        }),
{
    if append_mode {
        OpenMode::Append
    } else {
        OpenMode::Truncate
    }
}

/// What is added to the output file when `record` arrives: its line in a
/// streaming run, nothing in a buffered one.
pub fn arrival_text(persistence: Persistence, record: &str) -> (r: Option<String>)
    ensures
        r matches Some(text) ==> text@ == record@ + seq!['\n'],
        r is Some <==> persistence == Persistence::Streaming,
{
    match persistence {
        Persistence::Streaming => {
            let mut text = String::new();
            text.append(record);
            text.push('\n');
            Some(text)
        },
        Persistence::Buffered => None,
    }
}

/// What is written when the run ends. In a streaming run `lines` are the
/// lines that the file holds by then, and their first-seen-unique ones take
/// the place of the file's content. In a buffered run `lines` are the records
/// that came, and their first-seen-unique ones are added to the file.
pub fn closing(persistence: Persistence, lines: &Vec<String>) -> (r: Closing)
    ensures
        r.replace == (persistence == Persistence::Streaming),
        r.text@ == lines_text(first_seen(views(lines@))),
{
    let unique = dedup(lines);
    let replace = match persistence {
        Persistence::Streaming => true,
        Persistence::Buffered => false,
    };
    Closing { replace, text: render_output(&unique) }
}

/// The text of an output file that holds `records`.
pub fn render_output(records: &Vec<String>) -> (out: String)
    ensures
        out@ == lines_text(views(records@)),
{
    let mut out = String::new();
    let mut i: usize = 0;
    while i < records.len()
        invariant
            i <= records.len(),
            out@ == lines_text(views(records@).take(i as int)),
        decreases records.len() - i,
    {
        assert(views(records@).take(i + 1).drop_last() == views(records@).take(i as int));
        assert(views(records@).take(i + 1).last() == records@[i as int]@);
        out.append(records[i].as_str());
        out.push('\n');
        i += 1;
    }
    assert(views(records@).take(records@.len() as int) == views(records@));
    out
}

/// The text for two lists of records, one after the other, is the two texts
/// joined: what is appended to a file follows what the file held.
pub proof fn lemma_lines_text_joined(a: Seq<Seq<char>>, b: Seq<Seq<char>>)
    ensures
        lines_text(a + b) == lines_text(a) + lines_text(b),
    decreases b.len(),
{
    if b.len() == 0 {
        assert(a + b == a);
    } else {
        lemma_lines_text_joined(a, b.drop_last());
        assert((a + b).drop_last() == a + b.drop_last());
        assert((a + b).last() == b.last());
    }
}

/// A run that does not append leaves the unique records of its stream in the
/// file, whichever way they were written, and none of them twice.
pub proof fn lemma_truncated_file(
    held: Seq<Seq<char>>,
    stream: Seq<Seq<char>>,
    persistence: Persistence,
)
    ensures
        file_after(held, stream, false, persistence) == first_seen(stream),
        file_after(held, stream, false, persistence).no_duplicates(),
{
    lemma_first_seen_set(stream);
    assert(Seq::<Seq<char>>::empty() + stream == stream);
    assert(Seq::<Seq<char>>::empty() + first_seen(stream) == first_seen(stream));
}

/// A streaming run leaves no line twice in the file, also where it appends:
/// the file then holds the lines that it held and the records that came, each
/// once.
pub proof fn lemma_streamed_file(held: Seq<Seq<char>>, stream: Seq<Seq<char>>, append: bool)
    ensures
        file_after(held, stream, append, Persistence::Streaming).no_duplicates(),
        append ==> file_after(held, stream, append, Persistence::Streaming).to_set()
            == held.to_set().union(stream.to_set()),
{
    let kept = if append {
        held
    } else {
        Seq::empty()
    };
    lemma_first_seen_set(kept + stream);
    vstd::seq_lib::seq_to_set_distributes_over_add(held, stream);
}

/// A buffered run that appends keeps the lines that the file held, in their
/// places, before its own.
pub proof fn lemma_appended_file(held: Seq<Seq<char>>, stream: Seq<Seq<char>>)
    ensures
        held.is_prefix_of(file_after(held, stream, true, Persistence::Buffered)),
        file_after(held, stream, true, Persistence::Buffered).skip(held.len() as int)
            == first_seen(stream),
{
}

} // verus!
