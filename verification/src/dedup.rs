//! The aggregator: the one consumer of the workers' records, which keeps each
//! record once, in the order in which it first came.

use crate::text::views;
use vstd::hash_set::StringHashSet;
use vstd::prelude::*;

verus! {

/// `seen` with `record` at its end, unless `seen` holds it already.
pub open spec fn insert_unique(seen: Seq<Seq<char>>, record: Seq<char>) -> Seq<Seq<char>> {
    if seen.contains(record) {
        seen
    } else {
        seen.push(record)
    }
}

/// The records of `stream` without repetitions, each at the place of its
/// first occurrence.
pub open spec fn first_seen(stream: Seq<Seq<char>>) -> Seq<Seq<char>>
    decreases stream.len(),
{
    if stream.len() == 0 {
        Seq::empty()
    } else {
        insert_unique(first_seen(stream.drop_last()), stream.last())
    }
}

/// The first `limit` records of `records`, or all of them if there are fewer.
pub open spec fn head(records: Seq<Seq<char>>, limit: int) -> Seq<Seq<char>> {
    if records.len() <= limit {
        records
    } else {
        records.take(limit)
    }
}

/// The number of records that a preview shows.
pub const PREVIEW_LEN: usize = 10;

/// What a run hands back: the first unique records and how many there are.
#[derive(Debug, PartialEq, Eq)]
pub struct RunSummary {
    pub preview: Vec<String>,
    pub total_unique_count: usize,
}

/// The consumer's state: the unique records so far, in first-seen order, and
/// the two numbers that progress is reported with.
pub struct Aggregator {
    seen: StringHashSet,
    unique: Vec<String>,
    processed: usize,
    total_files: usize,
}

impl Aggregator {
    /// The set and the list hold the same records, and the list holds none
    /// twice.
    pub closed spec fn wf(&self) -> bool {
        &&& self.seen@ == views(self.unique@).to_set()
        &&& views(self.unique@).no_duplicates()
    }

    /// The unique records so far, in first-seen order.
    pub closed spec fn records(&self) -> Seq<Seq<char>> {
        views(self.unique@)
    }

    /// The number of records taken so far, repetitions included; it stops at
    /// the greatest `usize`.
    pub closed spec fn processed_count(&self) -> int {
        self.processed as int
    }

    /// The number of files of the run.
    pub closed spec fn file_count(&self) -> int {
        self.total_files as int
    }

    /// A well-formed aggregator holds no record twice.
    pub proof fn lemma_no_record_twice(&self)
        requires
            self.wf(),
        ensures
            self.records().no_duplicates(),
    {
    }

    /// An aggregator that has taken nothing, for a run over `total_files`
    /// files.
    pub fn new(total_files: usize) -> (r: Self)
        ensures
            r.wf(),
            r.records() == Seq::<Seq<char>>::empty(),
            r.processed_count() == 0,
            r.file_count() == total_files,
    {
        let r = Aggregator {
            seen: StringHashSet::new(),
            unique: Vec::new(),
            processed: 0,
            total_files,
        };
        assert(views(r.unique@) == Seq::<Seq<char>>::empty());
        assert(views(r.unique@).to_set() == Set::<Seq<char>>::empty());
        r
    }

    /// Takes one record. A record that was seen before changes nothing but
    /// the count; a new one goes to the end of the list. Returns whether the
    /// record was new.
    pub fn accept(&mut self, record: String) -> (fresh: bool)
        requires
            old(self).wf(),
        ensures
            final(self).wf(),
            final(self).records() == insert_unique(old(self).records(), record@),
            fresh == !old(self).records().contains(record@),
            final(self).file_count() == old(self).file_count(),
            final(self).processed_count() == (if old(self).processed_count() < usize::MAX {
                old(self).processed_count() + 1
            } else {
                old(self).processed_count()
            }),
    {
        if self.processed < usize::MAX {
            self.processed = self.processed + 1;
        }
        let ghost before = views(self.unique@);
        if self.seen.contains(record.as_str()) {
            false
        } else {
            let copy = record.clone();
            self.seen.insert(copy);
            self.unique.push(record);
            proof {
                let after = views(self.unique@);
                assert(after == before.push(record@));
                assert(after.to_set() == before.to_set().insert(record@)) by {
                    before.lemma_push_to_set_commute(record@);
                }
            }
            true
        }
    }

    /// The numbers of a progress report: the records taken so far and the
    /// files of the run. Their quotient is the fraction that is reported; it
    /// passes one where the files give more records than there are files.
    pub fn progress(&self) -> (r: (usize, usize))
        ensures
            r.0 == self.processed_count(),
            r.1 == self.file_count(),
    {
        (self.processed, self.total_files)
    }

    /// The number of unique records so far.
    pub fn unique_count(&self) -> (n: usize)
        ensures
            n == self.records().len(),
    {
        self.unique.len()
    }

    /// The unique records so far, in first-seen order.
    pub fn unique(&self) -> (r: &Vec<String>)
        ensures
            views(r@) == self.records(),
    {
        &self.unique
    }

    /// Ends the run: the unique records, in first-seen order.
    pub fn into_records(self) -> (r: Vec<String>)
        ensures
            views(r@) == self.records(),
    {
        self.unique
    }
}

/// The records of `stream` without repetitions, in first-seen order: none
/// occurs twice, and each record of `stream` occurs.
pub fn dedup(stream: &Vec<String>) -> (out: Vec<String>)
    ensures
        views(out@) == first_seen(views(stream@)),
        views(out@).no_duplicates(),
        views(out@).to_set() == views(stream@).to_set(),
{
    proof {
        lemma_first_seen_set(views(stream@));
    }
    let mut agg = Aggregator::new(0);
    let mut i: usize = 0;
    while i < stream.len()
        invariant
            i <= stream.len(),
            agg.wf(),
            agg.records() == first_seen(views(stream@).take(i as int)),
        decreases stream.len() - i,
    {
        assert(views(stream@).take(i + 1).drop_last() == views(stream@).take(i as int));
        agg.accept(stream[i].clone());
        i += 1;
    }
    assert(views(stream@).take(stream@.len() as int) == views(stream@));
    agg.into_records()
}

/// The first `PREVIEW_LEN` records of `unique`, and their whole number.
pub fn summarize(unique: &Vec<String>) -> (r: RunSummary)
    ensures
        views(r.preview@) == head(views(unique@), PREVIEW_LEN as int),
        r.total_unique_count == unique.len(),
{
    let mut preview: Vec<String> = Vec::new();
    let mut i: usize = 0;
    while i < unique.len() && i < PREVIEW_LEN
        invariant
            i <= unique.len(),
            i <= PREVIEW_LEN,
            views(preview@) == views(unique@).take(i as int),
        decreases unique.len() - i,
    {
        let ghost shown = views(preview@);
        let record = unique[i].clone();
        preview.push(record);
        assert(views(preview@) == shown.push(unique@[i as int]@));
        assert(views(unique@).take(i + 1) == views(unique@).take(i as int).push(
            unique@[i as int]@,
        ));
        i += 1;
    }
    assert(views(unique@).take(unique@.len() as int) == views(unique@));
    RunSummary { preview, total_unique_count: unique.len() }
}

/// Taking a record a second time changes nothing.
pub proof fn lemma_insert_unique_idempotent(seen: Seq<Seq<char>>, record: Seq<char>)
    ensures
        insert_unique(insert_unique(seen, record), record) == insert_unique(seen, record),
        insert_unique(seen, record).contains(record),
{
    if !seen.contains(record) {
        assert(seen.push(record)[seen.len() as int] == record);
    }
}

/// Removing repetitions keeps every record that occurs and brings in none,
/// and what is left holds no record twice.
pub proof fn lemma_first_seen_set(stream: Seq<Seq<char>>)
    ensures
        first_seen(stream).to_set() == stream.to_set(),
        first_seen(stream).no_duplicates(),
        first_seen(stream).len() <= stream.len(),
    decreases stream.len(),
{
    if stream.len() > 0 {
        let front = stream.drop_last();
        let last = stream.last();
        lemma_first_seen_set(front);
        let kept = first_seen(front);
        assert(stream == front.push(last));
        front.lemma_push_to_set_commute(last);
        if kept.contains(last) {
            assert(kept.to_set().contains(last));
            assert(front.to_set().insert(last) == front.to_set());
        } else {
            kept.lemma_push_to_set_commute(last);
        }
    }
}

/// A stream that holds no record twice is left as it is.
pub proof fn lemma_first_seen_fixed(stream: Seq<Seq<char>>)
    requires
        stream.no_duplicates(),
    ensures
        first_seen(stream) == stream,
    decreases stream.len(),
{
    if stream.len() > 0 {
        let front = stream.drop_last();
        lemma_first_seen_fixed(front);
        if front.contains(stream.last()) {
            let i = choose|i: int| 0 <= i < front.len() && front[i] == stream.last();
            assert(stream[i] == stream[stream.len() - 1]);
        }
        assert(stream == front.push(stream.last()));
    }
}

/// Removing repetitions a second time changes nothing.
pub proof fn lemma_first_seen_idempotent(stream: Seq<Seq<char>>)
    ensures
        first_seen(first_seen(stream)) == first_seen(stream),
{
    lemma_first_seen_set(stream);
    lemma_first_seen_fixed(first_seen(stream));
}

/// The set of unique records does not depend on the order in which the
/// records came, nor on how often each came: two streams that hold the same
/// records give the same set.
pub proof fn lemma_unique_set_order_free(a: Seq<Seq<char>>, b: Seq<Seq<char>>)
    requires
        a.to_set() == b.to_set(),
    ensures
        first_seen(a).to_set() == first_seen(b).to_set(),
{
    lemma_first_seen_set(a);
    lemma_first_seen_set(b);
}

/// Two streams of which one is a rearrangement of the other give the same
/// set of unique records.
pub proof fn lemma_unique_set_of_rearrangement(a: Seq<Seq<char>>, b: Seq<Seq<char>>)
    requires
        a.to_multiset() == b.to_multiset(),
    ensures
        first_seen(a).to_set() == first_seen(b).to_set(),
{
    broadcast use vstd::seq_lib::to_multiset_contains;

    assert forall|x: Seq<char>| a.to_set().contains(x) == b.to_set().contains(x) by {
        assert(a.contains(x) <==> a.to_multiset().count(x) > 0);
        assert(b.contains(x) <==> b.to_multiset().count(x) > 0);
    }
    assert(a.to_set() == b.to_set());
    lemma_unique_set_order_free(a, b);
}

} // verus!
