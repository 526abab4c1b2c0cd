//! The distributor: how many workers a run has and which files each of them
//! reads.

use crate::dedup::{first_seen, lemma_first_seen_set, lemma_unique_set_of_rearrangement};
use crate::text::views;
use crate::worker::{all_records, ScanRules};
use vstd::prelude::*;

verus! {

/// The number of workers of a run: the number asked for, but at least one and
/// at most one for each file.
pub open spec fn clamped_workers(requested: int, file_count: int) -> int {
    let most = if file_count >= 1 {
        file_count
    } else {
        1
    };
    if requested < 1 {
        1
    } else if requested > most {
        most
    } else {
        requested
    }
}

/// The number of files in each chunk but the last: `file_count / workers`,
/// rounded up.
pub open spec fn chunk_len(file_count: int, workers: int) -> int {
    (file_count + workers - 1) / workers
}

/// The place in the file list at which chunk `k` begins: `k * size`, and the
/// end of the list where that lies beyond it.
pub open spec fn chunk_start(k: int, size: int, file_count: int) -> int {
    if k * size < file_count {
        k * size
    } else {
        file_count
    }
}

/// The number of chunks: `file_count / size`, rounded up; none without files.
pub open spec fn chunk_count(file_count: int, size: int) -> int {
    if file_count == 0 {
        0
    } else {
        (file_count + size - 1) / size
    }
}

/// Chunk `k` of `items`.
pub open spec fn chunk_of<T>(items: Seq<T>, k: int, size: int) -> Seq<T> {
    items.subrange(
        chunk_start(k, size, items.len() as int),
        chunk_start(k + 1, size, items.len() as int),
    )
}

/// The number of workers for `file_count` files where `requested` were asked
/// for.
pub fn clamp_workers(requested: usize, file_count: usize) -> (r: usize)
    ensures
        r == clamped_workers(requested as int, file_count as int),
        1 <= r,
{
    let most = if file_count >= 1 {
        file_count
    } else {
        1
    };
    if requested < 1 {
        1
    } else if requested > most {
        most
    } else {
        requested
    }
}

/// The number of files in each chunk but the last.
pub fn chunk_size(file_count: usize, workers: usize) -> (r: usize)
    requires
        workers >= 1,
    ensures
        r == chunk_len(file_count as int, workers as int),
        r * workers >= file_count,
        file_count > 0 ==> r >= 1,
{
    let q = file_count / workers;
    let m = file_count % workers;
    proof {
        lemma_round_up(file_count as int, workers as int);
        assert(q <= file_count) by (nonlinear_arith)
            requires
                q == file_count / workers,
                workers >= 1,
                file_count >= 0,
        ;
        assert(file_count == q * workers + m) by (nonlinear_arith)
            requires
                q == file_count / workers,
                m == file_count % workers,
                workers >= 1,
        ;
        assert(m > 0 ==> q < file_count) by (nonlinear_arith)
            requires
                file_count == q * workers + m,
                workers >= 1,
                q >= 0,
        ;
    }
    if m == 0 {
        q
    } else {
        q + 1
    }
}

/// `n / d` rounded up is `n / d` where `d` divides `n`, and one more where it
/// does not; `d` times it reaches `n`.
proof fn lemma_round_up(n: int, d: int)
    requires
        n >= 0,
        d >= 1,
    ensures
        (n + d - 1) / d == (if n % d == 0 {
            n / d
        } else {
            n / d + 1
        }),
        ((n + d - 1) / d) * d >= n,
        ((n + d - 1) / d - 1) * d < n || n == 0,
        n > 0 ==> (n + d - 1) / d >= 1,
{
    let q = n / d;
    let m = n % d;
    assert(n == q * d + m && 0 <= m < d) by (nonlinear_arith)
        requires
            q == n / d,
            m == n % d,
            d >= 1,
    ;
    if m == 0 {
        assert((q * d + d - 1) / d == q) by (nonlinear_arith)
            requires
                d >= 1,
        ;
    } else {
        assert((q * d + m + d - 1) / d == q + 1) by (nonlinear_arith)
            requires
                d >= 1,
                0 < m < d,
        ;
        assert((q + 1) * d >= q * d + m) by (nonlinear_arith)
            requires
                m < d,
        ;
    }
    assert(q >= 0) by (nonlinear_arith)
        requires
            n == q * d + m,
            0 <= m < d,
            n >= 0,
            d >= 1,
    ;
    assert((q - 1) * d < q * d + m || q * d + m == 0) by (nonlinear_arith)
        requires
            d >= 1,
            m >= 0,
            q >= 0,
    ;
    assert(n > 0 && m == 0 ==> q >= 1) by (nonlinear_arith)
        requires
            n == q * d + m,
            q >= 0,
    ;
}

/// A number of chunks `k` with `(k - 1) * size < n <= k * size` is `n / size`
/// rounded up.
proof fn lemma_count_is_round_up(n: int, size: int, k: int)
    requires
        n > 0,
        size >= 1,
        (k - 1) * size < n,
        n <= k * size,
    ensures
        k == (n + size - 1) / size,
{
    lemma_round_up(n, size);
    let c = (n + size - 1) / size;
    assert(k <= c) by (nonlinear_arith)
        requires
            (k - 1) * size < n,
            n <= c * size,
            size >= 1,
    ;
    assert(c <= k) by (nonlinear_arith)
        requires
            (c - 1) * size < n,
            n <= k * size,
            size >= 1,
    ;
}

/// With chunks of `size` files, where `size * workers` reaches the number of
/// files, there are no more chunks than workers.
proof fn lemma_count_within_workers(n: int, size: int, workers: int)
    requires
        n >= 0,
        size >= 1,
        workers >= 1,
        size * workers >= n,
    ensures
        chunk_count(n, size) <= workers,
{
    if n > 0 {
        lemma_round_up(n, size);
        let c = (n + size - 1) / size;
        assert(c <= workers) by (nonlinear_arith)
            requires
                (c - 1) * size < n,
                n <= size * workers,
                size >= 1,
        ;
    }
}

/// The chunks of a list of `file_count` files for `requested` workers, each
/// as the places where it begins and ends: contiguous, in order, each of the
/// chunk length but the last, which may be shorter.
pub fn plan_chunks(file_count: usize, requested: usize) -> (out: Vec<(usize, usize)>)
    ensures
        out@.len() == chunk_count(
            file_count as int,
            chunk_len(file_count as int, clamped_workers(requested as int, file_count as int)),
        ),
        out@.len() <= clamped_workers(requested as int, file_count as int),
        forall|k: int|
            0 <= k < out@.len() ==> (#[trigger] out@[k]).0 == chunk_start(
                k,
                chunk_len(file_count as int, clamped_workers(requested as int, file_count as int)),
                file_count as int,
            ) && out@[k].1 == chunk_start(
                k + 1,
                chunk_len(file_count as int, clamped_workers(requested as int, file_count as int)),
                file_count as int,
            ) && out@[k].0 < out@[k].1,
{
    let workers = clamp_workers(requested, file_count);
    let size = chunk_size(file_count, workers);
    let mut out: Vec<(usize, usize)> = Vec::new();
    if file_count == 0 {
        return out;
    }
    proof {
        lemma_count_within_workers(file_count as int, size as int, workers as int);
    }
    let mut start: usize = 0;
    while start < file_count
        invariant
            size >= 1,
            start <= file_count,
            start == chunk_start(out@.len() as int, size as int, file_count as int),
            start < file_count ==> start == out@.len() * size,
            start == file_count ==> out@.len() >= 1 && (out@.len() - 1) * size < file_count,
            forall|k: int|
                0 <= k < out@.len() ==> (#[trigger] out@[k]).0 == chunk_start(
                    k,
                    size as int,
                    file_count as int,
                ) && out@[k].1 == chunk_start(k + 1, size as int, file_count as int) && out@[k].0
                    < out@[k].1,
        decreases file_count - start,
    {
        let end = if file_count - start > size {
            start + size
        } else {
            file_count
        };
        proof {
            let k = out@.len() as int;
            assert((k + 1) * size == k * size + size) by (nonlinear_arith);
            assert(k * size < file_count);
        }
        out.push((start, end));
        start = end;
    }
    proof {
        let k = out@.len() as int;
        assert(file_count <= k * size) by {
            if k * size < file_count {
                assert(chunk_start(k, size as int, file_count as int) == k * size);
            }
        }
        lemma_count_is_round_up(file_count as int, size as int, k);
    }
    out
}

/// The files of `files` chunk by chunk, for `requested` workers.
pub fn distribute(files: &Vec<String>, requested: usize) -> (out: Vec<Vec<String>>)
    ensures
        out@.len() == chunk_count(
            files@.len() as int,
            chunk_len(files@.len() as int, clamped_workers(requested as int, files@.len() as int)),
        ),
        out@.len() <= clamped_workers(requested as int, files@.len() as int),
        forall|k: int|
            0 <= k < out@.len() ==> views((#[trigger] out@[k])@) == chunk_of(
                views(files@),
                k,
                chunk_len(files@.len() as int, clamped_workers(requested as int, files@.len() as int)),
            ) && out@[k]@.len() >= 1,
{
    let plan = plan_chunks(files.len(), requested);
    let ghost size = chunk_len(
        files@.len() as int,
        clamped_workers(requested as int, files@.len() as int),
    );
    let mut out: Vec<Vec<String>> = Vec::new();
    let mut k: usize = 0;
    while k < plan.len()
        invariant
            k <= plan.len(),
            out@.len() == k,
            forall|j: int|
                0 <= j < plan@.len() ==> (#[trigger] plan@[j]).0 == chunk_start(
                    j,
                    size,
                    files@.len() as int,
                ) && plan@[j].1 == chunk_start(j + 1, size, files@.len() as int) && plan@[j].0
                    < plan@[j].1,
            forall|j: int|
                0 <= j < k ==> views((#[trigger] out@[j])@) == chunk_of(views(files@), j, size)
                    && out@[j]@.len() >= 1,
        decreases plan.len() - k,
    {
        let (from, to) = plan[k];
        assert(plan@[k as int].1 == chunk_start(k + 1, size, files@.len() as int));
        let mut chunk: Vec<String> = Vec::new();
        let mut i: usize = from;
        while i < to
            invariant
                from <= i <= to <= files.len(),
                views(chunk@) == views(files@).subrange(from as int, i as int),
                chunk@.len() == i - from,
            decreases to - i,
        {
            let ghost held = views(chunk@);
            let name = files[i].clone();
            chunk.push(name);
            assert(views(chunk@) == held.push(files@[i as int]@));
            assert(views(files@).subrange(from as int, i + 1) == views(files@).subrange(
                from as int,
                i as int,
            ).push(files@[i as int]@));
            i += 1;
        }
        out.push(chunk);
        k += 1;
    }
    out
}

/// What the first `workers` workers give, one after the other, where each
/// reads its chunk of `files`.
pub open spec fn worker_outputs(
    files: Seq<Seq<Seq<char>>>,
    rules: ScanRules,
    size: int,
    workers: int,
) -> Seq<Seq<char>>
    decreases workers,
{
    if workers <= 0 {
        Seq::empty()
    } else {
        worker_outputs(files, rules, size, workers - 1) + all_records(
            chunk_of(files, workers - 1, size),
            rules,
        )
    }
}

/// The records of two lists of files, one after the other, are the records of
/// the two lists joined.
pub proof fn lemma_all_records_joined(
    a: Seq<Seq<Seq<char>>>,
    b: Seq<Seq<Seq<char>>>,
    rules: ScanRules,
)
    ensures
        all_records(a + b, rules) == all_records(a, rules) + all_records(b, rules),
    decreases b.len(),
{
    if b.len() == 0 {
        assert(a + b == a);
    } else {
        lemma_all_records_joined(a, b.drop_last(), rules);
        assert((a + b).drop_last() == a + b.drop_last());
        assert((a + b).last() == b.last());
    }
}

/// The chunks lose and repeat nothing: what the first `workers` workers give
/// is what one reader of the files up to the end of the last of those chunks
/// gives.
pub proof fn lemma_workers_cover(
    files: Seq<Seq<Seq<char>>>,
    rules: ScanRules,
    size: int,
    workers: int,
)
    requires
        size >= 0,
        workers >= 0,
    ensures
        worker_outputs(files, rules, size, workers) == all_records(
            files.take(chunk_start(workers, size, files.len() as int)),
            rules,
        ),
    decreases workers,
{
    let n = files.len() as int;
    if workers == 0 {
        assert(0 * size == 0) by (nonlinear_arith);
        assert(chunk_start(0, size, n) == 0);
        assert(files.take(0) == Seq::<Seq<Seq<char>>>::empty());
    } else {
        lemma_workers_cover(files, rules, size, workers - 1);
        let a = chunk_start(workers - 1, size, n);
        let b = chunk_start(workers, size, n);
        assert((workers - 1) * size <= workers * size) by (nonlinear_arith)
            requires
                size >= 0,
        ;
        assert((workers - 1) * size >= 0) by (nonlinear_arith)
            requires
                size >= 0,
                workers >= 1,
        ;
        assert(0 <= a <= b <= n);
        assert(files.take(b) == files.take(a) + files.subrange(a, b));
        lemma_all_records_joined(files.take(a), files.subrange(a, b), rules);
    }
}

/// The set of unique records does not depend on the number of workers: take
/// one list of files and two numbers of workers, and let each run's records
/// reach the consumer in any order. Both runs end with the same set of unique
/// records, that of a single reader of all the files.
pub proof fn lemma_worker_count_invariance(
    files: Seq<Seq<Seq<char>>>,
    rules: ScanRules,
    requested1: int,
    requested2: int,
    stream1: Seq<Seq<char>>,
    stream2: Seq<Seq<char>>,
)
    requires
        stream1.to_multiset() == worker_outputs(
            files,
            rules,
            chunk_len(files.len() as int, clamped_workers(requested1, files.len() as int)),
            clamped_workers(requested1, files.len() as int),
        ).to_multiset(),
        stream2.to_multiset() == worker_outputs(
            files,
            rules,
            chunk_len(files.len() as int, clamped_workers(requested2, files.len() as int)),
            clamped_workers(requested2, files.len() as int),
        ).to_multiset(),
    ensures
        first_seen(stream1).to_set() == first_seen(stream2).to_set(),
        first_seen(stream1).to_set() == all_records(files, rules).to_set(),
{
    lemma_run_covers(files, rules, requested1);
    lemma_run_covers(files, rules, requested2);
    lemma_unique_set_of_rearrangement(stream1, all_records(files, rules));
    lemma_unique_set_of_rearrangement(stream2, all_records(files, rules));
    lemma_first_seen_set(all_records(files, rules));
}

/// The workers of one run give, one after the other, what a single reader of
/// all the files gives.
pub proof fn lemma_run_covers(files: Seq<Seq<Seq<char>>>, rules: ScanRules, requested: int)
    ensures
        worker_outputs(
            files,
            rules,
            chunk_len(files.len() as int, clamped_workers(requested, files.len() as int)),
            clamped_workers(requested, files.len() as int),
        ) == all_records(files, rules),
{
    let n = files.len() as int;
    let w = clamped_workers(requested, n);
    let size = chunk_len(n, w);
    lemma_round_up(n, w);
    lemma_workers_cover(files, rules, size, w);
    assert(w * size >= n) by (nonlinear_arith)
        requires
            size * w >= n,
    ;
    assert(chunk_start(w, size, n) == n);
    assert(files.take(n) == files);
}

} // verus!
