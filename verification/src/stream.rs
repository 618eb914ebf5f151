//! The grammar of a path stream: byte runs separated by one delimiter byte.

use vstd::prelude::*;

verus! {

/// The length of the first run of `data`: the offset of its first `delim`,
/// or its whole length where it holds none.
pub open spec fn run_length(data: Seq<u8>, delim: u8) -> int
    decreases data.len(),
{
    if data.len() == 0 || data[0] == delim {
        0
    } else {
        1 + run_length(data.drop_first(), delim)
    }
}

/// The runs of a stream, in order. Each delimiter ends a run, which may be
/// empty, and is itself part of none; what follows the last delimiter is a
/// run only where it is not empty. So an empty stream has no run, and a
/// delimiter at the very end opens no further one.
pub open spec fn runs(data: Seq<u8>, delim: u8) -> Seq<Seq<u8>>
    decreases data.len(),
{
    if data.len() == 0 {
        Seq::empty()
    } else {
        let n = run_length(data, delim);
        if 0 <= n < data.len() {
            seq![data.take(n)] + runs(data.skip(n + 1), delim)
        } else {
            seq![data]
        }
    }
}

/// The first run ends where the first delimiter stands, or at the end.
pub proof fn lemma_run_length(data: Seq<u8>, delim: u8, k: int)
    requires
        0 <= k <= data.len(),
        forall|j: int| 0 <= j < k ==> data[j] != delim,
        k == data.len() || data[k] == delim,
    ensures
        run_length(data, delim) == k,
    decreases k,
{
    if k > 0 {
        lemma_run_length(data.drop_first(), delim, k - 1);
    }
}

/// The deep view of a list of paths is the list of their bytes.
pub proof fn lemma_paths_view(paths: Vec<Vec<u8>>)
    ensures
        paths.deep_view().len() == paths@.len(),
        forall|i: int| 0 <= i < paths@.len() ==> #[trigger] paths.deep_view()[i] == paths@[i]@,
{
    assert forall|i: int| 0 <= i < paths@.len() implies #[trigger] paths.deep_view()[i]
        == paths@[i]@ by {
        assert(paths@[i].deep_view() =~= paths@[i]@);
    }
}

/// Splits a stream into its runs.
pub fn split_stream(data: &[u8], delim: u8) -> (out: Vec<Vec<u8>>)
    ensures
        out.deep_view() == runs(data@, delim),
{
    let n: usize = data.len();
    let mut out: Vec<Vec<u8>> = Vec::new();
    let mut start: usize = 0;
    assert(data@.skip(0) =~= data@);
    while start < n
        invariant
            n == data@.len(),
            start <= n,
            out.deep_view() + runs(data@.skip(start as int), delim) == runs(data@, delim),
        decreases n - start,
    {
        let mut run: Vec<u8> = Vec::new();
        let mut end: usize = start;
        while end < n && data[end] != delim
            invariant
                n == data@.len(),
                start <= end <= n,
                run@ == data@.subrange(start as int, end as int),
                forall|j: int| start <= j < end ==> data@[j] != delim,
            decreases n - end,
        {
            run.push(data[end]);
            end = end + 1;
        }
        let next: usize = if end < n { end + 1 } else { end };
        proof {
            let rest = data@.skip(start as int);
            let k = end - start;
            lemma_run_length(rest, delim, k);
            if end < n {
                assert(rest.take(k) =~= run@);
                assert(rest.skip(k + 1) =~= data@.skip(next as int));
            }
            assert(out.deep_view().push(run@) + runs(data@.skip(next as int), delim)
                =~= out.deep_view() + runs(rest, delim));
            assert(run.deep_view() =~= run@);
        }
        out.push(run);
        start = next;
    }
    out
}

/// The parts written out as a stream: each followed by the delimiter.
pub open spec fn joined(parts: Seq<Seq<u8>>, delim: u8) -> Seq<u8> {
    parts.map_values(|part: Seq<u8>| part.push(delim)).flatten()
}

/// The first run lies within the stream, holds no delimiter, and ends at a
/// delimiter or at the end of the stream.
pub proof fn lemma_run_length_bounds(data: Seq<u8>, delim: u8)
    ensures
        0 <= run_length(data, delim) <= data.len(),
        forall|j: int| 0 <= j < run_length(data, delim) ==> data[j] != delim,
        run_length(data, delim) < data.len() ==> data[run_length(data, delim)] == delim,
    decreases data.len(),
{
    if data.len() == 0 || data[0] == delim {
    } else {
        let rest = data.drop_first();
        lemma_run_length_bounds(rest, delim);
        assert forall|j: int| 0 <= j < run_length(data, delim) implies data[j] != delim by {
            if j > 0 {
                assert(data[j] == rest[j - 1]);
            }
        }
    }
}

/// No run holds the delimiter.
pub proof fn lemma_runs_hold_no_delimiter(data: Seq<u8>, delim: u8)
    ensures
        forall|i: int, j: int|
            0 <= i < runs(data, delim).len() && 0 <= j < runs(data, delim)[i].len()
                ==> runs(data, delim)[i][j] != delim,
    decreases data.len(),
{
    lemma_run_length_bounds(data, delim);
    if data.len() > 0 {
        let n = run_length(data, delim);
        if n < data.len() {
            let rest = runs(data.skip(n + 1), delim);
            lemma_runs_hold_no_delimiter(data.skip(n + 1), delim);
            assert forall|i: int, j: int|
                0 <= i < runs(data, delim).len() && 0 <= j < runs(data, delim)[i].len()
                implies runs(data, delim)[i][j] != delim by {
                if i == 0 {
                    assert(runs(data, delim)[0] == data.take(n));
                } else {
                    assert(runs(data, delim)[i] == rest[i - 1]);
                }
            }
        }
    }
}

/// Written out again, the runs give the stream back, with a delimiter added
/// at the end where the stream did not end in one.
pub proof fn lemma_runs_rejoin(data: Seq<u8>, delim: u8)
    ensures
        joined(runs(data, delim), delim) == if data.len() == 0 || data.last() == delim {
            data
        } else {
            data.push(delim)
        },
    decreases data.len(),
{
    let close = |part: Seq<u8>| part.push(delim);
    let whole = runs(data, delim).map_values(close);
    lemma_run_length_bounds(data, delim);
    if data.len() > 0 {
        let n = run_length(data, delim);
        if n < data.len() {
            let rest = data.skip(n + 1);
            lemma_runs_rejoin(rest, delim);
            assert(whole.drop_first() =~= runs(rest, delim).map_values(close));
            assert(data =~= data.take(n).push(delim) + rest);
        } else {
            whole.lemma_flatten_one_element();
        }
    }
}

} // verus!
