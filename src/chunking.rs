use vstd::prelude::*;

use crate::results::{covers, named_before, one_result_per_body, WorkDone};

verus! {

/// The end of chunk `k` when `len` items are cut into chunks of `size`.
pub open spec fn chunk_end(len: int, size: int, k: int) -> int {
    if (k + 1) * size < len {
        (k + 1) * size
    } else {
        len
    }
}

/// Chunk `k` of `ids` cut into contiguous chunks of `size`: the items from
/// `k * size` up to `(k + 1) * size`, or to the end for the last chunk.
pub open spec fn chunk_of(ids: Seq<usize>, size: int, k: int) -> Seq<usize> {
    ids.subrange(k * size, chunk_end(ids.len() as int, size, k))
}

/// `chunks` is `ids` cut, in order, into the fewest contiguous chunks of at
/// most `size` items: all chunks but the last hold exactly `size` items.
pub open spec fn is_chunking(chunks: Seq<Seq<usize>>, ids: Seq<usize>, size: int) -> bool {
    &&& chunks.len() * size >= ids.len()
    &&& chunks.len() > 0 ==> (chunks.len() - 1) * size < ids.len()
    &&& forall|k: int| 0 <= k < chunks.len() ==> #[trigger] chunks[k] == chunk_of(ids, size, k)
}

/// Cuts the body identities of a snapshot, in store order, into contiguous
/// chunks of at most `chunk_size`; the last chunk may be smaller. One job is
/// submitted per chunk.
pub fn chunk_ids(ids: &Vec<usize>, chunk_size: usize) -> (r: Vec<Vec<usize>>)
    requires
        chunk_size > 0,
    ensures
        is_chunking(r@.map_values(|c: Vec<usize>| c@), ids@, chunk_size as int),
{
    let n = ids.len();
    let ghost size = chunk_size as int;
    let mut out: Vec<Vec<usize>> = Vec::new();
    let mut start: usize = 0;
    assert(out@.len() * size == 0);
    while start < n
        invariant
            n == ids@.len(),
            size == chunk_size,
            size > 0,
            start <= n,
            start < n ==> start == out@.len() * size,
            out@.len() * size >= start,
            out@.len() > 0 ==> (out@.len() - 1) * size < start,
            forall|k: int| 0 <= k < out@.len() ==> #[trigger] out@[k]@ == chunk_of(ids@, size, k),
        decreases n - start,
    {
        let ghost k = out@.len() as int;
        let end: usize = if n - start > chunk_size {
            start + chunk_size
        } else {
            n
        };
        assert((k + 1) * size == k * size + size) by (nonlinear_arith);
        assert(end == chunk_end(n as int, size, k));
        let mut chunk: Vec<usize> = Vec::new();
        let mut i: usize = start;
        while i < end
            invariant
                start <= i <= end,
                end <= n,
                n == ids@.len(),
                chunk@ == ids@.subrange(start as int, i as int),
            decreases end - i,
        {
            chunk.push(ids[i]);
            i = i + 1;
            assert(chunk@ =~= ids@.subrange(start as int, i as int));
        }
        out.push(chunk);
        start = end;
        assert(out@.len() * size == k * size + size) by (nonlinear_arith)
            requires
                out@.len() == k + 1,
        ;
    }
    let ghost views = out@.map_values(|c: Vec<usize>| c@);
    assert forall|k: int| 0 <= k < views.len() implies #[trigger] views[k] == chunk_of(
        ids@,
        size,
        k,
    ) by {
        assert(out@[k]@ == chunk_of(ids@, size, k));
    }
    out
}

/// Cutting the bodies into chunks loses, repeats and reorders nothing: for
/// every chunk size, the chunks joined in order are the body list itself. So
/// every body is in exactly one job, and the jobs of two chunk sizes cover the
/// same bodies in the same order.
pub proof fn lemma_chunks_join_to_bodies(chunks: Seq<Seq<usize>>, ids: Seq<usize>, size: int)
    requires
        size > 0,
        is_chunking(chunks, ids, size),
    ensures
        chunks.flatten() == ids,
{
    lemma_prefix_flattens(chunks, ids, size, chunks.len() as int);
    assert(chunks.subrange(0, chunks.len() as int) =~= chunks);
    assert(ids.subrange(0, ids.len() as int) =~= ids);
}

proof fn lemma_prefix_flattens(chunks: Seq<Seq<usize>>, ids: Seq<usize>, size: int, m: int)
    requires
        size > 0,
        is_chunking(chunks, ids, size),
        0 <= m <= chunks.len(),
    ensures
        chunks.subrange(0, m).flatten() == ids.subrange(0, chunk_end(ids.len() as int, size, m - 1)),
    decreases m,
{
    let n = ids.len() as int;
    if m == 0 {
        assert(chunks.subrange(0, 0) =~= Seq::<Seq<usize>>::empty());
        assert(chunk_end(n, size, -1) == 0);
        assert(ids.subrange(0, 0) =~= Seq::<usize>::empty());
    } else {
        lemma_prefix_flattens(chunks, ids, size, m - 1);
        let prev = chunks.subrange(0, m - 1);
        assert(chunks.subrange(0, m) =~= prev.push(chunks[m - 1]));
        prev.lemma_flatten_push(chunks[m - 1]);
        assert((m - 1) * size < n) by (nonlinear_arith)
            requires
                m <= chunks.len(),
                (chunks.len() - 1) * size < n,
                size > 0,
        ;
        assert(chunk_end(n, size, m - 2) == (m - 1) * size) by (nonlinear_arith)
            requires
                (m - 1) * size < n,
                chunk_end(n, size, m - 2) == if (m - 1) * size < n {
                    (m - 1) * size
                } else {
                    n
                },
        ;
        assert(chunks[m - 1] == chunk_of(ids, size, m - 1));
        assert(chunk_end(n, size, m - 1) >= (m - 1) * size) by (nonlinear_arith)
            requires
                (m - 1) * size < n,
                size > 0,
                chunk_end(n, size, m - 1) == if m * size < n {
                    m * size
                } else {
                    n
                },
        ;
        assert(ids.subrange(0, (m - 1) * size) + ids.subrange(
            (m - 1) * size,
            chunk_end(n, size, m - 1),
        ) =~= ids.subrange(0, chunk_end(n, size, m - 1)));
    }
}

/// The bodies of a store of `body_count` bodies, identified by their index.
pub open spec fn body_indices(body_count: nat) -> Seq<usize> {
    Seq::new(body_count, |i: int| i as usize)
}

/// Distributing a step yields exactly one result per body, for every chunk
/// size: when the store's bodies are cut into chunks of `size` and each job
/// reports one result per body of its chunk, the results name each body
/// exactly once and no other.
pub proof fn lemma_chunked_results_cover_each_body_once<F>(
    body_count: usize,
    size: int,
    chunks: Seq<Seq<usize>>,
    work: Seq<WorkDone<F>>,
)
    requires
        size > 0,
        is_chunking(chunks, body_indices(body_count as nat), size),
        work.map_values(|w: WorkDone<F>| w.body_index) == chunks.flatten(),
    ensures
        one_result_per_body(body_count as nat, work),
{
    lemma_chunks_join_to_bodies(chunks, body_indices(body_count as nat), size);
    let ids = work.map_values(|w: WorkDone<F>| w.body_index);
    assert forall|j: int| 0 <= j < work.len() implies (#[trigger] work[j]).body_index == j by {
        assert(ids[j] == work[j].body_index);
    }
    assert forall|i: int| 0 <= i < body_count implies #[trigger] named_before(
        work,
        work.len() as int,
        i as usize,
    ) by {
        assert(work[i].body_index == i);
    }
    assert(covers(body_count as nat, work));
}

} // verus!
