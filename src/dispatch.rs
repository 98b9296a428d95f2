//! Sharding a batch over a pool: contiguous chunks sized from the pool's
//! capacity, and the fail-fast reassembly of their answers in chunk order.
use crate::types::LookupError;
use vstd::prelude::*;

verus! {

/// The chunk size for `n` queries over `capacity` workers: `n / capacity`,
/// and at least one.
pub open spec fn chunk_size_of(n: nat, capacity: nat) -> nat {
    if capacity > 0 && n / capacity >= 1 {
        n / capacity
    } else {
        1
    }
}

/// `bounds` cuts `0..n` into consecutive non-empty ranges.
pub open spec fn contiguous(bounds: Seq<(usize, usize)>, n: nat) -> bool {
    &&& (n == 0 <==> bounds.len() == 0)
    &&& bounds.len() > 0 ==> bounds[0].0 == 0 && bounds.last().1 == n
    &&& forall|k: int| 0 <= k < bounds.len() - 1 ==> #[trigger] bounds[k].1 == bounds[k + 1].0
    &&& forall|k: int| 0 <= k < bounds.len() ==> #[trigger] bounds[k].0 < bounds[k].1 <= n
}

/// `bounds` cuts `0..n` into consecutive non-empty ranges of `size`
/// elements, the last of which may be shorter.
pub open spec fn cuts(bounds: Seq<(usize, usize)>, n: nat, size: nat) -> bool {
    &&& contiguous(bounds, n)
    &&& forall|k: int| 0 <= k < bounds.len() ==> #[trigger] bounds[k].1 - bounds[k].0 <= size
    &&& forall|k: int| 0 <= k < bounds.len() - 1 ==> #[trigger] bounds[k].1 - bounds[k].0 == size
}

/// The chunk size for `n` queries over `capacity` workers.
pub fn chunk_size(n: usize, capacity: usize) -> (r: usize)
    ensures
        r as nat == chunk_size_of(n as nat, capacity as nat),
        r >= 1,
{
    if capacity > 0 && n / capacity >= 1 {
        n / capacity
    } else {
        1
    }
}

/// The ranges of the chunks of a batch of `n` queries over `capacity` workers.
pub fn chunk_bounds(n: usize, capacity: usize) -> (r: Vec<(usize, usize)>)
    ensures
        cuts(r@, n as nat, chunk_size_of(n as nat, capacity as nat)),
{
    let size = chunk_size(n, capacity);
    let mut out: Vec<(usize, usize)> = Vec::new();
    let mut start: usize = 0;
    while start < n
        invariant
            start <= n,
            size >= 1,
            size == chunk_size_of(n as nat, capacity as nat),
            out.len() == 0 <==> start == 0,
            out.len() > 0 ==> out@[0].0 == 0 && out@.last().1 == start,
            forall|k: int| 0 <= k < out.len() - 1 ==> #[trigger] out@[k].1 == out@[k + 1].0,
            forall|k: int| 0 <= k < out.len() ==> #[trigger] out@[k].0 < out@[k].1 <= start,
            forall|k: int| 0 <= k < out.len() ==> #[trigger] out@[k].1 - out@[k].0 <= size,
            forall|k: int| 0 <= k < out.len() ==> out@[k].1 < n ==> #[trigger] out@[k].1 - out@[k].0
                == size,
        decreases n - start,
    {
        let end = if n - start > size {
            start + size
        } else {
            n
        };
        out.push((start, end));
        start = end;
    }
    out
}

/// The concatenation of `parts`, in order.
pub open spec fn concat_all(parts: Seq<Seq<Vec<String>>>) -> Seq<Vec<String>>
    decreases parts.len(),
{
    if parts.len() == 0 {
        Seq::empty()
    } else {
        concat_all(parts.drop_last()) + parts.last()
    }
}

/// The answers of the chunks that succeeded, while they all did.
pub open spec fn answers_of(parts: Seq<Result<Vec<Vec<String>>, LookupError>>) -> Seq<
    Seq<Vec<String>>,
> {
    parts.map_values(|p: Result<Vec<Vec<String>>, LookupError>| p->Ok_0@)
}

/// Every chunk succeeded.
pub open spec fn all_ok(parts: Seq<Result<Vec<Vec<String>>, LookupError>>) -> bool {
    forall|k: int| 0 <= k < parts.len() ==> (#[trigger] parts[k]) is Ok
}

/// Joins the answers of the chunks of a batch in chunk order. If a chunk
/// failed, the whole batch fails with the error of the first failed chunk
/// and no answer is kept.
pub fn merge_chunks(parts: Vec<Result<Vec<Vec<String>>, LookupError>>) -> (r: Result<
    Vec<Vec<String>>,
    LookupError,
>)
    ensures
        r is Ok <==> all_ok(parts@),
        r matches Ok(v) ==> v@ == concat_all(answers_of(parts@)),
        r matches Err(e) ==> exists|k: int|
            0 <= k < parts.len() && #[trigger] parts@[k] == Err::<Vec<Vec<String>>, LookupError>(e)
                && all_ok(parts@.subrange(0, k)),
{
    let mut out: Vec<Vec<String>> = Vec::new();
    let mut rest = parts;
    let ghost all = rest@;
    let n = rest.len();
    let mut rev: Vec<Result<Vec<Vec<String>>, LookupError>> = Vec::new();
    while rest.len() > 0
        invariant
            all == parts@,
            rest@.len() + rev@.len() == all.len(),
            forall|j: int| 0 <= j < rest@.len() ==> #[trigger] rest@[j] == all[j],
            forall|j: int| 0 <= j < rev@.len() ==> #[trigger] rev@[j] == all[all.len() - 1 - j],
        decreases rest.len(),
    {
        let p = rest.pop().unwrap();
        rev.push(p);
    }
    let mut rest = rev;
    let mut k: usize = 0;
    while k < n
        invariant
            all == parts@,
            n == all.len(),
            k <= all.len(),
            rest@.len() == all.len() - k,
            forall|j: int| 0 <= j < rest@.len() ==> #[trigger] rest@[j] == all[all.len() - 1 - j],
            all_ok(all.subrange(0, k as int)),
            out@ == concat_all(answers_of(all.subrange(0, k as int))),
        decreases all.len() - k,
    {
        let part = rest.pop().unwrap();
        assert(part == all[k as int]);
        let ghost before = all.subrange(0, k as int);
        let ghost after = all.subrange(0, k as int + 1);
        assert(after.drop_last() =~= before);
        assert(answers_of(after).drop_last() =~= answers_of(before));
        match part {
            Ok(mut answers) => {
                out.append(&mut answers);
            },
            Err(e) => {
                assert(all[k as int] == Err::<Vec<Vec<String>>, LookupError>(e));
                assert(!all_ok(all));
                assert(all == parts@);
                return Err(e);
            },
        }
        k = k + 1;
    }
    assert(all.subrange(0, all.len() as int) =~= all);
    Ok(out)
}

/// Reassembling, in chunk order, the answers of the chunks of a batch gives
/// every query its own answer, in batch order: if the answer of each chunk
/// is the slice of `results` that its range covers, the concatenation is
/// `results` itself, for any number of queries and any capacity.
pub proof fn lemma_chunks_restore_order(
    bounds: Seq<(usize, usize)>,
    size: nat,
    parts: Seq<Seq<Vec<String>>>,
    results: Seq<Vec<String>>,
)
    requires
        cuts(bounds, results.len(), size),
        parts.len() == bounds.len(),
        forall|k: int|
            0 <= k < parts.len() ==> #[trigger] parts[k] == results.subrange(
                bounds[k].0 as int,
                bounds[k].1 as int,
            ),
    ensures
        concat_all(parts) == results,
{
    if parts.len() == 0 {
        assert(results =~= Seq::<Vec<String>>::empty());
    } else {
        lemma_prefix_restores(bounds, size, parts, results, parts.len() as int);
        assert(parts.subrange(0, parts.len() as int) =~= parts);
        assert(results.subrange(0, results.len() as int) =~= results);
    }
}

proof fn lemma_prefix_restores(
    bounds: Seq<(usize, usize)>,
    size: nat,
    parts: Seq<Seq<Vec<String>>>,
    results: Seq<Vec<String>>,
    m: int,
)
    requires
        contiguous(bounds, results.len()),
        parts.len() == bounds.len(),
        1 <= m <= parts.len(),
        forall|k: int|
            0 <= k < parts.len() ==> #[trigger] parts[k] == results.subrange(
                bounds[k].0 as int,
                bounds[k].1 as int,
            ),
    ensures
        concat_all(parts.subrange(0, m)) == results.subrange(0, bounds[m - 1].1 as int),
    decreases m,
{
    let pm = parts.subrange(0, m);
    assert(pm.drop_last() =~= parts.subrange(0, m - 1));
    assert(pm.last() == parts[m - 1]);
    if m == 1 {
        assert(parts.subrange(0, 0) =~= Seq::<Seq<Vec<String>>>::empty());
        assert(concat_all(parts.subrange(0, 0)) =~= Seq::<Vec<String>>::empty());
        assert(bounds[0].0 == 0);
        assert(concat_all(pm) =~= results.subrange(0, bounds[0].1 as int));
    } else {
        lemma_prefix_restores(bounds, size, parts, results, m - 1);
        assert(bounds[m - 2].1 == bounds[m - 1].0);
        assert(bounds[m - 1].0 < bounds[m - 1].1);
        assert(concat_all(pm) =~= results.subrange(0, bounds[m - 1].1 as int));
    }
}

/// When the answer of each chunk holds one result list per query of the
/// chunk, the reassembled answer holds one per query of the batch.
pub proof fn lemma_merged_length(
    bounds: Seq<(usize, usize)>,
    size: nat,
    parts: Seq<Seq<Vec<String>>>,
    n: nat,
)
    requires
        cuts(bounds, n, size),
        parts.len() == bounds.len(),
        forall|k: int| 0 <= k < parts.len() ==> #[trigger] parts[k].len() == bounds[k].1 - bounds[k].0,
    ensures
        concat_all(parts).len() == n,
{
    if parts.len() > 0 {
        lemma_prefix_length(bounds, size, parts, n, parts.len() as int);
        assert(parts.subrange(0, parts.len() as int) =~= parts);
    }
}

proof fn lemma_prefix_length(
    bounds: Seq<(usize, usize)>,
    size: nat,
    parts: Seq<Seq<Vec<String>>>,
    n: nat,
    m: int,
)
    requires
        contiguous(bounds, n),
        parts.len() == bounds.len(),
        1 <= m <= parts.len(),
        forall|k: int| 0 <= k < parts.len() ==> #[trigger] parts[k].len() == bounds[k].1 - bounds[k].0,
    ensures
        concat_all(parts.subrange(0, m)).len() == bounds[m - 1].1,
    decreases m,
{
    let pm = parts.subrange(0, m);
    assert(pm.drop_last() =~= parts.subrange(0, m - 1));
    assert(pm.last() == parts[m - 1]);
    assert(concat_all(pm) == concat_all(parts.subrange(0, m - 1)) + parts[m - 1]);
    if m == 1 {
        assert(parts.subrange(0, 0) =~= Seq::<Seq<Vec<String>>>::empty());
        assert(concat_all(parts.subrange(0, 0)).len() == 0);
        assert(bounds[0].0 == 0);
    } else {
        lemma_prefix_length(bounds, size, parts, n, m - 1);
        assert(bounds[m - 2].1 == bounds[m - 1].0);
        assert(bounds[m - 1].0 < bounds[m - 1].1);
    }
}

} // verus!
