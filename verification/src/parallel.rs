//! The thread pool, and how a run of items is cut into chunks for it.

use rayon::iter::IntoParallelIterator;
use rayon::iter::ParallelIterator;
use vstd::prelude::*;

verus! {

/// Applies `f` to every index below `n` on rayon's thread pool and gathers the
/// results in index order.
///
/// Calls `rayon`'s `into_par_iter` on the range `0..n`, then `map` and
/// `collect`. The contract claims what their documentation gives for an indexed
/// parallel iterator collected into a `Vec`: one result per index, each one a
/// result of `f` on that index, in the order of the indices.
#[verifier::external_body]
pub(crate) fn par_map<T: Send, F: Fn(usize) -> T + Sync + Send>(n: usize, f: F) -> (out: Vec<T>)
    requires
        forall|i: usize| i < n ==> call_requires(f, (i,)),
    ensures
        out@.len() == n,
        forall|i: int| 0 <= i < n ==> call_ensures(f, (i as usize,), #[trigger] out@[i]),
{
    (0..n).into_par_iter().map(f).collect()
}

/// Where chunk `i` begins when `n` items are cut into chunks of `step`.
pub open spec fn chunk_start(i: int, step: int, n: int) -> int {
    if i * step < n {
        i * step
    } else {
        n
    }
}

/// The number of chunks of `step` that cover `n` items.
pub open spec fn chunks_of(n: int, step: int) -> int {
    if n % step == 0 {
        n / step
    } else {
        n / step + 1
    }
}

/// The chunks cover the items: the first begins at zero, each begins where the
/// one before it ends, and the last ends with the last item.
pub proof fn lemma_chunks_cover(n: int, step: int)
    requires
        n >= 0,
        step > 0,
    ensures
        0 <= chunks_of(n, step) <= n,
        chunk_start(0, step, n) == 0,
        chunk_start(chunks_of(n, step), step, n) == n,
        forall|i: int|
            0 <= i ==> 0 <= #[trigger] chunk_start(i, step, n) <= chunk_start(i + 1, step, n) <= n,
        forall|i: int| 0 <= i < chunks_of(n, step) ==> #[trigger] chunk_start(i, step, n) == i * step,
{
    let whole = n / step;
    let rest = n % step;
    assert(n == whole * step + rest && 0 <= rest < step && 0 <= whole <= n) by (nonlinear_arith)
        requires
            whole == n / step,
            rest == n % step,
            step > 0,
            n >= 0,
    ;
    let k = chunks_of(n, step);
    assert(k * step >= n && (k - 1) * step < n && (rest != 0 ==> whole < n)) by (nonlinear_arith)
        requires
            n == whole * step + rest,
            0 <= rest < step,
            rest == 0 ==> k == whole,
            rest != 0 ==> k == whole + 1,
            whole >= 0,
    ;
    assert(0 * step == 0);
    assert forall|i: int| 0 <= i implies 0 <= #[trigger] chunk_start(i, step, n) <= chunk_start(
        i + 1,
        step,
        n,
    ) <= n by {
        assert(0 <= i * step <= (i + 1) * step) by (nonlinear_arith)
            requires
                0 <= i,
                step > 0,
        ;
    }
    assert forall|i: int| 0 <= i < k implies #[trigger] chunk_start(i, step, n) == i * step by {
        assert(i * step <= (k - 1) * step) by (nonlinear_arith)
            requires
                0 <= i < k,
                step > 0,
        ;
    }
}

/// The number of chunks of `step` that cover `n` items.
pub fn chunk_count(n: usize, step: usize) -> (k: usize)
    requires
        step > 0,
    ensures
        k == chunks_of(n as int, step as int),
{
    proof {
        lemma_chunks_cover(n as int, step as int);
    }
    if n % step == 0 {
        n / step
    } else {
        n / step + 1
    }
}

/// The items of chunk `i`: from `lo` up to, not including, `hi`.
pub fn chunk_range(i: usize, step: usize, n: usize) -> (range: (usize, usize))
    requires
        step > 0,
        i < chunks_of(n as int, step as int),
    ensures
        range.0 == chunk_start(i as int, step as int, n as int),
        range.1 == chunk_start(i + 1, step as int, n as int),
        range.0 <= range.1 <= n,
{
    proof {
        lemma_chunks_cover(n as int, step as int);
        assert(chunk_start(i as int, step as int, n as int) == i * step);
        assert((i + 1) * step == i * step + step) by (nonlinear_arith);
        assert(chunk_start(i as int, step as int, n as int) <= chunk_start(
            i as int + 1,
            step as int,
            n as int,
        ));
    }
    let lo: usize = i * step;
    let hi: usize = if n - lo > step {
        lo + step
    } else {
        n
    };
    (lo, hi)
}

} // verus!
