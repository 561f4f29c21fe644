//! The split of the ordinals `0 .. total` into one contiguous range per worker.
//!
//! Every worker but the last active one takes a full chunk, the quotient of the
//! total by the number of workers, rounded up. The last active one takes what
//! is left, and the workers after it take nothing.

use vstd::prelude::*;
use vstd::arithmetic::div_mod::lemma_fundamental_div_mod;

verus! {

/// The number of workers that a search is split over.
pub const NUM_WORKERS: usize = 192;

/// The ordinals `start .. start + len`, which one worker visits.
#[derive(Clone, Copy, PartialEq, Eq, Structural, Debug)]
pub struct Chunk {
    pub start: u64,
    pub len: u64,
}

/// The size of a full chunk: `total / workers`, rounded up.
pub open spec fn chunk_size_of(total: nat, workers: nat) -> nat {
    if total % workers == 0 {
        total / workers
    } else {
        total / workers + 1
    }
}

/// Where the range of worker `w` starts.
pub open spec fn chunk_start_of(total: nat, workers: nat, w: nat) -> nat {
    if w * chunk_size_of(total, workers) < total {
        w * chunk_size_of(total, workers)
    } else {
        total
    }
}

/// How many ordinals worker `w` visits.
pub open spec fn chunk_len_of(total: nat, workers: nat, w: nat) -> nat {
    let left = (total - chunk_start_of(total, workers, w)) as nat;
    if chunk_size_of(total, workers) < left {
        chunk_size_of(total, workers)
    } else {
        left
    }
}

/// The sizes of the ranges of the first `n` workers, added up.
pub open spec fn chunk_len_sum(total: nat, workers: nat, n: nat) -> nat
    decreases n,
{
    if n == 0 {
        0
    } else {
        chunk_len_sum(total, workers, (n - 1) as nat) + chunk_len_of(total, workers, (n - 1) as nat)
    }
}

/// A full chunk for every worker is enough for all ordinals, and one less for
/// every worker would not be.
pub proof fn lemma_chunk_size(total: nat, workers: nat)
    requires
        workers > 0,
    ensures
        workers * chunk_size_of(total, workers) >= total,
        total > 0 ==> workers * (chunk_size_of(total, workers) - 1) < total,
        chunk_size_of(total, workers) <= total,
{
    let q = (total / workers) as int;
    let r = (total % workers) as int;
    let w = workers as int;
    lemma_fundamental_div_mod(total as int, w);
    assert(w * (q + 1) == w * q + w) by (nonlinear_arith);
    assert(w * (q - 1) == w * q - w) by (nonlinear_arith);
    assert(q <= w * q) by (nonlinear_arith)
        requires
            w >= 1,
            q >= 0,
    ;
}

/// Each range starts where the one before it ends.
pub proof fn lemma_chunks_contiguous(total: nat, workers: nat, w: nat)
    requires
        workers > 0,
    ensures
        chunk_start_of(total, workers, 0) == 0,
        chunk_start_of(total, workers, w + 1) == chunk_start_of(total, workers, w) + chunk_len_of(
            total,
            workers,
            w,
        ),
        chunk_start_of(total, workers, w) + chunk_len_of(total, workers, w) <= total,
{
    let c = chunk_size_of(total, workers) as int;
    assert((w + 1) * c == w * c + c) by (nonlinear_arith);
    assert(0 * c == 0);
}

/// The ranges end at `total`: the last worker's range ends there.
pub proof fn lemma_chunks_reach_total(total: nat, workers: nat)
    requires
        workers > 0,
    ensures
        chunk_start_of(total, workers, workers) == total,
{
    lemma_chunk_size(total, workers);
}

/// The sizes of the first `n` ranges add up to where range `n` starts.
pub proof fn lemma_chunk_len_sum(total: nat, workers: nat, n: nat)
    requires
        workers > 0,
    ensures
        chunk_len_sum(total, workers, n) == chunk_start_of(total, workers, n),
    decreases n,
{
    if n > 0 {
        lemma_chunk_len_sum(total, workers, (n - 1) as nat);
        lemma_chunks_contiguous(total, workers, (n - 1) as nat);
    } else {
        lemma_chunks_contiguous(total, workers, 0);
    }
}

/// The sizes of all ranges add up to `total` exactly.
pub proof fn lemma_chunks_sum_to_total(total: nat, workers: nat)
    requires
        workers > 0,
    ensures
        chunk_len_sum(total, workers, workers) == total,
{
    lemma_chunk_len_sum(total, workers, workers);
    lemma_chunks_reach_total(total, workers);
}

/// Range starts never fall from one worker to the next.
pub proof fn lemma_chunk_starts_monotone(total: nat, workers: nat, a: nat, b: nat)
    requires
        workers > 0,
        a <= b,
    ensures
        chunk_start_of(total, workers, a) <= chunk_start_of(total, workers, b),
    decreases b - a,
{
    if a < b {
        lemma_chunk_starts_monotone(total, workers, a, (b - 1) as nat);
        lemma_chunks_contiguous(total, workers, (b - 1) as nat);
    }
}

/// No two ranges overlap: an earlier worker's range ends before a later one's
/// starts.
pub proof fn lemma_chunks_disjoint(total: nat, workers: nat, a: nat, b: nat)
    requires
        workers > 0,
        a < b,
    ensures
        chunk_start_of(total, workers, a) + chunk_len_of(total, workers, a) <= chunk_start_of(
            total,
            workers,
            b,
        ),
{
    lemma_chunks_contiguous(total, workers, a);
    lemma_chunk_starts_monotone(total, workers, a + 1, b);
}

/// Every ordinal below `total` lies in the range of exactly one worker.
pub proof fn lemma_chunks_cover(total: nat, workers: nat, ordinal: nat) -> (w: nat)
    requires
        workers > 0,
        ordinal < total,
    ensures
        w < workers,
        chunk_start_of(total, workers, w) <= ordinal < chunk_start_of(total, workers, w)
            + chunk_len_of(total, workers, w),
        forall|v: nat|
            chunk_start_of(total, workers, v) <= ordinal < chunk_start_of(total, workers, v)
                + #[trigger] chunk_len_of(total, workers, v) ==> v == w,
{
    lemma_chunks_reach_total(total, workers);
    let w = find_chunk(total, workers, ordinal, workers);
    assert forall|v: nat|
        chunk_start_of(total, workers, v) <= ordinal < chunk_start_of(total, workers, v)
            + #[trigger] chunk_len_of(total, workers, v) implies v == w by {
        if v < w {
            lemma_chunks_disjoint(total, workers, v, w);
        } else if w < v {
            lemma_chunks_disjoint(total, workers, w, v);
        }
    }
    w
}

/// Walks down from worker `n` to the one whose range holds `ordinal`.
proof fn find_chunk(total: nat, workers: nat, ordinal: nat, n: nat) -> (w: nat)
    requires
        workers > 0,
        ordinal < chunk_start_of(total, workers, n),
    ensures
        w < n,
        chunk_start_of(total, workers, w) <= ordinal < chunk_start_of(total, workers, w)
            + chunk_len_of(total, workers, w),
    decreases n,
{
    lemma_chunks_contiguous(total, workers, 0);
    lemma_chunks_contiguous(total, workers, (n - 1) as nat);
    if chunk_start_of(total, workers, (n - 1) as nat) <= ordinal {
        (n - 1) as nat
    } else {
        find_chunk(total, workers, ordinal, (n - 1) as nat)
    }
}

/// The size of a full chunk.
pub fn chunk_size(total: u64, workers: usize) -> (size: u64)
    requires
        workers > 0,
    ensures
        size == chunk_size_of(total as nat, workers as nat),
{
    let w: u64 = workers as u64;
    proof {
        lemma_chunk_size(total as nat, workers as nat);
    }
    if total % w == 0 {
        total / w
    } else {
        total / w + 1
    }
}

/// Splits the ordinals `0 .. total` over `workers` workers.
pub fn partition(total: u64, workers: usize) -> (chunks: Vec<Chunk>)
    requires
        workers > 0,
    ensures
        chunks@.len() == workers,
        forall|w: int|
            0 <= w < workers ==> (#[trigger] chunks@[w]).start == chunk_start_of(
                total as nat,
                workers as nat,
                w as nat,
            ) && chunks@[w].len == chunk_len_of(total as nat, workers as nat, w as nat),
{
    let size = chunk_size(total, workers);
    let mut chunks: Vec<Chunk> = Vec::new();
    let mut left: u64 = total;
    let mut w: usize = 0;
    proof {
        lemma_chunks_contiguous(total as nat, workers as nat, 0);
    }
    while w < workers
        invariant
            w <= workers,
            workers > 0,
            size == chunk_size_of(total as nat, workers as nat),
            left <= total,
            total - left == chunk_start_of(total as nat, workers as nat, w as nat),
            chunks@.len() == w,
            forall|v: int|
                0 <= v < w ==> (#[trigger] chunks@[v]).start == chunk_start_of(
                    total as nat,
                    workers as nat,
                    v as nat,
                ) && chunks@[v].len == chunk_len_of(total as nat, workers as nat, v as nat),
        decreases workers - w,
    {
        let len = if size < left {
            size
        } else {
            left
        };
        proof {
            lemma_chunks_contiguous(total as nat, workers as nat, w as nat);
        }
        chunks.push(Chunk { start: total - left, len });
        left = left - len;
        w += 1;
    }
    chunks
}

} // verus!
