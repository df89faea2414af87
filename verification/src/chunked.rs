//! Chunked reduction: partition the index range of an integer sequence into
//! contiguous chunks of size `ceil(n / w)`, produce one partial sum per
//! chunk, and combine the partial sums into a total.
//!
//! The partition is static: chunk `i` covers `[i * chunk_size,
//! min((i + 1) * chunk_size, n))`, and a chunk whose start index lies past
//! the end of the input contributes zero. The total is therefore the sum of
//! the whole input, whatever the worker count. Partial sums and the total
//! are carried in `i128`, which holds the sum of any addressable number of
//! `i32` values, so no input is excluded on overflow grounds.

use vstd::arithmetic::div_mod::{lemma_div_is_ordered_by_denominator, lemma_fundamental_div_mod};
use vstd::arithmetic::mul::{
    lemma_mul_basics, lemma_mul_inequality, lemma_mul_is_commutative, lemma_mul_is_distributive_add,
};
use vstd::prelude::*;

verus! {

/// The arithmetic sum of a sequence of `i32` values, as a mathematical
/// integer.
pub open spec fn sum_seq(s: Seq<i32>) -> int
    decreases s.len(),
{
    if s.len() == 0 {
        0
    } else {
        sum_seq(s.drop_last()) + s.last()
    }
}

/// The chunk size the reducer uses: the ceiling of `n / w`.
pub open spec fn chunk_size_spec(n: nat, w: nat) -> nat
    recommends
        w >= 1,
{
    if n % w == 0 {
        n / w
    } else {
        n / w + 1
    }
}

/// The sum of a sequence of empty length is zero: the reduction of an empty
/// input is zero for every worker count.
pub proof fn lemma_sum_seq_empty(s: Seq<i32>)
    requires
        s.len() == 0,
    ensures
        sum_seq(s) == 0,
{
}

/// Every element lies in `i32` range, so the sum is bounded by
/// `0x8000_0000` per element.
pub proof fn lemma_sum_seq_bound(s: Seq<i32>)
    ensures
        -0x8000_0000 * s.len() <= sum_seq(s) <= 0x8000_0000 * s.len(),
    decreases s.len(),
{
    if s.len() > 0 {
        lemma_sum_seq_bound(s.drop_last());
    }
}

/// Splitting a sequence in two splits its sum.
pub proof fn lemma_sum_seq_concat(s: Seq<i32>, t: Seq<i32>)
    ensures
        sum_seq(s + t) == sum_seq(s) + sum_seq(t),
    decreases t.len(),
{
    if t.len() == 0 {
        assert(s + t =~= s);
    } else {
        lemma_sum_seq_concat(s, t.drop_last());
        assert((s + t).drop_last() =~= s + t.drop_last());
    }
}

proof fn lemma_sum_seq_subrange_step(s: Seq<i32>, a: int, i: int)
    requires
        0 <= a <= i < s.len(),
    ensures
        sum_seq(s.subrange(a, i + 1)) == sum_seq(s.subrange(a, i)) + s[i],
{
    assert(s.subrange(a, i + 1).drop_last() =~= s.subrange(a, i));
}

/// `w` chunks of size `ceil(n / w)` cover all `n` indices, and the chunk
/// size is positive whenever the input is non-empty.
proof fn lemma_chunks_cover(n: nat, w: nat)
    requires
        w >= 1,
    ensures
        w * chunk_size_spec(n, w) >= n,
        n > 0 ==> chunk_size_spec(n, w) >= 1,
{
    lemma_fundamental_div_mod(n as int, w as int);
    lemma_mul_basics(w as int);
    if n % w != 0 {
        lemma_mul_is_distributive_add(w as int, (n / w) as int, 1);
    }
}

/// The partial result of one worker: the sum of the chunk
/// `data[start..end]`, accumulated in `i128` so that no overflow can occur.
pub fn chunk_sum(data: &Vec<i32>, start: usize, end: usize) -> (r: i128)
    requires
        start <= end <= data@.len(),
    ensures
        r == sum_seq(data@.subrange(start as int, end as int)),
{
    let mut acc: i128 = 0;
    let mut i: usize = start;
    while i < end
        invariant
            start <= i <= end <= data@.len(),
            acc == sum_seq(data@.subrange(start as int, i as int)),
        decreases end - i,
    {
        proof {
            lemma_sum_seq_bound(data@.subrange(start as int, i as int));
            lemma_sum_seq_subrange_step(data@, start as int, i as int);
            assert(i as int - start as int <= 0xffff_ffff_ffff_ffff);
        }
        acc = acc + data[i] as i128;
        i = i + 1;
    }
    acc
}

/// Chunked reduction over `data` with `workers` chunks.
///
/// The result is the sum of the whole input, independent of the worker
/// count: excess chunks (a start index at or past the end) contribute zero,
/// and one worker degenerates to a plain left-to-right sum.
pub fn chunked_sum(data: &Vec<i32>, workers: usize) -> (r: i128)
    requires
        workers >= 1,
    ensures
        r == sum_seq(data@),
{
    let n: usize = data.len();
    let chunk_size: usize = if n % workers != 0 {
        proof {
            // `workers` is at least two here: a remainder rules out one.
            lemma_div_is_ordered_by_denominator(n as int, 2, workers as int);
        }
        n / workers + 1
    } else {
        n / workers
    };
    proof {
        lemma_chunks_cover(n as nat, workers as nat);
        assert(chunk_size as nat == chunk_size_spec(n as nat, workers as nat));
        lemma_mul_basics(chunk_size as int);
    }
    let mut total: i128 = 0;
    let mut start: usize = 0;
    for i in 0..workers
        invariant
            start <= n,
            n == data@.len(),
            workers as int * chunk_size as int >= n as int,
            start as int == vstd::math::min(chunk_size as int * i as int, n as int),
            total == sum_seq(data@.subrange(0, start as int)),
    {
        if start < n {
            let end: usize = if n - start < chunk_size {
                n
            } else {
                start + chunk_size
            };
            proof {
                lemma_sum_seq_bound(data@.subrange(0, start as int));
                lemma_sum_seq_bound(data@.subrange(start as int, end as int));
                lemma_sum_seq_concat(
                    data@.subrange(0, start as int),
                    data@.subrange(start as int, end as int),
                );
                assert(data@.subrange(0, start as int) + data@.subrange(start as int, end as int)
                    =~= data@.subrange(0, end as int));
                lemma_mul_is_distributive_add(chunk_size as int, i as int, 1);
                assert(end as int <= 0xffff_ffff_ffff_ffff);
                assert(end as int == vstd::math::min(
                    chunk_size as int * (i as int + 1),
                    n as int,
                ));
            }
            total = total + chunk_sum(data, start, end);
            start = end;
        } else {
            proof {
                lemma_mul_inequality(i as int, i as int + 1, chunk_size as int);
                lemma_mul_is_commutative(chunk_size as int, i as int);
                lemma_mul_is_commutative(chunk_size as int, i as int + 1);
                assert(start as int == vstd::math::min(
                    chunk_size as int * (i as int + 1),
                    n as int,
                ));
            }
        }
    }
    proof {
        lemma_mul_is_commutative(chunk_size as int, workers as int);
        assert(start == n);
        assert(data@.subrange(0, n as int) =~= data@);
    }
    total
}

/// Reducer with explicit input validation: a worker count of zero is an
/// input-validation failure reported as `None`, distinct from any arithmetic
/// result.
pub fn chunked_sum_checked(data: &Vec<i32>, workers: usize) -> (r: Option<i128>)
    ensures
        match r {
            Some(t) => workers >= 1 && t == sum_seq(data@),
            None => workers == 0,
        },
{
    if workers == 0 {
        None
    } else {
        Some(chunked_sum(data, workers))
    }
}

} // verus!
