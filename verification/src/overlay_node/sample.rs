//! Drawing a few distinct items at random.
use vstd::prelude::*;
use crate::utils::random_below;

verus! {

/// The smaller of two numbers.
pub open spec fn smaller(a: int, b: int) -> int {
    if a <= b {
        a
    } else {
        b
    }
}

/// Whether `sample` is a choice of `count` distinct items of `pool`, or of
/// all of them where `pool` has fewer.
pub open spec fn is_sample<T>(sample: Seq<T>, pool: Seq<T>, count: int) -> bool {
    &&& sample.len() == smaller(count, pool.len() as int)
    &&& sample.no_duplicates()
    &&& forall|i: int| 0 <= i < sample.len() ==> pool.contains(#[trigger] sample[i])
}

/// Draws `count` distinct numbers below `n` at random, or all of them where
/// `n` is smaller than `count`.
pub fn sample_indices(n: usize, count: usize) -> (picked: Vec<usize>)
    ensures
        picked@.len() == smaller(count as int, n as int),
        picked@.no_duplicates(),
        forall|i: int| 0 <= i < picked@.len() ==> (#[trigger] picked@[i]) < n,
{
    let mut pool: Vec<usize> = Vec::new();
    let mut next: usize = 0;
    while next < n
        invariant
            next <= n,
            pool@.len() == next,
            forall|i: int| 0 <= i < next ==> (#[trigger] pool@[i]) == i,
        decreases n - next,
    {
        pool.push(next);
        next += 1;
    }
    let mut picked: Vec<usize> = Vec::new();
    let mut remaining: usize = n;
    while picked.len() < count && remaining > 0
        invariant
            pool@.len() == n,
            remaining + picked@.len() == n,
            picked@.len() <= count,
            pool@.no_duplicates(),
            forall|i: int| 0 <= i < n ==> (#[trigger] pool@[i]) < n,
            forall|k: int| 0 <= k < picked@.len() ==> (#[trigger] picked@[k]) == pool@[n - 1 - k],
        decreases remaining,
    {
        let drawn = random_below(remaining);
        let last = remaining - 1;
        let chosen = pool[drawn];
        let moved = pool[last];
        let ghost before = pool@;
        pool.set(drawn, moved);
        pool.set(last, chosen);
        proof {
            assert forall|i: int, j: int|
                0 <= i < pool@.len() && 0 <= j < pool@.len() && i != j implies pool@[i]
                != pool@[j] by {
                let i0 = if i == drawn {
                    last as int
                } else if i == last {
                    drawn as int
                } else {
                    i
                };
                let j0 = if j == drawn {
                    last as int
                } else if j == last {
                    drawn as int
                } else {
                    j
                };
                assert(pool@[i] == before[i0]);
                assert(pool@[j] == before[j0]);
                assert(before[i0] != before[j0]);
            }
            assert forall|i: int| 0 <= i < n implies (#[trigger] pool@[i]) < n by {
                let i0 = if i == drawn {
                    last as int
                } else if i == last {
                    drawn as int
                } else {
                    i
                };
                assert(pool@[i] == before[i0]);
            }
        }
        picked.push(chosen);
        remaining = last;
    }
    proof {
        assert forall|a: int, b: int|
            0 <= a < picked@.len() && 0 <= b < picked@.len() && a != b implies picked@[a]
            != picked@[b] by {
            assert(pool@[n - 1 - a] != pool@[n - 1 - b]);
        }
    }
    picked
}

} // verus!
