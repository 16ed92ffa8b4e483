//! The inventory pool of one tier: item indices not yet allocated, taken out
//! one at a time at a position chosen by an outside random draw.
use vstd::prelude::*;
use crate::error::MintError;

verus! {

/// The draw used at step `i`; steps past the end of `draws` use zero.
pub open spec fn draw_at(draws: Seq<u32>, i: int) -> u32 {
    if 0 <= i < draws.len() {
        draws[i]
    } else {
        0
    }
}

/// The pool after the element at `pos` is taken out: the last element moves
/// into its place.
pub open spec fn swap_remove_spec(pool: Seq<usize>, pos: int) -> Seq<usize> {
    pool.update(pos, pool.last()).drop_last()
}

/// Taking `k` items from `pool`, the first with draw number `start`: the items
/// taken, in order, and the pool that is left.
pub open spec fn draw_run(pool: Seq<usize>, draws: Seq<u32>, start: int, k: nat) -> (Seq<usize>, Seq<usize>)
    decreases k,
{
    if k == 0 || pool.len() == 0 {
        (Seq::empty(), pool)
    } else {
        let pos = (draw_at(draws, start) as int) % (pool.len() as int);
        let rest = draw_run(swap_remove_spec(pool, pos), draws, start + 1, (k - 1) as nat);
        (seq![pool[pos]] + rest.0, rest.1)
    }
}

/// A giveaway's runs of takes, one per count, each starting where the last
/// left off: the indices each count receives, all of them in order, and the
/// pool that is left.
pub open spec fn giveaway_run(pool: Seq<usize>, draws: Seq<u32>, start: int, counts: Seq<usize>) -> (
    Seq<Seq<usize>>,
    Seq<usize>,
    Seq<usize>,
)
    decreases counts.len(),
{
    if counts.len() == 0 {
        (Seq::empty(), Seq::empty(), pool)
    } else {
        let r = draw_run(pool, draws, start, counts[0] as nat);
        let rest = giveaway_run(r.1, draws, start + counts[0], counts.drop_first());
        (seq![r.0] + rest.0, r.0 + rest.1, rest.2)
    }
}

/// The first shortfall that a run of giveaway counts meets against a pool
/// of `remaining` indices: a nonzero count finding the pool empty, or asking
/// for more than it holds.
pub open spec fn giveaway_shortfall(remaining: nat, counts: Seq<usize>) -> Option<MintError>
    decreases counts.len(),
{
    if counts.len() == 0 {
        None
    } else if counts[0] == 0 {
        giveaway_shortfall(remaining, counts.drop_first())
    } else if remaining == 0 {
        Some(MintError::Exhausted)
    } else if counts[0] > remaining {
        Some(MintError::NotEnoughAvailable)
    } else {
        giveaway_shortfall((remaining - counts[0]) as nat, counts.drop_first())
    }
}

/// Pool `pool` and allocation record `allocated` together hold each index
/// below `max` exactly once.
pub open spec fn pool_partition(pool: Seq<usize>, allocated: Seq<usize>, max: nat) -> bool {
    &&& pool.no_duplicates()
    &&& allocated.no_duplicates()
    &&& forall|i: int, j: int| 0 <= i < pool.len() && 0 <= j < allocated.len() ==> pool[i] != allocated[j]
    &&& forall|i: int| 0 <= i < pool.len() ==> (#[trigger] pool[i]) < max
    &&& forall|j: int| 0 <= j < allocated.len() ==> (#[trigger] allocated[j]) < max
    &&& pool.len() + allocated.len() == max
}

/// The full pool of a new tier: every index below `max`, in order.
pub open spec fn full_range(max: nat) -> Seq<usize> {
    Seq::new(max, |i: int| i as usize)
}

/// Taking one element out keeps the rest, and only the rest, exactly once.
pub proof fn lemma_swap_remove(pool: Seq<usize>, pos: int)
    requires
        pool.no_duplicates(),
        0 <= pos < pool.len(),
    ensures
        swap_remove_spec(pool, pos).len() == pool.len() - 1,
        swap_remove_spec(pool, pos).no_duplicates(),
        forall|x: usize| swap_remove_spec(pool, pos).contains(x) <==> (pool.contains(x) && x != pool[pos]),
{
    let r = swap_remove_spec(pool, pos);
    let last = pool.len() - 1;
    assert forall|x: usize| r.contains(x) <==> (pool.contains(x) && x != pool[pos]) by {
        if r.contains(x) {
            let i = choose|i: int| 0 <= i < r.len() && r[i] == x;
            if i == pos {
                assert(pool[last] == x);
            } else {
                assert(pool[i] == x);
            }
        }
        if pool.contains(x) && x != pool[pos] {
            let i = choose|i: int| 0 <= i < pool.len() && pool[i] == x;
            if i == last {
                assert(r[pos] == x);
            } else {
                assert(r[i] == x);
            }
        }
    }
}

/// A run of `k` takes, with `k` no more than the pool holds, hands out `k`
/// distinct items of the pool and leaves exactly the others.
pub proof fn lemma_draw_run(pool: Seq<usize>, draws: Seq<u32>, start: int, k: nat)
    requires
        pool.no_duplicates(),
        k <= pool.len(),
    ensures
        draw_run(pool, draws, start, k).0.len() == k,
        draw_run(pool, draws, start, k).1.len() == pool.len() - k,
        draw_run(pool, draws, start, k).0.no_duplicates(),
        draw_run(pool, draws, start, k).1.no_duplicates(),
        forall|x: usize| #[trigger] draw_run(pool, draws, start, k).0.contains(x) ==> pool.contains(x),
        forall|x: usize| #[trigger] draw_run(pool, draws, start, k).1.contains(x) <==> (pool.contains(x)
            && !draw_run(pool, draws, start, k).0.contains(x)),
    decreases k,
{
    if k == 0 || pool.len() == 0 {
        let r = draw_run(pool, draws, start, k);
        assert(r.0 =~= Seq::<usize>::empty());
    } else {
        let pos = (draw_at(draws, start) as int) % (pool.len() as int);
        let p2 = swap_remove_spec(pool, pos);
        lemma_swap_remove(pool, pos);
        lemma_draw_run(p2, draws, start + 1, (k - 1) as nat);
        let rest = draw_run(p2, draws, start + 1, (k - 1) as nat);
        let taken = seq![pool[pos]] + rest.0;
        assert(draw_run(pool, draws, start, k).0 == taken);
        assert forall|x: usize| taken.contains(x) <==> (x == pool[pos] || rest.0.contains(x)) by {
            if taken.contains(x) {
                let i = choose|i: int| 0 <= i < taken.len() && taken[i] == x;
                if i > 0 {
                    assert(rest.0[i - 1] == x);
                }
            }
            if rest.0.contains(x) {
                let i = choose|i: int| 0 <= i < rest.0.len() && rest.0[i] == x;
                assert(taken[i + 1] == x);
            }
            if x == pool[pos] {
                assert(taken[0] == x);
            }
        }
        assert(!rest.0.contains(pool[pos]));
        assert forall|i: int, j: int| 0 <= i < taken.len() && 0 <= j < taken.len() && i != j implies taken[i] != taken[j] by {
            if i > 0 && j > 0 {
                assert(taken[i] == rest.0[i - 1]);
                assert(taken[j] == rest.0[j - 1]);
            } else if i == 0 {
                assert(rest.0.contains(taken[j]));
            } else {
                assert(rest.0.contains(taken[i]));
            }
        }
    }
}

/// A run of takes moves items from the pool to the allocation record and
/// keeps each index below `max` in exactly one of the two.
pub proof fn lemma_partition_after_run(
    pool: Seq<usize>,
    allocated: Seq<usize>,
    max: nat,
    draws: Seq<u32>,
    start: int,
    k: nat,
)
    requires
        pool_partition(pool, allocated, max),
        k <= pool.len(),
    ensures
        pool_partition(
            draw_run(pool, draws, start, k).1,
            allocated + draw_run(pool, draws, start, k).0,
            max,
        ),
{
    lemma_draw_run(pool, draws, start, k);
    let (taken, left) = draw_run(pool, draws, start, k);
    let a2 = allocated + taken;
    assert forall|x: usize| #[trigger] a2.contains(x) <==> (allocated.contains(x) || taken.contains(x)) by {
        if a2.contains(x) {
            let i = choose|i: int| 0 <= i < a2.len() && a2[i] == x;
            if i >= allocated.len() {
                assert(taken[i - allocated.len()] == x);
            }
        }
        if taken.contains(x) {
            let i = choose|i: int| 0 <= i < taken.len() && taken[i] == x;
            assert(a2[allocated.len() + i] == x);
        }
        if allocated.contains(x) {
            let i = choose|i: int| 0 <= i < allocated.len() && allocated[i] == x;
            assert(a2[i] == x);
        }
    }
    assert forall|i: int, j: int| 0 <= i < a2.len() && 0 <= j < a2.len() && i != j implies a2[i] != a2[j] by {
        if i < allocated.len() && j >= allocated.len() {
            assert(taken.contains(a2[j]));
            assert(pool.contains(a2[j]));
        } else if j < allocated.len() && i >= allocated.len() {
            assert(taken.contains(a2[i]));
            assert(pool.contains(a2[i]));
        } else if i >= allocated.len() && j >= allocated.len() {
            assert(a2[i] == taken[i - allocated.len()]);
            assert(a2[j] == taken[j - allocated.len()]);
        }
    }
    assert forall|i: int| 0 <= i < left.len() implies (#[trigger] left[i]) < max by {
        assert(left.contains(left[i]));
    }
    assert forall|j: int| 0 <= j < a2.len() implies (#[trigger] a2[j]) < max by {
        if j >= allocated.len() {
            assert(a2[j] == taken[j - allocated.len()]);
            assert(taken.contains(a2[j]));
        }
    }
    assert forall|i: int, j: int| 0 <= i < left.len() && 0 <= j < a2.len() implies left[i] != a2[j] by {
        assert(left.contains(left[i]));
        assert(a2.contains(a2[j]));
        if j < allocated.len() {
            assert(allocated.contains(a2[j]));
        }
    }
}

/// Takes `k` items out of `pool`, the `i`-th at position
/// `draw_at(draws, start + i) % len` of the pool as it then stands.
pub fn take_random_ids(pool: &mut Vec<usize>, draws: &Vec<u32>, start: usize, k: usize) -> (r: Vec<usize>)
    requires
        k <= old(pool)@.len(),
        start + k <= usize::MAX,
    ensures
        (r@, final(pool)@) == draw_run(old(pool)@, draws@, start as int, k as nat),
{
    let mut out: Vec<usize> = Vec::new();
    let mut i: usize = 0;
    while i < k
        invariant
            i <= k,
            k <= old(pool)@.len(),
            start + k <= usize::MAX,
            pool@.len() == old(pool)@.len() - i,
            draw_run(old(pool)@, draws@, start as int, k as nat) == (
                out@ + draw_run(pool@, draws@, (start + i) as int, (k - i) as nat).0,
                draw_run(pool@, draws@, (start + i) as int, (k - i) as nat).1,
            ),
        decreases k - i,
    {
        let d: u32 = if start + i < draws.len() { draws[start + i] } else { 0 };
        let len = pool.len();
        let pos = (d as usize) % len;
        let ghost before = pool@;
        let ghost out_before = out@;
        let id = pool.swap_remove(pos);
        out.push(id);
        proof {
            assert(d == draw_at(draws@, (start + i) as int));
            let rest = draw_run(pool@, draws@, (start + i + 1) as int, (k - i - 1) as nat);
            assert(draw_run(before, draws@, (start + i) as int, (k - i) as nat) == (
                seq![id] + rest.0, rest.1));
            assert(out_before + (seq![id] + rest.0) =~= out@ + rest.0);
        }
        i = i + 1;
    }
    proof {
        assert(out@ + Seq::<usize>::empty() =~= out@);
    }
    out
}

} // verus!
