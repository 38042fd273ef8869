//! General facts about the safety search.
use vstd::prelude::*;
use crate::model::{
    is_snapshot, work_after, can_finish, is_completion, is_stuck, is_search_order, is_safe,
};
use crate::lemmas::{lemma_released_mono, lemma_distinct_ids, lemma_covering_ids};

verus! {

/// The first position of `t`, from `k` on, whose process `order` lacks.
proof fn lemma_first_missing(t: Seq<usize>, order: Seq<usize>, k: int) -> (m: int)
    requires
        0 <= k <= t.len(),
        forall|a: int| 0 <= a < k ==> order.contains(#[trigger] t[a]),
        exists|a: int| k <= a < t.len() && !order.contains(#[trigger] t[a]),
    ensures
        k <= m < t.len(),
        !order.contains(t[m]),
        forall|a: int| 0 <= a < m ==> order.contains(#[trigger] t[a]),
    decreases t.len() - k,
{
    if order.contains(t[k]) {
        lemma_first_missing(t, order, k + 1)
    } else {
        k
    }
}

/// A process that can finish with some work can finish with more.
proof fn lemma_can_finish_more(
    max: Seq<Seq<u32>>,
    alloc: Seq<Seq<u32>>,
    small: Seq<int>,
    big: Seq<int>,
    i: int,
)
    requires
        small.len() == big.len(),
        forall|j: int| 0 <= j < small.len() ==> small[j] <= big[j],
        can_finish(max, alloc, small, i),
    ensures
        can_finish(max, alloc, big, i),
{
    assert forall|j: int| 0 <= j < big.len() implies max[i][j] - alloc[i][j] <= #[trigger] big[j] by {
        assert(max[i][j] - alloc[i][j] <= small[j]);
    }
}

/// The verdict of the safety check does not depend on the order in which
/// finishable processes are taken: any completion order that cannot be
/// extended holds every process exactly when the state is safe.
pub proof fn lemma_stuck_order_decides_safety(
    avail: Seq<u32>,
    alloc: Seq<Seq<u32>>,
    max: Seq<Seq<u32>>,
    order: Seq<usize>,
)
    requires
        is_snapshot(avail, alloc, max),
        alloc.len() <= usize::MAX,
        is_completion(avail, alloc, max, order),
        is_stuck(avail, alloc, max, order),
    ensures
        order.len() == alloc.len() <==> is_safe(avail, alloc, max),
{
    let p = alloc.len();
    lemma_distinct_ids(order, p);
    if is_safe(avail, alloc, max) && order.len() != p {
        let t = choose|t: Seq<usize>| #[trigger] is_completion(avail, alloc, max, t) && t.len() == p;
        lemma_distinct_ids(t, p);
        if forall|a: int| 0 <= a < t.len() ==> order.contains(#[trigger] t[a]) {
            assert forall|i: usize| i < p implies order.contains(i) by {
                assert(t.contains(i));
                let a = choose|a: int| 0 <= a < t.len() && t[a] == i;
            }
            lemma_covering_ids(order, p);
        }
        let m = lemma_first_missing(t, order, 0);
        let before = t.take(m);
        assert forall|x: usize| before.contains(x) implies order.contains(x) by {
            let a = choose|a: int| 0 <= a < before.len() && before[a] == x;
            assert(t[a] == x);
        }
        let small = work_after(avail, alloc, before);
        let big = work_after(avail, alloc, order);
        assert forall|j: int| 0 <= j < small.len() implies small[j] <= big[j] by {
            lemma_released_mono(alloc, before, order, j, alloc.len());
        }
        assert(can_finish(max, alloc, small, t[m] as int));
        lemma_can_finish_more(max, alloc, small, big, t[m] as int);
        assert(!can_finish(max, alloc, big, t[m] as int));
    }
    if order.len() == p {
        assert(is_completion(avail, alloc, max, order));
    }
}

/// The safety search is deterministic: on one snapshot there is exactly one
/// lowest-first completion order that cannot be extended.
pub proof fn lemma_search_order_unique(
    avail: Seq<u32>,
    alloc: Seq<Seq<u32>>,
    max: Seq<Seq<u32>>,
    o1: Seq<usize>,
    o2: Seq<usize>,
)
    requires
        is_search_order(avail, alloc, max, o1),
        is_search_order(avail, alloc, max, o2),
    ensures
        o1 == o2,
{
    assert(o1.take(0) =~= o2.take(0));
    lemma_common_prefix(avail, alloc, max, o1, o2, 0);
    if o1.len() < o2.len() {
        lemma_no_longer(avail, alloc, max, o1, o2);
    } else if o2.len() < o1.len() {
        lemma_no_longer(avail, alloc, max, o2, o1);
    }
    assert(o1 =~= o2);
}

/// Two search orders agree wherever both are defined.
proof fn lemma_common_prefix(
    avail: Seq<u32>,
    alloc: Seq<Seq<u32>>,
    max: Seq<Seq<u32>>,
    o1: Seq<usize>,
    o2: Seq<usize>,
    k: int,
)
    requires
        is_search_order(avail, alloc, max, o1),
        is_search_order(avail, alloc, max, o2),
        0 <= k,
        k <= o1.len(),
        k <= o2.len(),
        o1.take(k) == o2.take(k),
    ensures
        forall|a: int| 0 <= a < o1.len() && a < o2.len() ==> #[trigger] o1[a] == o2[a],
    decreases o1.len() - k,
{
    if k < o1.len() && k < o2.len() {
        let x = o1[k];
        let y = o2[k];
        let pre = o1.take(k);
        assert(!pre.contains(x)) by {
            if pre.contains(x) {
                let a = choose|a: int| 0 <= a < pre.len() && pre[a] == x;
                assert(o1[a] == x);
            }
        }
        assert(!pre.contains(y)) by {
            if pre.contains(y) {
                let a = choose|a: int| 0 <= a < pre.len() && pre[a] == y;
                assert(o2[a] == y && o2.take(k)[a] == y);
            }
        }
        assert(can_finish(max, alloc, work_after(avail, alloc, o1.take(k)), x as int));
        assert(can_finish(max, alloc, work_after(avail, alloc, o2.take(k)), y as int));
        if x < y {
            assert(!can_finish(max, alloc, work_after(avail, alloc, o2.take(k)), x as int));
        }
        if y < x {
            assert(!can_finish(max, alloc, work_after(avail, alloc, o1.take(k)), y as int));
        }
        assert(o1.take(k + 1) =~= o2.take(k + 1)) by {
            assert forall|a: int| 0 <= a < k + 1 implies #[trigger] o1.take(k + 1)[a] == o2.take(k + 1)[a] by {
                if a < k {
                    assert(o1.take(k)[a] == o2.take(k)[a]);
                }
            }
        }
        lemma_common_prefix(avail, alloc, max, o1, o2, k + 1);
    } else {
        assert forall|a: int| 0 <= a < o1.len() && a < o2.len() implies #[trigger] o1[a] == o2[a] by {
            assert(a < k);
            assert(o1[a] == o1.take(k)[a]);
            assert(o2[a] == o2.take(k)[a]);
        }
    }
}

/// A completion order that is a proper prefix of another is not stuck.
proof fn lemma_no_longer(
    avail: Seq<u32>,
    alloc: Seq<Seq<u32>>,
    max: Seq<Seq<u32>>,
    short: Seq<usize>,
    long: Seq<usize>,
)
    requires
        is_completion(avail, alloc, max, long),
        short.len() < long.len(),
        forall|a: int| 0 <= a < short.len() ==> #[trigger] short[a] == long[a],
    ensures
        !is_stuck(avail, alloc, max, short),
{
    let n = short.len() as int;
    assert(long.take(n) =~= short);
    let x = long[n];
    assert(!short.contains(x)) by {
        if short.contains(x) {
            let a = choose|a: int| 0 <= a < short.len() && short[a] == x;
            assert(long[a] == x);
        }
    }
    assert(can_finish(max, alloc, work_after(avail, alloc, long.take(n)), x as int));
    assert(x < alloc.len());
}

} // verus!
