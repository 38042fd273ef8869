//! Facts about released resources and about lists of distinct process ids.
use vstd::prelude::*;
use vstd::set_lib::lemma_len_subset;
use crate::model::released;

verus! {

/// Adding a process not yet listed adds its holdings, if it is among the first `n`.
pub proof fn lemma_released_push(alloc: Seq<Seq<u32>>, done: Seq<usize>, x: usize, j: int, n: nat)
    requires
        !done.contains(x),
        n <= usize::MAX + 1,
    ensures
        released(alloc, done.push(x), j, n) == released(alloc, done, j, n) + if x < n {
            alloc[x as int][j] as int
        } else {
            0
        },
    decreases n,
{
    if n > 0 {
        lemma_released_push(alloc, done, x, j, (n - 1) as nat);
        let y = (n - 1) as usize;
        assert(done.push(x).contains(y) <==> done.contains(y) || y == x) by {
            if done.push(x).contains(y) {
                let k = choose|k: int| 0 <= k < done.push(x).len() && done.push(x)[k] == y;
                if k < done.len() {
                    assert(done[k] == y);
                }
            }
            if done.contains(y) {
                let k = choose|k: int| 0 <= k < done.len() && done[k] == y;
                assert(done.push(x)[k] == y);
            }
            if y == x {
                assert(done.push(x)[done.len() as int] == y);
            }
        }
    }
}

/// Releasing the holdings of more processes frees no less of any resource.
pub proof fn lemma_released_mono(alloc: Seq<Seq<u32>>, a: Seq<usize>, b: Seq<usize>, j: int, n: nat)
    requires
        forall|x: usize| a.contains(x) ==> b.contains(x),
    ensures
        released(alloc, a, j, n) <= released(alloc, b, j, n),
    decreases n,
{
    if n > 0 {
        lemma_released_mono(alloc, a, b, j, (n - 1) as nat);
    }
}

/// Released units of one resource are bounded by the largest `u32` per process.
pub proof fn lemma_released_bound(alloc: Seq<Seq<u32>>, done: Seq<usize>, j: int, n: nat)
    ensures
        0 <= released(alloc, done, j, n) <= n * 0xffff_ffff,
    decreases n,
{
    if n > 0 {
        lemma_released_bound(alloc, done, j, (n - 1) as nat);
    }
}

/// Nothing is released before any process has finished.
pub proof fn lemma_released_zero(alloc: Seq<Seq<u32>>, j: int, n: nat)
    ensures
        released(alloc, Seq::empty(), j, n) == 0,
    decreases n,
{
    if n > 0 {
        lemma_released_zero(alloc, j, (n - 1) as nat);
    }
}

/// The ids below `p`.
pub open spec fn ids_below(p: nat) -> Set<usize>
    decreases p,
{
    if p == 0 {
        Set::empty()
    } else {
        ids_below((p - 1) as nat).insert((p - 1) as usize)
    }
}

proof fn lemma_ids_below(p: nat)
    requires
        p <= usize::MAX + 1,
    ensures
        ids_below(p).finite(),
        ids_below(p).len() == p,
        forall|i: usize| ids_below(p).contains(i) <==> i < p,
    decreases p,
{
    if p > 0 {
        lemma_ids_below((p - 1) as nat);
    }
}

/// Distinct ids below `p` number at most `p`, and exactly `p` only when every
/// id below `p` is among them.
pub proof fn lemma_distinct_ids(s: Seq<usize>, p: nat)
    requires
        p <= usize::MAX + 1,
        s.no_duplicates(),
        forall|k: int| 0 <= k < s.len() ==> #[trigger] s[k] < p,
    ensures
        s.len() <= p,
        s.len() == p ==> forall|i: usize| i < p ==> s.contains(i),
{
    lemma_ids_below(p);
    s.unique_seq_to_set();
    assert(s.to_set().subset_of(ids_below(p))) by {
        assert forall|x: usize| s.to_set().contains(x) implies ids_below(p).contains(x) by {
            let k = choose|k: int| 0 <= k < s.len() && s[k] == x;
        }
    }
    lemma_len_subset(s.to_set(), ids_below(p));
    if s.len() == p {
        assert forall|i: usize| i < p implies s.contains(i) by {
            if !s.contains(i) {
                let t = s.push(i);
                assert(t.no_duplicates()) by {
                    assert forall|a: int, b: int| 0 <= a < b < t.len() implies t[a] != t[b] by {
                        if b == s.len() {
                            assert(s[a] == t[a]);
                        }
                    }
                }
                t.unique_seq_to_set();
                assert(t.to_set().subset_of(ids_below(p))) by {
                    assert forall|x: usize| t.to_set().contains(x) implies ids_below(p).contains(x) by {
                        let k = choose|k: int| 0 <= k < t.len() && t[k] == x;
                        if k < s.len() {
                            assert(s[k] == x);
                        }
                    }
                }
                lemma_len_subset(t.to_set(), ids_below(p));
            }
        }
    }
}

/// A list that holds every id below `p` has at least `p` entries.
pub proof fn lemma_covering_ids(s: Seq<usize>, p: nat)
    requires
        p <= usize::MAX + 1,
        forall|i: usize| i < p ==> s.contains(i),
    ensures
        s.len() >= p,
{
    lemma_ids_below(p);
    s.lemma_cardinality_of_set();
    vstd::seq_lib::seq_to_set_is_finite(s);
    assert(ids_below(p).subset_of(s.to_set()));
    lemma_len_subset(ids_below(p), s.to_set());
}

} // verus!

