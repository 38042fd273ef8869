//! The safety check: search for an order in which every process can finish.
use vstd::prelude::*;
use crate::model::{
    rows, is_matrix, is_snapshot, released, work_after, can_finish, is_completion, lowest_first,
    is_search_order, is_safe, MAX_PROCESSES,
};
use crate::laws::lemma_stuck_order_decides_safety;
use crate::lemmas::{lemma_released_push, lemma_released_zero, lemma_released_bound, lemma_distinct_ids};

verus! {

/// A work vector as mathematical integers.
pub open spec fn as_ints(w: Seq<u64>) -> Seq<int> {
    w.map_values(|x: u64| x as int)
}

/// Appending a process that can finish, and that is the lowest-numbered one
/// that can, keeps a lowest-first completion order one.
proof fn lemma_extend_order(
    avail: Seq<u32>,
    alloc: Seq<Seq<u32>>,
    max: Seq<Seq<u32>>,
    order: Seq<usize>,
    i: usize,
)
    requires
        is_completion(avail, alloc, max, order),
        lowest_first(avail, alloc, max, order),
        i < alloc.len(),
        !order.contains(i),
        can_finish(max, alloc, work_after(avail, alloc, order), i as int),
        forall|a: usize|
            a < i && !order.contains(a) ==> !#[trigger] can_finish(
                max,
                alloc,
                work_after(avail, alloc, order),
                a as int,
            ),
    ensures
        is_completion(avail, alloc, max, order.push(i)),
        lowest_first(avail, alloc, max, order.push(i)),
{
    let next = order.push(i);
    assert(next.take(order.len() as int) =~= order);
    assert forall|k: int| 0 <= k < order.len() implies #[trigger] next.take(k) == order.take(k) by {
        assert(next.take(k) =~= order.take(k));
    }
    assert(next.no_duplicates()) by {
        assert forall|a: int, b: int| 0 <= a < next.len() && 0 <= b < next.len() && a != b implies next[a]
            != next[b] by {
            if a < order.len() && b < order.len() {
                assert(next[a] == order[a] && next[b] == order[b]);
            } else if a < order.len() {
                assert(next[a] == order[a]);
            } else if b < order.len() {
                assert(next[b] == order[b]);
            }
        }
    }
    assert forall|k: int| 0 <= k < next.len() implies #[trigger] next[k] < alloc.len() by {
        if k < order.len() {
            assert(next[k] == order[k]);
        }
    }
    assert forall|k: int| 0 <= k < next.len() implies can_finish(
        max,
        alloc,
        work_after(avail, alloc, next.take(k)),
        #[trigger] next[k] as int,
    ) by {
        if k < order.len() {
            assert(next[k] == order[k]);
        }
    }
    assert forall|k: int, a: usize|
        0 <= k < next.len() && a < next[k] && !next.take(k).contains(a) implies !#[trigger] can_finish(
        max,
        alloc,
        work_after(avail, alloc, next.take(k)),
        a as int,
    ) by {
        if k < order.len() {
            assert(next[k] == order[k]);
        }
    }
}

/// The work vector after one more process finishes: its row is added.
proof fn lemma_work_push(avail: Seq<u32>, alloc: Seq<Seq<u32>>, order: Seq<usize>, i: usize, j: int)
    requires
        !order.contains(i),
        i < alloc.len(),
        alloc.len() <= MAX_PROCESSES,
        0 <= j < avail.len(),
    ensures
        work_after(avail, alloc, order.push(i))[j] == work_after(avail, alloc, order)[j]
            + alloc[i as int][j],
        work_after(avail, alloc, order.push(i))[j] <= (MAX_PROCESSES + 1) * 0xffff_ffff,
{
    lemma_released_push(alloc, order, i, j, alloc.len());
    lemma_released_bound(alloc, order.push(i), j, alloc.len());
}

/// Whether a process whose rows are `max_row` and `alloc_row` can finish with
/// `work`.
fn process_can_finish(max_row: &Vec<u32>, alloc_row: &Vec<u32>, work: &Vec<u64>) -> (r: bool)
    requires
        max_row@.len() == work@.len(),
        alloc_row@.len() == work@.len(),
        forall|j: int| 0 <= j < work@.len() ==> #[trigger] work@[j] <= (MAX_PROCESSES + 1) * 0xffff_ffff,
    ensures
        r == forall|j: int|
            0 <= j < work@.len() ==> max_row@[j] - alloc_row@[j] <= #[trigger] work@[j],
{
    let mut j: usize = 0;
    while j < work.len()
        invariant
            max_row@.len() == work@.len(),
            alloc_row@.len() == work@.len(),
            forall|j: int| 0 <= j < work@.len() ==> #[trigger] work@[j] <= (MAX_PROCESSES + 1) * 0xffff_ffff,
            j <= work@.len(),
            forall|k: int| 0 <= k < j ==> max_row@[k] - alloc_row@[k] <= #[trigger] work@[k],
        decreases work@.len() - j,
    {
        if max_row[j] as u64 > alloc_row[j] as u64 + work[j] {
            return false;
        }
        j = j + 1;
    }
    true
}

/// The lowest-numbered unfinished process that can finish with `work`, if any.
fn next_to_finish(
    max_matrix: &Vec<Vec<u32>>,
    allocation_matrix: &Vec<Vec<u32>>,
    finished: &Vec<bool>,
    work: &Vec<u64>,
) -> (r: Option<usize>)
    requires
        is_matrix(rows(allocation_matrix@), finished@.len() as int, work@.len() as int),
        is_matrix(rows(max_matrix@), finished@.len() as int, work@.len() as int),
        finished@.len() == allocation_matrix@.len(),
        forall|j: int| 0 <= j < work@.len() ==> #[trigger] work@[j] <= (MAX_PROCESSES + 1) * 0xffff_ffff,
    ensures
        r matches Some(i) ==> {
            &&& i < finished@.len()
            &&& !finished@[i as int]
            &&& can_finish(rows(max_matrix@), rows(allocation_matrix@), as_ints(work@), i as int)
        },
        forall|a: usize|
            a < finished@.len() && !finished@[a as int] && (r matches Some(i) ==> a < i) ==> !#[trigger] can_finish(
                rows(max_matrix@),
                rows(allocation_matrix@),
                as_ints(work@),
                a as int,
            ),
{
    let ghost mx = rows(max_matrix@);
    let ghost al = rows(allocation_matrix@);
    let ghost w = as_ints(work@);
    let mut i: usize = 0;
    while i < finished.len()
        invariant
            mx == rows(max_matrix@),
            al == rows(allocation_matrix@),
            w == as_ints(work@),
            is_matrix(al, finished@.len() as int, work@.len() as int),
            is_matrix(mx, finished@.len() as int, work@.len() as int),
            finished@.len() == allocation_matrix@.len(),
            forall|j: int| 0 <= j < work@.len() ==> #[trigger] work@[j] <= (MAX_PROCESSES + 1) * 0xffff_ffff,
            i <= finished@.len(),
            forall|a: usize| a < i && !finished@[a as int] ==> !#[trigger] can_finish(mx, al, w, a as int),
        decreases finished@.len() - i,
    {
        if !finished[i] {
            assert(max_matrix@[i as int]@ == mx[i as int]);
            assert(allocation_matrix@[i as int]@ == al[i as int]);
            let ok = process_can_finish(&max_matrix[i], &allocation_matrix[i], work);
            assert(w.len() == work@.len());
            assert(forall|j: int| 0 <= j < w.len() ==> #[trigger] w[j] == work@[j] as int);
            proof {
            if ok {
                assert forall|j: int| 0 <= j < w.len() implies mx[i as int][j] - al[i as int][j] <= #[trigger] w[j] by {
                    assert(work@[j] == w[j]);
                }
            } else {
                let j = choose|j: int| 0 <= j < work@.len() && !(max_matrix@[i as int]@[j] - allocation_matrix@[i as int]@[j] <= #[trigger] work@[j]);
                assert(!(mx[i as int][j] - al[i as int][j] <= w[j]));
            }
            }
            assert(ok == can_finish(mx, al, w, i as int));
            if ok {
                return Some(i);
            }
        }
        i = i + 1;
    }
    None
}

/// Runs the safety search and returns its order, complete or not.
fn search_order(
    max_matrix: &Vec<Vec<u32>>,
    allocation_matrix: &Vec<Vec<u32>>,
    available_vec: &Vec<u32>,
) -> (order: Vec<usize>)
    requires
        is_snapshot(available_vec@, rows(allocation_matrix@), rows(max_matrix@)),
        allocation_matrix@.len() <= MAX_PROCESSES,
    ensures
        is_search_order(available_vec@, rows(allocation_matrix@), rows(max_matrix@), order@),
{
    let ghost mx = rows(max_matrix@);
    let ghost al = rows(allocation_matrix@);
    let ghost av = available_vec@;
    let num_processes = allocation_matrix.len();
    let num_resources = available_vec.len();
    let mut order: Vec<usize> = Vec::new();
    let mut work: Vec<u64> = Vec::new();
    for j in 0..num_resources
        invariant
            av == available_vec@,
            num_resources == av.len(),
            work@.len() == j,
            forall|k: int| 0 <= k < j ==> #[trigger] work@[k] == av[k],
    {
        work.push(available_vec[j] as u64);
    }
    let mut finished: Vec<bool> = Vec::new();
    for i in 0..num_processes
        invariant
            finished@.len() == i,
            forall|k: int| 0 <= k < i ==> !#[trigger] finished@[k],
    {
        finished.push(false);
    }
    proof {
        assert forall|j: int| 0 <= j < num_resources implies #[trigger] as_ints(work@)[j] == work_after(av, al, order@)[j] by {
            lemma_released_bound(al, order@, j, al.len());
            assert(released(al, order@, j, al.len()) == 0) by {
                lemma_released_zero(al, j, al.len());
            }
        }
        assert(as_ints(work@) =~= work_after(av, al, order@));
    }
    loop
        invariant
            mx == rows(max_matrix@),
            al == rows(allocation_matrix@),
            av == available_vec@,
            is_snapshot(av, al, mx),
            num_processes == al.len(),
            num_resources == av.len(),
            num_processes <= MAX_PROCESSES,
            finished@.len() == num_processes,
            forall|a: usize| a < num_processes ==> (#[trigger] finished@[a as int] <==> order@.contains(a)),
            work@.len() == num_resources,
            as_ints(work@) == work_after(av, al, order@),
            forall|j: int| 0 <= j < work@.len() ==> #[trigger] work@[j] <= (MAX_PROCESSES + 1) * 0xffff_ffff,
            is_completion(av, al, mx, order@),
            lowest_first(av, al, mx, order@),
        ensures
            is_search_order(av, al, mx, order@),
        decreases num_processes - order@.len(),
    {
        match next_to_finish(max_matrix, allocation_matrix, &finished, &work) {
            None => {
                break;
            },
            Some(i) => {
                let ghost before = order@;
                proof {
                    lemma_extend_order(av, al, mx, before, i);
                    lemma_distinct_ids(before.push(i), num_processes as nat);
                }
                let row = &allocation_matrix[i];
                assert(row@ == al[i as int]);
                let mut j: usize = 0;
                while j < num_resources
                    invariant
                        al == rows(allocation_matrix@),
                        av == available_vec@,
                        is_snapshot(av, al, mx),
                        num_processes == al.len(),
                        num_resources == av.len(),
                        num_processes <= MAX_PROCESSES,
                        i < num_processes,
                        !before.contains(i),
                        row@ == al[i as int],
                        j <= num_resources,
                        work@.len() == num_resources,
                        forall|k: int| 0 <= k < j ==> #[trigger] work@[k] == work_after(av, al, before.push(i))[k],
                        forall|k: int| j <= k < num_resources ==> #[trigger] work@[k] == work_after(av, al, before)[k],
                    decreases num_resources - j,
                {
                    proof {
                        lemma_work_push(av, al, before, i, j as int);
                    }
                    let w = work[j] + row[j] as u64;
                    work.set(j, w);
                    j = j + 1;
                }
                finished.set(i, true);
                order.push(i);
                proof {
                    assert(as_ints(work@) =~= work_after(av, al, order@));
                    assert forall|j: int| 0 <= j < work@.len() implies #[trigger] work@[j] <= (MAX_PROCESSES + 1) * 0xffff_ffff by {
                        lemma_work_push(av, al, before, i, j);
                    }
                    assert forall|a: usize| a < num_processes implies (#[trigger] finished@[a as int] <==> order@.contains(a)) by {
                        if a != i && order@.contains(a) {
                            let k = choose|k: int| 0 <= k < order@.len() && order@[k] == a;
                            assert(before[k] == a);
                        }
                        if before.contains(a) {
                            let k = choose|k: int| 0 <= k < before.len() && before[k] == a;
                            assert(order@[k] == a);
                        }
                        if a == i {
                            assert(order@[before.len() as int] == a);
                        }
                    }
                }
            },
        }
    }
    order
}

/// The completion order found by the safety search when it proves the state
/// safe: at each step the lowest-numbered process that can finish. `None` when
/// the state is unsafe.
pub fn safe_sequence(
    num_processes: usize,
    num_resources: usize,
    max_matrix: &Vec<Vec<u32>>,
    allocation_matrix: &Vec<Vec<u32>>,
    available_vec: &Vec<u32>,
) -> (r: Option<Vec<usize>>)
    requires
        num_processes <= MAX_PROCESSES,
        available_vec@.len() == num_resources,
        is_matrix(rows(max_matrix@), num_processes as int, num_resources as int),
        is_matrix(rows(allocation_matrix@), num_processes as int, num_resources as int),
    ensures
        r is Some <==> is_safe(available_vec@, rows(allocation_matrix@), rows(max_matrix@)),
        r matches Some(order) ==> {
            &&& order@.len() == num_processes
            &&& is_search_order(available_vec@, rows(allocation_matrix@), rows(max_matrix@), order@)
        },
{
    let order = search_order(max_matrix, allocation_matrix, available_vec);
    proof {
        lemma_stuck_order_decides_safety(
            available_vec@,
            rows(allocation_matrix@),
            rows(max_matrix@),
            order@,
        );
    }
    if order.len() == num_processes {
        Some(order)
    } else {
        None
    }
}

/// Whether the state is safe: some order lets every process run to completion.
/// The caller's vectors are only read.
pub fn is_safe_state(
    num_processes: usize,
    num_resources: usize,
    max_matrix: &Vec<Vec<u32>>,
    allocation_matrix: &Vec<Vec<u32>>,
    available_vec: &Vec<u32>,
) -> (r: bool)
    requires
        num_processes <= MAX_PROCESSES,
        available_vec@.len() == num_resources,
        is_matrix(rows(max_matrix@), num_processes as int, num_resources as int),
        is_matrix(rows(allocation_matrix@), num_processes as int, num_resources as int),
    ensures
        r == is_safe(available_vec@, rows(allocation_matrix@), rows(max_matrix@)),
{
    safe_sequence(num_processes, num_resources, max_matrix, allocation_matrix, available_vec).is_some()
}

} // verus!


