//! The mathematical model of a resource-allocation snapshot.
use vstd::prelude::*;

verus! {

/// The largest number of processes a snapshot may describe.
pub const MAX_PROCESSES: usize = 1024;

/// The largest number of resource types a snapshot may describe ('A' to 'Z').
pub const MAX_RESOURCES: usize = 26;

/// The rows of a matrix, each as a sequence.
pub open spec fn rows(m: Seq<Vec<u32>>) -> Seq<Seq<u32>> {
    m.map_values(|row: Vec<u32>| row@)
}

/// `m` has `p` rows of `r` entries each.
pub open spec fn is_matrix(m: Seq<Seq<u32>>, p: int, r: int) -> bool {
    &&& m.len() == p
    &&& forall|i: int| 0 <= i < p ==> #[trigger] m[i].len() == r
}

/// No process holds more of a resource than it declared as its maximum.
pub open spec fn within_max(max: Seq<Seq<u32>>, alloc: Seq<Seq<u32>>) -> bool {
    forall|i: int, j: int|
        0 <= i < max.len() && 0 <= j < max[i].len() ==> alloc[i][j] <= #[trigger] max[i][j]
}

/// `need` is the need matrix of `max` and `alloc`: cell by cell their difference.
pub open spec fn is_need_of(need: Seq<Seq<u32>>, max: Seq<Seq<u32>>, alloc: Seq<Seq<u32>>) -> bool {
    &&& need.len() == max.len()
    &&& forall|i: int| 0 <= i < max.len() ==> #[trigger] need[i].len() == max[i].len()
    &&& forall|i: int, j: int|
        0 <= i < max.len() && 0 <= j < max[i].len() ==> #[trigger] need[i][j] == max[i][j]
            - alloc[i][j]
}

/// `avail`, `alloc` and `max` describe one system: as many allocation rows as
/// maximum rows, each as long as the available vector.
pub open spec fn is_snapshot(avail: Seq<u32>, alloc: Seq<Seq<u32>>, max: Seq<Seq<u32>>) -> bool {
    &&& is_matrix(alloc, alloc.len() as int, avail.len() as int)
    &&& is_matrix(max, alloc.len() as int, avail.len() as int)
}

/// Units of resource `j` held by those processes among the first `n` that are
/// listed in `done`.
pub open spec fn released(alloc: Seq<Seq<u32>>, done: Seq<usize>, j: int, n: nat) -> int
    decreases n,
{
    if n == 0 {
        0
    } else {
        released(alloc, done, j, (n - 1) as nat) + if done.contains((n - 1) as usize) {
            alloc[n - 1][j] as int
        } else {
            0
        }
    }
}

/// The work vector once every process in `done` has finished and given back
/// everything it held.
pub open spec fn work_after(avail: Seq<u32>, alloc: Seq<Seq<u32>>, done: Seq<usize>) -> Seq<int> {
    Seq::new(avail.len(), |j: int| avail[j] + released(alloc, done, j, alloc.len()))
}

/// Process `i` can run to completion with `work`: what it may still claim of
/// each resource fits in what is free.
pub open spec fn can_finish(max: Seq<Seq<u32>>, alloc: Seq<Seq<u32>>, work: Seq<int>, i: int) -> bool {
    forall|j: int| 0 <= j < work.len() ==> max[i][j] - alloc[i][j] <= #[trigger] work[j]
}

/// `order` lists distinct processes, each of which can finish once the ones
/// before it have finished.
pub open spec fn is_completion(
    avail: Seq<u32>,
    alloc: Seq<Seq<u32>>,
    max: Seq<Seq<u32>>,
    order: Seq<usize>,
) -> bool {
    &&& order.no_duplicates()
    &&& forall|k: int| 0 <= k < order.len() ==> #[trigger] order[k] < alloc.len()
    &&& forall|k: int|
        0 <= k < order.len() ==> can_finish(
            max,
            alloc,
            work_after(avail, alloc, order.take(k)),
            #[trigger] order[k] as int,
        )
}

/// No process left out of `order` can finish with what `order` gives back.
pub open spec fn is_stuck(
    avail: Seq<u32>,
    alloc: Seq<Seq<u32>>,
    max: Seq<Seq<u32>>,
    order: Seq<usize>,
) -> bool {
    forall|i: usize|
        i < alloc.len() && !order.contains(i) ==> !#[trigger] can_finish(
            max,
            alloc,
            work_after(avail, alloc, order),
            i as int,
        )
}

/// At each step `order` takes the lowest-numbered process that could finish.
pub open spec fn lowest_first(
    avail: Seq<u32>,
    alloc: Seq<Seq<u32>>,
    max: Seq<Seq<u32>>,
    order: Seq<usize>,
) -> bool {
    forall|k: int, i: usize|
        0 <= k < order.len() && i < order[k] && !order.take(k).contains(i) ==> !#[trigger] can_finish(
            max,
            alloc,
            work_after(avail, alloc, order.take(k)),
            i as int,
        )
}

/// `order` is the run of the safety search: a completion order built by always
/// taking the lowest-numbered process that can finish, until none can.
pub open spec fn is_search_order(
    avail: Seq<u32>,
    alloc: Seq<Seq<u32>>,
    max: Seq<Seq<u32>>,
    order: Seq<usize>,
) -> bool {
    &&& is_completion(avail, alloc, max, order)
    &&& lowest_first(avail, alloc, max, order)
    &&& is_stuck(avail, alloc, max, order)
}

/// A safe state: some order lets every process run to completion.
pub open spec fn is_safe(avail: Seq<u32>, alloc: Seq<Seq<u32>>, max: Seq<Seq<u32>>) -> bool {
    exists|order: Seq<usize>|
        #[trigger] is_completion(avail, alloc, max, order) && order.len() == alloc.len()
}

} // verus!

