//! Request validation and the tentative grant of a request.
use vstd::prelude::*;
use crate::error::BankerError;

verus! {

/// The verdict of checking `req` against a need row and the available vector,
/// one resource type at a time from `j` on: the first type whose request
/// exceeds the need, or else the available units, decides the error.
pub open spec fn check_from(req: Seq<u32>, need_row: Seq<u32>, avail: Seq<u32>, j: int) -> Result<
    (),
    BankerError,
>
    decreases req.len() - j,
{
    if j < 0 || j >= req.len() {
        Ok(())
    } else if req[j] > need_row[j] {
        Err(BankerError::ExceedsDeclaredNeed)
    } else if req[j] > avail[j] {
        Err(BankerError::InsufficientAvailable)
    } else {
        check_from(req, need_row, avail, j + 1)
    }
}

/// The verdict of checking a whole request.
pub open spec fn request_check(req: Seq<u32>, need_row: Seq<u32>, avail: Seq<u32>) -> Result<(), BankerError> {
    check_from(req, need_row, avail, 0)
}

/// A request that passes its check fits both the need row and the available vector.
pub proof fn lemma_check_ok(req: Seq<u32>, need_row: Seq<u32>, avail: Seq<u32>, j: int)
    requires
        0 <= j,
        check_from(req, need_row, avail, j) is Ok,
    ensures
        forall|k: int| j <= k < req.len() ==> #[trigger] req[k] <= need_row[k] && req[k] <= avail[k],
    decreases req.len() - j,
{
    if j < req.len() {
        lemma_check_ok(req, need_row, avail, j + 1);
    }
}

/// `after` is `before` with `delta` added to each entry.
pub open spec fn added(after: Seq<u32>, before: Seq<u32>, delta: Seq<u32>) -> bool {
    &&& after.len() == before.len()
    &&& forall|j: int| 0 <= j < before.len() ==> #[trigger] after[j] == before[j] + delta[j]
}

/// `after` is `before` with `delta` taken from each entry.
pub open spec fn taken(after: Seq<u32>, before: Seq<u32>, delta: Seq<u32>) -> bool {
    &&& after.len() == before.len()
    &&& forall|j: int| 0 <= j < before.len() ==> #[trigger] after[j] == before[j] - delta[j]
}

/// Validates the request of process `process_id` and, when it passes, applies
/// it: the available units drop by the request, and the process's allocation
/// row grows and its need row shrinks by it. A request that fails leaves all
/// three unchanged and says why.
pub fn fulfill_request(
    process_id: usize,
    request_vec: &Vec<u32>,
    num_resources: usize,
    available_vec: &mut Vec<u32>,
    allocation_matrix: &mut Vec<Vec<u32>>,
    need_matrix: &mut Vec<Vec<u32>>,
) -> (r: Result<(), BankerError>)
    requires
        process_id < old(allocation_matrix)@.len(),
        process_id < old(need_matrix)@.len(),
        request_vec@.len() == num_resources,
        old(available_vec)@.len() == num_resources,
        old(allocation_matrix)@[process_id as int]@.len() == num_resources,
        old(need_matrix)@[process_id as int]@.len() == num_resources,
        forall|j: int|
            0 <= j < num_resources ==> old(allocation_matrix)@[process_id as int]@[j]
                + #[trigger] old(need_matrix)@[process_id as int]@[j] <= u32::MAX,
    ensures
        r == request_check(
            request_vec@,
            old(need_matrix)@[process_id as int]@,
            old(available_vec)@,
        ),
        r is Err ==> {
            &&& *final(available_vec) == *old(available_vec)
            &&& *final(allocation_matrix) == *old(allocation_matrix)
            &&& *final(need_matrix) == *old(need_matrix)
        },
        r is Ok ==> {
            &&& taken(final(available_vec)@, old(available_vec)@, request_vec@)
            &&& final(allocation_matrix)@.len() == old(allocation_matrix)@.len()
            &&& final(need_matrix)@.len() == old(need_matrix)@.len()
            &&& forall|i: int|
                0 <= i < old(allocation_matrix)@.len() && i != process_id
                    ==> #[trigger] final(allocation_matrix)@[i] == old(allocation_matrix)@[i]
            &&& forall|i: int|
                0 <= i < old(need_matrix)@.len() && i != process_id ==> #[trigger] final(need_matrix)@[i]
                    == old(need_matrix)@[i]
            &&& added(
                final(allocation_matrix)@[process_id as int]@,
                old(allocation_matrix)@[process_id as int]@,
                request_vec@,
            )
            &&& taken(
                final(need_matrix)@[process_id as int]@,
                old(need_matrix)@[process_id as int]@,
                request_vec@,
            )
        },
{
    let ghost need_row = need_matrix@[process_id as int]@;
    let ghost avail = available_vec@;
    let mut i: usize = 0;
    while i < num_resources
        invariant
            need_row == need_matrix@[process_id as int]@,
            avail == available_vec@,
            process_id < need_matrix@.len(),
            request_vec@.len() == num_resources,
            avail.len() == num_resources,
            need_row.len() == num_resources,
            i <= num_resources,
            request_check(request_vec@, need_row, avail) == check_from(request_vec@, need_row, avail, i as int),
        decreases num_resources - i,
    {
        if request_vec[i] > need_matrix[process_id][i] {
            return Err(BankerError::ExceedsDeclaredNeed);
        }
        if request_vec[i] > available_vec[i] {
            return Err(BankerError::InsufficientAvailable);
        }
        i = i + 1;
    }
    proof {
        lemma_check_ok(request_vec@, need_row, avail, 0);
    }
    let ghost alloc_row = allocation_matrix@[process_id as int]@;
    let mut new_alloc: Vec<u32> = Vec::new();
    let mut new_need: Vec<u32> = Vec::new();
    let mut i: usize = 0;
    while i < num_resources
        invariant
            need_row == need_matrix@[process_id as int]@,
            alloc_row == allocation_matrix@[process_id as int]@,
            process_id < need_matrix@.len(),
            process_id < allocation_matrix@.len(),
            request_vec@.len() == num_resources,
            avail.len() == num_resources,
            available_vec@.len() == num_resources,
            need_row.len() == num_resources,
            alloc_row.len() == num_resources,
            forall|j: int| 0 <= j < num_resources ==> alloc_row[j] + #[trigger] need_row[j] <= u32::MAX,
            forall|k: int|
                0 <= k < num_resources ==> #[trigger] request_vec@[k] <= need_row[k] && request_vec@[k]
                    <= avail[k],
            i <= num_resources,
            new_alloc@.len() == i,
            new_need@.len() == i,
            forall|k: int| 0 <= k < i ==> #[trigger] new_alloc@[k] == alloc_row[k] + request_vec@[k],
            forall|k: int| 0 <= k < i ==> #[trigger] new_need@[k] == need_row[k] - request_vec@[k],
            forall|k: int| 0 <= k < i ==> #[trigger] available_vec@[k] == avail[k] - request_vec@[k],
            forall|k: int| i <= k < num_resources ==> #[trigger] available_vec@[k] == avail[k],
        decreases num_resources - i,
    {
        let amount = request_vec[i];
        let left = available_vec[i] - amount;
        available_vec.set(i, left);
        assert(alloc_row[i as int] + need_row[i as int] <= u32::MAX);
        new_alloc.push(allocation_matrix[process_id][i] + amount);
        new_need.push(need_matrix[process_id][i] - amount);
        i = i + 1;
    }
    allocation_matrix.set(process_id, new_alloc);
    need_matrix.set(process_id, new_need);
    Ok(())
}

} // verus!
