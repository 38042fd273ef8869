//! Need derivation: what each process may still claim.
use vstd::prelude::*;
use crate::error::BankerError;
use crate::model::{rows, is_matrix, within_max, is_need_of};

verus! {

/// Computes `need = max - allocation` cell by cell. Fails with
/// `ConstraintViolation` when some process holds more than its maximum.
pub fn compute_need_matrix(
    num_processes: usize,
    num_resources: usize,
    max_matrix: &Vec<Vec<u32>>,
    allocation_matrix: &Vec<Vec<u32>>,
) -> (r: Result<Vec<Vec<u32>>, BankerError>)
    requires
        is_matrix(rows(max_matrix@), num_processes as int, num_resources as int),
        is_matrix(rows(allocation_matrix@), num_processes as int, num_resources as int),
    ensures
        r is Ok <==> within_max(rows(max_matrix@), rows(allocation_matrix@)),
        r is Err ==> r->Err_0 == BankerError::ConstraintViolation,
        r matches Ok(need) ==> is_need_of(rows(need@), rows(max_matrix@), rows(allocation_matrix@)),
{
    let ghost mx = rows(max_matrix@);
    let ghost al = rows(allocation_matrix@);
    let mut need_matrix: Vec<Vec<u32>> = Vec::new();
    for i in 0..num_processes
        invariant
            mx == rows(max_matrix@),
            al == rows(allocation_matrix@),
            is_matrix(mx, num_processes as int, num_resources as int),
            is_matrix(al, num_processes as int, num_resources as int),
            need_matrix@.len() == i,
            forall|a: int, j: int| 0 <= a < i && 0 <= j < num_resources ==> al[a][j] <= #[trigger] mx[a][j],
            forall|a: int| 0 <= a < i ==> #[trigger] need_matrix@[a]@.len() == num_resources,
            forall|a: int, j: int|
                0 <= a < i && 0 <= j < num_resources ==> #[trigger] need_matrix@[a]@[j] == mx[a][j] - al[a][j],
    {
        let max_row = &max_matrix[i];
        let alloc_row = &allocation_matrix[i];
        assert(max_row@ == mx[i as int]);
        assert(alloc_row@ == al[i as int]);
        let mut row: Vec<u32> = Vec::new();
        for j in 0..num_resources
            invariant
                mx == rows(max_matrix@),
                al == rows(allocation_matrix@),
                i < num_processes,
                is_matrix(mx, num_processes as int, num_resources as int),
                is_matrix(al, num_processes as int, num_resources as int),
                max_row@ == mx[i as int],
                alloc_row@ == al[i as int],
                max_row@.len() == num_resources,
                alloc_row@.len() == num_resources,
                row@.len() == j,
                forall|k: int| 0 <= k < j ==> al[i as int][k] <= #[trigger] mx[i as int][k],
                forall|k: int| 0 <= k < j ==> #[trigger] row@[k] == mx[i as int][k] - al[i as int][k],
        {
            if max_row[j] < alloc_row[j] {
                proof {
                    assert(!within_max(mx, al)) by {
                        assert(mx[i as int][j as int] < al[i as int][j as int]);
                    }
                }
                return Err(BankerError::ConstraintViolation);
            }
            row.push(max_row[j] - alloc_row[j]);
        }
        need_matrix.push(row);
    }
    proof {
        assert(within_max(mx, al));
        assert(is_need_of(rows(need_matrix@), mx, al));
    }
    Ok(need_matrix)
}

} // verus!
