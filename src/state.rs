//! A validated snapshot and the single request step evaluated against it.
use vstd::prelude::*;
use crate::error::BankerError;
use crate::model::{
    rows, is_matrix, is_snapshot, within_max, is_need_of, is_safe, is_search_order, MAX_PROCESSES,
    MAX_RESOURCES,
};
use crate::need::compute_need_matrix;
use crate::request::{lemma_check_ok, request_check, fulfill_request};
use crate::safety::{is_safe_state, safe_sequence};

verus! {

/// Whether a system of `p` processes and `r` resource types is within the
/// supported dimensions.
pub open spec fn dimensions_ok(p: int, r: int) -> bool {
    1 <= p <= MAX_PROCESSES && 1 <= r <= MAX_RESOURCES
}

/// Accepts 1 to 1024 processes and 1 to 26 resource types; anything else is
/// `DimensionLimitExceeded`.
pub fn check_dimensions(num_processes: usize, num_resources: usize) -> (r: Result<(), BankerError>)
    ensures
        r is Ok <==> dimensions_ok(num_processes as int, num_resources as int),
        r is Err ==> r->Err_0 == BankerError::DimensionLimitExceeded,
{
    if num_processes == 0 || num_processes > MAX_PROCESSES || num_resources == 0 || num_resources
        > MAX_RESOURCES {
        Err(BankerError::DimensionLimitExceeded)
    } else {
        Ok(())
    }
}

/// Whether every row of `m` has `r` entries.
fn rows_have_len(m: &Vec<Vec<u32>>, r: usize) -> (ok: bool)
    ensures
        ok == is_matrix(rows(m@), m@.len() as int, r as int),
{
    let mut i: usize = 0;
    while i < m.len()
        invariant
            i <= m@.len(),
            forall|k: int| 0 <= k < i ==> #[trigger] m@[k]@.len() == r,
        decreases m@.len() - i,
    {
        if m[i].len() != r {
            assert(rows(m@)[i as int].len() != r);
            return false;
        }
        i = i + 1;
    }
    proof {
        assert forall|k: int| 0 <= k < m@.len() implies #[trigger] rows(m@)[k].len() == r by {
            assert(m@[k]@.len() == r);
        }
    }
    true
}

/// A copy of a vector.
fn copy_vector(v: &Vec<u32>) -> (c: Vec<u32>)
    ensures
        c@ == v@,
{
    let mut c: Vec<u32> = Vec::new();
    for j in 0..v.len()
        invariant
            c@ == v@.take(j as int),
    {
        c.push(v[j]);
        assert(c@ =~= v@.take(j + 1));
    }
    assert(c@ =~= v@);
    c
}

/// A copy of a matrix, row by row.
fn copy_matrix(m: &Vec<Vec<u32>>) -> (c: Vec<Vec<u32>>)
    ensures
        rows(c@) == rows(m@),
{
    let mut c: Vec<Vec<u32>> = Vec::new();
    for i in 0..m.len()
        invariant
            c@.len() == i,
            forall|k: int| 0 <= k < i ==> #[trigger] c@[k]@ == m@[k]@,
    {
        c.push(copy_vector(&m[i]));
    }
    assert(rows(c@) =~= rows(m@));
    c
}

/// Each entry of `a` less the matching entry of `b`.
pub open spec fn minus(a: Seq<u32>, b: Seq<u32>) -> Seq<u32> {
    Seq::new(a.len(), |j: int| (a[j] - b[j]) as u32)
}

/// Each entry of `a` plus the matching entry of `b`.
pub open spec fn plus(a: Seq<u32>, b: Seq<u32>) -> Seq<u32> {
    Seq::new(a.len(), |j: int| (a[j] + b[j]) as u32)
}

/// What the request step returned.
#[derive(Clone, Copy, Debug, PartialEq, Eq, Structural)]
pub enum Verdict {
    /// The snapshot itself is unsafe; no request was looked at.
    SystemUnsafe,
    /// The request was invalid and was not applied.
    Rejected(BankerError),
    /// The request was valid, but granting it would leave an unsafe state.
    Denied,
    /// The request was granted; the state now includes it.
    Granted,
}

/// A snapshot of a system: what is free, and for each process what it holds,
/// what it may claim at most, and what it still needs.
pub struct BankerState {
    pub available: Vec<u32>,
    pub max: Vec<Vec<u32>>,
    pub allocation: Vec<Vec<u32>>,
    pub need: Vec<Vec<u32>>,
}

/// How one request step relates the state `before` it to the state `after`
/// it, given the verdict `v`: an ill-shaped request is `MalformedInput`; one
/// that fails its check is rejected with the check's error; a valid one is
/// granted exactly when the state with the request applied is safe, and only a
/// granted request changes the state, to exactly that one.
pub open spec fn request_step(
    before: BankerState,
    after: BankerState,
    pid: usize,
    req: Seq<u32>,
    v: Verdict,
) -> bool {
    let shaped = pid < before.procs() && req.len() == before.kinds();
    let check = request_check(req, before.need@[pid as int]@, before.available@);
    let avail_next = minus(before.available@, req);
    let alloc_next = rows(before.allocation@).update(
        pid as int,
        plus(before.allocation@[pid as int]@, req),
    );
    let need_next = rows(before.need@).update(pid as int, minus(before.need@[pid as int]@, req));
    &&& !shaped ==> v == Verdict::Rejected(BankerError::MalformedInput)
    &&& shaped && check is Err ==> v == Verdict::Rejected(check->Err_0)
    &&& shaped && check is Ok ==> (v == Verdict::Granted <==> is_safe(
        avail_next,
        alloc_next,
        rows(before.max@),
    ))
    &&& shaped && check is Ok && v != Verdict::Granted ==> v == Verdict::Denied
    &&& v != Verdict::Granted ==> after == before
    &&& v == Verdict::Granted ==> {
        &&& after.available@ == avail_next
        &&& rows(after.allocation@) == alloc_next
        &&& rows(after.need@) == need_next
        &&& after.max == before.max
        &&& after.safe()
    }
}

impl BankerState {
    /// Number of processes.
    pub open spec fn procs(&self) -> int {
        self.max@.len() as int
    }

    /// Number of resource types.
    pub open spec fn kinds(&self) -> int {
        self.available@.len() as int
    }

    /// Dimensions within bounds, consistent shapes, no allocation above its
    /// maximum, and the need matrix derived from max and allocation.
    pub open spec fn wf(&self) -> bool {
        &&& dimensions_ok(self.procs(), self.kinds())
        &&& is_snapshot(self.available@, rows(self.allocation@), rows(self.max@))
        &&& self.allocation@.len() == self.max@.len()
        &&& within_max(rows(self.max@), rows(self.allocation@))
        &&& is_need_of(rows(self.need@), rows(self.max@), rows(self.allocation@))
    }

    /// Whether the snapshot is safe, in terms of the model.
    pub open spec fn safe(&self) -> bool {
        is_safe(self.available@, rows(self.allocation@), rows(self.max@))
    }

    /// Builds a state from parsed input, checking in this order the
    /// dimensions, the shapes of the vectors and matrices, and that no
    /// process holds more than its maximum.
    pub fn new(
        num_processes: usize,
        num_resources: usize,
        available: Vec<u32>,
        max: Vec<Vec<u32>>,
        allocation: Vec<Vec<u32>>,
    ) -> (r: Result<BankerState, BankerError>)
        ensures
            !dimensions_ok(num_processes as int, num_resources as int) ==> r == Err::<
                BankerState,
                BankerError,
            >(BankerError::DimensionLimitExceeded),
            dimensions_ok(num_processes as int, num_resources as int) && !(available@.len()
                == num_resources && is_matrix(rows(max@), num_processes as int, num_resources as int)
                && is_matrix(rows(allocation@), num_processes as int, num_resources as int))
                ==> r == Err::<BankerState, BankerError>(BankerError::MalformedInput),
            dimensions_ok(num_processes as int, num_resources as int) && available@.len()
                == num_resources && is_matrix(rows(max@), num_processes as int, num_resources as int)
                && is_matrix(rows(allocation@), num_processes as int, num_resources as int) ==> {
                &&& !within_max(rows(max@), rows(allocation@)) ==> r == Err::<
                    BankerState,
                    BankerError,
                >(BankerError::ConstraintViolation)
                &&& within_max(rows(max@), rows(allocation@)) ==> r is Ok
            },
            r matches Ok(s) ==> {
                &&& s.wf()
                &&& s.available == available
                &&& s.max == max
                &&& s.allocation == allocation
            },
    {
        match check_dimensions(num_processes, num_resources) {
            Err(e) => {
                return Err(e);
            },
            Ok(()) => {},
        }
        if available.len() != num_resources || max.len() != num_processes || allocation.len()
            != num_processes || !rows_have_len(&max, num_resources) || !rows_have_len(
            &allocation,
            num_resources,
        ) {
            return Err(BankerError::MalformedInput);
        }
        match compute_need_matrix(num_processes, num_resources, &max, &allocation) {
            Err(e) => Err(e),
            Ok(need) => Ok(BankerState { available, max, allocation, need }),
        }
    }

    /// Number of processes.
    pub fn num_processes(&self) -> (n: usize)
        ensures
            n == self.procs(),
    {
        self.max.len()
    }

    /// Number of resource types.
    pub fn num_resources(&self) -> (n: usize)
        ensures
            n == self.kinds(),
    {
        self.available.len()
    }

    /// Whether the snapshot is safe.
    pub fn is_safe(&self) -> (r: bool)
        requires
            self.wf(),
        ensures
            r == self.safe(),
    {
        is_safe_state(self.max.len(), self.available.len(), &self.max, &self.allocation, &self.available)
    }

    /// The completion order that proves the snapshot safe, if it is.
    pub fn safe_sequence(&self) -> (r: Option<Vec<usize>>)
        requires
            self.wf(),
        ensures
            r is Some <==> self.safe(),
            r matches Some(order) ==> {
                &&& order@.len() == self.procs()
                &&& is_search_order(self.available@, rows(self.allocation@), rows(self.max@), order@)
            },
    {
        safe_sequence(self.max.len(), self.available.len(), &self.max, &self.allocation, &self.available)
    }

    /// Evaluates one request of process `process_id`: validates it, applies
    /// it to a candidate copy of the state, and commits the candidate only if
    /// it is safe. Otherwise the state is left exactly as it was.
    pub fn request(&mut self, process_id: usize, request: &Vec<u32>) -> (v: Verdict)
        requires
            old(self).wf(),
        ensures
            final(self).wf(),
            v != Verdict::SystemUnsafe,
            request_step(*old(self), *final(self), process_id, request@, v),
    {
        let num_processes = self.max.len();
        let num_resources = self.available.len();
        if process_id >= num_processes || request.len() != num_resources {
            return Verdict::Rejected(BankerError::MalformedInput);
        }
        let ghost mx = rows(self.max@);
        let ghost al = rows(self.allocation@);
        let ghost nd = rows(self.need@);
        let ghost av = self.available@;
        let ghost req = request@;
        let ghost p = process_id as int;
        let mut avail = copy_vector(&self.available);
        let mut alloc = copy_matrix(&self.allocation);
        let mut need = copy_matrix(&self.need);
        proof {
            assert(alloc@[p]@ == al[p]);
            assert(need@[p]@ == nd[p]);
            assert forall|j: int| 0 <= j < num_resources implies alloc@[p]@[j] + #[trigger] need@[p]@[j] <= u32::MAX by {
                assert(nd[p][j] == mx[p][j] - al[p][j]);
            }
        }
        match fulfill_request(process_id, request, num_resources, &mut avail, &mut alloc, &mut need) {
            Err(e) => Verdict::Rejected(e),
            Ok(()) => {
                let ghost avail_next = minus(av, req);
                let ghost alloc_next = al.update(p, plus(al[p], req));
                let ghost need_next = nd.update(p, minus(nd[p], req));
                proof {
                    lemma_check_ok(req, nd[p], av, 0);
                    assert(avail@ =~= avail_next);
                    assert(rows(alloc@) =~= alloc_next) by {
                        assert forall|i: int| 0 <= i < al.len() implies #[trigger] rows(alloc@)[i] == alloc_next[i] by {
                            if i == p {
                                assert(rows(alloc@)[i] =~= plus(al[p], req));
                            }
                        }
                    }
                    assert(rows(need@) =~= need_next) by {
                        assert forall|i: int| 0 <= i < nd.len() implies #[trigger] rows(need@)[i] == need_next[i] by {
                            if i == p {
                                assert(rows(need@)[i] =~= minus(nd[p], req));
                            }
                        }
                    }
                    assert(is_matrix(alloc_next, num_processes as int, num_resources as int));
                    assert(within_max(mx, alloc_next)) by {
                        assert forall|i: int, j: int| 0 <= i < mx.len() && 0 <= j < mx[i].len() implies alloc_next[i][j] <= #[trigger] mx[i][j] by {
                            if i == p {
                                assert(nd[p][j] == mx[p][j] - al[p][j]);
                                assert(req[j] <= nd[p][j]);
                            }
                        }
                    }
                    assert(is_need_of(need_next, mx, alloc_next)) by {
                        assert forall|i: int, j: int| 0 <= i < mx.len() && 0 <= j < mx[i].len() implies #[trigger] need_next[i][j] == mx[i][j] - alloc_next[i][j] by {
                            if i == p {
                                assert(nd[p][j] == mx[p][j] - al[p][j]);
                            }
                        }
                    }
                }
                if is_safe_state(num_processes, num_resources, &self.max, &alloc, &avail) {
                    self.available = avail;
                    self.allocation = alloc;
                    self.need = need;
                    Verdict::Granted
                } else {
                    Verdict::Denied
                }
            },
        }
    }
}

/// Runs the whole evaluation of one snapshot and one request: an unsafe
/// snapshot ends it with `SystemUnsafe` before the request is looked at;
/// otherwise the request step decides.
pub fn run_banker(state: &mut BankerState, process_id: usize, request: &Vec<u32>) -> (v: Verdict)
    requires
        old(state).wf(),
    ensures
        final(state).wf(),
        v == Verdict::SystemUnsafe <==> !old(state).safe(),
        v == Verdict::SystemUnsafe ==> *final(state) == *old(state),
        v != Verdict::SystemUnsafe ==> request_step(*old(state), *final(state), process_id, request@, v),
{
    if !state.is_safe() {
        return Verdict::SystemUnsafe;
    }
    state.request(process_id, request)
}

} // verus!
