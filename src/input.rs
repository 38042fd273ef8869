//! Reading a snapshot and its pending request from the text of an input file.
use vstd::prelude::*;
use crate::error::BankerError;
use crate::state::{check_dimensions, dimensions_ok};
use crate::text::{lines, line_numbers, line_spans, parse_numbers};

verus! {

/// A pending request: the requesting process and the units it asks for.
pub struct Request {
    pub process_id: usize,
    pub amounts: Vec<u32>,
}

/// Everything an input file holds, as numbers.
pub struct Snapshot {
    pub num_processes: usize,
    pub num_resources: usize,
    pub total: Vec<u32>,
    pub available: Vec<u32>,
    pub max: Vec<Vec<u32>>,
    pub allocation: Vec<Vec<u32>>,
    /// `None` when the request line is missing or does not parse.
    pub request: Option<Request>,
}

/// The line of the max matrix row of process `i`.
pub open spec fn max_line(i: int) -> int {
    6 + i
}

/// The line of the allocation matrix row of process `i`, in a file of `p` processes.
pub open spec fn allocation_line(p: int, i: int) -> int {
    7 + p + i
}

/// The line of the request, in a file of `p` processes.
pub open spec fn request_line(p: int) -> int {
    8 + 2 * p
}

/// The numbers on the space-separated line `k` of `l`.
pub open spec fn row_of(l: Seq<Seq<u8>>, k: int) -> Option<Seq<u32>> {
    line_numbers(l[k], 32)
}

/// Every line that must hold numbers does: totals, available, and `p` rows
/// of each matrix. Blank separator lines are not looked at.
pub open spec fn body_ok(l: Seq<Seq<u8>>, p: int) -> bool {
    &&& l.len() > allocation_line(p, p - 1)
    &&& row_of(l, 2) is Some
    &&& row_of(l, 4) is Some
    &&& forall|i: int| 0 <= i < p ==> (#[trigger] row_of(l, max_line(i))) is Some
    &&& forall|i: int| 0 <= i < p ==> (#[trigger] row_of(l, allocation_line(p, i))) is Some
}

/// The request of the file of `p` processes with lines `l`: on its line, the
/// process id before a colon, then the amounts.
pub open spec fn request_of(l: Seq<Seq<u8>>, p: int) -> Option<(int, Seq<u32>)> {
    if l.len() > request_line(p) {
        match line_numbers(l[request_line(p)], 58) {
            Some(v) => Some((v[0] as int, v.skip(1))),
            None => None,
        }
    } else {
        None
    }
}

/// The numbers on line `k` of `text`, whose line bounds are `spans`.
fn numbers_on_line(text: &Vec<u8>, spans: &Vec<(usize, usize)>, k: usize, sep: u8) -> (r: Option<Vec<u32>>)
    requires
        spans@.len() == lines(text@).len(),
        forall|k: int|
            0 <= k < spans@.len() ==> {
                &&& (#[trigger] spans@[k]).0 <= spans@[k].1 <= text@.len()
                &&& text@.subrange(spans@[k].0 as int, spans@[k].1 as int) == lines(text@)[k]
            },
        k < spans@.len(),
    ensures
        r is Some <==> line_numbers(lines(text@)[k as int], sep) is Some,
        r matches Some(v) ==> v@ == line_numbers(lines(text@)[k as int], sep)->Some_0,
{
    let (a, b) = spans[k];
    parse_numbers(text, a, b, sep)
}

/// Reads a snapshot from the text of an input file. The first line holds
/// the process and resource counts; a blank line precedes the totals, the
/// available vector, the max matrix, the allocation matrix and the request.
/// Fails with `MalformedInput` when the counts line is not two numbers or a
/// required line is missing or not numbers, and with
/// `DimensionLimitExceeded` when the counts are out of bounds, before
/// anything else is read.
pub fn parse_snapshot(text: &Vec<u8>) -> (r: Result<Snapshot, BankerError>)
    ensures
        ({
            let l = lines(text@);
            let head = row_of(l, 0);
            let shaped = head is Some && head->Some_0.len() == 2;
            let p = head->Some_0[0] as int;
            let n = head->Some_0[1] as int;
            &&& !shaped ==> r == Err::<Snapshot, BankerError>(BankerError::MalformedInput)
            &&& shaped && !dimensions_ok(p, n) ==> r == Err::<Snapshot, BankerError>(
                BankerError::DimensionLimitExceeded,
            )
            &&& shaped && dimensions_ok(p, n) && !body_ok(l, p) ==> r == Err::<Snapshot, BankerError>(
                BankerError::MalformedInput,
            )
            &&& shaped && dimensions_ok(p, n) && body_ok(l, p) ==> r is Ok
            &&& r matches Ok(snap) ==> {
                &&& snap.num_processes == p
                &&& snap.num_resources == n
                &&& snap.total@ == row_of(l, 2)->Some_0
                &&& snap.available@ == row_of(l, 4)->Some_0
                &&& snap.max@.len() == p
                &&& snap.allocation@.len() == p
                &&& forall|i: int| 0 <= i < p ==> (#[trigger] snap.max@[i])@ == row_of(l, max_line(i))->Some_0
                &&& forall|i: int|
                    0 <= i < p ==> (#[trigger] snap.allocation@[i])@ == row_of(l, allocation_line(p, i))->Some_0
                &&& match snap.request {
                    Some(q) => request_of(l, p) == Some((q.process_id as int, q.amounts@)),
                    None => request_of(l, p) is None,
                }
            }
        }),
{
    let ghost l = lines(text@);
    proof {
        crate::text::lemma_split_nonempty(text@, 10, 10);
    }
    let spans = line_spans(text);
    let head = match numbers_on_line(text, &spans, 0, 32) {
        Some(h) => h,
        None => {
            return Err(BankerError::MalformedInput);
        },
    };
    if head.len() != 2 {
        return Err(BankerError::MalformedInput);
    }
    let num_processes = head[0] as usize;
    let num_resources = head[1] as usize;
    if let Err(e) = check_dimensions(num_processes, num_resources) {
        return Err(e);
    }
    let ghost p = num_processes as int;
    if spans.len() < 7 + 2 * num_processes {
        return Err(BankerError::MalformedInput);
    }
    let total = match numbers_on_line(text, &spans, 2, 32) {
        Some(v) => v,
        None => {
            return Err(BankerError::MalformedInput);
        },
    };
    let available = match numbers_on_line(text, &spans, 4, 32) {
        Some(v) => v,
        None => {
            return Err(BankerError::MalformedInput);
        },
    };
    let mut max: Vec<Vec<u32>> = Vec::new();
    for i in 0..num_processes
        invariant
            l == lines(text@),
            p == num_processes,
            1 <= num_processes <= 1024,
            spans@.len() == l.len(),
            spans@.len() >= 7 + 2 * num_processes,
            row_of(l, 0) == Some(head@),
            head@.len() == 2,
            head@[0] == num_processes,
            head@[1] == num_resources,
            dimensions_ok(p, num_resources as int),
            row_of(l, 2) is Some,
            row_of(l, 4) is Some,
            forall|k: int|
                0 <= k < spans@.len() ==> {
                    &&& (#[trigger] spans@[k]).0 <= spans@[k].1 <= text@.len()
                    &&& text@.subrange(spans@[k].0 as int, spans@[k].1 as int) == lines(text@)[k]
                },
            max@.len() == i,
            forall|a: int| 0 <= a < i ==> (#[trigger] row_of(l, max_line(a))) is Some,
            forall|a: int| 0 <= a < i ==> (#[trigger] max@[a])@ == row_of(l, max_line(a))->Some_0,
    {
        match numbers_on_line(text, &spans, 6 + i, 32) {
            Some(v) => {
                max.push(v);
            },
            None => {
                assert(row_of(l, max_line(i as int)) is None);
                return Err(BankerError::MalformedInput);
            },
        }
    }
    let mut allocation: Vec<Vec<u32>> = Vec::new();
    for i in 0..num_processes
        invariant
            l == lines(text@),
            p == num_processes,
            1 <= num_processes <= 1024,
            spans@.len() == l.len(),
            spans@.len() >= 7 + 2 * num_processes,
            row_of(l, 0) == Some(head@),
            head@.len() == 2,
            head@[0] == num_processes,
            head@[1] == num_resources,
            dimensions_ok(p, num_resources as int),
            row_of(l, 2) is Some,
            row_of(l, 4) is Some,
            forall|k: int|
                0 <= k < spans@.len() ==> {
                    &&& (#[trigger] spans@[k]).0 <= spans@[k].1 <= text@.len()
                    &&& text@.subrange(spans@[k].0 as int, spans@[k].1 as int) == lines(text@)[k]
                },
            allocation@.len() == i,
            forall|a: int| 0 <= a < p ==> (#[trigger] row_of(l, max_line(a))) is Some,
            forall|a: int| 0 <= a < i ==> (#[trigger] row_of(l, allocation_line(p, a))) is Some,
            forall|a: int|
                0 <= a < i ==> (#[trigger] allocation@[a])@ == row_of(l, allocation_line(p, a))->Some_0,
    {
        match numbers_on_line(text, &spans, 7 + num_processes + i, 32) {
            Some(v) => {
                allocation.push(v);
            },
            None => {
                assert(row_of(l, allocation_line(p, i as int)) is None);
                return Err(BankerError::MalformedInput);
            },
        }
    }
    let request_at = 8 + 2 * num_processes;
    let request = if request_at < spans.len() {
        match numbers_on_line(text, &spans, request_at, 58) {
            Some(v) => {
                proof {
                    crate::text::lemma_numbers_nonempty(l[request_at as int], 58);
                }
                let process_id = v[0] as usize;
                let mut amounts: Vec<u32> = Vec::new();
                for k in 1..v.len()
                    invariant
                        1 <= v@.len(),
                        amounts@ == v@.subrange(1, k as int),
                {
                    amounts.push(v[k]);
                    assert(amounts@ =~= v@.subrange(1, k + 1));
                }
                assert(amounts@ =~= v@.skip(1));
                Some(Request { process_id, amounts })
            },
            None => None,
        }
    } else {
        None
    };
    Ok(Snapshot { num_processes, num_resources, total, available, max, allocation, request })
}

} // verus!
