//! The human-readable text of vectors and matrices, labelled by resource
//! letters, as bytes.
use vstd::prelude::*;
use crate::model::{rows, is_matrix, MAX_RESOURCES};

verus! {

/// The decimal digits of `n`.
pub open spec fn digits(n: nat) -> Seq<u8>
    decreases n,
{
    if n < 10 {
        seq![(48 + n) as u8]
    } else {
        digits(n / 10).push((48 + n % 10) as u8)
    }
}

/// One cell per resource type: its letter and a space, after an extra space
/// where the column holds a value above 9.
pub open spec fn label_cells(shift: Seq<bool>) -> Seq<u8>
    decreases shift.len(),
{
    if shift.len() == 0 {
        Seq::empty()
    } else {
        label_cells(shift.drop_last()) + (if shift.last() {
            seq![32u8]
        } else {
            Seq::empty()
        }) + seq![(65 + shift.len() - 1) as u8, 32u8]
    }
}

/// Each value followed by a space.
pub open spec fn value_cells(vals: Seq<u32>) -> Seq<u8>
    decreases vals.len(),
{
    if vals.len() == 0 {
        Seq::empty()
    } else {
        value_cells(vals.drop_last()) + digits(vals.last() as nat) + seq![32u8]
    }
}

/// `"The "`.
pub open spec fn the_text() -> Seq<u8> {
    seq![84u8, 104, 101, 32]
}

/// `" Vector is: "` and a line break.
pub open spec fn vector_is_text() -> Seq<u8> {
    seq![32u8, 86, 101, 99, 116, 111, 114, 32, 105, 115, 58, 32, 10]
}

/// `" Matrix is: "` and a line break.
pub open spec fn matrix_is_text() -> Seq<u8> {
    seq![32u8, 77, 97, 116, 114, 105, 120, 32, 105, 115, 58, 32, 10]
}

/// Which values of a vector are above 9.
pub open spec fn wide_values(vals: Seq<u32>) -> Seq<bool> {
    Seq::new(vals.len(), |i: int| vals[i] > 9)
}

/// The text of a vector: a title line, the letters, then the values. A
/// request vector is indented and its values follow the process id and a
/// colon.
pub open spec fn vector_text(title: Seq<u8>, vals: Seq<u32>, request_of: Option<usize>) -> Seq<u8> {
    the_text() + title + vector_is_text() + (if request_of is Some {
        seq![32u8, 32]
    } else {
        Seq::empty()
    }) + label_cells(wide_values(vals)) + seq![10u8] + (match request_of {
        Some(p) => digits(p as nat) + seq![58u8],
        None => Seq::empty(),
    }) + value_cells(vals) + seq![10u8, 10]
}

/// Which columns of `m`, among the first `r`, hold a value above 9.
pub open spec fn wide_columns(m: Seq<Seq<u32>>, r: nat) -> Seq<bool> {
    Seq::new(r, |j: int| exists|i: int| 0 <= i < m.len() && #[trigger] m[i][j] > 9)
}

/// The cells of one matrix row; in a wide column a value below 10 gets an
/// extra space.
pub open spec fn row_cells(row: Seq<u32>, shift: Seq<bool>) -> Seq<u8>
    decreases row.len(),
{
    if row.len() == 0 {
        Seq::empty()
    } else {
        let j = row.len() - 1;
        row_cells(row.drop_last(), shift) + (if shift[j] && row[j] < 10 {
            seq![32u8]
        } else {
            Seq::empty()
        }) + digits(row[j] as nat) + seq![32u8]
    }
}

/// The rows of a matrix, each after its process id and a colon.
pub open spec fn matrix_rows(m: Seq<Seq<u32>>, shift: Seq<bool>) -> Seq<u8>
    decreases m.len(),
{
    if m.len() == 0 {
        Seq::empty()
    } else {
        matrix_rows(m.drop_last(), shift) + digits((m.len() - 1) as nat) + seq![58u8, 32]
            + row_cells(m.last(), shift) + seq![10u8]
    }
}

/// The text of a matrix of `r` columns: a title line, the letters, the rows,
/// and an empty line.
pub open spec fn matrix_text(title: Seq<u8>, m: Seq<Seq<u32>>, r: nat) -> Seq<u8> {
    the_text() + title + matrix_is_text() + seq![32u8, 32, 32] + label_cells(wide_columns(m, r))
        + seq![10u8] + matrix_rows(m, wide_columns(m, r)) + seq![10u8]
}

/// Appends `bytes`.
fn push_all(out: &mut Vec<u8>, bytes: &[u8])
    ensures
        final(out)@ == old(out)@ + bytes@,
{
    let ghost start = out@;
    for i in 0..bytes.len()
        invariant
            out@ == start + bytes@.take(i as int),
    {
        out.push(bytes[i]);
        assert(out@ =~= start + bytes@.take(i + 1));
    }
    assert(bytes@.take(bytes@.len() as int) =~= bytes@);
}

/// Appends the decimal digits of `n`.
fn push_digits(out: &mut Vec<u8>, n: u64)
    ensures
        final(out)@ == old(out)@ + digits(n as nat),
    decreases n,
{
    if n < 10 {
        out.push(48 + n as u8);
        assert(out@ =~= old(out)@ + digits(n as nat));
    } else {
        push_digits(out, n / 10);
        out.push(48 + (n % 10) as u8);
        assert(out@ =~= old(out)@ + digits(n as nat));
    }
}

/// Appends the letter cells for `shift`.
fn push_labels(out: &mut Vec<u8>, shift: &Vec<bool>)
    requires
        shift@.len() <= MAX_RESOURCES,
    ensures
        final(out)@ == old(out)@ + label_cells(shift@),
{
    let ghost start = out@;
    assert(shift@.take(0) =~= Seq::<bool>::empty());
    for i in 0..shift.len()
        invariant
            shift@.len() <= MAX_RESOURCES,
            out@ == start + label_cells(shift@.take(i as int)),
    {
        assert(shift@.take(i + 1).drop_last() =~= shift@.take(i as int));
        if shift[i] {
            out.push(32);
        }
        out.push(65 + i as u8);
        out.push(32);
        assert(out@ =~= start + label_cells(shift@.take(i + 1)));
    }
    assert(shift@.take(shift@.len() as int) =~= shift@);
}

/// The text of a vector whose entries are labelled 'A', 'B', ...; with
/// `request_of`, the text of a request of that process.
pub fn format_vector(title: &Vec<u8>, vals: &Vec<u32>, request_of: Option<usize>) -> (out: Vec<u8>)
    requires
        vals@.len() <= MAX_RESOURCES,
    ensures
        out@ == vector_text(title@, vals@, request_of),
{
    let mut out: Vec<u8> = Vec::new();
    push_all(&mut out, &[84, 104, 101, 32]);
    push_all(&mut out, title.as_slice());
    push_all(&mut out, &[32, 86, 101, 99, 116, 111, 114, 32, 105, 115, 58, 32, 10]);
    let ghost head = out@;
    if request_of.is_some() {
        out.push(32);
        out.push(32);
    }
    let mut shift: Vec<bool> = Vec::new();
    for i in 0..vals.len()
        invariant
            shift@ == wide_values(vals@).take(i as int),
    {
        shift.push(vals[i] > 9);
        assert(shift@ =~= wide_values(vals@).take(i + 1));
    }
    assert(shift@ =~= wide_values(vals@));
    push_labels(&mut out, &shift);
    out.push(10);
    if let Some(p) = request_of {
        push_digits(&mut out, p as u64);
        out.push(58);
    }
    let ghost before_values = out@;
    assert(vals@.take(0) =~= Seq::<u32>::empty());
    for i in 0..vals.len()
        invariant
            out@ == before_values + value_cells(vals@.take(i as int)),
    {
        assert(vals@.take(i + 1).drop_last() =~= vals@.take(i as int));
        push_digits(&mut out, vals[i] as u64);
        out.push(32);
        assert(out@ =~= before_values + value_cells(vals@.take(i + 1)));
    }
    assert(vals@.take(vals@.len() as int) =~= vals@);
    out.push(10);
    out.push(10);
    assert(out@ =~= vector_text(title@, vals@, request_of));
    out
}

/// Whether column `j` of the matrix holds a value above 9.
fn column_is_wide(m: &Vec<Vec<u32>>, j: usize) -> (r: bool)
    requires
        forall|i: int| 0 <= i < m@.len() ==> j < (#[trigger] m@[i])@.len(),
    ensures
        r == exists|i: int| 0 <= i < m@.len() && #[trigger] rows(m@)[i][j as int] > 9,
{
    for i in 0..m.len()
        invariant
            forall|i: int| 0 <= i < m@.len() ==> j < (#[trigger] m@[i])@.len(),
            forall|a: int| 0 <= a < i ==> !(#[trigger] rows(m@)[a][j as int] > 9),
    {
        assert(rows(m@)[i as int] == m@[i as int]@);
        if m[i][j] > 9 {
            return true;
        }
    }
    false
}

/// Appends the cells of one matrix row.
fn push_row(out: &mut Vec<u8>, row: &Vec<u32>, shift: &Vec<bool>)
    requires
        row@.len() == shift@.len(),
    ensures
        final(out)@ == old(out)@ + row_cells(row@, shift@),
{
    let ghost start = out@;
    assert(row@.take(0) =~= Seq::<u32>::empty());
    for j in 0..row.len()
        invariant
            row@.len() == shift@.len(),
            out@ == start + row_cells(row@.take(j as int), shift@),
    {
        assert(row@.take(j + 1).drop_last() =~= row@.take(j as int));
        if shift[j] && row[j] < 10 {
            out.push(32);
        }
        push_digits(out, row[j] as u64);
        out.push(32);
        assert(out@ =~= start + row_cells(row@.take(j + 1), shift@));
    }
    assert(row@.take(row@.len() as int) =~= row@);
}

/// The text of a matrix with `num_resources` columns labelled 'A', 'B', ...
/// and one row per process.
pub fn format_matrix(title: &Vec<u8>, matrix: &Vec<Vec<u32>>, num_resources: usize) -> (out: Vec<u8>)
    requires
        num_resources <= MAX_RESOURCES,
        is_matrix(rows(matrix@), matrix@.len() as int, num_resources as int),
    ensures
        out@ == matrix_text(title@, rows(matrix@), num_resources as nat),
{
    let ghost m = rows(matrix@);
    let mut out: Vec<u8> = Vec::new();
    push_all(&mut out, &[84, 104, 101, 32]);
    push_all(&mut out, title.as_slice());
    push_all(&mut out, &[32, 77, 97, 116, 114, 105, 120, 32, 105, 115, 58, 32, 10]);
    push_all(&mut out, &[32, 32, 32]);
    proof {
        assert forall|i: int| 0 <= i < matrix@.len() implies num_resources == (#[trigger] matrix@[i])@.len() by {
            assert(m[i] == matrix@[i]@);
        }
    }
    let mut shift: Vec<bool> = Vec::new();
    for j in 0..num_resources
        invariant
            m == rows(matrix@),
            forall|i: int| 0 <= i < matrix@.len() ==> num_resources == (#[trigger] matrix@[i])@.len(),
            shift@ == wide_columns(m, num_resources as nat).take(j as int),
    {
        shift.push(column_is_wide(matrix, j));
        assert(shift@ =~= wide_columns(m, num_resources as nat).take(j + 1));
    }
    assert(shift@ =~= wide_columns(m, num_resources as nat));
    push_labels(&mut out, &shift);
    out.push(10);
    let ghost before_rows = out@;
    assert(m.take(0) =~= Seq::<Seq<u32>>::empty());
    for i in 0..matrix.len()
        invariant
            m == rows(matrix@),
            forall|i: int| 0 <= i < matrix@.len() ==> num_resources == (#[trigger] matrix@[i])@.len(),
            shift@.len() == num_resources,
            out@ == before_rows + matrix_rows(m.take(i as int), shift@),
    {
        assert(m.take(i + 1).drop_last() =~= m.take(i as int));
        assert(m.take(i + 1).last() == matrix@[i as int]@);
        push_digits(&mut out, i as u64);
        out.push(58);
        out.push(32);
        push_row(&mut out, &matrix[i], &shift);
        out.push(10);
        assert(out@ =~= before_rows + matrix_rows(m.take(i + 1), shift@));
    }
    assert(m.take(m.len() as int) =~= m);
    out.push(10);
    assert(out@ =~= matrix_text(title@, m, num_resources as nat));
    out
}

} // verus!

