//! Shape checks shared by every operation that takes a matrix, and the two
//! estimators that exist in name only.

use vstd::prelude::*;
use crate::error::Error;

verus! {

/// The rows of a matrix as sequences.
pub open spec fn rows_of<T>(matrix: Seq<Vec<T>>) -> Seq<Seq<T>> {
    Seq::new(matrix.len(), |i: int| matrix[i]@)
}

/// A copy of `matrix`, row by row.
pub fn copy_matrix<T: Copy>(matrix: &Vec<Vec<T>>) -> (copy: Vec<Vec<T>>)
    ensures
        rows_of(copy@) == rows_of(matrix@),
{
    let mut copy: Vec<Vec<T>> = Vec::new();
    let mut i: usize = 0;
    while i < matrix.len()
        invariant
            i <= matrix.len(),
            copy@.len() == i,
            forall|r: int| 0 <= r < i ==> (#[trigger] copy@[r])@ == matrix@[r]@,
        decreases matrix.len() - i,
    {
        let source = &matrix[i];
        let mut row: Vec<T> = Vec::new();
        let mut j: usize = 0;
        while j < source.len()
            invariant
                j <= source.len(),
                row@ == source@.take(j as int),
            decreases source.len() - j,
        {
            row.push(source[j]);
            assert(source@.take(j + 1) == source@.take(j as int).push(source@[j as int]));
            j += 1;
        }
        assert(source@.take(j as int) == source@);
        copy.push(row);
        i += 1;
    }
    assert(rows_of(copy@) =~= rows_of(matrix@));
    copy
}

/// `row` is the first row of `rows` that is not as long as row 0.
pub open spec fn first_ragged_row<T>(rows: Seq<Vec<T>>, row: int) -> bool {
    &&& 0 < row < rows.len()
    &&& rows[row].len() != rows[0].len()
    &&& forall|j: int| 0 <= j < row ==> (#[trigger] rows[j]).len() == rows[0].len()
}

/// There is at most one first ragged row.
pub proof fn lemma_first_ragged_row_is_unique<T>(rows: Seq<Vec<T>>, a: int, b: int)
    requires
        first_ragged_row(rows, a),
        first_ragged_row(rows, b),
    ensures
        a == b,
{
    if a < b {
        assert(rows[a].len() == rows[0].len());
    } else if b < a {
        assert(rows[b].len() == rows[0].len());
    }
}

/// The shape of `rows`: height and width if they form a matrix, that is if
/// there is a row and all rows are as long as the first. Without rows the
/// shape is `InvalidArgument`; otherwise the first row of another length is
/// reported, with the length that was expected and the one that was found.
pub open spec fn shape<T>(rows: Seq<Vec<T>>) -> Result<(usize, usize), Error> {
    if rows.len() == 0 {
        Err(Error::InvalidArgument)
    } else if exists|row: int| first_ragged_row(rows, row) {
        let row = choose|row: int| first_ragged_row(rows, row);
        Err(
            Error::RowLengthMismatch {
                row: row as usize,
                expected: rows[0].len(),
                got: rows[row].len(),
            },
        )
    } else {
        Ok((rows.len() as usize, rows[0].len()))
    }
}

/// Where `rows` have a shape, every row is as long as the first.
pub proof fn lemma_shape_is_rectangular<T>(rows: Seq<Vec<T>>)
    requires
        shape(rows) is Ok,
    ensures
        forall|j: int| 0 <= j < rows.len() ==> (#[trigger] rows[j]).len() == rows[0].len(),
{
    assert forall|j: int| 0 <= j < rows.len() implies (#[trigger] rows[j]).len()
        == rows[0].len() by {
        lemma_rows_before_agree(rows, j);
    }
}

/// Without a first ragged row, the rows up to `j` are as long as row 0.
proof fn lemma_rows_before_agree<T>(rows: Seq<Vec<T>>, j: int)
    requires
        !exists|row: int| first_ragged_row(rows, row),
        0 <= j < rows.len(),
    ensures
        forall|i: int| 0 <= i <= j ==> (#[trigger] rows[i]).len() == rows[0].len(),
    decreases j,
{
    if j > 0 {
        lemma_rows_before_agree(rows, j - 1);
        if rows[j].len() != rows[0].len() {
            assert(first_ragged_row(rows, j));
        }
    }
}

/// Validates that `rows` form a matrix and returns its height and width; see
/// `shape`.
pub fn matrix_shape<T>(rows: &Vec<Vec<T>>) -> (answer: Result<(usize, usize), Error>)
    ensures
        answer == shape(rows@),
{
    if rows.len() == 0 {
        return Err(Error::InvalidArgument);
    }
    let width = rows[0].len();
    let mut i: usize = 1;
    while i < rows.len()
        invariant
            1 <= i <= rows.len(),
            width == rows@[0].len(),
            forall|j: int| 0 <= j < i ==> (#[trigger] rows@[j]).len() == width,
        decreases rows.len() - i,
    {
        let got = rows[i].len();
        if got != width {
            proof {
                assert(first_ragged_row(rows@, i as int));
                let row = choose|row: int| first_ragged_row(rows@, row);
                lemma_first_ragged_row_is_unique(rows@, row, i as int);
            }
            return Err(Error::RowLengthMismatch { row: i, expected: width, got });
        }
        i += 1;
    }
    Ok((rows.len(), width))
}

/// The shape of `rows` where they are stored densely: a first row without
/// elements is refused with `InvalidArgument` before any other row is looked
/// at.
pub open spec fn dense_shape<T>(rows: Seq<Vec<T>>) -> Result<(usize, usize), Error> {
    if rows.len() > 0 && rows[0].len() == 0 {
        Err(Error::InvalidArgument)
    } else {
        shape(rows)
    }
}

/// As `matrix_shape`, for matrices that are stored densely; see
/// `dense_shape`.
pub fn dense_matrix_shape<T>(rows: &Vec<Vec<T>>) -> (answer: Result<(usize, usize), Error>)
    ensures
        answer == dense_shape(rows@),
{
    if rows.len() > 0 && rows[0].len() == 0 {
        return Err(Error::InvalidArgument);
    }
    matrix_shape(rows)
}

/// Estimating the intrinsic dimension of a data set is not available.
pub fn estimate_intrinsic_dimension(n_samples: usize, k_neighbors: usize) -> (estimate: Result<
    usize,
    Error,
>)
    ensures
        estimate == Err::<usize, Error>(Error::NotImplemented),
{
    Err(Error::NotImplemented)
}

/// Estimating the hubness of a data set is not available.
pub fn estimate_hubness(n_samples: usize) -> (estimate: Result<usize, Error>)
    ensures
        estimate == Err::<usize, Error>(Error::NotImplemented),
{
    Err(Error::NotImplemented)
}

} // verus!
