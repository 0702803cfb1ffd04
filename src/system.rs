//! Operations on a matrix read as a system of linear equations, one equation per row.
use vstd::prelude::*;

use crate::matrix::Mat2;

verus! {

/// The sum of `values[t] * row[t]` over the first `k` columns.
pub open spec fn dot(row: Seq<i64>, values: Seq<i64>, k: int) -> int
    decreases k,
{
    if k <= 0 {
        0
    } else {
        dot(row, values, k - 1) + values[k - 1] * row[k - 1]
    }
}

/// Each product `values[k] * row[k]`, and each partial sum of them taken from the first
/// column on, fits in an `i64`.
pub open spec fn dot_fits(row: Seq<i64>, values: Seq<i64>) -> bool {
    forall|k: int|
        0 <= k < row.len() ==> {
            &&& i64::MIN <= #[trigger] (values[k] * row[k]) <= i64::MAX
            &&& i64::MIN <= dot(row, values, k + 1) <= i64::MAX
        }
}

/// Substituting `values` into every one of `rows` stays within `i64`.
pub open spec fn substitution_fits(rows: Seq<Seq<i64>>, values: Seq<i64>) -> bool {
    forall|i: int| 0 <= i < rows.len() ==> dot_fits(#[trigger] rows[i], values)
}

/// The sum of `values[k] * row[k]` over the columns of `row`.
fn row_dot(row: &[i64], values: &[i64]) -> (r: i64)
    requires
        row@.len() <= values@.len(),
        dot_fits(row@, values@),
    ensures
        r == dot(row@, values@, row@.len() as int),
{
    let mut acc: i64 = 0;
    let mut k: usize = 0;
    while k < row.len()
        invariant
            k <= row@.len(),
            row@.len() <= values@.len(),
            dot_fits(row@, values@),
            acc == dot(row@, values@, k as int),
        decreases row@.len() - k,
    {
        let p = values[k] * row[k];
        assert(dot(row@, values@, k + 1) == acc + p);
        acc = acc + p;
        k += 1;
    }
    acc
}

/// Substitute `values` into the system of linear equations held by `matrix`: row `i` of the
/// result is the single element `sum over k of values[k] * matrix[i][k]`.
pub fn substitute(matrix: &Mat2<i64>, values: &[i64]) -> (r: Mat2<i64>)
    requires
        matrix.wf(),
        values@.len() == matrix.nrows(),
        matrix.ncols() <= values@.len(),
        substitution_fits(matrix.rows(), values@),
    ensures
        r.wf(),
        r.nrows() == matrix.nrows(),
        r.ncols() == 1,
        forall|i: int|
            0 <= i < matrix.nrows() ==> #[trigger] r.rows()[i] == seq![
                dot(matrix.rows()[i], values@, matrix.ncols() as int) as i64,
            ],
{
    let (_, n) = matrix.get_dimension();
    let f = |i: usize, _j: usize| -> (x: i64)
        requires
            matrix.wf(),
            i < matrix.nrows(),
            matrix.ncols() <= values@.len(),
            substitution_fits(matrix.rows(), values@),
        ensures
            x == dot(matrix.rows()[i as int], values@, matrix.ncols() as int),
        {
            let row = matrix.get_row(i);
            assert(dot_fits(matrix.rows()[i as int], values@));
            row_dot(row, values)
        };
    let r = Mat2::new_with(n, 1, f);
    assert forall|i: int| 0 <= i < matrix.nrows() implies #[trigger] r.rows()[i] == seq![
        dot(matrix.rows()[i], values@, matrix.ncols() as int) as i64,
    ] by {
        assert(call_ensures(f, (i as usize, 0usize), r.rows()[i][0]));
        assert(r.rows()[i].len() == 1);
        assert(r.rows()[i] =~= seq![dot(matrix.rows()[i], values@, matrix.ncols() as int) as i64]);
    }
    r
}

} // verus!
