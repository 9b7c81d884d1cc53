use vstd::prelude::*;
use crate::scalar::Scalar;
use crate::matrix::{EliminationError, rows_of, has_width, shape_error, well_shaped, check_shape};
use crate::forward::{GaussEliminationOption, row_minus_scaled, forward_elimination, forward_pass, subtract_scaled_row};

verus! {

/// The first column in `i..n` where `row` is nonzero. The search stops at
/// `n`, the number of rows, whatever the width of the row.
pub open spec fn row_pivot<T: Scalar>(row: Seq<T>, i: int, n: int) -> Option<int>
    decreases n - i,
{
    if i >= n {
        None
    } else if row[i] != T::zero_spec() {
        Some(i)
    } else {
        row_pivot(row, i + 1, n)
    }
}

/// Rows `lo..d` with their entry in column `i` cancelled against row `d`,
/// from column `d` on.
pub open spec fn clear_between<T: Scalar>(m: Seq<Seq<T>>, d: int, i: int, lo: int) -> Seq<
    Seq<T>,
> {
    Seq::new(
        m.len(),
        |r: int|
            if lo <= r < d {
                row_minus_scaled(m[r], m[d], m[r][i], d)
            } else {
                m[r]
            },
    )
}

/// The work of back elimination on row `d`.
pub open spec fn back_step<T: Scalar>(m: Seq<Seq<T>>, d: int) -> Seq<Seq<T>> {
    match row_pivot(m[d], d, m.len() as int) {
        None => m,
        Some(i) => clear_between(m, d, i, 0),
    }
}

/// Back elimination on rows `d`, `d - 1`, ..., `1`, in that order.
pub open spec fn back_down<T: Scalar>(m: Seq<Seq<T>>, d: nat) -> Seq<Seq<T>>
    decreases d,
{
    if d == 0 {
        m
    } else {
        back_down(back_step(m, d as int), (d - 1) as nat)
    }
}

/// Back elimination on every row but the first, from the last row up.
pub open spec fn back_elimination<T: Scalar>(m: Seq<Seq<T>>) -> Seq<Seq<T>> {
    if m.len() == 0 {
        m
    } else {
        back_down(m, (m.len() - 1) as nat)
    }
}

/// Gauss-Jordan reduction: forward elimination with pivots scaled to one,
/// then back elimination.
pub open spec fn gauss_jordan<T: Scalar>(m: Seq<Seq<T>>) -> Seq<Seq<T>> {
    back_elimination(forward_elimination(m, GaussEliminationOption::PrepareReduce))
}

/// What `row_pivot` finds: a nonzero entry with only zeros before it, or
/// zeros all the way to column `n`.
pub proof fn lemma_row_pivot<T: Scalar>(row: Seq<T>, i: int, n: int)
    ensures
        match row_pivot(row, i, n) {
            Some(k) => i <= k < n && row[k] != T::zero_spec() && forall|x: int|
                i <= x < k ==> #[trigger] row[x] == T::zero_spec(),
            None => forall|x: int| i <= x < n ==> #[trigger] row[x] == T::zero_spec(),
        },
    decreases n - i,
{
    if i < n {
        lemma_row_pivot(row, i + 1, n);
    }
}

/// One back step keeps the number of rows and their width.
pub proof fn lemma_back_step_shape<T: Scalar>(m: Seq<Seq<T>>, d: int, w: int)
    requires
        has_width(m, w),
    ensures
        back_step(m, d).len() == m.len(),
        has_width(back_step(m, d), w),
{
}

/// Finds the first column in `d..n` where row `d` is nonzero, `n` being the
/// number of rows.
fn find_row_pivot<T: Scalar>(matrix: &Vec<Vec<T>>, d: usize) -> (r: Option<usize>)
    requires
        d < matrix@.len(),
        well_shaped(rows_of(matrix@)),
    ensures
        r is Some ==> row_pivot(matrix@[d as int]@, d as int, matrix@.len() as int) == Some(
            r->0 as int,
        ),
        r is None ==> row_pivot(matrix@[d as int]@, d as int, matrix@.len() as int) is None,
{
    let ghost row = matrix@[d as int]@;
    let n = matrix.len();
    assert(rows_of(matrix@)[d as int].len() == rows_of(matrix@)[0].len());
    let mut i = d;
    while i < n
        invariant
            n == matrix@.len(),
            row == matrix@[d as int]@,
            row.len() >= n,
            d <= i <= n,
            row_pivot(row, d as int, n as int) == row_pivot(row, i as int, n as int),
        decreases n - i,
    {
        if !matrix[d][i].is_zero() {
            return Some(i);
        }
        i += 1;
    }
    None
}

/// Back elimination on row `d`: cancel the pivot's column in every row
/// above it.
fn back_row<T: Scalar>(matrix: &mut Vec<Vec<T>>, d: usize)
    requires
        0 < d < old(matrix)@.len(),
        well_shaped(rows_of(old(matrix)@)),
    ensures
        final(matrix)@.len() == old(matrix)@.len(),
        rows_of(final(matrix)@) == back_step(rows_of(old(matrix)@), d as int),
{
    let ghost m = rows_of(matrix@);
    let ghost w = m[0].len() as int;
    match find_row_pivot(matrix, d) {
        None => {},
        Some(i) => {
            proof {
                lemma_row_pivot(m[d as int], d as int, m.len() as int);
            }
            let mut row = d;
            while row > 0
                invariant
                    m.len() == matrix@.len(),
                    0 < d < m.len(),
                    row <= d,
                    has_width(m, w),
                    m.len() <= w,
                    d <= i < m.len(),
                    rows_of(matrix@) == clear_between(m, d as int, i as int, row as int),
                decreases row,
            {
                row -= 1;
                assert(rows_of(matrix@)[row as int] == m[row as int]);
                assert(rows_of(matrix@)[d as int] == m[d as int]);
                assert(m[row as int].len() == w);
                assert(m[d as int].len() == w);
                let factor = matrix[row][i];
                subtract_scaled_row(matrix, row, d, factor, d);
                assert(rows_of(matrix@) =~= clear_between(m, d as int, i as int, row as int));
            }
        },
    }
}

/// Back elimination on a matrix whose shape was checked.
fn back_pass<T: Scalar>(matrix: &mut Vec<Vec<T>>)
    requires
        well_shaped(rows_of(old(matrix)@)),
    ensures
        rows_of(final(matrix)@) == back_elimination(rows_of(old(matrix)@)),
{
    let ghost m0 = rows_of(matrix@);
    let ghost w = m0[0].len() as int;
    let n = matrix.len();
    let mut d = n - 1;
    while d > 0
        invariant
            n == m0.len(),
            n == matrix@.len(),
            0 < n <= w,
            d < n,
            has_width(rows_of(matrix@), w),
            back_down(rows_of(matrix@), d as nat) == back_elimination(m0),
        decreases d,
    {
        proof {
            lemma_back_step_shape(rows_of(matrix@), d as int, w);
            assert(rows_of(matrix@)[0].len() == w);
        }
        back_row(matrix, d);
        d -= 1;
    }
}

/// Gauss-Jordan reduction in place: forward elimination with each pivot
/// scaled to one, then back elimination from the last row up, which
/// clears the entries above each pivot.
///
/// A matrix with no rows, with rows of different lengths, or with fewer
/// columns than rows is refused and left as it was.
pub fn gauss_jordan_elimination_generic<T: Scalar>(matrix: &mut Vec<Vec<T>>) -> (r: Result<
    (),
    EliminationError,
>)
    ensures
        r is Ok <==> well_shaped(rows_of(old(matrix)@)),
        r is Ok ==> rows_of(final(matrix)@) == gauss_jordan(rows_of(old(matrix)@)),
        r matches Err(e) ==> shape_error(rows_of(old(matrix)@)) == Some(e) && final(matrix)@
            == old(matrix)@,
{
    match check_shape(matrix) {
        Err(e) => Err(e),
        Ok(()) => {
            let ghost m0 = rows_of(matrix@);
            forward_pass(matrix, GaussEliminationOption::PrepareReduce);
            proof {
                crate::forward::lemma_forward_upto_shape(
                    m0,
                    m0.len(),
                    GaussEliminationOption::PrepareReduce,
                    m0[0].len() as int,
                );
                assert(rows_of(matrix@)[0].len() == m0[0].len());
            }
            back_pass(matrix);
            Ok(())
        },
    }
}

} // verus!
