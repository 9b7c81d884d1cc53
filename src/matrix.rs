use vstd::prelude::*;
use crate::scalar::Scalar;

verus! {

/// Why a matrix was refused before any row was touched.
#[derive(Debug, Clone, Copy, PartialEq, Eq, Structural)]
pub enum EliminationError {
    /// The matrix has no rows.
    EmptyMatrix,
    /// Two rows differ in length.
    RaggedMatrix,
    /// The rows are shorter than the number of rows, so the diagonal
    /// leaves the matrix.
    NarrowMatrix,
}

/// The matrix as a sequence of rows, each a sequence of entries.
pub open spec fn rows_of<T>(m: Seq<Vec<T>>) -> Seq<Seq<T>> {
    m.map_values(|r: Vec<T>| r@)
}

/// Every row has `w` entries.
pub open spec fn has_width<T>(m: Seq<Seq<T>>, w: int) -> bool {
    forall|r: int| 0 <= r < m.len() ==> #[trigger] m[r].len() == w
}

/// The error, if any, that a matrix is refused with.
pub open spec fn shape_error<T>(m: Seq<Seq<T>>) -> Option<EliminationError> {
    if m.len() == 0 {
        Some(EliminationError::EmptyMatrix)
    } else if !has_width(m, m[0].len() as int) {
        Some(EliminationError::RaggedMatrix)
    } else if m[0].len() < m.len() {
        Some(EliminationError::NarrowMatrix)
    } else {
        None
    }
}

/// A matrix that elimination accepts: at least one row, all rows of one
/// width, and at least as many columns as rows.
pub open spec fn well_shaped<T>(m: Seq<Seq<T>>) -> bool {
    shape_error(m) is None
}

/// Checks the shape of a matrix.
pub fn check_shape<T: Scalar>(matrix: &Vec<Vec<T>>) -> (r: Result<(), EliminationError>)
    ensures
        r matches Ok(_) <==> shape_error(rows_of(matrix@)) is None,
        r matches Err(e) ==> shape_error(rows_of(matrix@)) == Some(e),
{
    let n = matrix.len();
    if n == 0 {
        return Err(EliminationError::EmptyMatrix);
    }
    let w = matrix[0].len();
    let mut r: usize = 1;
    while r < n
        invariant
            n == matrix@.len(),
            w == matrix@[0]@.len(),
            1 <= r <= n,
            forall|x: int| 0 <= x < r ==> #[trigger] matrix@[x]@.len() == w,
        decreases n - r,
    {
        if matrix[r].len() != w {
            assert(rows_of(matrix@)[r as int].len() != w);
            return Err(EliminationError::RaggedMatrix);
        }
        r += 1;
    }
    assert(has_width(rows_of(matrix@), w as int));
    if w < n {
        return Err(EliminationError::NarrowMatrix);
    }
    Ok(())
}

} // verus!
