use vstd::prelude::*;
use crate::scalar::Scalar;
use crate::matrix::{EliminationError, rows_of, has_width, shape_error, well_shaped, check_shape};

verus! {

/// Whether forward elimination stops at row-echelon form, or also scales
/// each pivot row so that its pivot is one, ready for back elimination.
#[derive(Debug, Clone, Copy, PartialEq, Eq, Structural)]
pub enum GaussEliminationOption {
    JustEchelon,
    PrepareReduce,
}

/// The first row at or after `r` whose entry in column `c` is nonzero.
pub open spec fn column_pivot<T: Scalar>(m: Seq<Seq<T>>, c: int, r: int) -> Option<int>
    decreases m.len() - r,
{
    if r >= m.len() {
        None
    } else if m[r][c] != T::zero_spec() {
        Some(r)
    } else {
        column_pivot(m, c, r + 1)
    }
}

/// `row` minus `f` times `src`, from column `from` on; earlier entries are kept.
pub open spec fn row_minus_scaled<T: Scalar>(row: Seq<T>, src: Seq<T>, f: T, from: int) -> Seq<T> {
    Seq::new(
        row.len(),
        |k: int|
            if k < from {
                row[k]
            } else {
                T::sub_spec(row[k], T::mul_spec(f, src[k]))
            },
    )
}

/// `row` times `f`, from column `from` on; earlier entries are kept.
pub open spec fn row_scaled<T: Scalar>(row: Seq<T>, f: T, from: int) -> Seq<T> {
    Seq::new(row.len(), |k: int| if k < from { row[k] } else { T::mul_spec(row[k], f) })
}

/// Row `r` with its entry in column `c` cancelled against pivot row `i`.
pub open spec fn cancelled_row<T: Scalar>(m: Seq<Seq<T>>, r: int, i: int, c: int) -> Seq<T> {
    row_minus_scaled(m[r], m[i], T::div_spec(m[r][c], m[i][c]), c)
}

/// The rows strictly between `i` and `hi` cancelled against pivot row `i`.
pub open spec fn eliminate_between<T: Scalar>(m: Seq<Seq<T>>, i: int, c: int, hi: int) -> Seq<
    Seq<T>,
> {
    Seq::new(m.len(), |r: int| if i < r < hi { cancelled_row(m, r, i, c) } else { m[r] })
}

/// Every row below pivot row `i` cancelled against it in column `c`.
pub open spec fn eliminate_below<T: Scalar>(m: Seq<Seq<T>>, i: int, c: int) -> Seq<Seq<T>> {
    eliminate_between(m, i, c, m.len() as int)
}

/// Rows `a` and `b` exchanged.
pub open spec fn swap_rows<T>(m: Seq<Seq<T>>, a: int, b: int) -> Seq<Seq<T>> {
    m.update(a, m[b]).update(b, m[a])
}

/// Row `c` scaled so that its entry in column `c` becomes one.
pub open spec fn normalize_row<T: Scalar>(m: Seq<Seq<T>>, c: int) -> Seq<Seq<T>> {
    m.update(c, row_scaled(m[c], T::div_spec(T::one_spec(), m[c][c]), c))
}

/// The work of forward elimination on column `c`.
pub open spec fn forward_step<T: Scalar>(
    m: Seq<Seq<T>>,
    c: int,
    option: GaussEliminationOption,
) -> Seq<Seq<T>> {
    match column_pivot(m, c, c) {
        None => m,
        Some(i) => {
            let s = swap_rows(eliminate_below(m, i, c), i, c);
            if option == GaussEliminationOption::PrepareReduce {
                normalize_row(s, c)
            } else {
                s
            }
        },
    }
}

/// Forward elimination on columns `0..k`, in that order.
pub open spec fn forward_upto<T: Scalar>(
    m: Seq<Seq<T>>,
    k: nat,
    option: GaussEliminationOption,
) -> Seq<Seq<T>>
    decreases k,
{
    if k == 0 {
        m
    } else {
        forward_step(forward_upto(m, (k - 1) as nat, option), k - 1, option)
    }
}

/// Forward elimination on every column that has a diagonal entry.
pub open spec fn forward_elimination<T: Scalar>(
    m: Seq<Seq<T>>,
    option: GaussEliminationOption,
) -> Seq<Seq<T>> {
    forward_upto(m, m.len(), option)
}

/// What `column_pivot` finds: a nonzero entry with only zeros above it, or
/// zeros all the way down.
pub proof fn lemma_column_pivot<T: Scalar>(m: Seq<Seq<T>>, c: int, r: int)
    requires
        0 <= r,
    ensures
        match column_pivot(m, c, r) {
            Some(i) => r <= i < m.len() && m[i][c] != T::zero_spec() && forall|x: int|
                r <= x < i ==> #[trigger] m[x][c] == T::zero_spec(),
            None => forall|x: int| r <= x < m.len() ==> #[trigger] m[x][c] == T::zero_spec(),
        },
    decreases m.len() - r,
{
    if r < m.len() {
        lemma_column_pivot(m, c, r + 1);
    }
}

/// One forward step keeps the number of rows and their width.
pub proof fn lemma_forward_step_shape<T: Scalar>(
    m: Seq<Seq<T>>,
    c: int,
    option: GaussEliminationOption,
    w: int,
)
    requires
        0 <= c,
        has_width(m, w),
    ensures
        forward_step(m, c, option).len() == m.len(),
        has_width(forward_step(m, c, option), w),
{
    lemma_column_pivot(m, c, c);
}

/// Forward elimination keeps the number of rows and their width.
pub proof fn lemma_forward_upto_shape<T: Scalar>(
    m: Seq<Seq<T>>,
    k: nat,
    option: GaussEliminationOption,
    w: int,
)
    requires
        has_width(m, w),
    ensures
        forward_upto(m, k, option).len() == m.len(),
        has_width(forward_upto(m, k, option), w),
    decreases k,
{
    if k > 0 {
        lemma_forward_upto_shape(m, (k - 1) as nat, option, w);
        lemma_forward_step_shape(forward_upto(m, (k - 1) as nat, option), k - 1, option, w);
    }
}

/// Finds the first row at or below row `d` with a nonzero entry in column `d`.
fn find_column_pivot<T: Scalar>(matrix: &Vec<Vec<T>>, d: usize) -> (r: Option<usize>)
    requires
        d < matrix@.len(),
        well_shaped(rows_of(matrix@)),
    ensures
        r is Some ==> column_pivot(rows_of(matrix@), d as int, d as int) == Some(r->0 as int),
        r is None ==> column_pivot(rows_of(matrix@), d as int, d as int) is None,
{
    let ghost m = rows_of(matrix@);
    let n = matrix.len();
    let mut i = d;
    while i < n
        invariant
            n == matrix@.len(),
            m == rows_of(matrix@),
            well_shaped(m),
            d <= i <= n,
            column_pivot(m, d as int, d as int) == column_pivot(m, d as int, i as int),
        decreases n - i,
    {
        assert(m[i as int].len() == m[0].len());
        if !matrix[i][d].is_zero() {
            return Some(i);
        }
        i += 1;
    }
    None
}

/// Subtracts `factor` times row `source` from row `target`, from column
/// `from` on.
pub(crate) fn subtract_scaled_row<T: Scalar>(
    matrix: &mut Vec<Vec<T>>,
    target: usize,
    source: usize,
    factor: T,
    from: usize,
)
    requires
        target < old(matrix)@.len(),
        source < old(matrix)@.len(),
        target != source,
        old(matrix)@[target as int]@.len() == old(matrix)@[source as int]@.len(),
    ensures
        final(matrix)@.len() == old(matrix)@.len(),
        rows_of(final(matrix)@) == rows_of(old(matrix)@).update(
            target as int,
            row_minus_scaled(
                old(matrix)@[target as int]@,
                old(matrix)@[source as int]@,
                factor,
                from as int,
            ),
        ),
{
    let ghost m0 = matrix@;
    let w = matrix[target].len();
    let mut k = from;
    while k < w
        invariant
            matrix@.len() == m0.len(),
            target < m0.len(),
            source < m0.len(),
            target != source,
            w == m0[target as int]@.len(),
            w == m0[source as int]@.len(),
            forall|x: int| 0 <= x < m0.len() && x != target ==> matrix@[x] == m0[x],
            matrix@[target as int]@.len() == w,
            from <= k,
            forall|j: int|
                0 <= j < w ==> #[trigger] matrix@[target as int]@[j] == if from <= j < k {
                    T::sub_spec(m0[target as int]@[j], T::mul_spec(factor, m0[source as int]@[j]))
                } else {
                    m0[target as int]@[j]
                },
        decreases w - k,
    {
        let p = matrix[source][k];
        let x = matrix[target][k];
        let v = x.minus(&factor.times(&p));
        matrix[target].set(k, v);
        k += 1;
    }
    proof {
        let want = row_minus_scaled(m0[target as int]@, m0[source as int]@, factor, from as int);
        assert(matrix@[target as int]@ =~= want);
        assert(rows_of(matrix@) =~= rows_of(m0).update(target as int, want));
    }
}

/// Multiplies row `target` by `factor`, from column `from` on.
fn scale_row<T: Scalar>(matrix: &mut Vec<Vec<T>>, target: usize, factor: T, from: usize)
    requires
        target < old(matrix)@.len(),
    ensures
        final(matrix)@.len() == old(matrix)@.len(),
        rows_of(final(matrix)@) == rows_of(old(matrix)@).update(
            target as int,
            row_scaled(old(matrix)@[target as int]@, factor, from as int),
        ),
{
    let ghost m0 = matrix@;
    let w = matrix[target].len();
    let mut k = from;
    while k < w
        invariant
            matrix@.len() == m0.len(),
            target < m0.len(),
            w == m0[target as int]@.len(),
            forall|x: int| 0 <= x < m0.len() && x != target ==> matrix@[x] == m0[x],
            matrix@[target as int]@.len() == w,
            from <= k,
            forall|j: int|
                0 <= j < w ==> #[trigger] matrix@[target as int]@[j] == if from <= j < k {
                    T::mul_spec(m0[target as int]@[j], factor)
                } else {
                    m0[target as int]@[j]
                },
        decreases w - k,
    {
        let x = matrix[target][k];
        let v = x.times(&factor);
        matrix[target].set(k, v);
        k += 1;
    }
    proof {
        let want = row_scaled(m0[target as int]@, factor, from as int);
        assert(matrix@[target as int]@ =~= want);
        assert(rows_of(matrix@) =~= rows_of(m0).update(target as int, want));
    }
}

/// Exchanges two distinct rows.
fn swap_matrix_rows<T>(matrix: &mut Vec<Vec<T>>, a: usize, b: usize)
    requires
        a < old(matrix)@.len(),
        b < old(matrix)@.len(),
        a != b,
    ensures
        final(matrix)@.len() == old(matrix)@.len(),
        rows_of(final(matrix)@) == swap_rows(rows_of(old(matrix)@), a as int, b as int),
{
    let ghost m0 = matrix@;
    let mut held: Vec<T> = Vec::new();
    matrix.set_and_swap(a, &mut held);
    matrix.set_and_swap(b, &mut held);
    matrix.set_and_swap(a, &mut held);
    proof {
        assert(matrix@ =~= m0.update(a as int, m0[b as int]).update(b as int, m0[a as int]));
        assert(rows_of(matrix@) =~= swap_rows(rows_of(m0), a as int, b as int));
    }
}

/// Forward elimination on column `c`: cancel the entries below the pivot,
/// move the pivot row to row `c`, and scale it if asked to.
fn forward_column<T: Scalar>(matrix: &mut Vec<Vec<T>>, c: usize, option: GaussEliminationOption)
    requires
        c < old(matrix)@.len(),
        well_shaped(rows_of(old(matrix)@)),
    ensures
        final(matrix)@.len() == old(matrix)@.len(),
        rows_of(final(matrix)@) == forward_step(rows_of(old(matrix)@), c as int, option),
{
    let ghost m = rows_of(matrix@);
    let ghost w = m[0].len() as int;
    let n = matrix.len();
    match find_column_pivot(matrix, c) {
        None => {},
        Some(i) => {
            proof {
                lemma_column_pivot(m, c as int, c as int);
            }
            let mut row = i + 1;
            while row < n
                invariant
                    n == m.len(),
                    n == matrix@.len(),
                    c <= i < n,
                    i < row <= n,
                    c < w,
                    has_width(m, w),
                    m[i as int][c as int] != T::zero_spec(),
                    rows_of(matrix@) == eliminate_between(m, i as int, c as int, row as int),
                decreases n - row,
            {
                assert(rows_of(matrix@)[row as int] == m[row as int]);
                assert(rows_of(matrix@)[i as int] == m[i as int]);
                assert(m[row as int].len() == w);
                assert(m[i as int].len() == w);
                let factor = matrix[row][c].divide(&matrix[i][c]);
                subtract_scaled_row(matrix, row, i, factor, c);
                assert(rows_of(matrix@) =~= eliminate_between(
                    m,
                    i as int,
                    c as int,
                    row + 1,
                ));
                row += 1;
            }
            let ghost e = rows_of(matrix@);
            if c != i {
                swap_matrix_rows(matrix, i, c);
            } else {
                assert(swap_rows(e, i as int, c as int) =~= e);
            }
            assert(rows_of(matrix@)[c as int] == m[i as int]);
            assert(matrix@[c as int]@ == m[i as int]);
            assert(matrix@[c as int]@.len() == w);
            if option == GaussEliminationOption::PrepareReduce {
                let f = T::one().divide(&matrix[c][c]);
                scale_row(matrix, c, f, c);
            }
        },
    }
}

/// Forward elimination on every column that has a diagonal entry, on a
/// matrix whose shape was checked.
pub(crate) fn forward_pass<T: Scalar>(matrix: &mut Vec<Vec<T>>, option: GaussEliminationOption)
    requires
        well_shaped(rows_of(old(matrix)@)),
    ensures
        final(matrix)@.len() == old(matrix)@.len(),
        rows_of(final(matrix)@) == forward_elimination(rows_of(old(matrix)@), option),
{
    let ghost m0 = rows_of(matrix@);
    let ghost w = m0[0].len() as int;
    let n = matrix.len();
    let mut c: usize = 0;
    while c < n
        invariant
            n == m0.len(),
            n == matrix@.len(),
            well_shaped(m0),
            w == m0[0].len(),
            c <= n,
            rows_of(matrix@) == forward_upto(m0, c as nat, option),
        decreases n - c,
    {
        proof {
            lemma_forward_upto_shape(m0, c as nat, option, w);
            assert(rows_of(matrix@)[0].len() == w);
        }
        forward_column(matrix, c, option);
        c += 1;
    }
}

/// Forward elimination: brings the matrix to row-echelon form in place,
/// sweeping the columns from left to right, with each pivot scaled to one
/// under `PrepareReduce`.
///
/// A column with no nonzero entry on or below the diagonal is skipped. A
/// matrix with no rows, with rows of different lengths, or with fewer
/// columns than rows is refused and left as it was.
pub fn gauss_elimination_generic<T: Scalar>(
    matrix: &mut Vec<Vec<T>>,
    option: GaussEliminationOption,
) -> (r: Result<(), EliminationError>)
    ensures
        r is Ok <==> well_shaped(rows_of(old(matrix)@)),
        r is Ok ==> rows_of(final(matrix)@) == forward_elimination(rows_of(old(matrix)@), option),
        r matches Err(e) ==> shape_error(rows_of(old(matrix)@)) == Some(e) && final(matrix)@
            == old(matrix)@,
{
    match check_shape(matrix) {
        Err(e) => Err(e),
        Ok(()) => {
            forward_pass(matrix, option);
            Ok(())
        },
    }
}

} // verus!
