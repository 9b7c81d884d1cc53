use vstd::prelude::*;
use crate::scalar::{Scalar, field_laws};
use crate::matrix::{has_width, well_shaped};
use crate::backward::{
    row_pivot, clear_between, back_step, back_down, back_elimination, gauss_jordan,
    lemma_back_step_shape,
};
use crate::forward::{
    GaussEliminationOption, column_pivot, eliminate_below, swap_rows, normalize_row, forward_step,
    forward_upto, forward_elimination, lemma_column_pivot, lemma_forward_upto_shape,
};

verus! {

/// Every entry left of the diagonal in the first `k` columns is zero.
pub open spec fn zero_below_diagonal<T: Scalar>(m: Seq<Seq<T>>, k: int) -> bool {
    forall|r: int, c: int| 0 <= c < k && c < r < m.len() ==> #[trigger] m[r][c] == T::zero_spec()
}

/// Each of the first `k` diagonal entries is zero or one.
pub open spec fn unit_or_zero_diagonal<T: Scalar>(m: Seq<Seq<T>>, k: int) -> bool {
    forall|c: int| 0 <= c < k ==> #[trigger] m[c][c] == T::zero_spec() || m[c][c] == T::one_spec()
}

/// What holds after forward elimination on the first `k` columns.
pub open spec fn forward_done<T: Scalar>(
    m: Seq<Seq<T>>,
    k: int,
    option: GaussEliminationOption,
) -> bool {
    &&& zero_below_diagonal(m, k)
    &&& option == GaussEliminationOption::PrepareReduce ==> unit_or_zero_diagonal(m, k)
}

proof fn lemma_forward_step_done<T: Scalar>(
    s: Seq<Seq<T>>,
    c: int,
    option: GaussEliminationOption,
    w: int,
)
    requires
        field_laws::<T>(),
        has_width(s, w),
        s.len() <= w,
        0 <= c < s.len(),
        forward_done(s, c, option),
    ensures
        forward_done(forward_step(s, c, option), c + 1, option),
{
    let n = s.len() as int;
    lemma_column_pivot(s, c, c);
    match column_pivot(s, c, c) {
        None => {},
        Some(i) => {
            let e = eliminate_below(s, i, c);
            let t = swap_rows(e, i, c);
            assert forall|r: int, k: int| 0 <= k < c && k < r < n implies #[trigger] t[r][k]
                == T::zero_spec() by {
                let x = if r == c {
                    i
                } else if r == i {
                    c
                } else {
                    r
                };
                assert(t[r] == e[x]);
                assert(s[x][k] == T::zero_spec());
            }
            assert forall|r: int| c < r < n implies #[trigger] t[r][c] == T::zero_spec() by {
                if r == i {
                    assert(t[r] == s[c]);
                } else if r > i {
                    assert(s[i][c] != T::zero_spec());
                } else {
                    assert(t[r] == s[r]);
                }
            }
            assert(zero_below_diagonal(t, c + 1));
            if option == GaussEliminationOption::PrepareReduce {
                let u = normalize_row(t, c);
                assert(t[c] == s[i]);
                assert forall|r: int, k: int| 0 <= k < c + 1 && k < r < n implies #[trigger] u[r][k]
                    == T::zero_spec() by {
                    assert(t[r][k] == T::zero_spec());
                }
                assert forall|k: int| 0 <= k < c + 1 implies #[trigger] u[k][k] == T::zero_spec()
                    || u[k][k] == T::one_spec() by {
                    if k < c {
                        assert(u[k] == s[k]);
                    }
                }
            }
        },
    }
}

proof fn lemma_forward_upto_done<T: Scalar>(
    m: Seq<Seq<T>>,
    k: nat,
    option: GaussEliminationOption,
    w: int,
)
    requires
        field_laws::<T>(),
        has_width(m, w),
        m.len() <= w,
        k <= m.len(),
    ensures
        forward_done(forward_upto(m, k, option), k as int, option),
    decreases k,
{
    if k > 0 {
        lemma_forward_upto_done(m, (k - 1) as nat, option, w);
        lemma_forward_upto_shape(m, (k - 1) as nat, option, w);
        lemma_forward_step_done(forward_upto(m, (k - 1) as nat, option), k - 1, option, w);
    }
}

/// After forward elimination, in either mode, every entry below the
/// diagonal is zero; in particular each pivot, once moved to `(c, c)`, has
/// only zeros below it.
pub proof fn lemma_echelon_zeros_below_pivots<T: Scalar>(
    m: Seq<Seq<T>>,
    option: GaussEliminationOption,
)
    requires
        field_laws::<T>(),
        well_shaped(m),
    ensures
        forall|r: int, c: int|
            0 <= c < r < m.len() ==> #[trigger] forward_elimination(m, option)[r][c]
                == T::zero_spec(),
{
    lemma_forward_upto_done(m, m.len(), option, m[0].len() as int);
    lemma_forward_upto_shape(m, m.len(), option, m[0].len() as int);
}

/// After forward elimination with `PrepareReduce`, every pivot, that is
/// every nonzero diagonal entry, is exactly one.
pub proof fn lemma_prepared_pivots_are_one<T: Scalar>(m: Seq<Seq<T>>)
    requires
        field_laws::<T>(),
        well_shaped(m),
    ensures
        forall|c: int|
            0 <= c < m.len() && #[trigger] forward_elimination(
                m,
                GaussEliminationOption::PrepareReduce,
            )[c][c] != T::zero_spec() ==> forward_elimination(
                m,
                GaussEliminationOption::PrepareReduce,
            )[c][c] == T::one_spec(),
{
    lemma_forward_upto_done(
        m,
        m.len(),
        GaussEliminationOption::PrepareReduce,
        m[0].len() as int,
    );
    lemma_forward_upto_shape(
        m,
        m.len(),
        GaussEliminationOption::PrepareReduce,
        m[0].len() as int,
    );
}

/// A column with only zeros on and below the diagonal is skipped: the step
/// for it divides nothing, swaps nothing and leaves the matrix as it was.
pub proof fn lemma_zero_column_skipped<T: Scalar>(
    m: Seq<Seq<T>>,
    c: int,
    option: GaussEliminationOption,
)
    requires
        0 <= c < m.len(),
        forall|r: int| c <= r < m.len() ==> #[trigger] m[r][c] == T::zero_spec(),
    ensures
        column_pivot(m, c, c) is None,
        forward_step(m, c, option) == m,
{
    lemma_column_pivot(m, c, c);
}

/// The square block of the first `n` columns, `n` the number of rows, is
/// the identity.
pub open spec fn identity_block<T: Scalar>(m: Seq<Seq<T>>) -> bool {
    forall|r: int, c: int|
        0 <= r < m.len() && 0 <= c < m.len() ==> #[trigger] m[r][c] == if r == c {
            T::one_spec()
        } else {
            T::zero_spec()
        }
}

/// Row-echelon form with every diagonal entry one.
pub open spec fn unit_echelon<T: Scalar>(m: Seq<Seq<T>>) -> bool {
    &&& zero_below_diagonal(m, m.len() as int)
    &&& forall|c: int| 0 <= c < m.len() ==> #[trigger] m[c][c] == T::one_spec()
}

/// Every entry above the diagonal in columns `d..n` is zero.
pub open spec fn zero_above_from<T: Scalar>(m: Seq<Seq<T>>, d: int) -> bool {
    forall|r: int, c: int| d <= c < m.len() && 0 <= r < c ==> #[trigger] m[r][c] == T::zero_spec()
}

proof fn lemma_back_step_clears<T: Scalar>(s: Seq<Seq<T>>, d: int, w: int)
    requires
        field_laws::<T>(),
        has_width(s, w),
        s.len() <= w,
        1 <= d < s.len(),
        unit_echelon(s),
        zero_above_from(s, d + 1),
    ensures
        back_step(s, d).len() == s.len(),
        has_width(back_step(s, d), w),
        unit_echelon(back_step(s, d)),
        zero_above_from(back_step(s, d), d),
{
    let n = s.len() as int;
    lemma_back_step_shape(s, d, w);
    assert(s[d][d] == T::one_spec());
    assert(row_pivot(s[d], d, n) == Some(d));
    let g = back_step(s, d);
    assert(g == clear_between(s, d, d, 0));
    assert forall|r: int, c: int| d <= c < n && 0 <= r < c implies #[trigger] g[r][c]
        == T::zero_spec() by {
        if r < d {
            if c > d {
                assert(s[d][c] == T::zero_spec());
                assert(s[r][c] == T::zero_spec());
            } else {
                assert(T::mul_spec(s[r][d], T::one_spec()) == s[r][d]);
            }
        }
    }
    assert forall|r: int, c: int| 0 <= c < n && c < r < n implies #[trigger] g[r][c]
        == T::zero_spec() by {
        assert(s[r][c] == T::zero_spec());
    }
    assert forall|c: int| 0 <= c < n implies #[trigger] g[c][c] == T::one_spec() by {
        assert(s[c][c] == T::one_spec());
    }
}

proof fn lemma_back_down_clears<T: Scalar>(s: Seq<Seq<T>>, d: nat, w: int)
    requires
        field_laws::<T>(),
        has_width(s, w),
        s.len() <= w,
        d < s.len(),
        unit_echelon(s),
        zero_above_from(s, d as int + 1),
    ensures
        back_down(s, d).len() == s.len(),
        unit_echelon(back_down(s, d)),
        zero_above_from(back_down(s, d), 1),
    decreases d,
{
    if d > 0 {
        lemma_back_step_clears(s, d as int, w);
        lemma_back_down_clears(back_step(s, d as int), (d - 1) as nat, w);
    }
}

/// The result of forward elimination with `PrepareReduce`, when it found a
/// pivot in every column.
proof fn lemma_full_rank_forward<T: Scalar>(m: Seq<Seq<T>>)
    requires
        field_laws::<T>(),
        well_shaped(m),
        forall|c: int|
            0 <= c < m.len() ==> #[trigger] forward_elimination(
                m,
                GaussEliminationOption::PrepareReduce,
            )[c][c] != T::zero_spec(),
    ensures
        forward_elimination(m, GaussEliminationOption::PrepareReduce).len() == m.len(),
        has_width(forward_elimination(m, GaussEliminationOption::PrepareReduce), m[0].len() as int),
        unit_echelon(forward_elimination(m, GaussEliminationOption::PrepareReduce)),
{
    let p = GaussEliminationOption::PrepareReduce;
    lemma_forward_upto_done(m, m.len(), p, m[0].len() as int);
    lemma_forward_upto_shape(m, m.len(), p, m[0].len() as int);
}

/// Gauss-Jordan reduction of a matrix whose forward pass finds a pivot in
/// every column, that is whose leading square block is nonsingular, leaves
/// that block the identity: each pivot column holds a single one, in the
/// pivot's own row, and zeros elsewhere.
pub proof fn lemma_gauss_jordan_full_rank<T: Scalar>(m: Seq<Seq<T>>)
    requires
        field_laws::<T>(),
        well_shaped(m),
        forall|c: int|
            0 <= c < m.len() ==> #[trigger] forward_elimination(
                m,
                GaussEliminationOption::PrepareReduce,
            )[c][c] != T::zero_spec(),
    ensures
        gauss_jordan(m).len() == m.len(),
        has_width(gauss_jordan(m), m[0].len() as int),
        identity_block(gauss_jordan(m)),
{
    let e = forward_elimination(m, GaussEliminationOption::PrepareReduce);
    let w = m[0].len() as int;
    lemma_full_rank_forward(m);
    lemma_back_down_clears(e, (e.len() - 1) as nat, w);
    lemma_back_down_shape(e, (e.len() - 1) as nat, w);
    let g = gauss_jordan(m);
    assert forall|r: int, c: int| 0 <= r < g.len() && 0 <= c < g.len() implies #[trigger] g[r][c]
        == if r == c {
        T::one_spec()
    } else {
        T::zero_spec()
    } by {
        if r < c {
            assert(zero_above_from(g, 1));
        }
    }
}

proof fn lemma_back_down_shape<T: Scalar>(s: Seq<Seq<T>>, d: nat, w: int)
    requires
        has_width(s, w),
    ensures
        back_down(s, d).len() == s.len(),
        has_width(back_down(s, d), w),
    decreases d,
{
    if d > 0 {
        lemma_back_step_shape(s, d as int, w);
        lemma_back_down_shape(back_step(s, d as int), (d - 1) as nat, w);
    }
}

proof fn lemma_forward_step_fixes_identity<T: Scalar>(x: Seq<Seq<T>>, c: int, w: int)
    requires
        field_laws::<T>(),
        has_width(x, w),
        x.len() <= w,
        0 <= c < x.len(),
        identity_block(x),
    ensures
        forward_step(x, c, GaussEliminationOption::PrepareReduce) == x,
{
    let n = x.len() as int;
    assert(x[c][c] == T::one_spec());
    assert(column_pivot(x, c, c) == Some(c));
    let e = eliminate_below(x, c, c);
    assert forall|r: int| 0 <= r < n implies #[trigger] e[r] == x[r] by {
        if r > c {
            assert(x[r][c] == T::zero_spec());
            assert(e[r] =~= x[r]);
        }
    }
    assert(e =~= x);
    assert(swap_rows(e, c, c) =~= x);
    assert(normalize_row(x, c)[c] =~= x[c]);
    assert(normalize_row(x, c) =~= x);
}

proof fn lemma_forward_upto_fixes_identity<T: Scalar>(x: Seq<Seq<T>>, k: nat, w: int)
    requires
        field_laws::<T>(),
        has_width(x, w),
        x.len() <= w,
        k <= x.len(),
        identity_block(x),
    ensures
        forward_upto(x, k, GaussEliminationOption::PrepareReduce) == x,
    decreases k,
{
    if k > 0 {
        lemma_forward_upto_fixes_identity(x, (k - 1) as nat, w);
        lemma_forward_step_fixes_identity(x, k - 1, w);
    }
}

proof fn lemma_back_down_fixes_identity<T: Scalar>(x: Seq<Seq<T>>, d: nat, w: int)
    requires
        field_laws::<T>(),
        has_width(x, w),
        x.len() <= w,
        d < x.len(),
        identity_block(x),
    ensures
        back_down(x, d) == x,
    decreases d,
{
    if d > 0 {
        let n = x.len() as int;
        let di = d as int;
        assert(x[di][di] == T::one_spec());
        assert(row_pivot(x[di], di, n) == Some(di));
        let g = back_step(x, di);
        assert forall|r: int| 0 <= r < n implies #[trigger] g[r] == x[r] by {
            if r < di {
                assert(x[r][di] == T::zero_spec());
                assert(g[r] =~= x[r]);
            }
        }
        assert(g =~= x);
        lemma_back_down_fixes_identity(x, (d - 1) as nat, w);
    }
}

/// Gauss-Jordan reduction leaves a matrix whose leading square block is
/// the identity as it is.
pub proof fn lemma_gauss_jordan_fixes_identity<T: Scalar>(x: Seq<Seq<T>>)
    requires
        field_laws::<T>(),
        well_shaped(x),
        identity_block(x),
    ensures
        gauss_jordan(x) == x,
{
    let w = x[0].len() as int;
    lemma_forward_upto_fixes_identity(x, x.len(), w);
    lemma_back_down_fixes_identity(x, (x.len() - 1) as nat, w);
}

/// Reducing again what Gauss-Jordan reduction produced from a matrix whose
/// forward pass finds a pivot in every column changes nothing.
pub proof fn lemma_gauss_jordan_idempotent<T: Scalar>(m: Seq<Seq<T>>)
    requires
        field_laws::<T>(),
        well_shaped(m),
        forall|c: int|
            0 <= c < m.len() ==> #[trigger] forward_elimination(
                m,
                GaussEliminationOption::PrepareReduce,
            )[c][c] != T::zero_spec(),
    ensures
        well_shaped(gauss_jordan(m)),
        gauss_jordan(gauss_jordan(m)) == gauss_jordan(m),
{
    lemma_gauss_jordan_full_rank(m);
    let g = gauss_jordan(m);
    assert(g[0].len() == m[0].len());
    lemma_gauss_jordan_fixes_identity(g);
}

} // verus!
