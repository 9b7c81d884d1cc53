use gauss_jordan::{
    gauss_elimination_generic, gauss_jordan_elimination_generic, EliminationError,
    GaussEliminationOption, Gf2, Scalar,
};
use num::rational::Rational64;
use num::traits::Zero;

#[derive(Clone, Copy, Debug, PartialEq)]
struct Real(f64);

impl Scalar for Real {
    fn zero_spec() -> Self {
        Real(0.0)
    }
    fn one_spec() -> Self {
        Real(1.0)
    }
    fn add_spec(a: Self, b: Self) -> Self {
        Real(a.0 + b.0)
    }
    fn sub_spec(a: Self, b: Self) -> Self {
        Real(a.0 - b.0)
    }
    fn mul_spec(a: Self, b: Self) -> Self {
        Real(a.0 * b.0)
    }
    fn div_spec(a: Self, b: Self) -> Self {
        Real(a.0 / b.0)
    }
    fn zero() -> Self {
        Self::zero_spec()
    }
    fn one() -> Self {
        Self::one_spec()
    }
    fn plus(&self, other: &Self) -> Self {
        Self::add_spec(*self, *other)
    }
    fn minus(&self, other: &Self) -> Self {
        Self::sub_spec(*self, *other)
    }
    fn times(&self, other: &Self) -> Self {
        Self::mul_spec(*self, *other)
    }
    fn divide(&self, other: &Self) -> Self {
        Self::div_spec(*self, *other)
    }
    fn is_zero(&self) -> bool {
        self.0 == 0.0
    }
}

#[derive(Clone, Copy, Debug, PartialEq)]
struct Single(f32);

impl Scalar for Single {
    fn zero_spec() -> Self {
        Single(0.0)
    }
    fn one_spec() -> Self {
        Single(1.0)
    }
    fn add_spec(a: Self, b: Self) -> Self {
        Single(a.0 + b.0)
    }
    fn sub_spec(a: Self, b: Self) -> Self {
        Single(a.0 - b.0)
    }
    fn mul_spec(a: Self, b: Self) -> Self {
        Single(a.0 * b.0)
    }
    fn div_spec(a: Self, b: Self) -> Self {
        Single(a.0 / b.0)
    }
    fn zero() -> Self {
        Self::zero_spec()
    }
    fn one() -> Self {
        Self::one_spec()
    }
    fn plus(&self, other: &Self) -> Self {
        Self::add_spec(*self, *other)
    }
    fn minus(&self, other: &Self) -> Self {
        Self::sub_spec(*self, *other)
    }
    fn times(&self, other: &Self) -> Self {
        Self::mul_spec(*self, *other)
    }
    fn divide(&self, other: &Self) -> Self {
        Self::div_spec(*self, *other)
    }
    fn is_zero(&self) -> bool {
        self.0 == 0.0
    }
}

#[derive(Clone, Copy, Debug, PartialEq)]
struct Exact(Rational64);

impl Scalar for Exact {
    fn zero_spec() -> Self {
        Exact(Rational64::from_integer(0))
    }
    fn one_spec() -> Self {
        Exact(Rational64::from_integer(1))
    }
    fn add_spec(a: Self, b: Self) -> Self {
        Exact(a.0 + b.0)
    }
    fn sub_spec(a: Self, b: Self) -> Self {
        Exact(a.0 - b.0)
    }
    fn mul_spec(a: Self, b: Self) -> Self {
        Exact(a.0 * b.0)
    }
    fn div_spec(a: Self, b: Self) -> Self {
        Exact(a.0 / b.0)
    }
    fn zero() -> Self {
        Self::zero_spec()
    }
    fn one() -> Self {
        Self::one_spec()
    }
    fn plus(&self, other: &Self) -> Self {
        Self::add_spec(*self, *other)
    }
    fn minus(&self, other: &Self) -> Self {
        Self::sub_spec(*self, *other)
    }
    fn times(&self, other: &Self) -> Self {
        Self::mul_spec(*self, *other)
    }
    fn divide(&self, other: &Self) -> Self {
        Self::div_spec(*self, *other)
    }
    fn is_zero(&self) -> bool {
        self.0.is_zero()
    }
}

fn reals(rows: Vec<Vec<f64>>) -> Vec<Vec<Real>> {
    rows.into_iter().map(|r| r.into_iter().map(Real).collect()).collect()
}

fn from_reals(m: &[Vec<Real>]) -> Vec<Vec<f64>> {
    m.iter().map(|r| r.iter().map(|x| x.0).collect()).collect()
}

fn singles(rows: Vec<Vec<f32>>) -> Vec<Vec<Single>> {
    rows.into_iter().map(|r| r.into_iter().map(Single).collect()).collect()
}

fn from_singles(m: &[Vec<Single>]) -> Vec<Vec<f32>> {
    m.iter().map(|r| r.iter().map(|x| x.0).collect()).collect()
}

fn exact(rows: Vec<Vec<i64>>) -> Vec<Vec<Exact>> {
    rows.into_iter()
        .map(|r| r.into_iter().map(|x| Exact(Rational64::from_integer(x))).collect())
        .collect()
}

fn ratio(n: i64, d: i64) -> Exact {
    Exact(Rational64::new(n, d))
}

fn sample() -> Vec<Vec<f64>> {
    vec![
        vec![1.0, 2.0, 1.0, 10.0],
        vec![2.0, 3.0, 2.0, 12.0],
        vec![3.0, 1.0, 4.0, 11.0],
    ]
}

#[test]
fn test_gauss_elimination_echelon() {
    let mut matrix = singles(vec![
        vec![1.0, 2.0, 1.0, 10.0],
        vec![2.0, 3.0, 2.0, 12.0],
        vec![3.0, 1.0, 4.0, 11.0],
    ]);
    let r = gauss_elimination_generic(&mut matrix, GaussEliminationOption::JustEchelon);
    assert_eq!(r, Ok(()));
    assert_eq!(
        from_singles(&matrix),
        vec![
            vec![1.0, 2.0, 1.0, 10.0],
            vec![0.0, -1.0, 0.0, -8.0],
            vec![0.0, 0.0, 1.0, 21.0],
        ]
    );
}

#[test]
fn test_gauss_elimination_reduce() {
    let mut matrix = singles(vec![
        vec![1.0, 2.0, 1.0, 10.0],
        vec![2.0, 3.0, 2.0, 12.0],
        vec![3.0, 1.0, 4.0, 11.0],
    ]);
    let r = gauss_elimination_generic(&mut matrix, GaussEliminationOption::PrepareReduce);
    assert_eq!(r, Ok(()));
    assert_eq!(
        from_singles(&matrix),
        vec![
            vec![1.0, 2.0, 1.0, 10.0],
            vec![0.0, 1.0, 0.0, 8.0],
            vec![0.0, 0.0, 1.0, 21.0],
        ]
    );
}

#[test]
fn test_gauss_jordan_elimination() {
    let mut matrix = singles(vec![
        vec![1.0, 2.0, 1.0, 10.0],
        vec![2.0, 3.0, 2.0, 12.0],
        vec![3.0, 1.0, 4.0, 11.0],
    ]);
    let r = gauss_jordan_elimination_generic(&mut matrix);
    assert_eq!(r, Ok(()));
    assert_eq!(
        from_singles(&matrix),
        vec![
            vec![1.0, 0.0, 0.0, -27.0],
            vec![0.0, 1.0, 0.0, 8.0],
            vec![0.0, 0.0, 1.0, 21.0],
        ]
    );
}

#[test]
fn test_gauss_elimination_zero() {
    let mut matrix = singles(vec![
        vec![1.0, 2.0, 1.0, 10.0],
        vec![0.0, 0.0, 2.0, 12.0],
        vec![3.0, 1.0, 4.0, 11.0],
    ]);
    let r = gauss_elimination_generic(&mut matrix, GaussEliminationOption::JustEchelon);
    assert_eq!(r, Ok(()));
    assert_eq!(
        from_singles(&matrix),
        vec![
            vec![1.0, 2.0, 1.0, 10.0],
            vec![0.0, -5.0, 1.0, -19.0],
            vec![0.0, 0.0, 2.0, 12.0],
        ]
    );
}

#[test]
fn test_gauss_elimination_echelon_generic() {
    let mut matrix = reals(sample());
    let r = gauss_elimination_generic::<Real>(&mut matrix, GaussEliminationOption::JustEchelon);
    assert_eq!(r, Ok(()));
    assert_eq!(
        from_reals(&matrix),
        vec![
            vec![1.0, 2.0, 1.0, 10.0],
            vec![0.0, -1.0, 0.0, -8.0],
            vec![0.0, 0.0, 1.0, 21.0],
        ]
    );
}

#[test]
fn test_gauss_elimination_reduce_generic() {
    let mut matrix = reals(sample());
    let r = gauss_elimination_generic::<Real>(&mut matrix, GaussEliminationOption::PrepareReduce);
    assert_eq!(r, Ok(()));
    assert_eq!(
        from_reals(&matrix),
        vec![
            vec![1.0, 2.0, 1.0, 10.0],
            vec![0.0, 1.0, 0.0, 8.0],
            vec![0.0, 0.0, 1.0, 21.0],
        ]
    );
}

#[test]
fn test_gauss_jordan_elimination_generic() {
    let mut matrix = reals(sample());
    let r = gauss_jordan_elimination_generic::<Real>(&mut matrix);
    assert_eq!(r, Ok(()));
    assert_eq!(
        from_reals(&matrix),
        vec![
            vec![1.0, 0.0, 0.0, -27.0],
            vec![0.0, 1.0, 0.0, 8.0],
            vec![0.0, 0.0, 1.0, 21.0],
        ]
    );
}

#[test]
fn test_gauss_elimination_zero_generic() {
    let mut matrix = reals(vec![
        vec![1.0, 2.0, 1.0, 10.0],
        vec![0.0, 0.0, 2.0, 12.0],
        vec![3.0, 1.0, 4.0, 11.0],
    ]);
    let r = gauss_elimination_generic::<Real>(&mut matrix, GaussEliminationOption::JustEchelon);
    assert_eq!(r, Ok(()));
    assert_eq!(
        from_reals(&matrix),
        vec![
            vec![1.0, 2.0, 1.0, 10.0],
            vec![0.0, -5.0, 1.0, -19.0],
            vec![0.0, 0.0, 2.0, 12.0],
        ]
    );
}

#[test]
fn empty_matrix_is_refused() {
    let mut matrix: Vec<Vec<Real>> = Vec::new();
    assert_eq!(
        gauss_elimination_generic(&mut matrix, GaussEliminationOption::JustEchelon),
        Err(EliminationError::EmptyMatrix)
    );
    assert_eq!(gauss_jordan_elimination_generic(&mut matrix), Err(EliminationError::EmptyMatrix));
    assert!(matrix.is_empty());
}

#[test]
fn ragged_matrix_is_refused_untouched() {
    let rows = vec![vec![2.0, 4.0, 1.0], vec![1.0, 3.0], vec![5.0, 1.0, 1.0]];
    let mut matrix = reals(rows.clone());
    assert_eq!(
        gauss_elimination_generic(&mut matrix, GaussEliminationOption::PrepareReduce),
        Err(EliminationError::RaggedMatrix)
    );
    assert_eq!(from_reals(&matrix), rows);
    assert_eq!(gauss_jordan_elimination_generic(&mut matrix), Err(EliminationError::RaggedMatrix));
    assert_eq!(from_reals(&matrix), rows);
}

#[test]
fn narrow_matrix_is_refused_untouched() {
    let rows = vec![vec![2.0], vec![4.0]];
    let mut matrix = reals(rows.clone());
    assert_eq!(
        gauss_elimination_generic(&mut matrix, GaussEliminationOption::JustEchelon),
        Err(EliminationError::NarrowMatrix)
    );
    assert_eq!(gauss_jordan_elimination_generic(&mut matrix), Err(EliminationError::NarrowMatrix));
    assert_eq!(from_reals(&matrix), rows);
}

#[test]
fn single_entry_matrix() {
    let mut matrix = exact(vec![vec![4]]);
    assert_eq!(gauss_jordan_elimination_generic(&mut matrix), Ok(()));
    assert_eq!(matrix, exact(vec![vec![1]]));
}

#[test]
fn echelon_has_zeros_below_each_pivot() {
    let mut matrix = exact(vec![vec![2, 1, -1, 8], vec![-3, -1, 2, -11], vec![-2, 1, 2, -3]]);
    assert_eq!(gauss_elimination_generic(&mut matrix, GaussEliminationOption::JustEchelon), Ok(()));
    for c in 0..3 {
        for r in c + 1..3 {
            assert!(matrix[r][c].is_zero());
        }
    }
    assert_eq!(
        matrix,
        vec![
            vec![ratio(2, 1), ratio(1, 1), ratio(-1, 1), ratio(8, 1)],
            vec![ratio(0, 1), ratio(1, 2), ratio(1, 2), ratio(1, 1)],
            vec![ratio(0, 1), ratio(0, 1), ratio(-1, 1), ratio(1, 1)],
        ]
    );
}

#[test]
fn prepared_pivots_are_exactly_one() {
    let mut matrix = exact(vec![vec![2, 1, -1, 8], vec![-3, -1, 2, -11], vec![-2, 1, 2, -3]]);
    assert_eq!(gauss_elimination_generic(&mut matrix, GaussEliminationOption::PrepareReduce), Ok(()));
    for c in 0..3 {
        assert_eq!(matrix[c][c], ratio(1, 1));
    }
    assert_eq!(
        matrix,
        vec![
            vec![ratio(1, 1), ratio(1, 2), ratio(-1, 2), ratio(4, 1)],
            vec![ratio(0, 1), ratio(1, 1), ratio(1, 1), ratio(2, 1)],
            vec![ratio(0, 1), ratio(0, 1), ratio(1, 1), ratio(-1, 1)],
        ]
    );
}

#[test]
fn gauss_jordan_solves_exactly() {
    let mut matrix = exact(vec![vec![2, 1, -1, 8], vec![-3, -1, 2, -11], vec![-2, 1, 2, -3]]);
    assert_eq!(gauss_jordan_elimination_generic(&mut matrix), Ok(()));
    assert_eq!(matrix, exact(vec![vec![1, 0, 0, 2], vec![0, 1, 0, 3], vec![0, 0, 1, -1]]));
}

#[test]
fn gauss_jordan_sample_exactly() {
    let mut matrix = exact(vec![vec![1, 2, 1, 10], vec![2, 3, 2, 12], vec![3, 1, 4, 11]]);
    assert_eq!(gauss_jordan_elimination_generic(&mut matrix), Ok(()));
    assert_eq!(matrix, exact(vec![vec![1, 0, 0, -27], vec![0, 1, 0, 8], vec![0, 0, 1, 21]]));
}

#[test]
fn gauss_jordan_twice_changes_nothing() {
    let mut matrix = exact(vec![vec![0, 2, 4, 1], vec![3, 1, 1, 2], vec![1, 5, 2, 7]]);
    assert_eq!(gauss_jordan_elimination_generic(&mut matrix), Ok(()));
    let once = matrix.clone();
    assert_eq!(gauss_jordan_elimination_generic(&mut matrix), Ok(()));
    assert_eq!(matrix, once);
    for r in 0..3 {
        for c in 0..3 {
            assert_eq!(matrix[r][c], if r == c { ratio(1, 1) } else { ratio(0, 1) });
        }
    }
}

#[test]
fn zero_column_is_skipped_without_swap() {
    let start = vec![vec![0, 1, 2], vec![0, 2, 5]];
    let mut matrix = exact(start.clone());
    assert_eq!(gauss_elimination_generic(&mut matrix, GaussEliminationOption::JustEchelon), Ok(()));
    assert_eq!(matrix, exact(vec![vec![0, 1, 2], vec![0, 2, 5]]));
}

#[test]
fn zero_column_then_pivot_below() {
    let mut matrix = exact(vec![vec![0, 0, 1], vec![0, 3, 6], vec![0, 1, 4]]);
    assert_eq!(gauss_elimination_generic(&mut matrix, GaussEliminationOption::PrepareReduce), Ok(()));
    assert_eq!(matrix, exact(vec![vec![0, 0, 1], vec![0, 1, 2], vec![0, 0, 1]]));
}

#[test]
fn back_pivot_search_stops_at_row_count() {
    let mut matrix = exact(vec![vec![1, 1, 5], vec![0, 0, 3]]);
    assert_eq!(gauss_jordan_elimination_generic(&mut matrix), Ok(()));
    assert_eq!(matrix, exact(vec![vec![1, 1, 5], vec![0, 0, 3]]));
}

#[test]
fn rank_deficient_back_pivot_off_diagonal() {
    let mut matrix = exact(vec![vec![1, 0, 1], vec![0, 0, 2], vec![0, 0, 0]]);
    assert_eq!(gauss_jordan_elimination_generic(&mut matrix), Ok(()));
    assert_eq!(matrix, exact(vec![vec![1, 0, -1], vec![0, 0, 2], vec![0, 0, 0]]));
}

fn bits(rows: Vec<Vec<u8>>) -> Vec<Vec<Gf2>> {
    rows.into_iter().map(|r| r.into_iter().map(|x| Gf2(x == 1)).collect()).collect()
}

#[test]
fn gf2_arithmetic() {
    let (o, l) = (Gf2(false), Gf2(true));
    assert_eq!(l.plus(&l), o);
    assert_eq!(l.minus(&o), l);
    assert_eq!(l.times(&o), o);
    assert_eq!(l.divide(&l), l);
    assert_eq!(o.divide(&l), o);
    assert!(o.is_zero());
    assert!(!l.is_zero());
    assert_eq!(Gf2::zero(), o);
    assert_eq!(Gf2::one(), l);
}

#[test]
fn gf2_echelon_of_dependent_rows() {
    let mut matrix = bits(vec![vec![1, 1, 0, 1], vec![1, 0, 1, 0], vec![0, 1, 1, 1]]);
    assert_eq!(gauss_elimination_generic(&mut matrix, GaussEliminationOption::JustEchelon), Ok(()));
    assert_eq!(matrix, bits(vec![vec![1, 1, 0, 1], vec![0, 1, 1, 1], vec![0, 0, 0, 0]]));
    assert_eq!(gauss_jordan_elimination_generic(&mut matrix), Ok(()));
    assert_eq!(matrix, bits(vec![vec![1, 0, 1, 0], vec![0, 1, 1, 1], vec![0, 0, 0, 0]]));
}

#[test]
fn gf2_gauss_jordan_solves_xor_system() {
    let mut matrix = bits(vec![vec![0, 1, 1, 1], vec![1, 1, 0, 0], vec![1, 0, 0, 1]]);
    assert_eq!(gauss_jordan_elimination_generic(&mut matrix), Ok(()));
    assert_eq!(matrix, bits(vec![vec![1, 0, 0, 1], vec![0, 1, 0, 1], vec![0, 0, 1, 0]]));
    assert_eq!(gauss_jordan_elimination_generic(&mut matrix), Ok(()));
    assert_eq!(matrix, bits(vec![vec![1, 0, 0, 1], vec![0, 1, 0, 1], vec![0, 0, 1, 0]]));
}
