use matmul_engine::engine::{multiply, multiply_with_thresholds, Algorithm, MatrixError, Thresholds};
use matmul_engine::matrix::{
    add_matrices, create_zero_matrix, get_submatrix, set_submatrix, subtract_matrices, Matrix,
};
use matmul_engine::multiply::{
    divide_conquer_multiply, divide_conquer_with_threshold, iterative_multiply, strassen_multiply,
    strassen_with_threshold,
};
use matmul_engine::parallel::{
    divide_conquer_parallel, divide_conquer_parallel_with_threshold, strassen_parallel,
    strassen_parallel_with_threshold,
};

const ALL: [Algorithm; 5] = [
    Algorithm::Iterative,
    Algorithm::DivideConquerSequential,
    Algorithm::DivideConquerParallel,
    Algorithm::StrassenSequential,
    Algorithm::StrassenParallel,
];

fn m(rows: Vec<Vec<i64>>) -> Matrix {
    Matrix { rows }
}

/// A reproducible matrix with entries in 0..10.
fn pseudo_random(n: usize, seed: u64) -> Matrix {
    let mut state = seed;
    let mut rows = Vec::new();
    for _ in 0..n {
        let mut row = Vec::new();
        for _ in 0..n {
            state = state.wrapping_mul(6364136223846793005).wrapping_add(1442695040888963407);
            row.push(((state >> 33) % 10) as i64);
        }
        rows.push(row);
    }
    m(rows)
}

fn identity(n: usize) -> Matrix {
    m((0..n).map(|i| (0..n).map(|j| if i == j { 1 } else { 0 }).collect()).collect())
}

fn naive(a: &Matrix, b: &Matrix) -> Vec<Vec<i64>> {
    let n = a.rows.len();
    let mut c = vec![vec![0i64; n]; n];
    for i in 0..n {
        for j in 0..n {
            for k in 0..n {
                c[i][j] += a.rows[i][k] * b.rows[k][j];
            }
        }
    }
    c
}

#[test]
fn two_by_two_literal_under_every_algorithm() {
    let a = m(vec![vec![1, 2], vec![3, 4]]);
    let b = m(vec![vec![5, 6], vec![7, 8]]);
    let want = vec![vec![19, 22], vec![43, 50]];
    for alg in ALL {
        let c = multiply(alg, &a, &b).unwrap();
        assert_eq!(c.rows, want, "{:?}", alg);
    }
    assert_eq!(iterative_multiply(&a, &b).rows, want);
    assert_eq!(divide_conquer_multiply(&a, &b).rows, want);
    assert_eq!(divide_conquer_parallel(&a, &b).rows, want);
    assert_eq!(strassen_multiply(&a, &b).rows, want);
    assert_eq!(strassen_parallel(&a, &b).rows, want);
}

#[test]
fn identity_times_matrix_with_one_level_of_recursion() {
    let a = identity(4);
    let b = m(vec![
        vec![3, -1, 4, 1],
        vec![5, 9, -2, 6],
        vec![5, 3, 5, -8],
        vec![9, 7, 9, 3],
    ]);
    assert_eq!(divide_conquer_with_threshold(&a, &b, 2).rows, b.rows);
    assert_eq!(divide_conquer_parallel_with_threshold(&a, &b, 2).rows, b.rows);
    assert_eq!(strassen_with_threshold(&a, &b, 2).rows, b.rows);
    assert_eq!(strassen_parallel_with_threshold(&a, &b, 2).rows, b.rows);
    let t = Thresholds { sequential: 2, parallel: 2 };
    for alg in ALL {
        assert_eq!(multiply_with_thresholds(alg, &a, &b, t).unwrap().rows, b.rows);
    }
}

#[test]
fn mismatched_dimensions_are_rejected() {
    let a = identity(4);
    let b = identity(3);
    for alg in ALL {
        assert_eq!(multiply(alg, &a, &b).err(), Some(MatrixError::DimensionMismatch));
    }
}

#[test]
fn ragged_operand_is_rejected() {
    let a = m(vec![vec![1, 2], vec![3]]);
    let b = identity(2);
    assert_eq!(multiply(Algorithm::Iterative, &a, &b).err(), Some(MatrixError::DimensionMismatch));
    assert_eq!(multiply(Algorithm::Iterative, &b, &a).err(), Some(MatrixError::DimensionMismatch));
}

#[test]
fn odd_dimension_above_base_case_is_malformed() {
    let a = pseudo_random(6, 1);
    let b = pseudo_random(6, 2);
    let t = Thresholds { sequential: 2, parallel: 2 };
    assert_eq!(
        multiply_with_thresholds(Algorithm::StrassenSequential, &a, &b, t).err(),
        Some(MatrixError::MalformedRecursionInput)
    );
    assert_eq!(
        multiply_with_thresholds(Algorithm::DivideConquerParallel, &a, &b, t).err(),
        Some(MatrixError::MalformedRecursionInput)
    );
    // The iterative algorithm takes any size, and 6 is below the default base cases.
    assert_eq!(multiply_with_thresholds(Algorithm::Iterative, &a, &b, t).unwrap().rows, naive(&a, &b));
    assert_eq!(multiply(Algorithm::StrassenSequential, &a, &b).unwrap().rows, naive(&a, &b));
}

#[test]
fn entries_too_large_are_rejected() {
    let a = m(vec![vec![i64::MAX, 0], vec![0, 1]]);
    let b = identity(2);
    for alg in ALL {
        assert_eq!(multiply(alg, &a, &b).err(), Some(MatrixError::EntriesTooLarge));
    }
    // The bound is 4 * n * n * x * y <= i64::MAX.
    let limit = i64::MAX / 16;
    let ok = m(vec![vec![limit, 0], vec![0, 1]]);
    assert_eq!(multiply(Algorithm::StrassenSequential, &ok, &b).unwrap().rows, ok.rows);
    let over = m(vec![vec![limit + 1, 0], vec![0, 1]]);
    assert_eq!(multiply(Algorithm::Iterative, &over, &b).err(), Some(MatrixError::EntriesTooLarge));
}

#[test]
fn empty_matrices_multiply_to_empty() {
    let e = m(vec![]);
    for alg in ALL {
        assert!(multiply(alg, &e, &e).unwrap().rows.is_empty());
    }
}

#[test]
fn all_algorithms_agree_with_low_thresholds() {
    let a = pseudo_random(16, 7);
    let b = pseudo_random(16, 11);
    let want = naive(&a, &b);
    let t = Thresholds { sequential: 2, parallel: 4 };
    for alg in ALL {
        assert_eq!(multiply_with_thresholds(alg, &a, &b, t).unwrap().rows, want, "{:?}", alg);
    }
}

#[test]
fn all_algorithms_agree_with_standard_thresholds() {
    let a = pseudo_random(256, 3);
    let b = pseudo_random(256, 5);
    let want = naive(&a, &b);
    for alg in ALL {
        assert_eq!(multiply(alg, &a, &b).unwrap().rows, want, "{:?}", alg);
    }
}

#[test]
fn negative_entries_multiply_exactly() {
    let a = m(vec![vec![-1, 2, 0, -3], vec![4, -5, 6, 0], vec![0, 7, -8, 9], vec![-2, 0, 1, -1]]);
    let b = m(vec![vec![2, 0, -1, 3], vec![-4, 1, 0, 2], vec![5, -3, 2, 0], vec![0, 6, -7, 1]]);
    let want = vec![
        vec![-10, -16, 22, -2],
        vec![58, -23, 8, 2],
        vec![-68, 85, -79, 23],
        vec![1, -9, 11, -7],
    ];
    assert_eq!(naive(&a, &b), want);
    let t = Thresholds { sequential: 1, parallel: 1 };
    for alg in ALL {
        assert_eq!(multiply_with_thresholds(alg, &a, &b, t).unwrap().rows, want, "{:?}", alg);
    }
}

#[test]
fn parallel_variants_are_deterministic() {
    let a = pseudo_random(32, 13);
    let b = pseudo_random(32, 17);
    let first_dc = divide_conquer_parallel_with_threshold(&a, &b, 4).rows;
    let first_st = strassen_parallel_with_threshold(&a, &b, 4).rows;
    for _ in 0..3 {
        assert_eq!(divide_conquer_parallel_with_threshold(&a, &b, 4).rows, first_dc);
        assert_eq!(strassen_parallel_with_threshold(&a, &b, 4).rows, first_st);
    }
    assert_eq!(first_dc, first_st);
}

#[test]
fn zero_and_identity_laws() {
    let a = pseudo_random(8, 23);
    let z = create_zero_matrix(8);
    let t = Thresholds { sequential: 2, parallel: 2 };
    for alg in ALL {
        assert_eq!(multiply_with_thresholds(alg, &a, &z, t).unwrap().rows, z.rows);
        assert_eq!(multiply_with_thresholds(alg, &z, &a, t).unwrap().rows, z.rows);
        assert_eq!(multiply_with_thresholds(alg, &identity(8), &a, t).unwrap().rows, a.rows);
    }
    assert_eq!(add_matrices(&a, &z).rows, a.rows);
    assert_eq!(subtract_matrices(&a, &a).rows, z.rows);
}

#[test]
fn add_and_subtract_entrywise() {
    let a = m(vec![vec![1, -2], vec![30, 4]]);
    let b = m(vec![vec![10, 20], vec![-3, 4]]);
    assert_eq!(add_matrices(&a, &b).rows, vec![vec![11, 18], vec![27, 8]]);
    assert_eq!(subtract_matrices(&a, &b).rows, vec![vec![-9, -22], vec![33, 0]]);
}

#[test]
fn zero_matrix_has_requested_size() {
    assert_eq!(create_zero_matrix(3).rows, vec![vec![0; 3]; 3]);
    assert!(create_zero_matrix(0).rows.is_empty());
}

#[test]
fn submatrix_extraction() {
    let a = m((0..4).map(|i| (0..4).map(|j| 10 * i + j).collect()).collect());
    assert_eq!(get_submatrix(&a, 0, 2, 2).rows, vec![vec![2, 3], vec![12, 13]]);
    assert_eq!(get_submatrix(&a, 1, 1, 3).rows, vec![vec![11, 12, 13], vec![21, 22, 23], vec![31, 32, 33]]);
}

#[test]
fn submatrix_insertion_touches_only_its_window() {
    let mut d = create_zero_matrix(3);
    let s = m(vec![vec![1, 2], vec![3, 4]]);
    set_submatrix(&mut d, &s, 1, 0);
    assert_eq!(d.rows, vec![vec![0, 0, 0], vec![1, 2, 0], vec![3, 4, 0]]);
}

#[test]
fn quadrants_round_trip() {
    let a = pseudo_random(8, 29);
    let q11 = get_submatrix(&a, 0, 0, 4);
    let q12 = get_submatrix(&a, 0, 4, 4);
    let q21 = get_submatrix(&a, 4, 0, 4);
    let q22 = get_submatrix(&a, 4, 4, 4);
    let mut d = create_zero_matrix(8);
    set_submatrix(&mut d, &q11, 0, 0);
    set_submatrix(&mut d, &q12, 0, 4);
    set_submatrix(&mut d, &q21, 4, 0);
    set_submatrix(&mut d, &q22, 4, 4);
    assert_eq!(d.rows, a.rows);
}
