use vstd::prelude::*;

use crate::matrix::{add_matrices, create_zero_matrix, get_submatrix, set_submatrix, subtract_matrices, Matrix};
use crate::model::{
    block, dot_from, halvable, is_square, lemma_block_within, lemma_dot_bound, lemma_fit_bounds, lemma_mul_abs,
    lemma_product_within, lemma_quadrant_product, lemma_quadrants_round_trip, lemma_shapes, lemma_strassen_quadrants,
    lemma_sum_fits, lemma_within_mono, mat_add, mat_mul, mat_sub, product_inputs, within, write_quadrants, zero_matrix,
};

verus! {

/// Size at or below which the sequential recursive algorithms multiply
/// directly.
pub const SEQUENTIAL_THRESHOLD: usize = 64;

/// Size at or below which the parallel recursive algorithms multiply
/// directly; coarser than the sequential one to bound task overhead.
pub const PARALLEL_THRESHOLD: usize = 128;

/// The conventional triple loop: row `i`, column `j`, then the inner index `k`
/// accumulated in increasing order.
pub fn iterative_multiply(a: &Matrix, b: &Matrix) -> (r: Matrix)
    requires
        product_inputs(a@, b@),
    ensures
        r@ == mat_mul(a@, b@),
{
    let n = a.rows.len();
    let ghost (x, y) = choose|x: int, y: int|
        1 <= x && 1 <= y && #[trigger] within(a@, x) && #[trigger] within(b@, y) && 4 * (a@.len() * a@.len()) * (x
            * y) <= i64::MAX;
    let ghost xy = x * y;
    proof {
        assert(xy >= 1 && n * xy <= i64::MAX) by (nonlinear_arith)
            requires
                1 <= x,
                1 <= y,
                xy == x * y,
                4 * (n * n) * xy <= i64::MAX,
        ;
    }
    let ghost want = mat_mul(a@, b@);
    let mut rows: Vec<Vec<i64>> = Vec::new();
    let mut i: usize = 0;
    while i < n
        invariant
            n == a@.len(),
            is_square(a@, n as nat),
            is_square(b@, n as nat),
            within(a@, x),
            within(b@, y),
            xy == x * y,
            xy >= 1,
            n * xy <= i64::MAX,
            want == mat_mul(a@, b@),
            i <= n,
            rows@.len() == i,
            forall|k: int| 0 <= k < i ==> (#[trigger] rows@[k])@.len() == n,
            forall|k: int, j: int| 0 <= k < i && 0 <= j < n ==> rows@[k]@[j] as int == want[k][j],
        decreases n - i,
    {
        let mut row: Vec<i64> = Vec::new();
        let mut j: usize = 0;
        while j < n
            invariant
                n == a@.len(),
                is_square(a@, n as nat),
                is_square(b@, n as nat),
                within(a@, x),
                within(b@, y),
                xy == x * y,
                xy >= 1,
                n * xy <= i64::MAX,
                want == mat_mul(a@, b@),
                i < n,
                j <= n,
                row@.len() == j,
                forall|t: int| 0 <= t < j ==> row@[t] as int == want[i as int][t],
            decreases n - j,
        {
            let mut acc: i64 = 0;
            let mut k: usize = 0;
            while k < n
                invariant
                    n == a@.len(),
                    is_square(a@, n as nat),
                    is_square(b@, n as nat),
                    within(a@, x),
                    within(b@, y),
                    xy == x * y,
                    xy >= 1,
                    n * xy <= i64::MAX,
                    i < n,
                    j < n,
                    k <= n,
                    acc as int == dot_from(a@, b@, i as int, j as int, 0, k as nat),
                decreases n - k,
            {
                proof {
                    lemma_dot_bound(a@, b@, i as int, j as int, (k + 1) as nat, x, y);
                    assert(-x <= a@[i as int][k as int] <= x);
                    assert(-y <= b@[k as int][j as int] <= y);
                    lemma_mul_abs(a@[i as int][k as int], b@[k as int][j as int], x, y);
                    assert(xy <= (k + 1) * xy <= n * xy) by (nonlinear_arith)
                        requires
                            k + 1 <= n,
                            xy >= 1,
                    ;
                }
                assert(a@[i as int][k as int] == a.rows@[i as int]@[k as int]);
                assert(b@[k as int][j as int] == b.rows@[k as int]@[j as int]);
                acc = acc + a.rows[i][k] * b.rows[k][j];
                k += 1;
            }
            row.push(acc);
            j += 1;
        }
        rows.push(row);
        i += 1;
    }
    let r = Matrix { rows };
    assert forall|k: int| 0 <= k < n implies r@[k] =~= want[k] by {}
    assert(r@ =~= want);
    r
}

/// A fresh `2 * half`-square matrix holding the four quadrants at their offsets.
pub(crate) fn assemble_quadrants(half: usize, c11: &Matrix, c12: &Matrix, c21: &Matrix, c22: &Matrix) -> (r: Matrix)
    requires
        half <= usize::MAX / 2,
        is_square(c11@, half as nat),
        is_square(c12@, half as nat),
        is_square(c21@, half as nat),
        is_square(c22@, half as nat),
    ensures
        r@ == write_quadrants(zero_matrix(2 * half as nat), c11@, c12@, c21@, c22@, half as int),
{
    let n = 2 * half;
    let mut r = create_zero_matrix(n);
    set_submatrix(&mut r, c11, 0, 0);
    set_submatrix(&mut r, c12, 0, half);
    set_submatrix(&mut r, c21, half, 0);
    set_submatrix(&mut r, c22, half, half);
    r
}

/// Writes a product's four quadrants back and concludes it is the whole
/// product.
pub(crate) proof fn lemma_assembled_product(a: Seq<Seq<int>>, b: Seq<Seq<int>>, h: nat, r: Seq<Seq<int>>)
    requires
        is_square(a, 2 * h),
        is_square(b, 2 * h),
        r == write_quadrants(
            zero_matrix(2 * h),
            block(mat_mul(a, b), 0, 0, h),
            block(mat_mul(a, b), 0, h as int, h),
            block(mat_mul(a, b), h as int, 0, h),
            block(mat_mul(a, b), h as int, h as int, h),
            h as int,
        ),
    ensures
        r == mat_mul(a, b),
{
    lemma_shapes(a, b, 2 * h);
    lemma_quadrants_round_trip(mat_mul(a, b), zero_matrix(2 * h), h);
}

/// Divide-and-conquer multiplication with the default base-case size.
pub fn divide_conquer_multiply(a: &Matrix, b: &Matrix) -> (r: Matrix)
    requires
        product_inputs(a@, b@),
        halvable(a@.len(), SEQUENTIAL_THRESHOLD as nat),
    ensures
        r@ == mat_mul(a@, b@),
{
    divide_conquer_with_threshold(a, b, SEQUENTIAL_THRESHOLD)
}

/// Divide-and-conquer multiplication: eight half-size products per level, down
/// to `threshold`.
pub fn divide_conquer_with_threshold(a: &Matrix, b: &Matrix, threshold: usize) -> (r: Matrix)
    requires
        product_inputs(a@, b@),
        halvable(a@.len(), threshold as nat),
    ensures
        r@ == mat_mul(a@, b@),
    decreases a@.len(),
{
    let n = a.rows.len();
    if n <= threshold {
        return iterative_multiply(a, b);
    }
    let half = n / 2;
    let ghost (x, y) = choose|x: int, y: int|
        1 <= x && 1 <= y && #[trigger] within(a@, x) && #[trigger] within(b@, y) && 4 * (a@.len() * a@.len()) * (x
            * y) <= i64::MAX;
    proof {
        assert(n % 2 == 0 && halvable(half as nat, threshold as nat));
        lemma_fit_bounds(n as int, half as int, x, y);
    }
    let ghost h = half as nat;
    let ghost hi = half as int;
    let a11 = get_submatrix(a, 0, 0, half);
    let a12 = get_submatrix(a, 0, half, half);
    let a21 = get_submatrix(a, half, 0, half);
    let a22 = get_submatrix(a, half, half, half);
    let b11 = get_submatrix(b, 0, 0, half);
    let b12 = get_submatrix(b, 0, half, half);
    let b21 = get_submatrix(b, half, 0, half);
    let b22 = get_submatrix(b, half, half, half);
    proof {
        lemma_block_within(a@, n as nat, 0, 0, h, x);
        lemma_block_within(a@, n as nat, 0, hi, h, x);
        lemma_block_within(a@, n as nat, hi, 0, h, x);
        lemma_block_within(a@, n as nat, hi, hi, h, x);
        lemma_block_within(b@, n as nat, 0, 0, h, y);
        lemma_block_within(b@, n as nat, 0, hi, h, y);
        lemma_block_within(b@, n as nat, hi, 0, h, y);
        lemma_block_within(b@, n as nat, hi, hi, h, y);
    }
    let p1 = divide_conquer_with_threshold(&a11, &b11, threshold);
    let p2 = divide_conquer_with_threshold(&a12, &b21, threshold);
    let p3 = divide_conquer_with_threshold(&a11, &b12, threshold);
    let p4 = divide_conquer_with_threshold(&a12, &b22, threshold);
    let p5 = divide_conquer_with_threshold(&a21, &b11, threshold);
    let p6 = divide_conquer_with_threshold(&a22, &b21, threshold);
    let p7 = divide_conquer_with_threshold(&a21, &b12, threshold);
    let p8 = divide_conquer_with_threshold(&a22, &b22, threshold);
    let ghost pb = h * (x * y);
    proof {
        lemma_product_within(a11@, b11@, x, y);
        lemma_product_within(a12@, b21@, x, y);
        lemma_product_within(a11@, b12@, x, y);
        lemma_product_within(a12@, b22@, x, y);
        lemma_product_within(a21@, b11@, x, y);
        lemma_product_within(a22@, b21@, x, y);
        lemma_product_within(a21@, b12@, x, y);
        lemma_product_within(a22@, b22@, x, y);
        lemma_sum_fits(p1@, p2@, pb, pb);
        lemma_sum_fits(p3@, p4@, pb, pb);
        lemma_sum_fits(p5@, p6@, pb, pb);
        lemma_sum_fits(p7@, p8@, pb, pb);
    }
    let c11 = add_matrices(&p1, &p2);
    let c12 = add_matrices(&p3, &p4);
    let c21 = add_matrices(&p5, &p6);
    let c22 = add_matrices(&p7, &p8);
    proof {
        lemma_quadrant_product(a@, b@, h, 0, 0);
        lemma_quadrant_product(a@, b@, h, 0, hi);
        lemma_quadrant_product(a@, b@, h, hi, 0);
        lemma_quadrant_product(a@, b@, h, hi, hi);
    }
    let r = assemble_quadrants(half, &c11, &c12, &c21, &c22);
    proof {
        lemma_assembled_product(a@, b@, h, r@);
    }
    r
}

/// Strassen multiplication with the default base-case size.
pub fn strassen_multiply(a: &Matrix, b: &Matrix) -> (r: Matrix)
    requires
        product_inputs(a@, b@),
        halvable(a@.len(), SEQUENTIAL_THRESHOLD as nat),
    ensures
        r@ == mat_mul(a@, b@),
{
    strassen_with_threshold(a, b, SEQUENTIAL_THRESHOLD)
}

/// Strassen multiplication: seven half-size products per level, down to
/// `threshold`.
pub fn strassen_with_threshold(a: &Matrix, b: &Matrix, threshold: usize) -> (r: Matrix)
    requires
        product_inputs(a@, b@),
        halvable(a@.len(), threshold as nat),
    ensures
        r@ == mat_mul(a@, b@),
    decreases a@.len(),
{
    let n = a.rows.len();
    if n <= threshold {
        return iterative_multiply(a, b);
    }
    let half = n / 2;
    let ghost (x, y) = choose|x: int, y: int|
        1 <= x && 1 <= y && #[trigger] within(a@, x) && #[trigger] within(b@, y) && 4 * (a@.len() * a@.len()) * (x
            * y) <= i64::MAX;
    proof {
        assert(n % 2 == 0 && halvable(half as nat, threshold as nat));
        lemma_fit_bounds(n as int, half as int, x, y);
    }
    let ghost h = half as nat;
    let ghost hi = half as int;
    let a11 = get_submatrix(a, 0, 0, half);
    let a12 = get_submatrix(a, 0, half, half);
    let a21 = get_submatrix(a, half, 0, half);
    let a22 = get_submatrix(a, half, half, half);
    let b11 = get_submatrix(b, 0, 0, half);
    let b12 = get_submatrix(b, 0, half, half);
    let b21 = get_submatrix(b, half, 0, half);
    let b22 = get_submatrix(b, half, half, half);
    proof {
        lemma_block_within(a@, n as nat, 0, 0, h, x);
        lemma_block_within(a@, n as nat, 0, hi, h, x);
        lemma_block_within(a@, n as nat, hi, 0, h, x);
        lemma_block_within(a@, n as nat, hi, hi, h, x);
        lemma_block_within(b@, n as nat, 0, 0, h, y);
        lemma_block_within(b@, n as nat, 0, hi, h, y);
        lemma_block_within(b@, n as nat, hi, 0, h, y);
        lemma_block_within(b@, n as nat, hi, hi, h, y);
        lemma_sum_fits(a11@, a22@, x, x);
        lemma_sum_fits(a21@, a22@, x, x);
        lemma_sum_fits(a11@, a12@, x, x);
        lemma_sum_fits(a21@, a11@, x, x);
        lemma_sum_fits(a12@, a22@, x, x);
        lemma_sum_fits(b11@, b22@, y, y);
        lemma_sum_fits(b12@, b22@, y, y);
        lemma_sum_fits(b21@, b11@, y, y);
        lemma_sum_fits(b11@, b12@, y, y);
        lemma_sum_fits(b21@, b22@, y, y);
        lemma_within_mono(a11@, x, 2 * x);
        lemma_within_mono(a22@, x, 2 * x);
        lemma_within_mono(b11@, y, 2 * y);
        lemma_within_mono(b22@, y, 2 * y);
    }
    let s1 = add_matrices(&a11, &a22);
    let t1 = add_matrices(&b11, &b22);
    let s2 = add_matrices(&a21, &a22);
    let t3 = subtract_matrices(&b12, &b22);
    let t4 = subtract_matrices(&b21, &b11);
    let s5 = add_matrices(&a11, &a12);
    let s6 = subtract_matrices(&a21, &a11);
    let t6 = add_matrices(&b11, &b12);
    let s7 = subtract_matrices(&a12, &a22);
    let t7 = add_matrices(&b21, &b22);
    let m1 = strassen_with_threshold(&s1, &t1, threshold);
    let m2 = strassen_with_threshold(&s2, &b11, threshold);
    let m3 = strassen_with_threshold(&a11, &t3, threshold);
    let m4 = strassen_with_threshold(&a22, &t4, threshold);
    let m5 = strassen_with_threshold(&s5, &b22, threshold);
    let m6 = strassen_with_threshold(&s6, &t6, threshold);
    let m7 = strassen_with_threshold(&s7, &t7, threshold);
    let ghost q = 2 * (n * (x * y));
    proof {
        lemma_product_within(s1@, t1@, 2 * x, 2 * y);
        lemma_product_within(s2@, b11@, 2 * x, 2 * y);
        lemma_product_within(a11@, t3@, 2 * x, 2 * y);
        lemma_product_within(a22@, t4@, 2 * x, 2 * y);
        lemma_product_within(s5@, b22@, 2 * x, 2 * y);
        lemma_product_within(s6@, t6@, 2 * x, 2 * y);
        lemma_product_within(s7@, t7@, 2 * x, 2 * y);
        lemma_sum_fits(m1@, m4@, q, q);
        lemma_sum_fits(m1@, m3@, q, q);
        lemma_sum_fits(m3@, m5@, q, q);
        lemma_sum_fits(m2@, m4@, q, q);
        lemma_sum_fits(mat_add(m1@, m4@), m5@, 2 * q, q);
        lemma_sum_fits(mat_add(m1@, m3@), m2@, 2 * q, q);
        lemma_sum_fits(mat_sub(mat_add(m1@, m4@), m5@), m7@, 3 * q, q);
        lemma_sum_fits(mat_sub(mat_add(m1@, m3@), m2@), m6@, 3 * q, q);
    }
    let u1 = add_matrices(&m1, &m4);
    let u2 = subtract_matrices(&u1, &m5);
    let c11 = add_matrices(&u2, &m7);
    let c12 = add_matrices(&m3, &m5);
    let c21 = add_matrices(&m2, &m4);
    let v1 = add_matrices(&m1, &m3);
    let v2 = subtract_matrices(&v1, &m2);
    let c22 = add_matrices(&v2, &m6);
    proof {
        lemma_strassen_quadrants(a11@, a12@, a21@, a22@, b11@, b12@, b21@, b22@, h);
        lemma_quadrant_product(a@, b@, h, 0, 0);
        lemma_quadrant_product(a@, b@, h, 0, hi);
        lemma_quadrant_product(a@, b@, h, hi, 0);
        lemma_quadrant_product(a@, b@, h, hi, hi);
    }
    let r = assemble_quadrants(half, &c11, &c12, &c21, &c22);
    proof {
        lemma_assembled_product(a@, b@, h, r@);
    }
    r
}

} // verus!
