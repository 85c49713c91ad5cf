use vstd::prelude::*;

use crate::matrix::{add_matrices, get_submatrix, subtract_matrices, Matrix};
use crate::model::{
    halvable, lemma_block_within, lemma_fit_bounds, lemma_product_within, lemma_quadrant_product,
    lemma_strassen_quadrants, lemma_sum_fits, lemma_within_mono, mat_add, mat_mul, mat_sub, product_inputs, within,
};
use crate::multiply::{assemble_quadrants, iterative_multiply, lemma_assembled_product, PARALLEL_THRESHOLD};

verus! {

/// Relies on rayon::join: it runs each closure once, possibly on another
/// worker thread, and returns the pair of their results.
pub assume_specification<A, B, RA, RB>[ rayon::join::<A, B, RA, RB> ](oper_a: A, oper_b: B) -> (r: (RA, RB))
    where
        A: FnOnce() -> RA + Send,
        B: FnOnce() -> RB + Send,
        RA: Send,
        RB: Send,
    requires
        oper_a.requires(()),
        oper_b.requires(()),
    ensures
        oper_a.ensures((), r.0),
        oper_b.ensures((), r.1),
;

/// One recursive product, by Strassen's algorithm or by the eight-product
/// block algorithm.
fn product_task(a: &Matrix, b: &Matrix, threshold: usize, strassen: bool) -> (r: Matrix)
    requires
        product_inputs(a@, b@),
        halvable(a@.len(), threshold as nat),
    ensures
        r@ == mat_mul(a@, b@),
    decreases a@.len(), 1nat,
{
    if strassen {
        strassen_parallel_with_threshold(a, b, threshold)
    } else {
        divide_conquer_parallel_with_threshold(a, b, threshold)
    }
}

/// Both products `a1·b1` and `a2·b2`, computed as two fork-join tasks.
fn join_products(a1: &Matrix, b1: &Matrix, a2: &Matrix, b2: &Matrix, threshold: usize, strassen: bool) -> (r: (
    Matrix,
    Matrix,
))
    requires
        product_inputs(a1@, b1@),
        halvable(a1@.len(), threshold as nat),
        product_inputs(a2@, b2@),
        a2@.len() == a1@.len(),
    ensures
        r.0@ == mat_mul(a1@, b1@),
        r.1@ == mat_mul(a2@, b2@),
    decreases a1@.len(), 2nat,
{
    let f1 = || -> (p: Matrix)
        requires
            product_inputs(a1@, b1@),
            halvable(a1@.len(), threshold as nat),
        ensures
            p@ == mat_mul(a1@, b1@),
    {
        product_task(a1, b1, threshold, strassen)
    };
    let f2 = || -> (p: Matrix)
        requires
            product_inputs(a2@, b2@),
            halvable(a1@.len(), threshold as nat),
            a2@.len() == a1@.len(),
        ensures
            p@ == mat_mul(a2@, b2@),
    {
        product_task(a2, b2, threshold, strassen)
    };
    rayon::join(f1, f2)
}

/// Divide-and-conquer multiplication with fork-join parallelism and the
/// default parallel base-case size.
pub fn divide_conquer_parallel(a: &Matrix, b: &Matrix) -> (r: Matrix)
    requires
        product_inputs(a@, b@),
        halvable(a@.len(), PARALLEL_THRESHOLD as nat),
    ensures
        r@ == mat_mul(a@, b@),
{
    divide_conquer_parallel_with_threshold(a, b, PARALLEL_THRESHOLD)
}

/// Divide-and-conquer multiplication whose eight half-size products run as
/// fork-join tasks, down to `threshold`.
pub fn divide_conquer_parallel_with_threshold(a: &Matrix, b: &Matrix, threshold: usize) -> (r: Matrix)
    requires
        product_inputs(a@, b@),
        halvable(a@.len(), threshold as nat),
    ensures
        r@ == mat_mul(a@, b@),
    decreases a@.len(), 0nat,
{
    let n = a.rows.len();
    if n <= threshold {
        return iterative_multiply(a, b);
    }
    let half = n / 2;
    let ghost (x, y) = choose|x: int, y: int|
        1 <= x && 1 <= y && #[trigger] within(a@, x) && #[trigger] within(b@, y) && 4 * (a@.len() * a@.len()) * (x
            * y) <= i64::MAX;
    proof {
        assert(n % 2 == 0 && halvable(half as nat, threshold as nat));
        lemma_fit_bounds(n as int, half as int, x, y);
    }
    let ghost h = half as nat;
    let ghost hi = half as int;
    let a11 = get_submatrix(a, 0, 0, half);
    let a12 = get_submatrix(a, 0, half, half);
    let a21 = get_submatrix(a, half, 0, half);
    let a22 = get_submatrix(a, half, half, half);
    let b11 = get_submatrix(b, 0, 0, half);
    let b12 = get_submatrix(b, 0, half, half);
    let b21 = get_submatrix(b, half, 0, half);
    let b22 = get_submatrix(b, half, half, half);
    proof {
        lemma_block_within(a@, n as nat, 0, 0, h, x);
        lemma_block_within(a@, n as nat, 0, hi, h, x);
        lemma_block_within(a@, n as nat, hi, 0, h, x);
        lemma_block_within(a@, n as nat, hi, hi, h, x);
        lemma_block_within(b@, n as nat, 0, 0, h, y);
        lemma_block_within(b@, n as nat, 0, hi, h, y);
        lemma_block_within(b@, n as nat, hi, 0, h, y);
        lemma_block_within(b@, n as nat, hi, hi, h, y);
    }
    let g1 = || -> (q: ((Matrix, Matrix), (Matrix, Matrix)))
        requires
            product_inputs(a11@, b11@),
            product_inputs(a12@, b21@),
            product_inputs(a11@, b12@),
            product_inputs(a12@, b22@),
            halvable(h, threshold as nat),
            a11@.len() == h,
            a12@.len() == h,
        ensures
            q.0.0@ == mat_mul(a11@, b11@),
            q.0.1@ == mat_mul(a12@, b21@),
            q.1.0@ == mat_mul(a11@, b12@),
            q.1.1@ == mat_mul(a12@, b22@),
    {
        let f1 = || -> (p: (Matrix, Matrix))
            requires
                product_inputs(a11@, b11@),
                product_inputs(a12@, b21@),
                halvable(h, threshold as nat),
                a11@.len() == h,
                a12@.len() == h,
            ensures
                p.0@ == mat_mul(a11@, b11@),
                p.1@ == mat_mul(a12@, b21@),
        {
            join_products(&a11, &b11, &a12, &b21, threshold, false)
        };
        let f2 = || -> (p: (Matrix, Matrix))
            requires
                product_inputs(a11@, b12@),
                product_inputs(a12@, b22@),
                halvable(h, threshold as nat),
                a11@.len() == h,
                a12@.len() == h,
            ensures
                p.0@ == mat_mul(a11@, b12@),
                p.1@ == mat_mul(a12@, b22@),
        {
            join_products(&a11, &b12, &a12, &b22, threshold, false)
        };
        rayon::join(f1, f2)
    };
    let g2 = || -> (q: ((Matrix, Matrix), (Matrix, Matrix)))
        requires
            product_inputs(a21@, b11@),
            product_inputs(a22@, b21@),
            product_inputs(a21@, b12@),
            product_inputs(a22@, b22@),
            halvable(h, threshold as nat),
            a21@.len() == h,
            a22@.len() == h,
        ensures
            q.0.0@ == mat_mul(a21@, b11@),
            q.0.1@ == mat_mul(a22@, b21@),
            q.1.0@ == mat_mul(a21@, b12@),
            q.1.1@ == mat_mul(a22@, b22@),
    {
        let f1 = || -> (p: (Matrix, Matrix))
            requires
                product_inputs(a21@, b11@),
                product_inputs(a22@, b21@),
                halvable(h, threshold as nat),
                a21@.len() == h,
                a22@.len() == h,
            ensures
                p.0@ == mat_mul(a21@, b11@),
                p.1@ == mat_mul(a22@, b21@),
        {
            join_products(&a21, &b11, &a22, &b21, threshold, false)
        };
        let f2 = || -> (p: (Matrix, Matrix))
            requires
                product_inputs(a21@, b12@),
                product_inputs(a22@, b22@),
                halvable(h, threshold as nat),
                a21@.len() == h,
                a22@.len() == h,
            ensures
                p.0@ == mat_mul(a21@, b12@),
                p.1@ == mat_mul(a22@, b22@),
        {
            join_products(&a21, &b12, &a22, &b22, threshold, false)
        };
        rayon::join(f1, f2)
    };
    let (((p1, p2), (p3, p4)), ((p5, p6), (p7, p8))) = rayon::join(g1, g2);
    let ghost pb = h * (x * y);
    proof {
        lemma_product_within(a11@, b11@, x, y);
        lemma_product_within(a12@, b21@, x, y);
        lemma_product_within(a11@, b12@, x, y);
        lemma_product_within(a12@, b22@, x, y);
        lemma_product_within(a21@, b11@, x, y);
        lemma_product_within(a22@, b21@, x, y);
        lemma_product_within(a21@, b12@, x, y);
        lemma_product_within(a22@, b22@, x, y);
        lemma_sum_fits(p1@, p2@, pb, pb);
        lemma_sum_fits(p3@, p4@, pb, pb);
        lemma_sum_fits(p5@, p6@, pb, pb);
        lemma_sum_fits(p7@, p8@, pb, pb);
    }
    let c11 = add_matrices(&p1, &p2);
    let c12 = add_matrices(&p3, &p4);
    let c21 = add_matrices(&p5, &p6);
    let c22 = add_matrices(&p7, &p8);
    proof {
        lemma_quadrant_product(a@, b@, h, 0, 0);
        lemma_quadrant_product(a@, b@, h, 0, hi);
        lemma_quadrant_product(a@, b@, h, hi, 0);
        lemma_quadrant_product(a@, b@, h, hi, hi);
    }
    let r = assemble_quadrants(half, &c11, &c12, &c21, &c22);
    proof {
        lemma_assembled_product(a@, b@, h, r@);
    }
    r
}

/// Strassen multiplication with fork-join parallelism and the default parallel
/// base-case size.
pub fn strassen_parallel(a: &Matrix, b: &Matrix) -> (r: Matrix)
    requires
        product_inputs(a@, b@),
        halvable(a@.len(), PARALLEL_THRESHOLD as nat),
    ensures
        r@ == mat_mul(a@, b@),
{
    strassen_parallel_with_threshold(a, b, PARALLEL_THRESHOLD)
}

/// Strassen multiplication whose seven half-size products run as fork-join
/// tasks, down to `threshold`.
pub fn strassen_parallel_with_threshold(a: &Matrix, b: &Matrix, threshold: usize) -> (r: Matrix)
    requires
        product_inputs(a@, b@),
        halvable(a@.len(), threshold as nat),
    ensures
        r@ == mat_mul(a@, b@),
    decreases a@.len(), 0nat,
{
    let n = a.rows.len();
    if n <= threshold {
        return iterative_multiply(a, b);
    }
    let half = n / 2;
    let ghost (x, y) = choose|x: int, y: int|
        1 <= x && 1 <= y && #[trigger] within(a@, x) && #[trigger] within(b@, y) && 4 * (a@.len() * a@.len()) * (x
            * y) <= i64::MAX;
    proof {
        assert(n % 2 == 0 && halvable(half as nat, threshold as nat));
        lemma_fit_bounds(n as int, half as int, x, y);
    }
    let ghost h = half as nat;
    let ghost hi = half as int;
    let a11 = get_submatrix(a, 0, 0, half);
    let a12 = get_submatrix(a, 0, half, half);
    let a21 = get_submatrix(a, half, 0, half);
    let a22 = get_submatrix(a, half, half, half);
    let b11 = get_submatrix(b, 0, 0, half);
    let b12 = get_submatrix(b, 0, half, half);
    let b21 = get_submatrix(b, half, 0, half);
    let b22 = get_submatrix(b, half, half, half);
    proof {
        lemma_block_within(a@, n as nat, 0, 0, h, x);
        lemma_block_within(a@, n as nat, 0, hi, h, x);
        lemma_block_within(a@, n as nat, hi, 0, h, x);
        lemma_block_within(a@, n as nat, hi, hi, h, x);
        lemma_block_within(b@, n as nat, 0, 0, h, y);
        lemma_block_within(b@, n as nat, 0, hi, h, y);
        lemma_block_within(b@, n as nat, hi, 0, h, y);
        lemma_block_within(b@, n as nat, hi, hi, h, y);
        lemma_sum_fits(a11@, a22@, x, x);
        lemma_sum_fits(a21@, a22@, x, x);
        lemma_sum_fits(a11@, a12@, x, x);
        lemma_sum_fits(a21@, a11@, x, x);
        lemma_sum_fits(a12@, a22@, x, x);
        lemma_sum_fits(b11@, b22@, y, y);
        lemma_sum_fits(b12@, b22@, y, y);
        lemma_sum_fits(b21@, b11@, y, y);
        lemma_sum_fits(b11@, b12@, y, y);
        lemma_sum_fits(b21@, b22@, y, y);
        lemma_within_mono(a11@, x, 2 * x);
        lemma_within_mono(a22@, x, 2 * x);
        lemma_within_mono(b11@, y, 2 * y);
        lemma_within_mono(b22@, y, 2 * y);
    }
    let s1 = add_matrices(&a11, &a22);
    let t1 = add_matrices(&b11, &b22);
    let s2 = add_matrices(&a21, &a22);
    let t3 = subtract_matrices(&b12, &b22);
    let t4 = subtract_matrices(&b21, &b11);
    let s5 = add_matrices(&a11, &a12);
    let s6 = subtract_matrices(&a21, &a11);
    let t6 = add_matrices(&b11, &b12);
    let s7 = subtract_matrices(&a12, &a22);
    let t7 = add_matrices(&b21, &b22);
    let f1 = || -> (p: (Matrix, Matrix))
        requires
            product_inputs(s1@, t1@),
            product_inputs(s2@, b11@),
            halvable(h, threshold as nat),
            s1@.len() == h,
            s2@.len() == h,
        ensures
            p.0@ == mat_mul(s1@, t1@),
            p.1@ == mat_mul(s2@, b11@),
    {
        join_products(&s1, &t1, &s2, &b11, threshold, true)
    };
    let f2 = || -> (p: (Matrix, Matrix))
        requires
            product_inputs(a11@, t3@),
            product_inputs(a22@, t4@),
            halvable(h, threshold as nat),
            a11@.len() == h,
            a22@.len() == h,
        ensures
            p.0@ == mat_mul(a11@, t3@),
            p.1@ == mat_mul(a22@, t4@),
    {
        join_products(&a11, &t3, &a22, &t4, threshold, true)
    };
    let ((m1, m2), (m3, m4)) = rayon::join(f1, f2);
    let f5 = || -> (p: (Matrix, Matrix))
        requires
            product_inputs(s5@, b22@),
            product_inputs(s6@, t6@),
            halvable(h, threshold as nat),
            s5@.len() == h,
            s6@.len() == h,
        ensures
            p.0@ == mat_mul(s5@, b22@),
            p.1@ == mat_mul(s6@, t6@),
    {
        join_products(&s5, &b22, &s6, &t6, threshold, true)
    };
    let f7 = || -> (p: Matrix)
        requires
            product_inputs(s7@, t7@),
            halvable(h, threshold as nat),
            s7@.len() == h,
        ensures
            p@ == mat_mul(s7@, t7@),
    {
        product_task(&s7, &t7, threshold, true)
    };
    let ((m5, m6), m7) = rayon::join(f5, f7);
    let ghost q = 2 * (n * (x * y));
    proof {
        lemma_product_within(s1@, t1@, 2 * x, 2 * y);
        lemma_product_within(s2@, b11@, 2 * x, 2 * y);
        lemma_product_within(a11@, t3@, 2 * x, 2 * y);
        lemma_product_within(a22@, t4@, 2 * x, 2 * y);
        lemma_product_within(s5@, b22@, 2 * x, 2 * y);
        lemma_product_within(s6@, t6@, 2 * x, 2 * y);
        lemma_product_within(s7@, t7@, 2 * x, 2 * y);
        lemma_sum_fits(m1@, m4@, q, q);
        lemma_sum_fits(m1@, m3@, q, q);
        lemma_sum_fits(m3@, m5@, q, q);
        lemma_sum_fits(m2@, m4@, q, q);
        lemma_sum_fits(mat_add(m1@, m4@), m5@, 2 * q, q);
        lemma_sum_fits(mat_add(m1@, m3@), m2@, 2 * q, q);
        lemma_sum_fits(mat_sub(mat_add(m1@, m4@), m5@), m7@, 3 * q, q);
        lemma_sum_fits(mat_sub(mat_add(m1@, m3@), m2@), m6@, 3 * q, q);
    }
    let u1 = add_matrices(&m1, &m4);
    let u2 = subtract_matrices(&u1, &m5);
    let c11 = add_matrices(&u2, &m7);
    let c12 = add_matrices(&m3, &m5);
    let c21 = add_matrices(&m2, &m4);
    let v1 = add_matrices(&m1, &m3);
    let v2 = subtract_matrices(&v1, &m2);
    let c22 = add_matrices(&v2, &m6);
    proof {
        lemma_strassen_quadrants(a11@, a12@, a21@, a22@, b11@, b12@, b21@, b22@, h);
        lemma_quadrant_product(a@, b@, h, 0, 0);
        lemma_quadrant_product(a@, b@, h, 0, hi);
        lemma_quadrant_product(a@, b@, h, hi, 0);
        lemma_quadrant_product(a@, b@, h, hi, hi);
    }
    let r = assemble_quadrants(half, &c11, &c12, &c21, &c22);
    proof {
        lemma_assembled_product(a@, b@, h, r@);
    }
    r
}

} // verus!
