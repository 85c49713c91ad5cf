use vstd::prelude::*;

use crate::matrix::Matrix;
use crate::model::{
    halvable, is_power_of_two, is_square, lemma_power_of_two_halvable, lemma_within_mono, mat_mul, operands_fit, within,
};
use crate::multiply::{
    divide_conquer_with_threshold, iterative_multiply, strassen_with_threshold, PARALLEL_THRESHOLD,
    SEQUENTIAL_THRESHOLD,
};
use crate::parallel::{divide_conquer_parallel_with_threshold, strassen_parallel_with_threshold};

verus! {

/// The multiplication strategies the engine offers.
#[derive(Clone, Copy, Debug, PartialEq, Eq, Structural)]
pub enum Algorithm {
    Iterative,
    DivideConquerSequential,
    DivideConquerParallel,
    StrassenSequential,
    StrassenParallel,
}

/// Why a multiplication produced no result.
#[derive(Clone, Copy, Debug, PartialEq, Eq, Structural)]
pub enum MatrixError {
    /// An operand is not square, or the operands differ in dimension.
    DimensionMismatch,
    /// The dimension does not halve evenly down to the algorithm's base case.
    MalformedRecursionInput,
    /// The entries are too large for every intermediate value to fit in an `i64`.
    EntriesTooLarge,
}

/// Base-case sizes of the recursive algorithms.
#[derive(Clone, Copy, Debug, PartialEq, Eq, Structural)]
pub struct Thresholds {
    pub sequential: usize,
    pub parallel: usize,
}

impl Thresholds {
    /// The sequential base case 64 and the coarser parallel one 128.
    pub fn standard() -> (r: Thresholds)
        ensures
            r.sequential == SEQUENTIAL_THRESHOLD,
            r.parallel == PARALLEL_THRESHOLD,
    {
        Thresholds { sequential: SEQUENTIAL_THRESHOLD, parallel: PARALLEL_THRESHOLD }
    }
}

/// The size at or below which `alg` stops recursing; the iterative algorithm never
/// recurses.
pub open spec fn base_case_of(alg: Algorithm, t: Thresholds) -> nat {
    match alg {
        Algorithm::Iterative => usize::MAX as nat,
        Algorithm::DivideConquerSequential | Algorithm::StrassenSequential => t.sequential as nat,
        Algorithm::DivideConquerParallel | Algorithm::StrassenParallel => t.parallel as nat,
    }
}

/// `a` and `b` are both square of one dimension.
pub open spec fn shapes_match(a: Seq<Seq<int>>, b: Seq<Seq<int>>) -> bool {
    is_square(a, a.len()) && is_square(b, a.len())
}

/// Whether every row of `m` has `n` entries and there are `n` rows.
pub fn check_square(m: &Matrix, n: usize) -> (r: bool)
    ensures
        r == is_square(m@, n as nat),
{
    if m.rows.len() != n {
        return false;
    }
    let mut i: usize = 0;
    while i < n
        invariant
            m@.len() == n,
            i <= n,
            forall|k: int| 0 <= k < i ==> (#[trigger] m@[k]).len() == n,
        decreases n - i,
    {
        if m.rows[i].len() != n {
            assert(m@[i as int].len() != n);
            return false;
        }
        i += 1;
    }
    true
}

/// Whether `n` halves evenly at every level above `threshold`.
pub fn check_halvable(n: usize, threshold: usize) -> (r: bool)
    ensures
        r == halvable(n as nat, threshold as nat),
{
    let mut m = n;
    while m > threshold
        invariant
            halvable(n as nat, threshold as nat) == halvable(m as nat, threshold as nat),
        decreases m,
    {
        if m % 2 != 0 {
            return false;
        }
        m = m / 2;
    }
    true
}

/// The largest absolute value of an entry of `m`, or 0 when `m` is empty.
fn max_abs(m: &Matrix) -> (r: u64)
    requires
        is_square(m@, m@.len()),
    ensures
        r <= 0x8000_0000_0000_0000,
        within(m@, r as int),
        forall|x: int| 0 <= x && #[trigger] within(m@, x) ==> r <= x,
{
    let n = m.rows.len();
    let mut best: u64 = 0;
    let mut i: usize = 0;
    while i < n
        invariant
            n == m@.len(),
            is_square(m@, n as nat),
            i <= n,
            best <= 0x8000_0000_0000_0000,
            forall|k: int, j: int| 0 <= k < i && 0 <= j < n ==> -best <= #[trigger] m@[k][j] <= best,
            forall|x: int| 0 <= x && #[trigger] within(m@, x) ==> best <= x,
        decreases n - i,
    {
        let mut j: usize = 0;
        while j < n
            invariant
                n == m@.len(),
                is_square(m@, n as nat),
                i < n,
                j <= n,
                best <= 0x8000_0000_0000_0000,
                forall|k: int, t: int|
                    0 <= k < n && 0 <= t < n && (k < i || (k == i && t < j)) ==> -best <= #[trigger] m@[k][t]
                        <= best,
                forall|x: int| 0 <= x && #[trigger] within(m@, x) ==> best <= x,
            decreases n - j,
        {
            assert(m@[i as int][j as int] == m.rows@[i as int]@[j as int]);
            let e = m.rows[i][j];
            let a: u64 = if e < 0 {
                (-(e as i128)) as u64
            } else {
                e as u64
            };
            if a > best {
                assert forall|x: int| 0 <= x && #[trigger] within(m@, x) implies a <= x by {
                    assert(-x <= m@[i as int][j as int] <= x);
                }
                best = a;
            }
            j += 1;
        }
        i += 1;
    }
    best
}

/// Whether the entries of `a` and `b` are small enough for every algorithm.
fn check_fit(a: &Matrix, b: &Matrix) -> (r: bool)
    requires
        shapes_match(a@, b@),
    ensures
        r == operands_fit(a@, b@),
{
    let n = a.rows.len();
    let ma = max_abs(a);
    let mb = max_abs(b);
    let x: u64 = if ma == 0 { 1 } else { ma };
    let y: u64 = if mb == 0 { 1 } else { mb };
    proof {
        lemma_within_mono(a@, ma as int, x as int);
        lemma_within_mono(b@, mb as int, y as int);
    }
    if n > 0x8000_0000 {
        proof {
            lemma_too_large_dim(a@, b@, n as int);
        }
        return false;
    }
    assert((x as int) * (y as int) <= 0x8000_0000_0000_0000 * 0x8000_0000_0000_0000int) by (nonlinear_arith)
        requires
            1 <= x <= 0x8000_0000_0000_0000int,
            1 <= y <= 0x8000_0000_0000_0000int,
    ;
    assert(4 * ((n as int) * (n as int)) <= 0x1_0000_0000_0000_0000int) by (nonlinear_arith)
        requires
            0 <= n <= 0x8000_0000int,
    ;
    let p: u128 = (x as u128) * (y as u128);
    let q: u128 = 4 * ((n as u128) * (n as u128));
    if p > 0x7fff_ffff_ffff_ffff {
        proof {
            let xy = x * y;
            if n >= 1 {
                assert(4 * (n * n) * xy >= xy) by (nonlinear_arith)
                    requires
                        n >= 1,
                        xy >= 1,
                ;
            }
            if n == 0 {
                assert(ma == 0 && mb == 0) by {
                    assert(within(a@, 0));
                    assert(within(b@, 0));
                }
            }
            lemma_no_fit(a@, b@, n as int, x as int, y as int);
        }
        return false;
    }
    assert(q * p <= 0x1_0000_0000_0000_0000u128 * 0x7fff_ffff_ffff_ffffu128) by (nonlinear_arith)
        requires
            q <= 0x1_0000_0000_0000_0000u128,
            p <= 0x7fff_ffff_ffff_ffffu128,
    ;
    let fits = q * p <= 0x7fff_ffff_ffff_ffff;
    proof {
        if fits {
            assert(within(a@, x as int) && within(b@, y as int));
        } else {
            lemma_no_fit(a@, b@, n as int, x as int, y as int);
        }
    }
    fits
}

/// No bounds make a dimension above `2^31` fit.
proof fn lemma_too_large_dim(a: Seq<Seq<int>>, b: Seq<Seq<int>>, n: int)
    requires
        n == a.len(),
        n > 0x8000_0000,
    ensures
        !operands_fit(a, b),
{
    assert forall|x: int, y: int| 1 <= x && 1 <= y && #[trigger] within(a, x) && #[trigger] within(b, y) implies 4 * (
        a.len() * a.len()) * (x * y) > i64::MAX by {
        assert(4 * (n * n) * (x * y) > i64::MAX) by (nonlinear_arith)
            requires
                n > 0x8000_0000,
                1 <= x,
                1 <= y,
        ;
    }
}

/// Bounds at least `x` and `y` cannot fit when `x` and `y` do not.
proof fn lemma_no_fit(a: Seq<Seq<int>>, b: Seq<Seq<int>>, n: int, x: int, y: int)
    requires
        n == a.len(),
        1 <= x,
        1 <= y,
        4 * (n * n) * (x * y) > i64::MAX,
        forall|x2: int| 0 <= x2 && #[trigger] within(a, x2) ==> (x == 1 || x <= x2),
        forall|y2: int| 0 <= y2 && #[trigger] within(b, y2) ==> (y == 1 || y <= y2),
    ensures
        !operands_fit(a, b),
{
    assert forall|x2: int, y2: int| 1 <= x2 && 1 <= y2 && #[trigger] within(a, x2) && #[trigger] within(
        b,
        y2,
    ) implies 4 * (a.len() * a.len()) * (x2 * y2) > i64::MAX by {
        assert(x <= x2 && y <= y2);
        assert(4 * (n * n) * (x2 * y2) >= 4 * (n * n) * (x * y)) by (nonlinear_arith)
            requires
                1 <= x <= x2,
                1 <= y <= y2,
        ;
    }
}

/// Multiplies `a` by `b` with `alg` and the standard base-case sizes.
pub fn multiply(alg: Algorithm, a: &Matrix, b: &Matrix) -> (r: Result<Matrix, MatrixError>)
    ensures
        multiply_outcome(alg, Thresholds { sequential: SEQUENTIAL_THRESHOLD, parallel: PARALLEL_THRESHOLD }, a@, b@, r),
{
    multiply_with_thresholds(alg, a, b, Thresholds::standard())
}

/// What `multiply` owes: exactly one error for each way the inputs can be
/// unusable, checked in this order, and otherwise the exact product.
pub open spec fn multiply_outcome(
    alg: Algorithm,
    t: Thresholds,
    a: Seq<Seq<int>>,
    b: Seq<Seq<int>>,
    r: Result<Matrix, MatrixError>,
) -> bool {
    if !shapes_match(a, b) {
        r == Err::<Matrix, MatrixError>(MatrixError::DimensionMismatch)
    } else if !halvable(a.len(), base_case_of(alg, t)) {
        r == Err::<Matrix, MatrixError>(MatrixError::MalformedRecursionInput)
    } else if !operands_fit(a, b) {
        r == Err::<Matrix, MatrixError>(MatrixError::EntriesTooLarge)
    } else {
        r is Ok && r->Ok_0@ == mat_mul(a, b)
    }
}

/// Multiplies `a` by `b` with `alg`, recursing down to the base-case sizes of
/// `t`.
pub fn multiply_with_thresholds(alg: Algorithm, a: &Matrix, b: &Matrix, t: Thresholds) -> (r: Result<
    Matrix,
    MatrixError,
>)
    ensures
        multiply_outcome(alg, t, a@, b@, r),
{
    let n = a.rows.len();
    if !check_square(a, n) || !check_square(b, n) {
        return Err(MatrixError::DimensionMismatch);
    }
    let base = match alg {
        Algorithm::Iterative => usize::MAX,
        Algorithm::DivideConquerSequential | Algorithm::StrassenSequential => t.sequential,
        Algorithm::DivideConquerParallel | Algorithm::StrassenParallel => t.parallel,
    };
    if !check_halvable(n, base) {
        return Err(MatrixError::MalformedRecursionInput);
    }
    if !check_fit(a, b) {
        return Err(MatrixError::EntriesTooLarge);
    }
    let c = match alg {
        Algorithm::Iterative => iterative_multiply(a, b),
        Algorithm::DivideConquerSequential => divide_conquer_with_threshold(a, b, base),
        Algorithm::DivideConquerParallel => divide_conquer_parallel_with_threshold(a, b, base),
        Algorithm::StrassenSequential => strassen_with_threshold(a, b, base),
        Algorithm::StrassenParallel => strassen_parallel_with_threshold(a, b, base),
    };
    Ok(c)
}

/// For square operands of one power-of-two dimension whose entries fit, every
/// algorithm at any positive base-case sizes succeeds, and all of them return
/// the same matrix: the product.
pub proof fn lemma_algorithms_agree(
    alg1: Algorithm,
    t1: Thresholds,
    alg2: Algorithm,
    t2: Thresholds,
    a: Seq<Seq<int>>,
    b: Seq<Seq<int>>,
    r1: Result<Matrix, MatrixError>,
    r2: Result<Matrix, MatrixError>,
)
    requires
        shapes_match(a, b),
        is_power_of_two(a.len()),
        operands_fit(a, b),
        1 <= t1.sequential,
        1 <= t1.parallel,
        1 <= t2.sequential,
        1 <= t2.parallel,
        multiply_outcome(alg1, t1, a, b, r1),
        multiply_outcome(alg2, t2, a, b, r2),
    ensures
        r1 is Ok,
        r2 is Ok,
        r1->Ok_0@ == r2->Ok_0@,
        r1->Ok_0@ == mat_mul(a, b),
{
    lemma_power_of_two_halvable(a.len(), base_case_of(alg1, t1));
    lemma_power_of_two_halvable(a.len(), base_case_of(alg2, t2));
}

/// Repeated calls with one algorithm, one pair of base-case sizes and the same
/// operands give the same outcome: the same error, or equal products.
pub proof fn lemma_deterministic(
    alg: Algorithm,
    t: Thresholds,
    a: Seq<Seq<int>>,
    b: Seq<Seq<int>>,
    r1: Result<Matrix, MatrixError>,
    r2: Result<Matrix, MatrixError>,
)
    requires
        multiply_outcome(alg, t, a, b, r1),
        multiply_outcome(alg, t, a, b, r2),
    ensures
        r1 is Ok <==> r2 is Ok,
        r1 is Ok ==> r1->Ok_0@ == r2->Ok_0@,
        r1 is Err ==> r1 == r2,
{
}

} // verus!
