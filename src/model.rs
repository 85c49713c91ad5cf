use vstd::prelude::*;

verus! {

/// The partial inner product `sum_{t < k} a[i][off + t] * b[off + t][j]`.
pub open spec fn dot_from(a: Seq<Seq<int>>, b: Seq<Seq<int>>, i: int, j: int, off: int, k: nat) -> int
    decreases k,
{
    if k == 0 {
        0
    } else {
        dot_from(a, b, i, j, off, (k - 1) as nat) + a[i][off + k - 1] * b[off + k - 1][j]
    }
}

/// `m` has `n` rows of `n` entries each.
pub open spec fn is_square(m: Seq<Seq<int>>, n: nat) -> bool {
    m.len() == n && forall|i: int| 0 <= i < n ==> (#[trigger] m[i]).len() == n
}

/// The matrix product, with `C[i][j] = sum_k A[i][k] * B[k][j]`.
pub open spec fn mat_mul(a: Seq<Seq<int>>, b: Seq<Seq<int>>) -> Seq<Seq<int>> {
    Seq::new(a.len(), |i: int| Seq::new(a.len(), |j: int| dot_from(a, b, i, j, 0, a.len())))
}

/// The entrywise sum.
pub open spec fn mat_add(a: Seq<Seq<int>>, b: Seq<Seq<int>>) -> Seq<Seq<int>> {
    Seq::new(a.len(), |i: int| Seq::new(a[i].len(), |j: int| a[i][j] + b[i][j]))
}

/// The entrywise difference.
pub open spec fn mat_sub(a: Seq<Seq<int>>, b: Seq<Seq<int>>) -> Seq<Seq<int>> {
    Seq::new(a.len(), |i: int| Seq::new(a[i].len(), |j: int| a[i][j] - b[i][j]))
}

/// The `n`-by-`n` matrix of zeros.
pub open spec fn zero_matrix(n: nat) -> Seq<Seq<int>> {
    Seq::new(n, |i: int| Seq::new(n, |j: int| 0int))
}

/// The `s`-by-`s` window of `m` whose top-left corner is `(r, c)`.
pub open spec fn block(m: Seq<Seq<int>>, r: int, c: int, s: nat) -> Seq<Seq<int>> {
    Seq::new(s, |i: int| Seq::new(s, |j: int| m[r + i][c + j]))
}

/// `d` with the square `blk` copied over it at offset `(r, c)`.
pub open spec fn write_block(d: Seq<Seq<int>>, blk: Seq<Seq<int>>, r: int, c: int) -> Seq<Seq<int>> {
    Seq::new(
        d.len(),
        |i: int|
            Seq::new(
                d[i].len(),
                |j: int|
                    if r <= i < r + blk.len() && c <= j < c + blk.len() {
                        blk[i - r][j - c]
                    } else {
                        d[i][j]
                    },
            ),
    )
}

/// `d` with the four `h`-by-`h` quadrants written at their offsets.
pub open spec fn write_quadrants(
    d: Seq<Seq<int>>,
    c11: Seq<Seq<int>>,
    c12: Seq<Seq<int>>,
    c21: Seq<Seq<int>>,
    c22: Seq<Seq<int>>,
    h: int,
) -> Seq<Seq<int>> {
    write_block(write_block(write_block(write_block(d, c11, 0, 0), c12, 0, h), c21, h, 0), c22, h, h)
}

/// Every entry of `m` lies in `[-x, x]`.
pub open spec fn within(m: Seq<Seq<int>>, x: int) -> bool {
    forall|i: int, j: int| 0 <= i < m.len() && 0 <= j < m[i].len() ==> -x <= #[trigger] m[i][j] <= x
}

/// The entries of `a` and `b` are small enough that every intermediate value of
/// every algorithm here fits in an `i64`.
pub open spec fn operands_fit(a: Seq<Seq<int>>, b: Seq<Seq<int>>) -> bool {
    exists|x: int, y: int|
        1 <= x && 1 <= y && #[trigger] within(a, x) && #[trigger] within(b, y) && 4 * (a.len() * a.len()) * (x * y)
            <= i64::MAX
}

/// `a` and `b` are square of one dimension, with entries small enough for every
/// algorithm here.
pub open spec fn product_inputs(a: Seq<Seq<int>>, b: Seq<Seq<int>>) -> bool {
    is_square(a, a.len()) && is_square(b, a.len()) && operands_fit(a, b)
}

/// `n` halves evenly at every level of recursion above the base-case size `t`.
pub open spec fn halvable(n: nat, t: nat) -> bool
    decreases n,
{
    if n <= t {
        true
    } else {
        n % 2 == 0 && halvable(n / 2, t)
    }
}

/// An inner product over `h + k` indices is the sum of the one over the first
/// `h` and the one over the next `k`.
pub proof fn lemma_dot_split(a: Seq<Seq<int>>, b: Seq<Seq<int>>, i: int, j: int, off: int, h: nat, k: nat)
    ensures
        dot_from(a, b, i, j, off, h + k) == dot_from(a, b, i, j, off, h) + dot_from(a, b, i, j, off + h, k),
    decreases k,
{
    if k > 0 {
        lemma_dot_split(a, b, i, j, off, h, (k - 1) as nat);
        assert(off + (h + k) - 1 == (off + h) + k - 1);
    }
}

/// An inner product of two blocks is an inner product over a window of the
/// whole matrices.
pub proof fn lemma_dot_block(
    a: Seq<Seq<int>>,
    b: Seq<Seq<int>>,
    r: int,
    c: int,
    off: int,
    h: nat,
    i: int,
    j: int,
    k: nat,
)
    requires
        0 <= i < h,
        0 <= j < h,
        k <= h,
    ensures
        dot_from(block(a, r, off, h), block(b, off, c, h), i, j, 0, k) == dot_from(a, b, r + i, c + j, off, k),
    decreases k,
{
    if k > 0 {
        lemma_dot_block(a, b, r, c, off, h, i, j, (k - 1) as nat);
    }
}

/// The inner product is linear in each argument.
pub proof fn lemma_dot_linear(x: Seq<Seq<int>>, y: Seq<Seq<int>>, z: Seq<Seq<int>>, i: int, j: int, k: nat)
    requires
        0 <= i < x.len(),
        x.len() == y.len(),
        x.len() == z.len(),
        is_square(x, x.len()),
        is_square(y, x.len()),
        is_square(z, x.len()),
        0 <= j < x.len(),
        k <= x.len(),
    ensures
        dot_from(mat_add(x, y), z, i, j, 0, k) == dot_from(x, z, i, j, 0, k) + dot_from(y, z, i, j, 0, k),
        dot_from(mat_sub(x, y), z, i, j, 0, k) == dot_from(x, z, i, j, 0, k) - dot_from(y, z, i, j, 0, k),
        dot_from(z, mat_add(x, y), i, j, 0, k) == dot_from(z, x, i, j, 0, k) + dot_from(z, y, i, j, 0, k),
        dot_from(z, mat_sub(x, y), i, j, 0, k) == dot_from(z, x, i, j, 0, k) - dot_from(z, y, i, j, 0, k),
    decreases k,
{
    if k > 0 {
        lemma_dot_linear(x, y, z, i, j, (k - 1) as nat);
        let t = k - 1;
        let (p, q, s) = (x[i][t], y[i][t], z[t][j]);
        let (p2, q2, s2) = (x[t][j], y[t][j], z[i][t]);
        assert((p + q) * s == p * s + q * s) by (nonlinear_arith);
        assert((p - q) * s == p * s - q * s) by (nonlinear_arith);
        assert(s2 * (p2 + q2) == s2 * p2 + s2 * q2) by (nonlinear_arith);
        assert(s2 * (p2 - q2) == s2 * p2 - s2 * q2) by (nonlinear_arith);
    }
}

/// `|p| <= x` and `|q| <= y` give `|p * q| <= x * y`.
pub proof fn lemma_mul_abs(p: int, q: int, x: int, y: int)
    requires
        -x <= p <= x,
        -y <= q <= y,
    ensures
        -(x * y) <= p * q <= x * y,
{
    assert(-(x * y) <= p * q <= x * y) by (nonlinear_arith)
        requires
            -x <= p <= x,
            -y <= q <= y,
    ;
}

/// An inner product over `k` indices of entries bounded by `x` and `y` is at
/// most `k * x * y` in size.
pub proof fn lemma_dot_bound(a: Seq<Seq<int>>, b: Seq<Seq<int>>, i: int, j: int, k: nat, x: int, y: int)
    requires
        is_square(a, a.len()),
        is_square(b, a.len()),
        0 <= i < a.len(),
        0 <= j < a.len(),
        k <= a.len(),
        within(a, x),
        within(b, y),
    ensures
        -(k * (x * y)) <= dot_from(a, b, i, j, 0, k) <= k * (x * y),
    decreases k,
{
    if k > 0 {
        lemma_dot_bound(a, b, i, j, (k - 1) as nat, x, y);
        let t = k - 1;
        assert(-x <= a[i][t] <= x);
        assert(-y <= b[t][j] <= y);
        lemma_mul_abs(a[i][t], b[t][j], x, y);
        assert(k * (x * y) == (k - 1) * (x * y) + x * y) by (nonlinear_arith);
    }
}

/// Every entry of an `n`-by-`n` product is at most `n * x * y` in size.
pub proof fn lemma_product_within(a: Seq<Seq<int>>, b: Seq<Seq<int>>, x: int, y: int)
    requires
        is_square(a, a.len()),
        is_square(b, a.len()),
        within(a, x),
        within(b, y),
    ensures
        within(mat_mul(a, b), a.len() * (x * y)),
        is_square(mat_mul(a, b), a.len()),
{
    assert forall|i: int, j: int| 0 <= i < a.len() && 0 <= j < a.len() implies -(a.len() * (x * y)) <= #[trigger] mat_mul(
        a,
        b,
    )[i][j] <= a.len() * (x * y) by {
        lemma_dot_bound(a, b, i, j, a.len(), x, y);
    }
}

/// Two `n`-square matrices with equal entries are equal.
pub proof fn lemma_entries_equal(x: Seq<Seq<int>>, y: Seq<Seq<int>>, n: nat)
    requires
        is_square(x, n),
        is_square(y, n),
        forall|i: int, j: int| 0 <= i < n && 0 <= j < n ==> #[trigger] x[i][j] == y[i][j],
    ensures
        x == y,
{
    assert forall|i: int| 0 <= i < n implies x[i] =~= y[i] by {
        assert forall|j: int| 0 <= j < n implies x[i][j] == y[i][j] by {}
    }
    assert(x =~= y);
}

/// Sums, differences and products of `n`-square matrices are `n`-square.
pub proof fn lemma_shapes(a: Seq<Seq<int>>, b: Seq<Seq<int>>, n: nat)
    requires
        is_square(a, n),
        is_square(b, n),
    ensures
        is_square(mat_add(a, b), n),
        is_square(mat_sub(a, b), n),
        is_square(mat_mul(a, b), n),
{
}

/// Sums and differences of entries bounded by `p` and `q` are bounded by `p + q`.
pub proof fn lemma_sum_within(a: Seq<Seq<int>>, b: Seq<Seq<int>>, p: int, q: int)
    requires
        is_square(a, a.len()),
        is_square(b, a.len()),
        within(a, p),
        within(b, q),
    ensures
        within(mat_add(a, b), p + q),
        within(mat_sub(a, b), p + q),
        is_square(mat_add(a, b), a.len()),
        is_square(mat_sub(a, b), a.len()),
{
    assert forall|i: int, j: int| 0 <= i < a.len() && 0 <= j < a.len() implies -(p + q) <= #[trigger] mat_add(a, b)[i][j]
        <= p + q && -(p + q) <= #[trigger] mat_sub(a, b)[i][j] <= p + q by {
        assert(-p <= a[i][j] <= p);
        assert(-q <= b[i][j] <= q);
    }
}

/// The block form of the product: each quadrant of `a·b` is the sum of two
/// products of half-size quadrants of `a` and `b`.
pub proof fn lemma_quadrant_product(a: Seq<Seq<int>>, b: Seq<Seq<int>>, h: nat, r: int, c: int)
    requires
        is_square(a, 2 * h),
        is_square(b, 2 * h),
        r == 0 || r == h,
        c == 0 || c == h,
    ensures
        block(mat_mul(a, b), r, c, h) == mat_add(
            mat_mul(block(a, r, 0, h), block(b, 0, c, h)),
            mat_mul(block(a, r, h as int, h), block(b, h as int, c, h)),
        ),
{
    let lhs = block(mat_mul(a, b), r, c, h);
    let rhs = mat_add(mat_mul(block(a, r, 0, h), block(b, 0, c, h)), mat_mul(block(a, r, h as int, h), block(b, h as int, c, h)));
    assert forall|i: int, j: int| 0 <= i < h && 0 <= j < h implies lhs[i][j] == rhs[i][j] by {
        lemma_dot_block(a, b, r, c, 0, h, i, j, h);
        lemma_dot_block(a, b, r, c, h as int, h, i, j, h);
        lemma_dot_split(a, b, r + i, c + j, 0, h, h);
    }
    assert(lhs =~~= rhs);
}

/// Strassen's seven products recombine into the four quadrants of the block
/// product.
pub proof fn lemma_strassen_quadrants(
    a11: Seq<Seq<int>>,
    a12: Seq<Seq<int>>,
    a21: Seq<Seq<int>>,
    a22: Seq<Seq<int>>,
    b11: Seq<Seq<int>>,
    b12: Seq<Seq<int>>,
    b21: Seq<Seq<int>>,
    b22: Seq<Seq<int>>,
    h: nat,
)
    requires
        is_square(a11, h),
        is_square(a12, h),
        is_square(a21, h),
        is_square(a22, h),
        is_square(b11, h),
        is_square(b12, h),
        is_square(b21, h),
        is_square(b22, h),
    ensures
        ({
            let m1 = mat_mul(mat_add(a11, a22), mat_add(b11, b22));
            let m2 = mat_mul(mat_add(a21, a22), b11);
            let m3 = mat_mul(a11, mat_sub(b12, b22));
            let m4 = mat_mul(a22, mat_sub(b21, b11));
            let m5 = mat_mul(mat_add(a11, a12), b22);
            let m6 = mat_mul(mat_sub(a21, a11), mat_add(b11, b12));
            let m7 = mat_mul(mat_sub(a12, a22), mat_add(b21, b22));
            &&& mat_add(mat_sub(mat_add(m1, m4), m5), m7) == mat_add(mat_mul(a11, b11), mat_mul(a12, b21))
            &&& mat_add(m3, m5) == mat_add(mat_mul(a11, b12), mat_mul(a12, b22))
            &&& mat_add(m2, m4) == mat_add(mat_mul(a21, b11), mat_mul(a22, b21))
            &&& mat_add(mat_sub(mat_add(m1, m3), m2), m6) == mat_add(mat_mul(a21, b12), mat_mul(a22, b22))
        }),
{
    let m1 = mat_mul(mat_add(a11, a22), mat_add(b11, b22));
    let m2 = mat_mul(mat_add(a21, a22), b11);
    let m3 = mat_mul(a11, mat_sub(b12, b22));
    let m4 = mat_mul(a22, mat_sub(b21, b11));
    let m5 = mat_mul(mat_add(a11, a12), b22);
    let m6 = mat_mul(mat_sub(a21, a11), mat_add(b11, b12));
    let m7 = mat_mul(mat_sub(a12, a22), mat_add(b21, b22));
    lemma_shapes(a11, a22, h);
    lemma_shapes(a21, a22, h);
    lemma_shapes(a11, a12, h);
    lemma_shapes(a21, a11, h);
    lemma_shapes(a12, a22, h);
    lemma_shapes(b11, b22, h);
    lemma_shapes(b12, b22, h);
    lemma_shapes(b21, b11, h);
    lemma_shapes(b11, b12, h);
    lemma_shapes(b21, b22, h);
    lemma_shapes(mat_add(a11, a22), mat_add(b11, b22), h);
    lemma_shapes(mat_add(a21, a22), b11, h);
    lemma_shapes(a11, mat_sub(b12, b22), h);
    lemma_shapes(a22, mat_sub(b21, b11), h);
    lemma_shapes(mat_add(a11, a12), b22, h);
    lemma_shapes(mat_sub(a21, a11), mat_add(b11, b12), h);
    lemma_shapes(mat_sub(a12, a22), mat_add(b21, b22), h);
    lemma_shapes(m1, m4, h);
    lemma_shapes(mat_add(m1, m4), m5, h);
    lemma_shapes(mat_sub(mat_add(m1, m4), m5), m7, h);
    lemma_shapes(m1, m3, h);
    lemma_shapes(mat_add(m1, m3), m2, h);
    lemma_shapes(mat_sub(mat_add(m1, m3), m2), m6, h);
    lemma_shapes(mat_mul(a11, b11), mat_mul(a12, b21), h);
    lemma_shapes(mat_mul(a21, b12), mat_mul(a22, b22), h);
    lemma_shapes(a11, b11, h);
    lemma_shapes(a12, b21, h);
    lemma_shapes(a21, b12, h);
    lemma_shapes(a22, b22, h);
    assert forall|i: int, j: int| 0 <= i < h && 0 <= j < h implies #[trigger] mat_add(mat_sub(mat_add(m1, m4), m5), m7)[i][j] == mat_add(mat_mul(a11, b11), mat_mul(a12, b21))[i][j] by {
        lemma_strassen_entry(a11, a12, a21, a22, b11, b12, b21, b22, h, i, j);
    }
    assert forall|i: int, j: int| 0 <= i < h && 0 <= j < h implies #[trigger] mat_add(m3, m5)[i][j] == mat_add(mat_mul(a11, b12), mat_mul(a12, b22))[i][j] by {
        lemma_strassen_entry(a11, a12, a21, a22, b11, b12, b21, b22, h, i, j);
    }
    assert forall|i: int, j: int| 0 <= i < h && 0 <= j < h implies #[trigger] mat_add(m2, m4)[i][j] == mat_add(mat_mul(a21, b11), mat_mul(a22, b21))[i][j] by {
        lemma_strassen_entry(a11, a12, a21, a22, b11, b12, b21, b22, h, i, j);
    }
    assert forall|i: int, j: int| 0 <= i < h && 0 <= j < h implies #[trigger] mat_add(mat_sub(mat_add(m1, m3), m2), m6)[i][j] == mat_add(mat_mul(a21, b12), mat_mul(a22, b22))[i][j] by {
        lemma_strassen_entry(a11, a12, a21, a22, b11, b12, b21, b22, h, i, j);
    }
    lemma_shapes(m3, m5, h);
    lemma_shapes(m2, m4, h);
    lemma_shapes(mat_mul(a11, b12), mat_mul(a12, b22), h);
    lemma_shapes(mat_mul(a21, b11), mat_mul(a22, b21), h);
    lemma_shapes(a11, b12, h);
    lemma_shapes(a12, b22, h);
    lemma_shapes(a21, b11, h);
    lemma_shapes(a22, b21, h);
    lemma_shapes(a12, b21, h);
    lemma_shapes(a21, b12, h);
    lemma_entries_equal(mat_add(mat_sub(mat_add(m1, m4), m5), m7), mat_add(mat_mul(a11, b11), mat_mul(a12, b21)), h);
    lemma_entries_equal(mat_add(m3, m5), mat_add(mat_mul(a11, b12), mat_mul(a12, b22)), h);
    lemma_entries_equal(mat_add(m2, m4), mat_add(mat_mul(a21, b11), mat_mul(a22, b21)), h);
    lemma_entries_equal(mat_add(mat_sub(mat_add(m1, m3), m2), m6), mat_add(mat_mul(a21, b12), mat_mul(a22, b22)), h);
}

/// Linearity of the full inner product of `h`-square matrices.
proof fn lemma_linear_sq(x: Seq<Seq<int>>, y: Seq<Seq<int>>, z: Seq<Seq<int>>, h: nat, i: int, j: int)
    requires
        is_square(x, h),
        is_square(y, h),
        is_square(z, h),
        0 <= i < h,
        0 <= j < h,
    ensures
        dot_from(mat_add(x, y), z, i, j, 0, h) == dot_from(x, z, i, j, 0, h) + dot_from(y, z, i, j, 0, h),
        dot_from(mat_sub(x, y), z, i, j, 0, h) == dot_from(x, z, i, j, 0, h) - dot_from(y, z, i, j, 0, h),
        dot_from(z, mat_add(x, y), i, j, 0, h) == dot_from(z, x, i, j, 0, h) + dot_from(z, y, i, j, 0, h),
        dot_from(z, mat_sub(x, y), i, j, 0, h) == dot_from(z, x, i, j, 0, h) - dot_from(z, y, i, j, 0, h),
        is_square(mat_add(x, y), h),
        is_square(mat_sub(x, y), h),
{
    lemma_dot_linear(x, y, z, i, j, h);
    lemma_shapes(x, y, h);
}

/// Strassen's recombination, at one entry `(i, j)`.
proof fn lemma_strassen_entry(
    a11: Seq<Seq<int>>,
    a12: Seq<Seq<int>>,
    a21: Seq<Seq<int>>,
    a22: Seq<Seq<int>>,
    b11: Seq<Seq<int>>,
    b12: Seq<Seq<int>>,
    b21: Seq<Seq<int>>,
    b22: Seq<Seq<int>>,
    h: nat,
    i: int,
    j: int,
)
    requires
        is_square(a11, h),
        is_square(a12, h),
        is_square(a21, h),
        is_square(a22, h),
        is_square(b11, h),
        is_square(b12, h),
        is_square(b21, h),
        is_square(b22, h),
        0 <= i < h,
        0 <= j < h,
    ensures
        ({
            let m1 = mat_mul(mat_add(a11, a22), mat_add(b11, b22));
            let m2 = mat_mul(mat_add(a21, a22), b11);
            let m3 = mat_mul(a11, mat_sub(b12, b22));
            let m4 = mat_mul(a22, mat_sub(b21, b11));
            let m5 = mat_mul(mat_add(a11, a12), b22);
            let m6 = mat_mul(mat_sub(a21, a11), mat_add(b11, b12));
            let m7 = mat_mul(mat_sub(a12, a22), mat_add(b21, b22));
            &&& mat_add(mat_sub(mat_add(m1, m4), m5), m7)[i][j] == mat_add(mat_mul(a11, b11), mat_mul(a12, b21))[i][j]
            &&& mat_add(m3, m5)[i][j] == mat_add(mat_mul(a11, b12), mat_mul(a12, b22))[i][j]
            &&& mat_add(m2, m4)[i][j] == mat_add(mat_mul(a21, b11), mat_mul(a22, b21))[i][j]
            &&& mat_add(mat_sub(mat_add(m1, m3), m2), m6)[i][j] == mat_add(mat_mul(a21, b12), mat_mul(a22, b22))[i][j]
        }),
{
    let p = |x: Seq<Seq<int>>, y: Seq<Seq<int>>| dot_from(x, y, i, j, 0, h);
    // M1 = (A11 + A22)(B11 + B22)
    lemma_linear_sq(a11, a22, mat_add(b11, b22), h, i, j);
    lemma_linear_sq(b11, b22, a11, h, i, j);
    lemma_linear_sq(b11, b22, a22, h, i, j);
    // M2 = (A21 + A22) B11
    lemma_linear_sq(a21, a22, b11, h, i, j);
    // M3 = A11 (B12 - B22)
    lemma_linear_sq(b12, b22, a11, h, i, j);
    // M4 = A22 (B21 - B11)
    lemma_linear_sq(b21, b11, a22, h, i, j);
    // M5 = (A11 + A12) B22
    lemma_linear_sq(a11, a12, b22, h, i, j);
    // M6 = (A21 - A11)(B11 + B12)
    lemma_linear_sq(a21, a11, mat_add(b11, b12), h, i, j);
    lemma_linear_sq(b11, b12, a21, h, i, j);
    lemma_linear_sq(b11, b12, a11, h, i, j);
    // M7 = (A12 - A22)(B21 + B22)
    lemma_linear_sq(a12, a22, mat_add(b21, b22), h, i, j);
    lemma_linear_sq(b21, b22, a12, h, i, j);
    lemma_linear_sq(b21, b22, a22, h, i, j);
}

/// Extracting the four quadrants of `m` and writing them back at their
/// offsets, into any destination of the same shape, gives `m` again.
pub proof fn lemma_quadrants_round_trip(m: Seq<Seq<int>>, d: Seq<Seq<int>>, h: nat)
    requires
        is_square(m, 2 * h),
        is_square(d, 2 * h),
    ensures
        write_quadrants(d, block(m, 0, 0, h), block(m, 0, h as int, h), block(m, h as int, 0, h), block(m, h as int, h as int, h), h as int)
            == m,
{
    let r = write_quadrants(d, block(m, 0, 0, h), block(m, 0, h as int, h), block(m, h as int, 0, h), block(m, h as int, h as int, h), h as int);
    assert forall|i: int| 0 <= i < 2 * h implies r[i] =~= m[i] by {}
    assert(r =~~= m);
}

/// Under the size bound of `operands_fit`, the bounds that the algorithms need
/// at a level of recursion that splits `n = 2 * h`.
pub proof fn lemma_fit_bounds(n: int, h: int, x: int, y: int)
    requires
        n == 2 * h,
        1 <= h,
        1 <= x,
        1 <= y,
        4 * (n * n) * (x * y) <= i64::MAX,
    ensures
        2 * x <= i64::MAX,
        2 * y <= i64::MAX,
        8 * (n * (x * y)) <= i64::MAX,
        h * ((2 * x) * (2 * y)) == 2 * (n * (x * y)),
        4 * (h * h) * ((2 * x) * (2 * y)) == 4 * (n * n) * (x * y),
        4 * (h * h) * (x * y) <= i64::MAX,
        2 * (h * (x * y)) == n * (x * y),
{
    let p = x * y;
    assert(p >= 1) by (nonlinear_arith)
        requires
            1 <= x,
            1 <= y,
            p == x * y,
    ;
    assert(x <= p && y <= p) by (nonlinear_arith)
        requires
            1 <= x,
            1 <= y,
            p == x * y,
    ;
    assert(n * n == 4 * (h * h)) by (nonlinear_arith)
        requires
            n == 2 * h,
    ;
    assert(h * h >= 1) by (nonlinear_arith)
        requires
            1 <= h,
    ;
    assert(8 * (n * p) <= 4 * (n * n) * p) by (nonlinear_arith)
        requires
            n == 2 * h,
            1 <= h,
            p >= 1,
    ;
    assert(4 * (h * h) * p <= 4 * (n * n) * p) by (nonlinear_arith)
        requires
            n * n == 4 * (h * h),
            p >= 1,
    ;
    let nn = n * n;
    assert(4 * nn * p >= 16 * p) by (nonlinear_arith)
        requires
            nn >= 4,
            p >= 1,
    ;
    assert((2 * x) * (2 * y) == 4 * p) by (nonlinear_arith)
        requires
            p == x * y,
    ;
    assert(h * (4 * p) == 2 * (n * p)) by (nonlinear_arith)
        requires
            n == 2 * h,
    ;
    assert(4 * (h * h) * (4 * p) == 4 * (n * n) * p) by (nonlinear_arith)
        requires
            n * n == 4 * (h * h),
    ;
    assert(2 * (h * p) == n * p) by (nonlinear_arith)
        requires
            n == 2 * h,
    ;
}

/// Entrywise sums and differences of matrices bounded by `p` and `q` fit in an
/// `i64` when `p + q` does.
pub proof fn lemma_sum_fits(a: Seq<Seq<int>>, b: Seq<Seq<int>>, p: int, q: int)
    requires
        is_square(a, a.len()),
        is_square(b, a.len()),
        within(a, p),
        within(b, q),
        p + q <= i64::MAX,
    ensures
        forall|i: int, j: int|
            0 <= i < a.len() && 0 <= j < a.len() ==> i64::MIN <= #[trigger] a[i][j] + b[i][j] <= i64::MAX,
        forall|i: int, j: int|
            0 <= i < a.len() && 0 <= j < a.len() ==> i64::MIN <= #[trigger] a[i][j] - b[i][j] <= i64::MAX,
        within(mat_add(a, b), p + q),
        within(mat_sub(a, b), p + q),
        is_square(mat_add(a, b), a.len()),
        is_square(mat_sub(a, b), a.len()),
{
    lemma_sum_within(a, b, p, q);
    assert forall|i: int, j: int| 0 <= i < a.len() && 0 <= j < a.len() implies i64::MIN <= #[trigger] a[i][j] + b[i][j]
        <= i64::MAX && i64::MIN <= a[i][j] - b[i][j] <= i64::MAX by {
        assert(-p <= a[i][j] <= p);
        assert(-q <= b[i][j] <= q);
    }
}

/// Quadrants of a matrix bounded by `x` are bounded by `x`.
pub proof fn lemma_block_within(m: Seq<Seq<int>>, n: nat, r: int, c: int, h: nat, x: int)
    requires
        is_square(m, n),
        within(m, x),
        0 <= r,
        0 <= c,
        r + h <= n,
        c + h <= n,
    ensures
        within(block(m, r, c, h), x),
        is_square(block(m, r, c, h), h),
{
    assert forall|i: int, j: int| 0 <= i < h && 0 <= j < h implies -x <= #[trigger] block(m, r, c, h)[i][j] <= x by {
        assert(-x <= m[r + i][c + j] <= x);
    }
}

/// A bound on the entries holds for every larger bound too.
pub proof fn lemma_within_mono(m: Seq<Seq<int>>, x: int, x2: int)
    requires
        within(m, x),
        x <= x2,
    ensures
        within(m, x2),
{
}

/// An inner product with a zero matrix, on either side, is zero.
proof fn lemma_dot_zero(a: Seq<Seq<int>>, n: nat, i: int, j: int, k: nat)
    requires
        k <= n,
        0 <= i < n,
        0 <= j < n,
    ensures
        dot_from(a, zero_matrix(n), i, j, 0, k) == 0,
        dot_from(zero_matrix(n), a, i, j, 0, k) == 0,
    decreases k,
{
    if k > 0 {
        lemma_dot_zero(a, n, i, j, (k - 1) as nat);
        assert(a[i][k - 1] * 0 == 0);
        assert(0 * a[k - 1][j] == 0);
    }
}

/// Multiplying by the zero matrix, on either side, gives the zero matrix;
/// adding the zero matrix changes nothing; a matrix minus itself is zero.
pub proof fn lemma_zero_laws(a: Seq<Seq<int>>, n: nat)
    requires
        is_square(a, n),
    ensures
        mat_mul(a, zero_matrix(n)) == zero_matrix(n),
        mat_mul(zero_matrix(n), a) == zero_matrix(n),
        mat_add(a, zero_matrix(n)) == a,
        mat_sub(a, a) == zero_matrix(n),
{
    assert forall|i: int, j: int| 0 <= i < n && 0 <= j < n implies #[trigger] mat_mul(a, zero_matrix(n))[i][j] == 0
        && mat_mul(zero_matrix(n), a)[i][j] == 0 by {
        lemma_dot_zero(a, n, i, j, n);
    }
    lemma_shapes(a, zero_matrix(n), n);
    lemma_shapes(zero_matrix(n), a, n);
    lemma_shapes(a, a, n);
    lemma_entries_equal(mat_mul(a, zero_matrix(n)), zero_matrix(n), n);
    lemma_entries_equal(mat_mul(zero_matrix(n), a), zero_matrix(n), n);
    lemma_entries_equal(mat_add(a, zero_matrix(n)), a, n);
    lemma_entries_equal(mat_sub(a, a), zero_matrix(n), n);
}

/// `n` is `2^k` for some `k`.
pub open spec fn is_power_of_two(n: nat) -> bool
    decreases n,
{
    if n <= 1 {
        n == 1
    } else {
        n % 2 == 0 && is_power_of_two(n / 2)
    }
}

/// A power of two halves evenly down to any positive base-case size.
pub proof fn lemma_power_of_two_halvable(n: nat, t: nat)
    requires
        is_power_of_two(n),
        1 <= t,
    ensures
        halvable(n, t),
    decreases n,
{
    if n > t {
        lemma_power_of_two_halvable(n / 2, t);
    }
}

} // verus!
