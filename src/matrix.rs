use vstd::prelude::*;

use crate::model::{block, is_square, mat_add, mat_sub, write_block, zero_matrix};

verus! {

/// A dense matrix stored as a vector of rows.
pub struct Matrix {
    pub rows: Vec<Vec<i64>>,
}

impl View for Matrix {
    type V = Seq<Seq<int>>;

    open spec fn view(&self) -> Seq<Seq<int>> {
        Seq::new(self.rows@.len(), |i: int| Seq::new(self.rows@[i]@.len(), |j: int| self.rows@[i]@[j] as int))
    }
}

impl Matrix {
    /// The number of rows.
    pub fn dim(&self) -> (r: usize)
        ensures
            r == self@.len(),
    {
        self.rows.len()
    }

    /// Entry `(i, j)`.
    pub fn get(&self, i: usize, j: usize) -> (r: i64)
        requires
            i < self@.len(),
            j < self@[i as int].len(),
        ensures
            r == self@[i as int][j as int],
    {
        self.rows[i][j]
    }
}

/// The `n`-by-`n` matrix of zeros.
pub fn create_zero_matrix(n: usize) -> (r: Matrix)
    ensures
        r@ == zero_matrix(n as nat),
{
    let mut rows: Vec<Vec<i64>> = Vec::new();
    let mut i: usize = 0;
    while i < n
        invariant
            i <= n,
            rows@.len() == i,
            forall|k: int| 0 <= k < i ==> (#[trigger] rows@[k])@ == Seq::new(n as nat, |j: int| 0i64),
        decreases n - i,
    {
        let mut row: Vec<i64> = Vec::new();
        let mut j: usize = 0;
        while j < n
            invariant
                j <= n,
                row@ == Seq::new(j as nat, |t: int| 0i64),
            decreases n - j,
        {
            row.push(0);
            j += 1;
            assert(row@ =~= Seq::new(j as nat, |t: int| 0i64));
        }
        rows.push(row);
        i += 1;
    }
    let r = Matrix { rows };
    assert forall|k: int| 0 <= k < n implies r@[k] =~= zero_matrix(n as nat)[k] by {}
    assert(r@ =~= zero_matrix(n as nat));
    r
}

/// Entrywise sum or difference of two `n`-square matrices whose results fit.
fn combine(a: &Matrix, b: &Matrix, subtract: bool) -> (r: Matrix)
    requires
        is_square(a@, a@.len()),
        is_square(b@, a@.len()),
        forall|i: int, j: int|
            0 <= i < a@.len() && 0 <= j < a@.len() ==> i64::MIN <= (if subtract {
                #[trigger] a@[i][j] - b@[i][j]
            } else {
                a@[i][j] + b@[i][j]
            }) <= i64::MAX,
    ensures
        r@ == (if subtract { mat_sub(a@, b@) } else { mat_add(a@, b@) }),
{
    let ghost want = if subtract { mat_sub(a@, b@) } else { mat_add(a@, b@) };
    let n = a.rows.len();
    let mut rows: Vec<Vec<i64>> = Vec::new();
    let mut i: usize = 0;
    while i < n
        invariant
            n == a@.len(),
            is_square(a@, n as nat),
            is_square(b@, n as nat),
            want == (if subtract { mat_sub(a@, b@) } else { mat_add(a@, b@) }),
            forall|i: int, j: int|
                0 <= i < a@.len() && 0 <= j < a@.len() ==> i64::MIN <= (if subtract {
                    #[trigger] a@[i][j] - b@[i][j]
                } else {
                    a@[i][j] + b@[i][j]
                }) <= i64::MAX,
            i <= n,
            rows@.len() == i,
            forall|k: int| 0 <= k < i ==> (#[trigger] rows@[k])@.len() == n,
            forall|k: int, j: int| 0 <= k < i && 0 <= j < n ==> rows@[k]@[j] as int == want[k][j],
        decreases n - i,
    {
        let mut row: Vec<i64> = Vec::new();
        let mut j: usize = 0;
        while j < n
            invariant
                n == a@.len(),
                is_square(a@, n as nat),
                is_square(b@, n as nat),
                want == (if subtract { mat_sub(a@, b@) } else { mat_add(a@, b@) }),
                forall|i: int, j: int|
                    0 <= i < a@.len() && 0 <= j < a@.len() ==> i64::MIN <= (if subtract {
                        #[trigger] a@[i][j] - b@[i][j]
                    } else {
                        a@[i][j] + b@[i][j]
                    }) <= i64::MAX,
                i < n,
                j <= n,
                row@.len() == j,
                forall|t: int| 0 <= t < j ==> row@[t] as int == want[i as int][t],
            decreases n - j,
        {
            assert(a@[i as int][j as int] == a.rows@[i as int]@[j as int]);
            assert(b@[i as int][j as int] == b.rows@[i as int]@[j as int]);
            let v = if subtract {
                a.rows[i][j] - b.rows[i][j]
            } else {
                a.rows[i][j] + b.rows[i][j]
            };
            row.push(v);
            j += 1;
        }
        rows.push(row);
        i += 1;
    }
    let r = Matrix { rows };
    assert forall|k: int| 0 <= k < n implies r@[k] =~= want[k] by {}
    assert(r@ =~= want);
    r
}

/// The entrywise sum `a + b`.
pub fn add_matrices(a: &Matrix, b: &Matrix) -> (r: Matrix)
    requires
        is_square(a@, a@.len()),
        is_square(b@, a@.len()),
        forall|i: int, j: int|
            0 <= i < a@.len() && 0 <= j < a@.len() ==> i64::MIN <= #[trigger] a@[i][j] + b@[i][j] <= i64::MAX,
    ensures
        r@ == mat_add(a@, b@),
{
    combine(a, b, false)
}

/// The entrywise difference `a - b`.
pub fn subtract_matrices(a: &Matrix, b: &Matrix) -> (r: Matrix)
    requires
        is_square(a@, a@.len()),
        is_square(b@, a@.len()),
        forall|i: int, j: int|
            0 <= i < a@.len() && 0 <= j < a@.len() ==> i64::MIN <= #[trigger] a@[i][j] - b@[i][j] <= i64::MAX,
    ensures
        r@ == mat_sub(a@, b@),
{
    combine(a, b, true)
}

/// A copy of the `size`-by-`size` window of `m` at `(row_start, col_start)`.
pub fn get_submatrix(m: &Matrix, row_start: usize, col_start: usize, size: usize) -> (r: Matrix)
    requires
        is_square(m@, m@.len()),
        row_start + size <= m@.len(),
        col_start + size <= m@.len(),
    ensures
        r@ == block(m@, row_start as int, col_start as int, size as nat),
{
    let ghost want = block(m@, row_start as int, col_start as int, size as nat);
    let n = m.rows.len();
    let mut rows: Vec<Vec<i64>> = Vec::new();
    let mut i: usize = 0;
    while i < size
        invariant
            is_square(m@, m@.len()),
            n == m@.len(),
            row_start + size <= m@.len(),
            col_start + size <= m@.len(),
            want == block(m@, row_start as int, col_start as int, size as nat),
            i <= size,
            rows@.len() == i,
            forall|k: int| 0 <= k < i ==> (#[trigger] rows@[k])@.len() == size,
            forall|k: int, j: int| 0 <= k < i && 0 <= j < size ==> rows@[k]@[j] as int == want[k][j],
        decreases size - i,
    {
        let mut row: Vec<i64> = Vec::new();
        let mut j: usize = 0;
        while j < size
            invariant
                is_square(m@, m@.len()),
                n == m@.len(),
                row_start + size <= m@.len(),
                col_start + size <= m@.len(),
                want == block(m@, row_start as int, col_start as int, size as nat),
                i < size,
                j <= size,
                row@.len() == j,
                forall|t: int| 0 <= t < j ==> row@[t] as int == want[i as int][t],
            decreases size - j,
        {
            assert(m@[row_start + i][col_start + j] == m.rows@[row_start + i]@[col_start + j]);
            row.push(m.rows[row_start + i][col_start + j]);
            j += 1;
        }
        rows.push(row);
        i += 1;
    }
    let r = Matrix { rows };
    assert forall|k: int| 0 <= k < size implies r@[k] =~= want[k] by {}
    assert(r@ =~= want);
    r
}

/// Copies `sub` into `dest` with its top-left corner at `(row_start, col_start)`;
/// every other entry of `dest` is kept.
pub fn set_submatrix(dest: &mut Matrix, sub: &Matrix, row_start: usize, col_start: usize)
    requires
        is_square(old(dest)@, old(dest)@.len()),
        is_square(sub@, sub@.len()),
        row_start + sub@.len() <= old(dest)@.len(),
        col_start + sub@.len() <= old(dest)@.len(),
    ensures
        final(dest)@ == write_block(old(dest)@, sub@, row_start as int, col_start as int),
{
    let ghost want = write_block(old(dest)@, sub@, row_start as int, col_start as int);
    let n = dest.rows.len();
    let size = sub.rows.len();
    let mut i: usize = 0;
    while i < size
        invariant
            n == old(dest)@.len(),
            is_square(old(dest)@, n as nat),
            is_square(sub@, size as nat),
            row_start + size <= n,
            col_start + size <= n,
            want == write_block(old(dest)@, sub@, row_start as int, col_start as int),
            i <= size,
            is_square(dest@, n as nat),
            forall|k: int, t: int|
                0 <= k < n && 0 <= t < n ==> #[trigger] dest@[k][t] == (if k < row_start + i {
                    want[k][t]
                } else {
                    old(dest)@[k][t]
                }),
        decreases size - i,
    {
        let mut j: usize = 0;
        while j < size
            invariant
                n == old(dest)@.len(),
                is_square(old(dest)@, n as nat),
                is_square(sub@, size as nat),
                row_start + size <= n,
                col_start + size <= n,
                want == write_block(old(dest)@, sub@, row_start as int, col_start as int),
                i < size,
                j <= size,
                is_square(dest@, n as nat),
                forall|k: int, t: int|
                    0 <= k < n && 0 <= t < n ==> #[trigger] dest@[k][t] == (if k < row_start + i || (k == row_start
                        + i && col_start <= t < col_start + j) {
                        want[k][t]
                    } else {
                        old(dest)@[k][t]
                    }),
            decreases size - j,
        {
            assert(sub@[i as int][j as int] == sub.rows@[i as int]@[j as int]);
            let v = sub.rows[i][j];
            let ghost before = dest@;
            let ghost before_rows = dest.rows@;
            assert(dest@[row_start + i].len() == n);
            assert(dest.rows@[row_start + i]@.len() == n);
            dest.rows[row_start + i][col_start + j] = v;
            assert(dest.rows@.len() == n);
            assert forall|k: int| 0 <= k < n implies (#[trigger] dest.rows@[k])@.len() == n by {
                if k != row_start + i {
                    assert(dest.rows@[k] == before_rows[k]);
                    assert(before[k].len() == n);
                }
            }
            assert forall|k: int| 0 <= k < n implies (#[trigger] dest@[k]).len() == n by {
                assert(dest.rows@[k]@.len() == n);
            }
            assert forall|k: int, t: int| 0 <= k < n && 0 <= t < n implies #[trigger] dest@[k][t] == (if k == row_start
                + i && t == col_start + j {
                v as int
            } else {
                before[k][t]
            }) by {}
            j += 1;
        }
        i += 1;
    }
    assert forall|k: int| 0 <= k < n implies dest@[k] =~= want[k] by {}
    assert(dest@ =~= want);
}

} // verus!
