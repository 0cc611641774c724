//! Algebraic facts about the operations of `Matrix`, stated over the views its
//! operations are specified with.
use vstd::prelude::*;
use crate::matrix::{
    all_fit, column_of, dot, has_shape, identity_of, product_fits, product_of, row_of, scale_of,
    transpose_of, with_column, with_row, fits_i64,
};
use vstd::arithmetic::mul::lemma_mul_is_associative;

verus! {

/// Transposing twice gives back the matrix.
pub proof fn lemma_transpose_twice<T>(m: Seq<Seq<T>>, rows: int, cols: int)
    requires
        0 <= rows,
        0 <= cols,
        has_shape(m, rows, cols),
    ensures
        transpose_of(transpose_of(m, cols), rows) == m,
{
    let t = transpose_of(transpose_of(m, cols), rows);
    assert forall|r: int| 0 <= r < rows implies #[trigger] t[r] == m[r] by {
        assert(t[r] =~= m[r]);
    }
    assert(t =~= m);
}

/// Putting back a column that was taken out leaves the matrix as it was.
pub proof fn lemma_set_column_of_own_column<T>(m: Seq<Seq<T>>, rows: int, cols: int, i: int)
    requires
        has_shape(m, rows, cols),
        0 <= i < cols,
    ensures
        with_column(m, i, column_of(m, i)) == m,
{
    let w = with_column(m, i, column_of(m, i));
    assert forall|r: int| 0 <= r < rows implies #[trigger] w[r] == m[r] by {
        assert(w[r] =~= m[r]);
    }
    assert(w =~= m);
}

/// Putting back a row that was taken out leaves the matrix as it was.
pub proof fn lemma_set_row_of_own_row<T>(m: Seq<Seq<T>>, rows: int, cols: int, i: int)
    requires
        has_shape(m, rows, cols),
        0 <= i < rows,
    ensures
        with_row(m, i, row_of(m, i)) == m,
{
    assert(with_row(m, i, row_of(m, i)) =~= m);
}

/// Scaling by `s` and then by `t` is scaling by `s * t`.
pub proof fn lemma_scale_twice(m: Seq<Seq<int>>, s: int, t: int)
    ensures
        scale_of(scale_of(m, s), t) == scale_of(m, s * t),
{
    let lhs = scale_of(scale_of(m, s), t);
    let rhs = scale_of(m, s * t);
    assert forall|r: int| 0 <= r < m.len() implies #[trigger] lhs[r] == rhs[r] by {
        assert forall|c: int| 0 <= c < m[r].len() implies #[trigger] lhs[r][c] == rhs[r][c] by {
            lemma_mul_is_associative(m[r][c], s, t);
        }
        assert(lhs[r] =~= rhs[r]);
    }
    assert(lhs =~= rhs);
}

proof fn lemma_dot_identity_right(m: Seq<Seq<int>>, n: int, i: int, j: int, k: int)
    requires
        has_shape(m, n, n),
        0 <= i < n,
        0 <= j < n,
        0 <= k <= n,
    ensures
        dot(m, identity_of(n), i, j, k) == if j < k { m[i][j] } else { 0 },
    decreases k,
{
    if k > 0 {
        lemma_dot_identity_right(m, n, i, j, k - 1);
    }
}

proof fn lemma_dot_identity_left(m: Seq<Seq<int>>, n: int, i: int, j: int, k: int)
    requires
        has_shape(m, n, n),
        0 <= i < n,
        0 <= j < n,
        0 <= k <= n,
    ensures
        dot(identity_of(n), m, i, j, k) == if i < k { m[i][j] } else { 0 },
    decreases k,
{
    if k > 0 {
        lemma_dot_identity_left(m, n, i, j, k - 1);
    }
}

/// The identity matrix is neutral on both sides of the product, and a product with it never
/// leaves the range of `i64` where the matrix does not.
pub proof fn lemma_identity_neutral(m: Seq<Seq<int>>, n: int)
    requires
        0 <= n,
        has_shape(m, n, n),
        all_fit(m),
    ensures
        product_fits(m, identity_of(n), n, n),
        product_fits(identity_of(n), m, n, n),
        product_of(m, identity_of(n), n, n) == m,
        product_of(identity_of(n), m, n, n) == m,
{
    let id = identity_of(n);
    assert forall|i: int, j: int, k: int| 0 <= i < n && 0 <= j < n && 0 <= k < n implies {
        &&& fits_i64(#[trigger] (m[i][k] * id[k][j]))
        &&& fits_i64(dot(m, id, i, j, k + 1))
    } by {
        lemma_dot_identity_right(m, n, i, j, k + 1);
        assert(fits_i64(m[i][k]));
        assert(fits_i64(m[i][j]));
    }
    assert forall|i: int, j: int, k: int| 0 <= i < n && 0 <= j < n && 0 <= k < n implies {
        &&& fits_i64(#[trigger] (id[i][k] * m[k][j]))
        &&& fits_i64(dot(id, m, i, j, k + 1))
    } by {
        lemma_dot_identity_left(m, n, i, j, k + 1);
        assert(fits_i64(m[k][j]));
        assert(fits_i64(m[i][j]));
    }
    let right = product_of(m, id, n, n);
    let left = product_of(id, m, n, n);
    assert forall|i: int| 0 <= i < n implies #[trigger] right[i] == m[i] && left[i] == m[i] by {
        assert forall|j: int| 0 <= j < n implies #[trigger] right[i][j] == m[i][j] && left[i][j]
            == m[i][j] by {
            lemma_dot_identity_right(m, n, i, j, n);
            lemma_dot_identity_left(m, n, i, j, n);
        }
        assert(right[i] =~= m[i]);
        assert(left[i] =~= m[i]);
    }
    assert(right =~= m);
    assert(left =~= m);
}

} // verus!
