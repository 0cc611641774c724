use vstd::prelude::*;

verus! {

/// `m` has `rows` rows of `cols` cells each.
pub open spec fn has_shape<T>(m: Seq<Seq<T>>, rows: int, cols: int) -> bool {
    &&& m.len() == rows
    &&& forall|r: int| 0 <= r < rows ==> (#[trigger] m[r]).len() == cols
}

/// The transpose of `m`, a matrix with `cols` columns.
pub open spec fn transpose_of<T>(m: Seq<Seq<T>>, cols: int) -> Seq<Seq<T>> {
    Seq::new(cols as nat, |c: int| Seq::new(m.len(), |r: int| m[r][c]))
}

/// The `rows` x `cols` matrix whose every cell is `v`.
pub open spec fn filled_of<T>(v: T, rows: int, cols: int) -> Seq<Seq<T>> {
    Seq::new(rows as nat, |r: int| Seq::new(cols as nat, |c: int| v))
}

/// Column `i` of `m`, as a matrix of one column.
pub open spec fn column_of<T>(m: Seq<Seq<T>>, i: int) -> Seq<Seq<T>> {
    Seq::new(m.len(), |r: int| seq![m[r][i]])
}

/// Row `i` of `m`, as a matrix of one row.
pub open spec fn row_of<T>(m: Seq<Seq<T>>, i: int) -> Seq<Seq<T>> {
    seq![m[i]]
}

/// `m` with column `i` replaced by the one column of `col`.
pub open spec fn with_column<T>(m: Seq<Seq<T>>, i: int, col: Seq<Seq<T>>) -> Seq<Seq<T>> {
    Seq::new(m.len(), |r: int| m[r].update(i, col[r][0]))
}

/// `m` with row `i` replaced by the one row of `row`.
pub open spec fn with_row<T>(m: Seq<Seq<T>>, i: int, row: Seq<Seq<T>>) -> Seq<Seq<T>> {
    m.update(i, row[0])
}

/// `x` is a value of `i64`.
pub open spec fn fits_i64(x: int) -> bool {
    i64::MIN <= x <= i64::MAX
}

/// Every cell of `m` is a value of `i64`.
pub open spec fn all_fit(m: Seq<Seq<int>>) -> bool {
    forall|r: int, c: int| 0 <= r < m.len() && 0 <= c < m[r].len() ==> fits_i64(#[trigger] m[r][c])
}

/// The cells of `m` as mathematical integers.
pub open spec fn to_int(m: Seq<Seq<i64>>) -> Seq<Seq<int>> {
    m.map_values(|row: Seq<i64>| row.map_values(|e: i64| e as int))
}

/// `m` with every cell multiplied by `s`.
pub open spec fn scale_of(m: Seq<Seq<int>>, s: int) -> Seq<Seq<int>> {
    m.map_values(|row: Seq<int>| row.map_values(|e: int| e * s))
}

/// The sum over `k` in `[0, n)` of `a[i][k] * b[k][j]`, added from left to right.
pub open spec fn dot(a: Seq<Seq<int>>, b: Seq<Seq<int>>, i: int, j: int, n: int) -> int
    decreases n,
{
    if n <= 0 {
        0
    } else {
        dot(a, b, i, j, n - 1) + a[i][n - 1] * b[n - 1][j]
    }
}

/// The product of `a` and `b`, where `n` is the inner dimension and `cols` the column count
/// of `b`.
pub open spec fn product_of(a: Seq<Seq<int>>, b: Seq<Seq<int>>, n: int, cols: int) -> Seq<
    Seq<int>,
> {
    Seq::new(a.len(), |i: int| Seq::new(cols as nat, |j: int| dot(a, b, i, j, n)))
}

/// Every term and every partial sum met while computing the product of `a` and `b` left to
/// right is a value of `i64`.
pub open spec fn product_fits(a: Seq<Seq<int>>, b: Seq<Seq<int>>, n: int, cols: int) -> bool {
    forall|i: int, j: int, k: int|
        0 <= i < a.len() && 0 <= j < cols && 0 <= k < n ==> {
            &&& fits_i64(#[trigger] (a[i][k] * b[k][j]))
            &&& fits_i64(dot(a, b, i, j, k + 1))
        }
}

/// The `n` x `n` identity matrix.
pub open spec fn identity_of(n: int) -> Seq<Seq<int>> {
    Seq::new(n as nat, |i: int| Seq::new(n as nat, |j: int| if i == j { 1int } else { 0int }))
}

/// A dense `ROW` x `COL` matrix, stored row by row.
///
/// The shape is part of the type. The constructors ask for at least one row and one
/// column, and `mul` accepts only a right operand whose row count is this matrix's
/// column count, so a mismatch of dimensions is a type error.
pub struct Matrix<T, const ROW: usize, const COL: usize> {
    pub values: [[T; COL]; ROW],
}

impl<T, const ROW: usize, const COL: usize> View for Matrix<T, ROW, COL> {
    type V = Seq<Seq<T>>;

    /// The rows of the matrix, each the sequence of its cells.
    open spec fn view(&self) -> Seq<Seq<T>> {
        Seq::new(ROW as nat, |r: int| self.values[r]@)
    }
}

impl<T: Copy, const ROW: usize, const COL: usize> Matrix<T, ROW, COL> {
    /// The pair (row count, column count).
    pub fn size(&self) -> (r: (usize, usize))
        ensures
            r == (ROW, COL),
    {
        (ROW, COL)
    }

    /// Every matrix has the shape its type gives.
    pub proof fn lemma_shape(&self)
        ensures
            has_shape(self@, ROW as int, COL as int),
    {
    }

    /// A matrix whose every cell is `v`.
    pub fn values(v: T) -> (m: Self)
        requires
            1 <= ROW,
            1 <= COL,
        ensures
            m@ == filled_of(v, ROW as int, COL as int),
    {
        let m = Matrix { values: [[v; COL]; ROW] };
        assert(m@ =~~= filled_of(v, ROW as int, COL as int));
        m
    }

    /// The matrix whose cell (r, c) is `arr[r][c]`.
    pub fn from_2d_array(arr: [[T; COL]; ROW]) -> (m: Self)
        requires
            1 <= ROW,
            1 <= COL,
        ensures
            m.values == arr,
            forall|r: int, c: int| 0 <= r < ROW && 0 <= c < COL ==> m@[r][c] == arr[r][c],
    {
        Matrix { values: arr }
    }

    /// The column vector holding the cells of `arr` in order.
    pub fn from_1d_array(arr: [T; COL]) -> (m: Matrix<T, COL, 1>)
        requires
            1 <= COL,
        ensures
            m@ == Seq::new(COL as nat, |r: int| seq![arr[r]]),
    {
        let line = Matrix::<T, 1, COL> { values: [arr] };
        let m = line.transposed();
        assert(m@ =~~= Seq::new(COL as nat, |r: int| seq![arr[r]]));
        m
    }

    /// The cell at (`row`, `col`), or `None` where either index is out of range.
    pub fn get(&self, row: usize, col: usize) -> (v: Option<T>)
        ensures
            (row < ROW && col < COL) <==> v is Some,
            v matches Some(x) ==> x == self@[row as int][col as int],
    {
        if row < ROW && col < COL {
            Some(self.values[row][col])
        } else {
            None
        }
    }

    /// Writes `v` into the cell at (`row`, `col`).
    pub fn set(&mut self, row: usize, col: usize, v: T)
        requires
            row < ROW,
            col < COL,
        ensures
            final(self)@ == old(self)@.update(row as int, old(self)@[row as int].update(col as int, v)),
    {
        self.values[row][col] = v;
        assert(self@ =~~= old(self)@.update(row as int, old(self)@[row as int].update(col as int, v)));
    }

    /// Column `col` of this matrix, as a `ROW` x 1 matrix.
    pub fn col(&self, col: usize) -> (m: Matrix<T, ROW, 1>)
        requires
            1 <= ROW,
            col < COL,
        ensures
            m@ == column_of(self@, col as int),
    {
        let mut m = Matrix::<T, ROW, 1> { values: [[self.values[0][col]; 1]; ROW] };
        for row in 0..ROW
            invariant
                col < COL,
                forall|k: int| 0 <= k < row ==> m.values[k][0] == self.values[k][col as int],
        {
            m.values[row][0] = self.values[row][col];
        }
        assert(m@ =~~= column_of(self@, col as int));
        m
    }

    /// Column `col` of this matrix, or `None` where `col` is not below `COL`.
    pub fn try_col(&self, col: usize) -> (m: Option<Matrix<T, ROW, 1>>)
        requires
            1 <= ROW,
        ensures
            col >= COL <==> m is None,
            m matches Some(v) ==> v@ == column_of(self@, col as int),
    {
        if col < COL {
            Some(self.col(col))
        } else {
            None
        }
    }

    /// Replaces column `idx` with the cells of `col`, in row order.
    pub fn set_col(&mut self, idx: usize, col: Matrix<T, ROW, 1>)
        requires
            idx < COL,
        ensures
            final(self)@ == with_column(old(self)@, idx as int, col@),
    {
        for i in 0..ROW
            invariant
                idx < COL,
                forall|k: int, c: int|
                    0 <= k < ROW && 0 <= c < COL ==> #[trigger] self.values[k][c] == if k < i
                        && c == idx {
                        col.values[k][0]
                    } else {
                        old(self).values[k][c]
                    },
        {
            self.values[i][idx] = col.values[i][0];
        }
        assert(self@ =~~= with_column(old(self)@, idx as int, col@));
    }

    /// Row `row` of this matrix, as a 1 x `COL` matrix.
    pub fn row(&self, row: usize) -> (m: Matrix<T, 1, COL>)
        requires
            row < ROW,
        ensures
            m@ == row_of(self@, row as int),
    {
        let m = Matrix::<T, 1, COL> { values: [self.values[row]] };
        assert(m@ =~~= row_of(self@, row as int));
        m
    }

    /// Row `row` of this matrix, or `None` where `row` is not below `ROW`.
    pub fn try_row(&self, row: usize) -> (m: Option<Matrix<T, 1, COL>>)
        ensures
            row >= ROW <==> m is None,
            m matches Some(v) ==> v@ == row_of(self@, row as int),
    {
        if row < ROW {
            Some(self.row(row))
        } else {
            None
        }
    }

    /// Replaces row `idx` with the cells of `row`.
    pub fn set_row(&mut self, idx: usize, row: Matrix<T, 1, COL>)
        requires
            idx < ROW,
        ensures
            final(self)@ == with_row(old(self)@, idx as int, row@),
    {
        self.values[idx] = row.values[0];
        assert(self@ =~~= with_row(old(self)@, idx as int, row@));
    }

    /// A new `COL` x `ROW` matrix whose cell (c, r) is this matrix's cell (r, c).
    pub fn transposed(&self) -> (m: Matrix<T, COL, ROW>)
        requires
            1 <= ROW,
            1 <= COL,
        ensures
            m@ == transpose_of(self@, COL as int),
    {
        let mut m = Matrix::<T, COL, ROW> { values: [[self.values[0][0]; ROW]; COL] };
        for r in 0..ROW
            invariant
                forall|c: int, k: int|
                    0 <= c < COL && 0 <= k < r ==> m.values[c][k] == self.values[k][c],
        {
            for c in 0..COL
                invariant
                    forall|c2: int, k: int|
                        0 <= c2 < COL && 0 <= k < r ==> m.values[c2][k] == self.values[k][c2],
                    r < ROW,
                    forall|c2: int| 0 <= c2 < c ==> m.values[c2][r as int] == self.values[r as int][c2],
            {
                m.values[c][r] = self.values[r][c];
            }
        }
        assert(m@ =~~= transpose_of(self@, COL as int));
        m
    }
}

impl<const ROW: usize, const COL: usize> Matrix<i64, ROW, COL> {
    /// The cells as mathematical integers.
    pub open spec fn model(&self) -> Seq<Seq<int>> {
        to_int(self@)
    }

    /// The integer cells have the matrix's shape and lie in the range of `i64`.
    pub proof fn lemma_model(&self)
        ensures
            has_shape(self.model(), ROW as int, COL as int),
            all_fit(self.model()),
    {
    }

    /// The matrix whose every cell is zero.
    pub fn zero() -> (m: Self)
        requires
            1 <= ROW,
            1 <= COL,
        ensures
            m@ == filled_of(0i64, ROW as int, COL as int),
            forall|r: int, c: int| 0 <= r < ROW && 0 <= c < COL ==> m@[r][c] == 0,
    {
        Self::values(0)
    }

    /// Multiplies every cell by `s`, in place.
    pub fn scale(&mut self, s: i64)
        requires
            all_fit(scale_of(old(self).model(), s as int)),
        ensures
            final(self).model() == scale_of(old(self).model(), s as int),
    {
        for r in 0..ROW
            invariant
                all_fit(scale_of(old(self).model(), s as int)),
                forall|k: int, c: int|
                    0 <= k < ROW && 0 <= c < COL ==> #[trigger] self.values[k][c] == if k < r {
                        old(self).values[k][c] * s
                    } else {
                        old(self).values[k][c] as int
                    },
        {
            for c in 0..COL
                invariant
                    r < ROW,
                    all_fit(scale_of(old(self).model(), s as int)),
                    forall|k: int, c2: int|
                        0 <= k < ROW && 0 <= c2 < COL ==> #[trigger] self.values[k][c2] == if k < r
                            || (k == r && c2 < c) {
                            old(self).values[k][c2] * s
                        } else {
                            old(self).values[k][c2] as int
                        },
            {
                assert(fits_i64(scale_of(old(self).model(), s as int)[r as int][c as int]));
                self.values[r][c] = self.values[r][c] * s;
            }
        }
        assert(self.model() =~~= scale_of(old(self).model(), s as int));
    }

    /// A new matrix holding every cell multiplied by `s`.
    pub fn scaled(&self, s: i64) -> (m: Self)
        requires
            all_fit(scale_of(self.model(), s as int)),
        ensures
            m.model() == scale_of(self.model(), s as int),
    {
        let mut m = Matrix { values: self.values };
        m.scale(s);
        m
    }

    /// The product of this matrix and `rhs`, whose row count is this matrix's column count:
    /// cell (i, j) is the sum over k of `self[i][k] * rhs[k][j]`.
    pub fn mul<const K: usize>(&self, rhs: &Matrix<i64, COL, K>) -> (m: Matrix<i64, ROW, K>)
        requires
            1 <= ROW,
            1 <= K,
            product_fits(self.model(), rhs.model(), COL as int, K as int),
        ensures
            m.model() == product_of(self.model(), rhs.model(), COL as int, K as int),
    {
        let ghost a = self.model();
        let ghost b = rhs.model();
        let mut m = Matrix::<i64, ROW, K>::zero();
        for i in 0..ROW
            invariant
                a == self.model(),
                b == rhs.model(),
                product_fits(a, b, COL as int, K as int),
                forall|i2: int, j2: int|
                    0 <= i2 < i && 0 <= j2 < K ==> #[trigger] m.values[i2][j2] == dot(
                        a,
                        b,
                        i2,
                        j2,
                        COL as int,
                    ),
        {
            for j in 0..K
                invariant
                    i < ROW,
                    a == self.model(),
                    b == rhs.model(),
                    product_fits(a, b, COL as int, K as int),
                    forall|i2: int, j2: int|
                        (0 <= i2 < i && 0 <= j2 < K) || (i2 == i && 0 <= j2 < j)
                            ==> #[trigger] m.values[i2][j2] == dot(a, b, i2, j2, COL as int),
            {
                let mut acc: i64 = 0;
                for k in 0..COL
                    invariant
                        i < ROW,
                        j < K,
                        a == self.model(),
                        b == rhs.model(),
                        product_fits(a, b, COL as int, K as int),
                        acc == dot(a, b, i as int, j as int, k as int),
                {
                    assert(fits_i64(a[i as int][k as int] * b[k as int][j as int]));
                    assert(fits_i64(dot(a, b, i as int, j as int, k + 1)));
                    acc = acc + self.values[i][k] * rhs.values[k][j];
                }
                m.values[i][j] = acc;
            }
        }
        assert(m.model() =~~= product_of(a, b, COL as int, K as int));
        m
    }
}

} // verus!
