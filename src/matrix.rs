use vstd::prelude::*;

verus! {

/// Why a matrix operation refused its operands.
#[derive(Clone, Copy, Debug, PartialEq, Eq, Structural)]
pub enum MatrixError {
    /// The rows handed in were empty, had no columns, or were jagged.
    ShapeError,
    /// The two operands do not have the shapes the operation needs.
    DimensionMismatch,
}

/// `m` is a `rows` by `cols` grid.
pub open spec fn has_shape<T>(m: Seq<Seq<T>>, rows: nat, cols: nat) -> bool {
    &&& m.len() == rows
    &&& forall|i: int| 0 <= i < rows ==> (#[trigger] m[i]).len() == cols
}

/// `m` is a non-empty rectangular grid with at least one column.
pub open spec fn is_rectangular<T>(m: Seq<Seq<T>>) -> bool {
    &&& m.len() >= 1
    &&& m[0].len() >= 1
    &&& has_shape(m, m.len(), m[0].len())
}

/// The `rows` by `cols` grid with every entry `value`.
pub open spec fn constant_of<T>(rows: nat, cols: nat, value: T) -> Seq<Seq<T>> {
    Seq::new(rows, |i: int| Seq::new(cols, |j: int| value))
}

/// The one-column grid holding `v` from top to bottom.
pub open spec fn as_column<T>(v: Seq<T>) -> Seq<Seq<T>> {
    Seq::new(v.len(), |i: int| seq![v[i]])
}

/// The grid whose entry `(j, i)` is entry `(i, j)` of `m`.
pub open spec fn transpose_of<T>(m: Seq<Seq<T>>, rows: nat, cols: nat) -> Seq<Seq<T>> {
    Seq::new(cols, |j: int| Seq::new(rows, |i: int| m[i][j]))
}

/// `f` may be called on every argument and gives exactly one result for each.
pub open spec fn pure_fn1<T, F: Fn(T) -> T>(f: F) -> bool {
    &&& forall|x: T| #[trigger] f.requires((x,))
    &&& forall|x: T, y: T, z: T|
        #![trigger f.ensures((x,), y), f.ensures((x,), z)]
        f.ensures((x,), y) && f.ensures((x,), z) ==> y == z
}

/// `f` may be called on every pair of arguments and gives exactly one result for each.
pub open spec fn pure_fn2<T, F: Fn(T, T) -> T>(f: F) -> bool {
    &&& forall|x: T, y: T| #[trigger] f.requires((x, y))
    &&& forall|x: T, y: T, u: T, v: T|
        #![trigger f.ensures((x, y), u), f.ensures((x, y), v)]
        f.ensures((x, y), u) && f.ensures((x, y), v) ==> u == v
}

/// The result of `f` on `x`.
pub open spec fn apply1<T, F: Fn(T) -> T>(f: F, x: T) -> T {
    choose|y: T| f.ensures((x,), y)
}

/// The result of `f` on `x` and `y`.
pub open spec fn apply2<T, F: Fn(T, T) -> T>(f: F, x: T, y: T) -> T {
    choose|z: T| f.ensures((x, y), z)
}

pub proof fn lemma_apply1<T, F: Fn(T) -> T>(f: F, x: T, y: T)
    requires
        pure_fn1(f),
        f.ensures((x,), y),
    ensures
        apply1(f, x) == y,
{
}

pub proof fn lemma_apply2<T, F: Fn(T, T) -> T>(f: F, x: T, y: T, z: T)
    requires
        pure_fn2(f),
        f.ensures((x, y), z),
    ensures
        apply2(f, x, y) == z,
{
}

/// `f` applied to every entry of `m`.
pub open spec fn map_of<T, F: Fn(T) -> T>(m: Seq<Seq<T>>, f: F) -> Seq<Seq<T>> {
    Seq::new(m.len(), |i: int| Seq::new(m[i].len(), |j: int| apply1(f, m[i][j])))
}

/// `f` applied to the entries of `a` and `b` in the same place.
pub open spec fn zip_of<T, F: Fn(T, T) -> T>(a: Seq<Seq<T>>, b: Seq<Seq<T>>, f: F) -> Seq<Seq<T>> {
    Seq::new(a.len(), |i: int| Seq::new(a[i].len(), |j: int| apply2(f, a[i][j], b[i][j])))
}

/// Column `j` of `m`.
pub open spec fn column<T>(m: Seq<Seq<T>>, j: int) -> Seq<T> {
    Seq::new(m.len(), |k: int| m[k][j])
}

/// `zero` plus the products of the first `n` entries of `u` and `v`, added from the left.
pub open spec fn dot_upto<T, A: Fn(T, T) -> T, M: Fn(T, T) -> T>(
    plus: A,
    times: M,
    zero: T,
    u: Seq<T>,
    v: Seq<T>,
    n: nat,
) -> T
    decreases n,
{
    if n == 0 {
        zero
    } else {
        apply2(
            plus,
            dot_upto(plus, times, zero, u, v, (n - 1) as nat),
            apply2(times, u[n - 1], v[n - 1]),
        )
    }
}

/// The matrix product of `a` and `b`, where `b` has `cols` columns: each entry is the
/// dot product of a row of `a` and a column of `b`, accumulated in order.
pub open spec fn product_of<T, A: Fn(T, T) -> T, M: Fn(T, T) -> T>(
    a: Seq<Seq<T>>,
    b: Seq<Seq<T>>,
    cols: nat,
    zero: T,
    plus: A,
    times: M,
) -> Seq<Seq<T>> {
    Seq::new(
        a.len(),
        |i: int| Seq::new(cols, |j: int| dot_upto(plus, times, zero, a[i], column(b, j), a[i].len())),
    )
}

/// A dense matrix with at least one row and one column.
pub struct Matrix<T> {
    rows: usize,
    cols: usize,
    data: Vec<Vec<T>>,
}

impl<T> Matrix<T> {
    #[verifier::type_invariant]
    spec fn well_formed(&self) -> bool {
        &&& self.rows >= 1
        &&& self.cols >= 1
        &&& self.data.len() == self.rows
        &&& forall|i: int| 0 <= i < self.rows ==> (#[trigger] self.data[i]).len() == self.cols
    }

    pub closed spec fn view(&self) -> Seq<Seq<T>> {
        self.data@.map_values(|r: Vec<T>| r@)
    }

    pub closed spec fn spec_rows(&self) -> nat {
        self.rows as nat
    }

    pub closed spec fn spec_cols(&self) -> nat {
        self.cols as nat
    }
}

impl<T: Copy> Matrix<T> {
    pub fn rows(&self) -> (r: usize)
        ensures
            r == self.spec_rows(),
            r >= 1,
            has_shape(self@, self.spec_rows(), self.spec_cols()),
    {
        proof {
            use_type_invariant(self);
            self.lemma_view_shape();
        }
        self.rows
    }

    pub fn cols(&self) -> (r: usize)
        ensures
            r == self.spec_cols(),
            r >= 1,
            has_shape(self@, self.spec_rows(), self.spec_cols()),
    {
        proof {
            use_type_invariant(self);
            self.lemma_view_shape();
        }
        self.cols
    }

    proof fn lemma_view_shape(&self)
        requires
            self.well_formed(),
        ensures
            self.spec_rows() >= 1,
            self.spec_cols() >= 1,
            has_shape(self@, self.spec_rows(), self.spec_cols()),
    {
        assert forall|i: int| 0 <= i < self.spec_rows() implies (#[trigger] self@[i]).len()
            == self.spec_cols() by {
            assert(self@[i] == self.data[i]@);
        }
    }

    /// The entry in row `i`, column `j`.
    pub fn get(&self, i: usize, j: usize) -> (r: T)
        requires
            i < self.spec_rows(),
            j < self.spec_cols(),
        ensures
            r == self@[i as int][j as int],
    {
        proof {
            use_type_invariant(self);
        }
        self.data[i][j]
    }

    /// A `rows` by `cols` matrix with every entry `value`.
    pub fn filled(rows: usize, cols: usize, value: T) -> (r: Result<Matrix<T>, MatrixError>)
        ensures
            match r {
                Ok(m) => rows >= 1 && cols >= 1 && m.spec_rows() == rows && m.spec_cols() == cols
                    && m@ == constant_of(rows as nat, cols as nat, value) && has_shape(
                    m@,
                    m.spec_rows(),
                    m.spec_cols(),
                ),
                Err(e) => e == MatrixError::ShapeError && (rows == 0 || cols == 0),
            },
    {
        if rows == 0 || cols == 0 {
            return Err(MatrixError::ShapeError);
        }
        let ghost row_model = Seq::new(cols as nat, |j: int| value);
        let mut data: Vec<Vec<T>> = Vec::new();
        let mut i: usize = 0;
        while i < rows
            invariant
                0 <= i <= rows,
                row_model == Seq::new(cols as nat, |j: int| value),
                data.len() == i,
                forall|k: int| 0 <= k < i ==> (#[trigger] data[k])@ == row_model,
            decreases rows - i,
        {
            let mut row: Vec<T> = Vec::new();
            let mut j: usize = 0;
            while j < cols
                invariant
                    0 <= j <= cols,
                    row_model == Seq::new(cols as nat, |j: int| value),
                    row@ == Seq::new(j as nat, |k: int| value),
                decreases cols - j,
            {
                row.push(value);
                j = j + 1;
                assert(row@ =~= Seq::new(j as nat, |k: int| value));
            }
            assert(row@ =~= row_model);
            data.push(row);
            i = i + 1;
        }
        let r = Matrix { rows, cols, data };
        assert(r@ =~= Seq::new(rows as nat, |i: int| row_model));
        Ok(r)
    }

    /// The rows of the matrix, as vectors.
    pub fn to_rows(&self) -> (r: Vec<Vec<T>>)
        ensures
            r@.map_values(|v: Vec<T>| v@) == self@,
    {
        proof {
            use_type_invariant(self);
        }
        let mut out: Vec<Vec<T>> = Vec::new();
        let mut i: usize = 0;
        while i < self.rows
            invariant
                self.well_formed(),
                0 <= i <= self.rows,
                out.len() == i,
                forall|k: int| 0 <= k < i ==> (#[trigger] out[k])@ == self@[k],
            decreases self.rows - i,
        {
            let mut row: Vec<T> = Vec::new();
            let mut j: usize = 0;
            while j < self.cols
                invariant
                    self.well_formed(),
                    0 <= i < self.rows,
                    0 <= j <= self.cols,
                    row@ == self@[i as int].take(j as int),
                decreases self.cols - j,
            {
                row.push(self.data[i][j]);
                j = j + 1;
                assert(row@ =~= self@[i as int].take(j as int));
            }
            assert(row@ =~= self@[i as int]);
            out.push(row);
            i = i + 1;
        }
        assert(out@.map_values(|v: Vec<T>| v@) =~= self@);
        out
    }

    /// The transpose: entry `(j, i)` of the result is entry `(i, j)` of `self`.
    pub fn transpose(&self) -> (r: Matrix<T>)
        ensures
            r.spec_rows() == self.spec_cols(),
            r.spec_cols() == self.spec_rows(),
            r@ == transpose_of(self@, self.spec_rows(), self.spec_cols()),
            has_shape(r@, r.spec_rows(), r.spec_cols()),
    {
        proof {
            use_type_invariant(self);
        }
        let ghost t = transpose_of(self@, self.spec_rows(), self.spec_cols());
        let mut data: Vec<Vec<T>> = Vec::new();
        let mut j: usize = 0;
        while j < self.cols
            invariant
                self.well_formed(),
                t == transpose_of(self@, self.spec_rows(), self.spec_cols()),
                0 <= j <= self.cols,
                data.len() == j,
                forall|k: int| 0 <= k < j ==> (#[trigger] data[k])@ == t[k],
            decreases self.cols - j,
        {
            let mut row: Vec<T> = Vec::new();
            let mut i: usize = 0;
            while i < self.rows
                invariant
                    self.well_formed(),
                    t == transpose_of(self@, self.spec_rows(), self.spec_cols()),
                    0 <= j < self.cols,
                    0 <= i <= self.rows,
                    row@ == t[j as int].take(i as int),
                decreases self.rows - i,
            {
                row.push(self.data[i][j]);
                i = i + 1;
                assert(row@ =~= t[j as int].take(i as int));
            }
            assert(row@ =~= t[j as int]);
            data.push(row);
            j = j + 1;
        }
        let r = Matrix { rows: self.cols, cols: self.rows, data };
        assert(r@ =~= t);
        r
    }

    /// `f` applied to every entry; the shape is kept.
    pub fn map<F: Fn(T) -> T>(&self, f: &F) -> (r: Matrix<T>)
        requires
            pure_fn1(*f),
        ensures
            r.spec_rows() == self.spec_rows(),
            r.spec_cols() == self.spec_cols(),
            r@ == map_of(self@, *f),
            has_shape(r@, r.spec_rows(), r.spec_cols()),
    {
        proof {
            use_type_invariant(self);
        }
        let ghost t = map_of(self@, *f);
        let mut data: Vec<Vec<T>> = Vec::new();
        let mut i: usize = 0;
        while i < self.rows
            invariant
                self.well_formed(),
                pure_fn1(*f),
                t == map_of(self@, *f),
                0 <= i <= self.rows,
                data.len() == i,
                forall|k: int| 0 <= k < i ==> (#[trigger] data[k])@ == t[k],
            decreases self.rows - i,
        {
            let mut row: Vec<T> = Vec::new();
            let mut j: usize = 0;
            while j < self.cols
                invariant
                    self.well_formed(),
                    pure_fn1(*f),
                    t == map_of(self@, *f),
                    0 <= i < self.rows,
                    0 <= j <= self.cols,
                    row@ == t[i as int].take(j as int),
                decreases self.cols - j,
            {
                let x = self.data[i][j];
                let y = f(x);
                proof {
                    lemma_apply1(*f, x, y);
                }
                row.push(y);
                j = j + 1;
                assert(row@ =~= t[i as int].take(j as int));
            }
            assert(row@ =~= t[i as int]);
            data.push(row);
            i = i + 1;
        }
        let r = Matrix { rows: self.rows, cols: self.cols, data };
        assert(r@ =~= t);
        r
    }

    /// `f` applied to the entries of `self` and `other` in the same place. The two
    /// must have the same shape.
    pub fn zip_with<F: Fn(T, T) -> T>(&self, other: &Matrix<T>, f: &F) -> (r: Result<
        Matrix<T>,
        MatrixError,
    >)
        requires
            pure_fn2(*f),
        ensures
            match r {
                Ok(m) => self.spec_rows() == other.spec_rows() && self.spec_cols()
                    == other.spec_cols() && m.spec_rows() == self.spec_rows() && m.spec_cols()
                    == self.spec_cols() && m@ == zip_of(self@, other@, *f) && has_shape(
                    m@,
                    m.spec_rows(),
                    m.spec_cols(),
                ),
                Err(e) => e == MatrixError::DimensionMismatch && (self.spec_rows()
                    != other.spec_rows() || self.spec_cols() != other.spec_cols()),
            },
    {
        proof {
            use_type_invariant(self);
            use_type_invariant(other);
        }
        if self.rows != other.rows || self.cols != other.cols {
            return Err(MatrixError::DimensionMismatch);
        }
        let ghost t = zip_of(self@, other@, *f);
        let mut data: Vec<Vec<T>> = Vec::new();
        let mut i: usize = 0;
        while i < self.rows
            invariant
                self.well_formed(),
                other.well_formed(),
                self.rows == other.rows,
                self.cols == other.cols,
                pure_fn2(*f),
                t == zip_of(self@, other@, *f),
                0 <= i <= self.rows,
                data.len() == i,
                forall|k: int| 0 <= k < i ==> (#[trigger] data[k])@ == t[k],
            decreases self.rows - i,
        {
            let mut row: Vec<T> = Vec::new();
            let mut j: usize = 0;
            while j < self.cols
                invariant
                    self.well_formed(),
                    other.well_formed(),
                    self.rows == other.rows,
                    self.cols == other.cols,
                    pure_fn2(*f),
                    t == zip_of(self@, other@, *f),
                    0 <= i < self.rows,
                    0 <= j <= self.cols,
                    row@ == t[i as int].take(j as int),
                decreases self.cols - j,
            {
                let x = self.data[i][j];
                let y = other.data[i][j];
                let z = f(x, y);
                proof {
                    lemma_apply2(*f, x, y, z);
                }
                row.push(z);
                j = j + 1;
                assert(row@ =~= t[i as int].take(j as int));
            }
            assert(row@ =~= t[i as int]);
            data.push(row);
            i = i + 1;
        }
        let r = Matrix { rows: self.rows, cols: self.cols, data };
        assert(r@ =~= t);
        Ok(r)
    }

    /// The matrix product `self · other`, each entry accumulated from `zero` with
    /// `plus` over the products `times` of a row of `self` and a column of `other`.
    /// The columns of `self` must match the rows of `other`.
    pub fn multiply<A: Fn(T, T) -> T, M: Fn(T, T) -> T>(
        &self,
        other: &Matrix<T>,
        zero: T,
        plus: &A,
        times: &M,
    ) -> (r: Result<Matrix<T>, MatrixError>)
        requires
            pure_fn2(*plus),
            pure_fn2(*times),
        ensures
            match r {
                Ok(m) => self.spec_cols() == other.spec_rows() && m.spec_rows() == self.spec_rows()
                    && m.spec_cols() == other.spec_cols() && m@ == product_of(
                    self@,
                    other@,
                    other.spec_cols(),
                    zero,
                    *plus,
                    *times,
                ) && has_shape(m@, m.spec_rows(), m.spec_cols()),
                Err(e) => e == MatrixError::DimensionMismatch && self.spec_cols()
                    != other.spec_rows(),
            },
    {
        proof {
            use_type_invariant(self);
            use_type_invariant(other);
        }
        if self.cols != other.rows {
            return Err(MatrixError::DimensionMismatch);
        }
        let ghost t = product_of(self@, other@, other.spec_cols(), zero, *plus, *times);
        let mut data: Vec<Vec<T>> = Vec::new();
        let mut i: usize = 0;
        while i < self.rows
            invariant
                self.well_formed(),
                other.well_formed(),
                self.cols == other.rows,
                pure_fn2(*plus),
                pure_fn2(*times),
                t == product_of(self@, other@, other.spec_cols(), zero, *plus, *times),
                0 <= i <= self.rows,
                data.len() == i,
                forall|k: int| 0 <= k < i ==> (#[trigger] data[k])@ == t[k],
            decreases self.rows - i,
        {
            let mut row: Vec<T> = Vec::new();
            let mut j: usize = 0;
            while j < other.cols
                invariant
                    self.well_formed(),
                    other.well_formed(),
                    self.cols == other.rows,
                    pure_fn2(*plus),
                    pure_fn2(*times),
                    t == product_of(self@, other@, other.spec_cols(), zero, *plus, *times),
                    0 <= i < self.rows,
                    0 <= j <= other.cols,
                    row@ == t[i as int].take(j as int),
                decreases other.cols - j,
            {
                let ghost u = self@[i as int];
                let ghost v = column(other@, j as int);
                let mut sum = zero;
                let mut k: usize = 0;
                while k < self.cols
                    invariant
                        self.well_formed(),
                        other.well_formed(),
                        self.cols == other.rows,
                        pure_fn2(*plus),
                        pure_fn2(*times),
                        0 <= i < self.rows,
                        0 <= j < other.cols,
                        0 <= k <= self.cols,
                        u == self@[i as int],
                        v == column(other@, j as int),
                        sum == dot_upto(*plus, *times, zero, u, v, k as nat),
                    decreases self.cols - k,
                {
                    let x = self.data[i][k];
                    let y = other.data[k][j];
                    let p = times(x, y);
                    let s = plus(sum, p);
                    proof {
                        lemma_apply2(*times, x, y, p);
                        lemma_apply2(*plus, sum, p, s);
                    }
                    sum = s;
                    k = k + 1;
                }
                row.push(sum);
                j = j + 1;
                assert(row@ =~= t[i as int].take(j as int));
            }
            assert(row@ =~= t[i as int]);
            data.push(row);
            i = i + 1;
        }
        let r = Matrix { rows: self.rows, cols: other.cols, data };
        assert(r@ =~= t);
        Ok(r)
    }

    /// A `rows` by `cols` matrix whose entries are drawn from `draw`, row by row.
    pub fn from_fn<D: Fn() -> T>(rows: usize, cols: usize, draw: &D) -> (r: Result<
        Matrix<T>,
        MatrixError,
    >)
        requires
            draw.requires(()),
        ensures
            match r {
                Ok(m) => rows >= 1 && cols >= 1 && m.spec_rows() == rows && m.spec_cols() == cols
                    && has_shape(m@, m.spec_rows(), m.spec_cols()),
                Err(e) => e == MatrixError::ShapeError && (rows == 0 || cols == 0),
            },
    {
        if rows == 0 || cols == 0 {
            return Err(MatrixError::ShapeError);
        }
        let mut data: Vec<Vec<T>> = Vec::new();
        let mut i: usize = 0;
        while i < rows
            invariant
                draw.requires(()),
                0 <= i <= rows,
                data.len() == i,
                forall|k: int| 0 <= k < i ==> (#[trigger] data[k]).len() == cols,
            decreases rows - i,
        {
            let mut row: Vec<T> = Vec::new();
            let mut j: usize = 0;
            while j < cols
                invariant
                    draw.requires(()),
                    0 <= j <= cols,
                    row.len() == j,
                decreases cols - j,
            {
                row.push(draw());
                j = j + 1;
            }
            data.push(row);
            i = i + 1;
        }
        let r = Matrix { rows, cols, data };
        proof {
            r.lemma_view_shape();
        }
        Ok(r)
    }

    /// Column `j`, from top to bottom.
    pub fn column_vec(&self, j: usize) -> (r: Vec<T>)
        requires
            j < self.spec_cols(),
        ensures
            r@ == column(self@, j as int),
    {
        proof {
            use_type_invariant(self);
        }
        let mut out: Vec<T> = Vec::new();
        let mut i: usize = 0;
        while i < self.rows
            invariant
                self.well_formed(),
                j < self.cols,
                0 <= i <= self.rows,
                out@ == column(self@, j as int).take(i as int),
            decreases self.rows - i,
        {
            out.push(self.data[i][j]);
            i = i + 1;
            assert(out@ =~= column(self@, j as int).take(i as int));
        }
        assert(out@ =~= column(self@, j as int));
        out
    }

    /// The one-column matrix holding `v` from top to bottom.
    pub fn from_column(v: Vec<T>) -> (r: Result<Matrix<T>, MatrixError>)
        ensures
            match r {
                Ok(m) => v.len() >= 1 && m.spec_rows() == v.len() && m.spec_cols() == 1 && m@
                    == as_column(v@) && has_shape(m@, m.spec_rows(), m.spec_cols()),
                Err(e) => e == MatrixError::ShapeError && v.len() == 0,
            },
    {
        let ghost model = as_column(v@);
        let n = v.len();
        if n == 0 {
            return Err(MatrixError::ShapeError);
        }
        let mut data: Vec<Vec<T>> = Vec::new();
        let mut i: usize = 0;
        while i < n
            invariant
                n == v.len(),
                model == as_column(v@),
                0 <= i <= n,
                data.len() == i,
                forall|k: int| 0 <= k < i ==> (#[trigger] data[k])@ == model[k],
            decreases n - i,
        {
            let mut row: Vec<T> = Vec::new();
            row.push(v[i]);
            assert(row@ =~= model[i as int]);
            data.push(row);
            i = i + 1;
        }
        let r = Matrix { rows: n, cols: 1, data };
        assert(r@ =~= model);
        proof {
            r.lemma_view_shape();
        }
        Ok(r)
    }

    /// Wraps rectangular data; the shape is taken from the data.
    pub fn from(data: Vec<Vec<T>>) -> (r: Result<Matrix<T>, MatrixError>)
        ensures
            match r {
                Ok(m) => is_rectangular(data@.map_values(|v: Vec<T>| v@)) && m@ == data@.map_values(
                    |v: Vec<T>| v@,
                ) && m.spec_rows() == data.len() && m.spec_cols() == data[0].len() && has_shape(
                    m@,
                    m.spec_rows(),
                    m.spec_cols(),
                ),
                Err(e) => e == MatrixError::ShapeError && !is_rectangular(
                    data@.map_values(|v: Vec<T>| v@),
                ),
            },
    {
        let ghost d = data@.map_values(|v: Vec<T>| v@);
        if data.len() == 0 {
            return Err(MatrixError::ShapeError);
        }
        let cols = data[0].len();
        if cols == 0 {
            return Err(MatrixError::ShapeError);
        }
        let mut i: usize = 0;
        while i < data.len()
            invariant
                0 <= i <= data.len(),
                cols == data[0].len(),
                d == data@.map_values(|v: Vec<T>| v@),
                forall|k: int| 0 <= k < i ==> (#[trigger] data[k]).len() == cols,
            decreases data.len() - i,
        {
            if data[i].len() != cols {
                assert(d[i as int].len() != d[0].len());
                return Err(MatrixError::ShapeError);
            }
            i = i + 1;
        }
        let rows = data.len();
        Ok(Matrix { rows, cols, data })
    }
}

/// Transposing twice gives back the matrix one started from.
pub proof fn lemma_transpose_twice<T>(m: Seq<Seq<T>>, rows: nat, cols: nat)
    requires
        has_shape(m, rows, cols),
    ensures
        transpose_of(transpose_of(m, rows, cols), cols, rows) == m,
{
    let t = transpose_of(transpose_of(m, rows, cols), cols, rows);
    assert forall|i: int| 0 <= i < rows implies #[trigger] t[i] =~= m[i] by {}
    assert(t =~= m);
}

/// Mapping a function that returns its argument unchanged gives back the matrix.
pub proof fn lemma_map_identity<T, F: Fn(T) -> T>(m: Seq<Seq<T>>, f: F)
    requires
        pure_fn1(f),
        forall|x: T| #[trigger] f.ensures((x,), x),
    ensures
        map_of(m, f) == m,
{
    let r = map_of(m, f);
    assert forall|i: int| 0 <= i < m.len() implies #[trigger] r[i] =~= m[i] by {
        assert forall|j: int| 0 <= j < m[i].len() implies r[i][j] == m[i][j] by {
            lemma_apply1(f, m[i][j], m[i][j]);
        }
    }
    assert(r =~= m);
}

/// Subtracting `b` from `a + b`, entry by entry, gives back `a`, provided that
/// `minus` undoes `plus` on each pair of entries.
pub proof fn lemma_subtract_undoes_add<T, A: Fn(T, T) -> T, S: Fn(T, T) -> T>(
    a: Seq<Seq<T>>,
    b: Seq<Seq<T>>,
    rows: nat,
    cols: nat,
    plus: A,
    minus: S,
)
    requires
        has_shape(a, rows, cols),
        has_shape(b, rows, cols),
        forall|x: T, y: T| #[trigger] apply2(minus, apply2(plus, x, y), y) == x,
    ensures
        zip_of(zip_of(a, b, plus), b, minus) == a,
{
    let r = zip_of(zip_of(a, b, plus), b, minus);
    assert forall|i: int| 0 <= i < rows implies #[trigger] r[i] =~= a[i] by {
        assert forall|j: int| 0 <= j < cols implies r[i][j] == a[i][j] by {
            assert(apply2(minus, apply2(plus, a[i][j], b[i][j]), b[i][j]) == a[i][j]);
        }
    }
    assert(r =~= a);
}

} // verus!
