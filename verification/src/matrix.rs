//! Dense matrices and the arithmetic on them that is given from outside.

use vstd::prelude::*;
use crate::data::repeat;
use crate::number::Real;

verus! {

/// A matrix, row by row.
#[derive(Clone, Debug)]
pub struct Matrix {
    pub rows: Vec<Vec<Real>>,
    /// Number of columns.
    pub cols: usize,
}

/// Floating-point operations on vectors and matrices.
///
/// Nothing is assumed of the results.
pub trait LinearMath {
    /// The scalar product of two vectors.
    fn inner(&self, a: &Vec<Real>, b: &Vec<Real>) -> Real;

    /// The length of a vector.
    fn length(&self, a: &Vec<Real>) -> Real;

    /// The square root of a number.
    fn root(&self, x: Real) -> Real;

    /// The determinant of a matrix.
    fn determinant(&self, a: &Matrix) -> Real;

    /// The solution `x` of `a x = b`, unless the matrix is singular.
    fn solve_system(&self, a: &Matrix, b: &Vec<Real>) -> Option<Vec<Real>>;
}

impl Matrix {
    /// Number of rows.
    pub open spec fn height(self) -> int {
        self.rows@.len() as int
    }

    /// Entry of a row and a column.
    pub open spec fn at(self, r: int, c: int) -> Real {
        self.rows@[r]@[c]
    }

    /// Whether all rows have as many entries as there are columns.
    pub open spec fn wf(self) -> bool {
        forall|r: int| 0 <= r < self.rows@.len() ==> (#[trigger] self.rows@[r])@.len() == self.cols
    }

    /// Whether the matrix has the given size.
    pub open spec fn sized(self, height: int, width: int) -> bool {
        &&& self.wf()
        &&& self.height() == height
        &&& self.cols == width
    }

    /// The entries of a column.
    pub open spec fn column(self, c: int) -> Seq<Real> {
        Seq::new(self.rows@.len(), |r: int| self.at(r, c))
    }

    /// Whether the matrix equals its transpose.
    pub open spec fn symmetric(self) -> bool {
        forall|r: int, c: int|
            0 <= r < self.height() && 0 <= c < self.height() ==> #[trigger] self.at(r, c) == self.at(c, r)
    }

    /// A matrix of zeros.
    pub fn zeros(height: usize, width: usize) -> (m: Matrix)
        ensures
            m.sized(height as int, width as int),
            forall|r: int, c: int|
                0 <= r < height && 0 <= c < width ==> #[trigger] m.at(r, c) == Real::zero(),
    {
        let mut rows: Vec<Vec<Real>> = Vec::new();
        for r in 0..height
            invariant
                rows@.len() == r,
                forall|x: int| 0 <= x < r ==> (#[trigger] rows@[x])@.len() == width,
                forall|x: int, c: int|
                    0 <= x < r && 0 <= c < width ==> #[trigger] rows@[x]@[c] == Real::zero(),
        {
            let row = repeat(Real::zero(), width);
            rows.push(row);
        }
        Matrix { rows, cols: width }
    }

    /// The entry of a row and a column.
    pub fn get(&self, r: usize, c: usize) -> (x: Real)
        requires
            self.wf(),
            r < self.height(),
            c < self.cols,
        ensures
            x == self.at(r as int, c as int),
    {
        self.rows[r][c]
    }

    /// Replaces an entry.
    pub fn set(&mut self, r: usize, c: usize, x: Real)
        requires
            old(self).wf(),
            r < old(self).height(),
            c < old(self).cols,
        ensures
            final(self).sized(old(self).height(), old(self).cols as int),
            forall|i: int, j: int|
                0 <= i < old(self).height() && 0 <= j < old(self).cols ==> #[trigger] final(self).at(i, j)
                    == if i == r && j == c {
                    x
                } else {
                    old(self).at(i, j)
                },
    {
        let ghost start = *self;
        self.rows[r][c] = x;
        assert forall|i: int| 0 <= i < self.rows@.len() implies (#[trigger] self.rows@[i])@.len()
            == self.cols by {
            assert(start.rows@[i]@.len() == start.cols);
        }
    }

    /// A copy of the entries of a column.
    pub fn copy_column(&self, c: usize) -> (v: Vec<Real>)
        requires
            self.wf(),
            c < self.cols,
        ensures
            v@ == self.column(c as int),
    {
        let mut v: Vec<Real> = Vec::new();
        for r in 0..self.rows.len()
            invariant
                self.wf(),
                c < self.cols,
                v@.len() == r,
                forall|x: int| 0 <= x < r ==> #[trigger] v@[x] == self.at(x, c as int),
        {
            v.push(self.rows[r][c]);
        }
        assert(v@ =~= self.column(c as int));
        v
    }

    /// A copy of the matrix.
    pub fn copy(&self) -> (m: Matrix)
        requires
            self.wf(),
        ensures
            m.sized(self.height(), self.cols as int),
            forall|r: int, c: int|
                0 <= r < self.height() && 0 <= c < self.cols ==> #[trigger] m.at(r, c) == self.at(r, c),
    {
        let mut m = Matrix { rows: Vec::new(), cols: self.cols };
        m.append_rows(self);
        m
    }

    /// Adds the rows of another matrix below.
    pub fn append_rows(&mut self, other: &Matrix)
        requires
            old(self).wf(),
            other.wf(),
            old(self).cols == other.cols,
        ensures
            final(self).sized(old(self).height() + other.height(), old(self).cols as int),
            forall|r: int, c: int|
                0 <= r < old(self).height() + other.height() && 0 <= c < other.cols
                    ==> #[trigger] final(self).at(r, c) == if r < old(self).height() {
                    old(self).at(r, c)
                } else {
                    other.at(r - old(self).height(), c)
                },
    {
        let ghost start = *self;
        for i in 0..other.rows.len()
            invariant
                start.wf(),
                other.wf(),
                start.cols == other.cols,
                self.cols == start.cols,
                self.rows@.len() == start.height() + i,
                forall|r: int| 0 <= r < start.height() ==> #[trigger] self.rows@[r] == start.rows@[r],
                forall|r: int|
                    0 <= r < i ==> (#[trigger] self.rows@[start.height() + r])@ == other.rows@[r]@,
        {
            let ghost before = self.rows@;
            let mut row: Vec<Real> = Vec::new();
            for c in 0..other.cols
                invariant
                    other.wf(),
                    i < other.rows@.len(),
                    row@ == other.rows@[i as int]@.take(c as int),
            {
                assert(other.rows@[i as int]@.len() == other.cols);
                row.push(other.rows[i][c]);
                assert(row@ =~= other.rows@[i as int]@.take(c + 1));
            }
            assert(row@ =~= other.rows@[i as int]@);
            self.rows.push(row);
            assert forall|r: int| 0 <= r < i + 1 implies (#[trigger] self.rows@[start.height() + r])@
                == other.rows@[r]@ by {
                if r < i {
                    assert(self.rows@[start.height() + r] == before[start.height() + r]);
                }
            }
        }
        assert forall|r: int| 0 <= r < self.rows@.len() implies (#[trigger] self.rows@[r])@.len()
            == self.cols by {
            if r >= start.height() {
                assert(self.rows@[start.height() + (r - start.height())]@ == other.rows@[r
                    - start.height()]@);
            } else {
                assert(start.rows@[r]@.len() == start.cols);
            }
        }
        assert forall|r: int, c: int|
            0 <= r < start.height() + other.height() && 0 <= c < other.cols implies #[trigger] self.at(
            r,
            c,
        ) == if r < start.height() {
            start.at(r, c)
        } else {
            other.at(r - start.height(), c)
        } by {
            if r >= start.height() {
                assert(self.rows@[start.height() + (r - start.height())]@ == other.rows@[r
                    - start.height()]@);
            }
        }
    }
}

/// The matrix with the given columns, each of the given height.
pub fn from_columns(columns: &Vec<Vec<Real>>, height: usize) -> (m: Matrix)
    requires
        forall|c: int| 0 <= c < columns@.len() ==> (#[trigger] columns@[c])@.len() == height,
    ensures
        m.sized(height as int, columns@.len() as int),
        forall|r: int, c: int|
            0 <= r < height && 0 <= c < columns@.len() ==> #[trigger] m.at(r, c) == columns@[c]@[r],
{
    let width: usize = columns.len();
    let mut rows: Vec<Vec<Real>> = Vec::new();
    for r in 0..height
        invariant
            width == columns@.len(),
            forall|c: int| 0 <= c < columns@.len() ==> (#[trigger] columns@[c])@.len() == height,
            rows@.len() == r,
            forall|x: int| 0 <= x < r ==> (#[trigger] rows@[x])@.len() == width,
            forall|x: int, c: int|
                0 <= x < r && 0 <= c < width ==> #[trigger] rows@[x]@[c] == columns@[c]@[x],
    {
        let mut row: Vec<Real> = Vec::new();
        for c in 0..width
            invariant
                width == columns@.len(),
                r < height,
                forall|c: int| 0 <= c < columns@.len() ==> (#[trigger] columns@[c])@.len() == height,
                row@.len() == c,
                forall|x: int| 0 <= x < c ==> #[trigger] row@[x] == columns@[x]@[r as int],
        {
            row.push(columns[c][r]);
        }
        rows.push(row);
    }
    Matrix { rows, cols: width }
}

/// Whether `x` is the scalar product of two vectors.
pub open spec fn inner_of<K: LinearMath>(k: &K, a: Seq<Real>, b: Seq<Real>, x: Real) -> bool {
    exists|u: Vec<Real>, v: Vec<Real>|
        u@ == a && v@ == b && #[trigger] call_ensures(K::inner, (k, &u, &v), x)
}

/// The scalar product of two vectors.
pub fn inner<K: LinearMath>(k: &K, a: &Vec<Real>, b: &Vec<Real>) -> (x: Real)
    ensures
        inner_of(k, a@, b@, x),
{
    let x = k.inner(a, b);
    assert(call_ensures(K::inner, (k, a, b), x));
    x
}

/// Whether `x` is the length of a vector.
pub open spec fn length_of<K: LinearMath>(k: &K, a: Seq<Real>, x: Real) -> bool {
    exists|u: Vec<Real>| u@ == a && #[trigger] call_ensures(K::length, (k, &u), x)
}

/// The length of a vector.
pub fn length<K: LinearMath>(k: &K, a: &Vec<Real>) -> (x: Real)
    ensures
        length_of(k, a@, x),
{
    let x = k.length(a);
    assert(call_ensures(K::length, (k, a), x));
    x
}

/// Whether `r` is the matrix times the vector.
pub open spec fn applied<K: LinearMath>(k: &K, m: Matrix, x: Seq<Real>, r: Seq<Real>) -> bool {
    &&& r.len() == m.height()
    &&& forall|i: int| 0 <= i < r.len() ==> inner_of(k, m.rows@[i]@, x, #[trigger] r[i])
}

/// A matrix times a vector.
pub fn apply<K: LinearMath>(k: &K, m: &Matrix, x: &Vec<Real>) -> (r: Vec<Real>)
    ensures
        applied(k, *m, x@, r@),
{
    let mut r: Vec<Real> = Vec::new();
    for i in 0..m.rows.len()
        invariant
            r@.len() == i,
            forall|j: int| 0 <= j < i ==> inner_of(k, m.rows@[j]@, x@, #[trigger] r@[j]),
    {
        r.push(inner(k, &m.rows[i], x));
    }
    r
}

/// Whether `r` is the transpose of the matrix times the vector.
pub open spec fn pulled<K: LinearMath>(k: &K, m: Matrix, x: Seq<Real>, r: Seq<Real>) -> bool {
    &&& r.len() == m.cols
    &&& forall|c: int| 0 <= c < r.len() ==> inner_of(k, m.column(c), x, #[trigger] r[c])
}

/// The transpose of a matrix times a vector.
pub fn pull<K: LinearMath>(k: &K, m: &Matrix, x: &Vec<Real>) -> (r: Vec<Real>)
    requires
        m.wf(),
    ensures
        pulled(k, *m, x@, r@),
{
    let mut r: Vec<Real> = Vec::new();
    for c in 0..m.cols
        invariant
            m.wf(),
            r@.len() == c,
            forall|j: int| 0 <= j < c ==> inner_of(k, m.column(j), x@, #[trigger] r@[j]),
    {
        let column = m.copy_column(c);
        r.push(inner(k, &column, x));
    }
    r
}

/// Whether `r` is the product of two matrices.
pub open spec fn multiplied<K: LinearMath>(k: &K, a: Matrix, b: Matrix, r: Matrix) -> bool {
    &&& r.sized(a.height(), b.cols as int)
    &&& forall|i: int, j: int|
        0 <= i < a.height() && 0 <= j < b.cols ==> inner_of(
            k,
            b.column(j),
            a.rows@[i]@,
            #[trigger] r.at(i, j),
        )
}

/// The product of two matrices.
pub fn multiply<K: LinearMath>(k: &K, a: &Matrix, b: &Matrix) -> (r: Matrix)
    requires
        b.wf(),
    ensures
        multiplied(k, *a, *b, r),
{
    let mut rows: Vec<Vec<Real>> = Vec::new();
    for i in 0..a.rows.len()
        invariant
            b.wf(),
            rows@.len() == i,
            forall|x: int| 0 <= x < i ==> #[trigger] pulled(k, *b, a.rows@[x]@, rows@[x]@),
    {
        rows.push(pull(k, b, &a.rows[i]));
    }
    let r = Matrix { rows, cols: b.cols };
    assert forall|i: int| 0 <= i < r.rows@.len() implies (#[trigger] r.rows@[i])@.len() == r.cols by {
        assert(pulled(k, *b, a.rows@[i]@, rows@[i]@));
    }
    assert forall|i: int, j: int| 0 <= i < a.height() && 0 <= j < b.cols implies inner_of(
        k,
        b.column(j),
        a.rows@[i]@,
        #[trigger] r.at(i, j),
    ) by {
        assert(pulled(k, *b, a.rows@[i]@, rows@[i]@));
        assert(inner_of(k, b.column(j), a.rows@[i]@, rows@[i]@[j]));
    }
    r
}

} // verus!
