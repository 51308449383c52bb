use vstd::prelude::*;
use ndarray_rand::RandomExt;
use crate::error::KMeansError;

verus! {

/// A dense two-dimensional table of fixed-point numbers, stored in an
/// `ndarray::Array2<i32>`. The array is opaque to proofs: contracts speak
/// of its cells through `matrix_cells` and `matrix_width`, and the methods
/// named `raw_` say what the array's own operations do to them.
#[verifier::external_body]
#[derive(Debug)]
pub struct Matrix {
    cells: ndarray::Array2<i32>,
}

/// The cells of a matrix, row by row.
pub uninterp spec fn matrix_cells(m: Matrix) -> Seq<Seq<i32>>;

/// The length of the second axis of a matrix (it is not visible in the
/// cells when the matrix has no rows).
pub uninterp spec fn matrix_width(m: Matrix) -> nat;

/// `cells` is a rectangular table of `rows` rows and `cols` columns whose
/// cell count fits in a `usize`.
pub open spec fn is_table(cells: Seq<Seq<i32>>, rows: nat, cols: nat) -> bool {
    &&& cells.len() == rows
    &&& forall|r: int| 0 <= r < rows ==> (#[trigger] cells[r]).len() == cols
    &&& rows * cols <= usize::MAX
}

/// The largest number of cells, and the longest axis, that a matrix made by
/// this library may have: the cells must fit in `isize::MAX` bytes.
pub open spec fn max_cells() -> nat {
    (usize::MAX / 8) as nat
}

/// The fixed-point number one: cells carry sixteen fractional bits.
pub const ONE: i32 = 65536;

/// `cells` is a table of `rows` by `cols` fixed-point numbers that all lie
/// in the half-open unit interval, zero included and one excluded.
pub open spec fn is_seed(cells: Seq<Seq<i32>>, rows: nat, cols: nat) -> bool {
    &&& is_table(cells, rows, cols)
    &&& forall|r: int, c: int| 0 <= r < rows && 0 <= c < cols ==> 0 <= (#[trigger] cells[r][c]) < ONE
}

/// A matrix of `rows` by `cols` cells can be allocated.
pub open spec fn fits(rows: nat, cols: nat) -> bool {
    rows <= max_cells() && cols <= max_cells() && rows * cols <= max_cells()
}

impl View for Matrix {
    type V = Seq<Seq<i32>>;

    open spec fn view(&self) -> Seq<Seq<i32>> {
        matrix_cells(*self)
    }
}

impl Matrix {
    /// Calls `RandomExt::random_using` with `Uniform::new(0, ONE)`. The
    /// array has the shape asked for, and each cell is a sample of the
    /// half-open range from zero to one, whatever the generator yields.
    #[verifier::external_body]
    pub(crate) fn raw_random(rows: usize, cols: usize, rng: &mut ndarray_rand::rand::rngs::StdRng) -> (m:
        Matrix)
        requires
            fits(rows as nat, cols as nat),
        ensures
            is_seed(matrix_cells(m), rows as nat, cols as nat),
            matrix_width(m) == cols,
    {
        let range = ndarray_rand::rand_distr::Uniform::new(0i32, ONE);
        Matrix { cells: ndarray::Array2::random_using((rows, cols), range, rng) }
    }

    /// Number of rows.
    pub open spec fn rows(&self) -> nat {
        matrix_cells(*self).len()
    }

    /// Number of columns.
    pub open spec fn cols(&self) -> nat {
        matrix_width(*self)
    }

    /// The matrix is rectangular and its size is addressable.
    pub open spec fn wf(&self) -> bool {
        is_table(self@, self.rows(), self.cols())
    }

    /// Calls `ArrayBase::dim`. The pair is the array's shape, every row of
    /// the cells has the second component as its length, and the cell count
    /// fits in a `usize` (ndarray keeps it within `isize::MAX`).
    #[verifier::external_body]
    pub(crate) fn raw_shape(&self) -> (shape: (usize, usize))
        ensures
            is_table(matrix_cells(*self), shape.0 as nat, shape.1 as nat),
            matrix_width(*self) == shape.1,
    {
        self.cells.dim()
    }

    /// Calls `ArrayBase::index` with a two-dimensional index, which panics
    /// outside the shape and otherwise yields the cell at that place.
    #[verifier::external_body]
    pub(crate) fn raw_get(&self, r: usize, c: usize) -> (v: i32)
        requires
            r < self.rows(),
            c < self.cols(),
        ensures
            v == matrix_cells(*self)[r as int][c as int],
    {
        self.cells[[r, c]]
    }

    /// Calls `ArrayBase::index_mut` with a two-dimensional index, which
    /// panics outside the shape and otherwise overwrites that one cell.
    #[verifier::external_body]
    pub(crate) fn raw_set(&mut self, r: usize, c: usize, v: i32)
        requires
            r < old(self).rows(),
            c < old(self).cols(),
        ensures
            matrix_cells(*final(self)) == matrix_cells(*old(self)).update(
                r as int,
                matrix_cells(*old(self))[r as int].update(c as int, v),
            ),
            matrix_width(*final(self)) == matrix_width(*old(self)),
    {
        self.cells[[r, c]] = v;
    }

    /// Calls `ArrayBase::zeros`, which panics when the shape's size
    /// overflows `isize` and otherwise gives an array of that shape whose
    /// cells are all zero.
    #[verifier::external_body]
    pub(crate) fn raw_zeros(rows: usize, cols: usize) -> (m: Matrix)
        requires
            fits(rows as nat, cols as nat),
        ensures
            is_table(matrix_cells(m), rows as nat, cols as nat),
            matrix_width(m) == cols,
            forall|r: int, c: int|
                0 <= r < rows && 0 <= c < cols ==> (#[trigger] matrix_cells(m)[r][c]) == 0,
    {
        Matrix { cells: ndarray::Array2::zeros((rows, cols)) }
    }

    /// The shape of the matrix: rows, then columns.
    pub fn shape(&self) -> (shape: (usize, usize))
        ensures
            shape.0 == self.rows(),
            shape.1 == self.cols(),
            self.wf(),
    {
        self.raw_shape()
    }

    /// Number of rows.
    pub fn nrows(&self) -> (n: usize)
        ensures
            n == self.rows(),
            self.wf(),
    {
        self.raw_shape().0
    }

    /// Number of columns.
    pub fn ncols(&self) -> (n: usize)
        ensures
            n == self.cols(),
            self.wf(),
    {
        self.raw_shape().1
    }

    /// The cell in row `r` and column `c`, or `None` outside the matrix.
    pub fn get(&self, r: usize, c: usize) -> (cell: Option<i32>)
        ensures
            cell.is_some() <==> r < self.rows() && c < self.cols(),
            cell.is_some() ==> cell.unwrap() == self@[r as int][c as int],
    {
        let (rows, cols) = self.raw_shape();
        if r < rows && c < cols {
            Some(self.raw_get(r, c))
        } else {
            None
        }
    }

    /// Overwrites the cell in row `r` and column `c` and reports `true`;
    /// outside the matrix nothing changes and the answer is `false`.
    pub fn set(&mut self, r: usize, c: usize, v: i32) -> (done: bool)
        ensures
            done <==> r < old(self).rows() && c < old(self).cols(),
            done ==> final(self)@ == old(self)@.update(r as int, old(self)@[r as int].update(c as int, v)),
            !done ==> final(self)@ == old(self)@,
            final(self).rows() == old(self).rows(),
            final(self).cols() == old(self).cols(),
            final(self).wf(),
    {
        let (rows, cols) = self.raw_shape();
        if r < rows && c < cols {
            self.raw_set(r, c, v);
            true
        } else {
            false
        }
    }

    /// A matrix of the given shape whose cells are all zero.
    pub fn zeros(rows: usize, cols: usize) -> (made: Result<Matrix, KMeansError>)
        ensures
            made.is_ok() <==> fits(rows as nat, cols as nat),
            made.is_err() ==> made == Err::<Matrix, KMeansError>(KMeansError::TooLarge),
            made.is_ok() ==> {
                let m = made.unwrap();
                &&& m.rows() == rows && m.cols() == cols && m.wf()
                &&& forall|r: int, c: int| 0 <= r < rows && 0 <= c < cols ==> (#[trigger] m@[r][c]) == 0
            },
    {
        if can_hold(rows, cols) {
            Ok(Matrix::raw_zeros(rows, cols))
        } else {
            Err(KMeansError::TooLarge)
        }
    }
}

/// The rows of a nested vector as sequences.
pub open spec fn rows_of(rows: Vec<Vec<i32>>) -> Seq<Seq<i32>> {
    Seq::new(rows@.len(), |r: int| rows@[r]@)
}

/// The length of the first row, or zero where there is none.
pub open spec fn first_width(cells: Seq<Seq<i32>>) -> nat {
    if cells.len() == 0 {
        0
    } else {
        cells[0].len()
    }
}

/// Every row is as long as the first.
pub open spec fn is_rectangular(cells: Seq<Seq<i32>>) -> bool {
    forall|r: int| 0 <= r < cells.len() ==> (#[trigger] cells[r]).len() == first_width(cells)
}

/// The matrix with the given rows. Rows of different lengths are refused
/// as an invalid argument, and a table too large to allocate as such.
pub fn from_rows(rows: &Vec<Vec<i32>>) -> (made: Result<Matrix, KMeansError>)
    ensures
        made == Err::<Matrix, KMeansError>(KMeansError::InvalidArgument) <==> !is_rectangular(
            rows_of(*rows),
        ),
        made == Err::<Matrix, KMeansError>(KMeansError::TooLarge) <==> is_rectangular(rows_of(*rows))
            && !fits(rows@.len(), first_width(rows_of(*rows))),
        made.is_ok() ==> made.unwrap()@ == rows_of(*rows) && made.unwrap().cols() == first_width(
            rows_of(*rows),
        ) && made.unwrap().wf(),
{
    let ghost cells = rows_of(*rows);
    let height = rows.len();
    let width = if height == 0 {
        0
    } else {
        rows[0].len()
    };
    assert(width == first_width(cells));
    let mut r: usize = 0;
    while r < height
        invariant
            cells == rows_of(*rows),
            height == rows@.len(),
            width == first_width(cells),
            0 <= r <= height,
            forall|h: int| 0 <= h < r ==> (#[trigger] cells[h]).len() == width,
        decreases height - r,
    {
        if rows[r].len() != width {
            assert(cells[r as int].len() != width);
            return Err(KMeansError::InvalidArgument);
        }
        r = r + 1;
    }
    if !can_hold(height, width) {
        return Err(KMeansError::TooLarge);
    }
    let mut m = Matrix::raw_zeros(height, width);
    let mut r: usize = 0;
    while r < height
        invariant
            cells == rows_of(*rows),
            height == rows@.len(),
            is_rectangular(cells),
            width == first_width(cells),
            m.wf(),
            m.rows() == height,
            m.cols() == width,
            0 <= r <= height,
            forall|h: int| 0 <= h < r ==> (#[trigger] m@[h]) == cells[h],
        decreases height - r,
    {
        let row = &rows[r];
        assert(row@ == cells[r as int]);
        let mut c: usize = 0;
        while c < width
            invariant
                cells == rows_of(*rows),
                row@ == cells[r as int],
                row@.len() == width,
                m.wf(),
                m.rows() == height,
                m.cols() == width,
                0 <= r < height,
                0 <= c <= width,
                forall|h: int| 0 <= h < r ==> (#[trigger] m@[h]) == cells[h],
                forall|d: int| 0 <= d < c ==> (#[trigger] m@[r as int][d]) == row@[d],
            decreases width - c,
        {
            m.raw_set(r, c, row[c]);
            c = c + 1;
        }
        assert(m@[r as int] =~= cells[r as int]);
        r = r + 1;
    }
    assert(m@ =~= cells);
    Ok(m)
}

/// Whether a matrix of `rows` by `cols` cells can be allocated.
pub fn can_hold(rows: usize, cols: usize) -> (yes: bool)
    ensures
        yes == fits(rows as nat, cols as nat),
{
    let limit: usize = usize::MAX / 8;
    if rows > limit || cols > limit {
        return false;
    }
    if rows != 0 && cols > limit / rows {
        proof {
            assert(rows * cols > max_cells()) by (nonlinear_arith)
                requires
                    rows > 0,
                    cols > limit / rows,
                    limit == max_cells(),
                    cols >= 0,
            ;
        }
        return false;
    }
    proof {
        if rows != 0 {
            assert(rows * cols <= max_cells()) by (nonlinear_arith)
                requires
                    rows > 0,
                    cols <= limit / rows,
                    limit == max_cells(),
                    cols >= 0,
            ;
        } else {
            assert(rows * cols == 0) by (nonlinear_arith)
                requires
                    rows == 0,
            ;
        }
    }
    true
}

} // verus!
