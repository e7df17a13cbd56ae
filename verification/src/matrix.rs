//! The matrix container, its arithmetic operations, and the decoder for
//! bracketed matrix literals such as `[[1,2][3,4]]`.
//!
//! Cells are 64-bit signed integers; every operation states exactly when it
//! succeeds and what every cell of its result is. An operation whose exact
//! result would not fit in a cell reports an overflow error rather than
//! returning a wrong value.

use vstd::prelude::*;
use crate::text::{dec_int, dec_nat, digit_end, digit_val, digits_val, is_digit_char, lemma_digit_end_bounds, scan_digits};
use vstd::string::StrSliceExecFns;
use vstd::string::StringExecFns;

verus! {

/// A two-dimensional numeric container: `rows` rows of `cols` cells each.
#[derive(Debug, PartialEq)]
pub struct Matrix {
    pub rows: usize,
    pub cols: usize,
    pub data: Vec<Vec<i64>>,
}

/// Errors of the arithmetic operations.
#[derive(Clone, Copy, Debug, PartialEq, Eq, Structural)]
pub enum MatrixError {
    /// The operand shapes do not fit the operation.
    DimensionMismatch,
    /// The exact result of a cell does not fit in a 64-bit cell.
    Overflow,
    /// The operation is recognised but deliberately unsupported.
    NotImplemented,
}

/// Errors of the matrix-literal decoder.
#[derive(Clone, Copy, Debug, PartialEq, Eq, Structural)]
pub enum DecodeError {
    /// A numeric token cannot be decoded into a cell value.
    InvalidNumber,
    /// Two bracketed rows hold different numbers of values.
    InconsistentRowLengths,
}

impl View for Matrix {
    type V = Seq<Seq<int>>;

    open spec fn view(&self) -> Seq<Seq<int>> {
        Seq::new(
            self.data@.len(),
            |i: int| Seq::new(self.data@[i]@.len(), |j: int| self.data@[i]@[j] as int),
        )
    }
}

/// A sequence of rows that all have the given length.
pub open spec fn mat_shape(a: Seq<Seq<int>>, r: int, c: int) -> bool {
    a.len() == r && forall|i: int| 0 <= i < a.len() ==> (#[trigger] a[i]).len() == c
}

/// A mathematical value fits in a 64-bit cell.
pub open spec fn fits_cell(v: int) -> bool {
    i64::MIN <= v && v <= i64::MAX
}

/// Elementwise sum.
pub open spec fn mat_add(a: Seq<Seq<int>>, b: Seq<Seq<int>>) -> Seq<Seq<int>> {
    Seq::new(a.len(), |i: int| Seq::new(a[i].len(), |j: int| a[i][j] + b[i][j]))
}

/// Elementwise difference.
pub open spec fn mat_sub(a: Seq<Seq<int>>, b: Seq<Seq<int>>) -> Seq<Seq<int>> {
    Seq::new(a.len(), |i: int| Seq::new(a[i].len(), |j: int| a[i][j] - b[i][j]))
}

/// Every cell multiplied by the scalar `s`.
pub open spec fn mat_scale(s: int, a: Seq<Seq<int>>) -> Seq<Seq<int>> {
    Seq::new(a.len(), |i: int| Seq::new(a[i].len(), |j: int| s * a[i][j]))
}

/// The transpose of an `r` by `c` matrix.
pub open spec fn mat_transpose(a: Seq<Seq<int>>, r: nat, c: nat) -> Seq<Seq<int>> {
    Seq::new(c, |i: int| Seq::new(r, |j: int| a[j][i]))
}

/// Dot product of row `r` with column `j` of `b`, over the first `k` terms.
pub open spec fn dot(r: Seq<int>, b: Seq<Seq<int>>, k: int, j: int) -> int
    decreases k,
{
    if k <= 0 {
        0
    } else {
        dot(r, b, k - 1, j) + r[k - 1] * b[k - 1][j]
    }
}

/// Every term and every partial sum of the dot product fits in a cell.
pub open spec fn dot_fits(r: Seq<int>, b: Seq<Seq<int>>, k: int, j: int) -> bool {
    forall|t: int|
        0 <= t < k ==> fits_cell(#[trigger] (r[t] * b[t][j])) && fits_cell(dot(r, b, t + 1, j))
}

/// The product of an `m` by `k` matrix with a `k` by `n` matrix.
pub open spec fn mat_mul(a: Seq<Seq<int>>, b: Seq<Seq<int>>, k: int, n: nat) -> Seq<Seq<int>> {
    Seq::new(a.len(), |i: int| Seq::new(n, |j: int| dot(a[i], b, k, j)))
}

impl Matrix {
    /// The stored shape agrees with the stored cells.
    pub open spec fn wf(&self) -> bool {
        self.data@.len() == self.rows && forall|i: int|
            0 <= i < self.data@.len() ==> (#[trigger] self.data@[i])@.len() == self.cols
    }

    /// A zero-filled matrix of the given shape.
    pub fn new(rows: usize, cols: usize) -> (r: Matrix)
        ensures
            r.wf(),
            r.rows == rows,
            r.cols == cols,
            mat_shape(r@, rows as int, cols as int),
            forall|i: int, j: int| 0 <= i < rows && 0 <= j < cols ==> r@[i][j] == 0,
    {
        let mut data: Vec<Vec<i64>> = Vec::new();
        let mut i: usize = 0;
        while i < rows
            invariant
                i <= rows,
                data@.len() == i,
                forall|ii: int| 0 <= ii < i ==> (#[trigger] data@[ii])@.len() == cols,
                forall|ii: int, jj: int|
                    0 <= ii < i && 0 <= jj < cols ==> #[trigger] data@[ii]@[jj] == 0,
            decreases rows - i,
        {
            let mut row: Vec<i64> = Vec::new();
            let mut j: usize = 0;
            while j < cols
                invariant
                    j <= cols,
                    row@.len() == j,
                    forall|jj: int| 0 <= jj < j ==> row@[jj] == 0,
                decreases cols - j,
            {
                row.push(0);
                j += 1;
            }
            data.push(row);
            i += 1;
        }
        Matrix { rows, cols, data }
    }

    /// An exact copy, cell for cell.
    pub fn duplicate(&self) -> (r: Matrix)
        ensures
            r.rows == self.rows,
            r.cols == self.cols,
            r@ == self@,
            self.wf() ==> r.wf(),
    {
        let mut data: Vec<Vec<i64>> = Vec::new();
        let mut i: usize = 0;
        while i < self.data.len()
            invariant
                i <= self.data@.len(),
                data@.len() == i,
                forall|ii: int| 0 <= ii < i ==> (#[trigger] data@[ii])@ == self.data@[ii]@,
            decreases self.data@.len() - i,
        {
            let src = &self.data[i];
            let mut row: Vec<i64> = Vec::new();
            let mut j: usize = 0;
            while j < src.len()
                invariant
                    j <= src@.len(),
                    row@.len() == j,
                    forall|jj: int| 0 <= jj < j ==> row@[jj] == src@[jj],
                decreases src@.len() - j,
            {
                row.push(src[j]);
                j += 1;
            }
            proof {
                assert(row@ =~= src@);
            }
            data.push(row);
            i += 1;
        }
        let r = Matrix { rows: self.rows, cols: self.cols, data };
        proof {
            assert(r@ =~~= self@);
        }
        r
    }
}

/// One rendered cell: the decimal notation of `v`, padded on the right with
/// one space when it is a single character, so that every cell is at least
/// two characters wide.
pub open spec fn render_cell(v: int) -> Seq<char> {
    if dec_int(v).len() < 2 {
        dec_int(v) + seq![' ']
    } else {
        dec_int(v)
    }
}

/// The cells of one row from position `j` on, each preceded by one space.
pub open spec fn render_row_from(r: Seq<int>, j: int) -> Seq<char>
    decreases r.len() - j,
{
    if j < 0 || j >= r.len() {
        Seq::empty()
    } else {
        seq![' '] + render_cell(r[j]) + render_row_from(r, j + 1)
    }
}

/// The rows from position `i` on, each between `|` delimiters and ended by a
/// newline.
pub open spec fn render_rows_from(a: Seq<Seq<int>>, i: int) -> Seq<char>
    decreases a.len() - i,
{
    if i < 0 || i >= a.len() {
        Seq::empty()
    } else {
        seq!['|'] + render_row_from(a[i], 0) + seq!['|', '\n'] + render_rows_from(a, i + 1)
    }
}

/// The display text of a whole matrix.
pub open spec fn render(a: Seq<Seq<int>>) -> Seq<char> {
    render_rows_from(a, 0)
}

/// The decimal notation of a natural number is one character long exactly for
/// values below ten, and never empty.
pub proof fn lemma_dec_nat_len(n: nat)
    ensures
        dec_nat(n).len() >= 1,
        n < 10 <==> dec_nat(n).len() == 1,
    decreases n,
{
    if n >= 10 {
        lemma_dec_nat_len(n / 10);
    }
}

impl Matrix {
    /// Renders the matrix for display: one line per row, `|` delimiters, each
    /// value left-aligned in a minimum two-character field after one space.
    pub fn to_string(&self) -> (res: String)
        ensures
            res@ == render(self@),
    {
        proof {
            reveal_strlit("|");
            reveal_strlit("|\n");
            reveal_strlit(" ");
        }
        let ghost a = self@;
        let mut out = String::new();
        let mut i: usize = 0;
        while i < self.data.len()
            invariant
                i <= self.data@.len(),
                a == self@,
                out@ + render_rows_from(a, i as int) == render_rows_from(a, 0),
            decreases self.data@.len() - i,
        {
            proof {
                reveal_strlit("|");
                reveal_strlit("|\n");
            }
            let ghost out_row = out@;
            out.append("|");
            assert(out@ =~= out_row + seq!['|']);
            let row = &self.data[i];
            let ghost rv = a[i as int];
            assert(rv.len() == row@.len());
            let mut j: usize = 0;
            while j < row.len()
                invariant
                    j <= row@.len(),
                    rv.len() == row@.len(),
                    forall|jj: int| 0 <= jj < rv.len() ==> rv[jj] == row@[jj],
                    out@ + render_row_from(rv, j as int) == out_row + seq!['|'] + render_row_from(
                        rv,
                        0,
                    ),
                decreases row@.len() - j,
            {
                proof {
                    reveal_strlit(" ");
                }
                let ghost out_cell = out@;
                out.append(" ");
                let v = row[j];
                proof {
                    lemma_dec_nat_len(if v < 0 {
                        (-v) as nat
                    } else {
                        v as nat
                    });
                }
                if 0 <= v && v <= 9 {
                    crate::text::push_dec_i64(&mut out, v);
                    out.append(" ");
                } else {
                    crate::text::push_dec_i64(&mut out, v);
                }
                proof {
                    assert(" "@ =~= seq![' ']);
                    assert(out@ =~= out_cell + seq![' '] + render_cell(rv[j as int]));
                    assert(render_row_from(rv, j as int) == seq![' '] + render_cell(rv[j as int])
                        + render_row_from(rv, j + 1));
                    assert(out@ + render_row_from(rv, j + 1) =~= out_cell + render_row_from(
                        rv,
                        j as int,
                    ));
                }
                j += 1;
            }
            assert(out@ == out_row + seq!['|'] + render_row_from(rv, 0));
            out.append("|\n");
            proof {
                assert(out@ =~= out_row + (seq!['|'] + render_row_from(rv, 0) + seq!['|', '\n']));
                assert(render_rows_from(a, i as int) == seq!['|'] + render_row_from(rv, 0) + seq![
                    '|',
                    '\n',
                ] + render_rows_from(a, i + 1));
                assert(out@ + render_rows_from(a, i + 1) =~= out_row + render_rows_from(
                    a,
                    i as int,
                ));
            }
            i += 1;
        }
        proof {
            assert(out@ =~= out@ + render_rows_from(a, i as int));
        }
        out
    }
}

/// Both operands have the same number of rows and of columns.
pub open spec fn same_shape(m1: &Matrix, m2: &Matrix) -> bool {
    m1.rows == m2.rows && m1.cols == m2.cols
}

/// Elementwise sum of two matrices of identical shape.
pub fn sum_matrices(m1: Matrix, m2: Matrix) -> (r: Result<Matrix, MatrixError>)
    requires
        m1.wf(),
        m2.wf(),
    ensures
        r is Ok <==> same_shape(&m1, &m2) && (forall|i: int, j: int|
            #![trigger m1@[i][j]]
            0 <= i < m1.rows && 0 <= j < m1.cols ==> fits_cell(m1@[i][j] + m2@[i][j])),
        r matches Ok(s) ==> s.wf() && s.rows == m1.rows && s.cols == m1.cols && s@ == mat_add(
            m1@,
            m2@,
        ),
        r == Err::<Matrix, MatrixError>(MatrixError::DimensionMismatch) <==> !same_shape(&m1, &m2),
        r is Err ==> r == Err::<Matrix, MatrixError>(MatrixError::DimensionMismatch) || r == Err::<
            Matrix,
            MatrixError,
        >(MatrixError::Overflow),
{
    if m1.cols != m2.cols || m1.rows != m2.rows {
        return Err(MatrixError::DimensionMismatch);
    }
    let rows = m1.rows;
    let cols = m1.cols;
    let mut data: Vec<Vec<i64>> = Vec::new();
    let mut i: usize = 0;
    while i < rows
        invariant
            m1.wf(),
            m2.wf(),
            rows == m1.rows == m2.rows,
            cols == m1.cols == m2.cols,
            i <= rows,
            data@.len() == i,
            forall|ii: int| 0 <= ii < i ==> (#[trigger] data@[ii])@.len() == cols,
            forall|ii: int, jj: int|
                0 <= ii < i && 0 <= jj < cols ==> #[trigger] data@[ii]@[jj] == m1@[ii][jj]
                    + m2@[ii][jj],
            forall|ii: int, jj: int|
                #![trigger m1@[ii][jj]]
                0 <= ii < i && 0 <= jj < cols ==> fits_cell(m1@[ii][jj] + m2@[ii][jj]),
        decreases rows - i,
    {
        let mut row: Vec<i64> = Vec::new();
        let mut j: usize = 0;
        while j < cols
            invariant
                m1.wf(),
                m2.wf(),
                rows == m1.rows == m2.rows,
                cols == m1.cols == m2.cols,
                i < rows,
                j <= cols,
                row@.len() == j,
                forall|jj: int|
                    0 <= jj < j ==> #[trigger] row@[jj] == m1@[i as int][jj] + m2@[i as int][jj],
                forall|jj: int|
                    #![trigger m1@[i as int][jj]]
                    0 <= jj < j ==> fits_cell(m1@[i as int][jj] + m2@[i as int][jj]),
            decreases cols - j,
        {
            match m1.data[i][j].checked_add(m2.data[i][j]) {
                Some(v) => row.push(v),
                None => {
                    proof {
                        assert(!fits_cell(m1@[i as int][j as int] + m2@[i as int][j as int]));
                    }
                    return Err(MatrixError::Overflow);
                },
            }
            j += 1;
        }
        data.push(row);
        i += 1;
    }
    let s = Matrix { rows, cols, data };
    proof {
        assert forall|i: int| 0 <= i < rows implies s@[i] =~= mat_add(m1@, m2@)[i] by {}
        assert(s@ =~~= mat_add(m1@, m2@));
    }
    Ok(s)
}

/// Elementwise difference of two matrices of identical shape.
pub fn subtract_matrices(m1: Matrix, m2: Matrix) -> (r: Result<Matrix, MatrixError>)
    requires
        m1.wf(),
        m2.wf(),
    ensures
        r is Ok <==> same_shape(&m1, &m2) && (forall|i: int, j: int|
            #![trigger m1@[i][j]]
            0 <= i < m1.rows && 0 <= j < m1.cols ==> fits_cell(m1@[i][j] - m2@[i][j])),
        r matches Ok(s) ==> s.wf() && s.rows == m1.rows && s.cols == m1.cols && s@ == mat_sub(
            m1@,
            m2@,
        ),
        r == Err::<Matrix, MatrixError>(MatrixError::DimensionMismatch) <==> !same_shape(&m1, &m2),
        r is Err ==> r == Err::<Matrix, MatrixError>(MatrixError::DimensionMismatch) || r == Err::<
            Matrix,
            MatrixError,
        >(MatrixError::Overflow),
{
    if m1.cols != m2.cols || m1.rows != m2.rows {
        return Err(MatrixError::DimensionMismatch);
    }
    let rows = m1.rows;
    let cols = m1.cols;
    let mut data: Vec<Vec<i64>> = Vec::new();
    let mut i: usize = 0;
    while i < rows
        invariant
            m1.wf(),
            m2.wf(),
            rows == m1.rows == m2.rows,
            cols == m1.cols == m2.cols,
            i <= rows,
            data@.len() == i,
            forall|ii: int| 0 <= ii < i ==> (#[trigger] data@[ii])@.len() == cols,
            forall|ii: int, jj: int|
                0 <= ii < i && 0 <= jj < cols ==> #[trigger] data@[ii]@[jj] == m1@[ii][jj]
                    - m2@[ii][jj],
            forall|ii: int, jj: int|
                #![trigger m1@[ii][jj]]
                0 <= ii < i && 0 <= jj < cols ==> fits_cell(m1@[ii][jj] - m2@[ii][jj]),
        decreases rows - i,
    {
        let mut row: Vec<i64> = Vec::new();
        let mut j: usize = 0;
        while j < cols
            invariant
                m1.wf(),
                m2.wf(),
                rows == m1.rows == m2.rows,
                cols == m1.cols == m2.cols,
                i < rows,
                j <= cols,
                row@.len() == j,
                forall|jj: int|
                    0 <= jj < j ==> #[trigger] row@[jj] == m1@[i as int][jj] - m2@[i as int][jj],
                forall|jj: int|
                    #![trigger m1@[i as int][jj]]
                    0 <= jj < j ==> fits_cell(m1@[i as int][jj] - m2@[i as int][jj]),
            decreases cols - j,
        {
            match m1.data[i][j].checked_sub(m2.data[i][j]) {
                Some(v) => row.push(v),
                None => {
                    proof {
                        assert(!fits_cell(m1@[i as int][j as int] - m2@[i as int][j as int]));
                    }
                    return Err(MatrixError::Overflow);
                },
            }
            j += 1;
        }
        data.push(row);
        i += 1;
    }
    let s = Matrix { rows, cols, data };
    proof {
        assert forall|i: int| 0 <= i < rows implies s@[i] =~= mat_sub(m1@, m2@)[i] by {}
        assert(s@ =~~= mat_sub(m1@, m2@));
    }
    Ok(s)
}

/// Standard matrix product; the left operand's column count must equal the
/// right operand's row count.
pub fn multiply_matrices(m1: Matrix, m2: Matrix) -> (r: Result<Matrix, MatrixError>)
    requires
        m1.wf(),
        m2.wf(),
    ensures
        r is Ok <==> m1.cols == m2.rows && (forall|i: int, j: int|
            0 <= i < m1.rows && 0 <= j < m2.cols ==> #[trigger] dot_fits(
                m1@[i],
                m2@,
                m1.cols as int,
                j,
            )),
        r matches Ok(s) ==> s.wf() && s.rows == m1.rows && s.cols == m2.cols && s@ == mat_mul(
            m1@,
            m2@,
            m1.cols as int,
            m2.cols as nat,
        ),
        r == Err::<Matrix, MatrixError>(MatrixError::DimensionMismatch) <==> m1.cols != m2.rows,
        r is Err ==> r == Err::<Matrix, MatrixError>(MatrixError::DimensionMismatch) || r == Err::<
            Matrix,
            MatrixError,
        >(MatrixError::Overflow),
{
    if m1.cols != m2.rows {
        return Err(MatrixError::DimensionMismatch);
    }
    let rows = m1.rows;
    let cols = m2.cols;
    let inner = m1.cols;
    let mut data: Vec<Vec<i64>> = Vec::new();
    let mut i: usize = 0;
    while i < rows
        invariant
            m1.wf(),
            m2.wf(),
            rows == m1.rows,
            cols == m2.cols,
            inner == m1.cols == m2.rows,
            i <= rows,
            data@.len() == i,
            forall|ii: int| 0 <= ii < i ==> (#[trigger] data@[ii])@.len() == cols,
            forall|ii: int, jj: int|
                0 <= ii < i && 0 <= jj < cols ==> #[trigger] data@[ii]@[jj] == dot(
                    m1@[ii],
                    m2@,
                    inner as int,
                    jj,
                ),
            forall|ii: int, jj: int|
                0 <= ii < i && 0 <= jj < cols ==> #[trigger] dot_fits(
                    m1@[ii],
                    m2@,
                    inner as int,
                    jj,
                ),
        decreases rows - i,
    {
        let mut row: Vec<i64> = Vec::new();
        let mut j: usize = 0;
        while j < cols
            invariant
                m1.wf(),
                m2.wf(),
                rows == m1.rows,
                cols == m2.cols,
                inner == m1.cols == m2.rows,
                i < rows,
                j <= cols,
                row@.len() == j,
                forall|jj: int|
                    0 <= jj < j ==> #[trigger] row@[jj] == dot(m1@[i as int], m2@, inner as int, jj),
                forall|jj: int|
                    0 <= jj < j ==> #[trigger] dot_fits(m1@[i as int], m2@, inner as int, jj),
            decreases cols - j,
        {
            let mut acc: i64 = 0;
            let mut t: usize = 0;
            while t < inner
                invariant
                    m1.wf(),
                    m2.wf(),
                    rows == m1.rows,
                    cols == m2.cols,
                    inner == m1.cols == m2.rows,
                    i < rows,
                    j < cols,
                    t <= inner,
                    acc == dot(m1@[i as int], m2@, t as int, j as int),
                    dot_fits(m1@[i as int], m2@, t as int, j as int),
                decreases inner - t,
            {
                proof {
                    assert(dot(m1@[i as int], m2@, t + 1, j as int) == dot(
                        m1@[i as int],
                        m2@,
                        t as int,
                        j as int,
                    ) + m1@[i as int][t as int] * m2@[t as int][j as int]);
                }
                let p = match m1.data[i][t].checked_mul(m2.data[t][j]) {
                    Some(p) => p,
                    None => {
                        proof {
                            assert(!fits_cell(m1@[i as int][t as int] * m2@[t as int][j as int]));
                            assert(!dot_fits(m1@[i as int], m2@, inner as int, j as int));
                        }
                        return Err(MatrixError::Overflow);
                    },
                };
                acc = match acc.checked_add(p) {
                    Some(a) => a,
                    None => {
                        proof {
                            assert(!fits_cell(dot(m1@[i as int], m2@, t + 1, j as int)));
                            assert(!dot_fits(m1@[i as int], m2@, inner as int, j as int));
                        }
                        return Err(MatrixError::Overflow);
                    },
                };
                t += 1;
            }
            row.push(acc);
            j += 1;
        }
        data.push(row);
        i += 1;
    }
    let s = Matrix { rows, cols, data };
    proof {
        assert forall|i: int| 0 <= i < rows implies s@[i] =~= mat_mul(
            m1@,
            m2@,
            inner as int,
            cols as nat,
        )[i] by {}
        assert(s@ =~~= mat_mul(m1@, m2@, inner as int, cols as nat));
    }
    Ok(s)
}

/// Every cell multiplied by the scalar `s`.
pub fn scale_matrix(m: Matrix, s: i64) -> (r: Result<Matrix, MatrixError>)
    requires
        m.wf(),
    ensures
        r is Ok <==> (forall|i: int, j: int|
            #![trigger m@[i][j]]
            0 <= i < m.rows && 0 <= j < m.cols ==> fits_cell(s * m@[i][j])),
        r matches Ok(sc) ==> sc.wf() && sc.rows == m.rows && sc.cols == m.cols && sc@ == mat_scale(
            s as int,
            m@,
        ),
        r is Err ==> r == Err::<Matrix, MatrixError>(MatrixError::Overflow),
{
    let rows = m.rows;
    let cols = m.cols;
    let mut data: Vec<Vec<i64>> = Vec::new();
    let mut i: usize = 0;
    while i < rows
        invariant
            m.wf(),
            rows == m.rows,
            cols == m.cols,
            i <= rows,
            data@.len() == i,
            forall|ii: int| 0 <= ii < i ==> (#[trigger] data@[ii])@.len() == cols,
            forall|ii: int, jj: int|
                0 <= ii < i && 0 <= jj < cols ==> #[trigger] data@[ii]@[jj] == s * m@[ii][jj],
            forall|ii: int, jj: int|
                #![trigger m@[ii][jj]]
                0 <= ii < i && 0 <= jj < cols ==> fits_cell(s * m@[ii][jj]),
        decreases rows - i,
    {
        let mut row: Vec<i64> = Vec::new();
        let mut j: usize = 0;
        while j < cols
            invariant
                m.wf(),
                rows == m.rows,
                cols == m.cols,
                i < rows,
                j <= cols,
                row@.len() == j,
                forall|jj: int| 0 <= jj < j ==> #[trigger] row@[jj] == s * m@[i as int][jj],
                forall|jj: int|
                    #![trigger m@[i as int][jj]]
                    0 <= jj < j ==> fits_cell(s * m@[i as int][jj]),
            decreases cols - j,
        {
            match s.checked_mul(m.data[i][j]) {
                Some(v) => row.push(v),
                None => {
                    proof {
                        assert(!fits_cell(s * m@[i as int][j as int]));
                    }
                    return Err(MatrixError::Overflow);
                },
            }
            j += 1;
        }
        data.push(row);
        i += 1;
    }
    let sc = Matrix { rows, cols, data };
    proof {
        assert forall|i: int| 0 <= i < rows implies sc@[i] =~= mat_scale(s as int, m@)[i] by {}
        assert(sc@ =~~= mat_scale(s as int, m@));
    }
    Ok(sc)
}

/// The transpose: cell `(i, j)` of the result is cell `(j, i)` of `m`.
pub fn transpose_matrix(m: Matrix) -> (r: Matrix)
    requires
        m.wf(),
    ensures
        r.wf(),
        r.rows == m.cols,
        r.cols == m.rows,
        r@ == mat_transpose(m@, m.rows as nat, m.cols as nat),
{
    let rows = m.cols;
    let cols = m.rows;
    let mut data: Vec<Vec<i64>> = Vec::new();
    let mut i: usize = 0;
    while i < rows
        invariant
            m.wf(),
            rows == m.cols,
            cols == m.rows,
            i <= rows,
            data@.len() == i,
            forall|ii: int| 0 <= ii < i ==> (#[trigger] data@[ii])@.len() == cols,
            forall|ii: int, jj: int|
                0 <= ii < i && 0 <= jj < cols ==> #[trigger] data@[ii]@[jj] == m@[jj][ii],
        decreases rows - i,
    {
        let mut row: Vec<i64> = Vec::new();
        let mut j: usize = 0;
        while j < cols
            invariant
                m.wf(),
                rows == m.cols,
                cols == m.rows,
                i < rows,
                j <= cols,
                row@.len() == j,
                forall|jj: int| 0 <= jj < j ==> #[trigger] row@[jj] == m@[jj][i as int],
            decreases cols - j,
        {
            row.push(m.data[j][i]);
            j += 1;
        }
        data.push(row);
        i += 1;
    }
    let r = Matrix { rows, cols, data };
    proof {
        assert forall|i: int| 0 <= i < rows implies r@[i] =~= mat_transpose(
            m@,
            m.rows as nat,
            m.cols as nat,
        )[i] by {}
        assert(r@ =~~= mat_transpose(m@, m.rows as nat, m.cols as nat));
    }
    r
}

/// Matrix inversion is recognised for square matrices but deliberately
/// unsupported: an honest error takes the place of a value that would not
/// satisfy the inverse law.
pub fn invert_matrix(m: Matrix) -> (r: Result<Matrix, MatrixError>)
    ensures
        r is Err,
        r == Err::<Matrix, MatrixError>(MatrixError::DimensionMismatch) <==> m.rows != m.cols,
        r == Err::<Matrix, MatrixError>(MatrixError::NotImplemented) <==> m.rows == m.cols,
{
    if m.rows != m.cols {
        Err(MatrixError::DimensionMismatch)
    } else {
        Err(MatrixError::NotImplemented)
    }
}

/// First position at or after `i` that holds a bracket, or the end of `s`.
pub open spec fn non_bracket_end(s: Seq<char>, i: int) -> int
    decreases s.len() - i,
{
    if i < 0 || i >= s.len() || s[i] == '[' || s[i] == ']' {
        i
    } else {
        non_bracket_end(s, i + 1)
    }
}

pub proof fn lemma_non_bracket_end_bounds(s: Seq<char>, i: int)
    requires
        0 <= i <= s.len(),
    ensures
        i <= non_bracket_end(s, i) <= s.len(),
    decreases s.len() - i,
{
    if !(i >= s.len() || s[i] == '[' || s[i] == ']') {
        lemma_non_bracket_end_bounds(s, i + 1);
    }
}

/// The bracket-delimited row segments of `s`, left to right: the text between
/// a `[` and the next bracket, when that bracket is a `]`; brackets do not
/// nest, and an unclosed opening bracket is skipped.
pub open spec fn row_segments_from(s: Seq<char>, i: int) -> Seq<Seq<char>>
    decreases s.len() - i,
    via row_segments_from_decreases
{
    if i < 0 || i >= s.len() {
        Seq::empty()
    } else if s[i] == '[' {
        let e = non_bracket_end(s, i + 1);
        if e < s.len() && s[e] == ']' {
            seq![s.subrange(i + 1, e)] + row_segments_from(s, e + 1)
        } else if e < s.len() {
            row_segments_from(s, e)
        } else {
            Seq::empty()
        }
    } else {
        row_segments_from(s, i + 1)
    }
}

#[via_fn]
proof fn row_segments_from_decreases(s: Seq<char>, i: int) {
    if 0 <= i < s.len() {
        lemma_non_bracket_end_bounds(s, i + 1);
    }
}

/// A numeric token begins at `i`: a digit, or a minus sign followed by a
/// digit.
pub open spec fn num_token_starts_at(s: Seq<char>, i: int) -> bool {
    if 0 <= i < s.len() {
        is_digit_char(s[i]) || (s[i] == '-' && i + 1 < s.len() && is_digit_char(s[i + 1]))
    } else {
        false
    }
}

/// End of the numeric token beginning at `i`: an optional minus sign, a run
/// of digits, and an optional fraction (a dot followed by at least one
/// digit).
pub open spec fn num_token_end(s: Seq<char>, i: int) -> int {
    let ds = if s[i] == '-' {
        i + 1
    } else {
        i
    };
    let e = digit_end(s, ds);
    if e < s.len() && s[e] == '.' && e + 1 < s.len() && is_digit_char(s[e + 1]) {
        digit_end(s, e + 1)
    } else {
        e
    }
}

proof fn lemma_num_token_end_after(s: Seq<char>, i: int)
    requires
        num_token_starts_at(s, i),
    ensures
        i < num_token_end(s, i) <= s.len(),
{
    let ds = if s[i] == '-' {
        i + 1
    } else {
        i
    };
    lemma_digit_end_bounds(s, ds);
    if s[i] != '-' {
        assert(is_digit_char(s[i]));
        assert(digit_end(s, i) == digit_end(s, i + 1));
        lemma_digit_end_bounds(s, i + 1);
    }
    let e = digit_end(s, ds);
    if e < s.len() && s[e] == '.' && e + 1 < s.len() && is_digit_char(s[e + 1]) {
        lemma_digit_end_bounds(s, e + 1);
    }
}

/// The numeric tokens of `s`, left to right, non-overlapping.
pub open spec fn num_tokens_from(s: Seq<char>, i: int) -> Seq<Seq<char>>
    decreases s.len() - i,
    via num_tokens_from_decreases
{
    if i < 0 || i >= s.len() {
        Seq::empty()
    } else if num_token_starts_at(s, i) {
        seq![s.subrange(i, num_token_end(s, i))] + num_tokens_from(s, num_token_end(s, i))
    } else {
        num_tokens_from(s, i + 1)
    }
}

#[via_fn]
proof fn num_tokens_from_decreases(s: Seq<char>, i: int) {
    if num_token_starts_at(s, i) {
        lemma_num_token_end_after(s, i);
    }
}

/// The token is an optional minus sign followed only by digits, with at
/// least one digit.
pub open spec fn is_int_token(t: Seq<char>) -> bool {
    if t.len() >= 1 && t[0] == '-' {
        t.len() >= 2 && forall|k: int| 1 <= k < t.len() ==> is_digit_char(#[trigger] t[k])
    } else {
        t.len() >= 1 && forall|k: int| 0 <= k < t.len() ==> is_digit_char(#[trigger] t[k])
    }
}

/// The signed value a well-formed integer token denotes.
pub open spec fn int_token_val(t: Seq<char>) -> int {
    if t.len() >= 1 && t[0] == '-' {
        -(digits_val(t.skip(1)) as int)
    } else {
        digits_val(t) as int
    }
}

/// The token decodes into one cell: an integer notation whose value fits.
pub open spec fn cell_token_ok(t: Seq<char>) -> bool {
    is_int_token(t) && fits_cell(int_token_val(t))
}

/// Scans forward from `start` to the first bracket character.
fn scan_non_bracket(s: &str, start: usize) -> (j: usize)
    requires
        start <= s@.len(),
    ensures
        j == non_bracket_end(s@, start as int),
        start <= j <= s@.len(),
{
    let n = s.unicode_len();
    let mut j = start;
    while j < n
        invariant
            start <= j <= n,
            n == s@.len(),
            non_bracket_end(s@, start as int) == non_bracket_end(s@, j as int),
        decreases n - j,
    {
        let d = s.get_char(j);
        if d == '[' || d == ']' {
            return j;
        }
        j += 1;
    }
    j
}

/// Collects the bracket-delimited row segments of `s`.
fn extract_row_segments(s: &str) -> (res: Vec<String>)
    ensures
        res.deep_view() == row_segments_from(s@, 0),
{
    let n = s.unicode_len();
    let mut res: Vec<String> = Vec::new();
    let mut i: usize = 0;
    while i < n
        invariant
            n == s@.len(),
            i <= n,
            res.deep_view() + row_segments_from(s@, i as int) == row_segments_from(s@, 0),
        decreases n - i,
    {
        let c = s.get_char(i);
        if c == '[' {
            let j = scan_non_bracket(s, i + 1);
            if j < n {
                let d = s.get_char(j);
                if d == ']' {
                    let ghost prev = res.deep_view();
                    let seg = s.substring_char(i + 1, j).to_owned();
                    res.push(seg);
                    proof {
                        assert(res.deep_view() =~= prev.push(seg@));
                        assert(row_segments_from(s@, i as int) == seq![seg@]
                            + row_segments_from(s@, j + 1));
                        assert(res.deep_view() + row_segments_from(s@, j + 1) =~= prev
                            + row_segments_from(s@, i as int));
                    }
                    i = j + 1;
                } else {
                    i = j;
                }
            } else {
                proof {
                    assert(row_segments_from(s@, i as int) =~= Seq::<Seq<char>>::empty());
                    assert(res.deep_view() + row_segments_from(s@, n as int) =~= res.deep_view()
                        + row_segments_from(s@, i as int));
                }
                i = n;
            }
        } else {
            i += 1;
        }
    }
    proof {
        assert(res.deep_view() + row_segments_from(s@, n as int) =~= res.deep_view());
    }
    res
}

/// Collects the numeric tokens of `s`.
fn extract_num_tokens(s: &str) -> (res: Vec<String>)
    ensures
        res.deep_view() == num_tokens_from(s@, 0),
{
    let n = s.unicode_len();
    let mut res: Vec<String> = Vec::new();
    let mut i: usize = 0;
    while i < n
        invariant
            n == s@.len(),
            i <= n,
            res.deep_view() + num_tokens_from(s@, i as int) == num_tokens_from(s@, 0),
        decreases n - i,
    {
        let c = s.get_char(i);
        let starts = crate::text::is_digit(c) || (c == '-' && i + 1 < n && crate::text::is_digit(
            s.get_char(i + 1),
        ));
        if starts {
            assert(num_token_starts_at(s@, i as int));
            let ds = if c == '-' {
                i + 1
            } else {
                i
            };
            let e = scan_digits(s, ds);
            let frac = e < n && s.get_char(e) == '.' && e + 1 < n && crate::text::is_digit(
                s.get_char(e + 1),
            );
            let end = if frac {
                scan_digits(s, e + 1)
            } else {
                e
            };
            assert(end == num_token_end(s@, i as int));
            proof {
                lemma_num_token_end_after(s@, i as int);
            }
            let ghost prev = res.deep_view();
            let tok = s.substring_char(i, end).to_owned();
            res.push(tok);
            proof {
                assert(res.deep_view() =~= prev.push(tok@));
                assert(num_tokens_from(s@, i as int) == seq![tok@] + num_tokens_from(
                    s@,
                    end as int,
                ));
                assert(res.deep_view() + num_tokens_from(s@, end as int) =~= prev
                    + num_tokens_from(s@, i as int));
            }
            i = end;
        } else {
            assert(!num_token_starts_at(s@, i as int));
            i += 1;
        }
    }
    proof {
        assert(res.deep_view() + num_tokens_from(s@, n as int) =~= res.deep_view());
    }
    res
}

/// Decodes one numeric token into a cell value; fails on a fractional or
/// malformed token and on a value outside the cell range.
fn parse_cell(t: &str) -> (r: Option<i64>)
    ensures
        r is Some <==> cell_token_ok(t@),
        r matches Some(v) ==> v as int == int_token_val(t@),
{
    let n = t.unicode_len();
    if n == 0 {
        return None;
    }
    let neg = t.get_char(0) == '-';
    let start: usize = if neg {
        1
    } else {
        0
    };
    if n <= start {
        return None;
    }
    let mut acc: u64 = 0;
    let mut over: bool = false;
    let mut k: usize = start;
    while k < n
        invariant
            n == t@.len(),
            start <= k <= n,
            start == 1 <==> t@[0] == '-',
            start <= 1 < n || start == 0,
            neg <==> t@[0] == '-',
            forall|q: int| start <= q < k ==> is_digit_char(#[trigger] t@[q]),
            !over ==> acc as nat == digits_val(t@.subrange(start as int, k as int)),
            over ==> digits_val(t@.subrange(start as int, k as int)) > u64::MAX,
        decreases n - k,
    {
        let c = t.get_char(k);
        if !crate::text::is_digit(c) {
            proof {
                assert(!is_int_token(t@));
            }
            return None;
        }
        let d: u64 = ((c as u32) - 48) as u64;
        proof {
            assert(t@.subrange(start as int, k + 1).drop_last() =~= t@.subrange(
                start as int,
                k as int,
            ));
            assert(t@.subrange(start as int, k + 1).last() == t@[k as int]);
            assert(d as nat == digit_val(t@[k as int]));
        }
        if over {
        } else {
            match acc.checked_mul(10) {
                None => over = true,
                Some(a1) => match a1.checked_add(d) {
                    None => over = true,
                    Some(a2) => acc = a2,
                },
            }
        }
        k += 1;
    }
    proof {
        assert(is_int_token(t@));
        if neg {
            assert(t@.subrange(start as int, n as int) =~= t@.skip(1));
        } else {
            assert(t@.subrange(start as int, n as int) =~= t@);
        }
    }
    if over {
        return None;
    }
    if neg {
        if acc > 9223372036854775808u64 {
            return None;
        }
        let v: i64 = (-(acc as i128)) as i64;
        Some(v)
    } else {
        if acc > 9223372036854775807u64 {
            return None;
        }
        Some(acc as i64)
    }
}

/// Every numeric token of every row segment decodes into a cell.
pub open spec fn literal_ok(s: Seq<char>) -> bool {
    forall|i: int, k: int|
        0 <= i < row_segments_from(s, 0).len() && 0 <= k < num_tokens_from(
            row_segments_from(s, 0)[i],
            0,
        ).len() ==> cell_token_ok(#[trigger] num_tokens_from(row_segments_from(s, 0)[i], 0)[k])
}

/// Every row segment holds as many numeric tokens as the first one.
pub open spec fn literal_rect(s: Seq<char>) -> bool {
    forall|i: int|
        0 <= i < row_segments_from(s, 0).len() ==> num_tokens_from(
            #[trigger] row_segments_from(s, 0)[i],
            0,
        ).len() == num_tokens_from(row_segments_from(s, 0)[0], 0).len()
}

/// Decodes a bracketed matrix literal such as `[[1,2][3,4]]` into its rows
/// of cell values. Fails on a token that is no integer or does not fit in a
/// cell, and on rows of unequal length.
pub fn parse_matrix_data(input: &str) -> (r: Result<Vec<Vec<i64>>, DecodeError>)
    ensures
        r is Ok <==> literal_ok(input@) && literal_rect(input@),
        r matches Ok(d) ==> {
            &&& d@.len() == row_segments_from(input@, 0).len()
            &&& forall|i: int|
                0 <= i < d@.len() ==> #[trigger] d@[i]@.len() == num_tokens_from(
                    row_segments_from(input@, 0)[i],
                    0,
                ).len()
            &&& forall|i: int, k: int|
                0 <= i < d@.len() && 0 <= k < d@[i]@.len() ==> #[trigger] d@[i]@[k] as int
                    == int_token_val(num_tokens_from(row_segments_from(input@, 0)[i], 0)[k])
        },
        r == Err::<Vec<Vec<i64>>, DecodeError>(DecodeError::InvalidNumber) <==> !literal_ok(
            input@,
        ),
        r == Err::<Vec<Vec<i64>>, DecodeError>(DecodeError::InconsistentRowLengths) <==> literal_ok(
            input@,
        ) && !literal_rect(input@),
{
    let ghost rs = row_segments_from(input@, 0);
    let segs = extract_row_segments(input);
    let mut data: Vec<Vec<i64>> = Vec::new();
    let mut i: usize = 0;
    while i < segs.len()
        invariant
            segs.deep_view() == rs,
            rs == row_segments_from(input@, 0),
            i <= segs@.len(),
            data@.len() == i,
            forall|ii: int|
                0 <= ii < i ==> #[trigger] data@[ii]@.len() == num_tokens_from(rs[ii], 0).len(),
            forall|ii: int, k: int|
                0 <= ii < i && 0 <= k < data@[ii]@.len() ==> #[trigger] data@[ii]@[k] as int
                    == int_token_val(num_tokens_from(rs[ii], 0)[k]),
            forall|ii: int, k: int|
                0 <= ii < i && 0 <= k < num_tokens_from(rs[ii], 0).len() ==> cell_token_ok(
                    #[trigger] num_tokens_from(rs[ii], 0)[k],
                ),
        decreases segs@.len() - i,
    {
        let seg = &segs[i];
        assert(seg@ == rs[i as int]);
        let toks = extract_num_tokens(seg.as_str());
        let ghost ts = num_tokens_from(rs[i as int], 0);
        let mut row: Vec<i64> = Vec::new();
        let mut k: usize = 0;
        while k < toks.len()
            invariant
                toks.deep_view() == ts,
                0 <= i < rs.len(),
                rs == row_segments_from(input@, 0),
                ts == num_tokens_from(rs[i as int], 0),
                k <= toks@.len(),
                row@.len() == k,
                forall|q: int|
                    0 <= q < k ==> #[trigger] row@[q] as int == int_token_val(ts[q]),
                forall|q: int| 0 <= q < k ==> cell_token_ok(#[trigger] ts[q]),
            decreases toks@.len() - k,
        {
            let tok = &toks[k];
            assert(tok@ == ts[k as int]);
            match parse_cell(tok.as_str()) {
                Some(v) => row.push(v),
                None => {
                    proof {
                        assert(!cell_token_ok(
                            num_tokens_from(row_segments_from(input@, 0)[i as int], 0)[k as int],
                        ));
                        assert(!literal_ok(input@));
                    }
                    return Err(DecodeError::InvalidNumber);
                },
            }
            k += 1;
        }
        data.push(row);
        i += 1;
    }
    proof {
        assert(literal_ok(input@));
    }
    if data.len() > 0 {
        let first_len = data[0].len();
        let mut q: usize = 1;
        while q < data.len()
            invariant
                data@.len() == rs.len(),
                rs == row_segments_from(input@, 0),
                literal_ok(input@),
                data@.len() > 0,
                1 <= q <= data@.len(),
                first_len == data@[0]@.len(),
                forall|ii: int|
                    0 <= ii < data@.len() ==> #[trigger] data@[ii]@.len() == num_tokens_from(
                        rs[ii],
                        0,
                    ).len(),
                forall|ii: int| 0 <= ii < q && ii < data@.len() ==> data@[ii]@.len() == first_len,
            decreases data@.len() - q,
        {
            if data[q].len() != first_len {
                proof {
                    assert(num_tokens_from(row_segments_from(input@, 0)[q as int], 0).len()
                        != num_tokens_from(row_segments_from(input@, 0)[0], 0).len());
                    assert(!literal_rect(input@));
                }
                return Err(DecodeError::InconsistentRowLengths);
            }
            q += 1;
        }
        proof {
            assert forall|ii: int| 0 <= ii < rs.len() implies num_tokens_from(
                #[trigger] rs[ii],
                0,
            ).len() == num_tokens_from(rs[0], 0).len() by {
                assert(data@[ii]@.len() == num_tokens_from(rs[ii], 0).len());
                assert(data@[ii]@.len() == first_len);
                assert(data@[0]@.len() == num_tokens_from(rs[0], 0).len());
            }
            assert(literal_rect(input@));
        }
    } else {
        proof {
            assert(literal_rect(input@));
        }
    }
    Ok(data)
}

/// A run free of brackets followed by a bracket or the end pins down
/// `non_bracket_end`.
proof fn lemma_nbe_scan(s: Seq<char>, i: int, j: int)
    requires
        0 <= i <= j <= s.len(),
        forall|k: int| i <= k < j ==> #[trigger] s[k] != '[' && s[k] != ']',
        j == s.len() || s[j] == '[' || s[j] == ']',
    ensures
        non_bracket_end(s, i) == j,
    decreases j - i,
{
    if i < j {
        lemma_nbe_scan(s, i + 1, j);
    }
}

/// A run of digits followed by a non-digit or the end pins down `digit_end`.
proof fn lemma_de_scan(s: Seq<char>, i: int, j: int)
    requires
        0 <= i <= j <= s.len(),
        forall|k: int| i <= k < j ==> is_digit_char(#[trigger] s[k]),
        j == s.len() || !is_digit_char(s[j]),
    ensures
        digit_end(s, i) == j,
    decreases j - i,
{
    if i < j {
        lemma_de_scan(s, i + 1, j);
    }
}

/// Scanning for a bracket is insensitive to a fixed prefix.
proof fn lemma_nbe_shift(p: Seq<char>, s: Seq<char>, k: int)
    requires
        0 <= k <= s.len(),
    ensures
        non_bracket_end(p + s, p.len() + k) == p.len() + non_bracket_end(s, k),
    decreases s.len() - k,
{
    assert((p + s).len() == p.len() + s.len());
    if k < s.len() {
        assert((p + s)[p.len() + k] == s[k]);
        if !(s[k] == '[' || s[k] == ']') {
            lemma_nbe_shift(p, s, k + 1);
        }
    }
}

/// Scanning for a digit run is insensitive to a fixed prefix.
proof fn lemma_de_shift(p: Seq<char>, s: Seq<char>, k: int)
    requires
        0 <= k <= s.len(),
    ensures
        digit_end(p + s, p.len() + k) == p.len() + digit_end(s, k),
    decreases s.len() - k,
{
    assert((p + s).len() == p.len() + s.len());
    if k < s.len() {
        assert((p + s)[p.len() + k] == s[k]);
        if is_digit_char(s[k]) {
            lemma_de_shift(p, s, k + 1);
        }
    }
}

/// Row-segment extraction is insensitive to a fixed prefix.
proof fn lemma_rsf_shift(p: Seq<char>, s: Seq<char>, k: int)
    requires
        0 <= k <= s.len(),
    ensures
        row_segments_from(p + s, p.len() + k) == row_segments_from(s, k),
    decreases s.len() - k,
{
    let w = p + s;
    assert(w.len() == p.len() + s.len());
    if k < s.len() {
        assert(w[p.len() + k] == s[k]);
        if s[k] == '[' {
            lemma_nbe_shift(p, s, k + 1);
            lemma_non_bracket_end_bounds(s, k + 1);
            let e = non_bracket_end(s, k + 1);
            assert(non_bracket_end(w, p.len() + k + 1) == p.len() + e);
            if e < s.len() {
                assert(w[p.len() + e] == s[e]);
                if s[e] == ']' {
                    assert(w.subrange(p.len() + k + 1, p.len() + e) =~= s.subrange(k + 1, e));
                    lemma_rsf_shift(p, s, e + 1);
                    assert(row_segments_from(w, p.len() + k) =~= row_segments_from(s, k));
                } else {
                    lemma_rsf_shift(p, s, e);
                }
            }
        } else {
            lemma_rsf_shift(p, s, k + 1);
        }
    }
}

/// Numeric-token extraction is insensitive to a fixed prefix.
proof fn lemma_ntf_shift(p: Seq<char>, s: Seq<char>, k: int)
    requires
        0 <= k <= s.len(),
    ensures
        num_tokens_from(p + s, p.len() + k) == num_tokens_from(s, k),
    decreases s.len() - k,
{
    let w = p + s;
    assert(w.len() == p.len() + s.len());
    if k < s.len() {
        assert(w[p.len() + k] == s[k]);
        if k + 1 < s.len() {
            assert(w[p.len() + k + 1] == s[k + 1]);
        }
        assert(num_token_starts_at(w, p.len() + k) == num_token_starts_at(s, k));
        if num_token_starts_at(s, k) {
            let ds = if s[k] == '-' {
                k + 1
            } else {
                k
            };
            lemma_de_shift(p, s, ds);
            lemma_digit_end_bounds(s, ds);
            let e = digit_end(s, ds);
            if e < s.len() {
                assert(w[p.len() + e] == s[e]);
            }
            if e + 1 < s.len() {
                assert(w[p.len() + e + 1] == s[e + 1]);
            }
            if e < s.len() && s[e] == '.' && e + 1 < s.len() && is_digit_char(s[e + 1]) {
                lemma_de_shift(p, s, e + 1);
            }
            let t = num_token_end(s, k);
            lemma_num_token_end_after(s, k);
            assert(num_token_end(w, p.len() + k) == p.len() + t);
            assert(w.subrange(p.len() + k, p.len() + t) =~= s.subrange(k, t));
            lemma_ntf_shift(p, s, t);
            assert(num_tokens_from(w, p.len() + k) =~= num_tokens_from(s, k));
        } else {
            lemma_ntf_shift(p, s, k + 1);
        }
    }
}

/// One row of cell values as literal text: the decimal notations joined
/// with commas.
pub open spec fn row_literal(r: Seq<int>) -> Seq<char>
    decreases r.len(),
{
    if r.len() == 0 {
        Seq::empty()
    } else if r.len() == 1 {
        dec_int(r[0])
    } else {
        dec_int(r[0]) + seq![','] + row_literal(r.drop_first())
    }
}

/// A whole matrix as literal text: each row's values between brackets, the
/// bracketed rows side by side.
pub open spec fn matrix_literal(d: Seq<Seq<int>>) -> Seq<char>
    decreases d.len(),
{
    if d.len() == 0 {
        Seq::empty()
    } else {
        seq!['['] + row_literal(d[0]) + seq![']'] + matrix_literal(d.drop_first())
    }
}

/// Characters of a rendered row: digits, minus signs and commas alone.
proof fn lemma_row_literal_chars(r: Seq<int>)
    ensures
        forall|k: int|
            0 <= k < row_literal(r).len() ==> is_digit_char(#[trigger] row_literal(r)[k])
                || row_literal(r)[k] == '-' || row_literal(r)[k] == ',',
    decreases r.len(),
{
    if r.len() > 0 {
        let t0 = dec_int(r[0]);
        if r[0] < 0 {
            crate::text::lemma_dec_nat_props((-r[0]) as nat);
        } else {
            crate::text::lemma_dec_nat_props(r[0] as nat);
        }
        assert forall|k: int| 0 <= k < t0.len() implies is_digit_char(#[trigger] t0[k]) || t0[k]
            == '-' by {
            if r[0] < 0 && k > 0 {
                assert(t0[k] == crate::text::dec_nat((-r[0]) as nat)[k - 1]);
            }
        }
        if r.len() > 1 {
            lemma_row_literal_chars(r.drop_first());
            let s = row_literal(r);
            let rest = row_literal(r.drop_first());
            assert forall|k: int| 0 <= k < s.len() implies is_digit_char(#[trigger] s[k]) || s[k]
                == '-' || s[k] == ',' by {
                if k < t0.len() {
                    assert(s[k] == t0[k]);
                } else if k == t0.len() {
                    assert(s[k] == ',');
                } else {
                    assert(s[k] == rest[k - t0.len() - 1]);
                }
            }
        }
    }
}

/// The decimal notation of a cell value is a well-formed integer token and
/// reads back to the value it was made from.
proof fn lemma_dec_int_token(v: int)
    ensures
        is_int_token(dec_int(v)),
        int_token_val(dec_int(v)) == v,
        dec_int(v).len() >= 1,
        is_digit_char(dec_int(v)[0]) || (dec_int(v)[0] == '-' && dec_int(v).len() >= 2
            && is_digit_char(dec_int(v)[1])),
{
    if v < 0 {
        crate::text::lemma_dec_nat_props((-v) as nat);
        let w = crate::text::dec_nat((-v) as nat);
        assert(dec_int(v) == seq!['-'] + w);
        assert((seq!['-'] + w)[0] == '-');
        assert forall|k: int| 1 <= k < (seq!['-'] + w).len() implies is_digit_char(
            #[trigger] (seq!['-'] + w)[k],
        ) by {
            assert((seq!['-'] + w)[k] == w[k - 1]);
        }
        assert((seq!['-'] + w).skip(1) =~= w);
        assert(!is_digit_char('-'));
    } else {
        crate::text::lemma_dec_nat_props(v as nat);
        assert(!is_digit_char('-')) by {
            assert('-' as int == 45);
        }
        assert(dec_int(v)[0] != '-');
    }
}

/// The numeric tokens of a rendered row are exactly the rendered cells.
proof fn lemma_tokens_of_row_literal(r: Seq<int>)
    ensures
        num_tokens_from(row_literal(r), 0) == Seq::new(r.len(), |i: int| dec_int(r[i])),
    decreases r.len(),
{
    let s = row_literal(r);
    if r.len() == 0 {
        assert(num_tokens_from(s, 0) =~= Seq::new(0, |i: int| dec_int(r[i])));
    } else {
        let t0 = dec_int(r[0]);
        lemma_dec_int_token(r[0]);
        if r[0] < 0 {
            crate::text::lemma_dec_nat_props((-r[0]) as nat);
        } else {
            crate::text::lemma_dec_nat_props(r[0] as nat);
        }
        if r.len() == 1 {
            assert(s == t0);
        } else {
            assert(s == t0 + seq![','] + row_literal(r.drop_first()));
            assert forall|k: int| 0 <= k < t0.len() implies s[k] == t0[k] by {}
        }
        assert(num_token_starts_at(s, 0));
        let ds: int = if t0[0] == '-' {
            1
        } else {
            0
        };
        assert forall|k: int| ds <= k < t0.len() implies is_digit_char(#[trigger] s[k]) by {
            if r[0] < 0 {
                assert(t0[k] == crate::text::dec_nat((-r[0]) as nat)[k - 1]);
            }
        }
        if r.len() == 1 {
            lemma_de_scan(s, ds, t0.len() as int);
            assert(num_token_end(s, 0) == t0.len() as int);
            assert(s.subrange(0, t0.len() as int) =~= t0);
            assert(num_tokens_from(s, t0.len() as int) =~= Seq::<Seq<char>>::empty());
            assert(num_tokens_from(s, 0) =~= Seq::new(r.len(), |i: int| dec_int(r[i])));
        } else {
            assert(s[t0.len() as int] == ',');
            assert(!is_digit_char(',')) by {
                assert(',' as int == 44);
            }
            lemma_de_scan(s, ds, t0.len() as int);
            assert(num_token_end(s, 0) == t0.len() as int);
            assert(s.subrange(0, t0.len() as int) =~= t0);
            assert(num_tokens_from(s, 0) == seq![t0] + num_tokens_from(s, t0.len() as int));
            assert(!num_token_starts_at(s, t0.len() as int));
            assert(num_tokens_from(s, t0.len() as int) == num_tokens_from(s, t0.len() + 1 as int));
            let p = t0 + seq![','];
            let rest = row_literal(r.drop_first());
            assert(s =~= p + rest);
            lemma_ntf_shift(p, rest, 0);
            assert(num_tokens_from(s, t0.len() + 1 as int) == num_tokens_from(rest, 0));
            lemma_tokens_of_row_literal(r.drop_first());
            assert forall|i: int| 0 <= i < r.len() implies (seq![t0] + Seq::new(
                r.drop_first().len(),
                |i: int| dec_int(r.drop_first()[i]),
            ))[i] == dec_int(r[i]) by {
                if i > 0 {
                    assert(r.drop_first()[i - 1] == r[i]);
                }
            }
            assert(num_tokens_from(s, 0) =~= Seq::new(r.len(), |i: int| dec_int(r[i])));
        }
    }
}

/// The row segments of a rendered matrix are exactly the rendered rows.
proof fn lemma_segments_of_matrix_literal(d: Seq<Seq<int>>)
    ensures
        row_segments_from(matrix_literal(d), 0) == Seq::new(d.len(), |i: int| row_literal(d[i])),
    decreases d.len(),
{
    let s = matrix_literal(d);
    if d.len() == 0 {
        assert(row_segments_from(s, 0) =~= Seq::new(0, |i: int| row_literal(d[i])));
    } else {
        let t = row_literal(d[0]);
        let rest = matrix_literal(d.drop_first());
        assert(s == seq!['['] + t + seq![']'] + rest);
        lemma_row_literal_chars(d[0]);
        assert(s[0] == '[');
        assert forall|k: int| 1 <= k < 1 + t.len() implies #[trigger] s[k] != '[' && s[k]
            != ']' by {
            assert(s[k] == t[k - 1]);
            assert('[' as int == 91 && ']' as int == 93 && '-' as int == 45 && ',' as int == 44);
        }
        assert(s[1 + t.len() as int] == ']');
        lemma_nbe_scan(s, 1, 1 + t.len() as int);
        assert(non_bracket_end(s, 1) == 1 + t.len() as int);
        assert(s.subrange(1, 1 + t.len() as int) =~= t);
        assert(row_segments_from(s, 0) == seq![t] + row_segments_from(s, t.len() + 2 as int));
        let p = seq!['['] + t + seq![']'];
        assert(s =~= p + rest);
        lemma_rsf_shift(p, rest, 0);
        assert(row_segments_from(s, t.len() + 2 as int) == row_segments_from(rest, 0));
        lemma_segments_of_matrix_literal(d.drop_first());
        assert forall|i: int| 0 <= i < d.len() implies (seq![t] + Seq::new(
            d.drop_first().len(),
            |i: int| row_literal(d.drop_first()[i]),
        ))[i] == row_literal(d[i]) by {
            if i > 0 {
                assert(d.drop_first()[i - 1] == d[i]);
            }
        }
        assert(row_segments_from(s, 0) =~= Seq::new(d.len(), |i: int| row_literal(d[i])));
    }
}

/// Decoding is a left inverse of row-major literal rendering: for any
/// rectangular matrix of cell values, the rendered literal decodes without
/// failure and yields exactly those values, row for row and cell for cell.
pub proof fn lemma_decode_renders_back(d: Seq<Seq<int>>)
    requires
        forall|i: int| 0 <= i < d.len() ==> (#[trigger] d[i]).len() == d[0].len(),
        forall|i: int, j: int|
            0 <= i < d.len() && 0 <= j < d[i].len() ==> fits_cell(#[trigger] d[i][j]),
    ensures
        literal_ok(matrix_literal(d)),
        literal_rect(matrix_literal(d)),
        row_segments_from(matrix_literal(d), 0).len() == d.len(),
        forall|i: int|
            0 <= i < d.len() ==> num_tokens_from(
                #[trigger] row_segments_from(matrix_literal(d), 0)[i],
                0,
            ).len() == d[i].len(),
        forall|i: int, k: int|
            0 <= i < d.len() && 0 <= k < d[i].len() ==> int_token_val(
                #[trigger] num_tokens_from(row_segments_from(matrix_literal(d), 0)[i], 0)[k],
            ) == d[i][k],
{
    let s = matrix_literal(d);
    lemma_segments_of_matrix_literal(d);
    let rs = row_segments_from(s, 0);
    assert forall|i: int| 0 <= i < d.len() implies num_tokens_from(#[trigger] rs[i], 0)
        == Seq::new(d[i].len(), |k: int| dec_int(d[i][k])) by {
        assert(rs[i] == row_literal(d[i]));
        lemma_tokens_of_row_literal(d[i]);
    }
    assert forall|i: int, k: int| 0 <= i < rs.len() && 0 <= k < num_tokens_from(
        rs[i],
        0,
    ).len() implies cell_token_ok(#[trigger] num_tokens_from(rs[i], 0)[k]) by {
        assert(num_tokens_from(rs[i], 0)[k] == dec_int(d[i][k]));
        lemma_dec_int_token(d[i][k]);
    }
    assert forall|i: int, k: int| 0 <= i < d.len() && 0 <= k < d[i].len() implies int_token_val(
        #[trigger] num_tokens_from(rs[i], 0)[k],
    ) == d[i][k] by {
        assert(num_tokens_from(rs[i], 0)[k] == dec_int(d[i][k]));
        lemma_dec_int_token(d[i][k]);
    }
}

/// Adding a matrix and then subtracting it restores every cell: for
/// same-shaped `a` and `b`, `mat_sub(mat_add(a, b), b) == a`.
pub proof fn lemma_add_then_sub(a: Seq<Seq<int>>, b: Seq<Seq<int>>)
    requires
        a.len() == b.len(),
        forall|i: int| 0 <= i < a.len() ==> (#[trigger] a[i]).len() == b[i].len(),
    ensures
        mat_sub(mat_add(a, b), b) == a,
{
    assert forall|i: int| 0 <= i < a.len() implies mat_sub(mat_add(a, b), b)[i] =~= a[i] by {}
    assert(mat_sub(mat_add(a, b), b) =~~= a);
}

proof fn lemma_dot_zero(r: Seq<int>, b: Seq<Seq<int>>, k: int, j: int)
    requires
        forall|t: int| 0 <= t < k ==> #[trigger] b[t][j] == 0,
    ensures
        dot(r, b, k, j) == 0,
    decreases k,
{
    if k > 0 {
        lemma_dot_zero(r, b, k - 1, j);
    }
}

/// Multiplying by an all-zero right factor yields an all-zero product.
pub proof fn lemma_mul_zero(a: Seq<Seq<int>>, b: Seq<Seq<int>>, k: int, n: nat)
    requires
        forall|t: int, j: int| 0 <= t < k && 0 <= j < n ==> #[trigger] b[t][j] == 0,
    ensures
        forall|i: int, j: int|
            0 <= i < a.len() && 0 <= j < n ==> #[trigger] mat_mul(a, b, k, n)[i][j] == 0,
{
    assert forall|i: int, j: int|
        0 <= i < a.len() && 0 <= j < n implies #[trigger] mat_mul(a, b, k, n)[i][j] == 0 by {
        lemma_dot_zero(a[i], b, k, j);
    }
}

/// Transposing twice restores the matrix: for an `r` by `c` matrix `a`,
/// `mat_transpose(mat_transpose(a, r, c), c, r) == a`.
pub proof fn lemma_transpose_involutive(a: Seq<Seq<int>>, r: nat, c: nat)
    requires
        mat_shape(a, r as int, c as int),
    ensures
        mat_transpose(mat_transpose(a, r, c), c, r) == a,
{
    assert forall|i: int| 0 <= i < r implies mat_transpose(mat_transpose(a, r, c), c, r)[i]
        =~= a[i] by {}
    assert(mat_transpose(mat_transpose(a, r, c), c, r) =~~= a);
}

} // verus!
