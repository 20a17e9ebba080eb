use vstd::prelude::*;

verus! {

/// The shape of a dense matrix: a number of rows and a number of columns.
/// Entries are laid out row by row.
#[derive(Clone, Copy, Debug, PartialEq, Eq, Structural)]
pub struct Dimension {
    pub rows: usize,
    pub columns: usize,
}

impl Dimension {
    /// Number of entries a matrix of this shape holds.
    pub open spec fn size(self) -> int {
        self.rows * self.columns
    }

    /// Row-major flat position of the entry at `(row, column)`.
    pub open spec fn index_of(self, row: int, column: int) -> int {
        row * self.columns + column
    }

    pub fn new(rows: usize, columns: usize) -> (r: Dimension)
        ensures
            r.rows == rows,
            r.columns == columns,
    {
        Dimension { rows, columns }
    }

    /// The flat indices `0 .. rows * columns`.
    pub fn iter(self) -> (r: std::ops::Range<usize>)
        requires
            self.size() <= usize::MAX,
        ensures
            r.start == 0,
            r.end == self.size(),
    {
        0..(self.rows * self.columns)
    }

    /// The `(row, column)` of a flat index.
    pub fn to_xy(self, index: usize) -> (r: (usize, usize))
        requires
            index < self.size(),
        ensures
            r.0 == index as int / self.columns as int,
            r.1 == index as int % self.columns as int,
            r.0 < self.rows,
            r.1 < self.columns,
            self.index_of(r.0 as int, r.1 as int) == index,
    {
        let row = index / self.columns;
        let column = index % self.columns;
        proof {
            lemma_xy_in_range(self, index as int);
        }
        (row, column)
    }

    /// The flat index of the entry at `(x, y)`.
    pub fn to_index(self, x: usize, y: usize) -> (r: usize)
        requires
            self.index_of(x as int, y as int) <= usize::MAX,
        ensures
            r == self.index_of(x as int, y as int),
    {
        proof {
            assert(0 <= x * self.columns) by (nonlinear_arith);
        }
        x * self.columns + y
    }
}

pub proof fn lemma_xy_in_range(d: Dimension, i: int)
    requires
        0 <= i < d.size(),
    ensures
        d.columns > 0,
        0 <= i / (d.columns as int) < d.rows,
        0 <= i % (d.columns as int) < d.columns,
        d.index_of(i / d.columns as int, i % d.columns as int) == i,
{
    let c = d.columns as int;
    let q = i / c;
    let m = i % c;
    if c == 0 {
        assert(d.rows * 0 == 0) by (nonlinear_arith);
    }
    vstd::arithmetic::div_mod::lemma_fundamental_div_mod(i, c);
    vstd::arithmetic::div_mod::lemma_div_pos_is_pos(i, c);
    vstd::arithmetic::div_mod::lemma_mod_bound(i, c);
    assert(q * c == c * q) by (nonlinear_arith);
    assert(q < d.rows) by (nonlinear_arith)
        requires
            i == q * c + m,
            0 <= m,
            i < d.rows * c,
            c > 0,
    ;
}

/// An in-range `(row, column)` pair has an in-range flat index.
pub proof fn lemma_index_in_range(d: Dimension, row: int, column: int)
    requires
        0 <= row < d.rows,
        0 <= column < d.columns,
    ensures
        0 <= d.index_of(row, column) < d.size(),
{
    let c = d.columns as int;
    assert(0 <= row * c) by (nonlinear_arith)
        requires
            0 <= row,
            0 <= c,
    ;
    assert(row * c + column < d.rows * c) by (nonlinear_arith)
        requires
            0 <= row < d.rows,
            0 <= column < c,
    ;
}

/// For every shape and every flat index inside it, turning the index into
/// a `(row, column)` pair and back gives the index again.
pub proof fn lemma_index_round_trip(d: Dimension, i: int)
    requires
        0 <= i < d.size(),
    ensures
        d.index_of(i / d.columns as int, i % d.columns as int) == i,
{
    lemma_xy_in_range(d, i);
}

} // verus!
