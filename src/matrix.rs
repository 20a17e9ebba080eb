use vstd::prelude::*;

use crate::dimension::{lemma_index_in_range, Dimension};
use crate::scalar::{Scalar, Zero};

verus! {

/// Why a matrix operation refused its operands.
#[derive(Clone, Copy, Debug, PartialEq, Eq, Structural)]
pub enum MatrixError {
    /// The operands' shapes do not fit the operation.
    ShapeMismatch,
    /// The data does not fill the declared shape, or is empty.
    InvalidShape,
}

/// A dense matrix: entries stored row by row in `data`.
#[derive(Clone, Debug)]
pub struct Matrix<T> {
    pub data: Vec<T>,
    pub dimension: Dimension,
}

/// Sum of `f(0) + ... + f(n - 1)`.
pub open spec fn sum(f: spec_fn(int) -> int, n: nat) -> int
    decreases n,
{
    if n == 0 {
        0
    } else {
        sum(f, (n - 1) as nat) + f(n - 1)
    }
}

/// Entry `(i, j)` of the product of `a` and `b`, summing over the first
/// `n` terms of row `i` of `a` and column `j` of `b`.
pub open spec fn dot(a: spec_fn(int, int) -> int, b: spec_fn(int, int) -> int, n: nat, i: int, j: int) -> int {
    sum(|k: int| a(i, k) * b(k, j), n)
}

/// The product of `a` and `b` with inner size `n`, as a function of the position.
pub open spec fn product(a: spec_fn(int, int) -> int, b: spec_fn(int, int) -> int, n: nat) -> spec_fn(int, int) -> int {
    |i: int, j: int| dot(a, b, n, i, j)
}

impl<T> Matrix<T> {
    /// The data fills the shape exactly.
    pub open spec fn wf(&self) -> bool {
        self.data@.len() == self.dimension.size()
    }

    pub fn from_data(data: Vec<T>, dimension: Dimension) -> (r: Result<Matrix<T>, MatrixError>)
        ensures
            r is Ok <==> (data@.len() == dimension.size() && data@.len() > 0),
            r is Err ==> r->Err_0 == MatrixError::InvalidShape,
            r matches Ok(m) ==> m.data@ == data@ && m.dimension == dimension && m.wf(),
    {
        let size = dimension.rows.checked_mul(dimension.columns);
        let len = data.len();
        let fills = match size {
            Some(n) => n == len && n > 0,
            None => false,
        };
        if fills {
            Ok(Matrix { dimension, data })
        } else {
            Err(MatrixError::InvalidShape)
        }
    }

    /// Builds a matrix whose entry at flat index `i` is `closure(i)`.
    pub fn from_closure<F: Fn(usize) -> T>(closure: F, dimension: Dimension) -> (r: Matrix<T>)
        requires
            dimension.size() <= usize::MAX,
            forall|i: usize| i < dimension.size() ==> closure.requires((i,)),
        ensures
            r.wf(),
            r.dimension == dimension,
            forall|i: int| 0 <= i < dimension.size() ==> closure.ensures((i as usize,), #[trigger] r.data@[i]),
    {
        let n = dimension.rows * dimension.columns;
        let mut data: Vec<T> = Vec::with_capacity(n);
        let mut index: usize = 0;
        while index < n
            invariant
                n == dimension.size(),
                index <= n,
                data@.len() == index,
                forall|i: usize| i < dimension.size() ==> closure.requires((i,)),
                forall|i: int| 0 <= i < index ==> closure.ensures((i as usize,), #[trigger] data@[i]),
            decreases n - index,
        {
            let v = closure(index);
            data.push(v);
            index += 1;
        }
        Matrix { dimension, data }
    }

    /// Replaces each entry `t` at flat index `i` by `closure(t, i)`.
    pub fn apply_closure<F: Fn(T, usize) -> T>(&mut self, closure: F)
        where
            T: Copy,
        requires
            old(self).wf(),
            forall|i: int| 0 <= i < old(self).data@.len() ==> closure.requires((#[trigger] old(self).data@[i], i as usize)),
        ensures
            final(self).dimension == old(self).dimension,
            final(self).data@.len() == old(self).data@.len(),
            forall|i: int| 0 <= i < old(self).data@.len() ==> closure.ensures((old(self).data@[i], i as usize), #[trigger] final(self).data@[i]),
    {
        let n = self.data.len();
        let mut index: usize = 0;
        while index < n
            invariant
                n == old(self).data@.len(),
                index <= n,
                self.dimension == old(self).dimension,
                self.data@.len() == n,
                forall|i: int| index <= i < n ==> self.data@[i] == old(self).data@[i],
                forall|i: int| 0 <= i < n ==> closure.requires((#[trigger] old(self).data@[i], i as usize)),
                forall|i: int| 0 <= i < index ==> closure.ensures((old(self).data@[i], i as usize), #[trigger] self.data@[i]),
            decreases n - index,
        {
            let v = closure(self.data[index], index);
            self.data.set(index, v);
            index += 1;
        }
    }

    /// Overwrites the entry at each flat index `i` with `closure(i)`.
    pub fn closure_into_buffer<F: Fn(usize) -> T>(&mut self, closure: F)
        requires
            old(self).wf(),
            forall|i: usize| i < old(self).data@.len() ==> closure.requires((i,)),
        ensures
            final(self).dimension == old(self).dimension,
            final(self).data@.len() == old(self).data@.len(),
            forall|i: int| 0 <= i < old(self).data@.len() ==> closure.ensures((i as usize,), #[trigger] final(self).data@[i]),
    {
        let n = self.data.len();
        let mut index: usize = 0;
        while index < n
            invariant
                n == old(self).data@.len(),
                index <= n,
                self.dimension == old(self).dimension,
                self.data@.len() == n,
                forall|i: usize| i < n ==> closure.requires((i,)),
                forall|i: int| 0 <= i < index ==> closure.ensures((i as usize,), #[trigger] self.data@[i]),
            decreases n - index,
        {
            let v = closure(index);
            self.data.set(index, v);
            index += 1;
        }
    }
}

impl<T: Scalar> Matrix<T> {
    /// The integers the entries stand for, in storage order.
    pub open spec fn values(&self) -> Seq<int> {
        self.data@.map_values(|x: T| x.value())
    }

    /// The integer at flat position `index`.
    pub open spec fn entry(&self, index: usize) -> int {
        self.data@[index as int].value()
    }

    /// Entry of the product of `a` and `b` at flat position `index` of shape `d`.
    pub open spec fn product_at(a: &Matrix<T>, b: &Matrix<T>, d: Dimension, index: usize) -> int {
        dot(a.cells(), b.cells(), a.dimension.columns as nat, index as int / d.columns as int,
            index as int % d.columns as int)
    }

    /// The integer at `(row, column)`.
    pub open spec fn cell(&self, row: int, column: int) -> int {
        self.data@[self.dimension.index_of(row, column)].value()
    }

    /// The entries as a function of the position.
    pub open spec fn cells(&self) -> spec_fn(int, int) -> int {
        |row: int, column: int| self.cell(row, column)
    }

    /// Entry-wise `a + b` stays representable.
    pub open spec fn sum_fits(a: &Matrix<T>, b: &Matrix<T>) -> bool {
        forall|i: int| 0 <= i < a.data@.len() ==> T::fits(#[trigger] a.data@[i].value() + b.data@[i].value())
    }

    /// Entry-wise `a - b` stays representable.
    pub open spec fn difference_fits(a: &Matrix<T>, b: &Matrix<T>) -> bool {
        forall|i: int| 0 <= i < a.data@.len() ==> T::fits(#[trigger] a.data@[i].value() - b.data@[i].value())
    }

    /// Entry-wise sum; the shapes must be equal.
    pub fn add(&self, other: &Matrix<T>) -> (r: Result<Matrix<T>, MatrixError>)
        requires
            self.wf(),
            other.wf(),
            self.dimension == other.dimension ==> Self::sum_fits(self, other),
        ensures
            r is Ok <==> self.dimension == other.dimension,
            r is Err ==> r->Err_0 == MatrixError::ShapeMismatch,
            r matches Ok(m) ==> m.wf() && m.dimension == self.dimension
                && m.values() == Seq::new(self.values().len(), |i: int| self.values()[i] + other.values()[i]),
    {
        if self.dimension != other.dimension {
            return Err(MatrixError::ShapeMismatch);
        }
        let n = self.data.len();
        let m = Matrix::from_closure(
            (|index: usize| -> (t: T)
                requires
                    index < n,
                ensures
                    t.value() == self.entry(index) + other.entry(index),
                { self.data[index].plus(other.data[index]) }),
            self.dimension,
        );
        assert(m.values() =~= Seq::new(self.values().len(), |i: int| self.values()[i] + other.values()[i]));
        Ok(m)
    }

    /// Entry-wise difference; the shapes must be equal.
    pub fn sub(&self, other: &Matrix<T>) -> (r: Result<Matrix<T>, MatrixError>)
        requires
            self.wf(),
            other.wf(),
            self.dimension == other.dimension ==> Self::difference_fits(self, other),
        ensures
            r is Ok <==> self.dimension == other.dimension,
            r is Err ==> r->Err_0 == MatrixError::ShapeMismatch,
            r matches Ok(m) ==> m.wf() && m.dimension == self.dimension
                && m.values() == Seq::new(self.values().len(), |i: int| self.values()[i] - other.values()[i]),
    {
        if self.dimension != other.dimension {
            return Err(MatrixError::ShapeMismatch);
        }
        let n = self.data.len();
        let m = Matrix::from_closure(
            (|index: usize| -> (t: T)
                requires
                    index < n,
                ensures
                    t.value() == self.entry(index) - other.entry(index),
                { self.data[index].minus(other.data[index]) }),
            self.dimension,
        );
        assert(m.values() =~= Seq::new(self.values().len(), |i: int| self.values()[i] - other.values()[i]));
        Ok(m)
    }

    /// Adds `s` to every entry.
    pub fn add_scalar(&self, s: T) -> (r: Matrix<T>)
        requires
            self.wf(),
            forall|i: int| 0 <= i < self.data@.len() ==> T::fits(#[trigger] self.data@[i].value() + s.value()),
        ensures
            r.wf(),
            r.dimension == self.dimension,
            r.values() == Seq::new(self.values().len(), |i: int| self.values()[i] + s.value()),
    {
        let n = self.data.len();
        let m = Matrix::from_closure(
            (|index: usize| -> (t: T)
                requires
                    index < n,
                ensures
                    t.value() == self.entry(index) + s.value(),
                { self.data[index].plus(s) }),
            self.dimension,
        );
        assert(m.values() =~= Seq::new(self.values().len(), |i: int| self.values()[i] + s.value()));
        m
    }

    /// Subtracts `s` from every entry.
    pub fn sub_scalar(&self, s: T) -> (r: Matrix<T>)
        requires
            self.wf(),
            forall|i: int| 0 <= i < self.data@.len() ==> T::fits(#[trigger] self.data@[i].value() - s.value()),
        ensures
            r.wf(),
            r.dimension == self.dimension,
            r.values() == Seq::new(self.values().len(), |i: int| self.values()[i] - s.value()),
    {
        let n = self.data.len();
        let m = Matrix::from_closure(
            (|index: usize| -> (t: T)
                requires
                    index < n,
                ensures
                    t.value() == self.entry(index) - s.value(),
                { self.data[index].minus(s) }),
            self.dimension,
        );
        assert(m.values() =~= Seq::new(self.values().len(), |i: int| self.values()[i] - s.value()));
        m
    }

    /// Multiplies every entry by `s`.
    pub fn mul_scalar(&self, s: T) -> (r: Matrix<T>)
        requires
            self.wf(),
            forall|i: int| 0 <= i < self.data@.len() ==> T::fits(#[trigger] self.data@[i].value() * s.value()),
        ensures
            r.wf(),
            r.dimension == self.dimension,
            r.values() == Seq::new(self.values().len(), |i: int| self.values()[i] * s.value()),
    {
        let n = self.data.len();
        let m = Matrix::from_closure(
            (|index: usize| -> (t: T)
                requires
                    index < n,
                ensures
                    t.value() == self.entry(index) * s.value(),
                { self.data[index].times(s) }),
            self.dimension,
        );
        assert(m.values() =~= Seq::new(self.values().len(), |i: int| self.values()[i] * s.value()));
        m
    }

    /// Every product term and every running sum of the product of `a` and
    /// `b`, accumulated left to right, is representable.
    pub open spec fn product_fits(a: &Matrix<T>, b: &Matrix<T>) -> bool {
        forall|i: int, j: int, k: int|
            0 <= i < a.dimension.rows && 0 <= j < b.dimension.columns && 0 <= k < a.dimension.columns
                ==> T::fits(#[trigger] dot(a.cells(), b.cells(), (k + 1) as nat, i, j))
                && T::fits(a.cell(i, k) * b.cell(k, j))
    }

    /// `self` holds the product of `a` and `b`, entry by entry.
    pub open spec fn is_product_of(&self, a: &Matrix<T>, b: &Matrix<T>) -> bool {
        &&& self.wf()
        &&& self.dimension == Dimension { rows: a.dimension.rows, columns: b.dimension.columns }
        &&& forall|i: int, j: int|
            0 <= i < a.dimension.rows && 0 <= j < b.dimension.columns
                ==> #[trigger] self.cell(i, j) == dot(a.cells(), b.cells(), a.dimension.columns as nat, i, j)
    }
}

impl<T: Zero> Matrix<T> {
    /// Entry `(row, column)` of the product of `a` and `b`, accumulated from zero.
    fn product_entry(a: &Matrix<T>, b: &Matrix<T>, row: usize, column: usize) -> (r: T)
        requires
            a.wf(),
            b.wf(),
            a.dimension.columns == b.dimension.rows,
            row < a.dimension.rows,
            column < b.dimension.columns,
            Self::product_fits(a, b),
        ensures
            r.value() == dot(a.cells(), b.cells(), a.dimension.columns as nat, row as int, column as int),
    {
        let n = a.dimension.columns;
        let a_len = a.data.len();
        let b_len = b.data.len();
        let mut acc = T::zero();
        let mut k: usize = 0;
        while k < n
            invariant
                n == a.dimension.columns,
                a.wf(),
                b.wf(),
                a.dimension.columns == b.dimension.rows,
                row < a.dimension.rows,
                column < b.dimension.columns,
                Self::product_fits(a, b),
                k <= n,
                a_len == a.data@.len(),
                b_len == b.data@.len(),
                acc.value() == dot(a.cells(), b.cells(), k as nat, row as int, column as int),
            decreases n - k,
        {
            proof {
                lemma_index_in_range(a.dimension, row as int, k as int);
                lemma_index_in_range(b.dimension, k as int, column as int);
                assert(T::fits(dot(a.cells(), b.cells(), (k + 1) as nat, row as int, column as int)));
            }
            let x = a.data[a.dimension.to_index(row, k)];
            let y = b.data[b.dimension.to_index(k, column)];
            let term = x.times(y);
            acc = acc.plus(term);
            k += 1;
        }
        acc
    }

    /// The product of `self` and `other`, in a new matrix.
    pub fn multiply(&self, other: &Matrix<T>) -> (r: Result<Matrix<T>, MatrixError>)
        requires
            self.wf(),
            other.wf(),
            self.dimension.columns == other.dimension.rows ==> Self::product_fits(self, other),
            self.dimension.rows * other.dimension.columns <= usize::MAX,
        ensures
            r is Ok <==> self.dimension.columns == other.dimension.rows,
            r is Err ==> r->Err_0 == MatrixError::ShapeMismatch,
            r matches Ok(m) ==> m.is_product_of(self, other),
    {
        if self.dimension.columns != other.dimension.rows {
            return Err(MatrixError::ShapeMismatch);
        }
        let output_dimension = Dimension::new(self.dimension.rows, other.dimension.columns);
        let m = Matrix::from_closure(
            (|index: usize| -> (t: T)
                requires
                    index < output_dimension.size(),
                ensures
                    t.value() == Self::product_at(self, other, output_dimension, index),
                {
                    let (row, column) = output_dimension.to_xy(index);
                    Self::product_entry(self, other, row, column)
                }),
            output_dimension,
        );
        proof {
            Self::lemma_filled_is_product(m, self, other);
        }
        Ok(m)
    }

    /// Writes the product of `m1` and `m2` into `self`, which must already
    /// have the product's shape. The output is borrowed mutably and the
    /// operands shared, so it cannot alias either of them. On a shape
    /// mismatch `self` is left as it was.
    pub fn buffered_mul(&mut self, m1: &Matrix<T>, m2: &Matrix<T>) -> (r: Result<(), MatrixError>)
        requires
            old(self).wf(),
            m1.wf(),
            m2.wf(),
            m1.dimension.columns == m2.dimension.rows ==> Self::product_fits(m1, m2),
        ensures
            r is Ok <==> (m1.dimension.columns == m2.dimension.rows
                && old(self).dimension == Dimension { rows: m1.dimension.rows, columns: m2.dimension.columns }),
            r is Err ==> r->Err_0 == MatrixError::ShapeMismatch && *final(self) == *old(self),
            r is Ok ==> final(self).is_product_of(m1, m2),
    {
        if m1.dimension.columns != m2.dimension.rows || self.dimension.rows != m1.dimension.rows
            || self.dimension.columns != m2.dimension.columns {
            return Err(MatrixError::ShapeMismatch);
        }
        let output_dimension = self.dimension;
        self.closure_into_buffer(
            (|index: usize| -> (t: T)
                requires
                    index < output_dimension.size(),
                ensures
                    t.value() == Self::product_at(m1, m2, output_dimension, index),
                {
                    let (row, column) = output_dimension.to_xy(index);
                    Self::product_entry(m1, m2, row, column)
                }),
        );
        let out_len = self.data.len();
        proof {
            assert forall|index: int| 0 <= index < self.data@.len() implies (#[trigger] self.data@[index]).value()
                == dot(m1.cells(), m2.cells(), m1.dimension.columns as nat,
                    index / self.dimension.columns as int, index % self.dimension.columns as int) by {
                assert(index < output_dimension.size());
                assert(index <= out_len);
                assert(Self::product_at(m1, m2, output_dimension, index as usize) == self.data@[index].value());
            }
            Self::lemma_filled_is_product(*self, m1, m2);
        }
        Ok(())
    }

    proof fn lemma_filled_is_product(m: Matrix<T>, a: &Matrix<T>, b: &Matrix<T>)
        requires
            m.wf(),
            m.dimension == (Dimension { rows: a.dimension.rows, columns: b.dimension.columns }),
            forall|index: int| 0 <= index < m.data@.len() ==> (#[trigger] m.data@[index]).value()
                == dot(a.cells(), b.cells(), a.dimension.columns as nat,
                    index / m.dimension.columns as int, index % m.dimension.columns as int),
        ensures
            m.is_product_of(a, b),
    {
        assert forall|i: int, j: int|
            0 <= i < a.dimension.rows && 0 <= j < b.dimension.columns
                implies #[trigger] m.cell(i, j) == dot(a.cells(), b.cells(), a.dimension.columns as nat, i, j) by {
            let d = m.dimension;
            let index = d.index_of(i, j);
            lemma_index_in_range(d, i, j);
            vstd::arithmetic::div_mod::lemma_fundamental_div_mod_converse(index, d.columns as int, i, j);
        }
    }
}

} // verus!
