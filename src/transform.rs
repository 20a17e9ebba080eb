use vstd::prelude::*;

use crate::dimension::Dimension;
use crate::matrix::{dot, sum, Matrix};
use crate::scalar::{Scalar, Zero};

verus! {

/// The 4x4 identity, as a function of the position.
pub open spec fn identity_model() -> spec_fn(int, int) -> int {
    |i: int, j: int| if i == j { 1int } else { 0int }
}

/// The 4x4 zero matrix, as a function of the position.
pub open spec fn zero_model() -> spec_fn(int, int) -> int {
    |i: int, j: int| 0int
}

/// The identity with the first three diagonal entries replaced by the factors.
pub open spec fn scale_model(s1: int, s2: int, s3: int) -> spec_fn(int, int) -> int {
    |i: int, j: int|
        if i == j && i == 0 {
            s1
        } else if i == j && i == 1 {
            s2
        } else if i == j && i == 2 {
            s3
        } else {
            identity_model()(i, j)
        }
}

/// The identity with column 3 of rows 0, 1 and 2 set to the offsets.
pub open spec fn translate_model(t1: int, t2: int, t3: int) -> spec_fn(int, int) -> int {
    |i: int, j: int|
        if j == 3 && i == 0 {
            t1
        } else if j == 3 && i == 1 {
            t2
        } else if j == 3 && i == 2 {
            t3
        } else {
            identity_model()(i, j)
        }
}

impl<T: Scalar> Matrix<T> {
    /// `self` is a well-formed `rows` x `columns` matrix whose entry at each
    /// position is `model` there.
    pub open spec fn matches_model(&self, rows: nat, columns: nat, model: spec_fn(int, int) -> int) -> bool {
        &&& self.wf()
        &&& self.dimension.rows == rows
        &&& self.dimension.columns == columns
        &&& forall|i: int, j: int| 0 <= i < rows && 0 <= j < columns ==> #[trigger] self.cell(i, j) == model(i, j)
    }
}

impl<T: Zero> Matrix<T> {
    pub fn zero4() -> (r: Matrix<T>)
        ensures
            r.matches_model(4, 4, zero_model()),
    {
        let z = T::zero();
        let data = vec![z, z, z, z, z, z, z, z, z, z, z, z, z, z, z, z];
        Matrix { data, dimension: Dimension::new(4, 4) }
    }

    pub fn identity4() -> (r: Matrix<T>)
        ensures
            r.matches_model(4, 4, identity_model()),
    {
        let z = T::zero();
        let o = T::one();
        let data = vec![o, z, z, z, z, o, z, z, z, z, o, z, z, z, z, o];
        Matrix { data, dimension: Dimension::new(4, 4) }
    }

    pub fn scale4(s1: T, s2: T, s3: T) -> (r: Matrix<T>)
        ensures
            r.matches_model(4, 4, scale_model(s1.value(), s2.value(), s3.value())),
    {
        let mut res = Matrix::identity4();
        let ghost id = res;
        let i0 = res.dimension.to_index(0, 0);
        res.data.set(i0, s1);
        let i1 = res.dimension.to_index(1, 1);
        res.data.set(i1, s2);
        let i2 = res.dimension.to_index(2, 2);
        res.data.set(i2, s3);
        proof {
            lemma_set_positions(id, res);
            assert forall|i: int, j: int| 0 <= i < 4 && 0 <= j < 4 implies #[trigger] res.cell(i, j) == scale_model(s1.value(), s2.value(), s3.value())(
                i,
                j,
            ) by {
                let k = i * 4 + j;
                assert(res.cell(i, j) == res.data@[k].value());
                assert(id.cell(i, j) == id.data@[k].value());
                if k != 0 && k != 5 && k != 10 {
                    assert(res.data@[k] == id.data@[k]);
                }
            }
        }
        res
    }

    /// Uniform scaling by `s` on all three axes.
    pub fn sscale4(s: T) -> (r: Matrix<T>)
        ensures
            r.matches_model(4, 4, scale_model(s.value(), s.value(), s.value())),
    {
        Matrix::scale4(s, s, s)
    }

    pub fn translate4(t1: T, t2: T, t3: T) -> (r: Matrix<T>)
        ensures
            r.matches_model(4, 4, translate_model(t1.value(), t2.value(), t3.value())),
    {
        let mut res = Matrix::identity4();
        let ghost id = res;
        let i0 = res.dimension.to_index(0, 3);
        res.data.set(i0, t1);
        let i1 = res.dimension.to_index(1, 3);
        res.data.set(i1, t2);
        let i2 = res.dimension.to_index(2, 3);
        res.data.set(i2, t3);
        proof {
            lemma_set_positions(id, res);
            assert forall|i: int, j: int| 0 <= i < 4 && 0 <= j < 4 implies #[trigger] res.cell(i, j) == translate_model(t1.value(), t2.value(), t3.value())(
                i,
                j,
            ) by {
                let k = i * 4 + j;
                assert(res.cell(i, j) == res.data@[k].value());
                assert(id.cell(i, j) == id.data@[k].value());
                if k != 3 && k != 7 && k != 11 {
                    assert(res.data@[k] == id.data@[k]);
                }
            }
        }
        res
    }

    /// Translation by `t` along all three axes.
    pub fn ttranslate4(t: T) -> (r: Matrix<T>)
        ensures
            r.matches_model(4, 4, translate_model(t.value(), t.value(), t.value())),
    {
        Matrix::translate4(t, t, t)
    }
}

/// Entries of a 4x4 matrix away from the given flat positions are kept.
proof fn lemma_set_positions<T: Scalar>(before: Matrix<T>, after: Matrix<T>)
    requires
        before.wf(),
        before.dimension == (Dimension { rows: 4, columns: 4 }),
        after.dimension == before.dimension,
        after.data@.len() == before.data@.len(),
    ensures
        after.wf(),
        forall|i: int, j: int| 0 <= i < 4 && 0 <= j < 4 ==> #[trigger] after.cell(i, j)
            == after.data@[i * 4 + j].value(),
        forall|i: int, j: int| 0 <= i < 4 && 0 <= j < 4 ==> #[trigger] before.cell(i, j)
            == before.data@[i * 4 + j].value(),
{
}

/// Left-multiplying by the identity leaves any matrix with four rows, such
/// as a homogeneous point, unchanged.
pub proof fn lemma_identity_preserves<T: Scalar>(id: Matrix<T>, p: Matrix<T>, r: Matrix<T>)
    requires
        id.matches_model(4, 4, identity_model()),
        p.wf(),
        p.dimension.rows == 4,
        r.is_product_of(&id, &p),
    ensures
        r.dimension == p.dimension,
        r.data@ == p.data@,
{
    reveal_with_fuel(sum, 5);
    assert forall|i: int, j: int| 0 <= i < 4 && 0 <= j < p.dimension.columns
        implies #[trigger] r.cell(i, j) == p.cell(i, j) by {
        assert(id.cell(i, 0) == identity_model()(i, 0));
        assert(id.cell(i, 1) == identity_model()(i, 1));
        assert(id.cell(i, 2) == identity_model()(i, 2));
        assert(id.cell(i, 3) == identity_model()(i, 3));
        assert(dot(id.cells(), p.cells(), 4, i, j) == id.cell(i, 0) * p.cell(0, j) + id.cell(i, 1) * p.cell(1, j)
            + id.cell(i, 2) * p.cell(2, j) + id.cell(i, 3) * p.cell(3, j));
    }
    crate::algebra::lemma_same_cells_same_data(r, p);
}

/// Translating by `t` and then by `-t` is the identity, on the model.
pub proof fn lemma_translate_inverse_model(t1: int, t2: int, t3: int, i: int, j: int)
    requires
        0 <= i < 4,
        0 <= j < 4,
    ensures
        dot(translate_model(t1, t2, t3), translate_model(-t1, -t2, -t3), 4, i, j) == identity_model()(i, j),
{
    reveal_with_fuel(sum, 5);
    let a = translate_model(t1, t2, t3);
    let b = translate_model(-t1, -t2, -t3);
    assert(dot(a, b, 4, i, j) == a(i, 0) * b(0, j) + a(i, 1) * b(1, j) + a(i, 2) * b(2, j) + a(i, 3) * b(3, j));
}

/// The product of a translation by `(t1, t2, t3)` and a translation by
/// `(-t1, -t2, -t3)` is the identity.
pub proof fn lemma_translate_inverse<T: Scalar>(
    forward: Matrix<T>,
    backward: Matrix<T>,
    r: Matrix<T>,
    t1: int,
    t2: int,
    t3: int,
)
    requires
        forward.matches_model(4, 4, translate_model(t1, t2, t3)),
        backward.matches_model(4, 4, translate_model(-t1, -t2, -t3)),
        r.is_product_of(&forward, &backward),
    ensures
        r.matches_model(4, 4, identity_model()),
{
    assert forall|i: int, j: int| 0 <= i < 4 && 0 <= j < 4 implies #[trigger] r.cell(i, j) == identity_model()(
        i,
        j,
    ) by {
        reveal_with_fuel(sum, 5);
        assert(forward.cell(i, 0) == translate_model(t1, t2, t3)(i, 0));
        assert(forward.cell(i, 1) == translate_model(t1, t2, t3)(i, 1));
        assert(forward.cell(i, 2) == translate_model(t1, t2, t3)(i, 2));
        assert(forward.cell(i, 3) == translate_model(t1, t2, t3)(i, 3));
        assert(backward.cell(0, j) == translate_model(-t1, -t2, -t3)(0, j));
        assert(backward.cell(1, j) == translate_model(-t1, -t2, -t3)(1, j));
        assert(backward.cell(2, j) == translate_model(-t1, -t2, -t3)(2, j));
        assert(backward.cell(3, j) == translate_model(-t1, -t2, -t3)(3, j));
        lemma_translate_inverse_model(t1, t2, t3, i, j);
    }
}

} // verus!
