use vstd::prelude::*;

use crate::matrix::{dot, product, sum, Matrix};
use crate::scalar::Scalar;

verus! {

proof fn lemma_sum_ext(f: spec_fn(int) -> int, g: spec_fn(int) -> int, n: nat)
    requires
        forall|k: int| 0 <= k < n ==> #[trigger] f(k) == g(k),
    ensures
        sum(f, n) == sum(g, n),
    decreases n,
{
    if n > 0 {
        lemma_sum_ext(f, g, (n - 1) as nat);
    }
}

proof fn lemma_sum_scale_right(f: spec_fn(int) -> int, c: int, n: nat)
    ensures
        sum(f, n) * c == sum(|k: int| f(k) * c, n),
    decreases n,
{
    if n > 0 {
        lemma_sum_scale_right(f, c, (n - 1) as nat);
        let s = sum(f, (n - 1) as nat);
        assert((s + f(n - 1)) * c == s * c + f(n - 1) * c) by (nonlinear_arith);
    }
}

proof fn lemma_sum_scale_left(c: int, f: spec_fn(int) -> int, n: nat)
    ensures
        c * sum(f, n) == sum(|k: int| c * f(k), n),
    decreases n,
{
    if n > 0 {
        lemma_sum_scale_left(c, f, (n - 1) as nat);
        let s = sum(f, (n - 1) as nat);
        assert(c * (s + f(n - 1)) == c * s + c * f(n - 1)) by (nonlinear_arith);
    }
}

proof fn lemma_sum_add(f: spec_fn(int) -> int, g: spec_fn(int) -> int, n: nat)
    ensures
        sum(f, n) + sum(g, n) == sum(|k: int| f(k) + g(k), n),
    decreases n,
{
    if n > 0 {
        lemma_sum_add(f, g, (n - 1) as nat);
    }
}

/// Summing a grid of terms row by row or column by column gives the same total.
proof fn lemma_sum_swap(g: spec_fn(int, int) -> int, m: nat, n: nat)
    ensures
        sum(|j: int| sum(|k: int| g(j, k), n), m) == sum(|k: int| sum(|j: int| g(j, k), m), n),
    decreases m,
{
    if m > 0 {
        let m1 = (m - 1) as nat;
        lemma_sum_swap(g, m1, n);
        let col = |k: int| sum(|j: int| g(j, k), m1);
        let last = |k: int| g(m1 as int, k);
        assert(sum(|j: int| sum(|k: int| g(j, k), n), m)
            == sum(|j: int| sum(|k: int| g(j, k), n), m1) + sum(last, n)) by {
            lemma_sum_ext(|k: int| g(m1 as int, k), last, n);
        }
        assert(sum(|k: int| sum(|j: int| g(j, k), m1), n) == sum(col, n)) by {
            lemma_sum_ext(|k: int| sum(|j: int| g(j, k), m1), col, n);
        }
        lemma_sum_add(col, last, n);
        lemma_sum_ext(
            |k: int| col(k) + last(k),
            |k: int| sum(|j: int| g(j, k), m),
            n,
        );
    } else {
        lemma_sum_ext(|k: int| sum(|j: int| g(j, k), m), |k: int| 0, n);
        lemma_sum_zero(n);
    }
}

proof fn lemma_sum_zero(n: nat)
    ensures
        sum(|k: int| 0, n) == 0,
    decreases n,
{
    if n > 0 {
        lemma_sum_zero((n - 1) as nat);
    }
}

/// Grouping of a triple product does not change it, on the model: entry
/// `(i, l)` of `(a b) c` equals entry `(i, l)` of `a (b c)`, where `a b`
/// has inner size `n` and `b c` has inner size `m`.
pub proof fn lemma_product_associative(
    a: spec_fn(int, int) -> int,
    b: spec_fn(int, int) -> int,
    c: spec_fn(int, int) -> int,
    n: nat,
    m: nat,
    i: int,
    l: int,
)
    ensures
        dot(product(a, b, n), c, m, i, l) == dot(a, product(b, c, m), n, i, l),
{
    let g = |j: int, k: int| a(i, k) * b(k, j) * c(j, l);
    assert forall|j: int| 0 <= j < m implies #[trigger] (product(a, b, n)(i, j) * c(j, l))
        == sum(|k: int| g(j, k), n) by {
        lemma_sum_scale_right(|k: int| a(i, k) * b(k, j), c(j, l), n);
        lemma_sum_ext(
            |k: int| (|k: int| a(i, k) * b(k, j))(k) * c(j, l),
            |k: int| g(j, k),
            n,
        );
    }
    lemma_sum_ext(
        |j: int| product(a, b, n)(i, j) * c(j, l),
        |j: int| sum(|k: int| g(j, k), n),
        m,
    );
    lemma_sum_swap(g, m, n);
    assert forall|k: int| 0 <= k < n implies #[trigger] (a(i, k) * product(b, c, m)(k, l))
        == sum(|j: int| g(j, k), m) by {
        lemma_sum_scale_left(a(i, k), |j: int| b(k, j) * c(j, l), m);
        assert forall|j: int| 0 <= j < m implies a(i, k) * (b(k, j) * c(j, l)) == #[trigger] g(j, k) by {
            let x = a(i, k);
            let y = b(k, j);
            let z = c(j, l);
            assert(x * (y * z) == x * y * z) by (nonlinear_arith);
        }
        lemma_sum_ext(
            |j: int| a(i, k) * (|j: int| b(k, j) * c(j, l))(j),
            |j: int| g(j, k),
            m,
        );
    }
    lemma_sum_ext(
        |k: int| a(i, k) * product(b, c, m)(k, l),
        |k: int| sum(|j: int| g(j, k), m),
        n,
    );
}

/// `dot` only looks at row `i` of `a` and column `j` of `b` in range.
proof fn lemma_dot_ext(
    a: spec_fn(int, int) -> int,
    a2: spec_fn(int, int) -> int,
    b: spec_fn(int, int) -> int,
    b2: spec_fn(int, int) -> int,
    n: nat,
    i: int,
    j: int,
)
    requires
        forall|k: int| 0 <= k < n ==> #[trigger] a(i, k) == a2(i, k) && #[trigger] b(k, j) == b2(k, j),
    ensures
        dot(a, b, n, i, j) == dot(a2, b2, n, i, j),
{
    lemma_sum_ext(|k: int| a(i, k) * b(k, j), |k: int| a2(i, k) * b2(k, j), n);
}

/// Matrix multiplication is associative: when `ab` is the product of `a`
/// and `b`, `bc` that of `b` and `c`, then `(a b) c` and `a (b c)` hold the
/// same entries.
pub proof fn lemma_multiply_associative<T: Scalar>(
    a: Matrix<T>,
    b: Matrix<T>,
    c: Matrix<T>,
    ab: Matrix<T>,
    bc: Matrix<T>,
    ab_c: Matrix<T>,
    a_bc: Matrix<T>,
)
    requires
        a.dimension.columns == b.dimension.rows,
        b.dimension.columns == c.dimension.rows,
        ab.is_product_of(&a, &b),
        bc.is_product_of(&b, &c),
        ab_c.is_product_of(&ab, &c),
        a_bc.is_product_of(&a, &bc),
    ensures
        ab_c.dimension == a_bc.dimension,
        ab_c.data@ == a_bc.data@,
{
    let n = a.dimension.columns as nat;
    let m = b.dimension.columns as nat;
    assert forall|i: int, l: int| 0 <= i < a.dimension.rows && 0 <= l < c.dimension.columns
        implies #[trigger] ab_c.cell(i, l) == a_bc.cell(i, l) by {
        lemma_dot_ext(ab.cells(), product(a.cells(), b.cells(), n), c.cells(), c.cells(), m, i, l);
        lemma_dot_ext(a.cells(), a.cells(), bc.cells(), product(b.cells(), c.cells(), m), n, i, l);
        lemma_product_associative(a.cells(), b.cells(), c.cells(), n, m, i, l);
    }
    lemma_same_cells_same_data(ab_c, a_bc);
}

/// Two well-formed matrices of one shape with equal entries hold equal data.
pub(crate) proof fn lemma_same_cells_same_data<T: Scalar>(x: Matrix<T>, y: Matrix<T>)
    requires
        x.wf(),
        y.wf(),
        x.dimension == y.dimension,
        forall|i: int, j: int| 0 <= i < x.dimension.rows && 0 <= j < x.dimension.columns
            ==> #[trigger] x.cell(i, j) == y.cell(i, j),
    ensures
        x.data@ == y.data@,
{
    let d = x.dimension;
    assert forall|index: int| 0 <= index < x.data@.len() implies x.data@[index] == y.data@[index] by {
        crate::dimension::lemma_index_round_trip(d, index);
        crate::dimension::lemma_xy_in_range(d, index);
        assert(x.cell(index / d.columns as int, index % d.columns as int)
            == y.cell(index / d.columns as int, index % d.columns as int));
        x.data@[index].lemma_value_injective(y.data@[index]);
    }
    assert(x.data@ =~= y.data@);
}

/// Writing a product into a buffer and allocating it give the same matrix:
/// any two matrices that hold the product of `a` and `b` are equal.
pub proof fn lemma_buffered_mul_matches_multiply<T: Scalar>(
    buffered: Matrix<T>,
    allocated: Matrix<T>,
    a: Matrix<T>,
    b: Matrix<T>,
)
    requires
        buffered.is_product_of(&a, &b),
        allocated.is_product_of(&a, &b),
    ensures
        buffered.dimension == allocated.dimension,
        buffered.data@ == allocated.data@,
{
    lemma_same_cells_same_data(buffered, allocated);
}

} // verus!
