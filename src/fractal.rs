use vstd::prelude::*;

verus! {

/// `3` to the power `d`.
pub open spec fn pow3(d: nat) -> nat
    decreases d,
{
    if d == 0 {
        1
    } else {
        3 * pow3((d - 1) as nat)
    }
}

/// Number of triangles a subdivision of the given depth emits: none at
/// depth zero, and at each deeper level those of its three corner
/// sub-triangles plus its own central one.
pub open spec fn triangle_count(depth: nat) -> nat
    decreases depth,
{
    if depth == 0 {
        0
    } else {
        3 * triangle_count((depth - 1) as nat) + 1
    }
}

/// The triangle count in closed form: `2 * count + 1 == 3^depth`.
pub proof fn lemma_triangle_count_closed_form(depth: nat)
    ensures
        2 * triangle_count(depth) + 1 == pow3(depth),
    decreases depth,
{
    if depth > 0 {
        lemma_triangle_count_closed_form((depth - 1) as nat);
    }
}

/// `midpoint` gives one result for each pair of points.
pub open spec fn is_function<P, M: Fn(P, P) -> P>(midpoint: &M) -> bool {
    forall|p: P, q: P, r1: P, r2: P| #[trigger] midpoint.ensures((p, q), r1) && #[trigger] midpoint.ensures((p, q), r2) ==> r1 == r2
}

/// The midpoint `midpoint` gives for `p` and `q`.
pub open spec fn mid<P, M: Fn(P, P) -> P>(midpoint: &M, p: P, q: P) -> P {
    choose|r: P| midpoint.ensures((p, q), r)
}

/// The `(bottom, left, right)` midpoints of each subdivision step, in the
/// order their triangles are appended: those of the bottom-left corner,
/// of the top corner, of the bottom-right corner, then the step's own.
pub open spec fn central_triangles<P, M: Fn(P, P) -> P>(
    midpoint: &M,
    depth: nat,
    bottom_left: P,
    bottom_right: P,
    top: P,
) -> Seq<(P, P, P)>
    decreases depth,
{
    if depth == 0 {
        Seq::empty()
    } else {
        let d = (depth - 1) as nat;
        let new_bottom = mid(midpoint, bottom_left, bottom_right);
        let new_left = mid(midpoint, bottom_left, top);
        let new_right = mid(midpoint, top, bottom_right);
        central_triangles(midpoint, d, bottom_left, new_bottom, new_left)
            + central_triangles(midpoint, d, new_left, new_right, top)
            + central_triangles(midpoint, d, new_bottom, bottom_right, new_right)
            + seq![(new_bottom, new_left, new_right)]
    }
}

/// The records at `at`, `at + 1` and `at + 2` of `vs` are what `leaf` gives
/// for the midpoints `tri`.
pub open spec fn emitted_for<P, V, L: Fn(P, P, P) -> (V, V, V)>(leaf: &L, vs: Seq<V>, at: int, tri: (P, P, P)) -> bool {
    leaf.ensures(tri, (vs[at], vs[at + 1], vs[at + 2]))
}

pub proof fn lemma_central_triangles_len<P, M: Fn(P, P) -> P>(
    midpoint: &M,
    depth: nat,
    bottom_left: P,
    bottom_right: P,
    top: P,
)
    ensures
        central_triangles(midpoint, depth, bottom_left, bottom_right, top).len() == triangle_count(depth),
    decreases depth,
{
    if depth > 0 {
        let d = (depth - 1) as nat;
        let new_bottom = mid(midpoint, bottom_left, bottom_right);
        let new_left = mid(midpoint, bottom_left, top);
        let new_right = mid(midpoint, top, bottom_right);
        lemma_central_triangles_len(midpoint, d, bottom_left, new_bottom, new_left);
        lemma_central_triangles_len(midpoint, d, new_left, new_right, top);
        lemma_central_triangles_len(midpoint, d, new_bottom, bottom_right, new_right);
    }
}

/// The three records at `at`, `at + 1` and `at + 2` of `vs` are one result
/// of `leaf`.
pub open spec fn emitted_by<P, V, L: Fn(P, P, P) -> (V, V, V)>(leaf: &L, vs: Seq<V>, at: int) -> bool {
    exists|b: P, l: P, r: P| #[trigger] leaf.ensures((b, l, r), (vs[at], vs[at + 1], vs[at + 2]))
}

/// Recursively subdivides the triangle `(bottom_left, bottom_right, top)`
/// `depth` times into a Sierpinski pattern and appends one triangle per
/// subdivision step: the central triangle spanned by the three edge
/// midpoints.
///
/// `midpoint(p, q)` gives the midpoint of an edge. `leaf(bottom, left,
/// right)` receives the three midpoints of a step and gives the three
/// vertex records to append for its triangle, in order. Each triangle's
/// indices are the positions its records take in the index buffer, so with
/// buffers of equal length on entry each index names the vertex appended
/// with it. When `midpoint` is a function, triangle `t` holds what `leaf`
/// gives for `central_triangles(..)[t]`.
pub fn sierpinski_triangle<P: Copy, V, M: Fn(P, P) -> P, L: Fn(P, P, P) -> (V, V, V)>(
    vertices: &mut Vec<V>,
    indices: &mut Vec<u32>,
    depth: usize,
    bottom_left: P,
    bottom_right: P,
    top: P,
    midpoint: &M,
    leaf: &L,
)
    requires
        forall|p: P, q: P| midpoint.requires((p, q)),
        forall|b: P, l: P, r: P| leaf.requires((b, l, r)),
        old(indices)@.len() + 3 * triangle_count(depth as nat) <= u32::MAX + 1,
    ensures
        depth == 0 ==> final(vertices)@ == old(vertices)@ && final(indices)@ == old(indices)@,
        final(vertices)@.len() == old(vertices)@.len() + 3 * triangle_count(depth as nat),
        final(indices)@.len() == old(indices)@.len() + 3 * triangle_count(depth as nat),
        final(vertices)@.subrange(0, old(vertices)@.len() as int) == old(vertices)@,
        final(indices)@.subrange(0, old(indices)@.len() as int) == old(indices)@,
        forall|k: int| old(indices)@.len() <= k < final(indices)@.len() ==> #[trigger] final(indices)@[k] == k,
        forall|t: int| 0 <= t < triangle_count(depth as nat) ==> #[trigger] emitted_by(
            leaf,
            final(vertices)@,
            old(vertices)@.len() + 3 * t,
        ),
        is_function(midpoint) ==> forall|t: int| 0 <= t < triangle_count(depth as nat) ==> #[trigger] emitted_for(
            leaf,
            final(vertices)@,
            old(vertices)@.len() + 3 * t,
            central_triangles(midpoint, depth as nat, bottom_left, bottom_right, top)[t],
        ),
    decreases depth,
{
    if depth == 0 {
        return;
    }
    let ghost vertices0 = vertices@;
    let ghost indices0 = indices@;
    let new_bottom = midpoint(bottom_left, bottom_right);
    let new_left = midpoint(bottom_left, top);
    let new_right = midpoint(top, bottom_right);
    let ghost c = triangle_count((depth - 1) as nat) as int;
    let ghost o = vertices0.len() as int;
    sierpinski_triangle(vertices, indices, depth - 1, bottom_left, new_bottom, new_left, midpoint, leaf);
    let ghost indices1 = indices@;
    let ghost vertices1 = vertices@;
    sierpinski_triangle(vertices, indices, depth - 1, new_left, new_right, top, midpoint, leaf);
    let ghost indices2 = indices@;
    let ghost vertices2 = vertices@;
    assert forall|t: int| 0 <= t < 2 * c implies #[trigger] emitted_by(leaf, vertices2, o + 3 * t) by {
        if t < c {
            assert(emitted_by(leaf, vertices1, o + 3 * t));
            lemma_emitted_kept(leaf, vertices1, vertices2, o + 3 * t);
        } else {
            assert(emitted_by(leaf, vertices2, vertices1.len() + 3 * (t - c)));
        }
    }
    assert forall|k: int| indices0.len() <= k < indices2.len() implies #[trigger] indices2[k] == k by {
        if k < indices1.len() {
            assert(indices2.subrange(0, indices1.len() as int)[k] == indices1[k]);
        }
    }
    sierpinski_triangle(vertices, indices, depth - 1, new_bottom, bottom_right, new_right, midpoint, leaf);
    let ghost vertices3 = vertices@;
    let ghost indices3 = indices@;
    assert forall|t: int| 0 <= t < 3 * c implies #[trigger] emitted_by(leaf, vertices3, o + 3 * t) by {
        if t < 2 * c {
            assert(emitted_by(leaf, vertices2, o + 3 * t));
            lemma_emitted_kept(leaf, vertices2, vertices3, o + 3 * t);
        } else {
            assert(emitted_by(leaf, vertices3, vertices2.len() + 3 * (t - 2 * c)));
        }
    }
    assert forall|k: int| indices0.len() <= k < indices3.len() implies #[trigger] indices3[k] == k by {
        if k < indices2.len() {
            assert(indices3.subrange(0, indices2.len() as int)[k] == indices2[k]);
        }
    }
    assert(vertices3.subrange(0, vertices0.len() as int) == vertices0);
    assert(indices3.subrange(0, indices0.len() as int) == indices0);
    let (first, second, third) = leaf(new_bottom, new_left, new_right);
    let len = indices.len() as u32;
    vertices.push(first);
    vertices.push(second);
    vertices.push(third);
    indices.push(len);
    indices.push(len + 1);
    indices.push(len + 2);
    assert(vertices@.subrange(0, vertices0.len() as int) =~= vertices0);
    assert(vertices@.subrange(0, vertices3.len() as int) =~= vertices3);
    assert(vertices@.subrange(0, vertices2.len() as int) =~= vertices2);
    assert(vertices@.subrange(0, vertices1.len() as int) =~= vertices1);
    assert(indices@.subrange(0, indices0.len() as int) =~= indices0);
    assert forall|k: int| indices0.len() <= k < indices@.len() implies #[trigger] indices@[k] == k by {
        if k < indices3.len() {
            assert(indices@.subrange(0, indices3.len() as int)[k] == indices3[k]);
        }
    }
    assert forall|t: int| 0 <= t < triangle_count(depth as nat) implies #[trigger] emitted_by(
        leaf,
        vertices@,
        o + 3 * t,
    ) by {
        if t < 3 * c {
            assert(emitted_by(leaf, vertices3, o + 3 * t));
            lemma_emitted_kept(leaf, vertices3, vertices@, o + 3 * t);
        } else {
            assert(leaf.ensures((new_bottom, new_left, new_right), (vertices@[o + 3 * t], vertices@[o + 3 * t + 1], vertices@[o + 3 * t + 2])));
        }
    }
    proof {
        if is_function(midpoint) {
            let d = (depth - 1) as nat;
            assert(midpoint.ensures((bottom_left, bottom_right), mid(midpoint, bottom_left, bottom_right)));
            assert(midpoint.ensures((bottom_left, top), mid(midpoint, bottom_left, top)));
            assert(midpoint.ensures((top, bottom_right), mid(midpoint, top, bottom_right)));
            let c1 = central_triangles(midpoint, d, bottom_left, new_bottom, new_left);
            let c2 = central_triangles(midpoint, d, new_left, new_right, top);
            let c3 = central_triangles(midpoint, d, new_bottom, bottom_right, new_right);
            lemma_central_triangles_len(midpoint, d, bottom_left, new_bottom, new_left);
            lemma_central_triangles_len(midpoint, d, new_left, new_right, top);
            lemma_central_triangles_len(midpoint, d, new_bottom, bottom_right, new_right);
            let all = central_triangles(midpoint, depth as nat, bottom_left, bottom_right, top);
            assert(all == c1 + c2 + c3 + seq![(new_bottom, new_left, new_right)]);
            assert forall|t: int| 0 <= t < triangle_count(depth as nat) implies #[trigger] emitted_for(
                leaf,
                vertices@,
                o + 3 * t,
                all[t],
            ) by {
                if t < c {
                    assert(emitted_for(leaf, vertices1, o + 3 * t, c1[t]));
                    lemma_records_kept(vertices1, vertices@, o + 3 * t);
                } else if t < 2 * c {
                    assert(emitted_for(leaf, vertices2, vertices1.len() + 3 * (t - c), c2[t - c]));
                    lemma_records_kept(vertices2, vertices@, o + 3 * t);
                } else if t < 3 * c {
                    assert(emitted_for(leaf, vertices3, vertices2.len() + 3 * (t - 2 * c), c3[t - 2 * c]));
                    lemma_records_kept(vertices3, vertices@, o + 3 * t);
                } else {
                    assert(all[t] == (new_bottom, new_left, new_right));
                }
            }
        }
    }
}

/// Appending after a prefix keeps the records inside it.
proof fn lemma_records_kept<V>(before: Seq<V>, after: Seq<V>, at: int)
    requires
        0 <= at,
        at + 3 <= before.len() <= after.len(),
        after.subrange(0, before.len() as int) == before,
    ensures
        after[at] == before[at],
        after[at + 1] == before[at + 1],
        after[at + 2] == before[at + 2],
{
    assert(after.subrange(0, before.len() as int)[at] == after[at]);
    assert(after.subrange(0, before.len() as int)[at + 1] == after[at + 1]);
    assert(after.subrange(0, before.len() as int)[at + 2] == after[at + 2]);
}

proof fn lemma_emitted_kept<P, V, L: Fn(P, P, P) -> (V, V, V)>(leaf: &L, before: Seq<V>, after: Seq<V>, at: int)
    requires
        emitted_by(leaf, before, at),
        0 <= at,
        at + 3 <= before.len() <= after.len(),
        after.subrange(0, before.len() as int) == before,
    ensures
        emitted_by(leaf, after, at),
{
    let (b, l, r) = choose|b: P, l: P, r: P| #[trigger] leaf.ensures((b, l, r), (before[at], before[at + 1], before[at + 2]));
    assert(after.subrange(0, before.len() as int)[at] == after[at]);
    assert(after.subrange(0, before.len() as int)[at + 1] == after[at + 1]);
    assert(after.subrange(0, before.len() as int)[at + 2] == after[at + 2]);
    assert(leaf.ensures((b, l, r), (after[at], after[at + 1], after[at + 2])));
}

} // verus!
