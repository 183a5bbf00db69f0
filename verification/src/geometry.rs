//! Combinatorial structure of the rendered tetrahedron.
//!
//! The builder places four vertices from the current center and scale (a
//! floating-point step that stays in the application) and then assembles
//! primitives out of them by index.  The assembly is fixed and is stated
//! here exactly: the four faces are all the three-element combinations of
//! the four vertices, and the wireframe point cloud subdivides each of the
//! six edges into a fixed number of evenly spaced steps.

use vstd::prelude::*;

verus! {

/// The four faces of the tetrahedron, as index triples into the vertex
/// array, in the order the builder emits them: every choice of three of the
/// four vertices.
pub fn tetra_faces() -> (r: Vec<(usize, usize, usize)>)
    ensures
        r@ == seq![
            (0usize, 1usize, 2usize),
            (0usize, 1usize, 3usize),
            (0usize, 2usize, 3usize),
            (1usize, 2usize, 3usize),
        ],
{
    let mut r: Vec<(usize, usize, usize)> = Vec::new();
    r.push((0, 1, 2));
    r.push((0, 1, 3));
    r.push((0, 2, 3));
    r.push((1, 2, 3));
    proof {
        assert(r@ =~= seq![
            (0usize, 1usize, 2usize),
            (0usize, 1usize, 3usize),
            (0usize, 2usize, 3usize),
            (1usize, 2usize, 3usize),
        ]);
    }
    r
}

/// The six edges of the tetrahedron, as index pairs into the vertex array:
/// every choice of two of the four vertices.
pub fn tetra_edges() -> (r: Vec<(usize, usize)>)
    ensures
        r@ == seq![
            (0usize, 1usize),
            (0usize, 2usize),
            (0usize, 3usize),
            (1usize, 2usize),
            (1usize, 3usize),
            (2usize, 3usize),
        ],
{
    let mut r: Vec<(usize, usize)> = Vec::new();
    r.push((0, 1));
    r.push((0, 2));
    r.push((0, 3));
    r.push((1, 2));
    r.push((1, 3));
    r.push((2, 3));
    proof {
        assert(r@ =~= seq![
            (0usize, 1usize),
            (0usize, 2usize),
            (0usize, 3usize),
            (1usize, 2usize),
            (1usize, 3usize),
            (2usize, 3usize),
        ]);
    }
    r
}

/// The interpolation steps of one subdivided edge: a point is placed at
/// each whole step `1 ..= nv` of the per-step advance from the first
/// endpoint toward the second, so each edge contributes `nv` cloud points
/// beyond the vertices themselves.
pub fn edge_steps(nv: usize) -> (r: Vec<usize>)
    ensures
        r@.len() == nv,
        forall|j: int| 0 <= j < nv ==> r@[j] == j + 1,
{
    let mut r: Vec<usize> = Vec::new();
    let mut j: usize = 0;
    while j < nv
        invariant
            j <= nv,
            r@.len() == j,
            forall|k: int| 0 <= k < j ==> r@[k] == k + 1,
        decreases nv - j,
    {
        r.push(j + 1);
        j = j + 1;
    }
    r
}

} // verus!
