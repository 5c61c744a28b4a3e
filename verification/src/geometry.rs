//! Geometry primitives: points in pixel space, squared distance, and
//! triangles that reference points by index.

use vstd::prelude::*;

verus! {

/// A point in image pixel space. Multiple points may coincide; a point has
/// no identity beyond its coordinates.
#[derive(Clone, Copy, PartialEq, Eq, Structural, Debug)]
pub struct Point {
    pub x: u32,
    pub y: u32,
}

/// Squared Euclidean distance between two points.
pub open spec fn spec_dist2(p: Point, q: Point) -> int {
    (p.x - q.x) * (p.x - q.x) + (p.y - q.y) * (p.y - q.y)
}

impl Point {
    pub fn new(x: u32, y: u32) -> (p: Point)
        ensures
            p.x == x,
            p.y == y,
    {
        Point { x, y }
    }
}

/// Squared Euclidean distance, exact in 128-bit arithmetic.
pub fn dist2(p: Point, q: Point) -> (d: u128)
    ensures
        d == spec_dist2(p, q),
{
    let dx: u128 = if p.x >= q.x {
        (p.x - q.x) as u128
    } else {
        (q.x - p.x) as u128
    };
    let dy: u128 = if p.y >= q.y {
        (p.y - q.y) as u128
    } else {
        (q.y - p.y) as u128
    };
    proof {
        assert(dx * dx < 0x1_0000_0000_0000_0000 && dy * dy < 0x1_0000_0000_0000_0000)
            by (nonlinear_arith)
            requires
                dx < 0x1_0000_0000,
                dy < 0x1_0000_0000,
        ;
        assert(dx * dx == (p.x - q.x) * (p.x - q.x) && dy * dy == (p.y - q.y) * (p.y - q.y))
            by (nonlinear_arith)
            requires
                dx == p.x - q.x || dx == q.x - p.x,
                dy == p.y - q.y || dy == q.y - p.y,
        ;
    }
    dx * dx + dy * dy
}

/// One face of the triangulation: three indices into a point list. It is a
/// weak reference by index, with no lifetime of its own beyond the list.
#[derive(Clone, Copy, PartialEq, Eq, Structural, Debug)]
pub struct Triangle(pub usize, pub usize, pub usize);

/// A triangle references only points that exist in a list of `n` points.
pub open spec fn triangle_in_bounds(t: Triangle, n: int) -> bool {
    t.0 < n && t.1 < n && t.2 < n
}

/// Every triangle of the mesh references only points that exist in a list of
/// `n` points.
pub open spec fn mesh_in_bounds(mesh: Seq<Triangle>, n: int) -> bool {
    forall|i: int| 0 <= i < mesh.len() ==> #[trigger] triangle_in_bounds(mesh[i], n)
}

/// Runtime check that a mesh only references points that exist.
pub fn triangles_in_bounds(mesh: &Vec<Triangle>, n: usize) -> (r: bool)
    ensures
        r == mesh_in_bounds(mesh@, n as int),
{
    let mut i: usize = 0;
    while i < mesh.len()
        invariant
            i <= mesh.len(),
            forall|j: int| 0 <= j < i ==> #[trigger] triangle_in_bounds(mesh@[j], n as int),
        decreases mesh.len() - i,
    {
        let t = mesh[i];
        if t.0 >= n || t.1 >= n || t.2 >= n {
            assert(!triangle_in_bounds(mesh@[i as int], n as int));
            return false;
        }
        i = i + 1;
    }
    true
}

} // verus!
