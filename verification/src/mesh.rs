//! The layout of a triangle mesh as it is loaded: an index buffer whose
//! entries come in threes, a position buffer with three numbers for each
//! vertex and a texture buffer with two, and the box around all vertices.

use vstd::prelude::*;
use crate::bounds::{Box3, Point3};

verus! {

/// The three vertices of a triangle, by their numbers.
#[derive(Clone, Copy, Debug, PartialEq, Eq, Structural)]
pub struct Face {
    pub a: u32,
    pub b: u32,
    pub c: u32,
}

/// The number of whole triangles in an index buffer of the given length.
pub open spec fn face_count(len: int) -> int {
    len / 3
}

/// The triangle at place `i` of an index buffer.
pub open spec fn face_at(indices: Seq<u32>, i: int) -> Face {
    Face { a: indices[3 * i], b: indices[3 * i + 1], c: indices[3 * i + 2] }
}

/// Groups an index buffer into triangles. Entries left over at the end, one
/// or two, belong to no triangle.
pub fn faces(indices: &Vec<u32>) -> (list: Vec<Face>)
    ensures
        list@.len() == face_count(indices@.len() as int),
        forall|i: int| 0 <= i < list@.len() ==> #[trigger] list@[i] == face_at(indices@, i),
{
    let count = indices.len() / 3;
    let mut list: Vec<Face> = Vec::new();
    let mut i: usize = 0;
    while i < count
        invariant
            i <= count,
            3 * count <= indices@.len() <= usize::MAX,
            count == indices@.len() / 3,
            list@.len() == i,
            forall|j: int| 0 <= j < i ==> #[trigger] list@[j] == face_at(indices@, j),
        decreases count - i,
    {
        list.push(Face { a: indices[3 * i], b: indices[3 * i + 1], c: indices[3 * i + 2] });
        i += 1;
    }
    list
}

/// Whether vertex `index` has its three numbers in a position buffer of the
/// given length.
pub open spec fn placed(index: u32, positions: int) -> bool {
    3 * index + 2 < positions
}

/// Whether vertex `index` has its two numbers in a texture buffer of the
/// given length.
pub open spec fn textured(index: u32, texcoords: int) -> bool {
    2 * index + 1 < texcoords
}

/// Tests whether a vertex has texture coordinates. One that has none is
/// given the texture's origin.
pub fn has_texcoords(index: u32, texcoords: usize) -> (yes: bool)
    ensures
        yes == textured(index, texcoords as int),
{
    let last: u64 = 2 * (index as u64) + 1;
    last < texcoords as u64
}

/// Tests whether every vertex that the index buffer names has a position.
pub fn all_placed(indices: &Vec<u32>, positions: usize) -> (yes: bool)
    ensures
        yes == forall|i: int| 0 <= i < indices@.len() ==> placed(#[trigger] indices@[i], positions as int),
{
    let mut i: usize = 0;
    while i < indices.len()
        invariant
            i <= indices.len(),
            forall|j: int| 0 <= j < i ==> placed(#[trigger] indices@[j], positions as int),
        decreases indices.len() - i,
    {
        let last: u64 = 3 * (indices[i] as u64) + 2;
        if !(last < positions as u64) {
            return false;
        }
        i += 1;
    }
    true
}

/// Whether `hull` is the box around the points: it holds each of them, and
/// on each of its six faces lies one of them.
pub open spec fn bounds_points(hull: Box3, points: Seq<Point3>) -> bool {
    &&& forall|i: int| 0 <= i < points.len() ==> hull.holds(#[trigger] points[i])
    &&& exists|i: int| 0 <= i < points.len() && (#[trigger] points[i]).x == hull.min.x
    &&& exists|i: int| 0 <= i < points.len() && (#[trigger] points[i]).y == hull.min.y
    &&& exists|i: int| 0 <= i < points.len() && (#[trigger] points[i]).z == hull.min.z
    &&& exists|i: int| 0 <= i < points.len() && (#[trigger] points[i]).x == hull.max.x
    &&& exists|i: int| 0 <= i < points.len() && (#[trigger] points[i]).y == hull.max.y
    &&& exists|i: int| 0 <= i < points.len() && (#[trigger] points[i]).z == hull.max.z
}

/// Finds the box around the vertices of a mesh. A mesh without vertices has
/// none.
pub fn extents(points: &Vec<Point3>) -> (hull: Option<Box3>)
    ensures
        hull.is_none() <==> points@.len() == 0,
        hull.is_some() ==> bounds_points(hull.unwrap(), points@),
{
    if points.len() == 0 {
        return None;
    }
    let mut hull = Box3 { min: points[0], max: points[0] };
    let mut k: usize = 1;
    proof {
        assert(points@.take(1)[0] == points@[0]);
    }
    while k < points.len()
        invariant
            1 <= k <= points.len(),
            bounds_points(hull, points@.take(k as int)),
        decreases points.len() - k,
    {
        let ghost before = points@.take(k as int);
        let ghost after = points@.take(k as int + 1);
        let ghost old_hull = hull;
        let p = points[k];
        hull = hull.join(&Box3 { min: p, max: p });
        proof {
            assert(after[k as int] == p);
            assert forall|i: int| 0 <= i < k implies #[trigger] after[i] == before[i] by {}
            let ix = choose|i: int| 0 <= i < before.len() && (#[trigger] before[i]).x == old_hull.min.x;
            let iy = choose|i: int| 0 <= i < before.len() && (#[trigger] before[i]).y == old_hull.min.y;
            let iz = choose|i: int| 0 <= i < before.len() && (#[trigger] before[i]).z == old_hull.min.z;
            let jx = choose|i: int| 0 <= i < before.len() && (#[trigger] before[i]).x == old_hull.max.x;
            let jy = choose|i: int| 0 <= i < before.len() && (#[trigger] before[i]).y == old_hull.max.y;
            let jz = choose|i: int| 0 <= i < before.len() && (#[trigger] before[i]).z == old_hull.max.z;
            assert(after[ix] == before[ix] && after[iy] == before[iy] && after[iz] == before[iz]);
            assert(after[jx] == before[jx] && after[jy] == before[jy] && after[jz] == before[jz]);
            assert forall|i: int| 0 <= i < after.len() implies hull.holds(#[trigger] after[i]) by {
                if i < k {
                    assert(old_hull.holds(before[i]));
                }
            }
            assert(after[if hull.min.x == old_hull.min.x { ix } else { k as int }].x == hull.min.x);
            assert(after[if hull.min.y == old_hull.min.y { iy } else { k as int }].y == hull.min.y);
            assert(after[if hull.min.z == old_hull.min.z { iz } else { k as int }].z == hull.min.z);
            assert(after[if hull.max.x == old_hull.max.x { jx } else { k as int }].x == hull.max.x);
            assert(after[if hull.max.y == old_hull.max.y { jy } else { k as int }].y == hull.max.y);
            assert(after[if hull.max.z == old_hull.max.z { jz } else { k as int }].z == hull.max.z);
        }
        k += 1;
    }
    proof {
        assert(points@.take(k as int) == points@);
    }
    Some(hull)
}

} // verus!
