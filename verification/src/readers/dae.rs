//! Collada files hold objects, each with its points and with triangles that
//! name three of them.

use crate::mesh::TriangleMesh;
use vstd::prelude::*;

verus! {

/// One object of a Collada file as its parser hands it out.
pub struct DaeObject<P> {
    pub vertices: Vec<P>,
    /// The corners of each triangle, as places among the points.
    pub triangles: Vec<(usize, usize, usize)>,
}

/// The corners of a triangle as the mesh keeps them.
pub open spec fn corners_of(triangle: (usize, usize, usize)) -> Seq<u32> {
    seq![triangle.0 as u32, triangle.1 as u32, triangle.2 as u32]
}

/// The points of all objects, one object after the other.
pub open spec fn all_vertices<P>(objects: Seq<DaeObject<P>>) -> Seq<P>
    decreases objects.len(),
{
    if objects.len() == 0 {
        Seq::empty()
    } else {
        all_vertices(objects.drop_last()) + objects.last().vertices@
    }
}

/// The triangles of all objects, one object after the other.
pub open spec fn all_corners<P>(objects: Seq<DaeObject<P>>) -> Seq<Seq<u32>>
    decreases objects.len(),
{
    if objects.len() == 0 {
        Seq::empty()
    } else {
        all_corners(objects.drop_last()) + objects.last().triangles@.map_values(
            |triangle: (usize, usize, usize)| corners_of(triangle),
        )
    }
}

/// The Collada reader.
/// If multiple objects are found, they are all mushed together.
pub struct DaeReader;

impl DaeReader {
    /// Puts the points and the triangles of all objects into one mesh, one
    /// object after the other. The corners are taken as they are.
    pub fn assemble<P: Copy>(objects: &Vec<DaeObject<P>>) -> (mesh: TriangleMesh<P>)
        ensures
            mesh.points@ == all_vertices(objects@),
            mesh.triangles@.map_values(|corners: [u32; 3]| corners@) == all_corners(objects@),
    {
        let mut points: Vec<P> = Vec::new();
        let mut triangles: Vec<[u32; 3]> = Vec::new();
        let ghost view = |corners: [u32; 3]| corners@;
        let ghost cast = |triangle: (usize, usize, usize)| corners_of(triangle);
        let mut m: usize = 0;
        proof {
            assert(points@ =~= all_vertices(objects@.take(0)));
            assert(triangles@.map_values(view) =~= all_corners(objects@.take(0)));
        }
        while m < objects.len()
            invariant
                m <= objects.len(),
                view == |corners: [u32; 3]| corners@,
                cast == |triangle: (usize, usize, usize)| corners_of(triangle),
                points@ == all_vertices(objects@.take(m as int)),
                triangles@.map_values(view) == all_corners(objects@.take(m as int)),
            decreases objects.len() - m,
        {
            let object = &objects[m];
            let ghost points_before = points@;
            let ghost triangles_before = triangles@;
            let mut v: usize = 0;
            while v < object.vertices.len()
                invariant
                    v <= object.vertices.len(),
                    points@ == points_before + object.vertices@.take(v as int),
                decreases object.vertices.len() - v,
            {
                points.push(object.vertices[v]);
                proof {
                    assert(points@ =~= points_before + object.vertices@.take(v + 1));
                }
                v += 1;
            }
            let mut t: usize = 0;
            while t < object.triangles.len()
                invariant
                    t <= object.triangles.len(),
                    view == |corners: [u32; 3]| corners@,
                    cast == |triangle: (usize, usize, usize)| corners_of(triangle),
                    triangles@.len() == triangles_before.len() + t,
                    triangles@.map_values(view) == triangles_before.map_values(view)
                        + object.triangles@.take(t as int).map_values(cast),
                decreases object.triangles.len() - t,
            {
                let triangle = object.triangles[t];
                let corners: [u32; 3] = [
                    #[verifier::truncate]
                    (triangle.0 as u32),
                    #[verifier::truncate]
                    (triangle.1 as u32),
                    #[verifier::truncate]
                    (triangle.2 as u32),
                ];
                let ghost sooner = triangles@;
                triangles.push(corners);
                proof {
                    assert(corners@ =~= corners_of(triangle));
                    let want = triangles_before.map_values(view) + object.triangles@.take(
                        t + 1,
                    ).map_values(cast);
                    assert forall|k: int| 0 <= k < want.len() implies triangles@.map_values(
                        view,
                    )[k] == want[k] by {
                        if k < sooner.len() {
                            assert(sooner.map_values(view)[k] == sooner[k]@);
                        }
                    }
                    assert(triangles@.map_values(view) =~= want);
                }
                t += 1;
            }
            proof {
                assert(object.vertices@.take(v as int) =~= object.vertices@);
                assert(object.triangles@.take(t as int) =~= object.triangles@);
                assert(objects@.take(m + 1).drop_last() =~= objects@.take(m as int));
                assert(objects@.take(m + 1).last() == objects@[m as int]);
            }
            m += 1;
        }
        proof {
            assert(objects@.take(m as int) =~= objects@);
        }
        TriangleMesh { points, triangles }
    }
}

} // verus!
