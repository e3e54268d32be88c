//! glTF primitives come out of their parser as lists of points, every three
//! of which form a triangle.

use crate::mesh::TriangleMesh;
use vstd::prelude::*;

verus! {

/// The points of all primitives, one primitive after the other.
pub open spec fn all_positions<P>(primitives: Seq<Vec<P>>) -> Seq<P>
    decreases primitives.len(),
{
    if primitives.len() == 0 {
        Seq::empty()
    } else {
        all_positions(primitives.drop_last()) + primitives.last()@
    }
}

/// The triangles of a primitive of `len` points whose first point is the
/// `first`-th point of the mesh: one for every three points begun, each
/// naming three points in a row.
pub open spec fn faces_of(first: int, len: int) -> Seq<Seq<u32>> {
    Seq::new(
        ((len + 2) / 3) as nat,
        |n: int| seq![(first + 3 * n) as u32, (first + 3 * n + 1) as u32, (first + 3 * n + 2) as u32],
    )
}

/// The triangles of all primitives, one primitive after the other.
pub open spec fn all_faces<P>(primitives: Seq<Vec<P>>) -> Seq<Seq<u32>>
    decreases primitives.len(),
{
    if primitives.len() == 0 {
        Seq::empty()
    } else {
        all_faces(primitives.drop_last()) + faces_of(
            all_positions(primitives.drop_last()).len() as int,
            primitives.last()@.len() as int,
        )
    }
}

/// The glTF reader.
pub struct GltfReader;

impl GltfReader {
    /// Puts the points of all primitives into one mesh and makes a triangle
    /// of every three points begun. Where the points of a primitive do not
    /// come in threes, its last triangle names points that follow it.
    pub fn assemble<P: Copy>(primitives: &Vec<Vec<P>>) -> (mesh: TriangleMesh<P>)
        requires
            all_positions(primitives@).len() + 2 <= u32::MAX,
        ensures
            mesh.points@ == all_positions(primitives@),
            mesh.triangles@.map_values(|corners: [u32; 3]| corners@) == all_faces(primitives@),
    {
        let mut points: Vec<P> = Vec::new();
        let mut triangles: Vec<[u32; 3]> = Vec::new();
        let ghost view = |corners: [u32; 3]| corners@;
        let mut m: usize = 0;
        proof {
            assert(points@ =~= all_positions(primitives@.take(0)));
            assert(triangles@.map_values(view) =~= all_faces(primitives@.take(0)));
            lemma_positions_grow(primitives@, 0);
        }
        while m < primitives.len()
            invariant
                m <= primitives.len(),
                all_positions(primitives@).len() + 2 <= u32::MAX,
                view == |corners: [u32; 3]| corners@,
                points@ == all_positions(primitives@.take(m as int)),
                triangles@.map_values(view) == all_faces(primitives@.take(m as int)),
            decreases primitives.len() - m,
        {
            let positions = &primitives[m];
            let ghost points_before = points@;
            let ghost triangles_before = triangles@;
            let first = points.len();
            let len = positions.len();
            proof {
                lemma_positions_grow(primitives@, m + 1);
                assert(primitives@.take(m + 1).drop_last() =~= primitives@.take(m as int));
                assert(primitives@.take(m + 1).last() == primitives@[m as int]);
            }
            let mut i: usize = 0;
            let ghost mut n: int = 0;
            while i < len
                invariant
                    len == positions@.len(),
                    first == points_before.len(),
                    first + len + 2 <= u32::MAX,
                    view == |corners: [u32; 3]| corners@,
                    i <= len + 2,
                    i == 3 * n,
                    0 <= n <= (len + 2) / 3,
                    points@ == points_before + positions@.take(if i <= len {
                        i as int
                    } else {
                        len as int
                    }),
                    triangles@.len() == triangles_before.len() + n,
                    triangles@.map_values(view) == triangles_before.map_values(view) + faces_of(
                        first as int,
                        len as int,
                    ).take(n),
                decreases len + 2 - i,
            {
                let start = first + i;
                let mut j: usize = 0;
                while j < 3 && i + j < len
                    invariant
                        len == positions@.len(),
                        i < len,
                        j <= 3,
                        i + j <= len,
                        points@ == points_before + positions@.take(i + j),
                    decreases 3 - j,
                {
                    points.push(positions[i + j]);
                    proof {
                        assert(points@ =~= points_before + positions@.take(i + j + 1));
                    }
                    j += 1;
                }
                let corners: [u32; 3] = [start as u32, (start + 1) as u32, (start + 2) as u32];
                let ghost earlier = triangles@;
                triangles.push(corners);
                proof {
                    let faces = faces_of(first as int, len as int);
                    assert(corners@ =~= faces[n]);
                    let want = triangles_before.map_values(view) + faces.take(n + 1);
                    assert forall|k: int| 0 <= k < want.len() implies triangles@.map_values(
                        view,
                    )[k] == want[k] by {
                        if k < earlier.len() {
                            assert(earlier.map_values(view)[k] == earlier[k]@);
                        }
                    }
                    assert(triangles@.map_values(view) =~= want);
                    n = n + 1;
                }
                i += 3;
            }
            proof {
                assert(positions@.take(len as int) =~= positions@);
                assert(faces_of(first as int, len as int).take(n) =~= faces_of(
                    first as int,
                    len as int,
                ));
            }
            m += 1;
        }
        proof {
            assert(primitives@.take(m as int) =~= primitives@);
        }
        TriangleMesh { points, triangles }
    }
}

/// The points of the first primitives are among the points of all.
proof fn lemma_positions_grow<P>(primitives: Seq<Vec<P>>, m: int)
    requires
        0 <= m <= primitives.len(),
    ensures
        all_positions(primitives.take(m)).len() <= all_positions(primitives).len(),
    decreases primitives.len() - m,
{
    if m < primitives.len() {
        lemma_positions_grow(primitives, m + 1);
        assert(primitives.take(m + 1).drop_last() =~= primitives.take(m));
    } else {
        assert(primitives.take(m) =~= primitives);
    }
}

} // verus!
