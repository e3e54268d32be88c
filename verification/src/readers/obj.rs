//! OBJ files come out of their parser as flat lists: corner indices, three to
//! a triangle, and coordinates, three to a point.

use crate::mesh::TriangleMesh;
use vstd::prelude::*;

verus! {

/// One object of an OBJ file as its parser hands it out.
pub struct ObjModel<T> {
    /// Corner indices, three to a triangle.
    pub indices: Vec<u32>,
    /// Coordinates, three to a point.
    pub positions: Vec<T>,
}

/// The `n`-th group of three of a flat list.
pub open spec fn triple_at<A>(flat: Seq<A>, n: int) -> Seq<A> {
    seq![flat[3 * n], flat[3 * n + 1], flat[3 * n + 2]]
}

/// The complete groups of three of a flat list; what is left over at the end
/// is dropped.
pub open spec fn triples<A>(flat: Seq<A>) -> Seq<Seq<A>> {
    Seq::new(flat.len() / 3, |n: int| triple_at(flat, n))
}

/// The contents of a list of groups of three.
pub open spec fn rows<A>(items: Seq<[A; 3]>) -> Seq<Seq<A>> {
    items.map_values(|item: [A; 3]| item@)
}

/// The triangles of all models, one model after the other.
pub open spec fn all_triangles<T>(models: Seq<ObjModel<T>>) -> Seq<Seq<u32>>
    decreases models.len(),
{
    if models.len() == 0 {
        Seq::empty()
    } else {
        all_triangles(models.drop_last()) + triples(models.last().indices@)
    }
}

/// The points of all models, one model after the other.
pub open spec fn all_points<T>(models: Seq<ObjModel<T>>) -> Seq<Seq<T>>
    decreases models.len(),
{
    if models.len() == 0 {
        Seq::empty()
    } else {
        all_points(models.drop_last()) + triples(models.last().positions@)
    }
}

/// Appends the complete groups of three of `flat` to `out`.
pub fn push_triples<A: Copy>(out: &mut Vec<[A; 3]>, flat: &Vec<A>)
    ensures
        rows(final(out)@) == rows(old(out)@) + triples(flat@),
{
    let len = flat.len();
    let mut i: usize = 0;
    let ghost mut n: int = 0;
    proof {
        assert(rows(out@) =~= rows(old(out)@) + triples(flat@).take(0));
    }
    while len - i >= 3
        invariant
            len == flat.len(),
            i <= len,
            i == 3 * n,
            0 <= n <= len / 3,
            out@.len() == old(out)@.len() + n,
            rows(out@) == rows(old(out)@) + triples(flat@).take(n),
        decreases len - i,
    {
        let group: [A; 3] = [flat[i], flat[i + 1], flat[i + 2]];
        let ghost before = out@;
        out.push(group);
        proof {
            assert(group@ =~= triple_at(flat@, n));
            let want = rows(old(out)@) + triples(flat@).take(n + 1);
            assert forall|k: int| 0 <= k < want.len() implies rows(out@)[k] == want[k] by {
                if k < before.len() {
                    assert(rows(before)[k] == before[k]@);
                    assert(rows(before)[k] == (rows(old(out)@) + triples(flat@).take(n))[k]);
                }
            }
            assert(rows(out@) =~= want);
            n = n + 1;
        }
        i += 3;
    }
    proof {
        assert(triples(flat@).take(n) =~= triples(flat@));
    }
}

/// The OBJ reader.
pub struct ObjReader;

/// Convert the output of the OBJ parser into one big mesh: the triangles and
/// the points of all models, one model after the other. The corner indices
/// are taken as they are.
pub fn obj_to_trimesh<T: Copy>(objs: &Vec<ObjModel<T>>) -> (mesh: TriangleMesh<[T; 3]>)
    ensures
        rows(mesh.triangles@) == all_triangles(objs@),
        rows(mesh.points@) == all_points(objs@),
{
    let mut points: Vec<[T; 3]> = Vec::new();
    let mut triangles: Vec<[u32; 3]> = Vec::new();
    let mut m: usize = 0;
    proof {
        assert(rows(triangles@) =~= all_triangles(objs@.take(0)));
        assert(rows(points@) =~= all_points(objs@.take(0)));
    }
    while m < objs.len()
        invariant
            m <= objs.len(),
            rows(triangles@) == all_triangles(objs@.take(m as int)),
            rows(points@) == all_points(objs@.take(m as int)),
        decreases objs.len() - m,
    {
        push_triples(&mut triangles, &objs[m].indices);
        push_triples(&mut points, &objs[m].positions);
        proof {
            assert(objs@.take(m + 1).drop_last() =~= objs@.take(m as int));
        }
        m += 1;
    }
    proof {
        assert(objs@.take(m as int) =~= objs@);
    }
    TriangleMesh { points, triangles }
}

} // verus!
