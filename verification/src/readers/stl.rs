//! STL files list every triangle with the coordinates of its three corners;
//! corners that coincide are welded into one point.

use crate::mesh::TriangleMesh;
use std::collections::HashMap;
use vstd::prelude::*;

verus! {

broadcast use vstd::std_specs::hash::group_hash_axioms;

/// A corner as the bit patterns of its three coordinates. Two corners are
/// welded exactly when they agree bit for bit.
pub type Corner = (u32, u32, u32);

/// All corners of the faces, in file order.
pub open spec fn corners(faces: Seq<[Corner; 3]>) -> Seq<Corner> {
    Seq::new(3 * faces.len(), |n: int| faces[n / 3]@[n % 3])
}

/// The elements of `s` without repetitions, each at its first place.
pub open spec fn distinct<A>(s: Seq<A>) -> Seq<A>
    decreases s.len(),
{
    if s.len() == 0 {
        Seq::empty()
    } else {
        let before = distinct(s.drop_last());
        if before.contains(s.last()) {
            before
        } else {
            before.push(s.last())
        }
    }
}

spec fn key_of(c: Corner) -> int {
    c.0 * 0x1_0000_0000_0000_0000 + c.1 * 0x1_0000_0000 + c.2
}

/// `lookup` finds every point of `points` at its place, and nothing else.
spec fn indexes(lookup: Map<u128, usize>, points: Seq<Corner>) -> bool {
    &&& forall|i: int|
        0 <= i < points.len() ==> lookup.contains_key(key_of(#[trigger] points[i]) as u128)
            && lookup[key_of(points[i]) as u128] == i
    &&& forall|k: u128| #[trigger]
        lookup.contains_key(k) ==> lookup[k] < points.len() && key_of(points[lookup[k] as int]) == k
}

fn key(c: Corner) -> (k: u128)
    ensures
        k == key_of(c),
{
    (c.0 as u128) * 0x1_0000_0000_0000_0000u128 + (c.1 as u128) * 0x1_0000_0000u128 + (c.2 as u128)
}

/// The place of `corner` among the points, which takes it in as a new point
/// when it is not there yet.
fn intern(points: &mut Vec<Corner>, lookup: &mut HashMap<u128, usize>, corner: Corner) -> (place:
    u32)
    requires
        indexes(old(lookup)@, old(points)@),
        old(points)@.len() < u32::MAX,
    ensures
        indexes(final(lookup)@, final(points)@),
        final(points)@ == if old(points)@.contains(corner) {
            old(points)@
        } else {
            old(points)@.push(corner)
        },
        place < final(points)@.len(),
        final(points)@[place as int] == corner,
{
    let k = key(corner);
    let ghost before = points@;
    match lookup.get(&k) {
        Some(found) => {
            let place = *found;
            proof {
                assert(before[place as int] == corner);
            }
            place as u32
        },
        None => {
            proof {
                if before.contains(corner) {
                    let i = choose|i: int| 0 <= i < before.len() && before[i] == corner;
                    assert(lookup@.contains_key(key_of(before[i]) as u128));
                }
            }
            let place = points.len();
            points.push(corner);
            lookup.insert(k, place);
            place as u32
        },
    }
}

/// The STL reader.
pub struct StlReader;

impl StlReader {
    /// Welds the corners of `faces`: the points are the distinct corners in
    /// the order in which they first occur, and each triangle names the
    /// points of its three corners.
    pub fn weld(faces: &Vec<[Corner; 3]>) -> (mesh: TriangleMesh<Corner>)
        requires
            3 * faces.len() < u32::MAX,
        ensures
            mesh.wf(),
            mesh.points@ == distinct(corners(faces@)),
            mesh.triangles@.len() == faces.len(),
            forall|t: int, j: int|
                0 <= t < faces.len() && 0 <= j < 3 ==> mesh.points@[(#[trigger] mesh.triangles@[t]@[j]) as int]
                    == faces@[t]@[j],
    {
        let mut points: Vec<Corner> = Vec::new();
        let mut triangles: Vec<[u32; 3]> = Vec::new();
        let mut lookup: HashMap<u128, usize> = HashMap::new();
        let mut t: usize = 0;
        while t < faces.len()
            invariant
                3 * faces.len() < u32::MAX,
                t <= faces.len(),
                indexes(lookup@, points@),
                points@ == distinct(corners(faces@).take(3 * t)),
                points@.len() <= 3 * t,
                triangles@.len() == t,
                forall|s: int, j: int|
                    0 <= s < t && 0 <= j < 3 ==> (#[trigger] triangles@[s]@[j]) < points@.len()
                        && points@[triangles@[s]@[j] as int] == faces@[s]@[j],
            decreases faces.len() - t,
        {
            let face = &faces[t];
            let ghost all = corners(faces@);
            let ghost at_start = points@;
            let a = intern(&mut points, &mut lookup, face[0]);
            let ghost after_one = points@;
            let b = intern(&mut points, &mut lookup, face[1]);
            let ghost after_two = points@;
            let c = intern(&mut points, &mut lookup, face[2]);
            let triangle: [u32; 3] = [a, b, c];
            triangles.push(triangle);
            proof {
                assert(all[3 * t] == face@[0] && all[3 * t + 1] == face@[1] && all[3 * t + 2]
                    == face@[2]);
                assert(all.take(3 * t + 1).drop_last() =~= all.take(3 * t));
                assert(all.take(3 * t + 2).drop_last() =~= all.take(3 * t + 1));
                assert(all.take(3 * t + 3).drop_last() =~= all.take(3 * t + 2));
                assert(after_one == distinct(all.take(3 * t + 1)));
                assert(after_two == distinct(all.take(3 * t + 2)));
                assert(points@ == distinct(all.take(3 * t + 3)));
                lemma_grows(at_start, after_one, face@[0]);
                lemma_grows(after_one, after_two, face@[1]);
                lemma_grows(after_two, points@, face@[2]);
                assert forall|s: int, j: int| 0 <= s < t + 1 && 0 <= j < 3 implies (
                #[trigger] triangles@[s]@[j]) < points@.len() && points@[triangles@[s]@[j] as int]
                    == faces@[s]@[j] by {
                    if s < t {
                        let place = triangles@[s]@[j] as int;
                        assert(at_start[place] == faces@[s]@[j]);
                    }
                }
            }
            t += 1;
        }
        proof {
            assert(corners(faces@).take(3 * t) =~= corners(faces@));
        }
        TriangleMesh { points, triangles }
    }
}

/// Taking a corner in keeps every point at its place.
proof fn lemma_grows(before: Seq<Corner>, after: Seq<Corner>, corner: Corner)
    requires
        after == if before.contains(corner) {
            before
        } else {
            before.push(corner)
        },
    ensures
        before.len() <= after.len(),
        forall|i: int| 0 <= i < before.len() ==> after[i] == before[i],
{
}

} // verus!
