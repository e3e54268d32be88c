//! The triangle mesh that the readers hand to the engine.

use vstd::prelude::*;

verus! {

/// A triangulated surface: points, and triangles whose three corners are
/// positions in the sequence of points. The kind of point is left open; it is
/// never looked into here.
pub struct TriangleMesh<P> {
    pub points: Vec<P>,
    pub triangles: Vec<[u32; 3]>,
}

impl<P> TriangleMesh<P> {
    /// Every corner of every triangle names a point of the mesh.
    pub open spec fn wf(&self) -> bool {
        forall|t: int, j: int|
            0 <= t < self.triangles@.len() && 0 <= j < 3 ==> (#[trigger] self.triangles@[t]@[j])
                < self.points@.len()
    }

    /// Whether every corner of every triangle names a point of the mesh.
    pub fn is_valid(&self) -> (valid: bool)
        ensures
            valid == self.wf(),
    {
        let count = self.points.len();
        let mut t: usize = 0;
        while t < self.triangles.len()
            invariant
                t <= self.triangles.len(),
                count == self.points@.len(),
                forall|s: int, j: int|
                    0 <= s < t && 0 <= j < 3 ==> (#[trigger] self.triangles@[s]@[j]) < count,
            decreases self.triangles.len() - t,
        {
            let corners = &self.triangles[t];
            let mut j: usize = 0;
            while j < 3
                invariant
                    t < self.triangles.len(),
                    count == self.points@.len(),
                    corners == &self.triangles@[t as int],
                    j <= 3,
                    forall|i: int| 0 <= i < j ==> (#[trigger] self.triangles@[t as int]@[i]) < count,
                decreases 3 - j,
            {
                if corners[j] as usize >= count {
                    proof {
                        assert(!(self.triangles@[t as int]@[j as int] < self.points@.len()));
                    }
                    return false;
                }
                j += 1;
            }
            t += 1;
        }
        true
    }
}

} // verus!
