//! A sparse boolean occupancy grid over a fixed box of integer coordinates.

use std::collections::HashMap;
use vstd::prelude::*;

verus! {

broadcast use vstd::std_specs::hash::group_hash_axioms;

/// A cell coordinate as the contracts see it.
pub type Cell = (int, int, int);

/// Whether `(x, y, z)` lies inside the box `[0, dims.0) x [0, dims.1) x [0, dims.2)`.
pub open spec fn in_range(dims: (i32, i32, i32), x: int, y: int, z: int) -> bool {
    0 <= x < dims.0 && 0 <= y < dims.1 && 0 <= z < dims.2
}

/// A cell given by machine integers, as the contracts see it.
pub open spec fn cell_of(c: (i32, i32, i32)) -> Cell {
    (c.0 as int, c.1 as int, c.2 as int)
}

/// The cells that occur in `cells`.
pub open spec fn cell_set(cells: Seq<(i32, i32, i32)>) -> Set<Cell> {
    Set::new(|c: Cell| exists|n: int| 0 <= n < cells.len() && cell_of(#[trigger] cells[n]) == c)
}

/// The storage key of a cell: the three coordinates laid side by side, 32 bits each.
spec fn key_of(x: int, y: int, z: int) -> int {
    x * 0x1_0000_0000_0000_0000 + y * 0x1_0000_0000 + z
}

/// Sparse voxel grid.
///
/// Only cells that were written are stored; every other cell reads as empty.
/// The view of a grid is the set of its occupied cells, all of which lie inside
/// `dimensions`.
pub struct VoxelGrid {
    dimensions: (i32, i32, i32),
    map: HashMap<u128, bool>,
}

impl View for VoxelGrid {
    type V = Set<Cell>;

    closed spec fn view(&self) -> Set<Cell> {
        Set::new(
            |c: Cell|
                in_range(self.dimensions, c.0, c.1, c.2) && self.map@.contains_key(
                    key_of(c.0, c.1, c.2) as u128,
                ) && self.map@[key_of(c.0, c.1, c.2) as u128],
        )
    }
}

impl VoxelGrid {
    /// The dimensions the grid was made with.
    pub closed spec fn dims(&self) -> (i32, i32, i32) {
        self.dimensions
    }

    /// An empty grid of the given dimensions.
    pub fn new(x: i32, y: i32, z: i32) -> (grid: Self)
        ensures
            grid.dims() == (x, y, z),
            grid@ == Set::<Cell>::empty(),
            forall|i: int, j: int, k: int| !grid@.contains((i, j, k)),
    {
        let grid = Self { dimensions: (x, y, z), map: HashMap::new() };
        assert(grid@ =~= Set::<Cell>::empty());
        grid
    }

    fn key(x: i32, y: i32, z: i32) -> (k: u128)
        requires
            0 <= x,
            0 <= y,
            0 <= z,
        ensures
            k == key_of(x as int, y as int, z as int),
    {
        (x as u128) * 0x1_0000_0000_0000_0000u128 + (y as u128) * 0x1_0000_0000u128 + (z as u128)
    }

    /// The dimensions the grid was made with, as `(x, y, z)`.
    pub fn dimensions(&self) -> (d: (i32, i32, i32))
        ensures
            d == self.dims(),
    {
        self.dimensions
    }

    /// Whether the cell `(x, y, z)` is occupied.
    pub fn get(&self, x: i32, y: i32, z: i32) -> (occupied: &bool)
        requires
            in_range(self.dims(), x as int, y as int, z as int),
        ensures
            *occupied == self@.contains((x as int, y as int, z as int)),
    {
        let k = Self::key(x, y, z);
        match self.map.get(&k) {
            Some(b) => b,
            None => &false,
        }
    }

    /// Records `is_set` for the cell `(x, y, z)`, replacing what was recorded before.
    pub fn set(&mut self, x: i32, y: i32, z: i32, is_set: bool)
        requires
            in_range(old(self).dims(), x as int, y as int, z as int),
        ensures
            final(self).dims() == old(self).dims(),
            final(self)@.contains((x as int, y as int, z as int)) == is_set,
            final(self)@ == if is_set {
                old(self)@.insert((x as int, y as int, z as int))
            } else {
                old(self)@.remove((x as int, y as int, z as int))
            },
    {
        let k = Self::key(x, y, z);
        self.map.insert(k, is_set);
        proof {
            let c0 = (x as int, y as int, z as int);
            assert forall|c: Cell| in_range(self.dimensions, c.0, c.1, c.2) && c != c0 implies key_of(
                c.0,
                c.1,
                c.2,
            ) as u128 != k by {}
            if is_set {
                assert(self@ =~= old(self)@.insert(c0));
            } else {
                assert(self@ =~= old(self)@.remove(c0));
            }
        }
    }

    /// Marks every cell of `cells` as occupied.
    pub fn fill(&mut self, cells: &Vec<(i32, i32, i32)>)
        requires
            forall|n: int|
                0 <= n < cells.len() ==> in_range(
                    old(self).dims(),
                    (#[trigger] cells[n]).0 as int,
                    cells[n].1 as int,
                    cells[n].2 as int,
                ),
        ensures
            final(self).dims() == old(self).dims(),
            final(self)@ == old(self)@.union(cell_set(cells@)),
    {
        let mut n: usize = 0;
        proof {
            assert(self@ =~= old(self)@.union(cell_set(cells@.take(0))));
        }
        while n < cells.len()
            invariant
                n <= cells.len(),
                self.dims() == old(self).dims(),
                forall|n: int|
                    0 <= n < cells.len() ==> in_range(
                        old(self).dims(),
                        (#[trigger] cells[n]).0 as int,
                        cells[n].1 as int,
                        cells[n].2 as int,
                    ),
                self@ == old(self)@.union(cell_set(cells@.take(n as int))),
            decreases cells.len() - n,
        {
            let (x, y, z) = cells[n];
            let ghost sooner = cells@.take(n as int);
            let ghost later = cells@.take(n + 1);
            self.set(x, y, z, true);
            proof {
                assert forall|c: Cell| cell_set(later).contains(c) <==> cell_set(sooner).contains(c)
                    || c == cell_of(cells@[n as int]) by {
                    if cell_set(later).contains(c) {
                        let m = choose|m: int| 0 <= m < later.len() && cell_of(#[trigger] later[m]) == c;
                        if m < n {
                            assert(cell_of(sooner[m]) == c);
                        }
                    }
                    if cell_set(sooner).contains(c) {
                        let m = choose|m: int|
                            0 <= m < sooner.len() && cell_of(#[trigger] sooner[m]) == c;
                        assert(cell_of(later[m]) == c);
                    }
                    if c == cell_of(cells@[n as int]) {
                        assert(cell_of(later[n as int]) == c);
                    }
                }
                assert(self@ =~= old(self)@.union(cell_set(later)));
            }
            n += 1;
        }
        proof {
            assert(cells@.take(n as int) =~= cells@);
        }
    }

    /// Every occupied cell lies inside the dimensions.
    pub proof fn lemma_occupied_in_range(&self)
        ensures
            forall|c: Cell| self@.contains(c) ==> in_range(self.dims(), c.0, c.1, c.2),
    {
    }
}

} // verus!
