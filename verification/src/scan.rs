//! The order in which the encoders walk a grid: height (`y`) slowest, then
//! length (`z`), and width (`x`) fastest.

use crate::voxel_grid::{in_range, Cell};
use vstd::arithmetic::div_mod::{
    lemma_fundamental_div_mod,
    lemma_fundamental_div_mod_converse,
    lemma_multiply_divide_lt,
};
use vstd::prelude::*;

verus! {

/// The number of cells of a grid: the product of its dimensions, or none when
/// a dimension is not positive.
pub open spec fn volume(dims: (i32, i32, i32)) -> nat {
    if dims.0 > 0 && dims.1 > 0 && dims.2 > 0 {
        (dims.0 * dims.1 * dims.2) as nat
    } else {
        0
    }
}

/// The place of the cell `c` in the walk.
pub open spec fn position(dims: (i32, i32, i32), c: Cell) -> int {
    (c.1 * dims.2 + c.2) * dims.0 + c.0
}

/// The cell at place `n` of the walk.
pub open spec fn cell_at(dims: (i32, i32, i32), n: int) -> Cell {
    (n % (dims.0 as int), (n / (dims.0 as int)) / (dims.2 as int), (n / (dims.0 as int)) % (
    dims.2 as int))
}

/// The occupied cells among the first `n` places of the walk, in walk order.
pub open spec fn occupied_prefix(occupied: Set<Cell>, dims: (i32, i32, i32), n: nat) -> Seq<Cell>
    decreases n,
{
    if n == 0 {
        Seq::empty()
    } else {
        let before = occupied_prefix(occupied, dims, (n - 1) as nat);
        let c = cell_at(dims, n - 1);
        if occupied.contains(c) {
            before.push(c)
        } else {
            before
        }
    }
}

/// All occupied cells of the grid, in walk order.
pub open spec fn occupied_cells(occupied: Set<Cell>, dims: (i32, i32, i32)) -> Seq<Cell> {
    occupied_prefix(occupied, dims, volume(dims))
}

/// A cell of the grid has a place below the volume, and that place leads back to the cell.
pub proof fn lemma_position_of_cell(dims: (i32, i32, i32), c: Cell)
    requires
        in_range(dims, c.0, c.1, c.2),
    ensures
        0 <= position(dims, c) < volume(dims),
        cell_at(dims, position(dims, c)) == c,
{
    let w = dims.0 as int;
    let h = dims.1 as int;
    let l = dims.2 as int;
    let row = c.1 * l + c.2;
    assert(0 <= row < h * l) by (nonlinear_arith)
        requires
            0 <= c.1 < h,
            0 <= c.2 < l,
            row == c.1 * l + c.2,
    ;
    assert(0 <= row * w + c.0 < w * h * l) by (nonlinear_arith)
        requires
            0 <= row < h * l,
            0 <= c.0 < w,
    ;
    lemma_fundamental_div_mod_converse(row * w + c.0, w, row, c.0);
    lemma_fundamental_div_mod_converse(row, l, c.1, c.2);
}

/// A place below the volume holds a cell of the grid, and that cell has this place.
pub proof fn lemma_cell_at_position(dims: (i32, i32, i32), n: int)
    requires
        0 <= n < volume(dims),
    ensures
        in_range(dims, cell_at(dims, n).0, cell_at(dims, n).1, cell_at(dims, n).2),
        position(dims, cell_at(dims, n)) == n,
{
    let w = dims.0 as int;
    let h = dims.1 as int;
    let l = dims.2 as int;
    let row = n / w;
    assert(w * h * l == w * (l * h)) by (nonlinear_arith);
    lemma_multiply_divide_lt(n, w, l * h);
    lemma_multiply_divide_lt(row, l, h);
    lemma_fundamental_div_mod(n, w);
    lemma_fundamental_div_mod(row, l);
    assert(0 <= row) by (nonlinear_arith)
        requires
            0 <= n,
            0 < w,
            row == n / w,
    ;
    assert(0 <= row / l) by (nonlinear_arith)
        requires
            0 <= row,
            0 < l,
    ;
    assert(w * row == row * w && l * (row / l) == (row / l) * l) by (nonlinear_arith);
}

/// The walk lists every occupied cell exactly once, so there are as many
/// listed cells as occupied ones.
pub proof fn lemma_occupied_cells(occupied: Set<Cell>, dims: (i32, i32, i32))
    requires
        forall|c: Cell| occupied.contains(c) ==> in_range(dims, c.0, c.1, c.2),
    ensures
        occupied.finite(),
        occupied_cells(occupied, dims).len() == occupied.len(),
        occupied_cells(occupied, dims).no_duplicates(),
        forall|c: Cell| occupied_cells(occupied, dims).contains(c) <==> occupied.contains(c),
{
    lemma_occupied_prefix(occupied, dims, volume(dims));
    let below = Set::new(|c: Cell| occupied.contains(c) && position(dims, c) < volume(dims));
    assert forall|c: Cell| occupied.contains(c) implies below.contains(c) by {
        lemma_position_of_cell(dims, c);
    }
    assert(below =~= occupied);
}

proof fn lemma_occupied_prefix(occupied: Set<Cell>, dims: (i32, i32, i32), n: nat)
    requires
        forall|c: Cell| occupied.contains(c) ==> in_range(dims, c.0, c.1, c.2),
        n <= volume(dims),
    ensures
        ({
            let listed = occupied_prefix(occupied, dims, n);
            let below = Set::new(|c: Cell| occupied.contains(c) && position(dims, c) < n);
            &&& below.finite()
            &&& listed.len() == below.len()
            &&& listed.no_duplicates()
            &&& forall|c: Cell| listed.contains(c) <==> below.contains(c)
        }),
    decreases n,
{
    let listed = occupied_prefix(occupied, dims, n);
    let below = Set::new(|c: Cell| occupied.contains(c) && position(dims, c) < n);
    if n == 0 {
        assert forall|c: Cell| !below.contains(c) by {
            if occupied.contains(c) {
                lemma_position_of_cell(dims, c);
            }
        }
        assert(below =~= Set::<Cell>::empty());
    } else {
        let m = (n - 1) as nat;
        lemma_occupied_prefix(occupied, dims, m);
        let before = occupied_prefix(occupied, dims, m);
        let below_m = Set::new(|c: Cell| occupied.contains(c) && position(dims, c) < m);
        let here = cell_at(dims, m as int);
        lemma_cell_at_position(dims, m as int);
        assert forall|c: Cell| occupied.contains(c) && position(dims, c) == m implies c == here by {
            lemma_position_of_cell(dims, c);
        }
        if occupied.contains(here) {
            assert(below =~= below_m.insert(here));
            assert(!below_m.contains(here));
            assert(!before.contains(here));
            assert forall|c: Cell| listed.contains(c) <==> below.contains(c) by {
                if listed.contains(c) {
                    let i = choose|i: int| 0 <= i < listed.len() && listed[i] == c;
                    if i < before.len() {
                        assert(before.contains(c));
                    }
                }
                if below.contains(c) {
                    if c == here {
                        assert(listed[listed.len() - 1] == here);
                    } else {
                        assert(before.contains(c));
                        let i = choose|i: int| 0 <= i < before.len() && before[i] == c;
                        assert(listed[i] == c);
                    }
                }
            }
            assert forall|i: int, j: int|
                0 <= i < listed.len() && 0 <= j < listed.len() && i != j implies listed[i]
                != listed[j] by {
                if i == before.len() {
                    assert(before.contains(listed[j]));
                } else if j == before.len() {
                    assert(before.contains(listed[i]));
                }
            }
        } else {
            assert(below =~= below_m);
        }
    }
}

} // verus!
