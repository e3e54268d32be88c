//! Turns triangle meshes into voxel occupancy grids and encodes the grids as
//! tagged binary trees for block-world editors.
//!
//! The geometry itself (posing the mesh, sizing the grid, testing a cube
//! against the surface) works on floating-point numbers and is left to the
//! caller, who hands in the grid dimensions and a probe that answers, for one
//! cell at a time, whether the cell touches the surface.

use crate::config::Config;
use crate::error::ConversionError;
use crate::nbt_helper::{blob_content, blob_title};
use crate::nbtifier::{dims_valid, NBTIfy};
use crate::sampling::{do_collision_seq, probe_failed, probe_ready, sampled};
use crate::voxel_grid::{cell_set, in_range, VoxelGrid};
use nbt::Blob;
use vstd::prelude::*;

pub mod config;
pub mod error;
pub mod mesh;
pub mod nbt_helper;
pub mod nbtifier;
pub mod readers;
pub mod sampling;
pub mod scan;
pub mod voxel_grid;

verus! {

/// Builds the grid of dimensions `xyz` whose occupied cells are `cells` and
/// encodes it in the output format of `config`.
///
/// Fails with `ConversionError::Config` exactly when a dimension is negative.
pub fn encode_cells(config: &Config, xyz: (i32, i32, i32), cells: &Vec<(i32, i32, i32)>) -> (outcome:
    Result<Blob, ConversionError>)
    requires
        forall|n: int|
            0 <= n < cells.len() ==> in_range(
                xyz,
                (#[trigger] cells[n]).0 as int,
                cells[n].1 as int,
                cells[n].2 as int,
            ),
    ensures
        outcome is Ok <==> dims_valid(xyz),
        outcome matches Err(e) ==> e == ConversionError::Config,
        outcome matches Ok(blob) ==> blob_title(blob) == Seq::<char>::empty() && exists|
            grid: VoxelGrid,
            timestamp: i64,
        |
            grid.dims() == xyz && grid@ == cell_set(cells@) && blob_content(blob)
                == config.nbtify.fields(&grid, config, timestamp),
{
    let mut grid = VoxelGrid::new(xyz.0, xyz.1, xyz.2);
    grid.fill(cells);
    proof {
        assert(grid@ =~= cell_set(cells@));
    }
    config.nbtify.convert(&grid, config)
}

/// Steps through the box `xyz` cell by cell, asks `probe` whether the cell
/// touches the surface, and encodes the cells in contact in the output format
/// of `config`.
///
/// A failure of the probe gives `ConversionError::ContactTest`; a negative
/// dimension gives `ConversionError::Config`. Nothing else fails.
pub fn to_schematic<F: Fn(i32, i32, i32) -> Option<bool>>(
    config: &Config,
    xyz: (i32, i32, i32),
    probe: &F,
) -> (outcome: Result<Blob, ConversionError>)
    requires
        probe_ready(*probe, xyz),
    ensures
        match outcome {
            Ok(blob) => dims_valid(xyz) && blob_title(blob) == Seq::<char>::empty() && exists|
                cells: Seq<(i32, i32, i32)>,
                grid: VoxelGrid,
                timestamp: i64,
            |
                sampled(*probe, xyz, cells) && grid.dims() == xyz && grid@ == cell_set(cells)
                    && blob_content(blob) == config.nbtify.fields(&grid, config, timestamp),
            Err(e) => if e == ConversionError::ContactTest {
                probe_failed(*probe, xyz)
            } else {
                e == ConversionError::Config && !dims_valid(xyz)
            },
        },
{
    let cells = match do_collision_seq(xyz, probe) {
        Ok(cells) => cells,
        Err(e) => {
            return Err(e);
        },
    };
    encode_cells(config, xyz, &cells)
}

} // verus!
