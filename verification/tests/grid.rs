use threed2vox::voxel_grid::VoxelGrid;

#[test]
fn fresh_grid_reads_empty_everywhere() {
    let grid = VoxelGrid::new(3, 2, 4);
    assert_eq!(grid.dimensions(), (3, 2, 4));
    for x in 0..3 {
        for y in 0..2 {
            for z in 0..4 {
                assert!(!*grid.get(x, y, z));
            }
        }
    }
}

#[test]
fn set_then_get_returns_what_was_set() {
    let mut grid = VoxelGrid::new(3, 2, 4);
    for x in 0..3 {
        for y in 0..2 {
            for z in 0..4 {
                grid.set(x, y, z, true);
                assert!(*grid.get(x, y, z));
                grid.set(x, y, z, false);
                assert!(!*grid.get(x, y, z));
                grid.set(x, y, z, (x + y + z) % 2 == 0);
            }
        }
    }
    for x in 0..3 {
        for y in 0..2 {
            for z in 0..4 {
                assert_eq!(*grid.get(x, y, z), (x + y + z) % 2 == 0);
            }
        }
    }
}

#[test]
fn set_leaves_other_cells_alone() {
    let mut grid = VoxelGrid::new(2, 2, 2);
    grid.set(1, 0, 1, true);
    assert!(*grid.get(1, 0, 1));
    assert!(!*grid.get(0, 1, 1));
    assert!(!*grid.get(1, 1, 0));
    assert!(!*grid.get(0, 0, 0));
    assert_eq!(grid.dimensions(), (2, 2, 2));
}

#[test]
fn cells_far_apart_do_not_collide() {
    let big = i32::MAX;
    let mut grid = VoxelGrid::new(big, big, big);
    grid.set(big - 1, 0, 0, true);
    grid.set(0, big - 1, 0, true);
    grid.set(0, 0, big - 1, true);
    assert!(*grid.get(big - 1, 0, 0));
    assert!(*grid.get(0, big - 1, 0));
    assert!(*grid.get(0, 0, big - 1));
    assert!(!*grid.get(big - 1, big - 1, big - 1));
    assert!(!*grid.get(1, 0, 0));
    assert!(!*grid.get(0, 1, 0));
    assert!(!*grid.get(0, 0, 1));
}

#[test]
fn fill_marks_exactly_the_listed_cells() {
    let mut grid = VoxelGrid::new(3, 3, 3);
    grid.set(0, 0, 0, true);
    grid.fill(&vec![(1, 1, 1), (2, 0, 1), (1, 1, 1)]);
    let mut count = 0;
    for x in 0..3 {
        for y in 0..3 {
            for z in 0..3 {
                let expected = (x, y, z) == (0, 0, 0) || (x, y, z) == (1, 1, 1) || (x, y, z) == (2, 0, 1);
                assert_eq!(*grid.get(x, y, z), expected);
                if *grid.get(x, y, z) {
                    count += 1;
                }
            }
        }
    }
    assert_eq!(count, 3);
}

#[test]
fn grid_keeps_degenerate_dimensions() {
    assert_eq!(VoxelGrid::new(0, 0, 0).dimensions(), (0, 0, 0));
    assert_eq!(VoxelGrid::new(-1, 5, 2).dimensions(), (-1, 5, 2));
}
