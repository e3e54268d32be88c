use std::cell::Cell;
use threed2vox::config::{Config, MeshFormat, OutputFormat};
use threed2vox::error::ConversionError;
use threed2vox::sampling::{collide_run, do_collision_seq, grid_size, merge, partition, Run, RUN_LENGTH};
use threed2vox::{encode_cells, to_schematic};

fn settings(nbtify: OutputFormat) -> Config {
    Config {
        data_version: 2566,
        input_path: "cube.stl".to_string(),
        filename: "cube".to_string(),
        block: "stone".to_string(),
        threads: 2,
        nbtify,
        reader: MeshFormat::Stl,
    }
}

fn shell(x: i32, y: i32, z: i32) -> Option<bool> {
    Some((x * x + y * y + z * z) % 7 < 3)
}

fn run_by_run<F: Fn(i32, i32, i32) -> Option<bool>>(
    xyz: (i32, i32, i32),
    probe: &F,
) -> Result<Vec<(i32, i32, i32)>, ConversionError> {
    let mut parts = Vec::new();
    for run in partition(xyz) {
        parts.push(collide_run(run, probe)?);
    }
    Ok(merge(&parts))
}

#[test]
fn sequential_pass_lists_contacts_in_order() {
    let cells = do_collision_seq((2, 2, 3), &|x, y, z| Some((x + y + z) % 2 == 1)).unwrap();
    assert_eq!(cells, vec![(0, 0, 1), (0, 1, 0), (0, 1, 2), (1, 0, 0), (1, 0, 2), (1, 1, 1)]);
}

#[test]
fn sequential_pass_asks_every_cell_once() {
    let asked = Cell::new(0usize);
    let cells = do_collision_seq((3, 4, 5), &|_, _, _| {
        asked.set(asked.get() + 1);
        Some(false)
    })
    .unwrap();
    assert!(cells.is_empty());
    assert_eq!(asked.get(), 60);
}

#[test]
fn empty_boxes_have_no_cells() {
    for xyz in [(0, 3, 3), (3, 0, 3), (3, 3, 0), (-1, 3, 3), (3, -2, 3), (3, 3, -3)] {
        assert_eq!(do_collision_seq(xyz, &|_, _, _| Some(true)), Ok(vec![]));
        assert!(partition(xyz).is_empty());
        assert_eq!(run_by_run(xyz, &|_, _, _| Some(true)), Ok(vec![]));
    }
}

#[test]
fn probe_failure_ends_the_pass() {
    let asked = Cell::new(0usize);
    let outcome = do_collision_seq((2, 2, 2), &|x, y, z| {
        asked.set(asked.get() + 1);
        if (x, y, z) == (0, 1, 1) {
            None
        } else {
            Some(true)
        }
    });
    assert_eq!(outcome, Err(ConversionError::ContactTest));
    assert_eq!(asked.get(), 4);
    let by_runs = run_by_run((2, 2, 2), &|x, y, z| if (x, y, z) == (1, 1, 0) { None } else { Some(true) });
    assert_eq!(by_runs, Err(ConversionError::ContactTest));
}

#[test]
fn partition_cuts_lines_into_runs_of_a_hundred() {
    assert_eq!(RUN_LENGTH, 100);
    let runs = partition((2, 1, 250));
    let seen: Vec<(i32, i32, i32, i32)> = runs.iter().map(|r| (r.x, r.y, r.lo, r.hi)).collect();
    assert_eq!(
        seen,
        vec![(0, 0, 0, 100), (0, 0, 100, 200), (0, 0, 200, 250), (1, 0, 0, 100), (1, 0, 100, 200), (1, 0, 200, 250)]
    );
    let exact: Vec<(i32, i32)> = partition((1, 1, 200)).iter().map(|r| (r.lo, r.hi)).collect();
    assert_eq!(exact, vec![(0, 100), (100, 200)]);
    let short: Vec<(i32, i32)> = partition((1, 1, 7)).iter().map(|r| (r.lo, r.hi)).collect();
    assert_eq!(short, vec![(0, 7)]);
}

#[test]
fn partition_owns_every_cell_exactly_once() {
    let xyz = (3, 2, 205);
    let runs = partition(xyz);
    assert_eq!(runs.len(), 3 * 2 * 3);
    for x in 0..xyz.0 {
        for y in 0..xyz.1 {
            for z in 0..xyz.2 {
                let owners = runs.iter().filter(|r| r.x == x && r.y == y && r.lo <= z && z < r.hi).count();
                assert_eq!(owners, 1);
            }
        }
    }
    let total: i64 = runs.iter().map(|r| (r.hi - r.lo) as i64).sum();
    assert_eq!(total, 3 * 2 * 205);
}

#[test]
fn one_run_lists_its_contacts() {
    let run = Run { x: 4, y: 9, lo: 100, hi: 110 };
    let cells = collide_run(run, &|x, y, z| Some(x == 4 && y == 9 && z % 4 == 0)).unwrap();
    assert_eq!(cells, vec![(4, 9, 100), (4, 9, 104), (4, 9, 108)]);
    let empty = Run { x: 0, y: 0, lo: 5, hi: 5 };
    assert_eq!(collide_run(empty, &|_, _, _| Some(true)), Ok(vec![]));
    let failing = collide_run(run, &|_, _, z| if z == 103 { None } else { Some(true) });
    assert_eq!(failing, Err(ConversionError::ContactTest));
}

#[test]
fn merge_joins_parts_in_order() {
    assert_eq!(merge(&vec![]), vec![]);
    let parts = vec![vec![(0, 0, 1), (0, 0, 2)], vec![], vec![(0, 1, 0)], vec![(1, 0, 0), (1, 0, 5)]];
    assert_eq!(merge(&parts), vec![(0, 0, 1), (0, 0, 2), (0, 1, 0), (1, 0, 0), (1, 0, 5)]);
}

#[test]
fn run_by_run_finds_what_the_sequential_pass_finds() {
    for xyz in [(1, 1, 1), (3, 4, 5), (2, 3, 150), (1, 2, 301), (4, 1, 100)] {
        let sequential = do_collision_seq(xyz, &shell).unwrap();
        let parallel = run_by_run(xyz, &shell).unwrap();
        assert_eq!(sequential, parallel);
        let mut backwards = Vec::new();
        for run in partition(xyz).into_iter().rev() {
            backwards.push(collide_run(run, &shell).unwrap());
        }
        let mut unordered = merge(&backwards);
        unordered.sort();
        let mut sorted = sequential.clone();
        sorted.sort();
        assert_eq!(unordered, sorted);
    }
}

#[test]
fn grid_size_adds_the_margin_cell() {
    assert_eq!(grid_size((10, 4, 2)), Ok((11, 5, 3)));
    assert_eq!(grid_size((0, 0, 0)), Ok((1, 1, 1)));
    assert_eq!(grid_size((i32::MAX - 1, 0, 0)), Ok((i32::MAX, 1, 1)));
    assert_eq!(grid_size((i32::MAX, 0, 0)), Err(ConversionError::Config));
    assert_eq!(grid_size((0, -1, 0)), Err(ConversionError::Config));
    assert_eq!(grid_size((0, 0, i32::MIN)), Err(ConversionError::Config));
}

#[test]
fn pipeline_encodes_the_cells_in_contact() {
    let config = settings(OutputFormat::Structure);
    let blob = to_schematic(&config, (2, 2, 2), &|x, y, z| Some(x == y && z == 1)).unwrap();
    let direct = encode_cells(&config, (2, 2, 2), &vec![(0, 0, 1), (1, 1, 1)]).unwrap();
    assert_eq!(blob, direct);
    match blob.get("blocks") {
        Some(nbt::Value::List(entries)) => assert_eq!(entries.len(), 2),
        other => panic!("unexpected blocks: {:?}", other),
    }
    assert_eq!(
        encode_cells(&config, (2, 2, 2), &vec![(1, 1, 1), (0, 0, 1), (1, 1, 1)]).unwrap(),
        direct
    );
}

#[test]
fn pipeline_passes_failures_on() {
    let config = settings(OutputFormat::Schematic);
    assert_eq!(to_schematic(&config, (2, 2, 2), &|_, _, _| None), Err(ConversionError::ContactTest));
    assert_eq!(to_schematic(&config, (-1, 2, 2), &|_, _, _| Some(true)), Err(ConversionError::Config));
    assert_eq!(encode_cells(&config, (2, -2, 2), &vec![]), Err(ConversionError::Config));
    assert!(to_schematic(&config, (0, 0, 0), &|_, _, _| None).is_ok());
}
