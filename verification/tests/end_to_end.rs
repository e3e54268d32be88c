use parry3d::na::{Isometry3, Point3, Translation3, Vector3};
use parry3d::query::{ContactManifold, DefaultQueryDispatcher, PersistentQueryDispatcher};
use parry3d::shape::{Cuboid, TriMesh};
use threed2vox::config::{Config, MeshFormat, OutputFormat};
use threed2vox::sampling::{collide_run, do_collision_seq, grid_size, merge, partition};
use threed2vox::to_schematic;

fn settings() -> Config {
    Config {
        data_version: 2566,
        input_path: "square.obj".to_string(),
        filename: "square".to_string(),
        block: "minecraft:stone".to_string(),
        threads: 1,
        nbtify: OutputFormat::Structure,
        reader: MeshFormat::Obj,
    }
}

fn unit_square() -> TriMesh {
    let vertices = vec![
        Point3::new(0.0, 0.0, 0.0),
        Point3::new(1.0, 0.0, 0.0),
        Point3::new(1.0, 1.0, 0.0),
        Point3::new(0.0, 1.0, 0.0),
    ];
    TriMesh::new(vertices, vec![[0, 1, 2], [0, 2, 3]])
}

fn overlap(lo: f32, hi: f32, from: f32, to: f32) -> bool {
    lo <= to && from <= hi
}

#[test]
fn unit_square_marks_the_cubes_that_touch_it() {
    let mesh = unit_square();
    let edge = 1.0f32;
    let mut pose = Isometry3::rotation(Vector3::new(0.0, 0.0, 0.0));
    let mins = mesh.aabb(&pose).mins;
    pose.translation = Translation3::new(-mins.x, -mins.y, -mins.z);
    let extents = mesh.aabb(&pose).extents();
    let spans = (
        (extents.x / edge).ceil() as i32,
        (extents.y / edge).ceil() as i32,
        (extents.z / edge).ceil() as i32,
    );
    let xyz = grid_size(spans).unwrap();
    assert_eq!(xyz, (2, 2, 1));

    let half = edge / 2.0;
    let voxel = Cuboid::new(Vector3::new(half, half, half));
    let probe = |x: i32, y: i32, z: i32| -> Option<bool> {
        let place = Isometry3::translation(
            (x as f32) * edge - half,
            (y as f32) * edge - half,
            (z as f32) * edge - half,
        );
        let pos12 = place.inv_mul(&pose);
        let mut manifolds: Vec<ContactManifold<(), ()>> = Vec::new();
        let mut workspace = None;
        DefaultQueryDispatcher
            .contact_manifolds(&pos12, &voxel, &mesh, 0.0, &mut manifolds, &mut workspace)
            .ok()
            .map(|_| !manifolds.is_empty())
    };

    let cells = do_collision_seq(xyz, &probe).unwrap();
    let mut touching = Vec::new();
    for x in 0..xyz.0 {
        for y in 0..xyz.1 {
            for z in 0..xyz.2 {
                let (cx, cy, cz) = (x as f32 * edge - half, y as f32 * edge - half, z as f32 * edge - half);
                if overlap(cx - half, cx + half, 0.0, 1.0)
                    && overlap(cy - half, cy + half, 0.0, 1.0)
                    && overlap(cz - half, cz + half, 0.0, 0.0)
                {
                    touching.push((x, y, z));
                }
            }
        }
    }
    assert_eq!(cells, touching);
    assert_eq!(cells, vec![(0, 0, 0), (0, 1, 0), (1, 0, 0), (1, 1, 0)]);

    let mut parts = Vec::new();
    for run in partition(xyz) {
        parts.push(collide_run(run, &probe).unwrap());
    }
    assert_eq!(merge(&parts), cells);

    let blob = to_schematic(&settings(), xyz, &probe).unwrap();
    match blob.get("blocks") {
        Some(nbt::Value::List(entries)) => assert_eq!(entries.len(), touching.len()),
        other => panic!("unexpected blocks: {:?}", other),
    }
}

#[test]
fn target_divisions_size_the_grid() {
    let vertices = vec![
        Point3::new(0.0, 0.0, 0.0),
        Point3::new(10.0, 0.0, 0.0),
        Point3::new(10.0, 4.0, 0.0),
        Point3::new(0.0, 4.0, 2.0),
    ];
    let mesh = TriMesh::new(vertices, vec![[0, 1, 2], [0, 2, 3]]);
    let pose = Isometry3::rotation(Vector3::new(0.0, 0.0, 0.0));
    let extents = mesh.aabb(&pose).extents();
    assert_eq!((extents.x, extents.y, extents.z), (10.0, 4.0, 2.0));
    for (divisions, expected) in [(10.0f32, (11, 5, 3)), (5.0, (6, 3, 2)), (1.0, (2, 2, 2)), (20.0, (21, 9, 5))] {
        let longest = extents.x.max(extents.y).max(extents.z);
        let edge = longest / divisions;
        assert_eq!(edge, 10.0 / divisions);
        let spans = (
            (extents.x / edge).ceil() as i32,
            (extents.y / edge).ceil() as i32,
            (extents.z / edge).ceil() as i32,
        );
        assert_eq!(grid_size(spans), Ok(expected));
    }
}
