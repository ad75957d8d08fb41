use qevy::batch::{bucket_index, consolidate, Batch, SpawnRequest};
use qevy::geom::Vec3;
use qevy::mesh::Mesh;

fn point_mesh(p: Vec3) -> Mesh {
    Mesh { positions: vec![p], normals: vec![Vec3::up()], uvs: vec![(0, 0)], indices: vec![] }
}

fn request(brush: u64, material: u64, origin: Vec3, center: Vec3, texture: &str) -> SpawnRequest {
    SpawnRequest {
        map: 1,
        brush,
        collider: Some(100 + brush),
        material,
        texture: texture.to_string(),
        size: (16, 16),
        origin,
        mesh: point_mesh(center),
    }
}

fn summary(bs: &[Batch]) -> Vec<(u64, u64, (i64, i64, i64), usize, usize)> {
    bs.iter()
        .map(|b| (b.brush, b.material, b.bucket, b.mesh.positions.len(), b.markers.len()))
        .collect()
}

#[test]
fn nearby_fragments_merge_and_far_ones_do_not() {
    let z = Vec3::zero();
    let reqs = vec![
        request(1, 7, z, Vec3::new(10_000, 10_000, 10_000), "a"),
        request(1, 7, z, Vec3::new(40_000, 10_000, 10_000), "b"),
        request(1, 7, z, Vec3::new(60_000, 10_000, 10_000), "c"),
    ];
    let out = consolidate(&reqs);
    assert_eq!(out.len(), 2);
    assert_eq!(out[0].bucket, (0, 0, 0));
    assert_eq!(out[0].mesh.positions.len(), 2);
    assert_eq!(out[0].markers.len(), 2);
    assert_eq!(out[0].markers[1].texture, "b");
    assert_eq!(out[0].texture, "a");
    assert_eq!(out[1].bucket, (1, 0, 0));
    assert_eq!(out[1].mesh.positions.len(), 1);
}

#[test]
fn different_material_or_brush_never_merge() {
    let z = Vec3::zero();
    let c = Vec3::new(10_000, 10_000, 10_000);
    let reqs = vec![request(1, 7, z, c, "a"), request(1, 8, z, c, "b"), request(2, 7, z, c, "c")];
    assert_eq!(consolidate(&reqs).len(), 3);
}

#[test]
fn merged_vertices_move_into_first_frame() {
    let reqs = vec![
        request(1, 7, Vec3::new(1000, 0, 0), Vec3::zero(), "a"),
        request(1, 7, Vec3::new(3000, 0, 0), Vec3::zero(), "a"),
    ];
    let out = consolidate(&reqs);
    assert_eq!(out.len(), 1);
    assert_eq!(out[0].origin, Vec3::new(1000, 0, 0));
    assert_eq!(out[0].mesh.positions[1], Vec3::new(2000, 0, 0));
    assert_eq!(out[0].parent, 101);
}

#[test]
fn negative_positions_round_down() {
    assert_eq!(bucket_index(Vec3::zero(), &vec![Vec3::new(-1, 0, 49_999)]), (-1, 0, 0));
    assert_eq!(bucket_index(Vec3::new(-50_000, 0, 0), &vec![]), (-1, 0, 0));
    let box_points = vec![Vec3::new(40_000, 0, 0), Vec3::new(70_000, 0, 0)];
    assert_eq!(bucket_index(Vec3::zero(), &box_points), (1, 0, 0));
}

#[test]
fn rebuilding_gives_same_batches() {
    let z = Vec3::zero();
    let make = || {
        vec![
            request(1, 7, z, Vec3::new(10_000, 0, 0), "a"),
            request(2, 7, z, Vec3::new(90_000, 0, 0), "b"),
            request(1, 7, z, Vec3::new(20_000, 0, 0), "c"),
        ]
    };
    let first = consolidate(&make());
    let second = consolidate(&make());
    assert_eq!(summary(&first), summary(&second));
    assert_eq!(summary(&first), vec![(1, 7, (0, 0, 0), 2, 2), (2, 7, (1, 0, 0), 1, 1)]);
}

#[test]
fn marker_parent_falls_back_to_map() {
    let mut r = request(1, 7, Vec3::zero(), Vec3::zero(), "a");
    r.collider = None;
    let out = consolidate(&vec![r]);
    assert_eq!(out[0].parent, 1);
    assert_eq!(out[0].markers[0].parent, 1);
}
