use qevy::brush::{build_brush, BuildError, Collision, Face, TextureInfo, TriggerKind};
use qevy::geom::Vec3;
use qevy::props::Properties;

fn props(pairs: &[(&str, &str)]) -> Properties {
    Properties::new(pairs.iter().map(|(k, v)| (k.to_string(), v.to_string())).collect())
}

fn tri(texture: &str, base: i64, normal: Vec3) -> Face {
    Face {
        texture: texture.to_string(),
        vertices: vec![Vec3::new(base, 0, 0), Vec3::new(base + 1000, 0, 0), Vec3::new(base, 1000, 0)],
        normals: vec![normal; 3],
        uvs: vec![(0, 0), (1000, 0), (0, 1000)],
        indices: Some(vec![0, 1, 2]),
    }
}

fn registry(names: &[&str]) -> Vec<TextureInfo> {
    names
        .iter()
        .enumerate()
        .map(|(i, n)| TextureInfo { name: n.to_string(), material: i as u64 + 1, size: (64, 32) })
        .collect()
}

#[test]
fn trigger_faces_collide_but_are_not_drawn() {
    let side = Vec3::new(1000, 0, 0);
    let faces = vec![tri("stone", 0, side), tri("trigger", 5000, side), tri("common/clip", 9000, side)];
    let reg = registry(&["stone", "trigger", "common/clip"]);
    let b = build_brush(&props(&[("classname", "func_wall")]), &faces, &reg).unwrap();
    assert_eq!(b.points.len(), 9);
    assert_eq!(b.points[3], Vec3::new(5000, 0, 0));
    assert_eq!(b.points[6], Vec3::new(9000, 0, 0));
    assert_eq!(b.fragments.len(), 1);
    assert_eq!(b.fragments[0].texture, "stone");
    assert!(matches!(b.collision, Collision::Solid));
}

#[test]
fn foliage_normals_point_up() {
    let side = Vec3::new(1000, 0, 0);
    let faces = vec![tri("bush-f", 0, side), tri("bush-f", 2000, Vec3::new(0, 0, -1000))];
    let reg = registry(&["bush-f"]);
    let b = build_brush(&props(&[]), &faces, &reg).unwrap();
    assert_eq!(b.fragments.len(), 1);
    let m = &b.fragments[0].mesh;
    assert_eq!(m.normals.len(), 6);
    assert!(m.normals.iter().all(|n| *n == Vec3::up()));
    assert!(matches!(b.collision, Collision::Disabled));
}

#[test]
fn same_texture_faces_merge_with_shifted_indices() {
    let side = Vec3::new(1000, 0, 0);
    let faces = vec![tri("stone", 0, side), tri("wood", 0, side), tri("stone", 3000, side)];
    let reg = registry(&["stone", "wood"]);
    let b = build_brush(&props(&[]), &faces, &reg).unwrap();
    assert_eq!(b.fragments.len(), 2);
    assert_eq!(b.fragments[0].texture, "stone");
    assert_eq!(b.fragments[0].mesh.indices, vec![0, 1, 2, 3, 4, 5]);
    assert_eq!(b.fragments[0].mesh.positions[3], Vec3::new(3000, 0, 0));
    assert_eq!(b.fragments[0].material, 1);
    assert_eq!(b.fragments[0].size, (64, 32));
    assert_eq!(b.fragments[1].texture, "wood");
    assert_eq!(b.fragments[1].material, 2);
}

#[test]
fn texture_without_material_is_not_drawn() {
    let side = Vec3::new(1000, 0, 0);
    let faces = vec![tri("stone", 0, side), tri("missing", 0, side)];
    let b = build_brush(&props(&[]), &faces, &registry(&["stone"])).unwrap();
    assert_eq!(b.fragments.len(), 1);
    assert_eq!(b.points.len(), 6);
}

#[test]
fn untriangulated_face_is_skipped() {
    let side = Vec3::new(1000, 0, 0);
    let mut loose = tri("stone", 7000, side);
    loose.indices = None;
    let faces = vec![tri("stone", 0, side), loose];
    let b = build_brush(&props(&[]), &faces, &registry(&["stone"])).unwrap();
    assert_eq!(b.points.len(), 3);
    assert_eq!(b.fragments[0].mesh.positions.len(), 3);
}

#[test]
fn trigger_brush_becomes_sensor() {
    let side = Vec3::new(1000, 0, 0);
    let faces = vec![tri("trigger", 0, side)];
    let p = props(&[("classname", "trigger_once"), ("target", "door1")]);
    let b = build_brush(&p, &faces, &registry(&[])).unwrap();
    match b.collision {
        Collision::Sensor { kind, target } => {
            assert_eq!(kind, TriggerKind::Once);
            assert_eq!(target, "door1");
        }
        _ => panic!("expected a sensor"),
    }
    assert!(b.fragments.is_empty());
}

#[test]
fn trigger_without_target_fails() {
    let side = Vec3::new(1000, 0, 0);
    let faces = vec![tri("trigger", 0, side)];
    let p = props(&[("classname", "trigger_multiple")]);
    assert_eq!(build_brush(&p, &faces, &registry(&[])).unwrap_err(), BuildError::MissingTarget);
}

#[test]
fn mixed_foliage_brush_stays_solid() {
    let side = Vec3::new(1000, 0, 0);
    let faces = vec![tri("bush-f", 0, side), tri("stone", 0, side)];
    let b = build_brush(&props(&[]), &faces, &registry(&["bush-f", "stone"])).unwrap();
    assert!(matches!(b.collision, Collision::Solid));
}
