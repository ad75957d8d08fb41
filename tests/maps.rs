use qevy::brush::{BuildError, Face, TextureInfo};
use qevy::entity::{build_map, entity_record, resolve_all, MapEntity};
use qevy::geom::Vec3;
use qevy::material::{material_params, uses_nearest_filter, FoundMaps};
use qevy::props::Properties;
use qevy::texture::{is_foliage, is_masked, is_non_rendering};

fn props(pairs: &[(&str, &str)]) -> Properties {
    Properties::new(pairs.iter().map(|(k, v)| (k.to_string(), v.to_string())).collect())
}

fn face(texture: &str) -> Face {
    Face {
        texture: texture.to_string(),
        vertices: vec![Vec3::new(0, 0, 0), Vec3::new(1000, 0, 0), Vec3::new(0, 1000, 0)],
        normals: vec![Vec3::new(0, 0, 1000); 3],
        uvs: vec![(0, 0); 3],
        indices: Some(vec![0, 1, 2]),
    }
}

#[test]
fn point_entity_record() {
    let p = props(&[("classname", "info"), ("origin", "16 32 -8"), ("targetname", "spot")]);
    let r = entity_record(&p, false);
    assert_eq!(r.classname, "info");
    assert_eq!(r.origin, Vec3::new(16_000, 32_000, -8_000));
    assert_eq!(r.angles, Vec3::zero());
    assert_eq!(r.target_name.as_deref(), Some("spot"));
    let bad = entity_record(&props(&[("origin", "16 32")]), false);
    assert_eq!(bad.origin, Vec3::zero());
    assert_eq!(bad.classname, "");
    assert!(bad.target_name.is_none());
}

#[test]
fn brush_entity_has_no_transform() {
    let r = entity_record(&props(&[("classname", "func_door"), ("origin", "1 2 3")]), true);
    assert_eq!(r.origin, Vec3::zero());
    assert!(r.brush_entity);
}

#[test]
fn map_build_walks_all_brushes() {
    let reg = vec![TextureInfo { name: "stone".to_string(), material: 3, size: (8, 8) }];
    let es = vec![
        MapEntity { properties: props(&[("classname", "light")]), brushes: None },
        MapEntity {
            properties: props(&[("classname", "worldspawn")]),
            brushes: Some(vec![vec![face("stone")], vec![face("trigger"), face("stone")]]),
        },
    ];
    let m = build_map(&es, &reg).unwrap();
    assert_eq!(m.entities.len(), 2);
    assert_eq!(m.brushes.len(), 2);
    assert_eq!((m.brushes[1].entity, m.brushes[1].brush), (1, 1));
    assert_eq!(m.brushes[1].build.points.len(), 6);
    assert_eq!(m.brushes[1].build.fragments.len(), 1);
    let behaviors = resolve_all(&es);
    assert_eq!(behaviors.len(), 2);
}

#[test]
fn map_build_fails_on_trigger_without_target() {
    let es = vec![MapEntity {
        properties: props(&[("classname", "trigger_once")]),
        brushes: Some(vec![vec![face("trigger")]]),
    }];
    assert_eq!(build_map(&es, &vec![]).unwrap_err(), BuildError::MissingTarget);
    let empty = vec![MapEntity { properties: props(&[("classname", "trigger_once")]), brushes: Some(vec![]) }];
    assert!(build_map(&empty, &vec![]).is_ok());
}

#[test]
fn texture_name_conventions() {
    assert!(is_non_rendering("trigger"));
    assert!(is_non_rendering("common/clip"));
    assert!(!is_non_rendering("triggers"));
    assert!(is_foliage("leaves-f"));
    assert!(is_foliage("a-fern"));
    assert!(!is_foliage("leaves"));
    assert!(is_masked("fence-m"));
    assert!(is_masked("leaves-f"));
    assert!(!is_masked("a-fern"));
}

#[test]
fn material_parameters() {
    let none = FoundMaps {
        metallic_roughness: false,
        normal_map: false,
        depth_map: false,
        occlusion: false,
        emissive: false,
        specular_transmission: false,
        diffuse_transmission: false,
    };
    let plain = material_params("stone", none);
    assert_eq!(plain.perceptual_roughness, 550);
    assert_eq!(plain.metallic, 0);
    assert_eq!(plain.alpha_cutoff, None);
    assert_eq!(plain.diffuse_transmission, 0);
    let leaves = material_params("leaves-f", none);
    assert_eq!(leaves.alpha_cutoff, Some(500));
    assert_eq!(leaves.diffuse_transmission, 500);
    let all = FoundMaps { metallic_roughness: true, emissive: true, specular_transmission: true, ..none };
    let rich = material_params("metal", all);
    assert_eq!((rich.perceptual_roughness, rich.metallic, rich.reflectance), (1000, 1000, 500));
    assert_eq!((rich.specular_transmission, rich.thickness), (1000, 100));
    assert_eq!(rich.emissive, 30_000);
}

#[test]
fn nearest_filter_files() {
    assert!(uses_nearest_filter("textures/fence-m.png"));
    assert!(uses_nearest_filter("textures/stone.normal_map.png"));
    assert!(!uses_nearest_filter("textures/stone.png"));
}
