use qevy::behavior::{resolve_behavior, Behavior, MoverState};
use qevy::geom::Vec3;
use qevy::props::Properties;

fn props(pairs: &[(&str, &str)]) -> Properties {
    Properties::new(pairs.iter().map(|(k, v)| (k.to_string(), v.to_string())).collect())
}

#[test]
fn mover_defaults() {
    match resolve_behavior(&props(&[("classname", "mover")])) {
        Behavior::Mover { mover, door } => {
            assert_eq!(mover.moving_time, 1000);
            assert_eq!(mover.destination_time, 2000);
            assert_eq!(mover.destination_offset, Vec3::zero());
            assert_eq!(mover.state, MoverState::IdleAtOrigin);
            assert!(door.is_none());
        }
        other => panic!("unexpected {:?}", other),
    }
}

#[test]
fn door_detected_only_for_door_kind() {
    let door = resolve_behavior(&props(&[("classname", "mover"), ("mover_kind", "door"), ("key", "red")]));
    match door {
        Behavior::Mover { door: Some(d), .. } => {
            assert_eq!(d.key.as_deref(), Some("red"));
            assert!(!d.open_once);
        }
        other => panic!("unexpected {:?}", other),
    }
    let keyless = resolve_behavior(&props(&[("classname", "mover"), ("mover_kind", "door"), ("open_once", "1")]));
    match keyless {
        Behavior::Mover { door: Some(d), .. } => {
            assert!(d.key.is_none());
            assert!(d.open_once);
        }
        other => panic!("unexpected {:?}", other),
    }
    let slider = resolve_behavior(&props(&[("classname", "mover"), ("mover_kind", "platform")]));
    assert!(matches!(slider, Behavior::Mover { door: None, .. }));
}

#[test]
fn mover_reads_its_properties() {
    let p = props(&[("classname", "mover"), ("moving_time", "0.5"), ("destination_offset", "0 0 64")]);
    match resolve_behavior(&p) {
        Behavior::Mover { mover, .. } => {
            assert_eq!(mover.moving_time, 500);
            assert_eq!(mover.destination_time, 2000);
            assert_eq!(mover.destination_offset, Vec3::new(0, 0, 64_000));
        }
        other => panic!("unexpected {:?}", other),
    }
}

#[test]
fn light_defaults() {
    match resolve_behavior(&props(&[("classname", "light")])) {
        Behavior::PointLight(l) => {
            assert_eq!(l.color, Vec3::new(1000, 1000, 1000));
            assert_eq!(l.radius, 0);
            assert_eq!(l.range, 10_000);
            assert_eq!(l.intensity, 800_000);
            assert!(!l.shadows);
        }
        other => panic!("unexpected {:?}", other),
    }
}

#[test]
fn directional_light_reads_illuminance() {
    let p = props(&[("classname", "directional_light"), ("illuminance", "500"), ("shadows_enabled", "true")]);
    match resolve_behavior(&p) {
        Behavior::DirectionalLight(l) => {
            assert_eq!(l.illuminance, 500_000);
            assert!(l.shadows);
            assert_eq!(l.color, Vec3::new(1000, 1000, 1000));
        }
        other => panic!("unexpected {:?}", other),
    }
}

#[test]
fn other_classnames_are_inert() {
    assert!(matches!(resolve_behavior(&props(&[("classname", "info_player_start")])), Behavior::Inert));
    assert!(matches!(resolve_behavior(&props(&[])), Behavior::Inert));
}

#[test]
fn mover_cycle() {
    let s = MoverState::IdleAtOrigin;
    let s = s.on_trigger();
    assert_eq!(s, MoverState::MovingToDestination);
    assert_eq!(s.on_trigger(), MoverState::MovingToDestination);
    let s = s.on_phase_end(false);
    assert_eq!(s, MoverState::IdleAtDestination);
    assert_eq!(s.on_phase_end(true), MoverState::IdleAtDestination);
    let s = s.on_phase_end(false);
    assert_eq!(s, MoverState::MovingToOrigin);
    assert_eq!(s.on_phase_end(false), MoverState::IdleAtOrigin);
    assert_eq!(MoverState::IdleAtDestination.on_trigger(), MoverState::MovingToOrigin);
}

#[test]
fn phase_lengths() {
    let m = match resolve_behavior(&props(&[("classname", "mover")])) {
        Behavior::Mover { mover, .. } => mover,
        other => panic!("unexpected {:?}", other),
    };
    assert_eq!(m.phase_length(false), None);
    let moving = qevy::behavior::Mover { state: MoverState::MovingToOrigin, ..m };
    assert_eq!(moving.phase_length(false), Some(1000));
    let resting = qevy::behavior::Mover { state: MoverState::IdleAtDestination, ..moving };
    assert_eq!(resting.phase_length(false), Some(2000));
    assert_eq!(resting.phase_length(true), None);
}
