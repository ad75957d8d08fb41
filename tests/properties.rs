use qevy::geom::Vec3;
use qevy::props::Properties;
use qevy::text::{chars_of, parse_number, split_spaces};

fn props(pairs: &[(&str, &str)]) -> Properties {
    Properties::new(pairs.iter().map(|(k, v)| (k.to_string(), v.to_string())).collect())
}

#[test]
fn short_vector_falls_back_to_default() {
    let p = props(&[("origin", "1 2")]);
    let d = Vec3::new(7, 8, 9);
    assert_eq!(p.get_property_as_vec3("origin", d), d);
}

#[test]
fn three_numbers_make_a_vector() {
    let p = props(&[("origin", "1 -2 3.5")]);
    assert_eq!(p.get_property_as_vec3("origin", Vec3::zero()), Vec3::new(1000, -2000, 3500));
}

#[test]
fn malformed_vector_piece_falls_back() {
    let p = props(&[("origin", "1 x 3")]);
    assert_eq!(p.get_property_as_vec3("origin", Vec3::zero()), Vec3::zero());
    let q = props(&[("origin", "1 2 3 4")]);
    assert_eq!(q.get_property_as_vec3("origin", Vec3::zero()), Vec3::zero());
}

#[test]
fn numbers_are_read_in_thousandths() {
    assert_eq!(parse_number(&chars_of("1.5")), Some(1500));
    assert_eq!(parse_number(&chars_of("-2")), Some(-2000));
    assert_eq!(parse_number(&chars_of("0.0625")), Some(62));
    assert_eq!(parse_number(&chars_of("7.")), Some(7000));
    assert_eq!(parse_number(&chars_of("")), None);
    assert_eq!(parse_number(&chars_of(".5")), None);
    assert_eq!(parse_number(&chars_of("1.2.3")), None);
    assert_eq!(parse_number(&chars_of("abc")), None);
    assert_eq!(parse_number(&chars_of("1234567890123")), None);
}

#[test]
fn number_property_with_default() {
    let p = props(&[("intensity", "300"), ("range", "far")]);
    assert_eq!(p.get_property_as_number("intensity", 1), 300_000);
    assert_eq!(p.get_property_as_number("range", 10_000), 10_000);
    assert_eq!(p.get_property_as_number("radius", 0), 0);
}

#[test]
fn bool_property_values() {
    let p = props(&[("a", "1"), ("b", "true"), ("c", "yes"), ("d", "0")]);
    assert!(p.get_property_as_bool("a", false));
    assert!(p.get_property_as_bool("b", false));
    assert!(!p.get_property_as_bool("c", true));
    assert!(!p.get_property_as_bool("d", true));
    assert!(p.get_property_as_bool("missing", true));
}

#[test]
fn last_repeated_key_wins() {
    let p = props(&[("classname", "light"), ("classname", "mover")]);
    assert_eq!(p.get_property_as_string("classname", ""), "mover");
    assert_eq!(p.get_property_as_string("target", "none"), "none");
    assert_eq!(p.get_property_as_string_opt("target"), None);
}

#[test]
fn split_keeps_empty_pieces() {
    let parts = split_spaces(&chars_of("1  2"));
    assert_eq!(parts.len(), 3);
    assert!(parts[1].is_empty());
}
