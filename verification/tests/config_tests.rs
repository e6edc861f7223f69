use rustlock::config::{
    clamp_auth_timeout, clamp_max_dots, parse_blur_effect, parse_hex_color, parse_u32, RingShape,
    MIN_AUTH_TIMEOUT_MS,
};

#[test]
fn test_auth_timeout_min_clamp() {
    assert_eq!(clamp_auth_timeout(0), 100);
}

#[test]
fn test_max_dots_min_clamp() {
    assert_eq!(clamp_max_dots(0), 1);
}

#[test]
fn config_clamps_keep_larger_values() {
    assert_eq!(MIN_AUTH_TIMEOUT_MS, 100);
    assert_eq!(clamp_auth_timeout(99), 100);
    assert_eq!(clamp_auth_timeout(10_000), 10_000);
    assert_eq!(clamp_max_dots(24), 24);
}

#[test]
fn ring_shape_names_round_trip() {
    for shape in [RingShape::Circle, RingShape::Square, RingShape::Diamond, RingShape::Hexagon, RingShape::Pill] {
        assert_eq!(RingShape::parse(shape.name()), Ok(shape));
        assert_eq!(shape.name().parse::<RingShape>(), Ok(shape));
    }
    assert_eq!(RingShape::default(), RingShape::Circle);
    assert_eq!(RingShape::Hexagon.name(), "hexagon");
}

#[test]
fn ring_shape_unknown_is_refused() {
    assert_eq!(
        RingShape::parse("oval"),
        Err("Unknown ring shape 'oval'. Options: circle, square, diamond, hexagon, pill".to_string())
    );
    assert!(RingShape::parse("Circle").is_err());
    assert!(RingShape::parse("").is_err());
}

#[test]
fn hex_colours_parse() {
    assert_eq!(parse_hex_color("785412"), Ok((0x78, 0x54, 0x12, 255)));
    assert_eq!(parse_hex_color("#785412"), Ok((0x78, 0x54, 0x12, 255)));
    assert_eq!(parse_hex_color("00000088"), Ok((0, 0, 0, 0x88)));
    assert_eq!(parse_hex_color("#4eAC41ff"), Ok((0x4e, 0xac, 0x41, 0xff)));
}

#[test]
fn hex_colours_refused() {
    assert_eq!(
        parse_hex_color("12345"),
        Err("Invalid color '12345': expected RRGGBB or RRGGBBAA".to_string())
    );
    assert!(parse_hex_color("##785412").is_err());
    assert!(parse_hex_color("78541g").is_err());
    assert!(parse_hex_color("").is_err());
}

#[test]
fn blur_effect_parses() {
    assert_eq!(parse_blur_effect("7x5"), Ok((7, 5)));
    assert_eq!(parse_blur_effect("10x1"), Ok((10, 1)));
    assert_eq!(
        parse_blur_effect("7"),
        Err("Invalid blur '7': expected <radius>x<passes>".to_string())
    );
    assert!(parse_blur_effect("x5").is_err());
    assert!(parse_blur_effect("7x").is_err());
    assert!(parse_blur_effect("7x5x1").is_err());
}

#[test]
fn decimal_numbers_parse() {
    assert_eq!(parse_u32("0"), Some(0));
    assert_eq!(parse_u32("4294967295"), Some(u32::MAX));
    assert_eq!(parse_u32("4294967296"), None);
    assert_eq!(parse_u32(""), None);
    assert_eq!(parse_u32("-1"), None);
}
