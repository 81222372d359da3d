use crop_hypr::colors::{format_hex_color, parse_hex_color, Rgba8};

fn approx_eq(a: f32, b: f32) -> bool {
    (a - b).abs() < 1.0 / 255.0
}

/// A channel read as a fraction of 255, as the overlay uses it.
fn ch(c: &Rgba8, i: usize) -> f32 {
    c.0[i] as f32 / 255.0
}

fn rrggbbaa() {
    let c = parse_hex_color("#4585FF8C").unwrap();
    assert!(approx_eq(ch(&c, 0), 0x45 as f32 / 255.0));
    assert!(approx_eq(ch(&c, 1), 0x85 as f32 / 255.0));
    assert!(approx_eq(ch(&c, 2), 0xFF as f32 / 255.0));
    assert!(approx_eq(ch(&c, 3), 0x8C as f32 / 255.0));
}

fn rrggbb_alpha_is_ff() {
    let c = parse_hex_color("#4585FF").unwrap();
    assert!(approx_eq(ch(&c, 2), 1.0));
    assert!(approx_eq(ch(&c, 3), 1.0), "alpha should be FF = 1.0");
}

fn rgb_shorthand() {
    let c = parse_hex_color("#F80").unwrap();
    assert!(approx_eq(ch(&c, 0), 0xFF as f32 / 255.0));
    assert!(approx_eq(ch(&c, 1), 0x88 as f32 / 255.0));
    assert!(approx_eq(ch(&c, 2), 0x00 as f32 / 255.0));
    assert!(approx_eq(ch(&c, 3), 1.0));
}

fn rgba_shorthand() {
    let c = parse_hex_color("#F80A").unwrap();
    assert!(approx_eq(ch(&c, 0), 0xFF as f32 / 255.0));
    assert!(approx_eq(ch(&c, 1), 0x88 as f32 / 255.0));
    assert!(approx_eq(ch(&c, 2), 0x00 as f32 / 255.0));
    assert!(approx_eq(ch(&c, 3), 0xAA as f32 / 255.0));
}

fn lowercase() {
    let upper = parse_hex_color("#4585ff8c").unwrap();
    let lower = parse_hex_color("#4585FF8C").unwrap();
    assert_eq!(upper, lower);
}

fn missing_hash_is_error() {
    assert!(parse_hex_color("4585FF8C").is_err());
}

fn invalid_digit_is_error() {
    assert!(parse_hex_color("#GGGGGGGG").is_err());
}

fn wrong_length_is_error() {
    assert!(parse_hex_color("#12345").is_err()); // 5 digits
    assert!(parse_hex_color("#1234567").is_err()); // 7 digits
}

fn serialize_round_trip() {
    let original = Rgba8([0x45, 0x85, 0xFF, 0x8C]);
    let s = format_hex_color(original);
    assert!(s.contains('#'), "serialized form should contain '#': {s}");
    let back = parse_hex_color(&s).unwrap();
    assert_eq!(original, back);
}

#[test]
fn config_test_rgba_rrggbbaa() {
    rrggbbaa();
}
#[test]
fn colors_test_rgba_rrggbbaa() {
    rrggbbaa();
}
#[test]
fn mod_test_rgba_rrggbbaa() {
    rrggbbaa();
}
#[test]
fn config_test_rgba_rrggbb_alpha_is_ff() {
    rrggbb_alpha_is_ff();
}
#[test]
fn colors_test_rgba_rrggbb_alpha_is_ff() {
    rrggbb_alpha_is_ff();
}
#[test]
fn mod_test_rgba_rrggbb_alpha_is_ff() {
    rrggbb_alpha_is_ff();
}
#[test]
fn config_test_rgba_rgb_shorthand() {
    rgb_shorthand();
}
#[test]
fn colors_test_rgba_rgb_shorthand() {
    rgb_shorthand();
}
#[test]
fn mod_test_rgba_rgb_shorthand() {
    rgb_shorthand();
}
#[test]
fn config_test_rgba_rgba_shorthand() {
    rgba_shorthand();
}
#[test]
fn colors_test_rgba_rgba_shorthand() {
    rgba_shorthand();
}
#[test]
fn mod_test_rgba_rgba_shorthand() {
    rgba_shorthand();
}
#[test]
fn config_test_rgba_lowercase() {
    lowercase();
}
#[test]
fn colors_test_rgba_lowercase() {
    lowercase();
}
#[test]
fn mod_test_rgba_lowercase() {
    lowercase();
}
#[test]
fn config_test_rgba_missing_hash_is_error() {
    missing_hash_is_error();
}
#[test]
fn colors_test_rgba_missing_hash_is_error() {
    missing_hash_is_error();
}
#[test]
fn mod_test_rgba_missing_hash_is_error() {
    missing_hash_is_error();
}
#[test]
fn config_test_rgba_invalid_digit_is_error() {
    invalid_digit_is_error();
}
#[test]
fn colors_test_rgba_invalid_digit_is_error() {
    invalid_digit_is_error();
}
#[test]
fn mod_test_rgba_invalid_digit_is_error() {
    invalid_digit_is_error();
}
#[test]
fn config_test_rgba_wrong_length_is_error() {
    wrong_length_is_error();
}
#[test]
fn colors_test_rgba_wrong_length_is_error() {
    wrong_length_is_error();
}
#[test]
fn mod_test_rgba_wrong_length_is_error() {
    wrong_length_is_error();
}
#[test]
fn config_test_rgba_serialize_round_trip() {
    serialize_round_trip();
}
#[test]
fn colors_test_rgba_serialize_round_trip() {
    serialize_round_trip();
}
#[test]
fn mod_test_rgba_serialize_round_trip() {
    serialize_round_trip();
}

#[test]
fn hex_color_exact_values_and_messages() {
    assert_eq!(parse_hex_color("  #F80  ").unwrap(), Rgba8([0xFF, 0x88, 0x00, 0xFF]));
    assert_eq!(parse_hex_color("#0a1B2c").unwrap(), Rgba8([0x0A, 0x1B, 0x2C, 0xFF]));
    assert_eq!(
        parse_hex_color("4585FF8C").unwrap_err(),
        "color must start with '#', got \"4585FF8C\""
    );
    assert_eq!(
        parse_hex_color("#12G4").unwrap_err(),
        "invalid hex digit 'G' in \"#12G4\""
    );
    assert_eq!(
        parse_hex_color("#12345").unwrap_err(),
        "expected #RGB, #RGBA, #RRGGBB, or #RRGGBBAA, got \"#12345\""
    );
    assert!(parse_hex_color("").is_err());
    assert!(parse_hex_color("#").is_err());
}

#[test]
fn hex_color_format_is_upper_case() {
    assert_eq!(format_hex_color(Rgba8([0x0a, 0xbc, 0xde, 0xf0])), "#0ABCDEF0");
    assert_eq!(format_hex_color(Rgba8([0, 0, 0, 0])), "#00000000");
    for v in [0u8, 1, 9, 10, 15, 16, 127, 128, 254, 255] {
        let c = Rgba8([v, 255 - v, v / 2, v ^ 0x5a]);
        assert_eq!(parse_hex_color(&format_hex_color(c)).unwrap(), c);
    }
}

#[test]
fn hex_color_parsing_ignores_case() {
    for s in ["#4585ff8c", "#abc", "#aBcD", "#FfEeDd", "#12g4", "abc"] {
        let lower = parse_hex_color(&s.to_ascii_lowercase());
        let upper = parse_hex_color(&s.to_ascii_uppercase());
        let same = parse_hex_color(s);
        assert_eq!(lower.is_ok(), same.is_ok());
        assert_eq!(upper.is_ok(), same.is_ok());
        if let Ok(c) = same {
            assert_eq!(lower.unwrap(), c);
            assert_eq!(upper.unwrap(), c);
        }
    }
}
