use crop_hypr::error::AppError;
use crop_hypr::geometry::{clamp_crop, parse_slurp_geometry, ScreenRect};

fn check_parse_slurp_geometry() {
    // Standard geometry
    let (x, y, w, h) = parse_slurp_geometry("10,20 100x200").unwrap();
    assert_eq!(x, 10);
    assert_eq!(y, 20);
    assert_eq!(w, 100);
    assert_eq!(h, 200);

    // Negative coordinates
    let (x, y, w, h) = parse_slurp_geometry("-1920,0 1920x1080").unwrap();
    assert_eq!(x, -1920);
    assert_eq!(y, 0);
    assert_eq!(w, 1920);
    assert_eq!(h, 1080);

    // Extra whitespace (surrounding)
    let (x, y, w, h) = parse_slurp_geometry("  10,20 100x200  ").unwrap();
    assert_eq!(x, 10);
    assert_eq!(y, 20);
    assert_eq!(w, 100);
    assert_eq!(h, 200);

    // Invalid string (completely unparsable)
    assert!(parse_slurp_geometry("invalid").is_err());

    // Invalid string (missing size)
    assert!(parse_slurp_geometry("10,20 100").is_err());

    // Invalid string (extra commas)
    assert!(parse_slurp_geometry("10,20, 100x200").is_err());

    // Invalid string (missing coordinate)
    assert!(parse_slurp_geometry("10 100x200").is_err());

    // Invalid string (non-numeric parts)
    assert!(parse_slurp_geometry("a,b cxd").is_err());
}

fn check_clamp_crop() {
    // No clamping needed
    let (w, h, clamped) = clamp_crop(0, 0, 100, 100, 200, 200);
    assert_eq!(w, 100);
    assert_eq!(h, 100);
    assert!(!clamped);

    // Clamping width
    let (w, h, clamped) = clamp_crop(150, 0, 100, 100, 200, 200);
    assert_eq!(w, 50);
    assert_eq!(h, 100);
    assert!(clamped);

    // Clamping height
    let (w, h, clamped) = clamp_crop(0, 150, 100, 100, 200, 200);
    assert_eq!(w, 100);
    assert_eq!(h, 50);
    assert!(clamped);

    // Out of bounds entirely
    let (w, h, clamped) = clamp_crop(250, 250, 100, 100, 200, 200);
    assert_eq!(w, 0);
    assert_eq!(h, 0);
    assert!(clamped);

    // Exact boundary (touching right edge)
    let (w, h, clamped) = clamp_crop(100, 0, 100, 100, 200, 200);
    assert_eq!(w, 100);
    assert_eq!(h, 100);
    assert!(!clamped);

    // Overlapping boundary (starts inside, exceeds right edge)
    let (w, h, clamped) = clamp_crop(150, 0, 100, 100, 200, 200);
    assert_eq!(w, 50);
    assert_eq!(h, 100);
    assert!(clamped);
}

#[test]
fn capture_test_parse_slurp_geometry() {
    check_parse_slurp_geometry();
}

#[test]
fn geometry_test_parse_slurp_geometry() {
    check_parse_slurp_geometry();
}

#[test]
fn capture_test_clamp_crop() {
    check_clamp_crop();
}

#[test]
fn geometry_test_clamp_crop() {
    check_clamp_crop();
}

fn other_message(e: AppError) -> String {
    match e {
        AppError::Other(m) => m,
        _ => panic!("expected AppError::Other"),
    }
}

#[test]
fn geometry_error_messages_name_the_part() {
    assert_eq!(
        other_message(parse_slurp_geometry("invalid").unwrap_err()),
        "Invalid geometry string: missing space"
    );
    assert_eq!(
        other_message(parse_slurp_geometry("10 100x200").unwrap_err()),
        "Invalid geometry string: missing comma in position"
    );
    assert_eq!(
        other_message(parse_slurp_geometry("10,20 100").unwrap_err()),
        "Invalid geometry string: missing 'x' in size"
    );
    assert_eq!(
        other_message(parse_slurp_geometry("10,20, 100x200").unwrap_err()),
        "Invalid y in geometry: '20,'"
    );
    assert_eq!(
        other_message(parse_slurp_geometry("a,b cxd").unwrap_err()),
        "Invalid x in geometry: 'a'"
    );
    assert_eq!(
        other_message(parse_slurp_geometry("1,2 -3x4").unwrap_err()),
        "Invalid w in geometry: '-3'"
    );
    assert_eq!(
        other_message(parse_slurp_geometry("1,2 3x4x5").unwrap_err()),
        "Invalid h in geometry: '4x5'"
    );
}

#[test]
fn geometry_number_edges() {
    assert_eq!(
        parse_slurp_geometry("-2147483648,+2147483647 +4294967295x0").unwrap(),
        (i32::MIN, i32::MAX, u32::MAX, 0)
    );
    assert!(parse_slurp_geometry("2147483648,0 1x1").is_err());
    assert!(parse_slurp_geometry("0,0 4294967296x1").is_err());
    assert!(parse_slurp_geometry("+,0 1x1").is_err());
    assert!(parse_slurp_geometry("0,0 1x").is_err());
    // White space around every part is ignored, including tabs and other Unicode spaces.
    assert_eq!(parse_slurp_geometry("\u{3000}5,6 7x 8\t").unwrap(), (5, 6, 7, 8));
}

#[test]
fn expand_grows_each_side() {
    let r = ScreenRect { x: 10, y: 20, w: 100, h: 50 };
    let e = r.expand(3);
    assert_eq!((e.x, e.y, e.w, e.h), (7, 17, 106, 56));
    let same = r.expand(0);
    assert_eq!((same.x, same.y, same.w, same.h), (10, 20, 100, 50));
}

#[test]
fn printed_geometry_parses_back() {
    for (x, y, w, h) in [
        (0, 0, 0, 0),
        (i32::MIN, i32::MAX, u32::MAX, 1),
        (-1920, 37, 1920, 1080),
        (5, -5, 7, 9),
    ] {
        let text = format!("{},{} {}x{}", x, y, w, h);
        assert_eq!(parse_slurp_geometry(&text).unwrap(), (x, y, w, h));
    }
}

#[test]
fn clamped_crop_stays_inside() {
    for (x, y, w, h) in [(0u32, 0u32, 50u32, 50u32), (90, 95, 50, 50), (200, 0, 5, 5), (10, 10, 0, 0)] {
        let (cw, ch, clamped) = clamp_crop(x, y, w, h, 100, 100);
        assert!(cw <= w && ch <= h);
        if cw > 0 {
            assert!(x + cw <= 100);
        }
        if ch > 0 {
            assert!(y + ch <= 100);
        }
        assert_eq!(clamped, cw != w || ch != h);
    }
}
