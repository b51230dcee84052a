use ho_gui::color::Color;
use ho_gui::color::ColorParseError;
use ho_gui::fbits::clamp01_bits;
use ho_gui::fbits::le_bits;
use ho_gui::fbits::lt_bits;
use ho_gui::math::edges_contain_point;
use ho_gui::math::edges_intersect;
use ho_gui::quantize::byte_to_channel;
use ho_gui::quantize::channel_to_byte;
use ho_gui::style::Border;
use ho_gui::style::Padding;

#[test]
fn test_byte_channel_round_trip_exhaustive() {
    // Every byte survives the trip through the scalar form, and the
    // scalar is within half a byte step of the exact ratio.
    for v in 0..=255u8 {
        let c = byte_to_channel(v);
        assert_eq!(channel_to_byte(c), v, "byte {} did not round-trip", v);
        let exact = v as f32 / 255.0;
        assert!(
            (f32::from_bits(c) - exact).abs() < 0.5 / 255.0,
            "byte {} scaled too far from its ratio",
            v
        );
    }
}

#[test]
fn test_channel_quantization_bound_sweep() {
    // A trip through the byte form moves any unit scalar by less than
    // one part in two hundred fifty-five.
    for i in 0..=1000u32 {
        let x = i as f32 / 1000.0;
        let b = channel_to_byte(x.to_bits());
        let back = byte_to_channel(b);
        assert!(
            (f32::from_bits(back) - x).abs() < 1.0 / 255.0,
            "quantization moved {} too far",
            x
        );
    }
}

#[test]
fn test_channel_endpoints() {
    assert_eq!(byte_to_channel(0), 0.0f32.to_bits());
    assert_eq!(byte_to_channel(255), 1.0f32.to_bits());
    assert_eq!(byte_to_channel(1), (1.0f32 / 255.0).to_bits());
    assert_eq!(channel_to_byte(0.0f32.to_bits()), 0);
    assert_eq!(channel_to_byte(1.0f32.to_bits()), 255);
    assert_eq!(channel_to_byte(f32::NAN.to_bits()), 0);
    assert_eq!(channel_to_byte((-0.3f32).to_bits()), 0);
    assert_eq!(channel_to_byte((-0.0f32).to_bits()), 0);
    assert_eq!(channel_to_byte(f32::INFINITY.to_bits()), 255);
    assert_eq!(channel_to_byte(2.5f32.to_bits()), 255);
}

#[test]
fn test_clamp_matches_reference_semantics() {
    // The verified clamp agrees with the clamp written over native
    // floating point on a sweep of values.
    let reference = |x: f32| -> f32 {
        if x.is_nan() || x < 0.0 {
            0.0
        } else if x > 1.0 {
            1.0
        } else {
            x
        }
    };
    let samples = [
        f32::NEG_INFINITY,
        -2.0,
        -f32::MIN_POSITIVE,
        -0.0,
        0.0,
        f32::MIN_POSITIVE,
        0.25,
        0.9999999,
        1.0,
        1.0000001,
        7.5,
        f32::INFINITY,
        f32::NAN,
    ];
    for &x in &samples {
        let got = f32::from_bits(clamp01_bits(x.to_bits()));
        let want = reference(x);
        assert!(got == want, "clamp differs at {}: got {}, want {}", x, got, want);
    }
}

#[test]
fn test_order_matches_native_comparisons() {
    // The verified comparisons agree with the native floating-point
    // order on all pairs from a sample, NaN included.
    let samples = [
        f32::NEG_INFINITY,
        -3.5,
        -0.0,
        0.0,
        1.0e-10,
        0.5,
        1.0,
        42.0,
        f32::INFINITY,
        f32::NAN,
    ];
    for &x in &samples {
        for &y in &samples {
            assert_eq!(le_bits(x.to_bits(), y.to_bits()), x <= y, "le differs at {} {}", x, y);
            assert_eq!(lt_bits(x.to_bits(), y.to_bits()), x < y, "lt differs at {} {}", x, y);
        }
    }
}

#[test]
fn test_from_hex_saturates_to_white() {
    assert_eq!(Color::from_hex(0xFF_FF_FF), Color::white());
    assert_eq!(Color::from_hex(0x01_3F_FF_00), Color::white());
    assert_eq!(Color::from_hex(0xFFFF_FFFF), Color::white());
}

#[test]
fn test_named_colors_byte_form() {
    assert_eq!(Color::white().to_rgba_u8(), (255, 255, 255, 255));
    assert_eq!(Color::black().to_rgba_u8(), (0, 0, 0, 255));
    assert_eq!(Color::red().to_rgba_u8(), (255, 0, 0, 255));
    assert_eq!(Color::green().to_rgba_u8(), (0, 255, 0, 255));
    assert_eq!(Color::blue().to_rgba_u8(), (0, 0, 255, 255));
    assert_eq!(Color::yellow().to_rgba_u8(), (255, 255, 0, 255));
    assert_eq!(Color::cyan().to_rgba_u8(), (0, 255, 255, 255));
    assert_eq!(Color::magenta().to_rgba_u8(), (255, 0, 255, 255));
    assert_eq!(Color::transparent().to_rgba_u8(), (0, 0, 0, 0));
}

#[test]
fn test_parse_error_messages() {
    assert_eq!(
        ColorParseError::InvalidLength.message(),
        "Invalid hex string length (expected 7 or 9 characters)"
    );
    assert_eq!(
        ColorParseError::InvalidFormat.message(),
        "Invalid hex string format (must start with '#')"
    );
    assert_eq!(
        ColorParseError::InvalidCharacter.message(),
        "Invalid hex character (only 0-9, A-F, a-f allowed)"
    );
}

#[test]
fn test_parse_check_order() {
    // Format is checked before characters, characters before length.
    assert!(matches!(
        Color::from_hex_str("3F_00_FF_"),
        Err(ColorParseError::InvalidFormat)
    ));
    assert!(matches!(
        Color::from_hex_str("#xyz"),
        Err(ColorParseError::InvalidCharacter)
    ));
    assert!(matches!(Color::from_hex_str("#"), Err(ColorParseError::InvalidLength)));
    assert!(matches!(Color::from_hex_str("#FFFFF"), Err(ColorParseError::InvalidLength)));
    assert!(Color::from_hex_str("#ffffff").is_ok());
    assert!(Color::from_hex_str("#FFFFFF00").is_ok());
}

#[test]
fn test_contains_point_edge_values() {
    // The closed rectangle from the origin with width and height ten
    // contains the point on its right edge.
    let ten = 10.0f32.to_bits();
    let five = 5.0f32.to_bits();
    let zero = 0.0f32.to_bits();
    assert!(edges_contain_point(zero, zero, ten, ten, ten, five));
    assert!(!edges_contain_point(zero, zero, ten, ten, 10.5f32.to_bits(), five));
    assert!(!edges_contain_point(zero, zero, ten, ten, f32::NAN.to_bits(), five));
}

#[test]
fn test_intersects_touching_rectangles() {
    // Rectangles touching along an edge intersect.
    let zero = 0.0f32.to_bits();
    let ten = 10.0f32.to_bits();
    let two = 2.0f32.to_bits();
    let fifteen = 15.0f32.to_bits();
    let seven = 7.0f32.to_bits();
    assert!(edges_intersect(zero, zero, ten, ten, ten, two, fifteen, seven));
}

#[test]
fn test_padding_nan_inf_negative() {
    let pad = Padding::new(
        f32::NAN.to_bits(),
        f32::INFINITY.to_bits(),
        (-1.0f32).to_bits(),
        5.0f32.to_bits(),
    );
    assert_eq!(f32::from_bits(pad.left), 0.0);
    assert_eq!(f32::from_bits(pad.right), f32::INFINITY);
    assert_eq!(f32::from_bits(pad.top), 0.0);
    assert_eq!(f32::from_bits(pad.bottom), 5.0);
}

#[test]
fn test_border_none_is_zero_transparent() {
    let none = Border::none();
    let by_hand = Border::new(0.0f32.to_bits(), Color::transparent());
    assert_eq!(none, by_hand);
    assert_eq!(none.width, 0.0f32.to_bits());
    assert_eq!(none.color, Color::transparent());
}
