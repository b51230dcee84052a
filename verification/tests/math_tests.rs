use ho_gui::math::Size;
use ho_gui::math::divisor_has_zero_component;
use ho_gui::math::edges_contain_point;
use ho_gui::math::edges_intersect;

const TEST_EPSILON: f32 = 1e-6;

fn close(bits: u32, expected: f32) -> bool {
    (f32::from_bits(bits) - expected).abs() <= TEST_EPSILON
}

/// The four derived edges of a rectangle given as position and extent.
fn edges(x: f32, y: f32, w: f32, h: f32) -> (u32, u32, u32, u32) {
    (x.to_bits(), y.to_bits(), (x + w).to_bits(), (y + h).to_bits())
}

fn rect_contains(rect: (f32, f32, f32, f32), px: f32, py: f32) -> bool {
    let (l, t, r, b) = edges(rect.0, rect.1, rect.2, rect.3);
    edges_contain_point(l, t, r, b, px.to_bits(), py.to_bits())
}

fn rect_intersects(ra: (f32, f32, f32, f32), rb: (f32, f32, f32, f32)) -> bool {
    let (la, ta, rra, ba) = edges(ra.0, ra.1, ra.2, ra.3);
    let (lb, tb, rrb, bb) = edges(rb.0, rb.1, rb.2, rb.3);
    edges_intersect(la, ta, rra, ba, lb, tb, rrb, bb)
}

#[test]
fn test_new_size() {
    let width = 1.3f32;
    let height = 3.5f32;

    let size = Size::new(width.to_bits(), height.to_bits());

    assert!(close(size.width, width));
    assert!(close(size.height, height));
}

#[test]
fn test_zero_size() {
    let zero_size = Size::zero();

    assert!(close(zero_size.width, 0.0));
    assert!(close(zero_size.height, 0.0));
}

#[test]
fn test_copy_size() {
    let size_1 = Size::new(1.6f32.to_bits(), 3.7f32.to_bits());
    let size_2 = size_1;

    assert_eq!(size_1.width, size_2.width);
    assert_eq!(size_1.height, size_2.height);
}

#[test]
fn test_clone_size() {
    let size_1 = Size::new((-1.5f32).to_bits(), 16.3f32.to_bits());
    let size_2 = size_1.clone();

    assert_eq!(size_1.width, size_2.width);
    assert_eq!(size_1.height, size_2.height);
}

#[test]
fn test_size_equality() {
    let size = Size::new(1.0f32.to_bits(), 1.0f32.to_bits());
    let size_same = Size::new(1.0f32.to_bits(), 1.0f32.to_bits());
    let size_different = Size::new(1.6f32.to_bits(), 2.3f32.to_bits());

    assert_eq!(size, size_same);
    assert_ne!(size, size_different);
}

#[test]
fn test_valid_size() {
    let width = 0.0f32;
    let height = 2.5f32;

    let valid_size = Size::new(width.to_bits(), height.to_bits());

    assert!(valid_size.is_valid());
}

#[test]
fn test_invalid_size() {
    let width = 0.0f32;
    let height = -1.2f32;

    let invalid_size = Size::new(width.to_bits(), height.to_bits());

    assert!(!invalid_size.is_valid());
}

#[test]
fn test_zero_size_validity() {
    let zero_size = Size::zero();

    assert!(zero_size.is_valid());
}

#[test]
fn test_positive_size_is_positive() {
    let positive_size = Size::new(1.65f32.to_bits(), 34.1f32.to_bits());

    assert!(positive_size.is_positive());
}

#[test]
fn test_zero_size_is_positive() {
    let zero_size = Size::zero();

    assert!(!zero_size.is_positive());
}

#[test]
fn test_nan_size_is_invalid() {
    let size = Size::new(f32::NAN.to_bits(), 2.0f32.to_bits());

    assert!(!size.is_valid());
    assert!(!size.is_positive());
}

#[test]
fn test_rect_not_contains_point_outside() {
    let rect = (0.0, 0.0, 10.3, 175.3);

    assert!(rect_contains(rect, -1.0, -2.3) == false);
}

#[test]
fn test_rect_contains_point_on_edge() {
    let rect = (0.0, 0.0, 10.3, 175.3);

    assert!(rect_contains(rect, 0.0, 50.3));
    assert!(rect_contains(rect, 10.3, 23.5));
    assert!(rect_contains(rect, 5.3, 0.0));
    assert!(rect_contains(rect, 4.1, 175.3));
}

#[test]
fn test_rect_contains_point_inside() {
    let rect = (0.0, 0.0, 10.3, 175.3);

    assert!(rect_contains(rect, 4.6, 36.3));
}

#[test]
fn test_rect_not_intersects() {
    let rect_1 = (0.0, 0.0, 10.0, 10.0);
    let rect_2 = (20.0, 20.0, 10.0, 10.0);

    assert!(rect_intersects(rect_1, rect_2) == false);
}

#[test]
fn test_rect_intersects_touched_rect() {
    let rect = (0.0, 0.0, 10.0, 10.0);

    assert!(rect_intersects(rect, (-5.0, 2.0, 5.0, 5.0)));
    assert!(rect_intersects(rect, (10.0, 2.0, 5.0, 5.0)));
    assert!(rect_intersects(rect, (2.0, -5.0, 5.0, 5.0)));
    assert!(rect_intersects(rect, (2.0, 10.0, 5.0, 5.0)));
}

#[test]
fn test_rect_intersects_crossed_rect() {
    let rect = (0.0, 0.0, 10.0, 10.0);

    assert!(rect_intersects(rect, (-5.0, 2.0, 8.0, 5.0)));
    assert!(rect_intersects(rect, (8.0, 2.0, 5.0, 5.0)));
    assert!(rect_intersects(rect, (2.0, -5.0, 5.0, 8.0)));
    assert!(rect_intersects(rect, (2.0, 8.0, 5.0, 5.0)));
}

#[test]
fn test_bigger_rect_intersects_smaller_rect() {
    let smaller_rect = (2.0, 2.0, 2.0, 2.0);
    let bigger_rect = (0.0, 0.0, 10.0, 10.0);

    assert!(rect_intersects(bigger_rect, smaller_rect));
}

#[test]
fn test_smaller_rect_intersects_bigger_rect() {
    let smaller_rect = (2.0, 2.0, 2.0, 2.0);
    let bigger_rect = (0.0, 0.0, 10.0, 10.0);

    assert!(rect_intersects(smaller_rect, bigger_rect));
}

#[test]
fn test_divisor_zero_component_detected() {
    assert!(divisor_has_zero_component(0.0f32.to_bits(), 5.0f32.to_bits()));
    assert!(divisor_has_zero_component(1.0f32.to_bits(), (-0.0f32).to_bits()));
    assert!(!divisor_has_zero_component(2.0f32.to_bits(), 5.0f32.to_bits()));
}
