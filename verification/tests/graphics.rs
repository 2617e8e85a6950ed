use rusty_mikanos::graphics::{PixelColor, Vector2D};

#[test]
fn pixel_color_from() {
    let p = PixelColor::from(0x123456);
    assert_eq!(p, PixelColor::new(0x12, 0x34, 0x56));
}

#[test]
fn vector2d_element_max() {
    let max = Vector2D::new(100, 20).element_max(Vector2D::new(10, 200));
    assert_eq!(Vector2D::new(100, 200), max);

    let max = Vector2D::new(11, 222).element_max(Vector2D::new(111, 22));
    assert_eq!(Vector2D::new(111, 222), max);

    let max = Vector2D::new(1, 2).element_max(Vector2D::new(1, 2));
    assert_eq!(Vector2D::new(1, 2), max);
}

#[test]
fn vector2d_element_min() {
    let min = Vector2D::new(100, 20).element_min(Vector2D::new(10, 200));
    assert_eq!(Vector2D::new(10, 20), min);

    let min = Vector2D::new(11, 222).element_min(Vector2D::new(111, 22));
    assert_eq!(Vector2D::new(11, 22), min);

    let min = Vector2D::new(1, 2).element_min(Vector2D::new(1, 2));
    assert_eq!(Vector2D::new(1, 2), min);
}

#[test]
fn pixel_color_from_ignores_top_byte() {
    assert_eq!(PixelColor::from(0xff00_0000), PixelColor::new(0, 0, 0));
    assert_eq!(PixelColor::from(0x00ab_cdef), PixelColor::new(0xab, 0xcd, 0xef));
}

#[test]
fn vector2d_add_sub() {
    let a = Vector2D::new(3, -4);
    let b = Vector2D::new(10, 20);
    assert_eq!(a.add(b), Vector2D::new(13, 16));
    assert_eq!(a.sub(b), Vector2D::new(-7, -24));
}
