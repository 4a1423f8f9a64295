use erika::geometry::{Point, Size};
use erika::options::{parse_coord, FrameOptions};
use erika::protocol::ZIndex;

#[test]
fn canonical_options_parse_back() {
    let o = FrameOptions::from_string(
        "min-size=10,20&max-size=500,400&size=100,200&pos=5,-6&title=Hello&parent=3&minimise&resize&close&transparent&z-lock=front",
    )
    .unwrap();
    assert_eq!(o.min_size, Size::new(10, 20));
    assert_eq!(o.max_size, Size::new(500, 400));
    assert_eq!(o.size, Size::new(100, 200));
    assert_eq!(o.pos, Point::new(5, -6));
    assert_eq!(o.title, "Hello");
    assert_eq!(o.parent, Some(3));
    assert!(o.can_minimise && o.can_resize && o.can_close && o.transparent);
    assert_eq!(o.z_lock, ZIndex::Front);
}

#[test]
fn min_above_max_is_clamped() {
    let o = FrameOptions::from_string("max-size=100,100&min-size=300,300&size=500,50").unwrap();
    assert_eq!(o.min_size, Size::new(100, 100));
    assert_eq!(o.max_size, Size::new(100, 100));
    assert_eq!(o.size, Size::new(100, 100));
    let o = FrameOptions::from_string("min-size=300,300&max-size=100,100").unwrap();
    assert_eq!(o.min_size, Size::new(100, 100));
    assert_eq!(o.max_size, Size::new(100, 100));
    let o = FrameOptions::from_string("min-size=5,5&max-size=1,1").unwrap();
    assert_eq!(o.min_size, Size::new(1, 1));
    assert_eq!(o.max_size, Size::new(1, 1));
    assert_eq!(o.size, Size::new(1, 1));
}

#[test]
fn size_is_clamped_to_final_bounds() {
    let o = FrameOptions::from_string("max-size=5,5&size=10,10&max-size=50,50").unwrap();
    assert_eq!(o.max_size, Size::new(50, 50));
    assert_eq!(o.size, Size::new(10, 10));
}

#[test]
fn size_is_clamped_into_bounds() {
    let o = FrameOptions::from_string("min-size=50,60&size=10,1000&max-size=400,300").unwrap();
    assert_eq!(o.size, Size::new(50, 300));
}

#[test]
fn defaults_and_title() {
    let o = FrameOptions::from_string("title=T&size=200,160").unwrap();
    assert_eq!(o.title, "T");
    assert_eq!(o.size, Size::new(200, 160));
    assert_eq!(o.min_size, Size::new(0, 0));
    assert_eq!(o.max_size, Size::new(i32::MAX, i32::MAX));
    assert_eq!(o.z_lock, ZIndex::Automatic);
    assert_eq!(o.parent, None);
    assert!(!o.can_close);
    let o = FrameOptions::from_string("z-lock=back").unwrap();
    assert_eq!(o.z_lock, ZIndex::Back);
}

#[test]
fn unknown_options_fail() {
    assert_eq!(
        FrameOptions::from_string("size=1,1&bogus=3").unwrap_err(),
        "Invalid option bogus or invalid value"
    );
    assert_eq!(
        FrameOptions::from_string("fullscreen").unwrap_err(),
        "Invalid option fullscreen or invalid value"
    );
}

#[test]
fn coordinates_default_to_zero() {
    assert_eq!(parse_coord("12,-7"), (12, -7));
    assert_eq!(parse_coord("x,5"), (0, 5));
    assert_eq!(parse_coord("9"), (9, 0));
    assert_eq!(parse_coord("+3,99999999999"), (3, 0));
    assert_eq!(parse_coord("-2147483648,2147483647"), (i32::MIN, i32::MAX));
}

#[test]
fn normalise_orders_bounds() {
    let mut o = FrameOptions::new_default();
    o.min_size = Size::new(200, 10);
    o.max_size = Size::new(100, 50);
    o.size = Size::new(300, 0);
    o.pos = Point::new(-4, 9);
    let n = o.normalise();
    assert_eq!(n.min_size, Size::new(100, 10));
    assert_eq!(n.max_size, Size::new(100, 50));
    assert_eq!(n.size, Size::new(100, 10));
    assert_eq!(n.pos, Point::new(0, 9));
}
