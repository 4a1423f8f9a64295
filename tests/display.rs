use erika::display::{damage_bytes, display_size, CursorTrail, InputEvent, SyncRect};
use erika::geometry::{Point, Rect};
use erika::hex::hex;

#[test]
fn display_size_from_path() {
    assert_eq!(display_size("display.vesa:3/1920/1080"), Some((1920, 1080)));
    assert_eq!(display_size("display:3/abc/768/x"), Some((0, 768)));
    assert_eq!(display_size("display:3"), Some((0, 0)));
    assert_eq!(display_size("nocolon"), None);
}

#[test]
fn zero_area_damage_is_nothing() {
    assert_eq!(damage_bytes(Some(Rect { x: 5, y: 5, w: 0, h: 10 }), 100, 100), None);
    assert_eq!(damage_bytes(Some(Rect { x: 5, y: 5, w: 10, h: 0 }), 100, 100), None);
    let full = damage_bytes(None, 2, 1).unwrap();
    assert_eq!(full, vec![0, 0, 0, 0, 0, 0, 0, 0, 2, 0, 0, 0, 1, 0, 0, 0]);
    let part = damage_bytes(Some(Rect { x: -1, y: 256, w: 3, h: 4 }), 100, 100).unwrap();
    assert_eq!(part, vec![0xff, 0xff, 0xff, 0xff, 0, 1, 0, 0, 3, 0, 0, 0, 4, 0, 0, 0]);
}

#[test]
fn sync_rect_from_rect() {
    let s = SyncRect::from_rect(Rect { x: 1, y: 2, w: u32::MAX, h: 4 });
    assert_eq!(s, SyncRect { x: 1, y: 2, w: i32::MAX, h: 4 });
}

#[test]
fn input_records_are_read_whole() {
    let mut bytes = Vec::new();
    for v in [11i64, -3, 7, 2, 0, 1] {
        bytes.extend_from_slice(&v.to_le_bytes());
    }
    bytes.push(9);
    let records = InputEvent::parse_records(&bytes);
    assert_eq!(records, vec![
        InputEvent { code: 11, a: -3, b: 7 },
        InputEvent { code: 2, a: 0, b: 1 },
    ]);
    assert_eq!(InputEvent::new(), InputEvent { code: 0, a: 0, b: 0 });
    let many = vec![0u8; 24 * 70];
    assert_eq!(InputEvent::parse_records(&many).len(), 64);
}

#[test]
fn trail_keeps_one_place() {
    let mut t = CursorTrail::new();
    let first = t.advance(Point::new(10, 10), Point::new(0, 0), 20, 20);
    assert!(first.restore.is_empty());
    assert_eq!(first.sync, vec![Rect { x: 10, y: 10, w: 20, h: 20 }, Rect { x: 10, y: 10, w: 20, h: 20 }]);
    t.advance(Point::new(11, 10), Point::new(0, 0), 20, 20);
    let third = t.advance(Point::new(12, 10), Point::new(0, 0), 20, 20);
    assert_eq!(third.restore.len(), 2);
    assert_eq!(third.dropped, 1);
    assert_eq!(t.rects().len(), 2);
}

#[test]
fn hex_of_bytes() {
    assert_eq!(hex("Hi"), "4869");
    assert_eq!(hex(""), "");
    assert_eq!(hex("\u{ff}"), "C3BF");
}
